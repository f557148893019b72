//! The runtime state and command bus.
//!
//! `GET /telemetry` answers with the newest snapshot, `GET /telemetry/history`
//! with a bounded ring of recent snapshots, `POST /command` hands a command to
//! the simulation, and `GET /screenshot` asks for a framebuffer capture that
//! arrives as a file. Requests are routed and answered here; the caller owns
//! the socket, the channels and the disk.

use crate::text::join3;
use crate::text::push_char;
use crate::text::same_text;
use std::collections::VecDeque;
use vstd::prelude::*;

verus! {

/// Default port the bus listens on.
pub const DEFAULT_PORT: u16 = 8787;

/// How many snapshots the ring keeps.
pub const HISTORY_CAP: usize = 120;

/// One frame in this many publishes a snapshot.
pub const HISTORY_DECIMATE: u32 = 3;

/// A published snapshot joins the ring at the back, pushing the oldest out of a
/// full ring.
pub open spec fn ring_after(ring: Seq<Seq<char>>, snapshot: Seq<char>) -> Seq<Seq<char>> {
    if ring.len() == HISTORY_CAP {
        ring.skip(1).push(snapshot)
    } else {
        ring.push(snapshot)
    }
}

/// The ring after a run of snapshots.
pub open spec fn ring_after_all(ring: Seq<Seq<char>>, snapshots: Seq<Seq<char>>) -> Seq<Seq<char>>
    decreases snapshots.len(),
{
    if snapshots.len() == 0 {
        ring
    } else {
        ring_after(ring_after_all(ring, snapshots.drop_last()), snapshots.last())
    }
}

/// The telemetry history, oldest snapshot first, and the frame counter that
/// thins it out.
pub struct BusTelemetry {
    ring: VecDeque<String>,
    frame: u32,
}

impl View for BusTelemetry {
    type V = Seq<Seq<char>>;

    closed spec fn view(&self) -> Seq<Seq<char>> {
        Seq::new(self.ring@.len(), |i: int| self.ring@[i]@)
    }
}

impl BusTelemetry {
    /// Whether the ring is within its bound.
    pub open spec fn wf(self) -> bool {
        self@.len() <= HISTORY_CAP
    }

    /// How many frames have passed, modulo the counter's width.
    pub closed spec fn frames(self) -> int {
        self.frame as int
    }

    /// An empty history.
    pub fn new() -> (t: BusTelemetry)
        ensures
            t.wf(),
            t@ == Seq::<Seq<char>>::empty(),
            t.frames() == 0,
    {
        let t = BusTelemetry { ring: VecDeque::new(), frame: 0 };
        assert(t@ =~= Seq::<Seq<char>>::empty());
        t
    }

    /// Counts a frame; whether this one publishes.
    pub fn tick(&mut self) -> (publish: bool)
        requires
            old(self).wf(),
        ensures
            final(self).wf(),
            final(self)@ == old(self)@,
            final(self).frames() == (old(self).frames() + 1) % 0x1_0000_0000,
            publish == (final(self).frames() % 3 == 0),
    {
        self.frame = self.frame.wrapping_add(1);
        self.frame % HISTORY_DECIMATE == 0
    }

    /// Publishes a snapshot.
    pub fn publish(&mut self, snapshot: String)
        requires
            old(self).wf(),
        ensures
            final(self).wf(),
            final(self)@ == ring_after(old(self)@, snapshot@),
            final(self).frames() == old(self).frames(),
    {
        let ghost before = self@;
        let ghost text = snapshot@;
        if self.ring.len() == HISTORY_CAP {
            self.ring.pop_front();
        }
        self.ring.push_back(snapshot);
        assert(self@ =~= ring_after(before, text));
    }

    /// How many snapshots the ring holds.
    pub fn len(&self) -> (n: usize)
        ensures
            n == self@.len(),
    {
        self.ring.len()
    }

    /// The newest snapshot, or an empty object when there is none.
    fn newest(&self) -> (out: String)
        ensures
            out@ == newest_of(self@),
    {
        let n: usize = self.ring.len();
        if n == 0 {
            "{}".to_owned()
        } else {
            self.ring[n - 1].as_str().to_owned()
        }
    }

    /// The ring as a JSON array, oldest first. Each element is a serialized
    /// object already.
    fn history(&self) -> (out: String)
        ensures
            out@ == "["@ + comma_joined(self@) + "]"@,
    {
        let n: usize = self.ring.len();
        let mut body: String = String::new();
        let mut i: usize = 0;
        assert(self@.take(0) =~= Seq::<Seq<char>>::empty());
        while i < n
            invariant
                n == self.ring@.len(),
                n == self@.len(),
                i <= n,
                body@ == comma_joined(self@.take(i as int)),
            decreases n - i,
        {
            let ghost next = self@.take(i + 1);
            assert(next.drop_last() =~= self@.take(i as int));
            assert(next.last() == self@[i as int]);
            if i > 0 {
                body.append(",");
            }
            body.append(self.ring[i].as_str());
            assert(body@ =~= comma_joined(next));
            i += 1;
        }
        assert(self@.take(n as int) =~= self@);
        join3("[", body.as_str(), "]")
    }
}

/// The newest snapshot, or an empty object when there is none.
pub open spec fn newest_of(ring: Seq<Seq<char>>) -> Seq<char> {
    if ring.len() == 0 {
        "{}"@
    } else {
        ring.last()
    }
}

/// Texts joined by commas.
pub open spec fn comma_joined(items: Seq<Seq<char>>) -> Seq<char>
    decreases items.len(),
{
    if items.len() == 0 {
        Seq::empty()
    } else if items.len() == 1 {
        items[0]
    } else {
        comma_joined(items.drop_last()) + ","@ + items.last()
    }
}

/// One character inside a JSON string: quotes and backslashes take a backslash.
pub open spec fn escaped_char(c: char) -> Seq<char> {
    if c == '\\' || c == '"' {
        seq!['\\', c]
    } else {
        seq![c]
    }
}

/// The inside of a JSON string.
pub open spec fn escaped(s: Seq<char>) -> Seq<char>
    decreases s.len(),
{
    if s.len() == 0 {
        Seq::empty()
    } else {
        escaped(s.drop_last()) + escaped_char(s.last())
    }
}

/// A JSON string literal that holds `s`.
pub open spec fn quoted(s: Seq<char>) -> Seq<char> {
    seq!['"'] + escaped(s) + seq!['"']
}

/// Minimal JSON string escaping for a file path.
pub fn json_string(s: &str) -> (out: String)
    ensures
        out@ == quoted(s@),
{
    let n: usize = s.unicode_len();
    let mut out: String = String::new();
    push_char(&mut out, '"');
    let mut i: usize = 0;
    assert(s@.take(0) =~= Seq::<char>::empty());
    assert(out@ =~= seq!['"'] + escaped(s@.take(0)));
    while i < n
        invariant
            n == s@.len(),
            i <= n,
            out@ == seq!['"'] + escaped(s@.take(i as int)),
        decreases n - i,
    {
        let c: char = s.get_char(i);
        let ghost next = s@.take(i + 1);
        assert(next.drop_last() =~= s@.take(i as int));
        assert(next.last() == c);
        if c == '\\' || c == '"' {
            push_char(&mut out, '\\');
        }
        push_char(&mut out, c);
        assert(out@ =~= seq!['"'] + escaped(next));
        i += 1;
    }
    assert(s@.take(n as int) =~= s@);
    push_char(&mut out, '"');
    assert(out@ =~= quoted(s@));
    out
}

/// What a request asks for.
#[derive(Clone, Copy, Debug, PartialEq, Eq, Structural)]
pub enum Route {
    Telemetry,
    History,
    Command,
    Screenshot,
    Unknown,
}

/// The route of a method and a path.
pub open spec fn route_of(method: Seq<char>, url: Seq<char>) -> Route {
    if method == "GET"@ && url == "/telemetry"@ {
        Route::Telemetry
    } else if method == "GET"@ && url == "/telemetry/history"@ {
        Route::History
    } else if method == "POST"@ && url == "/command"@ {
        Route::Command
    } else if method == "GET"@ && url == "/screenshot"@ {
        Route::Screenshot
    } else {
        Route::Unknown
    }
}

/// Routes a request.
pub fn route(method: &str, url: &str) -> (r: Route)
    ensures
        r == route_of(method@, url@),
{
    if same_text(method, "GET") && same_text(url, "/telemetry") {
        Route::Telemetry
    } else if same_text(method, "GET") && same_text(url, "/telemetry/history") {
        Route::History
    } else if same_text(method, "POST") && same_text(url, "/command") {
        Route::Command
    } else if same_text(method, "GET") && same_text(url, "/screenshot") {
        Route::Screenshot
    } else {
        Route::Unknown
    }
}

/// What the caller has to do besides answering.
#[derive(Clone, Copy, Debug, PartialEq, Eq, Structural)]
pub enum Effect {
    Nothing,
    /// Hand the command that the body holds to the simulation.
    Forward,
    /// Remove the previous capture's file and ask for a new capture.
    Capture,
}

/// An answer: the status, the body, and what it entails.
pub struct Reply {
    pub status: u16,
    pub body: String,
    pub effect: Effect,
}

/// The answer to a request. `refused` is why the body is no command, if it is
/// none.
pub open spec fn reply_of(
    route: Route,
    refused: Option<Seq<char>>,
    ring: Seq<Seq<char>>,
    shot_path: Seq<char>,
) -> (int, Seq<char>, Effect) {
    match route {
        Route::Telemetry => (200, newest_of(ring), Effect::Nothing),
        Route::History => (200, "["@ + comma_joined(ring) + "]"@, Effect::Nothing),
        Route::Command => match refused {
            None => (200, "{\"ok\":true}"@, Effect::Forward),
            Some(e) => (400, "{\"error\":\""@ + e + "\"}"@, Effect::Nothing),
        },
        Route::Screenshot => (
            200,
            "{\"ok\":true,\"path\":"@ + quoted(shot_path) + "}"@,
            Effect::Capture,
        ),
        Route::Unknown => (404, "{\"error\":\"not found\"}"@, Effect::Nothing),
    }
}

/// Answers a request. The body of `POST /command` is read by the caller, which
/// passes on why it is no command, if it is none.
pub fn handle_request(
    method: &str,
    url: &str,
    refused: &Option<String>,
    telemetry: &BusTelemetry,
    shot_path: &str,
) -> (r: Reply)
    ensures
        (r.status as int, r.body@, r.effect) == reply_of(
            route_of(method@, url@),
            refused.deep_view(),
            telemetry@,
            shot_path@,
        ),
{
    match route(method, url) {
        Route::Telemetry => Reply {
            status: 200,
            body: telemetry.newest(),
            effect: Effect::Nothing,
        },
        Route::History => Reply {
            status: 200,
            body: telemetry.history(),
            effect: Effect::Nothing,
        },
        Route::Command => match refused {
            None => Reply {
                status: 200,
                body: "{\"ok\":true}".to_owned(),
                effect: Effect::Forward,
            },
            Some(e) => Reply {
                status: 400,
                body: join3("{\"error\":\"", e.as_str(), "\"}"),
                effect: Effect::Nothing,
            },
        },
        Route::Screenshot => {
            let path: String = json_string(shot_path);
            Reply {
                status: 200,
                body: join3("{\"ok\":true,\"path\":", path.as_str(), "}"),
                effect: Effect::Capture,
            }
        },
        Route::Unknown => Reply {
            status: 404,
            body: "{\"error\":\"not found\"}".to_owned(),
            effect: Effect::Nothing,
        },
    }
}

/// How many captures a frame starts: a burst of requests is one capture.
pub fn drain_screenshots(requests: usize) -> (captures: usize)
    ensures
        captures == (if requests > 0 {
            1int
        } else {
            0
        }),
        captures <= 1,
        captures == 0 <==> requests == 0,
{
    if requests > 0 {
        1
    } else {
        0
    }
}

/// The ring holds the most recent snapshots, in order: all of them until it is
/// full, and from then on the last `HISTORY_CAP`.
pub proof fn lemma_ring_is_the_recent_past(snapshots: Seq<Seq<char>>)
    ensures
        snapshots.len() <= HISTORY_CAP ==> ring_after_all(Seq::empty(), snapshots) == snapshots,
        snapshots.len() > HISTORY_CAP ==> ring_after_all(Seq::empty(), snapshots)
            == snapshots.skip(snapshots.len() - HISTORY_CAP),
    decreases snapshots.len(),
{
    if snapshots.len() > 0 {
        let front = snapshots.drop_last();
        lemma_ring_is_the_recent_past(front);
        assert(front.push(snapshots.last()) =~= snapshots);
        if snapshots.len() > HISTORY_CAP {
            let k = snapshots.len() - HISTORY_CAP;
            if front.len() == HISTORY_CAP {
                assert(front.skip(1).push(snapshots.last()) =~= snapshots.skip(k));
            } else {
                assert(front.skip(k - 1).skip(1).push(snapshots.last()) =~= snapshots.skip(k));
            }
        }
    } else {
        assert(snapshots =~= Seq::<Seq<char>>::empty());
    }
}

/// What was published last is what `GET /telemetry` answers with.
pub proof fn lemma_newest_is_the_last_published(ring: Seq<Seq<char>>, snapshot: Seq<char>)
    ensures
        newest_of(ring_after(ring, snapshot)) == snapshot,
{
}

/// The text inside a JSON string, its escapes undone.
pub open spec fn unescaped(s: Seq<char>) -> Seq<char>
    decreases s.len(),
{
    if s.len() == 0 {
        Seq::empty()
    } else if s[0] == '\\' && s.len() > 1 {
        seq![s[1]] + unescaped(s.skip(2))
    } else {
        seq![s[0]] + unescaped(s.skip(1))
    }
}

/// Escapes undo from the front as well as from the back.
proof fn lemma_escaped_front(s: Seq<char>)
    requires
        s.len() > 0,
    ensures
        escaped(s) == escaped_char(s[0]) + escaped(s.skip(1)),
    decreases s.len(),
{
    if s.len() == 1 {
        assert(s.drop_last() =~= Seq::<char>::empty());
        assert(s.skip(1) =~= Seq::<char>::empty());
        assert(escaped(s) =~= escaped_char(s[0]) + escaped(s.skip(1)));
    } else {
        lemma_escaped_front(s.drop_last());
        assert(s.drop_last().skip(1) =~= s.skip(1).drop_last());
        assert(s.skip(1).last() == s.last());
        assert(escaped(s) =~= escaped_char(s[0]) + escaped(s.skip(1)));
    }
}

/// A path survives being quoted: undoing the escapes gives it back.
pub proof fn lemma_quoted_path_reads_back(s: Seq<char>)
    ensures
        unescaped(escaped(s)) == s,
        quoted(s) == seq!['"'] + escaped(s) + seq!['"'],
    decreases s.len(),
{
    if s.len() > 0 {
        lemma_escaped_front(s);
        lemma_quoted_path_reads_back(s.skip(1));
        let e = escaped(s);
        let tail = escaped(s.skip(1));
        if s[0] == '\\' || s[0] == '"' {
            assert(e[0] == '\\' && e[1] == s[0]);
            assert(e.skip(2) =~= tail);
        } else {
            assert(e[0] == s[0]);
            assert(e.skip(1) =~= tail);
        }
        assert(seq![s[0]] + s.skip(1) =~= s);
    } else {
        assert(s =~= Seq::<char>::empty());
    }
}

/// A command that is refused is answered with status 400 and its reason, and goes
/// no further.
pub proof fn lemma_refused_commands_go_no_further(
    url: Seq<char>,
    method: Seq<char>,
    why: Seq<char>,
    ring: Seq<Seq<char>>,
    shot_path: Seq<char>,
)
    requires
        route_of(method, url) == Route::Command,
    ensures
        reply_of(route_of(method, url), Some(why), ring, shot_path) == (
            400int,
            "{\"error\":\""@ + why + "\"}"@,
            Effect::Nothing,
        ),
{
}

/// Only a command that was understood is passed on, and only a screenshot request
/// captures.
pub proof fn lemma_effects_follow_the_route(
    route: Route,
    refused: Option<Seq<char>>,
    ring: Seq<Seq<char>>,
    shot_path: Seq<char>,
)
    ensures
        reply_of(route, refused, ring, shot_path).2 == Effect::Forward <==> route == Route::Command
            && refused is None,
        reply_of(route, refused, ring, shot_path).2 == Effect::Capture <==> route
            == Route::Screenshot,
        reply_of(route, refused, ring, shot_path).0 == 404 <==> route == Route::Unknown,
{
}

/// The bus reads telemetry, its history and screenshots by `GET`, takes commands by `POST`,
/// each at its own path, and knows nothing else.
pub proof fn lemma_each_route_has_its_request(method: Seq<char>, url: Seq<char>)
    ensures
        route_of(method, url) == Route::Command <==> method == "POST"@ && url == "/command"@,
        route_of(method, url) == Route::Telemetry <==> method == "GET"@ && url == "/telemetry"@,
        route_of(method, url) == Route::History <==> method == "GET"@ && url
            == "/telemetry/history"@,
        route_of(method, url) == Route::Screenshot <==> method == "GET"@ && url == "/screenshot"@,
{
    reveal_strlit("GET");
    reveal_strlit("POST");
    reveal_strlit("/telemetry");
    reveal_strlit("/telemetry/history");
    reveal_strlit("/command");
    reveal_strlit("/screenshot");
    assert("GET"@.len() != "POST"@.len());
    assert("/telemetry"@.len() == 10 && "/telemetry/history"@.len() == 18 && "/screenshot"@.len()
        == 11);
}

/// A request that the bus knows is answered with status 200, but for a command that is
/// refused: that is 400. `GET /telemetry` answers with the newest snapshot, and the history
/// with an array that begins with the oldest and ends with the newest.
pub proof fn lemma_replies_answer_the_request(
    route: Route,
    refused: Option<Seq<char>>,
    ring: Seq<Seq<char>>,
    shot_path: Seq<char>,
)
    ensures
        ({
            let r = reply_of(route, refused, ring, shot_path);
            &&& r.0 == 200 || r.0 == 400 || r.0 == 404
            &&& r.0 == 400 <==> route == Route::Command && refused is Some
            &&& r.0 == 404 <==> route == Route::Unknown
            &&& route == Route::Telemetry && ring.len() > 0 ==> r.1 == ring.last()
            &&& route == Route::Telemetry && ring.len() == 0 ==> r.1 == "{}"@
            &&& route == Route::History ==> {
                &&& r.1.len() >= 2 && r.1[0] == '[' && r.1.last() == ']'
                &&& ring.len() > 0 ==> {
                    let (first, last) = (ring[0], ring.last());
                    &&& r.1.len() >= first.len() + 2 && r.1.subrange(1, first.len() as int + 1) == first
                    &&& r.1.len() >= last.len() + 2 && r.1.subrange(
                        r.1.len() - 1 - last.len(),
                        r.1.len() - 1,
                    ) == last
                }
            }
            &&& route == Route::Screenshot ==> {
                let said = quoted(shot_path) + "}"@;
                r.1.len() >= said.len() && r.1.skip(r.1.len() - said.len()) == said
            }
        }),
{
    let r = reply_of(route, refused, ring, shot_path);
    reveal_strlit("[");
    reveal_strlit("]");
    if route == Route::History && ring.len() > 0 {
        lemma_joined_from_first_to_last(ring);
        let body = comma_joined(ring);
        let (first, last) = (ring[0], ring.last());
        assert(r.1.subrange(1, body.len() as int + 1) =~= body);
        assert(r.1.subrange(1, first.len() as int + 1) =~= body.take(first.len() as int));
        assert(r.1.subrange(r.1.len() - 1 - last.len(), r.1.len() - 1) =~= body.skip(
            body.len() - last.len(),
        ));
    }
    if route == Route::Screenshot {
        let said = quoted(shot_path) + "}"@;
        assert(r.1.skip(r.1.len() - said.len()) =~= said);
    }
}

/// Joined texts begin with the first and end with the last, and a further one comes after
/// a comma.
pub proof fn lemma_joined_from_first_to_last(items: Seq<Seq<char>>)
    requires
        items.len() > 0,
    ensures
        ({
            let all = comma_joined(items);
            let (first, last) = (items[0], items.last());
            &&& all.len() >= first.len() && all.take(first.len() as int) == first
            &&& all.len() >= last.len() && all.skip(all.len() - last.len()) == last
            &&& items.len() > 1 ==> all == comma_joined(items.drop_last()).push(',') + last
        }),
    decreases items.len(),
{
    reveal_strlit(",");
    let all = comma_joined(items);
    if items.len() == 1 {
        assert(all.take(all.len() as int) =~= all);
        assert(all.skip(0) =~= all);
    } else {
        lemma_joined_from_first_to_last(items.drop_last());
        let front = comma_joined(items.drop_last());
        assert(all =~= front.push(',') + items.last());
        assert(all.take(items[0].len() as int) =~= front.take(items[0].len() as int));
        assert(all.skip(all.len() - items.last().len()) =~= items.last());
    }
}

} // verus!
