//! What the command line starts: a headless subcommand, or a scene.

use crate::text::join3;
use crate::text::lower;
use crate::text::lowered;
use crate::text::read_u64;
use crate::text::same_text;
use crate::text::to_lower;
use crate::text::u64_of;
use vstd::prelude::*;

verus! {

/// A shipped scenario document.
#[derive(Clone, Copy, Debug, PartialEq, Eq, Structural)]
pub enum ScenarioDoc {
    Launch,
    Autopilot,
    Play,
    FirstFlight,
}

/// Which scene the windowed app shows. The flight family are one scenario scene
/// with different documents.
#[derive(Clone, Copy, Debug, PartialEq, Eq, Structural)]
pub enum Scene {
    Editor,
    Bodies,
    Planet,
    Rover,
    Dive,
    Break,
    Compartments,
    Flooding,
    WindTunnel,
    Materials,
    Skins,
    Land,
    Collide,
    Crash,
    Workshop,
    TerrainMesh,
    Gallery,
    Harbor,
    Surface,
    Moon,
    /// The scenario scene with this default document.
    Scenario(ScenarioDoc),
    /// Resume a world save.
    Resume,
}

impl ScenarioDoc {
    /// The document's path.
    pub open spec fn location(self) -> Seq<char> {
        match self {
            ScenarioDoc::Launch => "content/scenarios/launch.ron"@,
            ScenarioDoc::Autopilot => "content/scenarios/autopilot.ron"@,
            ScenarioDoc::Play => "content/scenarios/play.ron"@,
            ScenarioDoc::FirstFlight => "content/scenarios/first-flight.ron"@,
        }
    }

    /// The document's path.
    pub fn path(self) -> (s: &'static str)
        ensures
            s@ == self.location(),
    {
        match self {
            ScenarioDoc::Launch => "content/scenarios/launch.ron",
            ScenarioDoc::Autopilot => "content/scenarios/autopilot.ron",
            ScenarioDoc::Play => "content/scenarios/play.ron",
            ScenarioDoc::FirstFlight => "content/scenarios/first-flight.ron",
        }
    }
}

/// The scene of a name; any other name is the editor.
pub open spec fn scene_named(name: Seq<char>) -> Scene {
    if name == "bodies"@ {
        Scene::Bodies
    } else if name == "planet"@ {
        Scene::Planet
    } else if name == "rover"@ {
        Scene::Rover
    } else if name == "dive"@ {
        Scene::Dive
    } else if name == "break"@ {
        Scene::Break
    } else if name == "compartments"@ {
        Scene::Compartments
    } else if name == "flooding"@ {
        Scene::Flooding
    } else if name == "windtunnel"@ {
        Scene::WindTunnel
    } else if name == "materials"@ {
        Scene::Materials
    } else if name == "skins"@ {
        Scene::Skins
    } else if name == "land"@ {
        Scene::Land
    } else if name == "collide"@ {
        Scene::Collide
    } else if name == "crash"@ {
        Scene::Crash
    } else if name == "workshop"@ {
        Scene::Workshop
    } else if name == "terrainmesh"@ {
        Scene::TerrainMesh
    } else if name == "gallery"@ {
        Scene::Gallery
    } else if name == "harbor"@ {
        Scene::Harbor
    } else if name == "surface"@ {
        Scene::Surface
    } else if name == "moon"@ {
        Scene::Moon
    } else if name == "resume"@ {
        Scene::Resume
    } else if name == "launch"@ {
        Scene::Scenario(ScenarioDoc::Launch)
    } else if name == "autopilot"@ {
        Scene::Scenario(ScenarioDoc::Autopilot)
    } else if name == "play"@ {
        Scene::Scenario(ScenarioDoc::Play)
    } else if name == "scenario"@ {
        Scene::Scenario(ScenarioDoc::FirstFlight)
    } else {
        Scene::Editor
    }
}

/// The scene that the first argument asks for; without one, the editor.
#[verifier::rlimit(40)]
pub fn selected_scene(arg: Option<&str>) -> (s: Scene)
    ensures
        s == (match arg {
            Some(name) => scene_named(name@),
            None => Scene::Editor,
        }),
{
    match arg {
        Some(name) => named(name),
        None => Scene::Editor,
    }
}

/// Looks a scene up.
#[verifier::rlimit(40)]
fn named(name: &str) -> (s: Scene)
    ensures
        s == scene_named(name@),
{
    if same_text(name, "bodies") {
        Scene::Bodies
    } else if same_text(name, "planet") {
        Scene::Planet
    } else if same_text(name, "rover") {
        Scene::Rover
    } else if same_text(name, "dive") {
        Scene::Dive
    } else if same_text(name, "break") {
        Scene::Break
    } else if same_text(name, "compartments") {
        Scene::Compartments
    } else if same_text(name, "flooding") {
        Scene::Flooding
    } else if same_text(name, "windtunnel") {
        Scene::WindTunnel
    } else if same_text(name, "materials") {
        Scene::Materials
    } else if same_text(name, "skins") {
        Scene::Skins
    } else if same_text(name, "land") {
        Scene::Land
    } else if same_text(name, "collide") {
        Scene::Collide
    } else if same_text(name, "crash") {
        Scene::Crash
    } else if same_text(name, "workshop") {
        Scene::Workshop
    } else if same_text(name, "terrainmesh") {
        Scene::TerrainMesh
    } else if same_text(name, "gallery") {
        Scene::Gallery
    } else if same_text(name, "harbor") {
        Scene::Harbor
    } else if same_text(name, "surface") {
        Scene::Surface
    } else if same_text(name, "moon") {
        Scene::Moon
    } else if same_text(name, "resume") {
        Scene::Resume
    } else if same_text(name, "launch") {
        Scene::Scenario(ScenarioDoc::Launch)
    } else if same_text(name, "autopilot") {
        Scene::Scenario(ScenarioDoc::Autopilot)
    } else if same_text(name, "play") {
        Scene::Scenario(ScenarioDoc::Play)
    } else if same_text(name, "scenario") {
        Scene::Scenario(ScenarioDoc::FirstFlight)
    } else {
        Scene::Editor
    }
}

/// What a command line starts.
#[derive(Clone, Copy, Debug, PartialEq, Eq, Structural)]
pub enum Start {
    /// `sounding check`, with the arguments from the third on.
    Check,
    /// `sounding export-body`, with the arguments from the third on.
    ExportBody,
    /// A scene.
    Show(Scene),
}

/// What the first argument starts: the headless subcommands come before any
/// scene.
pub fn dispatch(arg: Option<&str>) -> (s: Start)
    ensures
        s == (match arg {
            Some(name) => if name@ == "check"@ {
                Start::Check
            } else if name@ == "export-body"@ {
                Start::ExportBody
            } else {
                Start::Show(scene_named(name@))
            },
            None => Start::Show(Scene::Editor),
        }),
{
    match arg {
        Some(name) => {
            if same_text(name, "check") {
                Start::Check
            } else if same_text(name, "export-body") {
                Start::ExportBody
            } else {
                Start::Show(named(name))
            }
        },
        None => Start::Show(Scene::Editor),
    }
}

/// The document that a scenario scene loads: the second argument, or else the
/// scene's own.
pub fn scenario_path(doc: ScenarioDoc, arg: Option<&str>) -> (s: String)
    ensures
        s@ == (match arg {
            Some(path) => path@,
            None => doc.location(),
        }),
        s@ == document_path(doc, arg.deep_view()),
{
    match arg {
        Some(path) => path.to_owned(),
        None => doc.path().to_owned(),
    }
}

/// The world save that `resume [slug]` resumes: the one that the slug names, or
/// else the most recent one, if there is any.
pub fn resumed_save(slug: Option<&str>, latest: &Option<String>) -> (s: Option<String>)
    ensures
        match slug {
            Some(name) => s.deep_view() == Some("saves/worlds/"@ + name@ + ".json"@),
            None => s.deep_view() == latest.deep_view(),
        },
{
    match slug {
        Some(name) => Some(join3("saves/worlds/", name, ".json")),
        None => match latest {
            Some(path) => Some(path.as_str().to_owned()),
            None => None,
        },
    }
}

/// A body archetype's two names.
#[derive(Debug, PartialEq, Eq)]
pub struct ArchetypeNames {
    pub slug: String,
    pub label: String,
}

/// Whether two names are the same but for ASCII case.
pub open spec fn same_but_case(a: Seq<char>, b: Seq<char>) -> bool {
    lowered(a) == lowered(b)
}

/// Whether two names are the same but for ASCII case.
pub fn eq_ignore_case(a: &str, b: &str) -> (r: bool)
    ensures
        r == same_but_case(a@, b@),
{
    let n: usize = a.unicode_len();
    if n != b.unicode_len() {
        assert(lowered(a@).len() != lowered(b@).len());
        return false;
    }
    let mut i: usize = 0;
    while i < n
        invariant
            n == a@.len(),
            n == b@.len(),
            i <= n,
            forall|j: int| 0 <= j < i ==> lower(#[trigger] a@[j]) == lower(b@[j]),
        decreases n - i,
    {
        if to_lower(a.get_char(i)) != to_lower(b.get_char(i)) {
            assert(lowered(a@)[i as int] != lowered(b@)[i as int]);
            return false;
        }
        i += 1;
    }
    assert(lowered(a@) =~= lowered(b@));
    true
}

/// Whether a name is an archetype's slug or label, but for ASCII case.
pub open spec fn names_archetype(a: ArchetypeNames, name: Seq<char>) -> bool {
    same_but_case(a.slug@, name) || same_but_case(a.label@, name)
}

/// The first archetype that a name names.
pub open spec fn archetype_named(all: Seq<ArchetypeNames>, name: Seq<char>) -> Option<int>
    decreases all.len(),
{
    if all.len() == 0 {
        None
    } else {
        match archetype_named(all.drop_last(), name) {
            Some(i) => Some(i),
            None => if names_archetype(all.last(), name) {
                Some(all.len() - 1)
            } else {
                None
            },
        }
    }
}

/// The archetype that a word asks for: by a name, or else by its place in the
/// list.
pub open spec fn archetype_of(all: Seq<ArchetypeNames>, word: Seq<char>) -> Option<int> {
    match archetype_named(all, word) {
        Some(i) => Some(i),
        None => match u64_of(word) {
            Some(n) => if n < all.len() {
                Some(n as int)
            } else {
                None
            },
            None => None,
        },
    }
}

/// A name is never taken for a place: the place counts only where no archetype
/// bears the word as a name.
pub proof fn lemma_names_come_before_places(all: Seq<ArchetypeNames>, word: Seq<char>)
    ensures
        archetype_named(all, word) is Some ==> archetype_of(all, word) == archetype_named(
            all,
            word,
        ),
        archetype_named(all, word) is None && u64_of(word) is Some && u64_of(word)->0 < all.len()
            ==> archetype_of(all, word) == Some(u64_of(word)->0 as int),
{
}

/// The arguments after the first word that is `surface`.
pub open spec fn after_surface(args: Seq<Seq<char>>) -> Seq<Seq<char>>
    decreases args.len(),
{
    if args.len() == 0 {
        args
    } else if args[0] == "surface"@ {
        args.skip(1)
    } else {
        after_surface(args.skip(1))
    }
}

/// Looks an archetype up.
fn find_archetype(all: &Vec<ArchetypeNames>, name: &str) -> (r: Option<usize>)
    ensures
        match r {
            Some(i) => archetype_of(all@, name@) == Some(i as int),
            None => archetype_of(all@, name@) is None,
        },
{
    let mut found: Option<usize> = None;
    let mut i: usize = 0;
    assert(all@.take(0) =~= Seq::<ArchetypeNames>::empty());
    while i < all.len()
        invariant
            i <= all.len(),
            match found {
                Some(k) => archetype_named(all@.take(i as int), name@) == Some(k as int),
                None => archetype_named(all@.take(i as int), name@) is None,
            },
        decreases all.len() - i,
    {
        assert(all@.take(i + 1).drop_last() =~= all@.take(i as int));
        assert(all@.take(i + 1).last() == all@[i as int]);
        if found.is_none() && (eq_ignore_case(all[i].slug.as_str(), name) || eq_ignore_case(
            all[i].label.as_str(),
            name,
        )) {
            found = Some(i);
        }
        i += 1;
    }
    assert(all@.take(i as int) =~= all@);
    if found.is_none() {
        match read_u64(name) {
            Some(n) => {
                if n < all.len() as u64 {
                    return Some(n as usize);
                }
            },
            None => {},
        }
    }
    found
}

/// The seed and the archetype that `surface [seed] [archetype]` asks for: seven
/// and the fallback archetype when they are absent or not understood.
pub fn surface_args(args: &Vec<String>, all: &Vec<ArchetypeNames>, fallback: usize) -> (r: (
    u64,
    usize,
))
    ensures
        ({
            let rest = after_surface(args.deep_view());
            &&& r.0 == (if rest.len() > 0 && u64_of(rest[0]) is Some {
                u64_of(rest[0])->0
            } else {
                7
            })
            &&& r.1 as int == (if rest.len() > 1 && archetype_of(all@, rest[1]) is Some {
                archetype_of(all@, rest[1])->0
            } else {
                fallback as int
            })
        }),
{
    let ghost words = args.deep_view();
    let n: usize = args.len();
    let mut i: usize = 0;
    assert(words.skip(0) =~= words);
    while i < n && !same_text(args[i].as_str(), "surface")
        invariant
            n == args@.len(),
            words == args.deep_view(),
            i <= n,
            after_surface(words) == after_surface(words.skip(i as int)),
        decreases n - i,
    {
        assert(words.skip(i as int)[0] == args@[i as int]@);
        assert(words.skip(i as int).skip(1) =~= words.skip(i + 1));
        i += 1;
    }
    let from: usize = if i < n {
        i + 1
    } else {
        n
    };
    proof {
        if i < n {
            assert(words.skip(i as int)[0] == args@[i as int]@);
            assert(words.skip(i as int).skip(1) =~= words.skip(i + 1));
        }
        assert(after_surface(words) =~= words.skip(from as int));
    }
    let ghost rest = words.skip(from as int);
    assert(from < n ==> rest[0] == args@[from as int]@);
    assert(from + 1 < n ==> rest[1] == args@[from + 1]@);
    let seed: u64 = if from < n {
        match read_u64(args[from].as_str()) {
            Some(s) => s,
            None => 7,
        }
    } else {
        7
    };
    let archetype: usize = if n - from > 1 {
        match find_archetype(all, args[from + 1].as_str()) {
            Some(k) => k,
            None => fallback,
        }
    } else {
        fallback
    };
    (seed, archetype)
}

/// The first letters that tell the scenes' names apart.
proof fn lemma_scene_letters()
    ensures
        "bodies"@.len() == 6 && "bodies"@[0] == 'b',
        "planet"@.len() == 6 && "planet"@[0] == 'p',
        "rover"@.len() == 5 && "rover"@[0] == 'r',
        "dive"@.len() == 4 && "dive"@[0] == 'd',
        "break"@.len() == 5 && "break"@[0] == 'b',
        "compartments"@.len() == 12,
        "flooding"@.len() == 8 && "flooding"@[0] == 'f',
        "windtunnel"@.len() == 10 && "windtunnel"@[0] == 'w',
        "materials"@.len() == 9 && "materials"@[0] == 'm',
        "skins"@.len() == 5 && "skins"@[0] == 's',
        "land"@.len() == 4 && "land"@[0] == 'l',
        "collide"@.len() == 7 && "collide"@[0] == 'c',
        "crash"@.len() == 5 && "crash"@[0] == 'c',
        "workshop"@.len() == 8 && "workshop"@[0] == 'w',
        "terrainmesh"@.len() == 11,
        "gallery"@.len() == 7 && "gallery"@[0] == 'g',
        "harbor"@.len() == 6 && "harbor"@[0] == 'h',
        "surface"@.len() == 7 && "surface"@[0] == 's',
        "moon"@.len() == 4 && "moon"@[0] == 'm',
        "resume"@.len() == 6 && "resume"@[0] == 'r',
        "launch"@.len() == 6 && "launch"@[0] == 'l',
        "autopilot"@.len() == 9 && "autopilot"@[0] == 'a',
        "play"@.len() == 4 && "play"@[0] == 'p',
        "scenario"@.len() == 8 && "scenario"@[0] == 's',
{
    reveal_strlit("bodies");
    reveal_strlit("planet");
    reveal_strlit("rover");
    reveal_strlit("dive");
    reveal_strlit("break");
    reveal_strlit("compartments");
    reveal_strlit("flooding");
    reveal_strlit("windtunnel");
    reveal_strlit("materials");
    reveal_strlit("skins");
    reveal_strlit("land");
    reveal_strlit("collide");
    reveal_strlit("crash");
    reveal_strlit("workshop");
    reveal_strlit("terrainmesh");
    reveal_strlit("gallery");
    reveal_strlit("harbor");
    reveal_strlit("surface");
    reveal_strlit("moon");
    reveal_strlit("resume");
    reveal_strlit("launch");
    reveal_strlit("autopilot");
    reveal_strlit("play");
    reveal_strlit("scenario");
}

/// Every scene but the editor is reached by its own name, and by no other.
#[verifier::rlimit(60)]
pub proof fn lemma_every_scene_has_its_name(name: Seq<char>)
    ensures
        ({
            let s = scene_named(name);
            &&& s == Scene::Bodies <==> name == "bodies"@
            &&& s == Scene::Planet <==> name == "planet"@
            &&& s == Scene::Rover <==> name == "rover"@
            &&& s == Scene::Dive <==> name == "dive"@
            &&& s == Scene::Break <==> name == "break"@
            &&& s == Scene::Compartments <==> name == "compartments"@
            &&& s == Scene::Flooding <==> name == "flooding"@
            &&& s == Scene::WindTunnel <==> name == "windtunnel"@
            &&& s == Scene::Materials <==> name == "materials"@
            &&& s == Scene::Skins <==> name == "skins"@
            &&& s == Scene::Land <==> name == "land"@
            &&& s == Scene::Collide <==> name == "collide"@
            &&& s == Scene::Crash <==> name == "crash"@
            &&& s == Scene::Workshop <==> name == "workshop"@
            &&& s == Scene::TerrainMesh <==> name == "terrainmesh"@
            &&& s == Scene::Gallery <==> name == "gallery"@
            &&& s == Scene::Harbor <==> name == "harbor"@
            &&& s == Scene::Surface <==> name == "surface"@
            &&& s == Scene::Moon <==> name == "moon"@
            &&& s == Scene::Resume <==> name == "resume"@
            &&& s == Scene::Scenario(ScenarioDoc::Launch) <==> name == "launch"@
            &&& s == Scene::Scenario(ScenarioDoc::Autopilot) <==> name == "autopilot"@
            &&& s == Scene::Scenario(ScenarioDoc::Play) <==> name == "play"@
            &&& s == Scene::Scenario(ScenarioDoc::FirstFlight) <==> name == "scenario"@
        }),
{
    lemma_scene_letters();
}

/// The archetype that a word asks for by name bears it, and no earlier one does.
pub proof fn lemma_the_first_bearer_is_taken(all: Seq<ArchetypeNames>, name: Seq<char>)
    ensures
        archetype_named(all, name) matches Some(k) ==> {
            &&& 0 <= k < all.len()
            &&& lowered(all[k].slug@) == lowered(name) || lowered(all[k].label@) == lowered(name)
            &&& forall|i: int|
                0 <= i < k ==> lowered((#[trigger] all[i]).slug@) != lowered(name) && lowered(
                    all[i].label@,
                ) != lowered(name)
        },
        archetype_named(all, name) is None ==> forall|i: int|
            0 <= i < all.len() ==> lowered((#[trigger] all[i]).slug@) != lowered(name) && lowered(
                all[i].label@,
            ) != lowered(name),
    decreases all.len(),
{
    if all.len() > 0 {
        let t = all.drop_last();
        lemma_the_first_bearer_is_taken(t, name);
        assert(forall|i: int| 0 <= i < t.len() ==> #[trigger] all[i] == t[i]);
        assert(all.last() == all[all.len() - 1]);
    }
}

/// What comes before the word `surface` does not count: the arguments are those after its
/// first place, and none if it is nowhere.
pub proof fn lemma_arguments_come_after_the_word(
    before: Seq<Seq<char>>,
    after: Seq<Seq<char>>,
)
    requires
        forall|i: int| 0 <= i < before.len() ==> #[trigger] before[i] != "surface"@,
    ensures
        after_surface(before + seq!["surface"@] + after) == after,
        after_surface(before).len() == 0,
    decreases before.len(),
{
    let all = before + seq!["surface"@] + after;
    if before.len() == 0 {
        assert(all.skip(1) =~= after);
    } else {
        let rest = before.skip(1);
        assert forall|i: int| 0 <= i < rest.len() implies #[trigger] rest[i] != "surface"@ by {
            assert(rest[i] == before[i + 1]);
        }
        lemma_arguments_come_after_the_word(rest, after);
        assert(all[0] == before[0]);
        assert(all.skip(1) =~= rest + seq!["surface"@] + after);
    }
}

/// The document that a scenario scene loads.
pub open spec fn document_path(doc: ScenarioDoc, arg: Option<Seq<char>>) -> Seq<char> {
    match arg {
        Some(path) => path,
        None => doc.location(),
    }
}

/// A path on the command line always wins over the scene's own; a scene's own document is the
/// one that bears the scene's name, in the scenarios' directory.
pub proof fn lemma_documents_bear_their_names(doc: ScenarioDoc, path: Seq<char>)
    ensures
        document_path(doc, Some(path)) == path,
        document_path(doc, None).take(18) == "content/scenarios/"@,
        document_path(ScenarioDoc::Launch, None).skip(18) == "launch"@ + ".ron"@,
        document_path(ScenarioDoc::Autopilot, None).skip(18) == "autopilot"@ + ".ron"@,
        document_path(ScenarioDoc::Play, None).skip(18) == "play"@ + ".ron"@,
        document_path(ScenarioDoc::FirstFlight, None).skip(18) == "first-flight"@ + ".ron"@,
{
    reveal_strlit("content/scenarios/");
    reveal_strlit("content/scenarios/launch.ron");
    reveal_strlit("content/scenarios/autopilot.ron");
    reveal_strlit("content/scenarios/play.ron");
    reveal_strlit("content/scenarios/first-flight.ron");
    reveal_strlit("launch");
    reveal_strlit("autopilot");
    reveal_strlit("play");
    reveal_strlit("first-flight");
    reveal_strlit(".ron");
    assert(document_path(doc, None).take(18) =~= "content/scenarios/"@);
    assert(document_path(ScenarioDoc::Launch, None).skip(18) =~= "launch"@ + ".ron"@);
    assert(document_path(ScenarioDoc::Autopilot, None).skip(18) =~= "autopilot"@ + ".ron"@);
    assert(document_path(ScenarioDoc::Play, None).skip(18) =~= "play"@ + ".ron"@);
    assert(document_path(ScenarioDoc::FirstFlight, None).skip(18) =~= "first-flight"@ + ".ron"@);
}

/// What a word asks for is one of the archetypes, or nothing: a place past the last is nothing,
/// and so is a word that is neither a name nor a number.
pub proof fn lemma_only_known_archetypes_are_asked_for(all: Seq<ArchetypeNames>, word: Seq<char>)
    ensures
        archetype_of(all, word) matches Some(i) ==> 0 <= i < all.len(),
        archetype_named(all, word) is None && (u64_of(word) is None || u64_of(word)->0 >= all.len())
            ==> archetype_of(all, word) is None,
{
    lemma_the_first_bearer_is_taken(all, word);
}

} // verus!
