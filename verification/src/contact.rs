//! Bodies that collide: the order in which a sub-step handles them, what a
//! fracture leaves behind, and what the crash, collide and break scenes show.

use crate::harness_fixture::name_in_slot;
use crate::harness_fixture::slot_name;
use crate::harness_fixture::Fixture;
use crate::input::KeyCode;
use crate::input::Keyboard;
use crate::readout::field;
use crate::readout::show;
use crate::readout::shown;
use crate::readout::Field;
use crate::shapes::bar_craft;
use crate::shapes::bar_plan;
use crate::shapes::built;
use crate::shapes::cube_craft;
use crate::shapes::cube_plan;
use crate::shapes::plain;
use crate::shapes::METRE_UM;
use crate::text::decimal;
use crate::text::push_decimal;
use crate::voxel::copy_craft;
use crate::voxel::CraftSpec;
use crate::voxel::Material;
use crate::voxel::VoxelCraft;
use crate::text::lemma_says_its_end;
use crate::text::lemma_says_itself;
use crate::text::lemma_says_on;
use crate::text::says;
use vstd::prelude::*;

verus! {

/// One act of a sub-step; bodies are given by their place.
#[derive(Clone, Copy, Debug, PartialEq, Eq, Structural)]
pub enum Act {
    /// Add the ground's push on a body to its load.
    Ground { body: usize },
    /// Add the projectile's thrust to its load.
    Thrust,
    /// Add the push of two bodies on one another to both loads.
    Pair { a: usize, b: usize },
    /// Move a body under its load.
    Integrate { body: usize, thrust: bool },
    /// Hold the projectile's contact load against its bonds.
    Fracture,
}

/// The ground's push on each body.
pub open spec fn grounds(n: nat) -> Seq<Act> {
    Seq::new(n, |i: int| Act::Ground { body: i as usize })
}

/// A body against each later one.
pub open spec fn pairs_of(i: int, n: int) -> Seq<Act> {
    Seq::new((n - i - 1) as nat, |k: int| Act::Pair { a: i as usize, b: (i + 1 + k) as usize })
}

/// The pairs of the first `m` bodies with the later ones.
pub open spec fn pairs(m: int, n: int) -> Seq<Act>
    decreases m,
{
    if m <= 0 {
        Seq::empty()
    } else {
        pairs(m - 1, n) + pairs_of(m - 1, n)
    }
}

/// The motion of each body; the first is thrust on if asked for.
pub open spec fn integrals(n: nat, thrust: bool) -> Seq<Act> {
    Seq::new(n, |i: int| Act::Integrate { body: i as usize, thrust: thrust && i == 0 })
}

/// The crash scene's sub-step: all contacts first, then the motion, then the
/// test of a projectile that is still in one piece.
pub open spec fn crash_acts(n: nat, intact: bool, thrust: bool) -> Seq<Act> {
    grounds(n) + pairs(n as int, n as int) + integrals(n, intact && thrust) + (if intact {
        seq![Act::Fracture]
    } else {
        Seq::empty()
    })
}

/// The collide scene's sub-step: the ground, the thrust, the pairs, the motion.
pub open spec fn collide_acts(n: nat, thrust: bool) -> Seq<Act> {
    grounds(n) + (if thrust {
        seq![Act::Thrust]
    } else {
        Seq::empty()
    }) + pairs(n as int, n as int) + integrals(n, false)
}

/// Appends the ground's push on each body.
fn push_grounds(out: &mut Vec<Act>, n: usize)
    ensures
        final(out)@ == old(out)@ + grounds(n as nat),
{
    let ghost before = out@;
    let mut i: usize = 0;
    assert(out@ =~= before + grounds(0));
    while i < n
        invariant
            i <= n,
            out@ == before + grounds(i as nat),
        decreases n - i,
    {
        out.push(Act::Ground { body: i });
        i += 1;
        assert(out@ =~= before + grounds(i as nat));
    }
}

/// Appends every pair.
fn push_pairs(out: &mut Vec<Act>, n: usize)
    ensures
        final(out)@ == old(out)@ + pairs(n as int, n as int),
{
    let ghost before = out@;
    let mut i: usize = 0;
    assert(out@ =~= before + pairs(0, n as int));
    while i < n
        invariant
            i <= n,
            out@ == before + pairs(i as int, n as int),
        decreases n - i,
    {
        let ghost row = out@;
        let mut j: usize = i + 1;
        assert(out@ =~= row + pairs_of(i as int, n as int).take(0));
        while j < n
            invariant
                i < n,
                i + 1 <= j <= n,
                out@ == row + pairs_of(i as int, n as int).take(j - i - 1),
            decreases n - j,
        {
            out.push(Act::Pair { a: i, b: j });
            j += 1;
            assert(out@ =~= row + pairs_of(i as int, n as int).take(j - i - 1));
        }
        assert(pairs_of(i as int, n as int).take(n - i - 1) =~= pairs_of(i as int, n as int));
        i += 1;
        assert(out@ =~= before + pairs(i as int, n as int));
    }
}

/// Appends the motion of each body.
fn push_integrals(out: &mut Vec<Act>, n: usize, thrust: bool)
    ensures
        final(out)@ == old(out)@ + integrals(n as nat, thrust),
{
    let ghost before = out@;
    let mut i: usize = 0;
    assert(out@ =~= before + integrals(0, thrust));
    while i < n
        invariant
            i <= n,
            out@ == before + integrals(i as nat, thrust),
        decreases n - i,
    {
        out.push(Act::Integrate { body: i, thrust: thrust && i == 0 });
        i += 1;
        assert(out@ =~= before + integrals(i as nat, thrust));
    }
}

/// Plans the crash scene's sub-step.
pub fn crash_substep(n: usize, intact: bool, thrust: bool) -> (out: Vec<Act>)
    ensures
        out@ == crash_acts(n as nat, intact, thrust),
{
    let mut out: Vec<Act> = Vec::new();
    push_grounds(&mut out, n);
    assert(out@ =~= grounds(n as nat));
    push_pairs(&mut out, n);
    push_integrals(&mut out, n, intact && thrust);
    if intact {
        out.push(Act::Fracture);
    }
    assert(out@ =~= crash_acts(n as nat, intact, thrust));
    out
}

/// Plans the collide scene's sub-step.
pub fn collide_substep(n: usize, thrust: bool) -> (out: Vec<Act>)
    ensures
        out@ == collide_acts(n as nat, thrust),
{
    let mut out: Vec<Act> = Vec::new();
    push_grounds(&mut out, n);
    assert(out@ =~= grounds(n as nat));
    if thrust {
        out.push(Act::Thrust);
    }
    assert(out@ =~= grounds(n as nat) + (if thrust {
        seq![Act::Thrust]
    } else {
        Seq::empty()
    }));
    push_pairs(&mut out, n);
    push_integrals(&mut out, n, false);
    out
}

/// Whether one pair comes before another.
pub open spec fn pair_before(p: Act, q: Act) -> bool {
    match (p, q) {
        (Act::Pair { a: a1, b: b1 }, Act::Pair { a: a2, b: b2 }) => a1 < a2 || (a1 == a2 && b1
            < b2),
        _ => false,
    }
}

/// Every two bodies meet, in one pair: the pairs are exactly those with the first
/// body before the second.
pub proof fn lemma_every_two_bodies_meet(m: int, n: int, a: usize, b: usize)
    requires
        0 <= m <= n <= usize::MAX,
    ensures
        pairs(m, n).contains(Act::Pair { a, b }) == (a < b < n && a < m),
    decreases m,
{
    let act = Act::Pair { a, b };
    if m > 0 {
        lemma_every_two_bodies_meet(m - 1, n, a, b);
        let (s, t) = (pairs(m - 1, n), pairs_of(m - 1, n));
        if s.contains(act) {
            let i = choose|i: int| 0 <= i < s.len() && s[i] == act;
            assert((s + t)[i] == act);
        }
        if a == m - 1 && a < b < n {
            assert(t[b - a - 1] == act);
            assert((s + t)[s.len() + (b - a - 1)] == act);
        }
        if (s + t).contains(act) {
            let i = choose|i: int| 0 <= i < (s + t).len() && (s + t)[i] == act;
            if i < s.len() {
                assert(s[i] == act);
            } else {
                assert(t[i - s.len()] == act);
            }
        }
    }
}

/// No two bodies meet twice in a sub-step.
pub proof fn lemma_no_two_bodies_meet_twice(m: int, n: int)
    requires
        0 <= m <= n <= usize::MAX,
    ensures
        forall|i: int, j: int|
            0 <= i < j < pairs(m, n).len() ==> pair_before(
                #[trigger] pairs(m, n)[i],
                #[trigger] pairs(m, n)[j],
            ),
    decreases m,
{
    if m > 0 {
        lemma_no_two_bodies_meet_twice(m - 1, n);
        let (s, t) = (pairs(m - 1, n), pairs_of(m - 1, n));
        let u = pairs(m, n);
        assert(u == s + t);
        assert forall|i: int, j: int| 0 <= i < j < u.len() implies pair_before(
            #[trigger] u[i],
            #[trigger] u[j],
        ) by {
            if j < s.len() {
                assert(u[i] == s[i] && u[j] == s[j]);
            } else if i >= s.len() {
                assert(u[i] == t[i - s.len()] && u[j] == t[j - s.len()]);
            } else {
                assert(u[i] == s[i] && u[j] == t[j - s.len()]);
                lemma_pairs_start_low(m - 1, n, i);
            }
        }
    }
}

proof fn lemma_pairs_start_low(m: int, n: int, i: int)
    requires
        0 <= m <= n <= usize::MAX,
        0 <= i < pairs(m, n).len(),
    ensures
        pairs(m, n)[i] matches Act::Pair { a, b } && a < m,
    decreases m,
{
    if m > 0 {
        let (s, t) = (pairs(m - 1, n), pairs_of(m - 1, n));
        if i < s.len() {
            lemma_pairs_start_low(m - 1, n, i);
            assert((s + t)[i] == s[i]);
        } else {
            assert((s + t)[i] == t[i - s.len()]);
        }
    }
}

/// How a piece is drawn.
#[derive(Clone, Copy, Debug, PartialEq, Eq, Structural)]
pub enum PieceColor {
    Projectile,
    Target,
    /// One of the fragments' palette.
    Fragment { slot: u8 },
}

/// The number of colours for fragments.
pub const FRAGMENT_COLORS: usize = 5;

/// A piece: its lattice, its rigid state, its colour.
#[derive(Debug, PartialEq, Eq)]
pub struct Piece<B> {
    pub voxels: VoxelCraft,
    pub body: B,
    pub color: PieceColor,
}

/// Where a ram starts: the projectile's middle and the target's, in millimetres,
/// each as high above the ground as its craft rests.
pub open spec fn starts(projectile_rest: int, target_rest: int) -> (
    (int, int, int),
    (int, int, int),
) {
    ((-9_000, projectile_rest, 0), (3_000, target_rest, 0))
}

/// Where a projectile and a target start that rest at these heights, in
/// millimetres.
pub fn resting_positions(projectile_rest: i32, target_rest: i32) -> (r: (
    (i32, i32, i32),
    (i32, i32, i32),
))
    ensures
        ({
            let s = starts(projectile_rest as int, target_rest as int);
            &&& (r.0.0 as int, r.0.1 as int, r.0.2 as int) == s.0
            &&& (r.1.0 as int, r.1.1 as int, r.1.2 as int) == s.1
        }),
{
    ((-9_000, projectile_rest, 0), (3_000, target_rest, 0))
}

/// Where the bar and the block start, in millimetres.
pub fn start_positions() -> (r: ((i32, i32, i32), (i32, i32, i32)))
    ensures
        (r.0.0 as int, r.0.1 as int, r.0.2 as int) == starts(500, 1_500).0,
        (r.1.0 as int, r.1.1 as int, r.1.2 as int) == starts(500, 1_500).1,
{
    resting_positions(500, 1_500)
}

/// What a ram throws: the craft that was loaded, or a brittle bar of six cells.
pub open spec fn thrown_spec(slot: Option<Fixture>) -> CraftSpec {
    match slot {
        Some(f) => f.craft@,
        None => plain(METRE_UM as int, built(bar_plan(6, Material::Frangible))),
    }
}

/// What a ram hits: the craft that was loaded, or a steel block of three cells.
pub open spec fn struck_spec(slot: Option<Fixture>) -> CraftSpec {
    match slot {
        Some(f) => f.craft@,
        None => plain(METRE_UM as int, built(cube_plan(3, Material::Steel))),
    }
}

/// The crash scene.
#[derive(Debug, PartialEq, Eq)]
pub struct CrashWorld<B> {
    pub pieces: Vec<Piece<B>>,
    /// Whether the projectile is rammed in this frame.
    pub thrust: bool,
    /// Whether the projectile is still in one piece.
    pub intact: bool,
    pub accumulator: u64,
}

/// A fragment: its lattice and its rigid state.
pub type Fragment<B> = (VoxelCraft, B);

/// Whether pieces are the fragments in order, each in the palette's next colour.
pub open spec fn colored<B>(pieces: Seq<Piece<B>>, frags: Seq<Fragment<B>>) -> bool {
    &&& pieces.len() == frags.len()
    &&& forall|i: int|
        0 <= i < pieces.len() ==> (#[trigger] pieces[i]).voxels == frags[i].0 && pieces[i].body
            == frags[i].1 && pieces[i].color == (PieceColor::Fragment {
            slot: (i % FRAGMENT_COLORS as int) as u8,
        })
}

impl<B> CrashWorld<B> {
    /// Whether this is the scene at its start, with what the two slots hold.
    pub open spec fn fresh_with(
        self,
        thrown: Option<Fixture>,
        struck: Option<Fixture>,
        projectile: B,
        target: B,
    ) -> bool {
        &&& self.pieces@.len() == 2
        &&& self.pieces@[0].voxels@ == thrown_spec(thrown)
        &&& self.pieces@[0].body == projectile
        &&& self.pieces@[0].color == PieceColor::Projectile
        &&& self.pieces@[1].voxels@ == struck_spec(struck)
        &&& self.pieces@[1].body == target
        &&& self.pieces@[1].color == PieceColor::Target
        &&& !self.thrust
        &&& self.intact
        &&& self.accumulator == 0
    }

    /// Whether this is the scene at its start, with the bar and the block.
    pub open spec fn fresh(self, projectile: B, target: B) -> bool {
        self.fresh_with(None, None, projectile, target)
    }

    /// The scene at its start, with the bar and the block.
    pub fn new(projectile: B, target: B) -> (w: CrashWorld<B>)
        ensures
            w.fresh(projectile, target),
    {
        CrashWorld::with_fixtures(&None, &None, projectile, target)
    }

    /// The scene at its start: a slot that holds a craft takes the place of the bar,
    /// or of the block.
    pub fn with_fixtures(
        thrown: &Option<Fixture>,
        struck: &Option<Fixture>,
        projectile: B,
        target: B,
    ) -> (w: CrashWorld<B>)
        ensures
            w.fresh_with(*thrown, *struck, projectile, target),
    {
        let first: VoxelCraft = match thrown {
            Some(f) => copy_craft(&f.craft),
            None => bar_craft(6, Material::Frangible),
        };
        let second: VoxelCraft = match struck {
            Some(f) => copy_craft(&f.craft),
            None => cube_craft(3, Material::Steel),
        };
        let mut pieces: Vec<Piece<B>> = Vec::new();
        pieces.push(Piece { voxels: first, body: projectile, color: PieceColor::Projectile });
        pieces.push(Piece { voxels: second, body: target, color: PieceColor::Target });
        CrashWorld { pieces, thrust: false, intact: true, accumulator: 0 }
    }

    /// Reads the keys: the space bar rams; `R` starts over with the bar and the
    /// block, and with the bodies given.
    pub fn crash_input(&mut self, keys: &Keyboard, projectile: B, target: B)
        ensures
            if keys.tapped(KeyCode::KeyR) {
                final(self).fresh(projectile, target)
            } else {
                final(self).pieces@ == old(self).pieces@ && final(self).intact == old(self).intact
                    && final(self).accumulator == old(self).accumulator && final(self).thrust
                    == keys.held(KeyCode::Space)
            },
    {
        self.crash_input_with(keys, &None, &None, projectile, target);
    }

    /// Reads the keys: the space bar rams; `R` starts over with what the two slots
    /// hold, and with the bodies given.
    pub fn crash_input_with(
        &mut self,
        keys: &Keyboard,
        thrown: &Option<Fixture>,
        struck: &Option<Fixture>,
        projectile: B,
        target: B,
    )
        ensures
            if keys.tapped(KeyCode::KeyR) {
                final(self).fresh_with(*thrown, *struck, projectile, target)
            } else {
                final(self).pieces@ == old(self).pieces@ && final(self).intact == old(self).intact
                    && final(self).accumulator == old(self).accumulator && final(self).thrust
                    == keys.held(KeyCode::Space)
            },
    {
        self.thrust = keys.pressed(KeyCode::Space);
        if keys.just_pressed(KeyCode::KeyR) {
            *self = CrashWorld::with_fixtures(thrown, struck, projectile, target);
        }
    }

    /// Takes the outcome of the fracture test: fragments replace the projectile,
    /// and the other pieces stay.
    pub fn fracture(&mut self, fragments: Option<Vec<Fragment<B>>>)
        requires
            old(self).intact,
            old(self).pieces@.len() > 0,
        ensures
            final(self).thrust == old(self).thrust,
            final(self).accumulator == old(self).accumulator,
            match fragments {
                None => final(self).intact && final(self).pieces@ == old(self).pieces@,
                Some(frags) => {
                    let n = frags@.len() as int;
                    let after = final(self).pieces@;
                    &&& !final(self).intact
                    &&& after.len() == n + old(self).pieces@.len() - 1
                    &&& colored(after.take(n), frags@)
                    &&& after.skip(n) == old(self).pieces@.skip(1)
                },
            },
    {
        let ghost start = self.pieces@;
        match fragments {
            None => {},
            Some(frags) => {
                let ghost all = frags@;
                let total: usize = frags.len();
                let mut queue: Vec<Fragment<B>> = frags;
                let mut pieces: Vec<Piece<B>> = Vec::new();
                let mut i: usize = 0;
                while queue.len() > 0
                    invariant
                        i + queue@.len() == all.len(),
                        all.len() == total,
                        queue@ == all.skip(i as int),
                        colored(pieces@, all.take(i as int)),
                    decreases queue.len(),
                {
                    let ghost before = pieces@;
                    let (voxels, body) = queue.remove(0);
                    let slot: u8 = (i % FRAGMENT_COLORS) as u8;
                    pieces.push(Piece { voxels, body, color: PieceColor::Fragment { slot } });
                    assert(all.skip(i as int)[0] == all[i as int]);
                    i += 1;
                    assert(queue@ =~= all.skip(i as int));
                    assert(colored(pieces@, all.take(i as int))) by {
                        assert forall|k: int| 0 <= k < pieces@.len() implies (
                        #[trigger] pieces@[k]).voxels == all.take(i as int)[k].0 && pieces@[k].body
                            == all.take(i as int)[k].1 && pieces@[k].color
                            == (PieceColor::Fragment {
                            slot: (k % FRAGMENT_COLORS as int) as u8,
                        }) by {
                            if k < before.len() {
                                assert(pieces@[k] == before[k]);
                            }
                        }
                    }
                }
                assert(all.take(i as int) =~= all);
                let ghost shards = pieces@;
                let mut rest: Vec<Piece<B>> = Vec::new();
                std::mem::swap(&mut rest, &mut self.pieces);
                let _ = rest.remove(0);
                assert(rest@ =~= start.skip(1));
                pieces.append(&mut rest);
                assert(pieces@.take(all.len() as int) =~= shards);
                assert(pieces@.skip(all.len() as int) =~= start.skip(1));
                self.pieces = pieces;
                self.intact = false;
            },
        }
    }
}

/// What the crash scene shows: whether the projectile has shattered, its speed in
/// micrometres per second, and how many pieces there are.
pub open spec fn crash_text(intact: bool, speed: i64, pieces: usize) -> Seq<char> {
    "crash: "@ + (if intact {
            "intact"@
        } else {
            "FRACTURED"@
        }) + "\nprojectile speed: "@ + shown(
            speed as int,
            (Field { width: 5, digits: 1, plus: false }),
        ) + " m/s\npieces: "@ + decimal(pieces as nat)
}

/// What the crash scene shows: whether the projectile has shattered, its speed in
/// micrometres per second, and how many pieces there are.
pub fn crash_hud(intact: bool, speed: i64, pieces: usize) -> (s: String)
    ensures
        s@ == "crash: "@ + (if intact {
            "intact"@
        } else {
            "FRACTURED"@
        }) + "\nprojectile speed: "@ + shown(
            speed as int,
            (Field { width: 5, digits: 1, plus: false }),
        ) + " m/s\npieces: "@ + decimal(pieces as nat),
        s@ == crash_text(intact, speed, pieces),
{
    let mut s: String = "crash: ".to_owned();
    if intact {
        s.append("intact");
    } else {
        s.append("FRACTURED");
    }
    s.append("\nprojectile speed: ");
    show(&mut s, speed, field(5, 1));
    s.append(" m/s\npieces: ");
    push_decimal(&mut s, pieces as u64);
    s
}

/// One body of the collide scene: where it is, and where it goes back to.
#[derive(Debug, PartialEq, Eq)]
pub struct Collider<B> {
    pub voxels: VoxelCraft,
    pub body: B,
    pub home: B,
}

/// The collide scene: the projectile, the target, the debris.
#[derive(Debug, PartialEq, Eq)]
pub struct CollideWorld<B> {
    pub colliders: Vec<Collider<B>>,
    pub accumulator: u64,
    pub thrust: bool,
}

/// The craft of a slot: the one that was loaded, or a composite cube of two cells.
pub open spec fn slot_spec(fixture: Option<Fixture>) -> CraftSpec {
    match fixture {
        Some(f) => f.craft@,
        None => plain(METRE_UM as int, built(cube_plan(2, Material::Composite))),
    }
}

/// The craft of a slot.
pub fn slot_craft(fixture: &Option<Fixture>) -> (c: VoxelCraft)
    ensures
        c@ == slot_spec(*fixture),
{
    match fixture {
        Some(f) => copy_craft(&f.craft),
        None => cube_craft(2, Material::Composite),
    }
}

/// The number of debris fragments.
pub const DEBRIS: usize = 3;

/// Where the debris is dropped, in millimetres: side by side, more than a cell
/// apart in height.
pub open spec fn debris_at(i: int) -> (int, int, int) {
    if i == 0 {
        (6_000, 500, 6_000)
    } else if i == 1 {
        (6_100, 2_000, 6_000)
    } else {
        (6_000, 3_500, 6_100)
    }
}

/// Where a piece of debris is dropped, in millimetres.
pub fn debris_position(i: usize) -> (p: (i32, i32, i32))
    requires
        i < DEBRIS,
    ensures
        (p.0 as int, p.1 as int, p.2 as int) == debris_at(i as int),
{
    if i == 0 {
        (6_000, 500, 6_000)
    } else if i == 1 {
        (6_100, 2_000, 6_000)
    } else {
        (6_000, 3_500, 6_100)
    }
}

/// The debris does not overlap when it is dropped: any two fragments, which are
/// one metre high, are more than that apart in height.
pub proof fn lemma_debris_starts_apart(i: int, j: int)
    requires
        0 <= i < j < DEBRIS,
    ensures
        debris_at(j).1 - debris_at(i).1 > 1_000,
{
}

/// What each body of the collide scene is: the two slots' craft, then three
/// aluminium cells.
pub open spec fn collider_spec(
    i: int,
    projectile: Option<Fixture>,
    target: Option<Fixture>,
) -> CraftSpec {
    if i == 0 {
        slot_spec(projectile)
    } else if i == 1 {
        slot_spec(target)
    } else {
        plain(METRE_UM as int, built(cube_plan(1, Material::Aluminium)))
    }
}

impl<B: Copy> CollideWorld<B> {
    /// The scene at its start, with a rigid state for each body.
    pub fn new(
        projectile: &Option<Fixture>,
        target: &Option<Fixture>,
        bodies: &Vec<B>,
    ) -> (w: CollideWorld<B>)
        requires
            bodies@.len() == 2 + DEBRIS,
        ensures
            w.colliders@.len() == 2 + DEBRIS,
            forall|i: int|
                0 <= i < w.colliders@.len() ==> (#[trigger] w.colliders@[i]).voxels@
                    == collider_spec(i, *projectile, *target) && w.colliders@[i].body == bodies@[i]
                    && w.colliders@[i].home == bodies@[i],
            w.accumulator == 0,
            !w.thrust,
    {
        let mut colliders: Vec<Collider<B>> = Vec::new();
        let mut i: usize = 0;
        while i < 2 + DEBRIS
            invariant
                i <= 2 + DEBRIS,
                bodies@.len() == 2 + DEBRIS,
                colliders@.len() == i,
                forall|j: int|
                    0 <= j < i ==> (#[trigger] colliders@[j]).voxels@ == collider_spec(
                        j,
                        *projectile,
                        *target,
                    ) && colliders@[j].body == bodies@[j] && colliders@[j].home == bodies@[j],
            decreases 2 + DEBRIS - i,
        {
            let voxels: VoxelCraft = if i == 0 {
                slot_craft(projectile)
            } else if i == 1 {
                slot_craft(target)
            } else {
                cube_craft(1, Material::Aluminium)
            };
            colliders.push(Collider { voxels, body: bodies[i], home: bodies[i] });
            i += 1;
        }
        CollideWorld { colliders, accumulator: 0, thrust: false }
    }

    /// Puts every body back home.
    pub fn reset(&mut self)
        ensures
            final(self).colliders@.len() == old(self).colliders@.len(),
            forall|i: int|
                0 <= i < final(self).colliders@.len() ==> (
                #[trigger] final(self).colliders@[i]).body == old(self).colliders@[i].home
                    && final(self).colliders@[i].home == old(self).colliders@[i].home
                    && final(self).colliders@[i].voxels == old(self).colliders@[i].voxels,
            final(self).accumulator == 0,
            !final(self).thrust,
    {
        let ghost start = self.colliders@;
        let mut i: usize = 0;
        while i < self.colliders.len()
            invariant
                i <= self.colliders@.len(),
                self.colliders@.len() == start.len(),
                forall|j: int|
                    0 <= j < start.len() ==> (#[trigger] self.colliders@[j]).home == start[j].home
                        && self.colliders@[j].voxels == start[j].voxels && self.colliders@[j].body
                        == (if j < i {
                        start[j].home
                    } else {
                        start[j].body
                    }),
            decreases self.colliders.len() - i,
        {
            let home: B = self.colliders[i].home;
            self.colliders[i].body = home;
            i += 1;
        }
        self.accumulator = 0;
        self.thrust = false;
    }

    /// Reads the keys: the space bar drives the projectile; `R` starts over.
    pub fn collide_input(&mut self, keys: &Keyboard)
        ensures
            final(self).colliders@.len() == old(self).colliders@.len(),
            final(self).thrust == (keys.held(KeyCode::Space) && !keys.tapped(KeyCode::KeyR)),
            !keys.tapped(KeyCode::KeyR) ==> final(self).colliders@ == old(self).colliders@
                && final(self).accumulator == old(self).accumulator,
            keys.tapped(KeyCode::KeyR) ==> final(self).accumulator == 0 && forall|i: int|
                0 <= i < final(self).colliders@.len() ==> (
                #[trigger] final(self).colliders@[i]).body == old(self).colliders@[i].home
                    && final(self).colliders@[i].home == old(self).colliders@[i].home
                    && final(self).colliders@[i].voxels == old(self).colliders@[i].voxels,
    {
        self.thrust = keys.pressed(KeyCode::Space);
        if keys.just_pressed(KeyCode::KeyR) {
            self.reset();
        }
    }
}

/// The speed below which a body rests, in micrometres per second.
pub const REST_SPEED: u64 = 100_000;

/// Whether every body rests.
pub fn all_rest(speeds: &Vec<u64>) -> (b: bool)
    ensures
        b == forall|i: int| 0 <= i < speeds@.len() ==> (#[trigger] speeds@[i]) < REST_SPEED,
        b == at_rest(speeds@),
{
    let mut i: usize = 0;
    while i < speeds.len()
        invariant
            i <= speeds@.len(),
            forall|j: int| 0 <= j < i ==> (#[trigger] speeds@[j]) < REST_SPEED,
        decreases speeds.len() - i,
    {
        if speeds[i] >= REST_SPEED {
            return false;
        }
        i += 1;
    }
    true
}

/// What the collide scene shows: whether all rest, and the projectile's closing
/// speed and distance.
pub open spec fn collide_text(speeds: Vec<u64>, closing: i64, separation: i64) -> Seq<char> {
    "collide: "@ + (if forall|i: int|
            0 <= i < speeds@.len() ==> (#[trigger] speeds@[i]) < REST_SPEED {
            "RESTING"@
        } else {
            "active"@
        }) + "\nclosing:    "@ + shown(
            closing as int,
            (Field { width: 6, digits: 2, plus: false }),
        ) + " m/s\nseparation: "@ + shown(
            separation as int,
            (Field { width: 6, digits: 2, plus: false }),
        ) + " m"@
}

/// What the collide scene shows: whether all rest, and the projectile's closing
/// speed and distance.
pub fn collide_hud(speeds: &Vec<u64>, closing: i64, separation: i64) -> (s: String)
    ensures
        s@ == "collide: "@ + (if forall|i: int|
            0 <= i < speeds@.len() ==> (#[trigger] speeds@[i]) < REST_SPEED {
            "RESTING"@
        } else {
            "active"@
        }) + "\nclosing:    "@ + shown(
            closing as int,
            (Field { width: 6, digits: 2, plus: false }),
        ) + " m/s\nseparation: "@ + shown(
            separation as int,
            (Field { width: 6, digits: 2, plus: false }),
        ) + " m"@,
        s@ == collide_text(*speeds, closing, separation),
{
    let mut s: String = "collide: ".to_owned();
    if all_rest(speeds) {
        s.append("RESTING");
    } else {
        s.append("active");
    }
    s.append("\nclosing:    ");
    show(&mut s, closing, field(6, 2));
    s.append(" m/s\nseparation: ");
    show(&mut s, separation, field(6, 2));
    s.append(" m");
    s
}

/// What the land scene shows of a craft: whether it rests, its altitude and its
/// speed.
pub open spec fn land_text(altitude: i64, speed: u32) -> Seq<char> {
    "land: "@ + (if speed < REST_SPEED {
            "RESTING"@
        } else {
            "falling"@
        }) + "\naltitude: "@ + shown(
            altitude as int,
            (Field { width: 6, digits: 2, plus: false }),
        ) + " m\nspeed:    "@ + shown(
            speed as int,
            (Field { width: 6, digits: 2, plus: false }),
        ) + " m/s"@
}

/// What the land scene shows of a craft: whether it rests, its altitude and its
/// speed.
pub fn land_hud(altitude: i64, speed: u32) -> (s: String)
    ensures
        s@ == "land: "@ + (if speed < REST_SPEED {
            "RESTING"@
        } else {
            "falling"@
        }) + "\naltitude: "@ + shown(
            altitude as int,
            (Field { width: 6, digits: 2, plus: false }),
        ) + " m\nspeed:    "@ + shown(
            speed as int,
            (Field { width: 6, digits: 2, plus: false }),
        ) + " m/s"@,
        s@ == land_text(altitude, speed),
{
    let mut s: String = "land: ".to_owned();
    if (speed as u64) < REST_SPEED {
        s.append("RESTING");
    } else {
        s.append("falling");
    }
    s.append("\naltitude: ");
    show(&mut s, altitude, field(6, 2));
    s.append(" m\nspeed:    ");
    show(&mut s, speed as i64, field(6, 2));
    s.append(" m/s");
    s
}

/// The spin at the start, in millionths of a radian per second.
pub const SPIN_START: u64 = 40_000_000;

/// How the spin grows, in radians per second squared.
pub const SPIN_RAMP: u64 = 8;

/// The longest frame that the break scene takes, in microseconds.
pub const LONGEST_BREAK_FRAME: u64 = 50_000;

/// The break scene: one craft while it is intact, its fragments afterwards.
#[derive(Debug, PartialEq, Eq)]
pub struct BreakWorld<B> {
    pub pieces: Vec<Fragment<B>>,
    pub fractured: bool,
    /// The spin, in millionths of a radian per second.
    pub spin: u64,
}

impl<B> BreakWorld<B> {
    /// The scene at its start: a bar of nine aluminium cells.
    pub fn new(body: B) -> (w: BreakWorld<B>)
        ensures
            w.pieces@.len() == 1,
            w.pieces@[0].0@ == plain(METRE_UM as int, built(bar_plan(9, Material::Aluminium))),
            w.pieces@[0].1 == body,
            !w.fractured,
            w.spin == SPIN_START,
    {
        let mut pieces: Vec<Fragment<B>> = Vec::new();
        pieces.push((bar_craft(9, Material::Aluminium), body));
        BreakWorld { pieces, fractured: false, spin: SPIN_START }
    }

    /// Begins a frame: the time to step by, and, while the craft is intact, a
    /// faster spin.
    pub fn spin_up(&mut self, frame: u64) -> (dt: u64)
        requires
            old(self).spin + SPIN_RAMP * LONGEST_BREAK_FRAME <= u64::MAX,
        ensures
            dt == (if frame < LONGEST_BREAK_FRAME {
                frame
            } else {
                LONGEST_BREAK_FRAME
            }),
            final(self).pieces@ == old(self).pieces@,
            final(self).fractured == old(self).fractured,
            final(self).spin == (if old(self).fractured {
                old(self).spin as int
            } else {
                old(self).spin + SPIN_RAMP * dt
            }),
    {
        let dt: u64 = if frame < LONGEST_BREAK_FRAME {
            frame
        } else {
            LONGEST_BREAK_FRAME
        };
        if !self.fractured {
            self.spin = self.spin + SPIN_RAMP * dt;
        }
        dt
    }

    /// Takes the outcome of the fracture test, which is made only of an intact
    /// craft.
    pub fn fracture(&mut self, fragments: Option<Vec<Fragment<B>>>)
        requires
            !old(self).fractured,
        ensures
            final(self).spin == old(self).spin,
            match fragments {
                Some(f) => final(self).fractured && final(self).pieces@ == f@,
                None => !final(self).fractured && final(self).pieces@ == old(self).pieces@,
            },
    {
        if let Some(f) = fragments {
            self.pieces = f;
            self.fractured = true;
        }
    }

    /// What the break scene shows.
    pub fn hud(&self) -> (s: String)
        requires
            self.spin <= i64::MAX,
        ensures
            s@ == (if self.fractured {
                "fractured into "@ + decimal(self.pieces@.len()) + " pieces"@
            } else {
                "intact — spin "@ + shown(
                    self.spin as int,
                    (Field { width: 0, digits: 0, plus: false }),
                ) + " rad/s (ramping to break)"@
            }),
    {
        if self.fractured {
            let mut s: String = "fractured into ".to_owned();
            push_decimal(&mut s, self.pieces.len() as u64);
            s.append(" pieces");
            s
        } else {
            let mut s: String = "intact — spin ".to_owned();
            show(&mut s, self.spin as i64, field(0, 0));
            s.append(" rad/s (ramping to break)");
            s
        }
    }
}

/// The collide scene's caption: what its keys do, and which craft its two slots
/// hold.
pub fn collide_caption(projectile: &Option<Fixture>, target: &Option<Fixture>) -> (s: String)
    ensures
        s@ == "hold SPACE to accelerate projectile · R reset\nfixtures: "@ + name_in_slot(
            *projectile,
        ) + " / "@ + name_in_slot(*target),
{
    let mut s: String = "hold SPACE to accelerate projectile · R reset\nfixtures: ".to_owned();
    s.append(slot_name(projectile));
    s.append(" / ");
    s.append(slot_name(target));
    s
}

/// Whether an act is a contact: the ground's push or that of two bodies, or a thrust.
pub open spec fn is_load(a: Act) -> bool {
    a is Ground || a is Pair || a is Thrust
}

/// The crash scene's sub-step: every body is pushed by the ground once and moved once, no
/// body is moved before all contacts are in, and only an intact projectile, the first body,
/// is thrust on, when asked for. The bonds of an intact projectile are tested at the very
/// end, and those of a broken one never.
pub proof fn lemma_a_crash_moves_after_all_contacts(
    n: nat,
    intact: bool,
    thrust: bool,
    i: int,
    j: int,
)
    requires
        n <= usize::MAX,
        0 <= i < crash_acts(n, intact, thrust).len(),
        0 <= j < crash_acts(n, intact, thrust).len(),
    ensures
        ({
            let acts = crash_acts(n, intact, thrust);
            &&& is_load(acts[i]) && acts[j] is Integrate ==> i < j
            &&& acts[i] is Fracture <==> intact && i == acts.len() - 1
            &&& !(acts[i] is Thrust)
            &&& acts[i] matches Act::Integrate { body, thrust: pushed } ==> body < n && pushed == (
            thrust && intact && body == 0)
            &&& acts[i] matches Act::Ground { body } ==> body < n && body == i
            &&& acts[i] is Integrate && acts[i] == acts[j] ==> i == j
        }),
        forall|b: usize|
            b < n ==> #[trigger] crash_acts(n, intact, thrust).contains(Act::Ground { body: b }),
        forall|b: usize, pushed: bool|
            b < n ==> (#[trigger] crash_acts(n, intact, thrust).contains(
                Act::Integrate { body: b, thrust: pushed },
            ) <==> pushed == (thrust && intact && b == 0)),
{
    let acts = crash_acts(n, intact, thrust);
    let p = pairs(n as int, n as int);
    let g = grounds(n);
    let m = integrals(n, intact && thrust);
    if n <= i < n + p.len() {
        lemma_pairs_start_low(n as int, n as int, i - n);
        assert(acts[i] == p[i - n]);
    }
    if n <= j < n + p.len() {
        lemma_pairs_start_low(n as int, n as int, j - n);
        assert(acts[j] == p[j - n]);
    }
    assert forall|b: usize| b < n implies #[trigger] acts.contains(Act::Ground { body: b }) by {
        assert(acts[b as int] == (Act::Ground { body: b }));
    }
    assert forall|b: usize, pushed: bool| b < n implies (#[trigger] acts.contains(
        Act::Integrate { body: b, thrust: pushed },
    ) <==> pushed == (thrust && intact && b == 0)) by {
        let k = n + p.len() + b;
        assert(acts[k as int] == m[b as int]);
        let act = Act::Integrate { body: b, thrust: pushed };
        if acts.contains(act) {
            let x = choose|x: int| 0 <= x < acts.len() && acts[x] == act;
            if n <= x < n + p.len() {
                lemma_pairs_start_low(n as int, n as int, x - n);
                assert(acts[x] == p[x - n]);
            }
            assert(x - n - p.len() == b);
        }
    }
}

/// The collide scene's sub-step: as a crash, but the projectile's thrust, when asked for, is
/// a load of its own, and no bonds are tested.
pub proof fn lemma_a_collision_moves_after_all_contacts(n: nat, thrust: bool, i: int, j: int)
    requires
        n <= usize::MAX,
        0 <= i < collide_acts(n, thrust).len(),
        0 <= j < collide_acts(n, thrust).len(),
    ensures
        ({
            let acts = collide_acts(n, thrust);
            &&& is_load(acts[i]) && acts[j] is Integrate ==> i < j
            &&& !(acts[i] is Fracture)
            &&& acts[i] is Thrust <==> thrust && i == n
            &&& acts[i] matches Act::Integrate { body, thrust: pushed } ==> body < n && !pushed
            &&& acts[i] matches Act::Ground { body } ==> body < n && body == i
            &&& acts[i] is Integrate && acts[i] == acts[j] ==> i == j
        }),
        forall|b: usize|
            b < n ==> #[trigger] collide_acts(n, thrust).contains(Act::Ground { body: b }),
        forall|b: usize|
            b < n ==> #[trigger] collide_acts(n, thrust).contains(
                Act::Integrate { body: b, thrust: false },
            ),
{
    let acts = collide_acts(n, thrust);
    let p = pairs(n as int, n as int);
    let m = integrals(n, false);
    let t = if thrust {
        1int
    } else {
        0
    };
    if n + t <= i < n + t + p.len() {
        lemma_pairs_start_low(n as int, n as int, i - n - t);
        assert(acts[i] == p[i - n - t]);
    }
    if n + t <= j < n + t + p.len() {
        lemma_pairs_start_low(n as int, n as int, j - n - t);
        assert(acts[j] == p[j - n - t]);
    }
    assert forall|b: usize| b < n implies #[trigger] acts.contains(Act::Ground { body: b }) by {
        assert(acts[b as int] == (Act::Ground { body: b }));
    }
    assert forall|b: usize| b < n implies #[trigger] acts.contains(
        Act::Integrate { body: b, thrust: false },
    ) by {
        let k = n + t + p.len() + b;
        assert(acts[k] == m[b as int]);
    }
}

/// Every two bodies meet once in a crash's sub-step and once in a collision's.
pub proof fn lemma_every_two_bodies_push_each_other(
    n: nat,
    intact: bool,
    thrust: bool,
    a: usize,
    b: usize,
)
    requires
        n <= usize::MAX,
    ensures
        crash_acts(n, intact, thrust).contains(Act::Pair { a, b }) <==> a < b < n,
        collide_acts(n, thrust).contains(Act::Pair { a, b }) <==> a < b < n,
{
    let act = Act::Pair { a, b };
    let p = pairs(n as int, n as int);
    lemma_every_two_bodies_meet(n as int, n as int, a, b);
    let c = crash_acts(n, intact, thrust);
    let d = collide_acts(n, thrust);
    let t = if thrust {
        1int
    } else {
        0
    };
    if p.contains(act) {
        let i = choose|i: int| 0 <= i < p.len() && p[i] == act;
        assert(c[n + i] == act);
        assert(d[n + t + i] == act);
    }
    if c.contains(act) {
        let i = choose|i: int| 0 <= i < c.len() && c[i] == act;
        assert(n <= i < n + p.len());
        assert(p[i - n] == act);
    }
    if d.contains(act) {
        let i = choose|i: int| 0 <= i < d.len() && d[i] == act;
        assert(n + t <= i < n + t + p.len());
        assert(p[i - n - t] == act);
    }
}

/// A ram starts with twelve metres between the two: the projectile on the near side and the
/// target on the far side, in line, each as high as it rests.
pub proof fn lemma_a_ram_starts_in_line(projectile_rest: int, target_rest: int)
    ensures
        ({
            let (p, t) = starts(projectile_rest, target_rest);
            &&& t.0 - p.0 == 12_000 && p.0 < 0 < t.0
            &&& p.1 == projectile_rest && t.1 == target_rest
            &&& p.2 == t.2
        }),
{
}

/// A slot that holds a craft gives that craft, in every scene; an empty one gives the brittle
/// bar to throw, the steel block to hit, and a composite cube to collide.
pub proof fn lemma_slots_give_what_they_hold(f: Fixture, other: Option<Fixture>)
    ensures
        thrown_spec(Some(f)) == f.craft@,
        struck_spec(Some(f)) == f.craft@,
        slot_spec(Some(f)) == f.craft@,
        collider_spec(0, Some(f), other) == f.craft@,
        collider_spec(1, other, Some(f)) == f.craft@,
        thrown_spec(None) == plain(METRE_UM as int, built(bar_plan(6, Material::Frangible))),
        struck_spec(None) == plain(METRE_UM as int, built(cube_plan(3, Material::Steel))),
        collider_spec(0, None, other) == collider_spec(1, other, None),
        forall|i: int|
            i >= 2 ==> #[trigger] collider_spec(i, Some(f), other) == plain(
                METRE_UM as int,
                built(cube_plan(1, Material::Aluminium)),
            ),
{
}

/// Coloured pieces are the fragments, in their order, and neighbours differ in colour.
pub proof fn lemma_fragments_are_told_apart<B>(
    pieces: Seq<Piece<B>>,
    frags: Seq<Fragment<B>>,
    i: int,
)
    requires
        colored(pieces, frags),
        0 <= i < pieces.len() - 1,
    ensures
        pieces.len() == frags.len(),
        pieces[i].voxels == frags[i].0 && pieces[i].body == frags[i].1,
        pieces[i].color is Fragment && pieces[i].color != pieces[i + 1].color,
{
    assert(pieces[i + 1].color is Fragment);
}

/// Every measure stands behind its own label in the collide scene's readout.
pub proof fn lemma_the_collide_readout_labels_its_measures(
    speeds: Vec<u64>,
    closing: i64,
    separation: i64,
)
    ensures
        says(
            collide_text(speeds, closing, separation),
            "collide: "@ + (if forall|i: int| 0 <= i < speeds@.len() ==> (#[trigger] speeds@[i]) < REST_SPEED { "RESTING"@ } else { "active"@ }),
        ),
        says(
            collide_text(speeds, closing, separation),
            "\nclosing:    "@ + shown(closing as int, (Field { width: 6, digits: 2, plus: false })),
        ),
        says(
            collide_text(speeds, closing, separation),
            " m/s\nseparation: "@ + shown(separation as int, (Field { width: 6, digits: 2, plus: false })),
        ),
{
    let text = collide_text(speeds, closing, separation);
    let t0 = "collide: "@;
    let t1 = (if forall|i: int| 0 <= i < speeds@.len() ==> (#[trigger] speeds@[i]) < REST_SPEED { "RESTING"@ } else { "active"@ });
    let t2 = "\nclosing:    "@;
    let t3 = shown(closing as int, (Field { width: 6, digits: 2, plus: false }));
    let t4 = " m/s\nseparation: "@;
    let t5 = shown(separation as int, (Field { width: 6, digits: 2, plus: false }));
    let t6 = " m"@;
    let a1 = t0 + t1;
    lemma_says_itself(a1);
    let a2 = a1 + t2;
    lemma_says_on(a1, t2);
    let a3 = a2 + t3;
    lemma_says_on(a2, t3);
    lemma_says_its_end(a1, t2, t3);
    let a4 = a3 + t4;
    lemma_says_on(a3, t4);
    let a5 = a4 + t5;
    lemma_says_on(a4, t5);
    lemma_says_its_end(a3, t4, t5);
    let a6 = a5 + t6;
    lemma_says_on(a5, t6);
    assert(text == a6);
}

/// Every measure stands behind its own label in the land scene's readout.
pub proof fn lemma_the_land_readout_labels_its_measures(
    altitude: i64,
    speed: u32,
)
    ensures
        says(
            land_text(altitude, speed),
            "land: "@ + (if speed < REST_SPEED { "RESTING"@ } else { "falling"@ }),
        ),
        says(
            land_text(altitude, speed),
            "\naltitude: "@ + shown(altitude as int, (Field { width: 6, digits: 2, plus: false })),
        ),
        says(
            land_text(altitude, speed),
            " m\nspeed:    "@ + shown(speed as int, (Field { width: 6, digits: 2, plus: false })),
        ),
{
    let text = land_text(altitude, speed);
    let t0 = "land: "@;
    let t1 = (if speed < REST_SPEED { "RESTING"@ } else { "falling"@ });
    let t2 = "\naltitude: "@;
    let t3 = shown(altitude as int, (Field { width: 6, digits: 2, plus: false }));
    let t4 = " m\nspeed:    "@;
    let t5 = shown(speed as int, (Field { width: 6, digits: 2, plus: false }));
    let t6 = " m/s"@;
    let a1 = t0 + t1;
    lemma_says_itself(a1);
    let a2 = a1 + t2;
    lemma_says_on(a1, t2);
    let a3 = a2 + t3;
    lemma_says_on(a2, t3);
    lemma_says_its_end(a1, t2, t3);
    let a4 = a3 + t4;
    lemma_says_on(a3, t4);
    let a5 = a4 + t5;
    lemma_says_on(a4, t5);
    lemma_says_its_end(a3, t4, t5);
    let a6 = a5 + t6;
    lemma_says_on(a5, t6);
    assert(text == a6);
}

/// Every measure stands behind its own label in the crash scene's readout.
pub proof fn lemma_the_crash_readout_labels_its_measures(
    intact: bool,
    speed: i64,
    pieces: usize,
)
    ensures
        says(
            crash_text(intact, speed, pieces),
            "crash: "@ + (if intact { "intact"@ } else { "FRACTURED"@ }),
        ),
        says(
            crash_text(intact, speed, pieces),
            "\nprojectile speed: "@ + shown(speed as int, (Field { width: 5, digits: 1, plus: false })),
        ),
        says(
            crash_text(intact, speed, pieces),
            " m/s\npieces: "@ + decimal(pieces as nat),
        ),
{
    let text = crash_text(intact, speed, pieces);
    let t0 = "crash: "@;
    let t1 = (if intact { "intact"@ } else { "FRACTURED"@ });
    let t2 = "\nprojectile speed: "@;
    let t3 = shown(speed as int, (Field { width: 5, digits: 1, plus: false }));
    let t4 = " m/s\npieces: "@;
    let t5 = decimal(pieces as nat);
    let a1 = t0 + t1;
    lemma_says_itself(a1);
    let a2 = a1 + t2;
    lemma_says_on(a1, t2);
    let a3 = a2 + t3;
    lemma_says_on(a2, t3);
    lemma_says_its_end(a1, t2, t3);
    let a4 = a3 + t4;
    lemma_says_on(a3, t4);
    let a5 = a4 + t5;
    lemma_says_on(a4, t5);
    lemma_says_its_end(a3, t4, t5);
    assert(text == a5);
}

/// Whether every body rests.
pub open spec fn at_rest(speeds: Seq<u64>) -> bool {
    forall|i: int| 0 <= i < speeds.len() ==> (#[trigger] speeds[i]) < REST_SPEED
}

/// One body that moves at a tenth of a metre per second or faster is enough to keep the scene
/// active; a scene of bodies that are slower, or of none, rests.
pub proof fn lemma_one_moving_body_is_enough(speeds: Seq<u64>, more: u64)
    ensures
        at_rest(Seq::empty()),
        at_rest(speeds.push(more)) <==> at_rest(speeds) && more < 100_000,
{
    if at_rest(speeds.push(more)) {
        assert forall|i: int| 0 <= i < speeds.len() implies (#[trigger] speeds[i]) < REST_SPEED by {
            assert(speeds.push(more)[i] == speeds[i]);
        }
        assert(speeds.push(more)[speeds.len() as int] == more);
    }
}

/// A crash begins with two whole pieces at rest: what is thrown comes first, in the
/// projectile's colour, and what is struck second, in the target's; nothing pushes yet, and no
/// time has been collected.
pub proof fn lemma_a_crash_begins_whole<B>(
    w: CrashWorld<B>,
    thrown: Option<Fixture>,
    struck: Option<Fixture>,
    projectile: B,
    target: B,
)
    requires
        w.fresh_with(thrown, struck, projectile, target),
    ensures
        w.pieces@.len() == 2 && w.intact && !w.thrust && w.accumulator == 0,
        w.pieces@[0].body == projectile && w.pieces@[0].color is Projectile,
        w.pieces@[1].body == target && w.pieces@[1].color is Target,
        thrown matches Some(f) ==> w.pieces@[0].voxels@ == f.craft@,
        struck matches Some(f) ==> w.pieces@[1].voxels@ == f.craft@,
{
}

} // verus!
