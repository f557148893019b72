//! Rooms in a hull: a hatch between them, a breach, and the water that comes in.

use crate::input::KeyCode;
use crate::input::Keyboard;
use crate::readout::field;
use crate::readout::show;
use crate::readout::shown;
use crate::readout::Field;
use crate::shapes::breach;
use crate::shapes::breach_cell;
use crate::shapes::built;
use crate::shapes::demo_craft;
use crate::shapes::hatch;
use crate::shapes::hatch_cell;
use crate::shapes::hatch_plan;
use crate::shapes::plain;
use crate::shapes::METRE_UM;
use crate::text::decimal;
use crate::text::push_decimal;
use crate::voxel::drop_voxels_at;
use crate::voxel::Cell;
use crate::voxel::CraftSpec;
use crate::voxel::Voxel;
use crate::voxel::VoxelCraft;
use crate::text::lemma_says_its_end;
use crate::text::lemma_says_itself;
use crate::text::lemma_says_on;
use crate::text::says;
use vstd::prelude::*;

verus! {

/// A door in a cell.
#[derive(Clone, Copy, Debug, PartialEq, Eq, Structural)]
pub struct Door {
    pub cell: Cell,
    pub open: bool,
}

/// The compartments scene. `dirty` says that the rooms must be found anew.
#[derive(Debug, PartialEq, Eq)]
pub struct CompartmentsWorld {
    pub craft: VoxelCraft,
    pub doors: Vec<Door>,
    pub dirty: bool,
}

/// The first door in a cell.
pub open spec fn door_at(doors: Seq<Door>, cell: Cell) -> Option<int>
    decreases doors.len(),
{
    if doors.len() == 0 {
        None
    } else {
        match door_at(doors.drop_last(), cell) {
            Some(i) => Some(i),
            None => if doors.last().cell == cell {
                Some(doors.len() - 1)
            } else {
                None
            },
        }
    }
}

/// Doors after the hatch has been toggled.
pub open spec fn toggled_hatch(doors: Seq<Door>) -> Seq<Door> {
    match door_at(doors, hatch()) {
        Some(i) => doors.update(i, Door { cell: doors[i].cell, open: !doors[i].open }),
        None => doors,
    }
}

/// Voxels after the hull has been breached.
pub open spec fn breached_hull(voxels: Seq<Voxel>) -> Seq<Voxel> {
    voxels.filter(|v: Voxel| v.cell != breach())
}

/// Finds the first door in a cell.
fn find_door(doors: &Vec<Door>, cell: Cell) -> (r: Option<usize>)
    ensures
        match r {
            Some(i) => door_at(doors@, cell) == Some(i as int) && i < doors@.len(),
            None => door_at(doors@, cell) is None,
        },
{
    let mut found: Option<usize> = None;
    let mut i: usize = 0;
    assert(doors@.take(0) =~= Seq::<Door>::empty());
    while i < doors.len()
        invariant
            i <= doors@.len(),
            match found {
                Some(k) => door_at(doors@.take(i as int), cell) == Some(k as int) && k < i,
                None => door_at(doors@.take(i as int), cell) is None,
            },
        decreases doors.len() - i,
    {
        assert(doors@.take(i + 1).drop_last() =~= doors@.take(i as int));
        assert(doors@.take(i + 1).last() == doors@[i as int]);
        if found.is_none() && doors[i].cell == cell {
            found = Some(i);
        }
        i += 1;
    }
    assert(doors@.take(i as int) =~= doors@);
    found
}

impl CompartmentsWorld {
    /// Whether this is the scene's craft, with its hatch closed.
    pub open spec fn fresh(self) -> bool {
        &&& self.craft@ == plain(METRE_UM as int, built(hatch_plan()))
        &&& self.doors@ == seq![Door { cell: hatch(), open: false }]
    }

    /// The scene at its start.
    pub fn new() -> (w: CompartmentsWorld)
        ensures
            w.fresh(),
            w.dirty,
    {
        let mut doors: Vec<Door> = Vec::new();
        doors.push(Door { cell: hatch_cell(), open: false });
        assert(doors@ =~= seq![Door { cell: hatch(), open: false }]);
        CompartmentsWorld { craft: demo_craft(), doors, dirty: true }
    }

    /// Reads the keys: `H` toggles the hatch, `B` breaches the hull, `R` starts
    /// over. Whatever changes the structure makes the rooms be found anew.
    pub fn handle_input(&mut self, keys: &Keyboard)
        ensures
            ({
                let doors = if keys.tapped(KeyCode::KeyH) {
                    toggled_hatch(old(self).doors@)
                } else {
                    old(self).doors@
                };
                let voxels = if keys.tapped(KeyCode::KeyB) {
                    breached_hull(old(self).craft@.voxels)
                } else {
                    old(self).craft@.voxels
                };
                let toggled = keys.tapped(KeyCode::KeyH) && door_at(
                    old(self).doors@,
                    hatch(),
                ) is Some;
                let holed = keys.tapped(KeyCode::KeyB) && voxels.len()
                    != old(self).craft@.voxels.len();
                &&& final(self).dirty == (old(self).dirty || toggled || holed || keys.tapped(
                    KeyCode::KeyR,
                ))
                &&& if keys.tapped(KeyCode::KeyR) {
                    final(self).fresh()
                } else {
                    &&& final(self).doors@ == doors
                    &&& final(self).craft@ == (CraftSpec { voxels, ..old(self).craft@ })
                }
            }),
    {
        let ghost start = *self;
        let mut changed: bool = false;
        if keys.just_pressed(KeyCode::KeyH) {
            if let Some(i) = find_door(&self.doors, hatch_cell()) {
                let d: Door = self.doors[i];
                self.doors.set(i, Door { cell: d.cell, open: !d.open });
                changed = true;
            }
        }
        if keys.just_pressed(KeyCode::KeyB) {
            let before: usize = self.craft.voxels.len();
            drop_voxels_at(&mut self.craft.voxels, breach_cell());
            assert(self.craft@.voxels == breached_hull(start.craft@.voxels));
            if self.craft.voxels.len() != before {
                changed = true;
            }
        }
        assert(self.craft@ =~= CraftSpec { voxels: self.craft@.voxels, ..start.craft@ });
        if keys.just_pressed(KeyCode::KeyR) {
            let fresh: CompartmentsWorld = CompartmentsWorld::new();
            self.craft = fresh.craft;
            self.doors = fresh.doors;
            changed = true;
        }
        if changed {
            self.dirty = true;
        }
    }
}

/// Toggling the hatch twice changes nothing.
pub proof fn lemma_two_toggles_change_nothing(doors: Seq<Door>)
    ensures
        toggled_hatch(toggled_hatch(doors)) == doors,
{
    let once = toggled_hatch(doors);
    lemma_door_is_in_its_cell(doors, hatch());
    if let Some(i) = door_at(doors, hatch()) {
        lemma_door_at_reads_cells(doors, once, hatch());
        assert(toggled_hatch(once) =~= doors);
    }
}

proof fn lemma_door_is_in_its_cell(doors: Seq<Door>, cell: Cell)
    ensures
        door_at(doors, cell) matches Some(i) ==> 0 <= i < doors.len() && doors[i].cell == cell,
    decreases doors.len(),
{
    if doors.len() > 0 {
        lemma_door_is_in_its_cell(doors.drop_last(), cell);
    }
}

proof fn lemma_door_at_reads_cells(a: Seq<Door>, b: Seq<Door>, cell: Cell)
    requires
        a.len() == b.len(),
        forall|i: int| 0 <= i < a.len() ==> (#[trigger] a[i]).cell == b[i].cell,
    ensures
        door_at(a, cell) == door_at(b, cell),
    decreases a.len(),
{
    if a.len() > 0 {
        let (fa, fb) = (a.drop_last(), b.drop_last());
        assert forall|i: int| 0 <= i < fa.len() implies (#[trigger] fa[i]).cell == fb[i].cell by {
            assert(fa[i] == a[i] && fb[i] == b[i]);
        }
        lemma_door_at_reads_cells(fa, fb, cell);
        assert(a[a.len() - 1].cell == b[a.len() - 1].cell);
    }
}

/// A breach is for good: a second one finds nothing to remove.
pub proof fn lemma_second_breach_does_nothing(voxels: Seq<Voxel>)
    ensures
        breached_hull(breached_hull(voxels)) == breached_hull(voxels),
    decreases voxels.len(),
{
    let keep = |v: Voxel| v.cell != breach();
    reveal(Seq::filter);
    if voxels.len() > 0 {
        lemma_second_breach_does_nothing(voxels.drop_last());
        let front = breached_hull(voxels.drop_last());
        if keep(voxels.last()) {
            assert(breached_hull(voxels) == front.push(voxels.last()));
            assert(front.push(voxels.last()).drop_last() =~= front);
        }
    }
}

/// The compartments scene's readout; the volume is in millionths of a cubic
/// metre.
pub open spec fn compartments_text(count: usize, volume: i64) -> Seq<char> {
    "sealed compartments: "@ + decimal(count as nat) + "   volume: "@ + shown(
            volume as int,
            (Field { width: 0, digits: 0, plus: false }),
        ) + " m³\nH toggle hatch · B breach hull · R reset"@
}

/// The compartments scene's readout; the volume is in millionths of a cubic
/// metre.
pub fn compartments_hud(count: usize, volume: i64) -> (s: String)
    ensures
        s@ == "sealed compartments: "@ + decimal(count as nat) + "   volume: "@ + shown(
            volume as int,
            (Field { width: 0, digits: 0, plus: false }),
        ) + " m³\nH toggle hatch · B breach hull · R reset"@,
        s@ == compartments_text(count, volume),
{
    let mut s: String = "sealed compartments: ".to_owned();
    push_decimal(&mut s, count as u64);
    s.append("   volume: ");
    show(&mut s, volume, field(0, 0));
    s.append(" m³\nH toggle hatch · B breach hull · R reset");
    s
}

/// The first compartment that is still sealed.
pub open spec fn first_sealed(breached: Seq<bool>) -> Option<int>
    decreases breached.len(),
{
    if breached.len() == 0 {
        None
    } else {
        match first_sealed(breached.drop_last()) {
            Some(i) => Some(i),
            None => if !breached.last() {
                Some(breached.len() - 1)
            } else {
                None
            },
        }
    }
}

/// What the flooding scene's keys ask for.
#[derive(Clone, Copy, Debug, PartialEq, Eq, Structural)]
pub struct FloodRequest {
    /// The compartment to breach.
    pub breach: Option<usize>,
    /// Whether to start over afterwards.
    pub reset: bool,
}

/// The flooding scene's keys: `B` breaches the first compartment that is still
/// sealed, `R` starts over.
pub fn flood_input(keys: &Keyboard, breached: &Vec<bool>) -> (r: FloodRequest)
    ensures
        r.reset == keys.tapped(KeyCode::KeyR),
        match r.breach {
            Some(i) => keys.tapped(KeyCode::KeyB) && first_sealed(breached@) == Some(i as int),
            None => !keys.tapped(KeyCode::KeyB) || first_sealed(breached@) is None,
        },
{
    let reset: bool = keys.just_pressed(KeyCode::KeyR);
    if !keys.just_pressed(KeyCode::KeyB) {
        return FloodRequest { breach: None, reset };
    }
    let mut found: Option<usize> = None;
    let mut i: usize = 0;
    assert(breached@.take(0) =~= Seq::<bool>::empty());
    while i < breached.len()
        invariant
            i <= breached@.len(),
            match found {
                Some(k) => first_sealed(breached@.take(i as int)) == Some(k as int),
                None => first_sealed(breached@.take(i as int)) is None,
            },
        decreases breached.len() - i,
    {
        assert(breached@.take(i + 1).drop_last() =~= breached@.take(i as int));
        assert(breached@.take(i + 1).last() == breached@[i as int]);
        if found.is_none() && !breached[i] {
            found = Some(i);
        }
        i += 1;
    }
    assert(breached@.take(i as int) =~= breached@);
    FloodRequest { breach: found, reset }
}

/// A cell put into a list that is ordered by height: behind all that are no
/// higher.
pub open spec fn placed(sorted: Seq<Cell>, c: Cell) -> Seq<Cell>
    decreases sorted.len(),
{
    if sorted.len() == 0 || sorted.last().y <= c.y {
        sorted.push(c)
    } else {
        placed(sorted.drop_last(), c).push(sorted.last())
    }
}

/// Cells by height; cells of one height keep their order.
pub open spec fn by_height(cells: Seq<Cell>) -> Seq<Cell>
    decreases cells.len(),
{
    if cells.len() == 0 {
        Seq::empty()
    } else {
        placed(by_height(cells.drop_last()), cells.last())
    }
}

/// Whether cells rise.
pub open spec fn rises(s: Seq<Cell>) -> bool {
    forall|i: int, j: int| 0 <= i < j < s.len() ==> (#[trigger] s[i]).y <= (#[trigger] s[j]).y
}

/// Placing keeps the order and adds one cell.
proof fn lemma_placed(sorted: Seq<Cell>, c: Cell)
    requires
        rises(sorted),
    ensures
        rises(placed(sorted, c)),
        placed(sorted, c).len() == sorted.len() + 1,
        placed(sorted, c).to_multiset() =~= sorted.to_multiset().insert(c),
        placed(sorted, c).last().y == c.y || (sorted.len() > 0 && placed(sorted, c).last()
            == sorted.last()),
        forall|i: int|
            0 <= i < placed(sorted, c).len() ==> (#[trigger] placed(sorted, c)[i]).y <= c.y || (
            sorted.len() > 0 && placed(sorted, c)[i].y <= sorted.last().y),
    decreases sorted.len(),
{
    broadcast use vstd::seq_lib::group_to_multiset_ensures;

    if sorted.len() == 0 || sorted.last().y <= c.y {
        assert(sorted.push(c).drop_last() =~= sorted);
    } else {
        let front = sorted.drop_last();
        assert(rises(front)) by {
            assert forall|i: int, j: int| 0 <= i < j < front.len() implies (#[trigger] front[i]).y
                <= (#[trigger] front[j]).y by {
                assert(front[i] == sorted[i] && front[j] == sorted[j]);
            }
        }
        lemma_placed(front, c);
        let p = placed(front, c);
        let u = placed(sorted, c);
        assert(u == p.push(sorted.last()));
        assert(u.drop_last() =~= p);
        if front.len() > 0 {
            assert(front.last() == sorted[front.len() - 1]);
            assert(sorted[front.len() - 1].y <= sorted[sorted.len() - 1].y);
        }
        assert(sorted =~= front.push(sorted.last()));
        assert(rises(u)) by {
            assert forall|i: int, j: int| 0 <= i < j < u.len() implies (#[trigger] u[i]).y <= (
            #[trigger] u[j]).y by {
                if j < p.len() {
                    assert(u[i] == p[i] && u[j] == p[j]);
                } else {
                    assert(u[i] == p[i] && u[j] == sorted.last());
                }
            }
        }
    }
}

/// Ordering cells by height keeps every cell and makes them rise.
pub proof fn lemma_by_height_rises(cells: Seq<Cell>)
    ensures
        rises(by_height(cells)),
        by_height(cells).len() == cells.len(),
        by_height(cells).to_multiset() =~= cells.to_multiset(),
    decreases cells.len(),
{
    broadcast use vstd::seq_lib::group_to_multiset_ensures;

    if cells.len() > 0 {
        lemma_by_height_rises(cells.drop_last());
        lemma_placed(by_height(cells.drop_last()), cells.last());
        assert(cells =~= cells.drop_last().push(cells.last()));
    }
}

/// Puts a cell in its place.
fn place(sorted: &mut Vec<Cell>, c: Cell)
    requires
        old(sorted)@.len() < usize::MAX,
    ensures
        final(sorted)@ == placed(old(sorted)@, c),
{
    let ghost start = sorted@;
    let mut i: usize = sorted.len();
    assert(start.take(i as int) =~= start);
    assert(start.skip(i as int) =~= Seq::<Cell>::empty());
    assert(placed(start, c) =~= placed(start.take(i as int), c) + start.skip(i as int));
    while i > 0 && sorted[i - 1].y > c.y
        invariant
            i <= sorted@.len(),
            sorted@ == start,
            placed(start, c) == placed(start.take(i as int), c) + start.skip(i as int),
        decreases i,
    {
        proof {
            let s = start.take(i as int);
            assert(s.drop_last() =~= start.take(i - 1));
            assert(s.last() == start[i - 1]);
            assert(placed(s, c) + start.skip(i as int) =~= placed(start.take(i - 1), c)
                + start.skip(i - 1));
        }
        i -= 1;
    }
    assert(placed(start.take(i as int), c) == start.take(i as int).push(c)) by {
        if i > 0 {
            assert(start.take(i as int).last() == start[i - 1]);
        }
    }
    sorted.insert(i, c);
    assert(sorted@ =~= start.take(i as int).push(c) + start.skip(i as int));
}

/// How many of a room's cells hold water: its share of them, rounded (a half up),
/// and no more than there are.
pub open spec fn wet_count(cells: int, flooded: int) -> int {
    let share = (2 * cells * flooded + 1_000_000) / 2_000_000;
    if share < cells {
        share
    } else {
        cells
    }
}

/// The cells of a room that hold water, the lowest first; the flooding is in
/// millionths.
pub fn wet_cells(cells: &Vec<Cell>, flooded: u32) -> (out: Vec<Cell>)
    ensures
        out@ == by_height(cells@).take(wet_count(cells@.len() as int, flooded as int)),
{
    let mut sorted: Vec<Cell> = Vec::new();
    let mut i: usize = 0;
    assert(cells@.take(0) =~= Seq::<Cell>::empty());
    while i < cells.len()
        invariant
            i <= cells@.len(),
            sorted@ == by_height(cells@.take(i as int)),
            sorted@.len() == i,
        decreases cells.len() - i,
    {
        assert(cells@.take(i + 1).drop_last() =~= cells@.take(i as int));
        assert(cells@.take(i + 1).last() == cells@[i as int]);
        proof {
            lemma_by_height_rises(cells@.take(i + 1));
        }
        let c: Cell = cells[i];
        place(&mut sorted, c);
        i += 1;
    }
    assert(cells@.take(i as int) =~= cells@);
    let n: usize = cells.len();
    assert(0 <= 2 * n * flooded <= 2 * 0xffff_ffff_ffff_ffff * 0xffff_ffff) by (nonlinear_arith)
        requires
            0 <= n <= 0xffff_ffff_ffff_ffff,
            0 <= flooded <= 0xffff_ffff,
    ;
    let wet: u128 = (2u128 * n as u128 * flooded as u128 + 1_000_000u128) / 2_000_000u128;
    let keep: usize = if wet < n as u128 {
        wet as usize
    } else {
        n
    };
    let mut out: Vec<Cell> = Vec::new();
    let mut k: usize = 0;
    while k < keep
        invariant
            k <= keep <= sorted@.len(),
            out@ == sorted@.take(k as int),
        decreases keep - k,
    {
        out.push(sorted[k]);
        k += 1;
        assert(out@ =~= sorted@.take(k as int));
    }
    out
}

/// A dry room shows no water, and a flooded one is full.
pub proof fn lemma_water_fills_from_none_to_all(cells: int)
    requires
        cells >= 0,
    ensures
        wet_count(cells, 0) == 0,
        wet_count(cells, 1_000_000) == cells,
{
}

/// The flooding scene's readout: the depth in micrometres, the mean flooding in
/// millionths, the mass in milligrams.
pub open spec fn flooding_text(depth: i64, flooded: u32, mass: i64, imploded: bool) -> Seq<char> {
    "depth: "@ + shown(depth as int, (Field { width: 6, digits: 1, plus: false }))
            + " m   flooded: "@ + shown(
            flooded * 100,
            (Field { width: 4, digits: 0, plus: false }),
        ) + "%   mass: "@ + shown(mass as int, (Field { width: 8, digits: 0, plus: false }))
            + " kg"@ + (if imploded {
            "   [IMPLODED]"@
        } else {
            ""@
        }) + "\nB breach a compartment · R reset"@
}

/// The flooding scene's readout: the depth in micrometres, the mean flooding in
/// millionths, the mass in milligrams.
pub fn flooding_hud(depth: i64, flooded: u32, mass: i64, imploded: bool) -> (s: String)
    ensures
        s@ == "depth: "@ + shown(depth as int, (Field { width: 6, digits: 1, plus: false }))
            + " m   flooded: "@ + shown(
            flooded * 100,
            (Field { width: 4, digits: 0, plus: false }),
        ) + "%   mass: "@ + shown(mass as int, (Field { width: 8, digits: 0, plus: false }))
            + " kg"@ + (if imploded {
            "   [IMPLODED]"@
        } else {
            ""@
        }) + "\nB breach a compartment · R reset"@,
        s@ == flooding_text(depth, flooded, mass, imploded),
{
    let mut s: String = "depth: ".to_owned();
    show(&mut s, depth, field(6, 1));
    s.append(" m   flooded: ");
    show(&mut s, flooded as i64 * 100, field(4, 0));
    s.append("%   mass: ");
    show(&mut s, mass, field(8, 0));
    s.append(" kg");
    s.append(
        if imploded {
            "   [IMPLODED]"
        } else {
            ""
        },
    );
    s.append("\nB breach a compartment · R reset");
    s
}

/// Toggling works the first door in the hatch's cell, and no other: that one changes from
/// open to closed or back, and every door stays in its cell.
pub proof fn lemma_toggling_works_the_hatch_only(doors: Seq<Door>, i: int)
    requires
        0 <= i < doors.len(),
    ensures
        toggled_hatch(doors).len() == doors.len(),
        toggled_hatch(doors)[i].cell == doors[i].cell,
        toggled_hatch(doors)[i].open != doors[i].open <==> doors[i].cell == hatch() && forall|j: int|
            0 <= j < i ==> (#[trigger] doors[j]).cell != hatch(),
{
    lemma_first_door(doors, hatch(), i);
    lemma_door_is_in_its_cell(doors, hatch());
}

proof fn lemma_first_door(doors: Seq<Door>, cell: Cell, i: int)
    requires
        0 <= i < doors.len(),
    ensures
        door_at(doors, cell) == Some(i) <==> doors[i].cell == cell && forall|j: int|
            0 <= j < i ==> (#[trigger] doors[j]).cell != cell,
    decreases doors.len(),
{
    let t = doors.drop_last();
    assert(forall|j: int| 0 <= j < t.len() ==> #[trigger] doors[j] == t[j]);
    lemma_door_is_in_its_cell(t, cell);
    if i < t.len() {
        lemma_first_door(t, cell, i);
        if door_at(t, cell) is None && doors[i].cell == cell {
            lemma_no_door(t, cell);
            assert(t[i].cell == cell);
        }
    } else {
        lemma_no_door(t, cell);
        if door_at(t, cell) is Some {
            let k = door_at(t, cell)->0;
            assert(doors[k].cell == cell);
        }
    }
}

proof fn lemma_no_door(doors: Seq<Door>, cell: Cell)
    ensures
        door_at(doors, cell) is None <==> forall|j: int|
            0 <= j < doors.len() ==> (#[trigger] doors[j]).cell != cell,
    decreases doors.len(),
{
    if doors.len() > 0 {
        let t = doors.drop_last();
        lemma_no_door(t, cell);
        assert(forall|j: int| 0 <= j < t.len() ==> #[trigger] doors[j] == t[j]);
        assert(doors.last() == doors[doors.len() - 1]);
    }
}

/// A breach takes the voxel of one cell and no other.
pub proof fn lemma_a_breach_opens_one_cell(voxels: Seq<Voxel>, v: Voxel)
    ensures
        breached_hull(voxels).contains(v) <==> voxels.contains(v) && v.cell != breach(),
{
    crate::seq_facts::lemma_filter_contains(voxels, |v: Voxel| v.cell != breach(), v);
}

/// The compartment that is breached next is sealed, all before it are breached already, and
/// there is none exactly when all are.
pub proof fn lemma_the_first_sealed_room_is_next(breached: Seq<bool>)
    ensures
        first_sealed(breached) is None <==> forall|i: int|
            0 <= i < breached.len() ==> #[trigger] breached[i],
        first_sealed(breached) matches Some(k) ==> 0 <= k < breached.len() && !breached[k]
            && forall|i: int| 0 <= i < k ==> #[trigger] breached[i],
    decreases breached.len(),
{
    if breached.len() > 0 {
        let t = breached.drop_last();
        lemma_the_first_sealed_room_is_next(t);
        assert(forall|i: int| 0 <= i < t.len() ==> #[trigger] breached[i] == t[i]);
        assert(breached.last() == breached[breached.len() - 1]);
    }
}

/// As many cells are wet as the room is flooded, to the nearest cell, and never more than
/// there are. A room that floods further never has fewer.
pub proof fn lemma_wet_cells_follow_the_flooding(cells: int, flooded: int, more: int)
    requires
        cells >= 0,
        0 <= flooded <= more,
    ensures
        0 <= wet_count(cells, flooded) <= cells,
        flooded <= 1_000_000 ==> -500_000 <= wet_count(cells, flooded) * 1_000_000 - cells * flooded
            <= 500_000,
        flooded >= 1_000_000 ==> wet_count(cells, flooded) == cells,
        wet_count(cells, flooded) <= wet_count(cells, more),
{
    assert(2 * cells * flooded == 2 * (cells * flooded) && 2 * cells * more == 2 * (cells * more))
        by (nonlinear_arith);
    assert(0 <= cells * flooded <= cells * more) by (nonlinear_arith)
        requires
            cells >= 0,
            0 <= flooded <= more,
    ;
    if flooded <= 1_000_000 {
        assert(cells * flooded <= cells * 1_000_000) by (nonlinear_arith)
            requires
                cells >= 0,
                flooded <= 1_000_000,
        ;
    } else {
        assert(cells * flooded >= cells * 1_000_000) by (nonlinear_arith)
            requires
                cells >= 0,
                flooded >= 1_000_000,
        ;
    }
}

/// The wet cells are the lowest of the room: no cell that stays dry is below one of them.
pub proof fn lemma_water_takes_the_lowest_cells(cells: Seq<Cell>, flooded: int, i: int, j: int)
    requires
        flooded >= 0,
        0 <= i < wet_count(cells.len() as int, flooded) <= j < cells.len(),
    ensures
        by_height(cells).take(wet_count(cells.len() as int, flooded))[i].y <= by_height(cells)[j].y,
        by_height(cells).to_multiset() == cells.to_multiset(),
{
    lemma_by_height_rises(cells);
    let s = by_height(cells);
    assert(s[i].y <= s[j].y);
}

/// Every measure stands behind its own label in the compartments scene's readout.
pub proof fn lemma_the_compartments_readout_labels_its_measures(
    count: usize,
    volume: i64,
)
    ensures
        says(
            compartments_text(count, volume),
            "sealed compartments: "@ + decimal(count as nat),
        ),
        says(
            compartments_text(count, volume),
            "   volume: "@ + shown(volume as int, (Field { width: 0, digits: 0, plus: false })),
        ),
{
    let text = compartments_text(count, volume);
    let t0 = "sealed compartments: "@;
    let t1 = decimal(count as nat);
    let t2 = "   volume: "@;
    let t3 = shown(volume as int, (Field { width: 0, digits: 0, plus: false }));
    let t4 = " m³\nH toggle hatch · B breach hull · R reset"@;
    let a1 = t0 + t1;
    lemma_says_itself(a1);
    let a2 = a1 + t2;
    lemma_says_on(a1, t2);
    let a3 = a2 + t3;
    lemma_says_on(a2, t3);
    lemma_says_its_end(a1, t2, t3);
    let a4 = a3 + t4;
    lemma_says_on(a3, t4);
    assert(text == a4);
}

/// Every measure stands behind its own label in the flooding scene's readout.
pub proof fn lemma_the_flooding_readout_labels_its_measures(
    depth: i64,
    flooded: u32,
    mass: i64,
    imploded: bool,
)
    ensures
        says(
            flooding_text(depth, flooded, mass, imploded),
            "depth: "@ + shown(depth as int, (Field { width: 6, digits: 1, plus: false })),
        ),
        says(
            flooding_text(depth, flooded, mass, imploded),
            " m   flooded: "@ + shown(flooded * 100, (Field { width: 4, digits: 0, plus: false })),
        ),
        says(
            flooding_text(depth, flooded, mass, imploded),
            "%   mass: "@ + shown(mass as int, (Field { width: 8, digits: 0, plus: false })),
        ),
        says(
            flooding_text(depth, flooded, mass, imploded),
            " kg"@ + (if imploded { "   [IMPLODED]"@ } else { ""@ }),
        ),
{
    let text = flooding_text(depth, flooded, mass, imploded);
    let t0 = "depth: "@;
    let t1 = shown(depth as int, (Field { width: 6, digits: 1, plus: false }));
    let t2 = " m   flooded: "@;
    let t3 = shown(flooded * 100, (Field { width: 4, digits: 0, plus: false }));
    let t4 = "%   mass: "@;
    let t5 = shown(mass as int, (Field { width: 8, digits: 0, plus: false }));
    let t6 = " kg"@;
    let t7 = (if imploded { "   [IMPLODED]"@ } else { ""@ });
    let t8 = "\nB breach a compartment · R reset"@;
    let a1 = t0 + t1;
    lemma_says_itself(a1);
    let a2 = a1 + t2;
    lemma_says_on(a1, t2);
    let a3 = a2 + t3;
    lemma_says_on(a2, t3);
    lemma_says_its_end(a1, t2, t3);
    let a4 = a3 + t4;
    lemma_says_on(a3, t4);
    let a5 = a4 + t5;
    lemma_says_on(a4, t5);
    lemma_says_its_end(a3, t4, t5);
    let a6 = a5 + t6;
    lemma_says_on(a5, t6);
    let a7 = a6 + t7;
    lemma_says_on(a6, t7);
    lemma_says_its_end(a5, t6, t7);
    let a8 = a7 + t8;
    lemma_says_on(a7, t8);
    assert(text == a8);
}

} // verus!
