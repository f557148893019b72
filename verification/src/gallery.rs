//! The part gallery: a row of pedestals for each category, and the panel that
//! tells of a part.

use crate::flight::axis;
use crate::flight::push_of;
use crate::input::KeyCode;
use crate::input::Keyboard;
use crate::readout::field;
use crate::readout::show;
use crate::readout::shown;
use crate::readout::Field;
use crate::text::decimal;
use crate::text::push_decimal;
use crate::text::lemma_says_its_end;
use crate::text::lemma_says_on;
use crate::text::says;
use vstd::prelude::*;

verus! {

/// The spacing of the rows, in millimetres.
pub const ROW_GAP: i128 = 1_700;

/// Half the spacing of the parts in a row, in millimetres.
pub const HALF_COLUMN: i128 = 675;

/// A pedestal: the part on it, and where it stands, in millimetres.
#[derive(Clone, Copy, Debug, PartialEq, Eq, Structural)]
pub struct Pedestal {
    pub part: usize,
    pub x: i128,
    pub z: i128,
}

/// How many of the first `k` parts are of a category.
pub open spec fn count_of(categories: Seq<usize>, k: int, category: int) -> int
    decreases k,
{
    if k <= 0 {
        0
    } else {
        count_of(categories, k - 1, category) + if categories[k - 1] == category {
            1int
        } else {
            0
        }
    }
}

/// A row's pedestals for the first `k` parts: in catalog order, evenly spaced and
/// centred.
pub open spec fn row_of(categories: Seq<usize>, k: int, category: int) -> Seq<Pedestal>
    decreases k,
{
    if k <= 0 {
        Seq::empty()
    } else {
        let front = row_of(categories, k - 1, category);
        if categories[k - 1] == category {
            let col = count_of(categories, k - 1, category);
            let n = count_of(categories, categories.len() as int, category);
            front.push(
                Pedestal {
                    part: (k - 1) as usize,
                    x: ((2 * col - (n - 1)) * HALF_COLUMN) as i128,
                    z: (category * ROW_GAP) as i128,
                },
            )
        } else {
            front
        }
    }
}

/// The pedestals of the first `r` rows.
pub open spec fn rows(categories: Seq<usize>, r: int) -> Seq<Pedestal>
    decreases r,
{
    if r <= 0 {
        Seq::empty()
    } else {
        rows(categories, r - 1) + row_of(categories, categories.len() as int, r - 1)
    }
}

/// Counts the parts of a category.
fn count_category(categories: &Vec<usize>, category: usize) -> (n: usize)
    ensures
        n == count_of(categories@, categories@.len() as int, category as int),
        n <= categories@.len(),
{
    let mut n: usize = 0;
    let mut i: usize = 0;
    while i < categories.len()
        invariant
            i <= categories@.len(),
            n <= i,
            n == count_of(categories@, i as int, category as int),
        decreases categories.len() - i,
    {
        if categories[i] == category {
            n += 1;
        }
        i += 1;
    }
    n
}

/// Lays out the catalog: a row for each category, from near to far.
pub fn layout(categories: &Vec<usize>, category_count: usize) -> (out: Vec<Pedestal>)
    ensures
        out@ == rows(categories@, category_count as int),
{
    let mut out: Vec<Pedestal> = Vec::new();
    let mut row: usize = 0;
    while row < category_count
        invariant
            row <= category_count,
            out@ == rows(categories@, row as int),
        decreases category_count - row,
    {
        let ghost before = out@;
        let n: usize = count_category(categories, row);
        let mut col: usize = 0;
        let mut i: usize = 0;
        assert(out@ =~= before + row_of(categories@, 0, row as int));
        while i < categories.len()
            invariant
                i <= categories@.len(),
                row < category_count,
                n == count_of(categories@, categories@.len() as int, row as int),
                n <= categories@.len(),
                col <= i,
                col == count_of(categories@, i as int, row as int),
                out@ == before + row_of(categories@, i as int, row as int),
            decreases categories.len() - i,
        {
            let ghost sofar = out@;
            if categories[i] == row {
                let steps: i128 = 2 * col as i128 - (n as i128 - 1);
                out.push(Pedestal { part: i, x: steps * HALF_COLUMN, z: row as i128 * ROW_GAP });
                col += 1;
            }
            i += 1;
            assert(out@ =~= before + row_of(categories@, i as int, row as int));
        }
        row += 1;
    }
    out
}

/// Whether a part stands on a pedestal.
pub open spec fn displayed(s: Seq<Pedestal>, part: usize) -> bool {
    exists|i: int| 0 <= i < s.len() && (#[trigger] s[i]).part == part
}

proof fn lemma_row_displays(categories: Seq<usize>, k: int, category: int, part: usize)
    requires
        0 <= k <= categories.len() <= usize::MAX,
    ensures
        displayed(row_of(categories, k, category), part) == (part < k && categories[part as int]
            == category),
    decreases k,
{
    if k > 0 {
        lemma_row_displays(categories, k - 1, category, part);
        let front = row_of(categories, k - 1, category);
        let whole = row_of(categories, k, category);
        if displayed(front, part) {
            let i = choose|i: int| 0 <= i < front.len() && (#[trigger] front[i]).part == part;
            assert(whole[i].part == part);
        }
        if categories[k - 1] == category {
            assert(whole[front.len() as int].part == k - 1);
            if displayed(whole, part) && part != k - 1 {
                let i = choose|i: int| 0 <= i < whole.len() && (#[trigger] whole[i]).part == part;
                assert(i < front.len());
                assert(front[i].part == part);
            }
        }
    }
}

/// Every part of a known category is displayed, and no other.
pub proof fn lemma_every_part_is_displayed(categories: Seq<usize>, r: int, part: usize)
    requires
        categories.len() <= usize::MAX,
        0 <= r,
    ensures
        displayed(rows(categories, r), part) == (part < categories.len() && categories[part as int]
            < r),
    decreases r,
{
    if r > 0 {
        let n = categories.len() as int;
        lemma_every_part_is_displayed(categories, r - 1, part);
        lemma_row_displays(categories, n, r - 1, part);
        let (s, t) = (rows(categories, r - 1), row_of(categories, n, r - 1));
        if displayed(s, part) {
            let i = choose|i: int| 0 <= i < s.len() && (#[trigger] s[i]).part == part;
            assert((s + t)[i].part == part);
        }
        if displayed(t, part) {
            let i = choose|i: int| 0 <= i < t.len() && (#[trigger] t[i]).part == part;
            assert((s + t)[s.len() + i].part == part);
        }
        if displayed(s + t, part) {
            let i = choose|i: int| 0 <= i < (s + t).len() && (#[trigger] (s + t)[i]).part == part;
            if i < s.len() {
                assert(s[i].part == part);
            } else {
                assert(t[i - s.len()].part == part);
            }
        }
    }
}

/// The legend's lines for the first `k` rows.
pub open spec fn legend_rows(labels: Seq<String>, k: int) -> Seq<char>
    decreases k,
{
    if k <= 0 {
        Seq::empty()
    } else {
        legend_rows(labels, k - 1) + (if k > 1 {
            "\n"@
        } else {
            ""@
        }) + "  row "@ + decimal(k as nat) + ": "@ + labels[k - 1]@
    }
}

/// The legend: how many parts there are, and which row is which.
pub fn legend(parts: usize, labels: &Vec<String>) -> (s: String)
    ensures
        s@ == "PART GALLERY ("@ + decimal(parts as nat)
            + " parts)\nclick a part to inspect\n\nrows (near \u{2192} far):\n"@ + legend_rows(
            labels@,
            labels@.len() as int,
        )
            + "\n\nmiddle-drag orbit \u{b7} scroll zoom \u{b7} WASD pan \u{b7} Space spin"@,
{
    let mut s: String = "PART GALLERY (".to_owned();
    push_decimal(&mut s, parts as u64);
    s.append(" parts)\nclick a part to inspect\n\nrows (near \u{2192} far):\n");
    let ghost head = s@;
    let mut k: usize = 0;
    assert(s@ =~= head + legend_rows(labels@, 0));
    while k < labels.len()
        invariant
            k <= labels@.len(),
            s@ == head + legend_rows(labels@, k as int),
        decreases labels.len() - k,
    {
        s.append(
            if k > 0 {
                "\n"
            } else {
                ""
            },
        );
        s.append("  row ");
        push_decimal(&mut s, k as u64 + 1);
        s.append(": ");
        s.append(labels[k].as_str());
        k += 1;
        assert(s@ =~= head + legend_rows(labels@, k as int));
    }
    s.append("\n\nmiddle-drag orbit \u{b7} scroll zoom \u{b7} WASD pan \u{b7} Space spin");
    s
}

/// A part of the catalog. The device is as it is printed; its mass is in
/// milligrams.
#[derive(Debug, PartialEq, Eq)]
pub struct CatalogPart {
    pub name: String,
    pub category: String,
    pub material_set: String,
    pub orientation: String,
    pub verts: u32,
    pub device: Option<String>,
    pub device_mass: Option<i64>,
}

/// What the panel tells of a part.
pub open spec fn inspected(part: Option<CatalogPart>) -> Seq<char> {
    match part {
        None => "(no part selected)"@,
        Some(p) => p.name@ + "\ncategory: "@ + p.category@ + "\nmaterial: "@ + p.material_set@
            + "\norientation: "@ + p.orientation@ + "\nverts: "@ + decimal(p.verts as nat) + (
        match p.device {
            Some(d) => "\ndevice: "@ + d@,
            None => Seq::empty(),
        }) + (match p.device_mass {
            Some(m) => "\ndevice mass: "@ + shown(
                m as int,
                (Field { width: 0, digits: 1, plus: false }),
            ) + " kg (@ 0.5 m cell)"@,
            None => Seq::empty(),
        }),
    }
}

/// What the panel tells of the selected part.
pub fn inspector_text(part: &Option<CatalogPart>) -> (s: String)
    ensures
        s@ == inspected(*part),
{
    match part {
        None => "(no part selected)".to_owned(),
        Some(p) => {
            let mut s: String = p.name.as_str().to_owned();
            s.append("\ncategory: ");
            s.append(p.category.as_str());
            s.append("\nmaterial: ");
            s.append(p.material_set.as_str());
            s.append("\norientation: ");
            s.append(p.orientation.as_str());
            s.append("\nverts: ");
            push_decimal(&mut s, p.verts as u64);
            let ghost head = s@;
            if let Some(d) = &p.device {
                s.append("\ndevice: ");
                s.append(d.as_str());
            }
            let ghost middle = s@;
            assert(s@ =~= head + (match p.device {
                Some(d) => "\ndevice: "@ + d@,
                None => Seq::empty(),
            }));
            if let Some(m) = p.device_mass {
                s.append("\ndevice mass: ");
                show(&mut s, m, field(0, 1));
                s.append(" kg (@ 0.5 m cell)");
            }
            assert(s@ =~= middle + (match p.device_mass {
                Some(m) => "\ndevice mass: "@ + shown(
                    m as int,
                    (Field { width: 0, digits: 1, plus: false }),
                ) + " kg (@ 0.5 m cell)"@,
                None => Seq::empty(),
            }));
            s
        },
    }
}

/// The gallery's keys: how the target is panned, forward and to the right, and
/// whether the parts spin.
pub fn gallery_keys(keys: &Keyboard, spinning: bool) -> (r: (i32, i32, bool))
    ensures
        r.0 == push_of(*keys, KeyCode::KeyW, KeyCode::KeyS),
        r.1 == push_of(*keys, KeyCode::KeyD, KeyCode::KeyA),
        r.2 == (spinning != keys.tapped(KeyCode::Space)),
        r.2 == spinning <==> !keys.tapped(KeyCode::Space),
{
    let forward: i32 = axis(keys, KeyCode::KeyW, KeyCode::KeyS);
    let right: i32 = axis(keys, KeyCode::KeyD, KeyCode::KeyA);
    let spins: bool = spinning != keys.just_pressed(KeyCode::Space);
    (forward, right, spins)
}

/// A row's pedestals are a metre and thirty-five apart and centred: each stands a column
/// after the one before it, and the first is as far to the left as the last is to the right.
/// All stand at their category's depth.
pub proof fn lemma_rows_are_even_and_centred(categories: Seq<usize>, category: usize, i: int)
    requires
        categories.len() <= usize::MAX,
        0 <= i < row_of(categories, categories.len() as int, category as int).len(),
    ensures
        ({
            let row = row_of(categories, categories.len() as int, category as int);
            let n = row.len() as int;
            &&& row[i].x == 675 * (2 * i - (n - 1))
            &&& row[i].z == category * 1_700
            &&& i + 1 < n ==> row[i + 1].x - row[i].x == 1_350
            &&& row[0].x == -row[n - 1].x
            &&& i + 1 < n ==> row[i].part < row[i + 1].part
        }),
{
    let len = categories.len() as int;
    let n = count_of(categories, len, category as int);
    lemma_row_places(categories, len, category, i);
    lemma_row_places(categories, len, category, 0);
    lemma_row_places(categories, len, category, n - 1);
    if i + 1 < n {
        lemma_row_places(categories, len, category, i + 1);
        lemma_row_in_order(categories, len, category as int, i);
    }
}

proof fn lemma_count_in_range(categories: Seq<usize>, k: int, category: int)
    requires
        0 <= k <= categories.len(),
    ensures
        0 <= count_of(categories, k, category) <= k,
        row_of(categories, k, category).len() == count_of(categories, k, category),
    decreases k,
{
    if k > 0 {
        lemma_count_in_range(categories, k - 1, category);
    }
}

proof fn lemma_row_places(categories: Seq<usize>, k: int, category: usize, i: int)
    requires
        categories.len() <= usize::MAX,
        0 <= k <= categories.len(),
        0 <= i < row_of(categories, k, category as int).len(),
    ensures
        ({
            let n = count_of(categories, categories.len() as int, category as int);
            let p = row_of(categories, k, category as int)[i];
            &&& row_of(categories, k, category as int).len() == count_of(
                categories,
                k,
                category as int,
            )
            &&& p.x == 675 * (2 * i - (n - 1))
            &&& p.z == category * 1_700
            &&& p.part < k
        }),
    decreases k,
{
    if k > 0 {
        let cat = category as int;
        lemma_count_in_range(categories, k, cat);
        lemma_count_in_range(categories, k - 1, cat);
        lemma_count_in_range(categories, categories.len() as int, cat);
        let front = row_of(categories, k - 1, cat);
        if i < front.len() {
            lemma_row_places(categories, k - 1, category, i);
        }
    }
}

proof fn lemma_row_in_order(categories: Seq<usize>, k: int, category: int, i: int)
    requires
        categories.len() <= usize::MAX,
        0 <= k <= categories.len(),
        0 <= category <= usize::MAX,
        0 <= i,
        i + 1 < row_of(categories, k, category).len(),
    ensures
        row_of(categories, k, category)[i].part < row_of(categories, k, category)[i + 1].part,
    decreases k,
{
    if k > 0 {
        let front = row_of(categories, k - 1, category);
        if i + 1 < front.len() {
            lemma_row_in_order(categories, k - 1, category, i);
        } else {
            lemma_row_places(categories, k - 1, category as usize, i);
        }
    }
}

/// The panel begins with the part's own name, or says that none is selected, and tells of a
/// device only where there is one.
pub proof fn lemma_the_panel_tells_of_the_part(p: CatalogPart)
    ensures
        inspected(None) == "(no part selected)"@,
        inspected(Some(p)).take(p.name@.len() as int) == p.name@,
        p.device is None && p.device_mass is None ==> inspected(Some(p)) == p.name@
            + "\ncategory: "@ + p.category@ + "\nmaterial: "@ + p.material_set@
            + "\norientation: "@ + p.orientation@ + "\nverts: "@ + decimal(p.verts as nat),
{
    assert(inspected(Some(p)).take(p.name@.len() as int) =~= p.name@);
    if p.device is None && p.device_mass is None {
        assert(inspected(Some(p)) =~= p.name@ + "\ncategory: "@ + p.category@ + "\nmaterial: "@
            + p.material_set@ + "\norientation: "@ + p.orientation@ + "\nverts: "@ + decimal(
            p.verts as nat,
        ));
    }
}

/// The legend has a line for each row, numbered from one and in order, with the row's label.
pub proof fn lemma_the_legend_names_every_row(labels: Seq<String>, k: int)
    requires
        0 < k,
    ensures
        says(legend_rows(labels, k), "  row "@ + decimal(k as nat) + ": "@ + labels[k - 1]@),
        forall|piece: Seq<char>|
            says(legend_rows(labels, k - 1), piece) ==> #[trigger] says(legend_rows(labels, k), piece),
        legend_rows(labels, 0).len() == 0,
{
    let head = legend_rows(labels, k - 1);
    let gap = if k > 1 {
        "\n"@
    } else {
        ""@
    };
    let line = "  row "@ + decimal(k as nat) + ": "@ + labels[k - 1]@;
    assert(legend_rows(labels, k) =~= head + gap + line);
    lemma_says_on(head, gap + line);
    assert(head + (gap + line) =~= legend_rows(labels, k));
    let at = (head + gap).len() as int;
    assert(legend_rows(labels, k).subrange(at, at + line.len()) =~= line);
}

/// The panel tells of a part its name first, and then each property behind its own label.
pub proof fn lemma_the_panel_labels_its_properties(p: CatalogPart)
    ensures
        inspected(Some(p)).take(p.name@.len() as int) == p.name@,
        says(inspected(Some(p)), "\ncategory: "@ + p.category@),
        says(inspected(Some(p)), "\nmaterial: "@ + p.material_set@),
        says(inspected(Some(p)), "\norientation: "@ + p.orientation@),
        says(inspected(Some(p)), "\nverts: "@ + decimal(p.verts as nat)),
{
    let t0 = p.name@;
    let a1 = t0 + "\ncategory: "@;
    let a2 = a1 + p.category@;
    lemma_says_its_end(t0, "\ncategory: "@, p.category@);
    let a3 = a2 + "\nmaterial: "@;
    lemma_says_on(a2, "\nmaterial: "@);
    let a4 = a3 + p.material_set@;
    lemma_says_on(a3, p.material_set@);
    lemma_says_its_end(a2, "\nmaterial: "@, p.material_set@);
    let a5 = a4 + "\norientation: "@;
    lemma_says_on(a4, "\norientation: "@);
    let a6 = a5 + p.orientation@;
    lemma_says_on(a5, p.orientation@);
    lemma_says_its_end(a4, "\norientation: "@, p.orientation@);
    let a7 = a6 + "\nverts: "@;
    lemma_says_on(a6, "\nverts: "@);
    let a8 = a7 + decimal(p.verts as nat);
    lemma_says_on(a7, decimal(p.verts as nat));
    lemma_says_its_end(a6, "\nverts: "@, decimal(p.verts as nat));
    let device: Seq<char> = match p.device {
        Some(d) => "\ndevice: "@ + d@,
        None => Seq::empty(),
    };
    let mass: Seq<char> = match p.device_mass {
        Some(m) => "\ndevice mass: "@ + shown(
            m as int,
            (Field { width: 0, digits: 1, plus: false }),
        ) + " kg (@ 0.5 m cell)"@,
        None => Seq::empty(),
    };
    lemma_says_on(a8, device);
    lemma_says_on(a8 + device, mass);
    assert(inspected(Some(p)) == a8 + device + mass);
    assert(inspected(Some(p)).take(p.name@.len() as int) =~= p.name@);
}

} // verus!
