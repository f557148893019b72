//! How readouts print numbers.
//!
//! A number is given in millionths and printed with a fixed count of digits
//! behind the point, rounded to the nearest (a tie to the even digit), and
//! right-aligned in a field.

use crate::text::decimal;
use crate::text::digit_char;
use crate::text::digits_value;
use crate::text::push_char;
use crate::text::push_decimal;
use vstd::prelude::*;

verus! {

/// A power of ten.
pub open spec fn power_of_ten(k: nat) -> nat
    decreases k,
{
    if k == 0 {
        1
    } else {
        10 * power_of_ten((k - 1) as nat)
    }
}

/// `n / d`, rounded to the nearest; a tie goes to the even number.
pub open spec fn nearest(n: nat, d: nat) -> nat {
    let low = n / d;
    let rest = n % d;
    if 2 * rest < d || (2 * rest == d && low % 2 == 0) {
        low
    } else {
        low + 1
    }
}

/// The last `k` digits of a number.
pub open spec fn low_digits(n: nat, k: nat) -> Seq<char>
    decreases k,
{
    if k == 0 {
        Seq::empty()
    } else {
        low_digits(n / 10, (k - 1) as nat).push(digit_char(n % 10))
    }
}

/// The size of a number.
pub open spec fn size_of(v: int) -> nat {
    if v < 0 {
        (-v) as nat
    } else {
        v as nat
    }
}

/// The sign of a number: a minus, or a plus where it is asked for.
pub open spec fn sign_of(v: int, plus: bool) -> Seq<char> {
    if v < 0 {
        seq!['-']
    } else if plus {
        seq!['+']
    } else {
        Seq::empty()
    }
}

/// A number of millionths with `digits` digits behind the point.
pub open spec fn fixed(v: int, digits: nat, plus: bool) -> Seq<char> {
    let unit = power_of_ten(digits);
    let q = nearest(size_of(v), power_of_ten((6 - digits) as nat));
    sign_of(v, plus) + decimal(q / unit) + (if digits == 0 {
        Seq::empty()
    } else {
        seq!['.'] + low_digits(q % unit, digits)
    })
}

/// A text right-aligned in a field.
pub open spec fn aligned(text: Seq<char>, width: nat) -> Seq<char> {
    Seq::new(
        if text.len() < width {
            (width - text.len()) as nat
        } else {
            0
        },
        |i: int| ' ',
    ) + text
}

/// `n / d`, rounded to the nearest; a tie goes to the even number.
pub(crate) fn nearest_of(n: u64, d: u64) -> (q: u64)
    requires
        d > 0,
        n / d < u64::MAX,
    ensures
        q == nearest(n as nat, d as nat),
{
    let low: u64 = n / d;
    let rest: u64 = n % d;
    if rest < d - rest || (rest == d - rest && low % 2 == 0) {
        low
    } else {
        low + 1
    }
}

/// Appends the last `k` digits of a number.
fn push_low_digits(text: &mut String, n: u64, k: u64)
    ensures
        final(text)@ == old(text)@ + low_digits(n as nat, k as nat),
    decreases k,
{
    let ghost before = text@;
    if k > 0 {
        push_low_digits(text, n / 10, k - 1);
        let d: u8 = (n % 10) as u8;
        push_char(text, (48 + d) as char);
    }
    assert(text@ =~= before + low_digits(n as nat, k as nat));
}

/// How the field of a number looks.
#[derive(Clone, Copy, Debug, PartialEq, Eq, Structural)]
pub struct Field {
    pub width: u32,
    pub digits: u32,
    pub plus: bool,
}

/// What a field shows of a number.
pub open spec fn shown(v: int, f: Field) -> Seq<char> {
    aligned(fixed(v, f.digits as nat, f.plus), f.width as nat)
}

/// A power of ten.
fn ten_to(k: u32) -> (p: u64)
    requires
        k <= 6,
    ensures
        p == power_of_ten(k as nat),
        1 <= p <= 1_000_000,
{
    reveal_with_fuel(power_of_ten, 7);
    match k {
        0 => 1,
        1 => 10,
        2 => 100,
        3 => 1_000,
        4 => 10_000,
        5 => 100_000,
        _ => 1_000_000,
    }
}

/// The text of a number of millionths with `digits` digits behind the point.
fn fixed_text(v: i64, digits: u32, plus: bool) -> (s: String)
    requires
        digits <= 6,
    ensures
        s@ == fixed(v as int, digits as nat, plus),
{
    let mut s: String = "".to_owned();
    proof {
        reveal_strlit("");
    }
    let size: u64 = if v < 0 {
        (-(v as i128)) as u64
    } else {
        v as u64
    };
    if v < 0 {
        push_char(&mut s, '-');
    } else if plus {
        push_char(&mut s, '+');
    }
    assert(s@ =~= sign_of(v as int, plus));
    let unit: u64 = ten_to(digits);
    let step: u64 = ten_to(6 - digits);
    assert(size / step < u64::MAX) by (nonlinear_arith)
        requires
            step >= 1,
            size <= 0x8000_0000_0000_0000,
    ;
    let q: u64 = nearest_of(size, step);
    push_decimal(&mut s, q / unit);
    let ghost head = s@;
    if digits > 0 {
        push_char(&mut s, '.');
        push_low_digits(&mut s, q % unit, digits as u64);
        assert(s@ =~= head + (seq!['.'] + low_digits((q % unit) as nat, digits as nat)));
    } else {
        assert(s@ =~= head + Seq::<char>::empty());
    }
    s
}

/// Appends a number of millionths in a field.
pub fn show(text: &mut String, v: i64, f: Field)
    requires
        f.digits <= 6,
    ensures
        final(text)@ == old(text)@ + shown(v as int, f),
{
    let ghost before = text@;
    let body: String = fixed_text(v, f.digits, f.plus);
    let len: usize = body.as_str().unicode_len();
    let mut k: usize = len;
    while k < f.width as usize
        invariant
            len == body@.len(),
            len <= k,
            k <= f.width || k == len,
            text@ == before + Seq::new((k - len) as nat, |i: int| ' '),
        decreases f.width - k,
    {
        let ghost t = text@;
        push_char(text, ' ');
        k += 1;
        assert(text@ =~= before + Seq::new((k - len) as nat, |i: int| ' '));
    }
    text.append(body.as_str());
    assert(text@ =~= before + shown(v as int, f));
}

/// A field of a width with digits behind the point, and a sign only where the
/// number is negative.
pub fn field(width: u32, digits: u32) -> (f: Field)
    ensures
        f == (Field { width, digits, plus: false }),
{
    Field { width, digits, plus: false }
}

/// What is shown fills its field at least.
pub proof fn lemma_shown_fills_the_field(v: int, f: Field)
    ensures
        shown(v, f).len() >= f.width,
{
}

/// Rounding moves a quotient by half at most.
pub proof fn lemma_nearest_is_near(n: nat, d: nat)
    requires
        d > 0,
    ensures
        2 * (nearest(n, d) * d) <= 2 * n + d,
        2 * n <= 2 * (nearest(n, d) * d) + d,
{
    let low = n / d;
    let rest = n % d;
    assert(n == low * d + rest) by {
        vstd::arithmetic::div_mod::lemma_fundamental_div_mod(n as int, d as int);
        vstd::arithmetic::mul::lemma_mul_is_commutative(d as int, low as int);
    }
    assert((low + 1) * d == low * d + d) by (nonlinear_arith);
}

/// The digits behind the point read back as the number they spell.
pub proof fn lemma_low_digits_read_back(n: nat, k: nat)
    requires
        n < power_of_ten(k),
    ensures
        low_digits(n, k).len() == k,
        digits_value(low_digits(n, k)) == n,
    decreases k,
{
    if k > 0 {
        lemma_low_digits_read_back(n / 10, (k - 1) as nat);
        let s = low_digits(n, k);
        assert(s.drop_last() =~= low_digits(n / 10, (k - 1) as nat));
        assert(s.last() == digit_char(n % 10));
    }
}

/// A quotient is rounded down where less than half is left and up where more is; exactly half
/// goes to the even number. What divides evenly is not changed.
pub proof fn lemma_halves_go_to_the_even(n: nat, d: nat)
    requires
        d > 0,
    ensures
        2 * (n % d) < d ==> nearest(n, d) == n / d,
        2 * (n % d) > d ==> nearest(n, d) == n / d + 1,
        2 * (n % d) == d ==> nearest(n, d) % 2 == 0,
        n % d == 0 ==> nearest(n, d) == n / d,
{
}

/// A number is shown at the right end of its field, with spaces before it and nothing behind.
pub proof fn lemma_numbers_stand_at_the_right(v: int, f: Field)
    ensures
        ({
            let s = shown(v, f);
            let body = fixed(v, f.digits as nat, f.plus);
            &&& s.len() == (if body.len() < f.width {
                f.width as nat
            } else {
                body.len()
            })
            &&& s.skip(s.len() - body.len()) == body
            &&& forall|i: int| 0 <= i < s.len() - body.len() ==> #[trigger] s[i] == ' '
        }),
{
    let s = shown(v, f);
    let body = fixed(v, f.digits as nat, f.plus);
    assert(s.skip(s.len() - body.len()) =~= body);
}

/// A negative number begins with a minus, any other with a plus exactly if that is asked for,
/// and behind the sign a number and its negative read the same.
pub proof fn lemma_signs_are_shown(v: int, digits: nat)
    ensures
        v < 0 ==> fixed(v, digits, true) == fixed(v, digits, false),
        v < 0 ==> fixed(v, digits, false) == seq!['-'] + fixed(-v, digits, false),
        v >= 0 ==> fixed(v, digits, true) == seq!['+'] + fixed(v, digits, false),
{
    if v < 0 {
        assert(fixed(v, digits, false) =~= seq!['-'] + fixed(-v, digits, false));
    } else {
        assert(fixed(v, digits, true) =~= seq!['+'] + fixed(v, digits, false));
    }
}

/// What is shown reads back as the number, in units of the last digit and rounded: the digits
/// before the point and those behind it spell out the nearest count of such units.
pub proof fn lemma_digits_spell_the_number(v: int, digits: nat)
    requires
        0 <= v,
        1 <= digits <= 6,
    ensures
        ({
            let s = fixed(v, digits, false);
            let p = s.len() - digits - 1;
            let unit = power_of_ten((6 - digits) as nat) as int;
            let units = digits_value(s.take(p)) * power_of_ten(digits) + digits_value(
                s.skip(p + 1),
            );
            &&& 0 < p
            &&& s[p] == '.'
            &&& 2 * (units * unit) <= 2 * v + unit
            &&& 2 * v <= 2 * (units * unit) + unit
        }),
{
    let unit = power_of_ten(digits);
    let step = power_of_ten((6 - digits) as nat);
    lemma_powers_are_positive(digits);
    lemma_powers_are_positive((6 - digits) as nat);
    let q = nearest(v as nat, step);
    lemma_nearest_is_near(v as nat, step);
    let s = fixed(v, digits, false);
    vstd::arithmetic::div_mod::lemma_fundamental_div_mod(q as int, unit as int);
    vstd::arithmetic::div_mod::lemma_mod_bound(q as int, unit as int);
    lemma_low_digits_read_back(q % unit, digits);
    crate::text::lemma_decimal_reads_back(q / unit);
    let head = decimal(q / unit);
    let p = s.len() - digits - 1;
    assert(s =~= head + (seq!['.'] + low_digits(q % unit, digits)));
    assert(s.take(p) =~= head);
    assert(s.skip(p + 1) =~= low_digits(q % unit, digits));
    assert((q / unit) * unit == unit * (q / unit)) by (nonlinear_arith);
    assert(s[p] == '.');
}

/// A power of ten is not zero.
proof fn lemma_powers_are_positive(k: nat)
    ensures
        power_of_ten(k) > 0,
    decreases k,
{
    if k > 0 {
        lemma_powers_are_positive((k - 1) as nat);
    }
}

} // verus!
