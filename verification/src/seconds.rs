//! Numbers of seconds as a playlist writes them: any text that names a
//! double-precision number, and what that number is in thousandths.
//!
//! Thousandths are what a playlist is written in, so nothing that is written
//! tells such a number from the one it was read as.

use crate::double;
use crate::text;
use vstd::arithmetic::div_mod::*;
use vstd::arithmetic::power2::*;
use vstd::prelude::*;
use vstd::slice::*;
use vstd::string::*;

verus! {

/// A number of seconds, in thousandths. As in double precision there is a
/// negative zero, something without end in either direction, and something that
/// is no number. One with more thousandths than can be counted has as many as
/// can.
#[derive(Debug, Clone, Copy, PartialEq, Eq, Structural)]
pub enum Seconds {
    Finite { negative: bool, thousandths: u64 },
    Infinite { negative: bool },
    NoNumber,
}

// ── What a text writes ───────────────────────────────────────────────

/// Ten to the power `n`.
pub open spec fn ten(n: nat) -> nat
    decreases n,
{
    if n == 0 {
        1
    } else {
        10 * ten((n - 1) as nat)
    }
}

/// A number without its sign.
pub enum Magnitude {
    /// The digits as one whole number, times ten to the power of `exponent`.
    Finite { digits: nat, exponent: int },
    Infinite,
    NoNumber,
}

/// A text without the sign at its front.
pub open spec fn unsigned(s: Seq<char>) -> Seq<char> {
    if s.len() > 0 && (s[0] == '+' || s[0] == '-') {
        s.drop_first()
    } else {
        s
    }
}

pub open spec fn negative(s: Seq<char>) -> bool {
    s.len() > 0 && s[0] == '-'
}

/// What stands behind the letter of an exponent: digits, with or without a
/// sign.
pub open spec fn exponent(s: Seq<char>) -> Option<int> {
    let digits = unsigned(s);
    if digits.len() == 0 || !text::all_digits(digits) {
        None
    } else if negative(s) {
        Some(-text::digits_value(digits))
    } else {
        Some(text::digits_value(digits) as int)
    }
}

/// What a number in small letters and without a sign is: digits with a point
/// before, among or behind them and an exponent, each where it has one, or one
/// of the words for what digits cannot write.
pub open spec fn magnitude(s: Seq<char>) -> Option<Magnitude> {
    let plain = text::head(s, 'e');
    let whole = text::head(plain, '.');
    let fraction = text::tail(plain, '.');
    let power = if plain.len() < s.len() {
        exponent(text::tail(s, 'e'))
    } else {
        Some(0)
    };
    if s == "inf"@ || s == "infinity"@ {
        Some(Magnitude::Infinite)
    } else if s == "nan"@ {
        Some(Magnitude::NoNumber)
    } else if (whole + fraction).len() > 0 && text::all_digits(whole + fraction) && power is Some {
        Some(
            Magnitude::Finite {
                digits: text::digits_value(whole + fraction),
                exponent: power->0 - fraction.len(),
            },
        )
    } else {
        None
    }
}

/// `digits` times ten to the power of `exponent`, as a fraction: above the line,
/// and below it.
pub open spec fn numerator(digits: nat, exponent: int) -> nat {
    if exponent > 0 {
        digits * ten(exponent as nat)
    } else {
        digits
    }
}

pub open spec fn denominator(exponent: int) -> nat {
    if exponent < 0 {
        ten((-exponent) as nat)
    } else {
        1
    }
}

/// The thousandths in the double-precision number nearest to `a` over `b`, to
/// the nearest one, a tie going to the even one both times.
pub open spec fn thousandths(a: nat, b: nat) -> nat {
    if a >= 0x20_0000_0000_0000 * b {
        let gap = double::gap(a / b);
        1000 * (double::nearest(a, b * gap) * gap)
    } else {
        let fine = double::fineness(a, b);
        double::nearest(1000 * double::nearest(a * fine, b), fine)
    }
}

pub open spec fn capped(n: nat) -> u64 {
    if n < u64::MAX {
        n as u64
    } else {
        u64::MAX
    }
}

/// The least number that is nearest to none of the finite numbers of double
/// precision.
pub open spec fn beyond() -> nat {
    0x3F_FFFF_FFFF_FFFF * pow2(970)
}

/// The number of seconds that a text writes; `None` where it writes none.
pub open spec fn reading(s: Seq<char>) -> Option<Seconds> {
    let small = text::lower_text(s);
    match magnitude(unsigned(small)) {
        None => None,
        Some(Magnitude::Finite { digits, exponent }) => {
            let a = numerator(digits, exponent);
            let b = denominator(exponent);
            if a >= beyond() * b {
                Some(Seconds::Infinite { negative: negative(small) })
            } else {
                Some(
                    Seconds::Finite {
                        negative: negative(small),
                        thousandths: capped(thousandths(a, b)),
                    },
                )
            }
        },
        Some(Magnitude::Infinite) => Some(Seconds::Infinite { negative: negative(small) }),
        Some(Magnitude::NoNumber) => Some(Seconds::NoNumber),
    }
}

/// A number of seconds, with three places.
pub open spec fn written(seconds: Seconds) -> Seq<char> {
    match seconds {
        Seconds::Finite { negative, thousandths } => if negative {
            "-"@ + text::thousandths(thousandths as nat)
        } else {
            text::thousandths(thousandths as nat)
        },
        Seconds::Infinite { negative } => if negative {
            "-inf"@
        } else {
            "inf"@
        },
        Seconds::NoNumber => "NaN"@,
    }
}

/// Write a number of seconds behind what is there.
pub fn push(out: &mut String, seconds: Seconds)
    ensures
        final(out)@ == old(out)@ + written(seconds),
{
    match seconds {
        Seconds::Finite { negative, thousandths } => {
            if negative {
                out.append("-");
            }
            text::push_thousandths(out, thousandths);
        },
        Seconds::Infinite { negative } => {
            if negative {
                out.append("-inf");
            } else {
                out.append("inf");
            }
        },
        Seconds::NoNumber => {
            out.append("NaN");
        },
    }
    assert(out@ =~= old(out)@ + written(seconds));
}

// ── Digits ───────────────────────────────────────────────────────────

proof fn lemma_ten(n: nat)
    ensures
        ten(n) > 0,
        n > 0 ==> ten(n) == 10 * ten((n - 1) as nat),
    decreases n,
{
    if n > 0 {
        lemma_ten((n - 1) as nat);
    }
}

proof fn lemma_ten_adds(m: nat, n: nat)
    ensures
        ten(m + n) == ten(m) * ten(n),
    decreases n,
{
    if n > 0 {
        let less = (n - 1) as nat;
        lemma_ten_adds(m, less);
        assert(ten(m + n) == 10 * ten(m + less));
        let x = ten(m) as int;
        let y = ten(less) as int;
        assert(10 * (x * y) == x * (10 * y)) by (nonlinear_arith);
    } else {
        let x = ten(m) as int;
        assert(x * 1 == x) by (nonlinear_arith);
    }
}

proof fn lemma_ten_grows(m: nat, n: nat)
    requires
        m <= n,
    ensures
        ten(m) <= ten(n),
    decreases n,
{
    lemma_ten(n);
    if m < n {
        lemma_ten_grows(m, (n - 1) as nat);
    }
}

/// The value of two rows of digits, one behind the other.
pub proof fn lemma_digits_append(s: Seq<char>, t: Seq<char>)
    ensures
        text::digits_value(s + t) == text::digits_value(s) * ten(t.len()) + text::digits_value(t),
    decreases t.len(),
{
    let x = text::digits_value(s) as int;
    if t.len() == 0 {
        assert(s + t =~= s);
        assert(x * 1 == x) by (nonlinear_arith);
    } else {
        lemma_digits_append(s, t.drop_last());
        assert((s + t).drop_last() =~= s + t.drop_last());
        assert((s + t).last() == t.last());
        let p = ten((t.len() - 1) as nat) as int;
        assert((x * p) * 10 == x * (10 * p)) by (nonlinear_arith);
    }
}

proof fn lemma_digits_fit(s: Seq<char>)
    requires
        text::all_digits(s),
    ensures
        text::digits_value(s) < ten(s.len()),
    decreases s.len(),
{
    if s.len() > 0 {
        let t = s.drop_last();
        assert(text::is_digit(s[s.len() - 1]));
        assert forall|k: int| 0 <= k < t.len() implies text::is_digit(#[trigger] t[k]) by {
            assert(text::is_digit(s[k]));
        }
        lemma_digits_fit(t);
    }
}

/// A row of digits with another than a zero at its front.
proof fn lemma_digits_lead(s: Seq<char>)
    requires
        text::all_digits(s),
        s.len() > 0,
        s[0] as u32 != 48,
    ensures
        text::digits_value(s) >= ten((s.len() - 1) as nat),
    decreases s.len(),
{
    let t = s.drop_last();
    assert(text::is_digit(s[s.len() - 1]));
    assert(text::is_digit(s[0]));
    if t.len() > 0 {
        assert forall|k: int| 0 <= k < t.len() implies text::is_digit(#[trigger] t[k]) by {
            assert(text::is_digit(s[k]));
        }
        lemma_digits_lead(t);
    } else {
        assert(text::digits_value(t) == 0);
        assert(s[0] as u32 > 48);
    }
}

/// A row of `n` zeros.
pub open spec fn zeros(n: nat) -> Seq<char> {
    Seq::new(n, |i: int| '0')
}

proof fn lemma_zeros(n: nat)
    ensures
        text::all_digits(zeros(n)),
        text::digits_value(zeros(n)) == 0,
    decreases n,
{
    if n > 0 {
        lemma_zeros((n - 1) as nat);
        assert(zeros(n).drop_last() =~= zeros((n - 1) as nat));
    }
}

proof fn lemma_all_digits_append(s: Seq<char>, t: Seq<char>)
    requires
        text::all_digits(s),
        text::all_digits(t),
    ensures
        text::all_digits(s + t),
{
    assert forall|k: int| 0 <= k < (s + t).len() implies text::is_digit(#[trigger] (s + t)[k]) by {
        if k < s.len() {
            assert(text::is_digit(s[k]));
        } else {
            assert(text::is_digit(t[k - s.len()]));
        }
    }
}

fn digits_only(s: &[char]) -> (r: bool)
    ensures
        r == text::all_digits(s@),
{
    let mut i: usize = 0;
    while i < s.len()
        invariant
            i <= s@.len(),
            forall|k: int| 0 <= k < i ==> text::is_digit(#[trigger] s@[k]),
        decreases s.len() - i,
    {
        if !text::digit(s[i]) {
            assert(!text::is_digit(s@[i as int]));
            return false;
        }
        i += 1;
    }
    true
}

/// Whether a row of digits is zeros alone.
fn all_zeros(s: &[char]) -> (r: bool)
    requires
        text::all_digits(s@),
    ensures
        r == (text::digits_value(s@) == 0),
{
    let mut i: usize = 0;
    while i < s.len()
        invariant
            i <= s@.len(),
            text::all_digits(s@),
            text::digits_value(s@.take(i as int)) == 0,
        decreases s.len() - i,
    {
        assert(s@.take(i + 1).drop_last() =~= s@.take(i as int));
        assert(text::is_digit(s@[i as int]));
        if s[i] as u32 != 48 {
            proof {
                text::lemma_digits_grow(s@, i + 1);
                assert(text::digits_value(s@.take(i + 1)) > 0);
            }
            return false;
        }
        i += 1;
    }
    assert(s@.take(i as int) =~= s@);
    true
}

/// The value of a row of no more than thirty digits.
fn value_of(s: &[char]) -> (r: u128)
    requires
        text::all_digits(s@),
        s@.len() <= 30,
    ensures
        r == text::digits_value(s@),
{
    let mut value: u128 = 0;
    let mut i: usize = 0;
    assert(ten(30) == 1_000_000_000_000_000_000_000_000_000_000) by {
        reveal_with_fuel(ten, 31);
    }
    while i < s.len()
        invariant
            i <= s@.len() <= 30,
            ten(30) == 1_000_000_000_000_000_000_000_000_000_000,
            text::all_digits(s@),
            value == text::digits_value(s@.take(i as int)),
        decreases s.len() - i,
    {
        assert(text::is_digit(s@[i as int]));
        proof {
            let t = s@.take(i as int);
            assert forall|k: int| 0 <= k < t.len() implies text::is_digit(#[trigger] t[k]) by {
                assert(text::is_digit(s@[k]));
            }
            lemma_digits_fit(t);
            lemma_ten_grows(i as nat, 30);
            assert(s@.take(i + 1).drop_last() =~= t);
        }
        value = value * 10 + (s[i] as u32 - 48) as u128;
        i += 1;
    }
    assert(s@.take(i as int) =~= s@);
    value
}

/// A row of digits between two rows of zeros.
fn padded(before: usize, s: &[char], after: usize) -> (r: Vec<char>)
    ensures
        r@ == zeros(before as nat) + s@ + zeros(after as nat),
{
    let mut out: Vec<char> = Vec::new();
    let mut i: usize = 0;
    while i < before
        invariant
            i <= before,
            out@ =~= zeros(i as nat),
        decreases before - i,
    {
        out.push('0');
        i += 1;
    }
    let mut j: usize = 0;
    while j < s.len()
        invariant
            j <= s@.len(),
            out@ =~= zeros(before as nat) + s@.take(j as int),
        decreases s.len() - j,
    {
        out.push(s[j]);
        j += 1;
    }
    let mut k: usize = 0;
    while k < after
        invariant
            k <= after,
            out@ =~= zeros(before as nat) + s@ + zeros(k as nat),
        decreases after - k,
    {
        out.push('0');
        k += 1;
    }
    out
}

/// Double the number that a row of digits writes, in place: what does not fit
/// any more comes back.
fn double_in_place(s: &mut Vec<char>) -> (r: u128)
    requires
        text::all_digits(old(s)@),
    ensures
        text::all_digits(final(s)@),
        final(s)@.len() == old(s)@.len(),
        r <= 1,
        2 * text::digits_value(old(s)@) == r * ten(old(s)@.len()) + text::digits_value(final(s)@),
{
    let ghost before = s@;
    let n: usize = s.len();
    let mut carry: u32 = 0;
    let mut i: usize = n;
    assert(before.skip(n as int) =~= Seq::<char>::empty());
    while i > 0
        invariant
            i <= n,
            n == before.len() == s@.len(),
            carry <= 1,
            text::all_digits(before),
            text::all_digits(s@),
            forall|k: int| 0 <= k < i ==> s@[k] == before[k],
            2 * text::digits_value(before.skip(i as int)) == carry * ten((n - i) as nat)
                + text::digits_value(s@.skip(i as int)),
        decreases i,
    {
        let ghost held = s@;
        let ghost carried = carry as int;
        i -= 1;
        assert(text::is_digit(s@[i as int]));
        let sum: u32 = 2 * (s[i] as u32 - 48) + carry;
        let digit: u32 = if sum >= 10 {
            sum - 10
        } else {
            sum
        };
        carry = if sum >= 10 {
            1
        } else {
            0
        };
        let c: char = (48 + digit) as u8 as char;
        s.set(i, c);
        proof {
            let d = (before[i as int] as u32 - 48) as int;
            let rest = held.skip(i + 1);
            assert(s@.skip(i as int) =~= seq![c] + rest);
            assert(before.skip(i as int) =~= seq![before[i as int]] + before.skip(i + 1));
            lemma_digits_append(seq![c], rest);
            lemma_digits_append(seq![before[i as int]], before.skip(i + 1));
            assert(seq![c].drop_last() =~= Seq::<char>::empty());
            assert(seq![before[i as int]].drop_last() =~= Seq::<char>::empty());
            reveal_with_fuel(text::digits_value, 2);
            assert(text::digits_value(seq![c]) == digit);
            assert(text::digits_value(seq![before[i as int]]) == d);
            let p = ten((n - i - 1) as nat) as int;
            lemma_ten((n - i) as nat);
            assert(2 * (d * p) + carried * p == (2 * d + carried) * p) by (nonlinear_arith);
            assert((carry * 10 + digit) * p == carry * (10 * p) + digit * p) by (nonlinear_arith);
            assert(text::is_digit(c));
            assert forall|k: int| 0 <= k < s@.len() implies text::is_digit(#[trigger] s@[k]) by {
                assert(text::is_digit(held[k]));
            }
        }
    }
    assert(before.skip(0) =~= before);
    assert(s@.skip(0) =~= s@);
    carry as u128
}

// ── Thousandths ──────────────────────────────────────────────────────

/// What is long enough is longer than any duration there is.
proof fn lemma_long(a: nat, b: nat)
    requires
        b > 0,
        a >= 0x80_0000_0000_0000 * b,
    ensures
        capped(thousandths(a, b)) == u64::MAX,
{
    let w = a / b;
    let g = double::gap(w);
    lemma_quotient(a, b, 0x80_0000_0000_0000);
    double::lemma_gap(w);
    assert(g >= 8) by {
        reveal_with_fuel(double::gap, 4);
        double::lemma_gap(w / 8);
    }
    lemma_wide(a, b, g);
    double::lemma_nearest(a, b * g);
    let k = double::nearest(a, b * g) as int;
    let e = g as int;
    assert(k * e >= 0x80_0000_0000_0000) by (nonlinear_arith)
        requires
            k >= 0x10_0000_0000_0000,
            e >= 8,
    ;
}

/// A quotient is no less than what its numerator holds the denominator times.
proof fn lemma_quotient(a: nat, b: nat, least: nat)
    requires
        b > 0,
        a >= least * b,
    ensures
        a / b >= least,
{
    lemma_div_is_ordered(least as int * b as int, a as int, b as int);
    lemma_div_multiples_vanish(least as int, b as int);
    let x = least as int;
    let y = b as int;
    assert(x * y == y * x) by (nonlinear_arith);
}

/// A large quotient in units of its gap has 53 binary digits at least.
proof fn lemma_wide(a: nat, b: nat, g: nat)
    requires
        b > 0,
        g > 0,
        g * 0x10_0000_0000_0000 <= a / b,
    ensures
        b * g > 0,
        a / (b * g) >= 0x10_0000_0000_0000,
        a / (b * g) == (a / b) / g,
{
    let x = b as int;
    let y = g as int;
    assert(x * y > 0) by (nonlinear_arith)
        requires
            x > 0,
            y > 0,
    ;
    lemma_div_denominator(a as int, x, y);
    lemma_quotient(a / b, g, 0x10_0000_0000_0000);
}

/// What is short enough is nothing.
proof fn lemma_short(a: nat, b: nat)
    requires
        10_000 * a < b,
    ensures
        thousandths(a, b) == 0,
{
    let fine = double::fineness(a, b);
    if a == 0 {
        lemma_zero(b);
    } else {
        double::lemma_fineness(a, b);
        let n = double::nearest(a * fine, b);
        double::lemma_nearest(a * fine, b);
        let (x, y, f, k) = (a as int, b as int, fine as int, n as int);
        assert(k <= 0x20_0000_0000_0000) by (nonlinear_arith)
            requires
                2 * (k * y) <= 2 * (x * f) + y,
                x * f < 0x20_0000_0000_0000 * y,
                y > 0,
        ;
        assert(f > 10_000 * 0x10_0000_0000_0000) by (nonlinear_arith)
            requires
                0x10_0000_0000_0000 * y <= x * f,
                10_000 * x < y,
                x > 0,
                f > 0,
        ;
        double::lemma_nearest_is(1000 * n, fine, 0);
    }
}

/// The thousandths in a number of seconds that is given as a whole number and
/// the digits behind the point.
fn rounded(whole: u128, digits: Vec<char>) -> (r: u64)
    requires
        text::all_digits(digits@),
        ten(digits@.len()) <= 10_000 * (whole * ten(digits@.len()) + text::digits_value(digits@)),
    ensures
        r == capped(
            thousandths(
                whole as nat * ten(digits@.len()) + text::digits_value(digits@),
                ten(digits@.len()),
            ),
        ),
{
    let ghost b = ten(digits@.len());
    let ghost f = text::digits_value(digits@);
    let ghost a = whole as nat * b + f;
    proof {
        lemma_ten(digits@.len());
        lemma_digits_fit(digits@);
        let (x, y) = (whole as int, b as int);
        lemma_fundamental_div_mod_converse(a as int, y, x, f as int);
        assert(x >= 0x80_0000_0000_0000 ==> x * y >= 0x80_0000_0000_0000 * y) by (nonlinear_arith)
            requires
                y > 0,
        ;
        assert(x >= 0x20_0000_0000_0000 ==> x * y >= 0x20_0000_0000_0000 * y) by (nonlinear_arith)
            requires
                y > 0,
        ;
        assert(x < 0x20_0000_0000_0000 ==> x * y + y <= 0x20_0000_0000_0000 * y)
            by (nonlinear_arith)
            requires
                y > 0,
        ;
    }
    if whole >= 0x80_0000_0000_0000 {
        proof {
            lemma_long(a, b);
        }
        return 0xFFFF_FFFF_FFFF_FFFF;
    }
    if whole >= 0x20_0000_0000_0000 {
        return rounded_whole(whole as u64, &digits);
    }
    rounded_fine(whole, digits)
}

/// [`rounded`], where no fraction is left of the number.
fn rounded_whole(whole: u64, digits: &Vec<char>) -> (r: u64)
    requires
        text::all_digits(digits@),
        0x20_0000_0000_0000 <= whole < 0x80_0000_0000_0000,
    ensures
        r == capped(
            thousandths(
                whole as nat * ten(digits@.len()) + text::digits_value(digits@),
                ten(digits@.len()),
            ),
        ),
{
    let g: u128 = double::gap_of(whole);
    let q: u128 = whole as u128 / g;
    let r: u128 = whole as u128 % g;
    let none: bool = all_zeros(digits.as_slice());
    let near: u128 = if 2 * r < g || (2 * r == g && none && q % 2 == 0) {
        q
    } else {
        q + 1
    };
    proof {
        let b = ten(digits@.len());
        let f = text::digits_value(digits@);
        let a = whole as nat * b + f;
        lemma_ten(digits@.len());
        lemma_digits_fit(digits@);
        let (w, y, e, k, s) = (whole as int, b as int, g as int, q as int, r as int);
        lemma_fundamental_div_mod_converse(a as int, y, w, f as int);
        assert(w * y >= 0x20_0000_0000_0000 * y) by (nonlinear_arith)
            requires
                y > 0,
                w >= 0x20_0000_0000_0000,
        ;
        assert(g == 2 || g == 4) by {
            reveal_with_fuel(double::gap, 4);
        }
        lemma_fundamental_div_mod(w, e);
        assert(e * k == k * e) by (nonlinear_arith);
        assert(y * e > 0 && s * y + f < y * e && a == k * (y * e) + (s * y + f)) by (nonlinear_arith)
            requires
                y > 0,
                e > 0,
                f < y,
                s <= e - 1,
                w == k * e + s,
                a == w * y + f,
        ;
        lemma_fundamental_div_mod_converse(a as int, y * e, k, s * y + f);
        assert(y * e == (if e == 2 {
            2 * y
        } else {
            4 * y
        })) by (nonlinear_arith)
            requires
                e == 2 || e == 4,
        ;
        assert(s * y == (if s == 0 {
            0
        } else if s == 1 {
            y
        } else if s == 2 {
            2 * y
        } else {
            3 * y
        })) by (nonlinear_arith)
            requires
                0 <= s < 4,
        ;
        assert(near == double::nearest(a, b * g as nat));
        let m = near as int;
        assert(m * e <= w + e && m * e >= 0) by (nonlinear_arith)
            requires
                0 <= m <= k + 1,
                e * k <= w,
                e > 0,
        ;
    }
    let all: u128 = 1000 * (near * g);
    if all < 0xFFFF_FFFF_FFFF_FFFF {
        all as u64
    } else {
        0xFFFF_FFFF_FFFF_FFFF
    }
}

/// [`rounded`], where the number is small enough to keep a fraction: its binary
/// digits come one by one, as the decimal ones are doubled.
fn rounded_fine(whole: u128, digits: Vec<char>) -> (r: u64)
    requires
        text::all_digits(digits@),
        whole < 0x20_0000_0000_0000,
        ten(digits@.len()) <= 10_000 * (whole * ten(digits@.len()) + text::digits_value(digits@)),
    ensures
        r == capped(
            thousandths(
                whole as nat * ten(digits@.len()) + text::digits_value(digits@),
                ten(digits@.len()),
            ),
        ),
{
    let ghost n = digits@.len();
    let ghost b = ten(n);
    let ghost a = whole as nat * b + text::digits_value(digits@);
    let mut rest = digits;
    let mut k: u128 = whole;
    let mut fine: u128 = 1;
    proof {
        lemma_ten(n);
        lemma_digits_fit(rest@);
        let y = b as int;
        let w = whole as int;
        let f = double::fineness(a, b) as int;
        assert(w * y + y <= 0x20_0000_0000_0000 * y) by (nonlinear_arith)
            requires
                y > 0,
                w < 0x20_0000_0000_0000,
        ;
        assert(a * 1 == a && 1 * f == f) by (nonlinear_arith);
        assert(a < 0x20_0000_0000_0000 * b);
    }
    while k < 0x10_0000_0000_0000
        invariant
            text::all_digits(rest@),
            rest@.len() == n,
            b == ten(n),
            b > 0,
            b <= 10_000 * a,
            k < 0x20_0000_0000_0000,
            0 < fine < 10_000 * 0x20_0000_0000_0000,
            a * fine == k * b + text::digits_value(rest@),
            fine * double::fineness(a * fine as nat, b) == double::fineness(a, b),
        decreases 10_000 * 0x20_0000_0000_0000 - fine,
    {
        let ghost held = text::digits_value(rest@) as int;
        let ghost old_k = k as int;
        let ghost old_fine = fine as int;
        proof {
            lemma_digits_fit(rest@);
        }
        let carry: u128 = double_in_place(&mut rest);
        k = 2 * k + carry;
        fine = 2 * fine;
        proof {
            lemma_digits_fit(rest@);
            let (x, y, c) = (a as int, b as int, carry as int);
            let left = text::digits_value(rest@) as int;
            assert(x * (2 * old_fine) == 2 * (x * old_fine)) by (nonlinear_arith);
            assert(2 * (old_k * y + held) == (2 * old_k + c) * y + left) by (nonlinear_arith)
                requires
                    2 * held == c * y + left,
            ;
            assert(x * old_fine < 0x10_0000_0000_0000 * y) by (nonlinear_arith)
                requires
                    x * old_fine == old_k * y + held,
                    held < y,
                    old_k <= 0xF_FFFF_FFFF_FFFF,
                    y > 0,
            ;
            assert(x * old_fine > 0) by (nonlinear_arith)
                requires
                    x > 0,
                    old_fine > 0,
            ;
            assert(2 * old_fine < 10_000 * 0x20_0000_0000_0000) by (nonlinear_arith)
                requires
                    x * old_fine < 0x10_0000_0000_0000 * y,
                    y <= 10_000 * x,
                    old_fine > 0,
                    x > 0,
            ;
            let more = double::fineness((2 * (x * old_fine)) as nat, b) as int;
            assert(old_fine * (2 * more) == (2 * old_fine) * more) by (nonlinear_arith);
            assert((2 * (a * old_fine as nat)) == a * fine as nat);
        }
    }
    let ghost left = text::digits_value(rest@) as int;
    proof {
        lemma_digits_fit(rest@);
        let (x, y) = (a as int, b as int);
        assert(k * y >= 0x10_0000_0000_0000 * y) by (nonlinear_arith)
            requires
                k >= 0x10_0000_0000_0000,
                y > 0,
        ;
        let more = double::fineness(a * fine as nat, b) as int;
        assert(fine * more == fine) by (nonlinear_arith)
            requires
                more == 1,
        ;
        assert(double::fineness(a, b) == fine);
        lemma_fundamental_div_mod_converse((a * fine) as int, y, k as int, left);
    }
    let carry: u128 = double_in_place(&mut rest);
    let none: bool = all_zeros(rest.as_slice());
    let near: u128 = if carry == 0 || (none && k % 2 == 0) {
        k
    } else {
        k + 1
    };
    proof {
        lemma_digits_fit(rest@);
        let y = b as int;
        let c = carry as int;
        if carry == 0 {
            assert(c * y == 0);
        } else {
            assert(c * y == y);
        }
        assert(near == double::nearest(a * fine as nat, b));
        double::lemma_nearest(1000 * near as nat, fine as nat);
    }
    let all: u128 = double::nearest_of(1000 * near, fine);
    all as u64
}

// ── Reading ──────────────────────────────────────────────────────────

/// An exponent so large that it does not matter how large it is.
const FAR: i128 = 1_000_000_000_000_000_000_000_000_000_000;

/// Whether `r` is `x`, or both lie far out on the same side.
spec fn stands_for(r: i128, x: int) -> bool {
    r == x || (r >= FAR && x >= FAR) || (r <= -FAR && x <= -FAR)
}

/// The value of a row of digits, as far as it matters.
fn far_value(s: &[char]) -> (r: i128)
    requires
        text::all_digits(s@),
    ensures
        stands_for(r, text::digits_value(s@) as int),
        0 <= r < 10 * FAR + 10,
{
    let mut value: i128 = 0;
    let mut i: usize = 0;
    while i < s.len()
        invariant
            i <= s@.len(),
            text::all_digits(s@),
            0 <= value < 10 * FAR + 10,
            value <= text::digits_value(s@.take(i as int)),
            value == text::digits_value(s@.take(i as int)) || value >= FAR,
        decreases s.len() - i,
    {
        assert(text::is_digit(s@[i as int]));
        assert(s@.take(i + 1).drop_last() =~= s@.take(i as int));
        if value < FAR {
            value = value * 10 + (s[i] as u32 - 48) as i128;
        }
        i += 1;
    }
    assert(s@.take(i as int) =~= s@);
    value
}

fn without_sign<'a>(s: &'a [char]) -> (r: &'a [char])
    ensures
        r@ == unsigned(s@),
{
    let n: usize = s.len();
    let r = if n > 0 && (s[0] == '+' || s[0] == '-') {
        slice_subrange(s, 1, n)
    } else {
        slice_subrange(s, 0, n)
    };
    assert(r@ =~= unsigned(s@));
    r
}

fn is_negative(s: &[char]) -> (r: bool)
    ensures
        r == negative(s@),
{
    s.len() > 0 && s[0] == '-'
}

fn power_of(s: &[char]) -> (r: Option<i128>)
    ensures
        r is Some <==> exponent(s@) is Some,
        r matches Some(e) ==> stands_for(e, exponent(s@)->0) && -10 * FAR - 10 < e < 10 * FAR + 10,
{
    let digits = without_sign(s);
    if digits.len() == 0 || !digits_only(digits) {
        return None;
    }
    let value: i128 = far_value(digits);
    if is_negative(s) {
        Some(-value)
    } else {
        Some(value)
    }
}

/// A row of digits without the zeros at its front.
fn significant<'a>(digits: &'a [char]) -> (r: &'a [char])
    requires
        text::all_digits(digits@),
    ensures
        text::all_digits(r@),
        text::digits_value(r@) == text::digits_value(digits@),
        r@.len() > 0 ==> r@[0] as u32 != 48,
{
    let n: usize = digits.len();
    let mut z: usize = 0;
    while z < n && digits[z] as u32 == 48
        invariant
            z <= n,
            n == digits@.len(),
            text::digits_value(digits@.take(z as int)) == 0,
        decreases n - z,
    {
        assert(digits@.take(z + 1).drop_last() =~= digits@.take(z as int));
        z += 1;
    }
    let d = slice_subrange(digits, z, n);
    proof {
        assert(digits@ =~= digits@.take(z as int) + d@);
        lemma_digits_append(digits@.take(z as int), d@);
        let p = ten(d@.len()) as int;
        assert(0 * p == 0) by (nonlinear_arith);
        assert forall|k: int| 0 <= k < d@.len() implies text::is_digit(#[trigger] d@[k]) by {
            assert(text::is_digit(digits@[z + k]));
        }
    }
    d
}

/// The thousandths in a row of digits, of which the last `places` stand behind
/// the point, times ten to the power of `x`, which `power` stands for.
#[verifier::spinoff_prover]
#[verifier::rlimit(40)]
fn scaled(digits: &[char], places: usize, power: i128, Ghost(x): Ghost<int>) -> (r: u64)
    requires
        text::all_digits(digits@),
        digits@.len() > 0 ==> digits@[0] as u32 != 48,
        stands_for(power, x),
        -10 * FAR - 10 < power < 10 * FAR + 10,
    ensures
        r == capped(
            thousandths(
                numerator(text::digits_value(digits@), x - places),
                denominator(x - places),
            ),
        ),
{
    let ghost value = text::digits_value(digits@);
    let ghost e = x - places;
    let d = digits;
    let len: usize = d.len();
    proof {
        lemma_ten((if e > 0 {
            e
        } else {
            -e
        }) as nat);
    }
    if len == 0 {
        proof {
            let p = ten(e as nat) as int;
            assert(0 * p == 0) by (nonlinear_arith);
            lemma_short(0, denominator(e));
        }
        return 0;
    }
    proof {
        lemma_digits_lead(d@);
        lemma_digits_fit(d@);
    }
    let point: i128 = len as i128 - places as i128 + power;
    if point > 20 {
        proof {
            lemma_above(value, len as nat, e, 20);
            assert(ten(20) == 100_000_000_000_000_000_000) by {
                reveal_with_fuel(ten, 21);
            }
            lemma_long(numerator(value, e), denominator(e));
        }
        return 0xFFFF_FFFF_FFFF_FFFF;
    }
    if point < -3 {
        proof {
            lemma_near(value, len as nat, e);
            lemma_short(numerator(value, e), denominator(e));
        }
        return 0;
    }
    assert(power == x);
    let before: usize = if point < 0 {
        (-point) as usize
    } else {
        0
    };
    let wholes: usize = if point > 0 {
        point as usize
    } else {
        0
    };
    let after: usize = if wholes > len {
        wholes - len
    } else {
        0
    };
    let all = padded(before, d, after);
    proof {
        let first = zeros(before as nat) + d@;
        lemma_zeros(before as nat);
        lemma_zeros(after as nat);
        lemma_digits_append(zeros(before as nat), d@);
        lemma_digits_append(first, zeros(after as nat));
        lemma_all_digits_append(zeros(before as nat), d@);
        lemma_all_digits_append(first, zeros(after as nat));
        let p = ten(d@.len()) as int;
        assert(0 * p == 0) by (nonlinear_arith);
        let v = value as int;
        assert(v * 1 == v) by (nonlinear_arith);
        assert(text::digits_value(all@) == value * ten(after as nat));
        assert(numerator(value, e) == text::digits_value(all@));
    }
    let m: usize = all.len();
    let front = slice_subrange(all.as_slice(), 0, wholes);
    let rest = padded(0, slice_subrange(all.as_slice(), wholes, m), 0);
    proof {
        assert(rest@ =~= all@.skip(wholes as int));
        assert(all@ =~= front@ + rest@);
        lemma_digits_append(front@, rest@);
        assert forall|k: int| 0 <= k < front@.len() implies text::is_digit(#[trigger] front@[k]) by {
            assert(text::is_digit(all@[k]));
        }
        assert forall|k: int| 0 <= k < rest@.len() implies text::is_digit(#[trigger] rest@[k]) by {
            assert(text::is_digit(all@[wholes + k]));
        }
        assert(denominator(e) == ten(rest@.len()));
        lemma_not_near(value, len as nat, e);
    }
    let whole: u128 = value_of(front);
    rounded(whole, rest)
}

/// A number with more than three zeros behind its point, and none before it.
proof fn lemma_near(value: nat, len: nat, e: int)
    requires
        len > 0,
        value < ten(len),
        len + e < -3,
    ensures
        10_000 * numerator(value, e) < denominator(e),
{
    assert(ten(4) == 10_000) by {
        reveal_with_fuel(ten, 5);
    }
    lemma_ten_adds(4, len);
    lemma_ten_grows(len + 4, (-e) as nat);
}

/// A number with no more than three zeros behind its point.
proof fn lemma_not_near(value: nat, len: nat, e: int)
    requires
        len > 0,
        value >= ten((len - 1) as nat),
        len + e >= -3,
    ensures
        10_000 * numerator(value, e) >= denominator(e),
{
    let v = value as int;
    lemma_ten((len - 1) as nat);
    if e >= 0 {
        lemma_ten(e as nat);
        let y = ten(e as nat) as int;
        assert(v * y >= 1) by (nonlinear_arith)
            requires
                v >= 1,
                y >= 1,
        ;
    } else {
        assert(ten(4) == 10_000) by {
            reveal_with_fuel(ten, 5);
        }
        lemma_ten_adds(4, (len - 1) as nat);
        lemma_ten_grows((-e) as nat, len + 3);
        assert((4 + (len - 1)) as nat == len + 3);
    }
}

// ── What has no finite number ────────────────────────────────────────

/// A row of digits with a zero at its front.
proof fn lemma_digits_trail(s: Seq<char>)
    requires
        text::all_digits(s),
        s.len() > 0,
        s[0] as u32 == 48,
    ensures
        text::digits_value(s) < ten((s.len() - 1) as nat),
{
    let rest = s.drop_first();
    assert(s =~= seq![s[0]] + rest);
    lemma_digits_append(seq![s[0]], rest);
    assert(text::digits_value(seq![s[0]]) == 0) by {
        reveal_with_fuel(text::digits_value, 2);
        assert(seq![s[0]].drop_last() =~= Seq::<char>::empty());
    }
    assert forall|k: int| 0 <= k < rest.len() implies text::is_digit(#[trigger] rest[k]) by {
        assert(text::is_digit(s[k + 1]));
    }
    lemma_digits_fit(rest);
    let p = ten(rest.len()) as int;
    assert(0 * p == 0) by (nonlinear_arith);
}

/// The digits of [`beyond`].
fn beyond_digits() -> (r: Vec<char>)
    ensures
        text::all_digits(r@),
        text::digits_value(r@) == beyond(),
        r@.len() > 0,
        r@[0] as u32 != 48,
{
    let mut row = text::chars_of("18014398509481983");
    proof {
        reveal_strlit("18014398509481983");
        lemma_seventeen(row@);
        lemma_pow2_zero();
    }
    let mut j: usize = 0;
    while j < 970
        invariant
            j <= 970,
            text::all_digits(row@),
            row@.len() > 0,
            row@[0] as u32 != 48,
            text::digits_value(row@) == 0x3F_FFFF_FFFF_FFFF * pow2(j as nat),
        decreases 970 - j,
    {
        let ghost held = row@;
        let carry: u128 = double_in_place(&mut row);
        proof {
            lemma_digits_lead(held);
            lemma_ten(held.len());
            lemma_pow2_unfold((j + 1) as nat);
            if carry == 0 && row@[0] as u32 == 48 {
                lemma_digits_trail(row@);
            }
        }
        if carry == 1 {
            let ghost rest = row@;
            row.insert(0, '1');
            proof {
                assert(row@ =~= seq!['1'] + rest);
                lemma_digits_append(seq!['1'], rest);
                assert(text::digits_value(seq!['1']) == 1) by {
                    reveal_with_fuel(text::digits_value, 2);
                    assert(seq!['1'].drop_last() =~= Seq::<char>::empty());
                }
                assert(text::all_digits(seq!['1']));
                lemma_all_digits_append(seq!['1'], rest);
            }
        }
        j += 1;
    }
    row
}

proof fn lemma_pow2_zero()
    ensures
        pow2(0) == 1,
{
    lemma2_to64();
}

proof fn lemma_seventeen(s: Seq<char>)
    requires
        s == "18014398509481983"@,
    ensures
        text::all_digits(s),
        text::digits_value(s) == 0x3F_FFFF_FFFF_FFFF,
        s.len() == 17,
        s[0] as u32 != 48,
{
    reveal_strlit("18014398509481983");
    let t = seq![
        '1', '8', '0', '1', '4', '3', '9', '8', '5', '0', '9', '4', '8', '1', '9', '8', '3',
    ];
    assert(s =~= t);
    reveal_with_fuel(text::digits_value, 18);
    assert(t.take(0) =~= Seq::<char>::empty());
    assert(t.take(1).drop_last() =~= t.take(0));
    assert(t.take(2).drop_last() =~= t.take(1));
    assert(t.take(3).drop_last() =~= t.take(2));
    assert(t.take(4).drop_last() =~= t.take(3));
    assert(t.take(5).drop_last() =~= t.take(4));
    assert(t.take(6).drop_last() =~= t.take(5));
    assert(t.take(7).drop_last() =~= t.take(6));
    assert(t.take(8).drop_last() =~= t.take(7));
    assert(t.take(9).drop_last() =~= t.take(8));
    assert(t.take(10).drop_last() =~= t.take(9));
    assert(t.take(11).drop_last() =~= t.take(10));
    assert(t.take(12).drop_last() =~= t.take(11));
    assert(t.take(13).drop_last() =~= t.take(12));
    assert(t.take(14).drop_last() =~= t.take(13));
    assert(t.take(15).drop_last() =~= t.take(14));
    assert(t.take(16).drop_last() =~= t.take(15));
    assert(t.take(17).drop_last() =~= t.take(16));
    assert(t.take(17) =~= t);
}

/// Which of two rows of as many digits counts more.
fn no_less(a: &[char], b: &[char]) -> (r: bool)
    requires
        a@.len() == b@.len(),
        text::all_digits(a@),
        text::all_digits(b@),
    ensures
        r == (text::digits_value(a@) >= text::digits_value(b@)),
{
    let n: usize = a.len();
    let mut i: usize = 0;
    while i < n
        invariant
            i <= n,
            n == a@.len() == b@.len(),
            text::all_digits(a@),
            text::all_digits(b@),
            text::digits_value(a@.take(i as int)) == text::digits_value(b@.take(i as int)),
        decreases n - i,
    {
        proof {
            assert(a@.take(i + 1).drop_last() =~= a@.take(i as int));
            assert(b@.take(i + 1).drop_last() =~= b@.take(i as int));
            assert(text::is_digit(a@[i as int]) && text::is_digit(b@[i as int]));
        }
        if a[i] as u32 != b[i] as u32 {
            if a[i] as u32 > b[i] as u32 {
                proof {
                    lemma_outweighs(a@, b@, i + 1);
                }
                return true;
            }
            proof {
                lemma_outweighs(b@, a@, i + 1);
            }
            return false;
        }
        i += 1;
    }
    assert(a@.take(i as int) =~= a@);
    assert(b@.take(i as int) =~= b@);
    true
}

/// The row whose front counts more counts more.
proof fn lemma_outweighs(a: Seq<char>, b: Seq<char>, i: int)
    requires
        a.len() == b.len(),
        0 <= i <= a.len(),
        text::all_digits(a),
        text::all_digits(b),
        text::digits_value(a.take(i)) > text::digits_value(b.take(i)),
    ensures
        text::digits_value(a) > text::digits_value(b),
{
    assert(a =~= a.take(i) + a.skip(i));
    assert(b =~= b.take(i) + b.skip(i));
    lemma_digits_append(a.take(i), a.skip(i));
    lemma_digits_append(b.take(i), b.skip(i));
    assert forall|k: int| 0 <= k < b.skip(i).len() implies text::is_digit(
        #[trigger] b.skip(i)[k],
    ) by {
        assert(text::is_digit(b[i + k]));
    }
    lemma_digits_fit(b.skip(i));
    let x = text::digits_value(a.take(i)) as int;
    let y = text::digits_value(b.take(i)) as int;
    let p = ten((a.len() - i) as nat) as int;
    assert(x * p >= y * p + p) by (nonlinear_arith)
        requires
            x >= y + 1,
            p >= 0,
    ;
}

/// A number with no more than `p` digits before its point.
proof fn lemma_below(value: nat, len: nat, e: int, p: nat)
    requires
        value < ten(len),
        len + e <= p,
    ensures
        numerator(value, e) < ten(p) * denominator(e),
{
    let v = value as int;
    if e > 0 {
        lemma_ten(e as nat);
        lemma_ten_adds(len, e as nat);
        lemma_ten_grows((len + e) as nat, p);
        let (x, y, z) = (ten(len) as int, ten(e as nat) as int, ten(p) as int);
        assert(v * y < x * y) by (nonlinear_arith)
            requires
                v < x,
                y > 0,
        ;
        assert(z * 1 == z) by (nonlinear_arith);
    } else {
        lemma_ten_adds(p, (-e) as nat);
        lemma_ten_grows(len, (p - e) as nat);
        let z = ten(p) as int;
        assert(z * 1 == z) by (nonlinear_arith);
        assert(e == 0 ==> ten(0) == 1);
    }
}

/// A number with more than `p` digits before its point.
proof fn lemma_above(value: nat, len: nat, e: int, p: nat)
    requires
        len > 0,
        value >= ten((len - 1) as nat),
        len + e > p,
    ensures
        denominator(e) > 0,
        numerator(value, e) >= ten(p) * denominator(e),
{
    let v = value as int;
    let z = ten(p) as int;
    assert(z * 1 == z) by (nonlinear_arith);
    if e > 0 {
        lemma_ten_adds((len - 1) as nat, e as nat);
        lemma_ten_grows(p, (len - 1 + e) as nat);
        let (x, y) = (ten((len - 1) as nat) as int, ten(e as nat) as int);
        assert(v * y >= x * y) by (nonlinear_arith)
            requires
                v >= x,
                y >= 0,
        ;
    } else {
        lemma_ten((-e) as nat);
        lemma_ten_adds(p, (-e) as nat);
        lemma_ten_grows((p - e) as nat, (len - 1) as nat);
    }
}

/// Whether a row of digits, of which the last `places` stand behind the point,
/// times ten to the power of `x`, which `power` stands for, is more than double
/// precision has finite numbers for.
#[verifier::spinoff_prover]
fn overflows(d: &[char], places: usize, power: i128, Ghost(x): Ghost<int>) -> (r: bool)
    requires
        text::all_digits(d@),
        d@.len() > 0 ==> d@[0] as u32 != 48,
        stands_for(power, x),
        -10 * FAR - 10 < power < 10 * FAR + 10,
    ensures
        r == (numerator(text::digits_value(d@), x - places) >= beyond() * denominator(
            x - places,
        )),
{
    let ghost value = text::digits_value(d@);
    let ghost e = x - places;
    let ghost den = denominator(e) as int;
    let len: usize = d.len();
    proof {
        lemma_digits_fit(d@);
        lemma_ten((if e > 0 {
            e
        } else {
            -e
        }) as nat);
        lemma_beyond();
    }
    if len == 0 {
        proof {
            let p = ten(e as nat) as int;
            let z = beyond() as int;
            assert(0 * p == 0) by (nonlinear_arith);
            assert(z * den > 0) by (nonlinear_arith)
                requires
                    z > 0,
                    den > 0,
            ;
        }
        return false;
    }
    proof {
        lemma_digits_lead(d@);
    }
    let point: i128 = len as i128 - places as i128 + power;
    if point <= 20 {
        proof {
            lemma_below(value, len as nat, e, 20);
            let (z, t) = (beyond() as int, ten(20) as int);
            assert(t * den <= z * den) by (nonlinear_arith)
                requires
                    t <= z,
                    den > 0,
            ;
        }
        return false;
    }
    let limit = beyond_digits();
    let size: usize = limit.len();
    proof {
        lemma_digits_fit(limit@);
        lemma_digits_lead(limit@);
    }
    if point > size as i128 {
        proof {
            lemma_above(value, len as nat, e, size as nat);
            let (z, t) = (beyond() as int, ten(size as nat) as int);
            assert(t * den >= z * den) by (nonlinear_arith)
                requires
                    t >= z,
                    den > 0,
            ;
        }
        return true;
    }
    if point < size as i128 {
        proof {
            lemma_below(value, len as nat, e, (size - 1) as nat);
            let (z, t) = (beyond() as int, ten((size - 1) as nat) as int);
            assert(t * den <= z * den) by (nonlinear_arith)
                requires
                    t <= z,
                    den > 0,
            ;
        }
        return false;
    }
    assert(power == x);
    let after: usize = if size > len {
        size - len
    } else {
        0
    };
    let all = padded(0, d, after);
    let front = slice_subrange(all.as_slice(), 0, size);
    proof {
        let rest = all@.skip(size as int);
        lemma_zeros(after as nat);
        assert(zeros(0) + d@ =~= d@);
        lemma_digits_append(d@, zeros(after as nat));
        lemma_all_digits_append(d@, zeros(after as nat));
        let v = value as int;
        assert(v * 1 == v) by (nonlinear_arith);
        assert(text::digits_value(all@) == value * ten(after as nat));
        assert(numerator(value, e) == text::digits_value(all@));
        assert(all@ =~= front@ + rest);
        lemma_digits_append(front@, rest);
        assert forall|k: int| 0 <= k < front@.len() implies text::is_digit(#[trigger] front@[k]) by {
            assert(text::is_digit(all@[k]));
        }
        assert forall|k: int| 0 <= k < rest.len() implies text::is_digit(#[trigger] rest[k]) by {
            assert(text::is_digit(all@[size + k]));
        }
        lemma_digits_fit(rest);
        assert(den == ten(rest.len()));
        let (w, f, z) = (
            text::digits_value(front@) as int,
            text::digits_value(rest) as int,
            beyond() as int,
        );
        assert((w >= z) == (w * den + f >= z * den)) by (nonlinear_arith)
            requires
                0 <= f < den,
        ;
    }
    no_less(front, limit.as_slice())
}

pub proof fn lemma_beyond()
    ensures
        beyond() >= ten(20),
        ten(20) == 100_000_000_000_000_000_000,
{
    assert(ten(20) == 100_000_000_000_000_000_000) by {
        reveal_with_fuel(ten, 21);
    }
    lemma2_to64();
    lemma_pow2_strictly_increases(32, 970);
}

pub fn read(s: &[char]) -> (r: Option<Seconds>)
    ensures
        r == reading(s@),
{
    let small = text::lowered_chars(s);
    let negative: bool = is_negative(small.as_slice());
    let bare = without_sign(small.as_slice());
    if text::spells(bare, "inf") || text::spells(bare, "infinity") {
        return Some(Seconds::Infinite { negative });
    }
    if text::spells(bare, "nan") {
        return Some(Seconds::NoNumber);
    }
    proof {
        text::lemma_first(bare@, 'e');
    }
    let plain = text::before(bare, 'e');
    let power: i128 = if plain.len() < bare.len() {
        match power_of(text::behind(bare, 'e')) {
            Some(power) => power,
            None => {
                return None;
            },
        }
    } else {
        0
    };
    let whole = text::before(plain, '.');
    let fraction = text::behind(plain, '.');
    let mut digits: Vec<char> = padded(0, whole, 0);
    let places: usize = fraction.len();
    let mut i: usize = 0;
    while i < places
        invariant
            i <= places == fraction@.len(),
            digits@ =~= whole@ + fraction@.take(i as int),
        decreases places - i,
    {
        digits.push(fraction[i]);
        i += 1;
    }
    assert(digits@ =~= whole@ + fraction@);
    if digits.len() == 0 || !digits_only(digits.as_slice()) {
        return None;
    }
    let ghost x: int = if plain@.len() < bare@.len() {
        exponent(text::tail(bare@, 'e'))->0
    } else {
        0
    };
    let d = significant(digits.as_slice());
    if overflows(d, places, power, Ghost(x)) {
        return Some(Seconds::Infinite { negative });
    }
    let thousandths: u64 = scaled(d, places, power, Ghost(x));
    Some(Seconds::Finite { negative, thousandths })
}

// ── Reading back ─────────────────────────────────────────────────────

/// Whether so many thousandths are what they come out as once more. Those that
/// are too many to be told from their neighbours in double precision are not.
pub open spec fn steady(n: u64) -> bool {
    capped(thousandths(n as nat, 1000)) == n
}

/// Whether a number of seconds is the one that is read where it was written.
pub open spec fn settled(seconds: Seconds) -> bool {
    match seconds {
        Seconds::Finite { thousandths, .. } => steady(thousandths),
        _ => true,
    }
}

/// Whether `f` is how much finer than whole numbers double precision is, for
/// some number of seconds that has no thousandths to spare.
spec fn coarse(f: nat) -> bool {
    f == 1 || f == 2 || f == 4 || f == 8 || f == 16 || f == 32 || f == 64 || f == 128 || f == 256
        || f == 512 || f == 1024
}

proof fn lemma_times(n: int, f: int)
    by (nonlinear_arith)
    ensures
        f == 1 ==> n * f == 1 * n,
        f == 2 ==> n * f == 2 * n,
        f == 4 ==> n * f == 4 * n,
        f == 8 ==> n * f == 8 * n,
        f == 16 ==> n * f == 16 * n,
        f == 32 ==> n * f == 32 * n,
        f == 64 ==> n * f == 64 * n,
        f == 128 ==> n * f == 128 * n,
        f == 256 ==> n * f == 256 * n,
        f == 512 ==> n * f == 512 * n,
        f == 1024 ==> n * f == 1024 * n,
{
}

/// How many times `f` goes into 1024.
spec fn part(f: nat) -> nat {
    if f == 1 {
        1024
    } else if f == 2 {
        512
    } else if f == 4 {
        256
    } else if f == 8 {
        128
    } else if f == 16 {
        64
    } else if f == 32 {
        32
    } else if f == 64 {
        16
    } else if f == 128 {
        8
    } else if f == 256 {
        4
    } else if f == 512 {
        2
    } else {
        1
    }
}

proof fn lemma_part(f: nat, unit: nat)
    requires
        coarse(f),
        unit > 0,
    ensures
        double::nearest(1024 * unit, f) == part(f) * unit,
        double::nearest(1024 * unit, f) * f == 1024 * unit,
{
    let (p, e, u) = (part(f) as int, f as int, unit as int);
    lemma_times(p, e);
    assert(p * e == 1024) by {
        assert(e == 1 ==> p == 1024);
        assert(e == 2 ==> p == 512);
        assert(e == 4 ==> p == 256);
    }
    assert((p * u) * e == (p * e) * u) by (nonlinear_arith);
    double::lemma_nearest_is(1024 * unit, f, part(f) * unit);
}

proof fn lemma_coarse(a: nat, b: nat)
    requires
        b > 0,
        0x400_0000_0000 * b <= a < 0x20_0000_0000_0000 * b,
    ensures
        coarse(double::fineness(a, b)),
{
    reveal_with_fuel(double::fineness, 12);
}

proof fn lemma_fineness_is(n: nat, f: nat)
    requires
        coarse(f),
        1000 * 0x10_0000_0000_0000 <= n * f < 1000 * 0x20_0000_0000_0000,
    ensures
        double::fineness(n, 1000) == f,
{
    lemma_times(n as int, f as int);
    reveal_with_fuel(double::fineness, 12);
}

/// Every thousandth is settled while double precision is finer than they are.
proof fn lemma_fine_settled(n: nat)
    requires
        n < 1000 * 0x800_0000_0000,
    ensures
        thousandths(n, 1000) == n,
{
    let fine = double::fineness(n, 1000);
    if n == 0 {
        lemma_short(0, 1000);
    } else {
        double::lemma_fineness(n, 1000);
        if n >= 1000 * 0x400_0000_0000 {
            lemma_fineness_is(n, 1024);
        }
        let (x, f) = (n as int, fine as int);
        assert(f > 1000) by (nonlinear_arith)
            requires
                f == 1024 || x < 1000 * 0x400_0000_0000,
                x * f >= 1000 * 0x10_0000_0000_0000,
                x > 0,
        ;
        let k = double::nearest(n * fine, 1000);
        double::lemma_nearest(n * fine, 1000);
        double::lemma_nearest_is(1000 * k, fine, n);
    }
}

/// What a double-precision number of 53 binary digits comes to in thousandths
/// comes back to that number.
proof fn lemma_coarse_settled(k: nat, f: nat)
    requires
        coarse(f),
        0x10_0000_0000_0000 <= k <= 0x20_0000_0000_0000,
        double::nearest(1000 * k, f) >= 1000 * 0x800_0000_0000,
    ensures
        thousandths(double::nearest(1000 * k, f), 1000) == double::nearest(1000 * k, f),
{
    let n = double::nearest(1000 * k, f);
    double::lemma_nearest(1000 * k, f);
    assert(f <= 1024);
    if k == 0x20_0000_0000_0000 {
        lemma_top_settled(f);
    } else {
        if k == 0x10_0000_0000_0000 {
            lemma_part(f, 1000 * 0x400_0000_0000);
        }
        assert(f != 1024);
        lemma_fineness_is(n, f);
        double::lemma_nearest_is(n * f, 1000, k);
    }
}

proof fn lemma_top_settled(f: nat)
    requires
        coarse(f),
    ensures
        ({
            let n = double::nearest(1000 * 0x20_0000_0000_0000, f);
            thousandths(n, 1000) == n
        }),
{
    let n = double::nearest(1000 * 0x20_0000_0000_0000, f);
    lemma_part(f, 1000 * 0x800_0000_0000);
    if f == 1 {
        lemma_times(n as int, 1);
        lemma_whole_settled(0x20_0000_0000_0000);
    } else {
        let half = f / 2;
        assert(coarse(half) && f == 2 * half);
        let (x, h) = (n as int, half as int);
        assert(x * (2 * h) == 2 * (x * h)) by (nonlinear_arith);
        lemma_fineness_is(n, half);
        assert(double::nearest(n * half, 1000) == 0x10_0000_0000_0000);
        double::lemma_nearest_is(1000 * 0x10_0000_0000_0000, half, n);
        assert(double::nearest(1000 * double::nearest(n * half, 1000), half) == n);
    }
}

/// What has no fraction left.
proof fn lemma_whole_settled(w: nat)
    requires
        0x20_0000_0000_0000 <= w < 0x80_0000_0000_0000,
        w % 2 == 0,
        w >= 0x40_0000_0000_0000 ==> w % 4 == 0,
    ensures
        thousandths(1000 * w, 1000) == 1000 * w,
{
    reveal_with_fuel(double::gap, 4);
    let n = 1000 * w;
    assert(n / 1000 == w);
    if w >= 0x40_0000_0000_0000 {
        assert(double::gap(w) == 4);
        double::lemma_nearest_is(n, 4000, w / 4);
        assert(1000 * double::gap(w) == 4000);
        assert(double::nearest(n, 1000 * double::gap(w)) * double::gap(w) == w);
    } else {
        assert(double::gap(w) == 2);
        double::lemma_nearest_is(n, 2000, w / 2);
        assert(1000 * double::gap(w) == 2000);
        assert(double::nearest(n, 1000 * double::gap(w)) * double::gap(w) == w);
    }
}

proof fn lemma_longest_settled()
    ensures
        steady(u64::MAX),
{
    reveal_with_fuel(double::gap, 4);
    let n = u64::MAX as nat;
    assert(double::gap(n / 1000) == 4);
    assert(double::nearest(n, 4000) == 4_611_686_018_427_388);
}

/// Every duration that was read is settled.
proof fn lemma_read_is_settled(a: nat, b: nat)
    requires
        b > 0,
    ensures
        steady(capped(thousandths(a, b))),
{
    lemma_longest_settled();
    let n = thousandths(a, b);
    let y = b as int;
    if a >= 0x80_0000_0000_0000 * b {
        lemma_long(a, b);
    } else if a >= 0x20_0000_0000_0000 * b {
        let w = a / b;
        let g = double::gap(w);
        lemma_quotient(a, b, 0x20_0000_0000_0000);
        lemma_fundamental_div_mod(a as int, y);
        lemma_mod_bound(a as int, y);
        let v = w as int;
        assert(v < 0x80_0000_0000_0000) by (nonlinear_arith)
            requires
                y * v < 0x80_0000_0000_0000 * y,
                y > 0,
        ;
        double::lemma_gap(w);
        lemma_wide(a, b, g);
        double::lemma_nearest(a, b * g);
        reveal_with_fuel(double::gap, 4);
        let k = double::nearest(a, b * g);
        assert(g == if w >= 0x40_0000_0000_0000 {
            4nat
        } else {
            2
        });
        let (x, z) = (k as int, g as int);
        assert(x * z == (if z == 4 {
            4 * x
        } else {
            2 * x
        })) by (nonlinear_arith)
            requires
                z == 4 || z == 2,
        ;
        if n < u64::MAX {
            assert(2 * x <= w + 2) by {
                assert(w / 2 <= w && w / 4 <= w);
            }
            lemma_whole_settled(k * g);
        }
    } else {
        let fine = double::fineness(a, b);
        let k = double::nearest(a * fine, b);
        if a == 0 {
            lemma_zero(b);
            lemma_fine_settled(0);
        } else {
            double::lemma_fineness(a, b);
            double::lemma_nearest(a * fine, b);
            double::lemma_nearest(1000 * k, fine);
            let (x, f, m) = (a as int, fine as int, k as int);
            assert(x * f < 0x20_0000_0000_0000 * y && x * f >= 0x10_0000_0000_0000 * y)
                by (nonlinear_arith)
                requires
                    f == 1 && 0x10_0000_0000_0000 * y <= x < 0x20_0000_0000_0000 * y || (
                    0x10_0000_0000_0000 * y <= x * f < 0x20_0000_0000_0000 * y),
            ;
            assert(0x10_0000_0000_0000 <= m <= 0x20_0000_0000_0000) by (nonlinear_arith)
                requires
                    2 * (x * f) - y <= 2 * (m * y) <= 2 * (x * f) + y,
                    x * f < 0x20_0000_0000_0000 * y,
                    x * f >= 0x10_0000_0000_0000 * y,
                    y > 0,
            ;
            assert(n < u64::MAX);
            if n < 1000 * 0x800_0000_0000 {
                lemma_fine_settled(n);
            } else {
                let t = n as int;
                assert(f <= 1024) by (nonlinear_arith)
                    requires
                        2 * (t * f) <= 2 * (1000 * m) + f,
                        m <= 0x20_0000_0000_0000,
                        t >= 1000 * 0x800_0000_0000,
                        f >= 0,
                ;
                assert(x >= 0x400_0000_0000 * y) by (nonlinear_arith)
                    requires
                        x * f >= 0x10_0000_0000_0000 * y,
                        0 < f <= 1024,
                        y > 0,
                        x >= 0,
                ;
                lemma_coarse(a, b);
                lemma_coarse_settled(k, fine);
            }
        }
    }
}

proof fn lemma_zero(b: nat)
    requires
        b > 0,
    ensures
        thousandths(0, b) == 0,
{
    let y = b as int;
    assert(0 * y == 0) by (nonlinear_arith);
    double::lemma_nearest_is(0, b, 0);
    double::lemma_nearest_is(0, 1, 0);
}

/// Every duration of less than 2^43 seconds is settled, backwards too: that
/// long, double precision tells each thousandth from the next.
pub proof fn law_ordinary_durations_are_settled(seconds: Seconds)
    requires
        seconds matches Seconds::Finite { thousandths, .. } ==> thousandths < 1000
            * 0x800_0000_0000,
    ensures
        settled(seconds),
{
    if let Seconds::Finite { thousandths, .. } = seconds {
        lemma_fine_settled(thousandths as nat);
    }
}

/// Every duration that was read is settled: written down in thousandths, it is
/// read as itself again.
pub proof fn law_a_duration_is_settled(s: Seq<char>)
    ensures
        reading(s) matches Some(seconds) ==> settled(seconds),
{
    if let Some(Magnitude::Finite { digits, exponent }) = magnitude(unsigned(text::lower_text(s))) {
        lemma_ten((-exponent) as nat);
        lemma_read_is_settled(numerator(digits, exponent), denominator(exponent));
    }
}

/// The digits behind a point count as parts of one, and an exponent moves the
/// point to the right, or to the left where it has a minus.
pub proof fn law_a_number_is_read_by_its_parts(whole: Seq<char>, part: Seq<char>, n: nat)
    requires
        text::all_digits(whole),
        text::all_digits(part),
        whole.len() > 0,
    ensures
        magnitude(whole) == Some(
            Magnitude::Finite { digits: text::digits_value(whole), exponent: 0 },
        ),
        magnitude(whole + seq!['.'] + part) == Some(
            Magnitude::Finite {
                digits: text::digits_value(whole + part),
                exponent: -(part.len() as int),
            },
        ),
        magnitude(whole + seq!['e'] + text::decimal(n)) == Some(
            Magnitude::Finite { digits: text::digits_value(whole), exponent: n as int },
        ),
        magnitude(whole + seq!['e', '-'] + text::decimal(n)) == Some(
            Magnitude::Finite { digits: text::digits_value(whole), exponent: -(n as int) },
        ),
{
    let d = text::decimal(n);
    crate::rewritten::lemma_decimal(n);
    assert(text::is_digit(whole[0]) && text::is_digit(d[0]));
    lemma_no_word(whole);
    let a = whole + seq!['.'] + part;
    let b = whole + seq!['e'] + d;
    let c = whole + seq!['e', '-'] + d;
    assert(a[0] == whole[0] && b[0] == whole[0] && c[0] == whole[0]);
    lemma_no_word(a);
    lemma_no_word(b);
    lemma_no_word(c);
    text::lemma_first_is(whole, 'e', whole.len() as int);
    text::lemma_first_is(whole, '.', whole.len() as int);
    assert(text::head(whole, 'e') =~= whole);
    assert(text::head(whole, '.') =~= whole);
    assert(whole + Seq::<char>::empty() =~= whole);
    assert forall|k: int| 0 <= k < a.len() implies a[k] != 'e' by {
        if k < whole.len() {
            assert(text::is_digit(whole[k]));
        } else if k > whole.len() {
            assert(text::is_digit(part[k - whole.len() - 1]));
        }
    }
    text::lemma_first_is(a, 'e', a.len() as int);
    text::lemma_first_is(a, '.', whole.len() as int);
    assert(text::head(a, 'e') =~= a);
    assert(text::head(a, '.') =~= whole);
    assert(text::tail(a, '.') =~= part);
    assert forall|k: int| 0 <= k < (whole + part).len() implies text::is_digit(
        #[trigger] (whole + part)[k],
    ) by {
        if k < whole.len() {
            assert(text::is_digit(whole[k]));
        } else {
            assert(text::is_digit(part[k - whole.len()]));
        }
    }
    text::lemma_first_is(b, 'e', whole.len() as int);
    assert(text::head(b, 'e') =~= whole);
    assert(text::tail(b, 'e') =~= d);
    assert(unsigned(d) == d);
    text::lemma_first_is(c, 'e', whole.len() as int);
    assert(text::head(c, 'e') =~= whole);
    assert(text::tail(c, 'e') =~= seq!['-'] + d);
    assert((seq!['-'] + d).drop_first() =~= d);
}

proof fn lemma_no_word(s: Seq<char>)
    requires
        s.len() > 0,
        text::is_digit(s[0]),
    ensures
        s != "inf"@,
        s != "infinity"@,
        s != "nan"@,
{
    reveal_strlit("inf");
    reveal_strlit("infinity");
    reveal_strlit("nan");
}

/// Ten is taken to the power of the exponent: above the line where it is
/// positive, below it where it is negative.
pub proof fn law_each_power_is_ten_of_the_last(digits: nat, n: nat)
    ensures
        numerator(digits, 0) == digits,
        denominator(0) == 1,
        numerator(digits, n as int + 1) == 10 * numerator(digits, n as int),
        denominator(-(n as int) - 1) == 10 * denominator(-(n as int)),
        denominator(n as int) == 1,
        numerator(digits, -(n as int)) == digits,
{
    let d = digits as int;
    let t = ten(n) as int;
    assert(ten((n + 1) as nat) == 10 * ten(n));
    assert(d * (10 * t) == 10 * (d * t)) by (nonlinear_arith);
    assert(ten(0) == 1);
    assert(d * 1 == d);
}

/// A duration is off by less than a thousandth of a second, as long as it is
/// one that a recording can have.
pub proof fn law_a_duration_is_told_to_the_thousandth(a: nat, b: nat)
    requires
        0 < b,
        0 < a < 0x400_0000_0000 * b,
    ensures
        -b <= thousandths(a, b) * b - 1000 * a <= b,
{
    let fine = double::fineness(a, b);
    double::lemma_fineness(a, b);
    let near = double::nearest(a * fine, b);
    double::lemma_nearest(a * fine, b);
    double::lemma_nearest(1000 * near, fine);
    let (x, y, f, n, t) = (a as int, b as int, fine as int, near as int, thousandths(a, b) as int);
    assert(f > 1000) by (nonlinear_arith)
        requires
            x * f >= 0x10_0000_0000_0000 * y,
            0 < x < 0x400_0000_0000 * y,
            f >= 1,
    ;
    let k = t * y - 1000 * x;
    assert(2 * (k * f) <= 1000 * y + f * y && 2 * (k * f) >= -(1000 * y + f * y)) by (nonlinear_arith)
        requires
            k == t * y - 1000 * x,
            2 * (1000 * n) - f <= 2 * (t * f) <= 2 * (1000 * n) + f,
            2 * (x * f) - y <= 2 * (n * y) <= 2 * (x * f) + y,
            y > 0,
            f > 0,
    ;
    assert(-y <= k <= y) by (nonlinear_arith)
        requires
            2 * (k * f) <= 1000 * y + f * y,
            2 * (k * f) >= -(1000 * y + f * y),
            f > 1000,
            y > 0,
    ;
}

/// Letters count the same in either case; what has a minus before it is
/// negative and otherwise as it is without; the words for what has no end and
/// for no number are read as such.
pub proof fn law_a_sign_and_a_word_are_read(s: Seq<char>)
    ensures
        reading(text::lower_text(s)) == reading(s),
        s.len() > 0 && s[0] != '-' && s[0] != '+' ==> (match (reading(s), reading(seq!['-'] + s)) {
            (
                Some(Seconds::Finite { negative: a, thousandths: m }),
                Some(Seconds::Finite { negative: b, thousandths: n }),
            ) => !a && b && m == n,
            (
                Some(Seconds::Infinite { negative: a }),
                Some(Seconds::Infinite { negative: b }),
            ) => !a && b,
            (a, b) => a == b,
        }),
        s.len() > 0 && s[0] != '-' && s[0] != '+' ==> reading(seq!['+'] + s) == reading(s),
        reading("inf"@) == Some(Seconds::Infinite { negative: false }),
        reading("infinity"@) == Some(Seconds::Infinite { negative: false }),
        reading("nan"@) == Some(Seconds::NoNumber),
{
    let small = text::lower_text(s);
    assert(text::lower_text(small) =~= small);
    if s.len() > 0 {
        let minus = seq!['-'] + s;
        let plus = seq!['+'] + s;
        assert(text::lower_text(minus) =~= seq!['-'] + small);
        assert(text::lower_text(plus) =~= seq!['+'] + small);
        assert((seq!['-'] + small).drop_first() =~= small);
        assert((seq!['+'] + small).drop_first() =~= small);
    }
    reveal_strlit("inf");
    reveal_strlit("infinity");
    reveal_strlit("nan");
    assert(text::lower_text("inf"@) =~= "inf"@);
    assert(text::lower_text("infinity"@) =~= "infinity"@);
    assert(text::lower_text("nan"@) =~= "nan"@);
    assert("nan"@.len() == 3 && "nan"@[0] == 'n' && "inf"@[0] == 'i' && "infinity"@.len() == 8);
}

/// As many thousandths as can be counted are counted.
pub proof fn law_what_cannot_be_counted_is_the_most(n: nat)
    ensures
        n <= u64::MAX ==> capped(n) == n,
        n >= u64::MAX ==> capped(n) == u64::MAX,
{
}

} // verus!
