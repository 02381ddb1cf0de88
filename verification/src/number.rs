//! Exact arithmetic on the catalogue's numbers: decimal text read into
//! fractions of machine integers, their quotients and their order.

use vstd::prelude::*;
use vstd::string::*;
use crate::order::{consistent, Rank};

verus! {

/// The largest numerator an amount read from text may have.
pub const AMOUNT_NUM_MAX: u64 = 0xFFFF_FFFF;

/// The largest denominator an amount read from text may have: nine decimal
/// places.
pub const AMOUNT_DEN_MAX: u64 = 1_000_000_000;

/// The most decimal places an amount read from text may have.
pub const AMOUNT_PLACES_MAX: usize = 9;

/// A non-negative fraction `num / den`. A zero denominator under a positive
/// numerator stands for a quotient by zero: it is larger than every fraction
/// with a positive denominator and equal to every other such quotient.
#[derive(Clone, Copy, Debug, PartialEq, Eq, Structural)]
pub struct Ratio {
    /// Numerator.
    pub num: u64,
    /// Denominator; zero only for a quotient by zero.
    pub den: u64,
}

impl Ratio {
    /// The ratio is a value, finite or infinite: numerator and denominator
    /// are not both zero.
    pub open spec fn wf(self) -> bool {
        self.den > 0 || self.num > 0
    }

    /// The ratio is a quotient by zero.
    pub open spec fn is_infinite(self) -> bool {
        self.den == 0 && self.num > 0
    }

    /// Small enough that quotients of two such ratios fit in a `Ratio`.
    pub open spec fn is_amount(self) -> bool {
        self.num <= AMOUNT_NUM_MAX && 0 < self.den <= AMOUNT_DEN_MAX
    }

    /// Ascending numeric order of two fractions, by cross-multiplication. An
    /// infinite ratio ranks after every finite one and the same as every
    /// infinite one.
    pub open spec fn rank(self, other: Ratio) -> Rank {
        Rank::of_ints(self.num * other.den, other.num * self.den)
    }

    /// Whether `self` is the exact quotient of `a` by `b`.
    pub open spec fn is_quotient_of(self, a: Ratio, b: Ratio) -> bool {
        self.num * (a.den * b.num) == (a.num * b.den) * self.den
    }

    /// The quotient `a / b` as a fraction of the cross products.
    pub open spec fn quotient(a: Ratio, b: Ratio) -> Ratio {
        Ratio { num: (a.num * b.den) as u64, den: (a.den * b.num) as u64 }
    }

    /// Whether `a / b` is a value and fits in a `Ratio`: the cross products
    /// are not both zero, and neither exceeds `u64`.
    pub open spec fn divisible(a: Ratio, b: Ratio) -> bool {
        &&& a.num * b.den > 0 || a.den * b.num > 0
        &&& a.num * b.den <= u64::MAX
        &&& a.den * b.num <= u64::MAX
    }

    /// The whole number `n` as a ratio.
    pub fn whole(n: u32) -> (r: Ratio)
        ensures
            r == (Ratio { num: n as u64, den: 1 }),
    {
        Ratio { num: n as u64, den: 1 }
    }

    /// Divides `a` by `b` exactly. A zero divisor under a positive dividend
    /// gives the infinite ratio. `None` when both cross products are zero, as
    /// for zero by zero, or one of them exceeds `u64`.
    pub fn divide(a: Ratio, b: Ratio) -> (r: Option<Ratio>)
        ensures
            r == if Ratio::divisible(a, b) {
                Some(Ratio::quotient(a, b))
            } else {
                None
            },
            r matches Some(q) ==> q.wf() && q.is_quotient_of(a, b),
    {
        let num: u128 = wide_product(a.num, b.den);
        let den: u128 = wide_product(a.den, b.num);
        if (num == 0 && den == 0) || num > u64::MAX as u128 || den > u64::MAX as u128 {
            None
        } else {
            Some(Ratio { num: num as u64, den: den as u64 })
        }
    }

    /// Compares two fractions by value.
    pub fn rank_against(&self, other: &Ratio) -> (r: Rank)
        ensures
            r == self.rank(*other),
    {
        let left: u128 = wide_product(self.num, other.den);
        let right: u128 = wide_product(other.num, self.den);
        if left < right {
            Rank::Before
        } else if left == right {
            Rank::Same
        } else {
            Rank::After
        }
    }
}

/// The product of two 64-bit numbers, which always fits in 128 bits.
pub fn wide_product(x: u64, y: u64) -> (p: u128)
    ensures
        p == x * y,
{
    assert(x * y <= 0xFFFF_FFFF_FFFF_FFFF * 0xFFFF_FFFF_FFFF_FFFF) by (nonlinear_arith)
        requires
            0 <= x <= 0xFFFF_FFFF_FFFF_FFFF,
            0 <= y <= 0xFFFF_FFFF_FFFF_FFFF,
    ;
    (x as u128) * (y as u128)
}

/// Two amounts always have a quotient that fits, unless both are zero. The
/// quotient is infinite exactly when the divisor is zero.
pub proof fn lemma_amounts_divisible(a: Ratio, b: Ratio)
    requires
        a.is_amount(),
        b.is_amount(),
    ensures
        Ratio::divisible(a, b) <==> a.num > 0 || b.num > 0,
        Ratio::divisible(a, b) ==> Ratio::quotient(a, b).wf() && (Ratio::quotient(
            a,
            b,
        ).is_infinite() <==> b.num == 0),
{
    assert(a.num * b.den <= 0xFFFF_FFFF * 1_000_000_000) by (nonlinear_arith)
        requires
            0 <= a.num <= 0xFFFF_FFFF,
            0 <= b.den <= 1_000_000_000,
    ;
    assert(a.den * b.num <= 1_000_000_000 * 0xFFFF_FFFF) by (nonlinear_arith)
        requires
            0 <= b.num <= 0xFFFF_FFFF,
            0 <= a.den <= 1_000_000_000,
    ;
    assert(a.den * b.num > 0 <==> b.num > 0) by (nonlinear_arith)
        requires
            a.den > 0,
            b.num >= 0,
    ;
    assert(a.num * b.den > 0 <==> a.num > 0) by (nonlinear_arith)
        requires
            b.den > 0,
            a.num >= 0,
    ;
}

/// An infinite ratio ranks after every finite one, and the same as every
/// infinite one.
pub proof fn lemma_infinite_ranks_last(a: Ratio, b: Ratio)
    requires
        a.is_infinite(),
        b.wf(),
    ensures
        b.den > 0 ==> a.rank(b) == Rank::After && b.rank(a) == Rank::Before,
        b.is_infinite() ==> a.rank(b) == Rank::Same,
{
    assert(b.den > 0 ==> a.num * b.den > 0) by (nonlinear_arith)
        requires
            a.num > 0,
            b.den >= 0,
    ;
    assert(b.num * a.den == 0 && a.den * b.num == 0) by (nonlinear_arith)
        requires
            a.den == 0,
    ;
    assert(b.den == 0 ==> a.num * b.den == 0) by (nonlinear_arith);
}

/// On well-formed ratios, "not after" is transitive, and strict as soon as
/// one of the two steps is strict.
pub proof fn lemma_ratio_rank_transitive(a: Ratio, b: Ratio, c: Ratio)
    requires
        a.wf(),
        b.wf(),
        c.wf(),
        a.rank(b) != Rank::After,
        b.rank(c) != Rank::After,
    ensures
        a.rank(c) != Rank::After,
        a.rank(b) == Rank::Before || b.rank(c) == Rank::Before ==> a.rank(c) == Rank::Before,
{
    let (an, ad) = (a.num as int, a.den as int);
    let (bn, bd) = (b.num as int, b.den as int);
    let (cn, cd) = (c.num as int, c.den as int);
    assert(an * bd <= bn * ad);
    assert(bn * cd <= cn * bd);
    if bd == 0 {
        // b is infinite, so c is too, and a is at most both.
        assert(cn * bd == 0 && an * bd == 0) by (nonlinear_arith)
            requires
                bd == 0,
        ;
        assert(cd == 0) by (nonlinear_arith)
            requires
                bn * cd <= 0,
                bn > 0,
                cd >= 0,
        ;
        assert(an * cd == 0) by (nonlinear_arith)
            requires
                cd == 0,
        ;
        assert(cn * ad >= 0) by (nonlinear_arith)
            requires
                cn >= 0,
                ad >= 0,
        ;
        if a.rank(b) == Rank::Before {
            assert(ad > 0) by (nonlinear_arith)
                requires
                    0 < bn * ad,
                    bn >= 0,
                    ad >= 0,
            ;
            assert(cn * ad > 0) by (nonlinear_arith)
                requires
                    cn > 0,
                    ad > 0,
            ;
        }
    } else {
        assert((an * cd) * bd <= (cn * ad) * bd) by (nonlinear_arith)
            requires
                an * bd <= bn * ad,
                bn * cd <= cn * bd,
                ad >= 0,
                cd >= 0,
                bd > 0,
                an >= 0,
                bn >= 0,
                cn >= 0,
        {
            assert((an * bd) * cd <= (bn * ad) * cd);
            assert((bn * cd) * ad <= (cn * bd) * ad);
        }
        assert(an * cd <= cn * ad) by (nonlinear_arith)
            requires
                (an * cd) * bd <= (cn * ad) * bd,
                bd > 0,
        ;
        if a.rank(b) == Rank::Before {
            assert(ad > 0) by (nonlinear_arith)
                requires
                    an * bd < bn * ad,
                    an >= 0,
                    bd > 0,
                    bn >= 0,
                    ad >= 0,
            ;
            if cd == 0 {
                assert(an * cd == 0 && cn * ad > 0) by (nonlinear_arith)
                    requires
                        cd == 0,
                        cn > 0,
                        ad > 0,
                ;
            } else {
                assert((an * cd) * bd < (cn * ad) * bd) by (nonlinear_arith)
                    requires
                        an * bd < bn * ad,
                        bn * cd <= cn * bd,
                        ad > 0,
                        cd > 0,
                        bd > 0,
                        an >= 0,
                        bn >= 0,
                        cn >= 0,
                {
                    assert((an * bd) * cd < (bn * ad) * cd);
                    assert((bn * cd) * ad <= (cn * bd) * ad);
                }
                assert(an * cd < cn * ad) by (nonlinear_arith)
                    requires
                        (an * cd) * bd < (cn * ad) * bd,
                        bd > 0,
                ;
            }
        } else if b.rank(c) == Rank::Before {
            if ad == 0 {
                assert(false) by (nonlinear_arith)
                    requires
                        an * bd <= bn * ad,
                        ad == 0,
                        an > 0,
                        bd > 0,
                ;
            } else {
                assert((an * cd) * bd < (cn * ad) * bd) by (nonlinear_arith)
                    requires
                        an * bd <= bn * ad,
                        bn * cd < cn * bd,
                        ad > 0,
                        cd >= 0,
                        bd > 0,
                        an >= 0,
                        bn >= 0,
                        cn >= 0,
                {
                    assert((an * bd) * cd <= (bn * ad) * cd);
                    assert((bn * cd) * ad < (cn * bd) * ad);
                }
                assert(an * cd < cn * ad) by (nonlinear_arith)
                    requires
                        (an * cd) * bd < (cn * ad) * bd,
                        bd > 0,
                ;
            }
        }
    }
}

/// On well-formed ratios the order by value is a total preorder.
pub proof fn lemma_ratio_rank_consistent(a: Ratio, b: Ratio, c: Ratio)
    requires
        a.wf(),
        b.wf(),
        c.wf(),
    ensures
        consistent(a.rank(b), b.rank(c), a.rank(c)),
{
    if a.rank(b) != Rank::After && b.rank(c) != Rank::After {
        lemma_ratio_rank_transitive(a, b, c);
    }
    if a.rank(b) != Rank::Before && b.rank(c) != Rank::Before {
        lemma_ratio_rank_transitive(c, b, a);
    }
}

/// Whether `c` is one of the ASCII digits.
pub open spec fn is_digit(c: char) -> bool {
    0x30 <= c as int <= 0x39
}

/// The number an ASCII digit stands for.
pub open spec fn digit_value(c: char) -> nat {
    (c as int - 0x30) as nat
}

/// Whether every character of `s` is an ASCII digit.
pub open spec fn all_digits(s: Seq<char>) -> bool {
    forall|i: int| 0 <= i < s.len() ==> is_digit(#[trigger] s[i])
}

/// The number obtained by writing the digits `s` behind the decimal numeral
/// of `acc`.
pub open spec fn extend_value(acc: nat, s: Seq<char>) -> nat
    decreases s.len(),
{
    if s.len() == 0 {
        acc
    } else {
        extend_value(acc, s.drop_last()) * 10 + digit_value(s.last())
    }
}

/// The number that the decimal numeral `s` stands for.
pub open spec fn digits_value(s: Seq<char>) -> nat {
    extend_value(0, s)
}

/// Ten to the power `n`.
pub open spec fn pow10(n: nat) -> nat
    decreases n,
{
    if n == 0 {
        1
    } else {
        10 * pow10((n - 1) as nat)
    }
}

/// The position of the first decimal point at or after `from`, or the length
/// of `s` if there is none.
pub open spec fn point_at(s: Seq<char>, from: int) -> int
    decreases s.len() - from,
{
    if 0 <= from < s.len() && s[from] != '.' {
        point_at(s, from + 1)
    } else {
        from
    }
}

/// The digits before the first decimal point of `s`.
pub open spec fn whole_part(s: Seq<char>) -> Seq<char> {
    s.take(point_at(s, 0))
}

/// The characters behind the first decimal point of `s`; empty when there is
/// no point.
pub open spec fn fraction_part(s: Seq<char>) -> Seq<char> {
    if point_at(s, 0) < s.len() {
        s.skip(point_at(s, 0) + 1)
    } else {
        Seq::empty()
    }
}

/// The amount that the decimal text `s` stands for: digits with at most one
/// decimal point, at least one digit, at most nine decimal places, and all
/// digits together no more than `AMOUNT_NUM_MAX`. `None` for any other text.
pub open spec fn amount_of(s: Seq<char>) -> Option<Ratio> {
    let digits = whole_part(s) + fraction_part(s);
    if digits.len() > 0 && all_digits(digits) && fraction_part(s).len() <= AMOUNT_PLACES_MAX
        && digits_value(digits) <= AMOUNT_NUM_MAX {
        Some(
            Ratio {
                num: digits_value(digits) as u64,
                den: pow10(fraction_part(s).len()) as u64,
            },
        )
    } else {
        None
    }
}

/// The whole number that the text `s` stands for: one or more digits with a
/// value of at most `u32::MAX`. `None` for any other text.
pub open spec fn count_of(s: Seq<char>) -> Option<u32> {
    if s.len() > 0 && all_digits(s) && digits_value(s) <= u32::MAX {
        Some(digits_value(s) as u32)
    } else {
        None
    }
}

/// Writing `a + b` behind a numeral is writing `a`, then `b`.
pub proof fn lemma_extend_concat(acc: nat, a: Seq<char>, b: Seq<char>)
    ensures
        extend_value(acc, a + b) == extend_value(extend_value(acc, a), b),
    decreases b.len(),
{
    if b.len() == 0 {
        assert(a + b =~= a);
    } else {
        assert((a + b).drop_last() =~= a + b.drop_last());
        lemma_extend_concat(acc, a, b.drop_last());
    }
}

/// Writing more digits behind a numeral never makes it smaller.
pub proof fn lemma_extend_grows(acc: nat, s: Seq<char>, k: int)
    requires
        0 <= k <= s.len(),
    ensures
        extend_value(acc, s.take(k)) <= extend_value(acc, s),
    decreases s.len(),
{
    if k == s.len() {
        assert(s.take(k) =~= s);
    } else {
        assert(s.drop_last().take(k) =~= s.take(k));
        lemma_extend_grows(acc, s.drop_last(), k);
    }
}

/// Positive powers of ten up to nine decimal places fit the amount bound.
pub proof fn lemma_pow10_bounds(n: nat)
    ensures
        pow10(n) > 0,
        n <= 9 ==> pow10(n) <= AMOUNT_DEN_MAX,
    decreases n,
{
    reveal_with_fuel(pow10, 11);
    if n > 9 {
        lemma_pow10_bounds((n - 1) as nat);
    }
}

/// Every amount that text stands for is within the amount bounds.
pub proof fn lemma_amount_of_is_amount(s: Seq<char>)
    ensures
        amount_of(s) matches Some(r) ==> r.is_amount() && r.wf(),
{
    lemma_pow10_bounds(fraction_part(s).len());
}

/// Empty text stands for no amount.
pub proof fn lemma_amount_text_not_empty(s: Seq<char>)
    ensures
        amount_of(s) is Some ==> s.len() > 0,
{
    if s.len() == 0 {
        assert(whole_part(s) + fraction_part(s) =~= Seq::<char>::empty());
    }
}

/// Decides `is_digit` for one character.
pub fn char_is_digit(c: char) -> (b: bool)
    ensures
        b == is_digit(c),
{
    let n: u32 = c as u32;
    0x30 <= n && n <= 0x39
}

/// Reads the characters of `text` from `from` up to `to` as digits written
/// behind the numeral of `acc`. `None` when one of them is no digit or the
/// value exceeds `AMOUNT_NUM_MAX`.
pub fn extend_with_digits(text: &str, from: usize, to: usize, acc: u64) -> (r: Option<u64>)
    requires
        from <= to <= text@.len(),
        acc <= AMOUNT_NUM_MAX,
    ensures
        r == if all_digits(text@.subrange(from as int, to as int)) && extend_value(
            acc as nat,
            text@.subrange(from as int, to as int),
        ) <= AMOUNT_NUM_MAX {
            Some(extend_value(acc as nat, text@.subrange(from as int, to as int)) as u64)
        } else {
            None
        },
{
    let ghost part = text@.subrange(from as int, to as int);
    let mut value: u64 = acc;
    let mut i: usize = from;
    assert(part.take(0) =~= Seq::<char>::empty());
    while i < to
        invariant
            from <= i <= to <= text@.len(),
            part == text@.subrange(from as int, to as int),
            value <= AMOUNT_NUM_MAX,
            value == extend_value(acc as nat, part.take(i - from)),
            all_digits(part.take(i - from)),
        decreases to - i,
    {
        let c: char = text.get_char(i);
        assert(part[i - from] == c);
        assert(part.take(i - from + 1).drop_last() =~= part.take(i - from));
        assert(part.take(i - from + 1).last() == c);
        if !char_is_digit(c) {
            return None;
        }
        let d: u64 = (c as u32 - 0x30) as u64;
        let next: u64 = value * 10 + d;
        if next > AMOUNT_NUM_MAX {
            proof {
                if all_digits(part) {
                    lemma_extend_grows(acc as nat, part, i - from + 1);
                }
            }
            return None;
        }
        value = next;
        i += 1;
    }
    assert(part.take(to - from) =~= part);
    Some(value)
}

/// Reads decimal text as an amount.
pub fn parse_amount(text: &str) -> (r: Option<Ratio>)
    ensures
        r == amount_of(text@),
{
    let n: usize = text.unicode_len();
    let mut p: usize = 0;
    while p < n && text.get_char(p) != '.'
        invariant
            p <= n,
            n == text@.len(),
            point_at(text@, p as int) == point_at(text@, 0),
        decreases n - p,
    {
        p += 1;
    }
    let ghost whole = whole_part(text@);
    let ghost frac = fraction_part(text@);
    assert(whole == text@.subrange(0, p as int));
    let places: usize = if p < n {
        n - p - 1
    } else {
        0
    };
    let start: usize = if p < n {
        p + 1
    } else {
        n
    };
    assert(frac =~= text@.subrange(start as int, n as int));
    proof {
        lemma_extend_concat(0, whole, frac);
        assert forall|i: int| 0 <= i < (whole + frac).len() implies (is_digit(
            #[trigger] (whole + frac)[i],
        ) <==> if i < whole.len() {
            is_digit(whole[i])
        } else {
            is_digit(frac[i - whole.len()])
        }) by {}
        if all_digits(whole + frac) {
            assert forall|i: int| 0 <= i < whole.len() implies is_digit(#[trigger] whole[i]) by {
                assert(whole[i] == (whole + frac)[i]);
            }
            assert forall|i: int| 0 <= i < frac.len() implies is_digit(#[trigger] frac[i]) by {
                assert(frac[i] == (whole + frac)[i + whole.len()]);
            }
            assert((whole + frac).take(whole.len() as int) =~= whole);
            lemma_extend_grows(0, whole + frac, whole.len() as int);
        }
    }
    if places > AMOUNT_PLACES_MAX || p + places == 0 {
        return None;
    }
    let head: u64 = match extend_with_digits(text, 0, p, 0) {
        Some(v) => v,
        None => {
            return None;
        },
    };
    let all: u64 = match extend_with_digits(text, start, n, head) {
        Some(v) => v,
        None => {
            return None;
        },
    };
    let mut den: u64 = 1;
    let mut k: usize = 0;
    while k < places
        invariant
            k <= places <= AMOUNT_PLACES_MAX,
            den == pow10(k as nat),
            den <= AMOUNT_DEN_MAX,
        decreases places - k,
    {
        proof {
            lemma_pow10_bounds((k + 1) as nat);
        }
        den = den * 10;
        k += 1;
    }
    Some(Ratio { num: all, den })
}

/// Reads a text of digits as a whole number.
pub fn parse_count(text: &str) -> (r: Option<u32>)
    ensures
        r == count_of(text@),
{
    let n: usize = text.unicode_len();
    if n == 0 {
        return None;
    }
    assert(text@.subrange(0, n as int) =~= text@);
    match extend_with_digits(text, 0, n, 0) {
        Some(v) => Some(v as u32),
        None => None,
    }
}

} // verus!
