//! Exact fractions used as filter thresholds.
use vstd::prelude::*;

verus! {

/// The fraction `num / den`.
#[derive(Clone, Copy, Debug, PartialEq, Eq, Structural)]
pub struct Fraction {
    pub num: u64,
    pub den: u64,
}

impl Fraction {
    /// A usable threshold has a positive denominator.
    pub open spec fn wf(self) -> bool {
        self.den > 0
    }

    pub fn new(num: u64, den: u64) -> (r: Fraction)
        requires
            den > 0,
        ensures
            r.wf(),
            r.num == num,
            r.den == den,
    {
        Fraction { num, den }
    }
}

/// `a <= b` as rational numbers.
pub open spec fn fraction_le(a: Fraction, b: Fraction) -> bool {
    a.num * b.den <= b.num * a.den
}

/// `part / whole <= f`, compared without division.
pub open spec fn ratio_within(part: nat, whole: nat, f: Fraction) -> bool {
    part * f.den <= f.num * whole
}

pub fn is_ratio_within(part: usize, whole: usize, f: Fraction) -> (r: bool)
    ensures
        r == ratio_within(part as nat, whole as nat, f),
{
    let (p, w, n, d) = (part as u128, whole as u128, f.num as u128, f.den as u128);
    proof {
        assert(p * d <= 0xffff_ffff_ffff_ffff * 0xffff_ffff_ffff_ffff) by (nonlinear_arith)
            requires p <= 0xffff_ffff_ffff_ffff, d <= 0xffff_ffff_ffff_ffff;
        assert(n * w <= 0xffff_ffff_ffff_ffff * 0xffff_ffff_ffff_ffff) by (nonlinear_arith)
            requires w <= 0xffff_ffff_ffff_ffff, n <= 0xffff_ffff_ffff_ffff;
    }
    let lhs: u128 = p * d;
    let rhs: u128 = n * w;
    lhs <= rhs
}

/// Raising the threshold never turns an acceptance into a rejection.
pub proof fn lemma_ratio_within_monotone(part: nat, whole: nat, a: Fraction, b: Fraction)
    requires
        a.wf(),
        b.wf(),
        whole > 0,
        fraction_le(a, b),
        ratio_within(part, whole, a),
    ensures
        ratio_within(part, whole, b),
{
    let (p, w, an, ad, bn, bd) = (part as int, whole as int, a.num as int, a.den as int, b.num as int, b.den as int);
    assert(p * ad * bd <= an * w * bd) by (nonlinear_arith)
        requires p * ad <= an * w, bd >= 0;
    assert(an * bd * w <= bn * ad * w) by (nonlinear_arith)
        requires an * bd <= bn * ad, w >= 0;
    assert(p * bd * ad <= bn * w * ad) by (nonlinear_arith)
        requires p * ad * bd <= an * w * bd, an * bd * w <= bn * ad * w;
    assert(p * bd <= bn * w) by (nonlinear_arith)
        requires p * bd * ad <= bn * w * ad, ad > 0;
}

pub open spec fn pow10(k: nat) -> nat
    decreases k,
{
    if k == 0 { 1 } else { 10 * pow10((k - 1) as nat) }
}

pub open spec fn is_digit(c: u8) -> bool {
    48 <= c <= 57
}

/// Reads decimal text: digits with at most one decimal point. On success the
/// value read is `num / den`, `den` being ten to the number of digits after
/// the point; `digits` counts all digits and `point` says whether a point
/// was seen.
pub open spec fn decimal_state(t: Seq<u8>) -> Option<(nat, nat, bool, nat)>
    decreases t.len(),
{
    if t.len() == 0 {
        Some((0nat, 1nat, false, 0nat))
    } else {
        match decimal_state(t.drop_last()) {
            None => None,
            Some((num, den, point, digits)) => {
                let c = t.last();
                if is_digit(c) {
                    Some((10 * num + (c - 48) as nat, if point { 10 * den } else { den }, point, digits + 1))
                } else if c == 46 && !point {
                    Some((num, den, true, digits))
                } else {
                    None
                }
            }
        }
    }
}

/// A fraction written in decimal: one to eighteen digits, at most one point,
/// and a value from zero to one.
pub open spec fn decimal_fraction(t: Seq<u8>) -> Option<(nat, nat)> {
    match decimal_state(t) {
        Some((num, den, _, digits)) => if 1 <= digits <= 18 && num <= den { Some((num, den)) } else { None },
        None => None,
    }
}

proof fn lemma_pow10_monotone(a: nat, b: nat)
    requires
        a <= b,
    ensures
        1 <= pow10(a) <= pow10(b),
    decreases b,
{
    if b > a {
        lemma_pow10_monotone(a, (b - 1) as nat);
    } else if a > 0 {
        lemma_pow10_monotone((a - 1) as nat, (a - 1) as nat);
    }
}

proof fn lemma_decimal_state_shape(t: Seq<u8>)
    ensures
        decimal_state(t) matches Some((num, den, point, digits)) ==> digits + (if point { 1nat } else { 0nat })
            == t.len() && num < pow10(digits) && 1 <= den <= pow10(digits),
    decreases t.len(),
{
    if t.len() > 0 {
        lemma_decimal_state_shape(t.drop_last());
    }
}

proof fn lemma_decimal_state_prefix(t: Seq<u8>, i: nat)
    requires
        i <= t.len(),
        decimal_state(t.take(i as int)) is None,
    ensures
        decimal_state(t) is None,
    decreases t.len(),
{
    if i == t.len() {
        assert(t.take(i as int) =~= t);
    } else {
        assert(t.drop_last().take(i as int) =~= t.take(i as int));
        lemma_decimal_state_prefix(t.drop_last(), i);
    }
}

pub fn parse_fraction(text: &[u8]) -> (r: Option<Fraction>)
    ensures
        r is Some <==> decimal_fraction(text@) is Some,
        r matches Some(f) ==> f.wf() && decimal_fraction(text@) == Some((f.num as nat, f.den as nat)),
{
    proof {
        lemma_decimal_state_shape(text@);
    }
    if text.len() > 19 {
        return None;
    }
    proof {
        reveal_with_fuel(pow10, 20);
        lemma_pow10_monotone(18, 19);
        assert(pow10(19) == 10000000000000000000nat);
    }
    let mut num: u64 = 0;
    let mut den: u64 = 1;
    let mut point: bool = false;
    let mut digits: usize = 0;
    let mut i: usize = 0;
    assert(text@.take(0) =~= Seq::<u8>::empty());
    while i < text.len()
        invariant
            text@.len() <= 19,
            pow10(19) == 10000000000000000000nat,
            digits <= i <= text@.len(),
            decimal_state(text@.take(i as int)) == Some((num as nat, den as nat, point, digits as nat)),
            num < pow10(digits as nat),
            1 <= den <= pow10(digits as nat),
        decreases text@.len() - i,
    {
        let c = text[i];
        let ghost prefix = text@.take(i as int + 1);
        assert(prefix.drop_last() =~= text@.take(i as int));
        assert(prefix.last() == c);
        if 48 <= c && c <= 57 {
            proof {
                lemma_pow10_monotone(digits as nat + 1, 19);
            }
            num = 10 * num + (c - 48) as u64;
            if point {
                den = 10 * den;
            }
            digits += 1;
        } else if c == 46 && !point {
            point = true;
        } else {
            proof {
                lemma_decimal_state_prefix(text@, i as nat + 1);
            }
            return None;
        }
        i += 1;
    }
    assert(text@.take(text@.len() as int) =~= text@);
    if 1 <= digits && digits <= 18 && num <= den {
        Some(Fraction { num, den })
    } else {
        None
    }
}

} // verus!
