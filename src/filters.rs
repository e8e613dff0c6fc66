//! The two quality filters applied to a detected terminal repeat.
use crate::bases::{normalize, normalized};
use crate::fraction::{fraction_le, is_ratio_within, lemma_ratio_within_monotone, ratio_within, Fraction};
use vstd::prelude::*;

verus! {

/// A low-complexity mask: half-open ranges `[start, end)`, each with
/// `start <= end`, sorted ascending and non-overlapping.
pub open spec fn mask_wf(mask: Seq<(usize, usize)>) -> bool {
    &&& forall|i: int| 0 <= i < mask.len() ==> #[trigger] mask[i].0 <= mask[i].1
    &&& forall|i: int, j: int| 0 <= i < j < mask.len() ==> #[trigger] mask[i].1 <= #[trigger] mask[j].0
}

/// Masked bases inside the repeat region `[0, tr_length)`: the ranges are
/// taken in order while they start inside the region, each clamped to it.
pub open spec fn masked_in_region(mask: Seq<(usize, usize)>, tr_length: nat) -> nat
    decreases mask.len(),
{
    if mask.len() == 0 || mask[0].0 >= tr_length {
        0
    } else {
        let end = if mask[0].1 < tr_length { mask[0].1 as nat } else { tr_length };
        ((end - mask[0].0) as nat) + masked_in_region(mask.drop_first(), tr_length)
    }
}

proof fn lemma_masked_bounded(mask: Seq<(usize, usize)>, tr_length: nat, lo: nat)
    requires
        mask_wf(mask),
        forall|i: int| 0 <= i < mask.len() ==> lo <= #[trigger] mask[i].0,
    ensures
        masked_in_region(mask, tr_length) <= if lo <= tr_length { tr_length - lo } else { 0 },
    decreases mask.len(),
{
    if mask.len() > 0 && mask[0].0 < tr_length {
        let rest = mask.drop_first();
        assert forall|i: int| 0 <= i < rest.len() implies mask[0].1 <= #[trigger] rest[i].0 by {
            assert(rest[i] == mask[i + 1]);
        }
        assert(mask_wf(rest)) by {
            assert forall|i: int, j: int| 0 <= i < j < rest.len() implies #[trigger] rest[i].1 <= #[trigger] rest[j].0 by {
                assert(rest[i] == mask[i + 1] && rest[j] == mask[j + 1]);
            }
        }
        lemma_masked_bounded(rest, tr_length, mask[0].1 as nat);
    }
}

/// The repeat passes the complexity filter: the masked share of its region
/// is at most `max_fraction`.
pub open spec fn complexity_accepts(mask: Seq<(usize, usize)>, tr_length: nat, max_fraction: Fraction) -> bool {
    ratio_within(masked_in_region(mask, tr_length), tr_length, max_fraction)
}

pub fn evaluate_tr_complexity(mask: &Vec<(usize, usize)>, tr_length: usize, max_lc_frac: Fraction) -> (r: bool)
    requires
        tr_length > 0,
        mask_wf(mask@),
    ensures
        r == complexity_accepts(mask@, tr_length as nat, max_lc_frac),
{
    let ghost total = masked_in_region(mask@, tr_length as nat);
    proof {
        lemma_masked_bounded(mask@, tr_length as nat, 0);
    }
    let mut n_lc_tr: usize = 0;
    let mut k: usize = 0;
    assert(mask@.subrange(0, mask@.len() as int) =~= mask@);
    while k < mask.len() && mask[k].0 < tr_length
        invariant
            k <= mask@.len(),
            mask_wf(mask@),
            total <= tr_length,
            n_lc_tr + masked_in_region(mask@.subrange(k as int, mask@.len() as int), tr_length as nat) == total,
        decreases mask@.len() - k,
    {
        let ghost rest = mask@.subrange(k as int, mask@.len() as int);
        assert(rest.drop_first() =~= mask@.subrange(k + 1, mask@.len() as int));
        assert(rest[0] == mask@[k as int]);
        let (start, end) = mask[k];
        let clamped: usize = if end < tr_length { end } else { tr_length };
        n_lc_tr = n_lc_tr + (clamped - start);
        k += 1;
    }
    proof {
        let rest = mask@.subrange(k as int, mask@.len() as int);
        if k < mask.len() {
            assert(rest[0] == mask@[k as int]);
        }
    }
    is_ratio_within(n_lc_tr, tr_length, max_lc_frac)
}

/// Occurrences of the ambiguous base `N` among the first `n` bytes of `s`.
pub open spec fn ambiguous_count(s: Seq<u8>, n: nat) -> nat
    decreases n,
{
    if n == 0 || n > s.len() {
        0
    } else {
        ambiguous_count(s, (n - 1) as nat) + if s[n - 1] == 0x4eu8 { 1nat } else { 0nat }
    }
}

/// The repeat passes the ambiguity filter: the share of `N` among the first
/// `tr_length` bytes of the normalised sequence (all of it, if normalisation
/// left it shorter) is at most `max_fraction`.
pub open spec fn ambiguity_accepts(s: Seq<u8>, tr_length: nat, max_fraction: Fraction) -> bool {
    let norm = normalized(s);
    let n = if tr_length <= norm.len() { tr_length } else { norm.len() };
    ratio_within(ambiguous_count(norm, n), tr_length, max_fraction)
}

pub fn evaluate_ambiguous_bases(sequence: &[u8], tr_length: usize, max_ambig_frac: Fraction) -> (r: bool)
    requires
        tr_length > 0,
        tr_length <= sequence@.len(),
    ensures
        r == ambiguity_accepts(sequence@, tr_length as nat, max_ambig_frac),
{
    let norm_sequence = normalize(sequence);
    let n: usize = if tr_length <= norm_sequence.len() { tr_length } else { norm_sequence.len() };
    let mut n_ambig: usize = 0;
    let mut k: usize = 0;
    while k < n
        invariant
            k <= n <= norm_sequence@.len(),
            n_ambig == ambiguous_count(norm_sequence@, k as nat),
            n_ambig <= k,
        decreases n - k,
    {
        if norm_sequence[k] == 0x4eu8 {
            n_ambig += 1;
        }
        k += 1;
    }
    is_ratio_within(n_ambig, tr_length, max_ambig_frac)
}

/// Raising a filter's threshold can only turn a rejection into an
/// acceptance, never the reverse, for a fixed sequence, mask and repeat
/// length.
pub proof fn filter_threshold_monotone(
    sequence: Seq<u8>,
    mask: Seq<(usize, usize)>,
    tr_length: nat,
    lower_frac: Fraction,
    higher_frac: Fraction,
)
    requires
        tr_length > 0,
        lower_frac.wf(),
        higher_frac.wf(),
        fraction_le(lower_frac, higher_frac),
    ensures
        complexity_accepts(mask, tr_length, lower_frac) ==> complexity_accepts(mask, tr_length, higher_frac),
        ambiguity_accepts(sequence, tr_length, lower_frac) ==> ambiguity_accepts(sequence, tr_length, higher_frac),
{
    if complexity_accepts(mask, tr_length, lower_frac) {
        lemma_ratio_within_monotone(masked_in_region(mask, tr_length), tr_length, lower_frac, higher_frac);
    }
    if ambiguity_accepts(sequence, tr_length, lower_frac) {
        let norm = normalized(sequence);
        let n = if tr_length <= norm.len() { tr_length } else { norm.len() };
        lemma_ratio_within_monotone(ambiguous_count(norm, n), tr_length, lower_frac, higher_frac);
    }
}

} // verus!
