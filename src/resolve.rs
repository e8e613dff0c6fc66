//! The policy that combines the detectors and the filters into one
//! classification per sequence.
use crate::detect::{dtr_of, find_dtr, find_itr, itr_of};
use crate::filters::{
    ambiguity_accepts, complexity_accepts, evaluate_ambiguous_bases, evaluate_tr_complexity, mask_wf,
    masked_in_region,
};
use crate::fraction::{ratio_within, Fraction};
use vstd::prelude::*;

verus! {

/// Applies at most one filter to a candidate `(has_dtr, has_itr, tr_length)`:
/// the complexity filter if it is enabled, else the ambiguity filter if that
/// one is, else none. A rejected candidate keeps its length but loses its
/// flag. A candidate of length zero (nothing found) is not filtered.
pub open spec fn filtered(
    sequence: Seq<u8>,
    mask: Seq<(usize, usize)>,
    candidate: (bool, bool, nat),
    ignore_low_complexity: bool,
    max_low_complexity_frac: Fraction,
    ignore_ambiguous: bool,
    max_ambiguous_frac: Fraction,
) -> (bool, bool, nat) {
    let t = candidate.2;
    if t > 0 && ignore_low_complexity {
        if complexity_accepts(mask, t, max_low_complexity_frac) { candidate } else { (false, false, t) }
    } else if t > 0 && ignore_ambiguous {
        if ambiguity_accepts(sequence, t, max_ambiguous_frac) { candidate } else { (false, false, t) }
    } else {
        candidate
    }
}

/// The classification of a sequence: the direct repeat is tried first unless
/// disabled, and decides alone when found or when inverted repeats are not
/// looked for; otherwise the inverted repeat is tried when enabled.
pub open spec fn repeats_of(
    sequence: Seq<u8>,
    mask: Seq<(usize, usize)>,
    min_length: nat,
    disable_dtr_identification: bool,
    enable_itr_identification: bool,
    ignore_low_complexity: bool,
    max_low_complexity_frac: Fraction,
    ignore_ambiguous: bool,
    max_ambiguous_frac: Fraction,
) -> (bool, bool, nat) {
    let dtr = dtr_of(sequence, min_length);
    let itr = itr_of(sequence, min_length);
    if !disable_dtr_identification && (dtr.0 || !enable_itr_identification) {
        filtered(sequence, mask, (dtr.0, false, dtr.1), ignore_low_complexity, max_low_complexity_frac,
            ignore_ambiguous, max_ambiguous_frac)
    } else if enable_itr_identification {
        filtered(sequence, mask, (false, itr.0, itr.1), ignore_low_complexity, max_low_complexity_frac,
            ignore_ambiguous, max_ambiguous_frac)
    } else {
        (false, false, 0)
    }
}

/// Whatever the sequence and the configuration, the classification never
/// reports a direct and an inverted repeat together.
pub proof fn at_most_one_repeat_kind(
    sequence: Seq<u8>,
    mask: Seq<(usize, usize)>,
    min_length: nat,
    disable_dtr_identification: bool,
    enable_itr_identification: bool,
    ignore_low_complexity: bool,
    max_low_complexity_frac: Fraction,
    ignore_ambiguous: bool,
    max_ambiguous_frac: Fraction,
)
    ensures
        ({
            let r = repeats_of(sequence, mask, min_length, disable_dtr_identification, enable_itr_identification,
                ignore_low_complexity, max_low_complexity_frac, ignore_ambiguous, max_ambiguous_frac);
            !(r.0 && r.1)
        }),
{
}

/// A direct repeat of length ten with six masked bases is rejected by the
/// complexity filter at a threshold of one half, and the classification still
/// reports the rejected length.
pub proof fn low_complexity_repeat_rejected(
    sequence: Seq<u8>,
    mask: Seq<(usize, usize)>,
    min_length: nat,
    enable_itr_identification: bool,
    max_low_complexity_frac: Fraction,
    ignore_ambiguous: bool,
    max_ambiguous_frac: Fraction,
)
    requires
        dtr_of(sequence, min_length) == (true, 10nat),
        masked_in_region(mask, 10) == 6,
        max_low_complexity_frac.wf(),
        2 * max_low_complexity_frac.num == max_low_complexity_frac.den,
    ensures
        repeats_of(sequence, mask, min_length, false, enable_itr_identification, true, max_low_complexity_frac,
            ignore_ambiguous, max_ambiguous_frac) == (false, false, 10nat),
{
    assert(!ratio_within(6, 10, max_low_complexity_frac));
}

fn apply_filters(
    sequence: &[u8],
    mask: &Vec<(usize, usize)>,
    candidate: (bool, bool, usize),
    ignore_low_complexity: bool,
    max_low_complexity_frac: Fraction,
    ignore_ambiguous: bool,
    max_ambiguous_frac: Fraction,
) -> (r: (bool, bool, usize))
    requires
        mask_wf(mask@),
        candidate.2 <= sequence@.len(),
    ensures
        (r.0, r.1, r.2 as nat) == filtered(sequence@, mask@, (candidate.0, candidate.1, candidate.2 as nat),
            ignore_low_complexity, max_low_complexity_frac, ignore_ambiguous, max_ambiguous_frac),
{
    let tr_length = candidate.2;
    if tr_length > 0 && ignore_low_complexity {
        if evaluate_tr_complexity(mask, tr_length, max_low_complexity_frac) {
            candidate
        } else {
            (false, false, tr_length)
        }
    } else if tr_length > 0 && ignore_ambiguous {
        if evaluate_ambiguous_bases(sequence, tr_length, max_ambiguous_frac) {
            candidate
        } else {
            (false, false, tr_length)
        }
    } else {
        candidate
    }
}

/// Classifies `sequence` as carrying a direct terminal repeat, an inverted
/// terminal repeat, or neither, with the repeat's length. `mask` is the
/// sequence's low-complexity mask, read only by the complexity filter.
pub fn find_repeats(
    sequence: &[u8],
    mask: &Vec<(usize, usize)>,
    min_length: usize,
    disable_dtr_identification: bool,
    enable_itr_identification: bool,
    ignore_low_complexity: bool,
    max_low_complexity_frac: Fraction,
    ignore_ambiguous: bool,
    max_ambiguous_frac: Fraction,
) -> (r: (bool, bool, usize))
    requires
        min_length >= 1,
        mask_wf(mask@),
    ensures
        (r.0, r.1, r.2 as nat) == repeats_of(sequence@, mask@, min_length as nat, disable_dtr_identification,
            enable_itr_identification, ignore_low_complexity, max_low_complexity_frac, ignore_ambiguous,
            max_ambiguous_frac),
        !(r.0 && r.1),
        sequence@.len() < 2 * min_length ==> r == (false, false, 0usize),
{
    if !disable_dtr_identification {
        let (has_dtr, tr_length) = find_dtr(sequence, min_length);
        if has_dtr || !enable_itr_identification {
            return apply_filters(sequence, mask, (has_dtr, false, tr_length), ignore_low_complexity,
                max_low_complexity_frac, ignore_ambiguous, max_ambiguous_frac);
        }
    }
    if enable_itr_identification {
        let (has_itr, tr_length) = find_itr(sequence, min_length);
        return apply_filters(sequence, mask, (false, has_itr, tr_length), ignore_low_complexity,
            max_low_complexity_frac, ignore_ambiguous, max_ambiguous_frac);
    }
    (false, false, 0)
}

} // verus!
