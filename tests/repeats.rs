use trimtr::detect::{find_dtr, find_itr};
use trimtr::filters::{evaluate_ambiguous_bases, evaluate_tr_complexity};
use trimtr::fraction::{is_ratio_within, Fraction};
use trimtr::output::trimmed_sequence;
use trimtr::resolve::find_repeats;

fn half() -> Fraction {
    Fraction::new(1, 2)
}

fn no_mask() -> Vec<(usize, usize)> {
    Vec::new()
}

#[test]
fn scenario_a_direct_repeat() {
    let s = b"ACGTACGT";
    assert_eq!(find_dtr(s, 4), (true, 4));
    let r = find_repeats(s, &no_mask(), 4, false, false, false, half(), false, half());
    assert_eq!(r, (true, false, 4));
}

#[test]
fn scenario_b_direct_repeat_around_ambiguous_interior() {
    let mut s = b"ACGT".to_vec();
    s.extend(std::iter::repeat(b'N').take(20));
    s.extend_from_slice(b"ACGT");
    assert_eq!(s.len(), 28);
    assert_eq!(find_dtr(&s, 4), (true, 4));
    let r = find_repeats(&s, &no_mask(), 4, false, false, false, half(), false, half());
    assert_eq!(r, (true, false, 4));
}

#[test]
fn scenario_c_self_complementary() {
    // Four bases cannot hold two repeats of length four.
    assert_eq!(find_itr(b"ACGT", 4), (false, 0));
    // With a shorter minimum the extension runs up to half the sequence.
    assert_eq!(find_itr(b"ACGT", 2), (true, 2));
    let r = find_repeats(b"ACGT", &no_mask(), 2, true, true, false, half(), false, half());
    assert_eq!(r, (false, true, 2));
}

#[test]
fn scenario_d_low_complexity_rejects() {
    let s = b"ACGTTGCAACGGGACGTTGCAAC";
    assert_eq!(find_dtr(s, 4), (true, 10));
    let mask = vec![(0usize, 6usize)];
    assert!(!evaluate_tr_complexity(&mask, 10, half()));
    let r = find_repeats(s, &mask, 4, false, false, true, half(), false, half());
    assert_eq!(r, (false, false, 10));
    let mask = vec![(0usize, 5usize)];
    let r = find_repeats(s, &mask, 4, false, false, true, half(), false, half());
    assert_eq!(r, (true, false, 10));
}

#[test]
fn scenario_e_short_sequence_all_flags() {
    let r = find_repeats(b"ACGTACG", &no_mask(), 4, false, true, true, half(), true, half());
    assert_eq!(r, (false, false, 0));
}

#[test]
fn short_sequences_find_nothing() {
    assert_eq!(find_dtr(b"ACGTACG", 4), (false, 0));
    assert_eq!(find_itr(b"ACGTACG", 4), (false, 0));
    assert_eq!(find_dtr(b"", 1), (false, 0));
    assert_eq!(find_itr(b"", 1), (false, 0));
}

#[test]
fn direct_repeat_ignores_case() {
    assert_eq!(find_dtr(b"acgtACGT", 4), (true, 4));
    assert_eq!(find_dtr(b"acgtACGT", 4), find_dtr(b"ACGTACGT", 4));
    assert_eq!(find_dtr(b"AcGtTTaCgT", 4), (true, 4));
}

#[test]
fn direct_repeat_is_longest() {
    assert_eq!(find_dtr(b"AAAAAAAA", 2), (true, 4));
    assert_eq!(find_dtr(b"AAAAAAAAA", 2), (true, 4));
    assert_eq!(find_dtr(b"ACGTTTTTTTTAC", 2), (true, 2));
    assert_eq!(find_dtr(b"ACGTTTTTTTTGA", 2), (false, 0));
}

#[test]
fn inverted_repeat_at_least_minimum() {
    assert_eq!(find_itr(b"ACGTTTTTACGT", 2), (true, 4));
    assert_eq!(find_itr(b"ACGTTTTTACGT", 4), (true, 4));
    assert_eq!(find_itr(b"ACGTTTTTACGA", 2), (false, 0));
}

#[test]
fn inverted_repeat_uses_reverse_complement() {
    // Reverse complement: AGGAAACCCT.
    assert_eq!(find_itr(b"AGGGTTTCCT", 2), (true, 3));
}

#[test]
fn inverted_repeat_anchor_is_case_sensitive() {
    // The reverse complement keeps the case of each base, so an anchor
    // written in mixed case does not match.
    assert_eq!(find_itr(b"acTTTTTTGT", 2), (false, 0));
    assert_eq!(find_itr(b"acTTTTTTgt", 2), (true, 2));
}

#[test]
fn complexity_filter_is_deterministic() {
    let mask = vec![(2usize, 4usize), (6usize, 20usize)];
    let a = evaluate_tr_complexity(&mask, 10, half());
    let b = evaluate_tr_complexity(&mask, 10, half());
    assert_eq!(a, b);
    assert!(!a);
}

#[test]
fn complexity_counts_clamped_ranges() {
    let mask = vec![(2usize, 4usize), (6usize, 20usize), (30usize, 40usize)];
    // 2 + 4 = 6 masked bases of 10.
    assert!(evaluate_tr_complexity(&mask, 10, Fraction::new(6, 10)));
    assert!(!evaluate_tr_complexity(&mask, 10, Fraction::new(59, 100)));
    assert!(evaluate_tr_complexity(&no_mask(), 10, Fraction::new(0, 1)));
}

#[test]
fn filters_are_monotone_in_threshold() {
    let mask = vec![(0usize, 6usize)];
    let steps = [(0u64, 1u64), (1, 2), (3, 5), (7, 10), (1, 1)];
    let got: Vec<bool> = steps
        .iter()
        .map(|&(n, d)| evaluate_tr_complexity(&mask, 10, Fraction::new(n, d)))
        .collect();
    assert_eq!(got, vec![false, false, true, true, true]);
    let ambig: Vec<bool> = steps
        .iter()
        .map(|&(n, d)| evaluate_ambiguous_bases(b"NNNNNNACGT", 10, Fraction::new(n, d)))
        .collect();
    assert_eq!(ambig, vec![false, false, true, true, true]);
}

#[test]
fn ambiguity_counts_normalised_bases() {
    // R becomes N once normalised: two of four.
    assert!(evaluate_ambiguous_bases(b"ACRN", 4, half()));
    // Lower-case n and the IUPAC code R both count: three of four.
    assert!(!evaluate_ambiguous_bases(b"nCRN", 4, half()));
    // Only the repeat region is read.
    assert!(evaluate_ambiguous_bases(b"ACGTNNNN", 4, Fraction::new(0, 1)));
}

#[test]
fn ambiguity_filter_rejects_repeat() {
    let s = b"NNNNACGTNNNN";
    let r = find_repeats(s, &no_mask(), 4, false, false, false, half(), true, half());
    assert_eq!(r, (false, false, 4));
    let r = find_repeats(s, &no_mask(), 4, false, false, false, half(), false, half());
    assert_eq!(r, (true, false, 4));
}

#[test]
fn complexity_filter_takes_precedence() {
    let s = b"NNNNACGTNNNN";
    let r = find_repeats(s, &no_mask(), 4, false, false, true, half(), true, half());
    assert_eq!(r, (true, false, 4));
}

#[test]
fn inverted_repeat_tried_after_missing_direct_repeat() {
    // Reverse complement: AGGTAAAAACCT; the ends do not repeat directly.
    let s = b"AGGTTTTTACCT";
    assert_eq!(find_dtr(s, 2), (false, 0));
    let r = find_repeats(s, &no_mask(), 2, false, true, false, half(), false, half());
    assert_eq!(r, (false, true, 4));
    let r = find_repeats(s, &no_mask(), 2, true, false, false, half(), false, half());
    assert_eq!(r, (false, false, 0));
    let r = find_repeats(b"ACGTAAACGT", &no_mask(), 2, false, true, false, half(), false, half());
    assert_eq!(r, (true, false, 4));
}

#[test]
fn at_most_one_repeat_kind() {
    let seqs: [&[u8]; 4] = [b"ACGTACGT", b"ACGTTTTTACGT", b"ACGT", b"NNNNACGTNNNN"];
    for s in seqs {
        for flags in 0u32..32 {
            let bit = |k: u32| flags & (1 << k) != 0;
            let r = find_repeats(s, &no_mask(), 2, bit(0), bit(1), bit(2), half(), bit(3), half());
            assert!(!(r.0 && r.1));
        }
    }
}

#[test]
fn ratio_comparison_is_exact() {
    assert!(is_ratio_within(1, 2, half()));
    assert!(!is_ratio_within(2, 3, half()));
    assert!(is_ratio_within(usize::MAX, usize::MAX, Fraction::new(u64::MAX, u64::MAX)));
}

#[test]
fn trimming_disabled_accepts_any_length() {
    assert_eq!(
        trimmed_sequence(b"ACGT", true, false, 10, true),
        b"ACGT".to_vec()
    );
}
