//! The two terminal-repeat detectors.
use crate::bases::{
    eq_ignoring_case, lemma_lower_of_upper, lower, reverse_complement, reverse_complement_of,
    same_ignoring_case, upper_seq,
};
use vstd::prelude::*;

verus! {

/// The leading `len` bytes of `s` equal its trailing `len` bytes, up to case.
pub open spec fn dtr_match(s: Seq<u8>, len: nat) -> bool {
    len <= s.len() && forall|j: int|
        0 <= j < len ==> #[trigger] same_ignoring_case(s[j], s[s.len() - len + j])
}

/// Longest-first search for a direct repeat among the lengths
/// `min_length ..= len`.
pub open spec fn dtr_search(s: Seq<u8>, len: nat, min_length: nat) -> (bool, nat)
    decreases len,
{
    if len < min_length {
        (false, 0)
    } else if dtr_match(s, len) {
        (true, len)
    } else if len == 0 {
        (false, 0)
    } else {
        dtr_search(s, (len - 1) as nat, min_length)
    }
}

/// The direct terminal repeat of `s`: the longest length from `min_length` to
/// half the sequence whose leading and trailing windows match.
pub open spec fn dtr_of(s: Seq<u8>, min_length: nat) -> (bool, nat) {
    if s.len() < 2 * min_length {
        (false, 0)
    } else {
        dtr_search(s, s.len() / 2, min_length)
    }
}

proof fn lemma_dtr_search_skips(s: Seq<u8>, hi: nat, lo: nat, min_length: nat)
    requires
        lo <= hi,
        forall|l: nat| lo < l <= hi ==> !#[trigger] dtr_match(s, l),
    ensures
        dtr_search(s, hi, min_length) == dtr_search(s, lo, min_length),
    decreases hi,
{
    if hi > lo {
        lemma_dtr_search_skips(s, (hi - 1) as nat, lo, min_length);
    }
}

/// `t` is `s` with the case of some of its bytes changed.
pub open spec fn differs_only_in_case(s: Seq<u8>, t: Seq<u8>) -> bool {
    s.len() == t.len() && forall|i: int| 0 <= i < s.len() ==> #[trigger] lower(s[i]) == lower(t[i])
}

proof fn lemma_dtr_match_case(s: Seq<u8>, t: Seq<u8>, len: nat)
    requires
        differs_only_in_case(s, t),
    ensures
        dtr_match(t, len) == dtr_match(s, len),
{
    if len <= s.len() {
        assert forall|j: int| 0 <= j < len implies (#[trigger] same_ignoring_case(t[j], t[t.len() - len + j])
            <==> same_ignoring_case(s[j], s[s.len() - len + j])) by {
            assert(lower(s[j]) == lower(t[j]));
            assert(lower(s[s.len() - len + j]) == lower(t[t.len() - len + j]));
        }
        if dtr_match(s, len) {
            assert forall|j: int| 0 <= j < len implies #[trigger] same_ignoring_case(t[j], t[t.len() - len + j]) by {
                assert(same_ignoring_case(s[j], s[s.len() - len + j]));
            }
        }
        if dtr_match(t, len) {
            assert forall|j: int| 0 <= j < len implies #[trigger] same_ignoring_case(s[j], s[s.len() - len + j]) by {
                assert(same_ignoring_case(t[j], t[t.len() - len + j]));
            }
        }
    }
}

proof fn lemma_dtr_search_case(s: Seq<u8>, t: Seq<u8>, len: nat, min_length: nat)
    requires
        differs_only_in_case(s, t),
    ensures
        dtr_search(t, len, min_length) == dtr_search(s, len, min_length),
    decreases len,
{
    lemma_dtr_match_case(s, t, len);
    if len > 0 {
        lemma_dtr_search_case(s, t, (len - 1) as nat, min_length);
    }
}

/// Direct repeat detection ignores case: changing the case of any bytes of a
/// sequence leaves its direct terminal repeat as it was.
pub proof fn dtr_case_insensitive(s: Seq<u8>, t: Seq<u8>, min_length: nat)
    requires
        differs_only_in_case(s, t),
    ensures
        dtr_of(t, min_length) == dtr_of(s, min_length),
{
    lemma_dtr_search_case(s, t, s.len() / 2, min_length);
}

/// In particular, a sequence and its upper-case form have the same direct
/// terminal repeat.
pub proof fn dtr_upper_case_unchanged(s: Seq<u8>, min_length: nat)
    ensures
        dtr_of(upper_seq(s), min_length) == dtr_of(s, min_length),
{
    assert forall|i: int| 0 <= i < s.len() implies #[trigger] lower(s[i]) == lower(upper_seq(s)[i]) by {
        lemma_lower_of_upper(s[i]);
    }
    dtr_case_insensitive(s, upper_seq(s), min_length);
}

pub fn find_dtr(sequence: &[u8], min_length: usize) -> (r: (bool, usize))
    requires
        min_length >= 1,
    ensures
        (r.0, r.1 as nat) == dtr_of(sequence@, min_length as nat),
        sequence@.len() < 2 * min_length ==> r == (false, 0usize),
        r.0 ==> min_length <= r.1 <= sequence@.len() / 2 && dtr_match(sequence@, r.1 as nat),
        !r.0 ==> r.1 == 0,
        forall|l: nat|
            min_length <= l <= sequence@.len() / 2 && #[trigger] dtr_match(sequence@, l) ==> r.0
                && l <= r.1,
{
    let seq_len = sequence.len();
    if seq_len / 2 < min_length {
        return (false, 0);
    }
    let mut length: usize = seq_len / 2;
    while length >= min_length
        invariant
            1 <= min_length,
            seq_len == sequence@.len(),
            seq_len >= 2 * min_length,
            min_length - 1 <= length <= seq_len / 2,
            forall|l: nat| length < l <= seq_len / 2 ==> !#[trigger] dtr_match(sequence@, l),
        decreases length,
    {
        let mut j: usize = 0;
        let mut same: bool = true;
        while j < length
            invariant
                length <= seq_len / 2,
                seq_len == sequence@.len(),
                j <= length,
                same == forall|k: int|
                    0 <= k < j ==> #[trigger] same_ignoring_case(
                        sequence@[k],
                        sequence@[seq_len - length + k],
                    ),
            decreases length - j,
        {
            let eq = eq_ignoring_case(sequence[j], sequence[seq_len - length + j]);
            same = same && eq;
            j += 1;
        }
        if same {
            proof {
                lemma_dtr_search_skips(sequence@, (seq_len / 2) as nat, length as nat, min_length as nat);
            }
            return (true, length);
        }
        length -= 1;
    }
    proof {
        lemma_dtr_search_skips(sequence@, (seq_len / 2) as nat, length as nat, min_length as nat);
    }
    (false, 0)
}

/// The leading `len` bytes of `s` and of `rc` are equal up to case.
pub open spec fn prefix_match(s: Seq<u8>, rc: Seq<u8>, len: nat) -> bool {
    len <= s.len() && len <= rc.len() && forall|j: int|
        0 <= j < len ==> #[trigger] same_ignoring_case(s[j], rc[j])
}

/// The leading `len` bytes of `s` and of `rc` are exactly equal.
pub open spec fn exact_prefix_match(s: Seq<u8>, rc: Seq<u8>, len: nat) -> bool {
    len <= s.len() && len <= rc.len() && s.take(len as int) == rc.take(len as int)
}

/// An inverted repeat is anchored when the leading `min_length` bytes of the
/// sequence equal those of its reverse complement exactly.
pub open spec fn itr_anchored(s: Seq<u8>, min_length: nat) -> bool {
    s.len() >= 2 * min_length && exact_prefix_match(s, reverse_complement_of(s), min_length)
}

/// The inverted terminal repeat of `s`: when anchored, found, with a length
/// from `min_length` to half the sequence at which the prefixes of the
/// sequence and of its reverse complement still match up to case, and past
/// which they stop matching or half the sequence is reached.
pub open spec fn is_itr_of(s: Seq<u8>, min_length: nat, r: (bool, nat)) -> bool {
    if itr_anchored(s, min_length) {
        &&& r.0
        &&& min_length <= r.1 <= s.len() / 2
        &&& prefix_match(s, reverse_complement_of(s), r.1)
        &&& r.1 < s.len() / 2 ==> !prefix_match(s, reverse_complement_of(s), r.1 + 1)
    } else {
        r == (false, 0nat)
    }
}

proof fn lemma_prefix_match_shorter(s: Seq<u8>, rc: Seq<u8>, a: nat, b: nat)
    requires
        a <= b,
        prefix_match(s, rc, b),
    ensures
        prefix_match(s, rc, a),
{
    assert forall|j: int| 0 <= j < a implies #[trigger] same_ignoring_case(s[j], rc[j]) by {
        assert(same_ignoring_case(s[j], rc[j]));
    }
}

proof fn lemma_itr_unique(s: Seq<u8>, min_length: nat, a: (bool, nat), b: (bool, nat))
    requires
        is_itr_of(s, min_length, a),
        is_itr_of(s, min_length, b),
    ensures
        a == b,
{
    if itr_anchored(s, min_length) {
        let rc = reverse_complement_of(s);
        if a.1 < b.1 {
            lemma_prefix_match_shorter(s, rc, a.1 + 1, b.1);
        } else if b.1 < a.1 {
            lemma_prefix_match_shorter(s, rc, b.1 + 1, a.1);
        }
    }
}

/// The inverted terminal repeat of `s`, the one result that `is_itr_of`
/// admits.
pub open spec fn itr_of(s: Seq<u8>, min_length: nat) -> (bool, nat) {
    choose|r: (bool, nat)| is_itr_of(s, min_length, r)
}

pub fn find_itr(sequence: &[u8], min_length: usize) -> (r: (bool, usize))
    requires
        min_length >= 1,
    ensures
        is_itr_of(sequence@, min_length as nat, (r.0, r.1 as nat)),
        (r.0, r.1 as nat) == itr_of(sequence@, min_length as nat),
        sequence@.len() < 2 * min_length ==> r == (false, 0usize),
        r.0 ==> min_length <= r.1,
        !r.0 ==> r.1 == 0,
{
    let r = find_itr_unnamed(sequence, min_length);
    proof {
        let rn = (r.0, r.1 as nat);
        let c = itr_of(sequence@, min_length as nat);
        lemma_itr_unique(sequence@, min_length as nat, rn, c);
    }
    r
}

fn find_itr_unnamed(sequence: &[u8], min_length: usize) -> (r: (bool, usize))
    requires
        min_length >= 1,
    ensures
        is_itr_of(sequence@, min_length as nat, (r.0, r.1 as nat)),
        sequence@.len() < 2 * min_length ==> r == (false, 0usize),
        r.0 ==> min_length <= r.1,
        !r.0 ==> r.1 == 0,
{
    let seq_len = sequence.len();
    let rev_complement = reverse_complement(sequence);
    if seq_len / 2 < min_length {
        return (false, 0);
    }
    let ghost s = sequence@;
    let ghost rc = rev_complement@;
    let mut k: usize = 0;
    let mut anchored: bool = true;
    while k < min_length
        invariant
            k <= min_length <= seq_len / 2,
            seq_len == s.len(),
            rc.len() == s.len(),
            s == sequence@,
            rc == rev_complement@,
            anchored == forall|j: int| 0 <= j < k ==> s[j] == rc[j],
        decreases min_length - k,
    {
        anchored = anchored && sequence[k] == rev_complement[k];
        k += 1;
    }
    if !anchored {
        proof {
            if exact_prefix_match(s, rc, min_length as nat) {
                assert forall|j: int| 0 <= j < min_length implies s[j] == rc[j] by {
                    assert(s.take(min_length as int)[j] == rc.take(min_length as int)[j]);
                }
            }
        }
        return (false, 0);
    }
    assert(s.take(min_length as int) =~= rc.take(min_length as int));
    let mut i: usize = min_length;
    while i <= seq_len / 2 && eq_ignoring_case(sequence[i - 1], rev_complement[i - 1])
        invariant
            1 <= min_length <= i <= seq_len / 2 + 1,
            seq_len == s.len(),
            rc.len() == s.len(),
            s == sequence@,
            rc == rev_complement@,
            forall|j: int| 0 <= j < min_length ==> s[j] == rc[j],
            prefix_match(s, rc, (i - 1) as nat),
        decreases seq_len / 2 + 1 - i,
    {
        i += 1;
    }
    (true, i - 1)
}

} // verus!
