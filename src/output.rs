//! What an output record carries: the sequence with its repeat trimmed and
//! the kind of repeat that was found.
use vstd::prelude::*;

verus! {

/// The kind of terminal repeat reported for a sequence.
#[derive(Clone, Copy, Debug, PartialEq, Eq, Structural)]
pub enum RepeatKind {
    Direct,
    Inverted,
    Absent,
}

/// A direct repeat is reported before an inverted one.
pub open spec fn kind_of(has_dtr: bool, has_itr: bool) -> RepeatKind {
    if has_dtr {
        RepeatKind::Direct
    } else if has_itr {
        RepeatKind::Inverted
    } else {
        RepeatKind::Absent
    }
}

pub fn repeat_kind(has_dtr: bool, has_itr: bool) -> (r: RepeatKind)
    ensures
        r == kind_of(has_dtr, has_itr),
{
    if has_dtr {
        RepeatKind::Direct
    } else if has_itr {
        RepeatKind::Inverted
    } else {
        RepeatKind::Absent
    }
}

impl RepeatKind {
    /// The label written in a record header: `dtr`, `itr` or `none`.
    pub fn label(&self) -> (r: String)
        ensures
            *self == RepeatKind::Direct ==> r@ == "dtr"@,
            *self == RepeatKind::Inverted ==> r@ == "itr"@,
            *self == RepeatKind::Absent ==> r@ == "none"@,
    {
        match self {
            RepeatKind::Direct => String::from_str("dtr"),
            RepeatKind::Inverted => String::from_str("itr"),
            RepeatKind::Absent => String::from_str("none"),
        }
    }
}

/// The sequence written out: when a repeat was found and trimming is on, its
/// copy at the end is cut off; otherwise the sequence as it is.
pub open spec fn trimmed_of(s: Seq<u8>, has_repeat: bool, tr_length: nat, disable_trimming: bool) -> Seq<u8> {
    if has_repeat && !disable_trimming {
        s.take(s.len() - tr_length)
    } else {
        s
    }
}

pub fn trimmed_sequence(
    sequence: &[u8],
    has_dtr: bool,
    has_itr: bool,
    tr_length: usize,
    disable_trimming: bool,
) -> (r: Vec<u8>)
    requires
        (has_dtr || has_itr) && !disable_trimming ==> tr_length <= sequence@.len(),
    ensures
        r@ == trimmed_of(sequence@, has_dtr || has_itr, tr_length as nat, disable_trimming),
{
    let n: usize = if (has_dtr || has_itr) && !disable_trimming {
        sequence.len() - tr_length
    } else {
        sequence.len()
    };
    let mut out: Vec<u8> = Vec::with_capacity(n);
    let mut k: usize = 0;
    while k < n
        invariant
            k <= n <= sequence@.len(),
            out@ == sequence@.take(k as int),
        decreases n - k,
    {
        out.push(sequence[k]);
        k += 1;
        assert(out@ =~= sequence@.take(k as int));
    }
    assert(sequence@.take(sequence@.len() as int) =~= sequence@);
    out
}

} // verus!
