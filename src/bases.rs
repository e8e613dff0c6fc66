//! Byte-level views of nucleotide symbols: ASCII case folding, base
//! complementation and normalisation.
use needletail::Sequence;
use vstd::prelude::*;

verus! {

/// ASCII lower case of a byte; other bytes are unchanged.
pub open spec fn lower(b: u8) -> u8 {
    if 65 <= b && b <= 90 {
        (b + 32) as u8
    } else {
        b
    }
}

/// ASCII upper case of a byte; other bytes are unchanged.
pub open spec fn upper(b: u8) -> u8 {
    if 97 <= b && b <= 122 {
        (b - 32) as u8
    } else {
        b
    }
}

/// The ASCII upper-case form of a whole sequence.
pub open spec fn upper_seq(s: Seq<u8>) -> Seq<u8> {
    s.map_values(|b: u8| upper(b))
}

/// Two bytes are equal up to ASCII case.
pub open spec fn same_ignoring_case(a: u8, b: u8) -> bool {
    lower(a) == lower(b)
}

pub proof fn lemma_lower_of_upper(b: u8)
    ensures
        lower(upper(b)) == lower(b),
{
}

pub fn eq_ignoring_case(a: u8, b: u8) -> (r: bool)
    ensures
        r == same_ignoring_case(a, b),
{
    let la: u8 = if 65 <= a && a <= 90 { a + 32 } else { a };
    let lb: u8 = if 65 <= b && b <= 90 { b + 32 } else { b };
    la == lb
}

/// The base that pairs with `n`, IUPAC codes included; other bytes pass
/// through unchanged.
pub open spec fn complement_base(n: u8) -> u8 {
    match n {
        0x61u8 => 0x74u8, // a -> t
        0x41u8 => 0x54u8, // A -> T
        0x63u8 => 0x67u8, // c -> g
        0x43u8 => 0x47u8, // C -> G
        0x67u8 => 0x63u8, // g -> c
        0x47u8 => 0x43u8, // G -> C
        0x74u8 => 0x61u8, // t -> a
        0x54u8 => 0x41u8, // T -> A
        0x72u8 => 0x79u8, // r -> y
        0x79u8 => 0x72u8, // y -> r
        0x6bu8 => 0x6du8, // k -> m
        0x6du8 => 0x6bu8, // m -> k
        0x62u8 => 0x76u8, // b -> v
        0x76u8 => 0x62u8, // v -> b
        0x64u8 => 0x68u8, // d -> h
        0x68u8 => 0x64u8, // h -> d
        0x52u8 => 0x59u8, // R -> Y
        0x59u8 => 0x52u8, // Y -> R
        0x4bu8 => 0x4du8, // K -> M
        0x4du8 => 0x4bu8, // M -> K
        0x42u8 => 0x56u8, // B -> V
        0x56u8 => 0x42u8, // V -> B
        0x44u8 => 0x48u8, // D -> H
        0x48u8 => 0x44u8, // H -> D
        _ => n, // s, w, S, W and everything else map to themselves
    }
}

/// The reverse complement: the sequence reversed, each base complemented.
pub open spec fn reverse_complement_of(s: Seq<u8>) -> Seq<u8> {
    Seq::new(s.len(), |i: int| complement_base(s[s.len() - 1 - i]))
}

/// What normalisation makes of one byte (IUPAC codes collapsed to `N`);
/// `None` for whitespace, which is dropped.
pub open spec fn normalized_base(n: u8) -> Option<u8> {
    if n == 0x41u8 || n == 0x43u8 || n == 0x47u8 || n == 0x54u8 || n == 0x4eu8 || n == 0x2du8 {
        Some(n)
    } else if n == 0x61u8 {
        Some(0x41u8)
    } else if n == 0x63u8 {
        Some(0x43u8)
    } else if n == 0x67u8 {
        Some(0x47u8)
    } else if n == 0x74u8 || n == 0x75u8 || n == 0x55u8 {
        Some(0x54u8)
    } else if n == 0x2eu8 || n == 0x7eu8 {
        Some(0x2du8)
    } else if n == 0x20u8 || n == 0x09u8 || n == 0x0du8 || n == 0x0au8 {
        None
    } else {
        Some(0x4eu8)
    }
}

/// The normalised form of a sequence: each byte mapped by `normalized_base`,
/// whitespace removed.
pub open spec fn normalized(s: Seq<u8>) -> Seq<u8>
    decreases s.len(),
{
    if s.len() == 0 {
        Seq::empty()
    } else {
        let rest = normalized(s.drop_last());
        match normalized_base(s.last()) {
            Some(c) => rest.push(c),
            None => rest,
        }
    }
}

/// Relies on needletail's `Sequence::reverse_complement` for byte slices:
/// the bytes in reverse order, each mapped by `needletail::sequence::complement`.
#[verifier::external_body]
pub(crate) fn reverse_complement(s: &[u8]) -> (r: Vec<u8>)
    ensures
        r@ == reverse_complement_of(s@),
{
    s.reverse_complement()
}

/// Relies on needletail's `Sequence::normalize(false)` for byte slices, which
/// maps each byte as `needletail::sequence::normalize` does and drops
/// whitespace.
#[verifier::external_body]
pub(crate) fn normalize(s: &[u8]) -> (r: Vec<u8>)
    ensures
        r@ == normalized(s@),
{
    s.normalize(false).into_owned()
}

} // verus!
