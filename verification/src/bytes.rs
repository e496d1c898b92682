//! Byte-level helpers shared by the parsing code.
//!
//! The engine inspects the request head as raw bytes, so lowercasing,
//! whitespace trimming and searching are defined here over byte sequences.

use vstd::prelude::*;

verus! {

/// ASCII uppercase letters map to their lowercase form; all other bytes are
/// unchanged.
pub open spec fn lower_byte(b: u8) -> u8 {
    if 65 <= b <= 90 {
        (b + 32) as u8
    } else {
        b
    }
}

/// The sequence with every byte lowercased.
pub open spec fn lower(s: Seq<u8>) -> Seq<u8> {
    Seq::new(s.len(), |i: int| lower_byte(s[i]))
}

/// ASCII whitespace: tab, line feed, vertical tab, form feed, carriage
/// return, space.
pub open spec fn is_ws(b: u8) -> bool {
    b == 9 || b == 10 || b == 11 || b == 12 || b == 13 || b == 32
}

/// Lowercasing is idempotent.
pub proof fn lemma_lower_idempotent(s: Seq<u8>)
    ensures
        lower(lower(s)) == lower(s),
{
    assert(lower(lower(s)) =~= lower(s));
}

/// Lowercase one byte.
pub fn lower_byte_exec(b: u8) -> (r: u8)
    ensures
        r == lower_byte(b),
{
    if 65 <= b && b <= 90 {
        b + 32
    } else {
        b
    }
}

/// Lowercase a byte string.
pub fn to_lower(data: &[u8]) -> (r: Vec<u8>)
    ensures
        r@ == lower(data@),
{
    let mut out: Vec<u8> = Vec::new();
    let mut i: usize = 0;
    while i < data.len()
        invariant
            i <= data.len(),
            out@.len() == i,
            forall|j: int| 0 <= j < i ==> out@[j] == lower_byte(data@[j]),
        decreases data.len() - i,
    {
        out.push(lower_byte_exec(data[i]));
        i = i + 1;
    }
    assert(out@ =~= lower(data@));
    out
}

/// Is this byte ASCII whitespace?
pub fn is_ws_exec(b: u8) -> (r: bool)
    ensures
        r == is_ws(b),
{
    b == 9 || b == 10 || b == 11 || b == 12 || b == 13 || b == 32
}

/// Do two byte strings hold the same bytes?
pub fn bytes_eq(a: &[u8], b: &[u8]) -> (r: bool)
    ensures
        r == (a@ == b@),
{
    if a.len() != b.len() {
        assert(a@ != b@) by {
            assert(a@.len() != b@.len());
        }
        return false;
    }
    let mut i: usize = 0;
    while i < a.len()
        invariant
            i <= a.len(),
            a@.len() == b@.len(),
            forall|j: int| 0 <= j < i ==> a@[j] == b@[j],
        decreases a.len() - i,
    {
        if a[i] != b[i] {
            return false;
        }
        i = i + 1;
    }
    assert(a@ =~= b@);
    true
}

/// Copy the bytes `s[lo..hi]`.
pub fn copy_range(s: &[u8], lo: usize, hi: usize) -> (r: Vec<u8>)
    requires
        lo <= hi <= s@.len(),
    ensures
        r@ == s@.subrange(lo as int, hi as int),
{
    let mut out: Vec<u8> = Vec::new();
    let mut k: usize = lo;
    while k < hi
        invariant
            lo <= k <= hi <= s@.len(),
            out@.len() == k - lo,
            forall|j: int| 0 <= j < out@.len() ==> out@[j] == s@[lo + j],
        decreases hi - k,
    {
        out.push(s[k]);
        k = k + 1;
    }
    assert(out@ =~= s@.subrange(lo as int, hi as int));
    out
}

/// `i` is the position of the first occurrence of `b` in `s` at or after
/// `from`.
pub open spec fn is_first_at(s: Seq<u8>, from: int, b: u8, i: int) -> bool {
    &&& from <= i < s.len()
    &&& s[i] == b
    &&& forall|j: int| from <= j < i ==> s[j] != b
}

/// A byte has at most one first occurrence.
pub proof fn lemma_first_at_unique(s: Seq<u8>, from: int, b: u8, i: int, j: int)
    requires
        is_first_at(s, from, b, i),
        is_first_at(s, from, b, j),
    ensures
        i == j,
{
    if i < j {
        assert(s[i] != b);
    } else if j < i {
        assert(s[j] != b);
    }
}

/// Find the first occurrence of `b` in `s` at or after `from`.
pub fn find_byte_from(s: &[u8], from: usize, b: u8) -> (r: Option<usize>)
    requires
        from <= s@.len(),
    ensures
        match r {
            Some(i) => is_first_at(s@, from as int, b, i as int),
            None => forall|j: int| from <= j < s@.len() ==> s@[j] != b,
        },
{
    let mut i: usize = from;
    while i < s.len()
        invariant
            from <= i <= s@.len(),
            forall|j: int| from <= j < i ==> s@[j] != b,
        decreases s.len() - i,
    {
        if s[i] == b {
            return Some(i);
        }
        i = i + 1;
    }
    None
}

} // verus!
