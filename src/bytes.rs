use vstd::prelude::*;

verus! {

/// Strict lexicographic order of two byte strings of equal length, starting at
/// position `i`; for fixed-width big-endian values this is numeric order.
pub open spec fn lex_lt_from(a: Seq<u8>, b: Seq<u8>, i: int) -> bool
    decreases a.len() - i,
{
    if i < 0 || i >= a.len() || i >= b.len() {
        false
    } else if a[i] < b[i] {
        true
    } else if a[i] > b[i] {
        false
    } else {
        lex_lt_from(a, b, i + 1)
    }
}

/// `a` is numerically smaller than `b`, both read as unsigned big-endian numbers.
pub open spec fn lex_lt(a: Seq<u8>, b: Seq<u8>) -> bool {
    lex_lt_from(a, b, 0)
}

/// Every byte is zero.
pub open spec fn all_zero(a: Seq<u8>) -> bool {
    forall|i: int| 0 <= i < a.len() ==> a[i] == 0
}

/// Byte-wise equality of two fixed-width byte strings.
pub fn same_bytes<const N: usize>(a: &[u8; N], b: &[u8; N]) -> (r: bool)
    ensures
        r == (a@ == b@),
{
    let mut i: usize = 0;
    while i < N
        invariant
            a@.len() == N,
            b@.len() == N,
            0 <= i <= N,
            forall|j: int| 0 <= j < i ==> a@[j] == b@[j],
        decreases N - i,
    {
        if a[i] != b[i] {
            return false;
        }
        i = i + 1;
    }
    assert(a@ =~= b@);
    true
}

/// Byte-wise equality of two byte strings of any length.
pub fn same_slice(a: &[u8], b: &[u8]) -> (r: bool)
    ensures
        r == (a@ == b@),
{
    if a.len() != b.len() {
        return false;
    }
    let mut i: usize = 0;
    while i < a.len()
        invariant
            a@.len() == b@.len(),
            0 <= i <= a@.len(),
            forall|j: int| 0 <= j < i ==> a@[j] == b@[j],
        decreases a@.len() - i,
    {
        if a[i] != b[i] {
            return false;
        }
        i = i + 1;
    }
    assert(a@ =~= b@);
    true
}

/// Strict numeric comparison of two fixed-width big-endian byte strings.
pub fn bytes_lt<const N: usize>(a: &[u8; N], b: &[u8; N]) -> (r: bool)
    ensures
        r == lex_lt(a@, b@),
{
    let mut i: usize = 0;
    while i < N
        invariant
            a@.len() == N,
            b@.len() == N,
            0 <= i <= N,
            lex_lt(a@, b@) == lex_lt_from(a@, b@, i as int),
        decreases N - i,
    {
        if a[i] < b[i] {
            return true;
        }
        if a[i] > b[i] {
            return false;
        }
        i = i + 1;
    }
    false
}

/// Whether every byte is zero.
pub fn is_zero<const N: usize>(a: &[u8; N]) -> (r: bool)
    ensures
        r == all_zero(a@),
{
    let mut i: usize = 0;
    while i < N
        invariant
            a@.len() == N,
            0 <= i <= N,
            forall|j: int| 0 <= j < i ==> a@[j] == 0,
        decreases N - i,
    {
        if a[i] != 0 {
            return false;
        }
        i = i + 1;
    }
    true
}

} // verus!
