//! Character-level utilities shared by the buffer and the edit applier.
//! All text is held as `Vec<char>`, one entry per Unicode scalar value, so
//! column arithmetic is exact for multi-byte characters.

use vstd::prelude::*;

verus! {

/// Line-break classification: both `'\n'` and `'\r'` count as breaks.
pub open spec fn is_nl(c: char) -> bool {
    c == '\n' || c == '\r'
}

/// Executable form of `is_nl`.
pub fn is_newline(c: char) -> (r: bool)
    ensures
        r == is_nl(c),
{
    c == '\n' || c == '\r'
}

/// Number of scalar values in a line.
pub fn char_len(s: &Vec<char>) -> (n: usize)
    ensures
        n == s@.len(),
{
    s.len()
}

/// Index of the `cx`-th scalar value in the underlying storage, or `None`
/// when `cx` lies beyond the one-past-the-end position. With one storage
/// cell per scalar value the index equals `cx`; the function remains the
/// single guard deciding whether a column is addressable.
pub fn cx_to_byte_x(s: &Vec<char>, cx: usize) -> (r: Option<usize>)
    ensures
        cx <= s@.len() ==> r == Some(cx),
        cx > s@.len() ==> r is None,
{
    if cx <= s.len() {
        Some(cx)
    } else {
        None
    }
}

/// True when two lines hold the same scalar values.
pub fn chars_eq(a: &Vec<char>, b: &Vec<char>) -> (r: bool)
    ensures
        r <==> a@ == b@,
{
    if a.len() != b.len() {
        return false;
    }
    let n = a.len();
    let mut i: usize = 0;
    while i < n
        invariant
            n == a@.len(),
            n == b@.len(),
            i <= n,
            forall|k: int| 0 <= k < i ==> a@[k] == b@[k],
        decreases n - i,
    {
        if a[i] != b[i] {
            return false;
        }
        i += 1;
    }
    proof {
        assert(a@ =~= b@);
    }
    true
}

/// Copy of the suffix of `s` that starts at `from` (whole line when `from`
/// is out of range, which callers rule out).
pub fn tail_from(s: &Vec<char>, from: usize) -> (r: Vec<char>)
    requires
        from <= s@.len(),
    ensures
        r@ == s@.skip(from as int),
{
    let mut r: Vec<char> = Vec::new();
    let mut i: usize = from;
    while i < s.len()
        invariant
            from <= i <= s@.len(),
            r@ == s@.subrange(from as int, i as int),
        decreases s@.len() - i,
    {
        r.push(s[i]);
        proof {
            assert(r@ =~= s@.subrange(from as int, i + 1 as int));
        }
        i += 1;
    }
    proof {
        assert(s@.subrange(from as int, s@.len() as int) =~= s@.skip(from as int));
    }
    r
}

} // verus!
