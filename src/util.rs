use byteorder::{BigEndian, ByteOrder};
use vstd::prelude::*;

verus! {

/// The big-endian 16-bit integer held at `s[p]`, `s[p + 1]`.
pub open spec fn be16(s: Seq<u8>, p: int) -> int {
    s[p] as int * 256 + s[p + 1] as int
}

/// The big-endian 32-bit integer held at `s[p]` .. `s[p + 3]`.
pub open spec fn be32(s: Seq<u8>, p: int) -> int {
    ((s[p] as int * 256 + s[p + 1] as int) * 256 + s[p + 2] as int) * 256 + s[p + 3] as int
}

/// Relies on byteorder's `BigEndian::read_u16`: the first two bytes of the
/// slice, most significant first.
#[verifier::external_body]
fn be_u16_at(b: &[u8], at: usize) -> (r: u16)
    requires
        at + 2 <= b@.len(),
    ensures
        r as int == be16(b@, at as int),
{
    BigEndian::read_u16(&b[at..])
}

/// Relies on byteorder's `BigEndian::read_u32`: the first four bytes of the
/// slice, most significant first.
#[verifier::external_body]
fn be_u32_at(b: &[u8], at: usize) -> (r: u32)
    requires
        at + 4 <= b@.len(),
    ensures
        r as int == be32(b@, at as int),
{
    BigEndian::read_u32(&b[at..])
}

/// Reads the byte at `p`, if `p` lies before `end`.
pub fn read_u8(s: &[u8], p: usize, end: usize) -> (r: Option<u8>)
    requires
        end <= s@.len(),
    ensures
        r == (if p < end { Some(s@[p as int]) } else { None::<u8> }),
{
    if p < end {
        Some(s[p])
    } else {
        None
    }
}

/// Reads a big-endian 16-bit integer at `p`, if its two bytes lie before `end`.
pub fn read_u16(s: &[u8], p: usize, end: usize) -> (r: Option<u16>)
    requires
        end <= s@.len(),
    ensures
        p + 2 <= end ==> r is Some && r->0 as int == be16(s@, p as int),
        p + 2 > end ==> r is None,
{
    if p <= end && end - p >= 2 {
        Some(be_u16_at(s, p))
    } else {
        None
    }
}

/// Reads a big-endian 32-bit integer at `p`, if its four bytes lie before `end`.
pub fn read_u32(s: &[u8], p: usize, end: usize) -> (r: Option<u32>)
    requires
        end <= s@.len(),
    ensures
        p + 4 <= end ==> r is Some && r->0 as int == be32(s@, p as int),
        p + 4 > end ==> r is None,
{
    if p <= end && end - p >= 4 {
        Some(be_u32_at(s, p))
    } else {
        None
    }
}

/// Copies the bytes `s[p .. p + n]`, if they lie before `end`.
pub fn read_bytes(s: &[u8], p: usize, n: usize, end: usize) -> (r: Option<Vec<u8>>)
    requires
        end <= s@.len(),
    ensures
        p + n <= end ==> r is Some && r->0@ == s@.subrange(p as int, p + n),
        p + n > end ==> r is None,
{
    if p > end || end - p < n {
        return None;
    }
    let mut out: Vec<u8> = Vec::with_capacity(n);
    let mut i: usize = p;
    while i < p + n
        invariant
            p <= i <= p + n,
            p + n <= end <= s@.len(),
            out@ == s@.subrange(p as int, i as int),
        decreases p + n - i,
    {
        out.push(s[i]);
        i = i + 1;
        assert(out@ =~= s@.subrange(p as int, i as int));
    }
    Some(out)
}

} // verus!
