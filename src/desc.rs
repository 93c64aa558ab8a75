use crate::err::BrushError;
use crate::util::{be32, read_u32};
use vstd::prelude::*;

verus! {

/// Type tag of a 32-bit integer: `long`.
pub const TAG_LONG: u32 = 0x6c6f_6e67;
/// Type tag of an 8-byte real: `doub`.
pub const TAG_DOUB: u32 = 0x646f_7562;
/// Type tag of a one-byte boolean: `bool`.
pub const TAG_BOOL: u32 = 0x626f_6f6c;
/// Type tag of a string of 16-bit code units, count first: `TEXT`.
pub const TAG_TEXT: u32 = 0x5445_5854;
/// Type tag of a raw byte blob, length first: `tdta`.
pub const TAG_TDTA: u32 = 0x7464_7461;
/// Type tag of a nested object: `Objc`.
pub const TAG_OBJC: u32 = 0x4f62_6a63;
/// Type tag of a list of typed values, count first: `VlLs`.
pub const TAG_VLLS: u32 = 0x566c_4c73;

/// How deep objects and lists may nest inside a brush descriptor.
pub const MAX_DEPTH: usize = 32;

/// `Ok` of the position `n` bytes after `p`, if that lies within `end`.
pub open spec fn fixed(p: int, n: int, end: int) -> Result<int, BrushError> {
    if p + n > end {
        Err(BrushError::Truncated)
    } else {
        Ok(p + n)
    }
}

/// Where an identifier at `p` ends: a 32-bit length, then that many bytes,
/// or four bytes where the length is zero.
pub open spec fn id_end(s: Seq<u8>, p: int, end: int) -> Result<int, BrushError> {
    if p + 4 > end {
        Err(BrushError::Truncated)
    } else if be32(s, p) == 0 {
        fixed(p + 4, 4, end)
    } else {
        fixed(p + 4, be32(s, p), end)
    }
}

/// Where a value of type `tag` that starts at `p` ends, with at most `depth`
/// levels of nesting inside it.
pub open spec fn value_end(s: Seq<u8>, p: int, end: int, tag: u32, depth: nat) -> Result<int, BrushError>
    decreases depth, 0nat,
{
    if tag == TAG_LONG {
        fixed(p, 4, end)
    } else if tag == TAG_DOUB {
        fixed(p, 8, end)
    } else if tag == TAG_BOOL {
        fixed(p, 1, end)
    } else if tag == TAG_TEXT || tag == TAG_TDTA {
        if p + 4 > end {
            Err(BrushError::Truncated)
        } else if tag == TAG_TEXT {
            fixed(p + 4, 2 * be32(s, p), end)
        } else {
            fixed(p + 4, be32(s, p), end)
        }
    } else if tag == TAG_OBJC || tag == TAG_VLLS {
        if depth == 0 {
            Err(BrushError::TooDeep)
        } else if tag == TAG_OBJC {
            object_end(s, p, end, (depth - 1) as nat)
        } else if p + 4 > end {
            Err(BrushError::Truncated)
        } else {
            items_end(s, p + 4, end, be32(s, p) as nat, (depth - 1) as nat)
        }
    } else {
        Err(BrushError::UnknownType(tag))
    }
}

/// Where `count` list items (each a type tag and a value) that start at `p` end.
pub open spec fn items_end(s: Seq<u8>, p: int, end: int, count: nat, depth: nat) -> Result<int, BrushError>
    decreases depth, count + 1,
{
    if count == 0 {
        Ok(p)
    } else if p + 4 > end {
        Err(BrushError::Truncated)
    } else {
        match value_end(s, p + 4, end, be32(s, p) as u32, depth) {
            Ok(v) => items_end(s, v, end, (count - 1) as nat, depth),
            Err(e) => Err(e),
        }
    }
}

/// Where `count` fields (each a key identifier, a type tag and a value) that
/// start at `p` end.
pub open spec fn fields_end(s: Seq<u8>, p: int, end: int, count: nat, depth: nat) -> Result<int, BrushError>
    decreases depth, count + 1,
{
    if count == 0 {
        Ok(p)
    } else {
        match id_end(s, p, end) {
            Ok(k) => if k + 4 > end {
                Err(BrushError::Truncated)
            } else {
                match value_end(s, k + 4, end, be32(s, k) as u32, depth) {
                    Ok(v) => fields_end(s, v, end, (count - 1) as nat, depth),
                    Err(e) => Err(e),
                }
            },
            Err(e) => Err(e),
        }
    }
}

/// Where the header of an object at `p` ends (a class name of 32-bit length,
/// a class identifier, a 32-bit field count), and its field count.
pub open spec fn object_head(s: Seq<u8>, p: int, end: int) -> Result<(int, nat), BrushError> {
    if p + 4 > end {
        Err(BrushError::Truncated)
    } else {
        match fixed(p + 4, be32(s, p), end) {
            Ok(c) => match id_end(s, c, end) {
                Ok(f) => if f + 4 > end {
                    Err(BrushError::Truncated)
                } else {
                    Ok((f + 4, be32(s, f) as nat))
                },
                Err(e) => Err(e),
            },
            Err(e) => Err(e),
        }
    }
}

/// Where an object that starts at `p` ends.
pub open spec fn object_end(s: Seq<u8>, p: int, end: int, depth: nat) -> Result<int, BrushError>
    decreases depth, 0x1_0000_0001nat,
{
    match object_head(s, p, end) {
        Ok((f, n)) => if n < 0x1_0000_0000 {
            fields_end(s, f, end, n, depth)
        } else {
            Err(BrushError::Truncated)
        },
        Err(e) => Err(e),
    }
}

/// The first of `count` fields from `p` on whose key is the four bytes of
/// `key`: its type tag and where its value starts; the fields before it are
/// skipped.
pub open spec fn find_in(s: Seq<u8>, p: int, end: int, count: nat, key: u32, depth: nat) -> Result<
    Option<(u32, int)>,
    BrushError,
>
    decreases count,
{
    if count == 0 {
        Ok(None)
    } else {
        match id_end(s, p, end) {
            Ok(k) => if k + 4 > end {
                Err(BrushError::Truncated)
            } else if be32(s, p) == 0 && be32(s, p + 4) == key {
                Ok(Some((be32(s, k) as u32, k + 4)))
            } else {
                match value_end(s, k + 4, end, be32(s, k) as u32, depth) {
                    Ok(v) => find_in(s, v, end, (count - 1) as nat, key, depth),
                    Err(e) => Err(e),
                }
            },
            Err(e) => Err(e),
        }
    }
}

/// The field named `key` of the object at `p`.
pub open spec fn find(s: Seq<u8>, p: int, end: int, key: u32, depth: nat) -> Result<Option<(u32, int)>, BrushError> {
    match object_head(s, p, end) {
        Ok((f, n)) => find_in(s, f, end, n, key, depth),
        Err(e) => Err(e),
    }
}

/// An executable position result is the one a spec position result gives.
pub open spec fn agrees(r: Result<usize, BrushError>, m: Result<int, BrushError>) -> bool {
    match (r, m) {
        (Ok(a), Ok(b)) => a as int == b,
        (Err(a), Err(b)) => a == b,
        _ => false,
    }
}

fn fixed_exec(p: usize, n: u64, end: usize) -> (r: Result<usize, BrushError>)
    requires
        p <= end,
    ensures
        agrees(r, fixed(p as int, n as int, end as int)),
{
    if n > (end - p) as u64 {
        Err(BrushError::Truncated)
    } else {
        Ok(p + n as usize)
    }
}

fn id_end_exec(s: &[u8], p: usize, end: usize) -> (r: Result<usize, BrushError>)
    requires
        p <= end <= s@.len(),
    ensures
        agrees(r, id_end(s@, p as int, end as int)),
{
    match read_u32(s, p, end) {
        None => Err(BrushError::Truncated),
        Some(n) => if n == 0 {
            fixed_exec(p + 4, 4, end)
        } else {
            fixed_exec(p + 4, n as u64, end)
        },
    }
}

fn value_end_exec(s: &[u8], p: usize, end: usize, tag: u32, depth: usize) -> (r: Result<usize, BrushError>)
    requires
        p <= end <= s@.len(),
    ensures
        agrees(r, value_end(s@, p as int, end as int, tag, depth as nat)),
    decreases depth, 0nat,
{
    if tag == TAG_LONG {
        fixed_exec(p, 4, end)
    } else if tag == TAG_DOUB {
        fixed_exec(p, 8, end)
    } else if tag == TAG_BOOL {
        fixed_exec(p, 1, end)
    } else if tag == TAG_TEXT || tag == TAG_TDTA {
        match read_u32(s, p, end) {
            None => Err(BrushError::Truncated),
            Some(n) => if tag == TAG_TEXT {
                fixed_exec(p + 4, 2 * (n as u64), end)
            } else {
                fixed_exec(p + 4, n as u64, end)
            },
        }
    } else if tag == TAG_OBJC || tag == TAG_VLLS {
        if depth == 0 {
            Err(BrushError::TooDeep)
        } else if tag == TAG_OBJC {
            object_end_exec(s, p, end, depth - 1)
        } else {
            match read_u32(s, p, end) {
                None => Err(BrushError::Truncated),
                Some(n) => items_end_exec(s, p + 4, end, n, depth - 1),
            }
        }
    } else {
        Err(BrushError::UnknownType(tag))
    }
}

fn items_end_exec(s: &[u8], p: usize, end: usize, count: u32, depth: usize) -> (r: Result<usize, BrushError>)
    requires
        p <= end <= s@.len(),
    ensures
        agrees(r, items_end(s@, p as int, end as int, count as nat, depth as nat)),
    decreases depth, 1nat,
{
    let mut q: usize = p;
    let mut left: u32 = count;
    while left > 0
        invariant
            q <= end <= s@.len(),
            items_end(s@, p as int, end as int, count as nat, depth as nat) == items_end(
                s@,
                q as int,
                end as int,
                left as nat,
                depth as nat,
            ),
        decreases left,
    {
        let tag: u32 = match read_u32(s, q, end) {
            None => {
                return Err(BrushError::Truncated);
            },
            Some(t) => t,
        };
        match value_end_exec(s, q + 4, end, tag, depth) {
            Ok(v) => {
                proof {
                    lemma_value_end_within(s@, (q + 4) as int, end as int, tag, depth as nat);
                }
                q = v;
            },
            Err(e) => {
                return Err(e);
            },
        }
        left = left - 1;
    }
    Ok(q)
}

fn fields_end_exec(s: &[u8], p: usize, end: usize, count: u32, depth: usize) -> (r: Result<usize, BrushError>)
    requires
        p <= end <= s@.len(),
    ensures
        agrees(r, fields_end(s@, p as int, end as int, count as nat, depth as nat)),
    decreases depth, 1nat,
{
    let mut q: usize = p;
    let mut left: u32 = count;
    while left > 0
        invariant
            q <= end <= s@.len(),
            fields_end(s@, p as int, end as int, count as nat, depth as nat) == fields_end(
                s@,
                q as int,
                end as int,
                left as nat,
                depth as nat,
            ),
        decreases left,
    {
        let k: usize = match id_end_exec(s, q, end) {
            Err(e) => {
                return Err(e);
            },
            Ok(k) => k,
        };
        let tag: u32 = match read_u32(s, k, end) {
            None => {
                return Err(BrushError::Truncated);
            },
            Some(t) => t,
        };
        match value_end_exec(s, k + 4, end, tag, depth) {
            Ok(v) => {
                proof {
                    lemma_value_end_within(s@, (k + 4) as int, end as int, tag, depth as nat);
                }
                q = v;
            },
            Err(e) => {
                return Err(e);
            },
        }
        left = left - 1;
    }
    Ok(q)
}

fn object_head_exec(s: &[u8], p: usize, end: usize) -> (r: Result<(usize, u32), BrushError>)
    requires
        p <= end <= s@.len(),
    ensures
        match object_head(s@, p as int, end as int) {
            Ok((f, n)) => r is Ok && r.unwrap().0 == f && r.unwrap().1 == n && f <= end,
            Err(e) => r == Err::<(usize, u32), BrushError>(e),
        },
{
    let n: u32 = match read_u32(s, p, end) {
        None => {
            return Err(BrushError::Truncated);
        },
        Some(n) => n,
    };
    let c: usize = match fixed_exec(p + 4, n as u64, end) {
        Err(e) => {
            return Err(e);
        },
        Ok(c) => c,
    };
    let f: usize = match id_end_exec(s, c, end) {
        Err(e) => {
            return Err(e);
        },
        Ok(f) => f,
    };
    match read_u32(s, f, end) {
        None => Err(BrushError::Truncated),
        Some(count) => Ok((f + 4, count)),
    }
}

pub fn object_end_exec(s: &[u8], p: usize, end: usize, depth: usize) -> (r: Result<usize, BrushError>)
    requires
        p <= end <= s@.len(),
    ensures
        agrees(r, object_end(s@, p as int, end as int, depth as nat)),
    decreases depth, 2nat,
{
    match object_head_exec(s, p, end) {
        Ok((f, n)) => fields_end_exec(s, f, end, n, depth),
        Err(e) => Err(e),
    }
}

/// A value that ends, ends within the data.
proof fn lemma_value_end_within(s: Seq<u8>, p: int, end: int, tag: u32, depth: nat)
    requires
        p <= end,
        value_end(s, p, end, tag, depth) is Ok,
    ensures
        p <= value_end(s, p, end, tag, depth).unwrap() <= end,
    decreases depth, 0nat,
{
    if (tag == TAG_OBJC || tag == TAG_VLLS) && depth > 0 && tag != TAG_LONG && tag != TAG_DOUB && tag != TAG_BOOL {
        if tag == TAG_OBJC {
            lemma_object_end_within(s, p, end, (depth - 1) as nat);
        } else {
            lemma_items_end_within(s, p + 4, end, be32(s, p) as nat, (depth - 1) as nat);
        }
    }
}

proof fn lemma_items_end_within(s: Seq<u8>, p: int, end: int, count: nat, depth: nat)
    requires
        p <= end,
        items_end(s, p, end, count, depth) is Ok,
    ensures
        p <= items_end(s, p, end, count, depth).unwrap() <= end,
    decreases depth, count + 1,
{
    if count > 0 {
        let tag = be32(s, p) as u32;
        lemma_value_end_within(s, p + 4, end, tag, depth);
        let v = value_end(s, p + 4, end, tag, depth).unwrap();
        lemma_items_end_within(s, v, end, (count - 1) as nat, depth);
    }
}

proof fn lemma_fields_end_within(s: Seq<u8>, p: int, end: int, count: nat, depth: nat)
    requires
        p <= end,
        fields_end(s, p, end, count, depth) is Ok,
    ensures
        p <= fields_end(s, p, end, count, depth).unwrap() <= end,
    decreases depth, count + 1,
{
    if count > 0 {
        let k = id_end(s, p, end).unwrap();
        let tag = be32(s, k) as u32;
        lemma_value_end_within(s, k + 4, end, tag, depth);
        let v = value_end(s, k + 4, end, tag, depth).unwrap();
        lemma_fields_end_within(s, v, end, (count - 1) as nat, depth);
    }
}

proof fn lemma_object_end_within(s: Seq<u8>, p: int, end: int, depth: nat)
    requires
        p <= end,
        object_end(s, p, end, depth) is Ok,
    ensures
        p <= object_end(s, p, end, depth).unwrap() <= end,
    decreases depth, 0x1_0000_0001nat,
{
    let (f, n) = object_head(s, p, end).unwrap();
    lemma_fields_end_within(s, f, end, n, depth);
}

/// A lookup result of executable positions is the one `find` gives.
pub open spec fn found(r: Result<Option<(u32, usize)>, BrushError>, m: Result<Option<(u32, int)>, BrushError>) -> bool {
    match (r, m) {
        (Ok(Some((t, v))), Ok(Some((u, w)))) => t == u && v as int == w,
        (Ok(None), Ok(None)) => true,
        (Err(a), Err(b)) => a == b,
        _ => false,
    }
}

/// Looks up the field named `key` in the object at `p`: its type tag and
/// where its value starts.
pub fn find_exec(s: &[u8], p: usize, end: usize, key: u32, depth: usize) -> (r: Result<Option<(u32, usize)>, BrushError>)
    requires
        p <= end <= s@.len(),
    ensures
        found(r, find(s@, p as int, end as int, key, depth as nat)),
        r matches Ok(Some((t, v))) ==> v <= end,
{
    let (f, count) = match object_head_exec(s, p, end) {
        Err(e) => {
            return Err(e);
        },
        Ok(h) => h,
    };
    let mut q: usize = f;
    let mut left: u32 = count;
    while left > 0
        invariant
            q <= end <= s@.len(),
            find(s@, p as int, end as int, key, depth as nat) == find_in(
                s@,
                q as int,
                end as int,
                left as nat,
                key,
                depth as nat,
            ),
        decreases left,
    {
        let k: usize = match id_end_exec(s, q, end) {
            Err(e) => {
                return Err(e);
            },
            Ok(k) => k,
        };
        let tag: u32 = match read_u32(s, k, end) {
            None => {
                return Err(BrushError::Truncated);
            },
            Some(t) => t,
        };
        let len: u32 = read_u32(s, q, end).unwrap();
        if len == 0 && read_u32(s, q + 4, end).unwrap() == key {
            return Ok(Some((tag, k + 4)));
        }
        match value_end_exec(s, k + 4, end, tag, depth) {
            Ok(v) => {
                proof {
                    lemma_value_end_within(s@, (k + 4) as int, end as int, tag, depth as nat);
                }
                q = v;
            },
            Err(e) => {
                return Err(e);
            },
        }
        left = left - 1;
    }
    Ok(None)
}

} // verus!
