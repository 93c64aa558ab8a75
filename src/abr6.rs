use crate::abr1::{outcome_is, record_end, record_next, RecordModel};
use crate::desc::{find, find_exec, object_end, object_end_exec, MAX_DEPTH, TAG_LONG, TAG_OBJC, TAG_TDTA, TAG_VLLS};
use crate::err::BrushError;
use crate::rle::{lemma_unpack_rows_len, unpack_rows, unpack_rows_exec};
use crate::util::{be32, read_u32};
use crate::ImageBrush;
use vstd::prelude::*;

verus! {

/// Key of the pattern object inside a brush descriptor: `Patt`.
pub const KEY_PATT: u32 = 0x5061_7474;
/// Key of the pattern's width: `Wdth`.
pub const KEY_WDTH: u32 = 0x5764_7468;
/// Key of the pattern's height: `Hght`.
pub const KEY_HGHT: u32 = 0x4867_6874;
/// Key of the pattern's channel list: `Chnl`.
pub const KEY_CHNL: u32 = 0x4368_6e6c;

/// The 32-bit integer field `key` of the object at `o`.
pub open spec fn long_field(s: Seq<u8>, o: int, end: int, key: u32) -> Result<u32, BrushError> {
    match find(s, o, end, key, MAX_DEPTH as nat) {
        Ok(Some((t, v))) => if t == TAG_LONG && v + 4 <= end {
            Ok(be32(s, v) as u32)
        } else {
            Err(BrushError::MissingField(key))
        },
        Ok(None) => Err(BrushError::MissingField(key)),
        Err(e) => Err(e),
    }
}

/// Where the bytes of the first channel of the object at `o` lie: the first
/// item of its `Chnl` list, a blob.
pub open spec fn first_channel(s: Seq<u8>, o: int, end: int) -> Result<(int, int), BrushError> {
    match find(s, o, end, KEY_CHNL, MAX_DEPTH as nat) {
        Ok(Some((t, v))) => if t == TAG_VLLS && v + 12 <= end && be32(s, v) > 0 && be32(s, v + 4) == TAG_TDTA
            && v + 12 + be32(s, v + 8) <= end {
            Ok((v + 12, v + 12 + be32(s, v + 8)))
        } else {
            Err(BrushError::MissingField(KEY_CHNL))
        },
        Ok(None) => Err(BrushError::MissingField(KEY_CHNL)),
        Err(e) => Err(e),
    }
}

/// The brush held by the pattern object at `o`: its width, height, and the
/// rows of its first channel.
pub open spec fn pattern(s: Seq<u8>, o: int, end: int) -> RecordModel {
    match long_field(s, o, end, KEY_WDTH) {
        Err(e) => Err(e),
        Ok(w) => match long_field(s, o, end, KEY_HGHT) {
            Err(e) => Err(e),
            Ok(h) => match first_channel(s, o, end) {
                Err(e) => Err(e),
                Ok((a, b)) => match unpack_rows(s, a, b, w as nat, h as nat) {
                    Some((d, _)) => Ok((w, h, d)),
                    None => Err(BrushError::BadRows),
                },
            },
        },
    }
}

/// The brush held by the descriptor that fills `s[q .. end]`.
pub open spec fn block(s: Seq<u8>, q: int, end: int) -> RecordModel {
    match object_end(s, q, end, MAX_DEPTH as nat) {
        Err(e) => Err(e),
        Ok(e) => if e != end {
            Err(BrushError::LengthMismatch)
        } else {
            match find(s, q, end, KEY_PATT, MAX_DEPTH as nat) {
                Ok(Some((t, o))) => if t == TAG_OBJC {
                    pattern(s, o, end)
                } else {
                    Err(BrushError::MissingField(KEY_PATT))
                },
                Ok(None) => Err(BrushError::MissingField(KEY_PATT)),
                Err(e) => Err(e),
            }
        },
    }
}

/// What the length-prefixed block at `p` decodes to.
pub open spec fn record(s: Seq<u8>, p: int) -> RecordModel {
    if record_end(s, p) > s.len() {
        Err(BrushError::Truncated)
    } else {
        block(s, p + 4, record_end(s, p))
    }
}

/// The state of a descriptor-format decoder: the stream, the position of
/// the next block, and the count of blocks left once the count field has
/// been read.
pub struct Decoder {
    pub src: Vec<u8>,
    pub pos: usize,
    pub remaining: Option<u32>,
}

impl Decoder {
    pub open spec fn wf(&self) -> bool {
        self.pos <= self.src@.len()
    }

    /// The count of blocks left, and the position of the next one, once the
    /// 32-bit count field has been read (a stream that ends before it holds
    /// no blocks).
    pub open spec fn started(&self) -> (u32, int) {
        match self.remaining {
            Some(n) => (n, self.pos as int),
            None => if self.pos + 4 <= self.src@.len() {
                (be32(self.src@, self.pos as int) as u32, self.pos + 4)
            } else {
                (0u32, self.pos as int)
            },
        }
    }

    /// One step of the decoder: from `self` to `post`, yielding `r`.
    pub open spec fn stepped(&self, post: &Decoder, r: Option<Result<ImageBrush, BrushError>>) -> bool {
        let s = self.src@;
        let (n, p) = self.started();
        &&& post.src@ == s
        &&& if n == 0 || p + 4 > s.len() {
            r is None && post.remaining == Some(0u32) && post.pos == p
        } else {
            &&& r is Some
            &&& outcome_is(r.unwrap(), record(s, p))
            &&& post.pos == record_next(s, p)
            &&& post.remaining == Some((n - 1) as u32)
        }
    }

    pub fn new(src: Vec<u8>, pos: usize) -> (d: Decoder)
        requires
            pos <= src@.len(),
        ensures
            d.wf(),
            d.src == src,
            d.pos == pos,
            d.remaining is None,
    {
        Decoder { src, pos, remaining: None }
    }

    /// Decodes the next block; `None` once the count is used up or the
    /// stream holds no further block.
    pub fn next_brush(&mut self) -> (r: Option<Result<ImageBrush, BrushError>>)
        requires
            old(self).wf(),
        ensures
            final(self).wf(),
            old(self).stepped(final(self), r),
            r matches Some(Ok(b)) ==> b.data@.len() == b.width * b.height,
    {
        let n: u32 = match self.remaining {
            Some(n) => n,
            None => match read_u32(self.src.as_slice(), self.pos, self.src.len()) {
                Some(n) => {
                    self.pos = self.pos + 4;
                    n
                },
                None => 0,
            },
        };
        if n == 0 || self.src.len() - self.pos < 4 {
            self.remaining = Some(0);
            return None;
        }
        let (res, next) = decode_record(self.src.as_slice(), self.pos);
        self.pos = next;
        self.remaining = Some(n - 1);
        Some(res)
    }
}

fn long_field_exec(s: &[u8], o: usize, end: usize, key: u32) -> (r: Result<u32, BrushError>)
    requires
        o <= end <= s@.len(),
    ensures
        r == long_field(s@, o as int, end as int, key),
{
    match find_exec(s, o, end, key, MAX_DEPTH) {
        Ok(Some((t, v))) => if t == TAG_LONG {
            match read_u32(s, v, end) {
                Some(x) => Ok(x),
                None => Err(BrushError::MissingField(key)),
            }
        } else {
            Err(BrushError::MissingField(key))
        },
        Ok(None) => Err(BrushError::MissingField(key)),
        Err(e) => Err(e),
    }
}

fn first_channel_exec(s: &[u8], o: usize, end: usize) -> (r: Result<(usize, usize), BrushError>)
    requires
        o <= end <= s@.len(),
    ensures
        match first_channel(s@, o as int, end as int) {
            Ok((a, b)) => r is Ok && r.unwrap().0 == a && r.unwrap().1 == b && a <= b <= end,
            Err(e) => r == Err::<(usize, usize), BrushError>(e),
        },
{
    match find_exec(s, o, end, KEY_CHNL, MAX_DEPTH) {
        Ok(Some((t, v))) => {
            if t != TAG_VLLS || end - v < 12 {
                return Err(BrushError::MissingField(KEY_CHNL));
            }
            let count: u32 = read_u32(s, v, end).unwrap();
            let tag: u32 = read_u32(s, v + 4, end).unwrap();
            let len: u32 = read_u32(s, v + 8, end).unwrap();
            if count == 0 || tag != TAG_TDTA || len as usize > end - v - 12 {
                return Err(BrushError::MissingField(KEY_CHNL));
            }
            Ok((v + 12, v + 12 + len as usize))
        },
        Ok(None) => Err(BrushError::MissingField(KEY_CHNL)),
        Err(e) => Err(e),
    }
}

fn decode_pattern(s: &[u8], o: usize, end: usize) -> (r: Result<ImageBrush, BrushError>)
    requires
        o <= end <= s@.len(),
    ensures
        outcome_is(r, pattern(s@, o as int, end as int)),
        r matches Ok(b) ==> b.data@.len() == b.width * b.height,
{
    let w: u32 = match long_field_exec(s, o, end, KEY_WDTH) {
        Err(e) => {
            return Err(e);
        },
        Ok(w) => w,
    };
    let h: u32 = match long_field_exec(s, o, end, KEY_HGHT) {
        Err(e) => {
            return Err(e);
        },
        Ok(h) => h,
    };
    let (a, b) = match first_channel_exec(s, o, end) {
        Err(e) => {
            return Err(e);
        },
        Ok(c) => c,
    };
    match unpack_rows_exec(s, a, b, w as usize, h as usize) {
        Some((data, _)) => {
            proof {
                lemma_unpack_rows_len(s@, a as int, b as int, w as nat, h as nat);
            }
            Ok(ImageBrush { width: w, height: h, depth: 8, data })
        },
        None => Err(BrushError::BadRows),
    }
}

/// Decodes the block at `p`, and gives the position after it.
fn decode_record(s: &[u8], p: usize) -> (r: (Result<ImageBrush, BrushError>, usize))
    requires
        p + 4 <= s@.len(),
    ensures
        outcome_is(r.0, record(s@, p as int)),
        r.1 == record_next(s@, p as int),
        r.0 matches Ok(b) ==> b.data@.len() == b.width * b.height,
{
    let len: u32 = read_u32(s, p, s.len()).unwrap();
    let q: usize = p + 4;
    if len as usize > s.len() - q {
        return (Err(BrushError::Truncated), s.len());
    }
    let end: usize = q + len as usize;
    let res = match object_end_exec(s, q, end, MAX_DEPTH) {
        Err(e) => Err(e),
        Ok(e) => if e != end {
            Err(BrushError::LengthMismatch)
        } else {
            match find_exec(s, q, end, KEY_PATT, MAX_DEPTH) {
                Ok(Some((t, o))) => if t == TAG_OBJC {
                    decode_pattern(s, o, end)
                } else {
                    Err(BrushError::MissingField(KEY_PATT))
                },
                Ok(None) => Err(BrushError::MissingField(KEY_PATT)),
                Err(e) => Err(e),
            }
        },
    };
    (res, end)
}

} // verus!
