use crate::err::BrushError;
use crate::rle::{lemma_unpack_rows_len, unpack_rows, unpack_rows_exec};
use crate::util::{be16, be32, read_bytes, read_u16, read_u32, read_u8};
use crate::ImageBrush;
use vstd::prelude::*;

verus! {

/// What a brush record decodes to: width, height and samples, or the error.
pub type RecordModel = Result<(u32, u32, Seq<u8>), BrushError>;

/// The samples of a `w`×`h` brush stored at `s[q .. end]`, raw (`c == 0`)
/// or as run-length compressed rows (`c == 1`).
pub open spec fn samples(s: Seq<u8>, q: int, end: int, w: u32, h: u32, c: u8) -> RecordModel {
    if c == 0 {
        if q + w * h > end {
            Err(BrushError::Truncated)
        } else if q + w * h < end {
            Err(BrushError::LengthMismatch)
        } else {
            Ok((w, h, s.subrange(q, end)))
        }
    } else if c == 1 {
        match unpack_rows(s, q, end, w as nat, h as nat) {
            Some((d, e)) => if e == end {
                Ok((w, h, d))
            } else {
                Err(BrushError::LengthMismatch)
            },
            None => Err(BrushError::BadRows),
        }
    } else {
        Err(BrushError::UnknownCompression(c))
    }
}

/// The body of a record at `s[q .. end]`. A wide record holds a 32-bit width
/// and height and a compression byte; a narrow one a 16-bit width and height
/// and raw samples.
pub open spec fn body(s: Seq<u8>, q: int, end: int, wide: bool) -> RecordModel {
    if wide {
        if q + 9 > end {
            Err(BrushError::Truncated)
        } else {
            samples(s, q + 9, end, be32(s, q) as u32, be32(s, q + 4) as u32, s[q + 8])
        }
    } else {
        if q + 4 > end {
            Err(BrushError::Truncated)
        } else {
            samples(s, q + 4, end, be16(s, q) as u32, be16(s, q + 2) as u32, 0)
        }
    }
}

/// Where the record at `p` declares that it ends: after its 4-byte length
/// and that many bytes.
pub open spec fn record_end(s: Seq<u8>, p: int) -> int {
    p + 4 + be32(s, p)
}

/// What the record at `p` decodes to.
pub open spec fn record(s: Seq<u8>, p: int, wide: bool) -> RecordModel {
    if record_end(s, p) > s.len() {
        Err(BrushError::Truncated)
    } else {
        body(s, p + 4, record_end(s, p), wide)
    }
}

/// Where reading resumes after the record at `p`, whether it decoded or not.
pub open spec fn record_next(s: Seq<u8>, p: int) -> int {
    if record_end(s, p) > s.len() {
        s.len() as int
    } else {
        record_end(s, p)
    }
}

/// `r` is the outcome that `m` describes.
pub open spec fn outcome_is(r: Result<ImageBrush, BrushError>, m: RecordModel) -> bool {
    match (r, m) {
        (Ok(b), Ok((w, h, d))) => b.width == w && b.height == h && b.depth == 8 && b.data@ == d,
        (Err(e), Err(f)) => e == f,
        _ => false,
    }
}

/// The state of a legacy-format decoder: the stream, the position of the
/// next record, and the count of records left once the count field has
/// been read.
pub struct Decoder {
    pub src: Vec<u8>,
    pub pos: usize,
    pub remaining: Option<u16>,
    pub wide: bool,
}

impl Decoder {
    pub open spec fn wf(&self) -> bool {
        self.pos <= self.src@.len()
    }

    /// The count of records left, and the position of the next one, once
    /// the 16-bit count field has been read (a stream that ends before it
    /// holds no records).
    pub open spec fn started(&self) -> (u16, int) {
        match self.remaining {
            Some(n) => (n, self.pos as int),
            None => if self.pos + 2 <= self.src@.len() {
                (be16(self.src@, self.pos as int) as u16, self.pos + 2)
            } else {
                (0u16, self.pos as int)
            },
        }
    }

    /// One step of the decoder: from `self` to `post`, yielding `r`.
    pub open spec fn stepped(&self, post: &Decoder, r: Option<Result<ImageBrush, BrushError>>) -> bool {
        let s = self.src@;
        let (n, p) = self.started();
        &&& post.src@ == s
        &&& post.wide == self.wide
        &&& if n == 0 || p + 4 > s.len() {
            r is None && post.remaining == Some(0u16) && post.pos == p
        } else {
            &&& r is Some
            &&& outcome_is(r.unwrap(), record(s, p, self.wide))
            &&& post.pos == record_next(s, p)
            &&& post.remaining == Some((n - 1) as u16)
        }
    }

    pub fn new(src: Vec<u8>, pos: usize, wide: bool) -> (d: Decoder)
        requires
            pos <= src@.len(),
        ensures
            d.wf(),
            d.src == src,
            d.pos == pos,
            d.remaining is None,
            d.wide == wide,
    {
        Decoder { src, pos, remaining: None, wide }
    }

    /// Decodes the next record; `None` once the count is used up or the
    /// stream holds no further record.
    pub fn next_brush(&mut self) -> (r: Option<Result<ImageBrush, BrushError>>)
        requires
            old(self).wf(),
        ensures
            final(self).wf(),
            old(self).stepped(final(self), r),
            r matches Some(Ok(b)) ==> b.data@.len() == b.width * b.height,
    {
        let n: u16 = match self.remaining {
            Some(n) => n,
            None => match read_u16(self.src.as_slice(), self.pos, self.src.len()) {
                Some(n) => {
                    self.pos = self.pos + 2;
                    n
                },
                None => 0,
            },
        };
        if n == 0 || self.src.len() - self.pos < 4 {
            self.remaining = Some(0);
            return None;
        }
        let (res, next) = decode_record(self.src.as_slice(), self.pos, self.wide);
        self.pos = next;
        self.remaining = Some(n - 1);
        Some(res)
    }
}

/// Decodes the raw or compressed samples of a `w`×`h` brush at `s[q .. end]`.
fn decode_samples(s: &[u8], q: usize, end: usize, w: u32, h: u32, c: u8) -> (r: Result<ImageBrush, BrushError>)
    requires
        q <= end <= s@.len(),
    ensures
        outcome_is(r, samples(s@, q as int, end as int, w, h, c)),
        r matches Ok(b) ==> b.data@.len() == b.width * b.height,
{
    if c == 0 {
        proof {
            let (a, b) = (w as int, h as int);
            assert(a * b <= 0xffff_ffff * 0xffff_ffff) by (nonlinear_arith)
                requires
                    0 <= a <= 0xffff_ffff,
                    0 <= b <= 0xffff_ffff,
            ;
        }
        let size: u64 = (w as u64) * (h as u64);
        if size > (end - q) as u64 {
            Err(BrushError::Truncated)
        } else if size < (end - q) as u64 {
            Err(BrushError::LengthMismatch)
        } else {
            match read_bytes(s, q, end - q, end) {
                Some(data) => Ok(ImageBrush { width: w, height: h, depth: 8, data }),
                None => Err(BrushError::Truncated),
            }
        }
    } else if c == 1 {
        match unpack_rows_exec(s, q, end, w as usize, h as usize) {
            Some((data, e)) => {
                proof {
                    lemma_unpack_rows_len(s@, q as int, end as int, w as nat, h as nat);
                }
                if e == end {
                    Ok(ImageBrush { width: w, height: h, depth: 8, data })
                } else {
                    Err(BrushError::LengthMismatch)
                }
            },
            None => Err(BrushError::BadRows),
        }
    } else {
        Err(BrushError::UnknownCompression(c))
    }
}

/// Decodes the record at `p`, and gives the position after it.
fn decode_record(s: &[u8], p: usize, wide: bool) -> (r: (Result<ImageBrush, BrushError>, usize))
    requires
        p + 4 <= s@.len(),
    ensures
        outcome_is(r.0, record(s@, p as int, wide)),
        r.1 == record_next(s@, p as int),
        r.0 matches Ok(b) ==> b.data@.len() == b.width * b.height,
{
    let len: u32 = match read_u32(s, p, s.len()) {
        Some(v) => v,
        None => 0,
    };
    let q: usize = p + 4;
    if len as usize > s.len() - q {
        return (Err(BrushError::Truncated), s.len());
    }
    let end: usize = q + len as usize;
    let res = if wide {
        if end - q < 9 {
            Err(BrushError::Truncated)
        } else {
            let w = read_u32(s, q, end).unwrap();
            let h = read_u32(s, q + 4, end).unwrap();
            let c = read_u8(s, q + 8, end).unwrap();
            decode_samples(s, q + 9, end, w, h, c)
        }
    } else {
        if end - q < 4 {
            Err(BrushError::Truncated)
        } else {
            let w = read_u16(s, q, end).unwrap();
            let h = read_u16(s, q + 2, end).unwrap();
            decode_samples(s, q + 4, end, w as u32, h as u32, 0)
        }
    };
    (res, end)
}

} // verus!
