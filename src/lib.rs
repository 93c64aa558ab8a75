use vstd::prelude::*;

pub mod abr1;
pub mod abr6;
pub mod desc;
pub mod err;
pub mod rle;
pub mod util;

pub use crate::err::{BrushError, OpenError};
use crate::util::{be16, read_u16};

verus! {

/// An image brush.
#[derive(Debug)]
pub struct ImageBrush {
    /// Image width.
    pub width: u32,
    /// Image height.
    pub height: u32,
    /// Bit-depth (always 8, currently).
    pub depth: u16,
    /// Row-major vector of width×height image samples.
    pub data: Vec<u8>,
}

/// The samples of `data` complemented: `255 - x` for each sample `x`.
pub open spec fn inverted(data: Seq<u8>) -> Seq<u8> {
    Seq::new(data.len(), |i: int| (255 - data[i]) as u8)
}

impl ImageBrush {
    /// Inverts the image.
    pub fn invert(&mut self)
        ensures
            final(self).width == old(self).width,
            final(self).height == old(self).height,
            final(self).depth == old(self).depth,
            final(self).data@ == inverted(old(self).data@),
    {
        let ghost orig = self.data@;
        let ghost (w, h, d) = (self.width, self.height, self.depth);
        let mut i: usize = 0;
        while i < self.data.len()
            invariant
                self.data@.len() == orig.len(),
                self.width == w && self.height == h && self.depth == d,
                i <= orig.len(),
                forall|k: int| 0 <= k < i ==> #[trigger] self.data@[k] == (255 - orig[k]) as u8,
                forall|k: int| i <= k < orig.len() ==> #[trigger] self.data@[k] == orig[k],
            decreases orig.len() - i,
        {
            let x: u8 = self.data[i];
            self.data.set(i, 255 - x);
            i = i + 1;
        }
        assert(self.data@ =~= inverted(orig));
    }
}

/// Inverting twice gives back the samples one started with.
pub proof fn lemma_invert_twice(data: Seq<u8>)
    ensures
        inverted(inverted(data)) == data,
{
    assert(inverted(inverted(data)) =~= data);
}

/// The decoder that a header selects; exactly one is active for a stream.
pub enum Decoder {
    /// The legacy flat layout, versions 1 and 2.
    Abr1(abr1::Decoder),
    /// The descriptor layout of brush libraries, versions 6 and 10.
    Abr6(abr6::Decoder),
    /// The descriptor layout of style libraries.
    Asl(abr6::Decoder),
}

/// An iterator over an ABR's image brushes.
pub struct Brushes(pub Decoder);

impl Brushes {
    pub open spec fn wf(&self) -> bool {
        match self.0 {
            Decoder::Abr1(d) => d.wf(),
            Decoder::Abr6(d) => d.wf(),
            Decoder::Asl(d) => d.wf(),
        }
    }

    /// The bytes of the stream being decoded.
    pub open spec fn stream(&self) -> Seq<u8> {
        match self.0 {
            Decoder::Abr1(d) => d.src@,
            Decoder::Abr6(d) => d.src@,
            Decoder::Asl(d) => d.src@,
        }
    }

    /// How far into the stream decoding has read.
    pub open spec fn position(&self) -> int {
        match self.0 {
            Decoder::Abr1(d) => d.pos as int,
            Decoder::Abr6(d) => d.pos as int,
            Decoder::Asl(d) => d.pos as int,
        }
    }

    /// No brush has been read yet.
    pub open spec fn unstarted(&self) -> bool {
        match self.0 {
            Decoder::Abr1(d) => d.remaining is None,
            Decoder::Abr6(d) => d.remaining is None,
            Decoder::Asl(d) => d.remaining is None,
        }
    }

    /// One step from `self` to `post` yielding `r`: the active decoder's step,
    /// with the same decoder still active.
    pub open spec fn stepped(&self, post: &Brushes, r: Option<Result<ImageBrush, BrushError>>) -> bool {
        match (self.0, post.0) {
            (Decoder::Abr1(a), Decoder::Abr1(b)) => a.stepped(&b, r),
            (Decoder::Abr6(a), Decoder::Abr6(b)) => a.stepped(&b, r),
            (Decoder::Asl(a), Decoder::Asl(b)) => a.stepped(&b, r),
            _ => false,
        }
    }

    /// The next brush, a failure confined to that brush, or `None` at the end
    /// of the sequence.
    pub fn next(&mut self) -> (r: Option<Result<ImageBrush, BrushError>>)
        requires
            old(self).wf(),
        ensures
            final(self).wf(),
            old(self).stepped(final(self), r),
            r matches Some(Ok(b)) ==> b.data@.len() == b.width * b.height,
    {
        match &mut self.0 {
            Decoder::Abr1(d) => d.next_brush(),
            Decoder::Abr6(d) => d.next_brush(),
            Decoder::Asl(d) => d.next_brush(),
        }
    }
}

/// Once a step has yielded the end of the sequence, every later step
/// yields it too.
pub proof fn lemma_end_stays(b0: Brushes, b1: Brushes, r1: Option<Result<ImageBrush, BrushError>>, b2: Brushes, r2: Option<Result<ImageBrush, BrushError>>)
    requires
        b0.stepped(&b1, r1),
        r1 is None,
        b1.stepped(&b2, r2),
    ensures
        r2 is None,
        b2.stream() == b1.stream(),
        b2.position() == b1.position(),
{
}

/// Every step that yields an item, a brush or a failure, moves past at least
/// that record's 4-byte length, so a bad record never stalls the sequence.
pub proof fn lemma_step_advances(b0: Brushes, b1: Brushes, r: Option<Result<ImageBrush, BrushError>>)
    requires
        b0.wf(),
        b0.stepped(&b1, r),
        r is Some,
    ensures
        b1.position() >= b0.position() + 4,
        b1.position() <= b1.stream().len(),
        b1.stream() == b0.stream(),
{
}

/// The version and sub-version in the header of `s`, read as big-endian
/// 16-bit integers.
pub open spec fn header(s: Seq<u8>) -> (u16, u16) {
    (be16(s, 0) as u16, be16(s, 2) as u16)
}

/// Gets an iterator over the image brushes in an ABR file held in `data`.
///
/// Versions 1 and 2 select the legacy decoder (sub-version 2 marks wide
/// records); versions 6 and 10 with sub-version 1 or 2 the descriptor decoder.
/// Only the four header bytes are read.
pub fn open(data: Vec<u8>) -> (r: Result<Brushes, OpenError>)
    ensures
        data@.len() < 4 ==> r == Err::<Brushes, OpenError>(OpenError::Io),
        data@.len() >= 4 ==> ({
            let (version, subversion) = header(data@);
            if version == 1 || version == 2 {
                &&& r is Ok
                &&& r.unwrap().0 matches Decoder::Abr1(d) && d.wide == (subversion == 2)
            } else if (version == 6 || version == 10) && (subversion == 1 || subversion == 2) {
                r is Ok && r.unwrap().0 is Abr6
            } else {
                r == Err::<Brushes, OpenError>(OpenError::UnsupportedVersion { version, subversion })
            }
        }),
        r matches Ok(b) ==> b.wf() && b.stream() == data@ && b.position() == 4 && b.unstarted(),
{
    let len: usize = data.len();
    let version: u16 = match read_u16(data.as_slice(), 0, len) {
        Some(v) => v,
        None => {
            return Err(OpenError::Io);
        },
    };
    let subversion: u16 = match read_u16(data.as_slice(), 2, len) {
        Some(v) => v,
        None => {
            return Err(OpenError::Io);
        },
    };
    let abr1_like = version == 1 || version == 2;
    let abr6_like = (version == 6 || version == 10) && (subversion == 1 || subversion == 2);
    if abr1_like {
        Ok(Brushes(Decoder::Abr1(abr1::Decoder::new(data, 4, subversion == 2))))
    } else if abr6_like {
        Ok(Brushes(Decoder::Abr6(abr6::Decoder::new(data, 4))))
    } else {
        Err(OpenError::UnsupportedVersion { version, subversion })
    }
}

/// Gets an iterator over the image brushes in an ASL style library held in
/// `data`. Its header is a single big-endian 16-bit version, which must be 2;
/// only those two bytes are read.
pub fn open_asl(data: Vec<u8>) -> (r: Result<Brushes, OpenError>)
    ensures
        data@.len() < 2 ==> r == Err::<Brushes, OpenError>(OpenError::Io),
        data@.len() >= 2 ==> ({
            let version = be16(data@, 0) as u16;
            if version == 2 {
                r is Ok && r.unwrap().0 is Asl
            } else {
                r == Err::<Brushes, OpenError>(OpenError::UnsupportedVersion { version, subversion: 0 })
            }
        }),
        r matches Ok(b) ==> b.wf() && b.stream() == data@ && b.position() == 2 && b.unstarted(),
{
    let version: u16 = match read_u16(data.as_slice(), 0, data.len()) {
        Some(v) => v,
        None => {
            return Err(OpenError::Io);
        },
    };
    if version == 2 {
        Ok(Brushes(Decoder::Asl(abr6::Decoder::new(data, 2))))
    } else {
        Err(OpenError::UnsupportedVersion { version, subversion: 0 })
    }
}

} // verus!
