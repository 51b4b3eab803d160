//! Rectangular pixel grids.
use vstd::prelude::*;
use crate::color::rgb::RGB;

verus! {

/// A rectangular image, stored row by row.
///
/// The width is positive, the number of pixels is a multiple of the width
/// and fits in 32 bits.
#[derive(Debug, PartialEq)]
pub struct Img<P> {
    buf: Vec<P>,
    width: u32,
}

/// Whether `len` pixels can be laid out in rows of `width`.
pub open spec fn is_rectangle(len: int, width: int) -> bool {
    &&& 0 < width
    &&& 0 <= len <= u32::MAX
    &&& len % width == 0
}

/// Three bytes per pixel: red, green, blue.
pub open spec fn flattened(pixels: Seq<RGB<u8>>) -> Seq<u8> {
    Seq::new(
        pixels.len() * 3,
        |k: int| if k % 3 == 0 { pixels[k / 3].0 } else if k % 3 == 1 { pixels[k / 3].1 } else { pixels[k / 3].2 },
    )
}

impl<P> Img<P> {
    #[verifier::type_invariant]
    spec fn well_formed(&self) -> bool {
        is_rectangle(self.buf@.len() as int, self.width as int)
    }

    /// The pixels in row-major order.
    pub closed spec fn pixels(&self) -> Seq<P> {
        self.buf@
    }

    /// The number of pixels in a row.
    pub closed spec fn spec_width(&self) -> int {
        self.width as int
    }

    /// The number of rows.
    pub open spec fn spec_height(&self) -> int {
        (self.pixels().len() as int) / self.spec_width()
    }

    /// Lays `buf` out in rows of `width`; `None` unless that gives a rectangle.
    pub fn new(buf: Vec<P>, width: u32) -> (r: Option<Img<P>>)
        ensures
            r.is_some() <==> is_rectangle(buf@.len() as int, width as int),
            r.is_some() ==> r.unwrap().pixels() == buf@ && r.unwrap().spec_width() == width,
    {
        if width == 0 || buf.len() > u32::MAX as usize || buf.len() % (width as usize) != 0 {
            None
        } else {
            Some(Img { buf, width })
        }
    }

    /// Applies `convert` to every pixel, in row-major order.
    pub fn convert_with<Q, F: Fn(P) -> Q>(self, convert: F) -> (r: Img<Q>)
        requires
            forall|i: int| 0 <= i < self.pixels().len() ==> convert.requires((#[trigger] self.pixels()[i],)),
        ensures
            r.spec_width() == self.spec_width(),
            r.pixels().len() == self.pixels().len(),
            forall|i: int| 0 <= i < self.pixels().len() ==> convert.ensures((self.pixels()[i],), #[trigger] r.pixels()[i]),
    {
        proof {
            use_type_invariant(&self);
        }
        let ghost before = self.pixels();
        let Img { buf, width } = self;
        assert(buf@ == before);
        let mut out: Vec<Q> = Vec::with_capacity(buf.len());
        for p in it: buf.into_iter()
            invariant
                it.seq() == before,
                out@.len() == it.index(),
                is_rectangle(before.len() as int, width as int),
                forall|i: int| 0 <= i < before.len() ==> convert.requires((#[trigger] before[i],)),
                forall|i: int| 0 <= i < out@.len() ==> convert.ensures((before[i],), #[trigger] out@[i]),
        {
            out.push(convert(p));
        }
        Img { buf: out, width }
    }

    /// The number of pixels.
    pub fn len(&self) -> (n: usize)
        ensures
            n == self.pixels().len(),
            is_rectangle(n as int, self.spec_width()),
    {
        proof {
            use_type_invariant(self);
        }
        self.buf.len()
    }

    /// Whether the image has no pixel.
    pub fn is_empty(&self) -> (b: bool)
        ensures
            b <==> self.pixels().len() == 0,
    {
        self.buf.len() == 0
    }

    /// The number of pixels in a row.
    pub fn width(&self) -> (w: u32)
        ensures
            w == self.spec_width(),
            w > 0,
    {
        proof {
            use_type_invariant(self);
        }
        self.width
    }

    /// The pixels in row-major order.
    pub fn as_vec(&self) -> (v: &Vec<P>)
        ensures
            v@ == self.pixels(),
    {
        &self.buf
    }

    /// Gives the pixels back, in row-major order.
    pub fn into_vec(self) -> (v: Vec<P>)
        ensures
            v@ == self.pixels(),
    {
        self.buf
    }

    /// The pixel in column `pos.0` of row `pos.1`; `None` outside the image.
    pub fn get(&self, pos: (u32, u32)) -> (r: Option<&P>)
        ensures
            r.is_some() <==> pos.0 < self.spec_width() && pos.1 < self.spec_height(),
            r.is_some() ==> *r.unwrap() == self.pixels()[pos.1 * self.spec_width() + pos.0],
    {
        proof {
            use_type_invariant(self);
        }
        let (x, y) = pos;
        let height: usize = self.buf.len() / (self.width as usize);
        if x < self.width && (y as usize) < height {
            let ghost w = self.width as int;
            let ghost n = self.buf@.len() as int;
            assert(y * w + x < n) by (nonlinear_arith)
                requires
                    0 <= x < w,
                    0 <= y < n / w,
                    n % w == 0,
                    w > 0,
                    n >= 0,
            ;
            assert(0 <= y * w) by (nonlinear_arith)
                requires
                    0 <= y,
                    0 < w,
            ;
            let i: usize = (y as usize) * (self.width as usize) + (x as usize);
            Some(&self.buf[i])
        } else {
            None
        }
    }

    /// Width and height.
    pub fn size(&self) -> (r: (u32, u32))
        ensures
            r.0 == self.spec_width(),
            r.1 == self.spec_height(),
            r.0 * r.1 == self.pixels().len(),
    {
        proof {
            use_type_invariant(self);
        }
        let height: usize = self.buf.len() / (self.width as usize);
        proof {
            let w = self.width as int;
            let n = self.buf@.len() as int;
            assert(n / w <= n && w * (n / w) == n) by (nonlinear_arith)
                requires
                    w > 0,
                    n >= 0,
                    n % w == 0,
            ;
        }
        (self.width, height as u32)
    }
}

impl<P: Clone> Clone for Img<P> {
    fn clone(&self) -> (r: Self)
        ensures
            r.spec_width() == self.spec_width(),
            r.pixels().len() == self.pixels().len(),
            forall|i: int|
                0 <= i < self.pixels().len() ==> cloned::<P>(#[trigger] self.pixels()[i], r.pixels()[i]),
    {
        proof {
            use_type_invariant(self);
        }
        Img { buf: self.buf.clone(), width: self.width }
    }
}

impl Img<RGB<u8>> {
    /// Flattens each triplet into three bytes.
    pub fn raw_buf(self) -> (raw: Vec<u8>)
        ensures
            raw@ == flattened(self.pixels()),
    {
        let n = self.buf.len();
        let mut raw: Vec<u8> = Vec::new();
        let mut i: usize = 0;
        while i < n
            invariant
                n == self.buf@.len(),
                i <= n,
                raw@ == flattened(self.buf@.subrange(0, i as int)),
            decreases n - i,
        {
            let RGB(r, g, b) = self.buf[i];
            let ghost before = raw@;
            raw.push(r);
            raw.push(g);
            raw.push(b);
            assert(raw@ =~= flattened(self.buf@.subrange(0, i + 1)));
            i += 1;
        }
        assert(self.buf@.subrange(0, n as int) =~= self.buf@);
        raw
    }
}

} // verus!
