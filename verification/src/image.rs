//! The rendered picture and its text form.
use crate::color::RGB;
use crate::text::{decimal, write_decimal};
use vstd::prelude::*;

verus! {

/// A picture that can be written out.
pub trait Image {
    /// Pixels in a row.
    spec fn spec_width(&self) -> usize;

    /// Rows.
    spec fn spec_height(&self) -> usize;

    /// The bytes of the picture's file.
    spec fn encoding(&self) -> Seq<u8>;

    /// Pixels in a row.
    fn width(&self) -> (r: usize)
        ensures
            r == self.spec_width(),
    ;

    /// Rows.
    fn height(&self) -> (r: usize)
        ensures
            r == self.spec_height(),
    ;

    /// Appends the bytes of the picture's file to `writer`.
    fn save(&self, writer: &mut Vec<u8>)
        ensures
            final(writer)@ == old(writer)@ + self.encoding(),
    ;
}

/// A picture in the plain-text pixmap format. It holds, row by row from the
/// top, the sum of the samples of each pixel, and shows each sum as
/// `RGB::quantize` says.
pub struct PPM {
    width: usize,
    height: usize,
    samples_per_pixel: u32,
    data: Vec<RGB>,
}

impl PPM {
    /// The picture holds a sum for every pixel.
    #[verifier::type_invariant]
    spec fn dense(&self) -> bool {
        self.data@.len() == self.width * self.height
    }

    /// The sums of the pixels, row by row from the top.
    pub closed spec fn pixels(&self) -> Seq<RGB> {
        self.data@
    }

    /// The number of samples that each sum holds.
    pub closed spec fn samples(&self) -> u32 {
        self.samples_per_pixel
    }

    /// Where the pixel of row `y` and column `x` stands among the pixels.
    pub open spec fn position(&self, y: usize, x: usize) -> int {
        y * self.spec_width() + x
    }

    /// The head of the file: the format's mark, the width and the height,
    /// and the largest value of a channel.
    pub open spec fn header(width: usize, height: usize) -> Seq<u8> {
        seq![80u8, 51u8, 10u8] + decimal(width as nat) + seq![32u8] + decimal(height as nat)
            + seq![10u8, 50u8, 53u8, 53u8, 10u8]
    }

    /// The lines of the first `n` of `pixels`, one after the other.
    pub open spec fn lines(pixels: Seq<RGB>, samples: u32, n: nat) -> Seq<u8>
        decreases n,
    {
        if n == 0 || n > pixels.len() {
            Seq::empty()
        } else {
            PPM::lines(pixels, samples, (n - 1) as nat) + pixels[n - 1].line(samples)
        }
    }

    /// A black picture of `w` by `h` pixels, for sums of `samples` samples.
    pub fn new(w: usize, h: usize, samples: u32) -> (r: PPM)
        requires
            w * h <= usize::MAX,
        ensures
            r.spec_width() == w,
            r.spec_height() == h,
            r.samples() == samples,
            r.pixels() == Seq::new((w * h) as nat, |i: int| RGB::black()),
    {
        let n: usize = w * h;
        let mut data: Vec<RGB> = Vec::new();
        while data.len() < n
            invariant
                data@.len() <= n,
                forall|i: int| 0 <= i < data@.len() ==> data@[i] == RGB::black(),
            decreases n - data@.len(),
        {
            data.push(RGB::black());
        }
        assert(data@ =~= Seq::new((w * h) as nat, |i: int| RGB::black()));
        PPM { width: w, height: h, samples_per_pixel: samples, data }
    }

    /// The picture of `w` by `h` pixels whose sums are `pixels`, row by row
    /// from the top.
    pub fn from_pixels(w: usize, h: usize, samples: u32, pixels: Vec<RGB>) -> (r: PPM)
        requires
            pixels@.len() == w * h,
        ensures
            r.spec_width() == w,
            r.spec_height() == h,
            r.samples() == samples,
            r.pixels() == pixels@,
    {
        PPM { width: w, height: h, samples_per_pixel: samples, data: pixels }
    }

    /// The pixels as they are shown, row by row from the top: each sum
    /// averaged, gamma-corrected, clamped and quantized to three bytes.
    pub open spec fn shown(&self) -> Seq<(u8, u8, u8)> {
        Seq::new(self.pixels().len(), |k: int| self.pixels()[k].spec_quantize(self.samples()))
    }

    /// The picture as a grid of displayable pixels, row by row from the top:
    /// each sum averaged, gamma-corrected, clamped and quantized.
    pub fn quantized(&self) -> (r: Vec<(u8, u8, u8)>)
        ensures
            r@ == self.shown(),
            r@.len() == self.spec_width() * self.spec_height(),
    {
        proof {
            use_type_invariant(self);
        }
        let mut grid: Vec<(u8, u8, u8)> = Vec::new();
        let mut i: usize = 0;
        while i < self.data.len()
            invariant
                i <= self.data@.len(),
                grid@.len() == i,
                forall|k: int|
                    0 <= k < i ==> grid@[k] == (#[trigger] self.data@[k]).spec_quantize(
                        self.samples_per_pixel,
                    ),
            decreases self.data@.len() - i,
        {
            grid.push(self.data[i].quantize(self.samples_per_pixel));
            i += 1;
        }
        assert(grid@ =~= self.shown());
        grid
    }

    /// The number of samples that each sum holds.
    pub fn samples_per_pixel(&self) -> (r: u32)
        ensures
            r == self.samples(),
    {
        self.samples_per_pixel
    }

    /// The picture holds a sum for every pixel.
    pub fn len(&self) -> (r: usize)
        ensures
            r == self.pixels().len(),
            r == self.spec_width() * self.spec_height(),
    {
        proof {
            use_type_invariant(self);
        }
        self.data.len()
    }

    /// The sum of the pixel of row `y` and column `x`.
    pub fn get(&self, y: usize, x: usize) -> (r: RGB)
        requires
            y < self.spec_height(),
            x < self.spec_width(),
        ensures
            0 <= self.position(y, x) < self.pixels().len(),
            r == self.pixels()[self.position(y, x)],
    {
        let _ = self.data.len();
        proof {
            use_type_invariant(self);
            lemma_position_in_range(y, x, self.width, self.height);
        }
        self.data[y * self.width + x]
    }

    /// Puts `color` where the pixel of row `y` and column `x` stands.
    pub fn set(&mut self, y: usize, x: usize, color: RGB)
        requires
            y < old(self).spec_height(),
            x < old(self).spec_width(),
        ensures
            final(self).spec_width() == old(self).spec_width(),
            final(self).spec_height() == old(self).spec_height(),
            final(self).samples() == old(self).samples(),
            0 <= old(self).position(y, x) < old(self).pixels().len(),
            final(self).pixels() == old(self).pixels().update(old(self).position(y, x), color),
    {
        let _ = self.data.len();
        proof {
            use_type_invariant(&*self);
            lemma_position_in_range(y, x, self.width, self.height);
        }
        let index: usize = y * self.width + x;
        self.data[index] = color;
    }
}

/// The pixel of a row and a column of the picture stands among its pixels.
pub proof fn lemma_position_in_range(y: usize, x: usize, width: usize, height: usize)
    requires
        y < height,
        x < width,
    ensures
        0 <= y * width + x < width * height,
        y * width <= width * height,
{
    assert(y * width + x < width * height && 0 <= y * width <= width * height)
        by (nonlinear_arith)
        requires
            0 <= y < height,
            0 <= x < width,
    ;
}

impl Image for PPM {
    closed spec fn spec_width(&self) -> usize {
        self.width
    }

    closed spec fn spec_height(&self) -> usize {
        self.height
    }

    /// The header, then the line of every pixel, row by row from the top.
    open spec fn encoding(&self) -> Seq<u8> {
        PPM::header(self.spec_width(), self.spec_height()) + PPM::lines(
            self.pixels(),
            self.samples(),
            self.pixels().len(),
        )
    }

    fn width(&self) -> (r: usize) {
        self.width
    }

    fn height(&self) -> (r: usize) {
        self.height
    }

    fn save(&self, writer: &mut Vec<u8>) {
        writer.push(80u8);
        writer.push(51u8);
        writer.push(10u8);
        write_decimal(writer, self.width as u64);
        writer.push(32u8);
        write_decimal(writer, self.height as u64);
        writer.push(10u8);
        writer.push(50u8);
        writer.push(53u8);
        writer.push(53u8);
        writer.push(10u8);
        assert(writer@ =~= old(writer)@ + PPM::header(self.width, self.height));
        let mut i: usize = 0;
        while i < self.data.len()
            invariant
                i <= self.data@.len(),
                writer@ == old(writer)@ + PPM::header(self.width, self.height) + PPM::lines(
                    self.data@,
                    self.samples_per_pixel,
                    i as nat,
                ),
            decreases self.data@.len() - i,
        {
            let px = self.data[i];
            px.write(self.samples_per_pixel, writer);
            i += 1;
            assert(writer@ =~= old(writer)@ + PPM::header(self.width, self.height) + PPM::lines(
                self.data@,
                self.samples_per_pixel,
                i as nat,
            ));
        }
        assert(writer@ =~= old(writer)@ + self.encoding());
    }
}

} // verus!
