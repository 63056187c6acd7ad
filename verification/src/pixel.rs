//! RGBA pixels and owned pixel buffers.

use vstd::prelude::*;

verus! {

/// One pixel: three color channels and an opacity, each from 0 to 255.
#[derive(Clone, Copy, Debug, PartialEq, Eq, Structural)]
pub struct Rgba {
    pub red: u8,
    pub green: u8,
    pub blue: u8,
    pub alpha: u8,
}

impl Rgba {
    /// The color that a packed 32-bit value holds: red in the highest byte, then green, blue
    /// and, in the lowest byte, alpha.
    pub open spec fn unpacked(packed: u32) -> Rgba {
        Rgba {
            red: (packed / 0x100_0000) as u8,
            green: (packed / 0x1_0000 % 0x100) as u8,
            blue: (packed / 0x100 % 0x100) as u8,
            alpha: (packed % 0x100) as u8,
        }
    }

    /// The 32-bit value that holds a color, the inverse of [`Rgba::unpacked`].
    pub open spec fn packed(self) -> int {
        self.red * 0x100_0000 + self.green * 0x1_0000 + self.blue * 0x100 + self.alpha
    }

    /// Unpacks a 32-bit RGBA value.
    pub fn from_packed(packed: u32) -> (color: Rgba)
        ensures
            color == Rgba::unpacked(packed),
            color.packed() == packed,
    {
        Rgba {
            red: (packed / 0x100_0000) as u8,
            green: (packed / 0x1_0000 % 0x100) as u8,
            blue: (packed / 0x100 % 0x100) as u8,
            alpha: (packed % 0x100) as u8,
        }
    }
}

/// The mathematical content of a pixel buffer: its dimensions and its pixels, row by row
/// from the top, each row from the left.
pub struct PixelGrid {
    pub width: nat,
    pub height: nat,
    pub pixels: Seq<Rgba>,
}

impl PixelGrid {
    /// Whether `(x, y)` names a pixel of the grid.
    pub open spec fn contains(self, x: int, y: int) -> bool {
        0 <= x < self.width && 0 <= y < self.height
    }

    /// The pixel in column `x` of row `y`.
    pub open spec fn at(self, x: int, y: int) -> Rgba
        recommends
            self.contains(x, y),
    {
        self.pixels[y * self.width + x]
    }

    /// A grid holds exactly one pixel for each coordinate.
    pub open spec fn wf(self) -> bool {
        self.pixels.len() == self.width * self.height
    }
}

/// The `i`-th pixel of a byte sequence that holds four bytes per pixel: red, green, blue,
/// alpha.
pub open spec fn pixel_of_bytes(bytes: Seq<u8>, i: int) -> Rgba {
    Rgba { red: bytes[4 * i], green: bytes[4 * i + 1], blue: bytes[4 * i + 2], alpha: bytes[4 * i + 3] }
}

/// The pixels that a byte sequence holds.
pub open spec fn pixels_of_bytes(bytes: Seq<u8>) -> Seq<Rgba> {
    Seq::new((bytes.len() / 4) as nat, |i: int| pixel_of_bytes(bytes, i))
}

/// A coordinate inside a grid has a row-major index inside the grid.
pub proof fn lemma_index_in_grid(width: int, height: int, x: int, y: int)
    requires
        0 <= x < width,
        0 <= y < height,
    ensures
        0 <= y * width + x < width * height,
{
    assert(y * width <= (height - 1) * width) by (nonlinear_arith)
        requires
            0 <= y <= height - 1,
            0 <= width,
    ;
    assert((height - 1) * width == height * width - width) by (nonlinear_arith);
    assert(height * width == width * height) by (nonlinear_arith);
    assert(0 <= y * width) by (nonlinear_arith)
        requires
            0 <= y,
            0 <= width,
    ;
}

/// Two coordinates of a grid with the same row-major index are the same coordinate.
pub proof fn lemma_index_unique(width: int, x1: int, y1: int, x2: int, y2: int)
    requires
        0 <= x1 < width,
        0 <= x2 < width,
        y1 * width + x1 == y2 * width + x2,
    ensures
        x1 == x2,
        y1 == y2,
{
    if y1 < y2 {
        assert(y2 * width >= (y1 + 1) * width) by (nonlinear_arith)
            requires
                y2 >= y1 + 1,
                width > 0,
        ;
        assert((y1 + 1) * width == y1 * width + width) by (nonlinear_arith);
    } else if y2 < y1 {
        assert(y1 * width >= (y2 + 1) * width) by (nonlinear_arith)
            requires
                y1 >= y2 + 1,
                width > 0,
        ;
        assert((y2 + 1) * width == y2 * width + width) by (nonlinear_arith);
    }
}

/// Whether an image of the given dimensions can be held: it has no more pixels than 32 bits
/// can count, and no more bytes than `isize::MAX`.
pub open spec fn holdable(width: u32, height: u32) -> bool {
    width * height <= u32::MAX && 4 * width * height <= isize::MAX
}

/// An owned image: `width` times `height` pixels of four bytes each.
pub struct PixelBuffer {
    width: u32,
    height: u32,
    data: Vec<u8>,
}

impl View for PixelBuffer {
    type V = PixelGrid;

    open spec fn view(&self) -> PixelGrid {
        PixelGrid {
            width: self.spec_width() as nat,
            height: self.spec_height() as nat,
            pixels: pixels_of_bytes(self.raw()),
        }
    }
}

impl PixelBuffer {
    /// The number of columns.
    pub closed spec fn spec_width(&self) -> u32 {
        self.width
    }

    /// The number of rows.
    pub closed spec fn spec_height(&self) -> u32 {
        self.height
    }

    /// The bytes of the buffer: four per pixel, rows from the top, each from the left.
    pub closed spec fn raw(&self) -> Seq<u8> {
        self.data@
    }

    /// The buffer holds exactly four bytes for each pixel, and no more pixels than 32 bits
    /// can count.
    pub open spec fn wf(&self) -> bool {
        &&& self.raw().len() == 4 * self.spec_width() * self.spec_height()
        &&& self.spec_width() * self.spec_height() <= u32::MAX
    }

    /// A well-formed buffer has a well-formed grid.
    pub proof fn lemma_view_wf(&self)
        requires
            self.wf(),
        ensures
            self@.wf(),
            self@.pixels.len() * 4 == self.raw().len(),
            self@.pixels.len() <= u32::MAX,
    {
        assert(4 * self.spec_width() * self.spec_height() == 4 * (self.spec_width()
            * self.spec_height())) by (nonlinear_arith);
    }

    /// Takes over a byte vector as an image of the given dimensions, if it has the length
    /// that they call for and the image has no more pixels than 32 bits can count.
    pub fn from_raw(width: u32, height: u32, data: Vec<u8>) -> (made: Option<PixelBuffer>)
        ensures
            made is Some <==> data@.len() == 4 * width * height && width * height <= u32::MAX,
            made matches Some(buffer) ==> {
                &&& buffer.wf()
                &&& buffer.spec_width() == width
                &&& buffer.spec_height() == height
                &&& buffer.raw() == data@
            },
    {
        assert(4 * width * height <= 4 * 0xffff_ffff * 0xffff_ffff) by (nonlinear_arith)
            requires
                width <= 0xffff_ffff,
                height <= 0xffff_ffff,
        ;
        assert(4 * width * height == 4 * (width * height)) by (nonlinear_arith);
        let needed: u128 = 4 * (width as u128) * (height as u128);
        if data.len() as u128 == needed && needed <= 4 * (u32::MAX as u128) {
            Some(PixelBuffer { width, height, data })
        } else {
            None
        }
    }

    /// An image of the given dimensions in which every pixel has the given color, unless it
    /// would have more pixels than 32 bits can count or more bytes than fit in memory
    /// (`isize::MAX`).
    pub fn filled(width: u32, height: u32, color: Rgba) -> (made: Option<PixelBuffer>)
        ensures
            made is Some <==> holdable(width, height),
            made matches Some(buffer) ==> {
                &&& buffer.wf()
                &&& buffer.spec_width() == width
                &&& buffer.spec_height() == height
                &&& forall|i: int| 0 <= i < width * height ==> buffer@.pixels[i] == color
            },
    {
        assert(4 * width * height <= 4 * 0xffff_ffff * 0xffff_ffff) by (nonlinear_arith)
            requires
                width <= 0xffff_ffff,
                height <= 0xffff_ffff,
        ;
        assert(4 * width * height == 4 * (width * height)) by (nonlinear_arith);
        let needed: u128 = 4 * (width as u128) * (height as u128);
        if needed > isize::MAX as u128 || needed > 4 * (u32::MAX as u128) {
            return None;
        }
        let count: usize = (needed / 4) as usize;
        assert(count == width * height) by (nonlinear_arith)
            requires
                count == needed / 4,
                needed == 4 * width * height,
        ;
        let mut data: Vec<u8> = Vec::with_capacity(needed as usize);
        let mut i: usize = 0;
        while i < count
            invariant
                i <= count,
                data@.len() == 4 * i,
                forall|j: int| 0 <= j < i ==> pixel_of_bytes(data@, j) == color,
            decreases count - i,
        {
            let ghost before = data@;
            data.push(color.red);
            data.push(color.green);
            data.push(color.blue);
            data.push(color.alpha);
            assert forall|j: int| 0 <= j < i + 1 implies pixel_of_bytes(data@, j) == color by {
                if j < i {
                    assert(pixel_of_bytes(before, j) == color);
                }
            }
            i += 1;
        }
        let buffer = PixelBuffer { width, height, data };
        assert(buffer.raw().len() == 4 * width * height) by (nonlinear_arith)
            requires
                buffer.raw().len() == 4 * count,
                count == width * height,
        ;
        Some(buffer)
    }

    /// The number of columns.
    pub fn width(&self) -> (width: u32)
        ensures
            width == self.spec_width(),
    {
        self.width
    }

    /// The number of rows.
    pub fn height(&self) -> (height: u32)
        ensures
            height == self.spec_height(),
    {
        self.height
    }

    /// The bytes of the image, four per pixel.
    pub fn as_raw(&self) -> (bytes: &Vec<u8>)
        ensures
            bytes@ == self.raw(),
    {
        &self.data
    }

    /// Gives up the image for its bytes.
    pub fn into_raw(self) -> (bytes: Vec<u8>)
        ensures
            bytes@ == self.raw(),
    {
        self.data
    }

    /// Where the four bytes of the pixel in column `x` of row `y` begin.
    fn offset(&self, x: u32, y: u32) -> (i: usize)
        requires
            self.wf(),
            self@.contains(x as int, y as int),
        ensures
            i == 4 * (y * self.spec_width() + x),
            i + 3 < self.raw().len(),
    {
        proof {
            lemma_index_in_grid(self.width as int, self.height as int, x as int, y as int);
            self.lemma_view_wf();
            assert(0 <= y * self.width) by (nonlinear_arith)
                requires
                    0 <= y,
                    0 <= self.width,
            ;
            assert(self.data.len() == self.data@.len());
        }
        4 * (y as usize * self.width as usize + x as usize)
    }

    /// The number of pixels.
    pub fn pixel_count(&self) -> (count: usize)
        requires
            self.wf(),
        ensures
            count == self@.pixels.len(),
    {
        self.data.len() / 4
    }

    /// The pixel at a row-major index.
    pub fn nth_pixel(&self, i: usize) -> (pixel: Rgba)
        requires
            i < self@.pixels.len(),
        ensures
            pixel == self@.pixels[i as int],
    {
        assert(self.data.len() == self.data@.len());
        Rgba {
            red: self.data[4 * i],
            green: self.data[4 * i + 1],
            blue: self.data[4 * i + 2],
            alpha: self.data[4 * i + 3],
        }
    }

    /// The pixel in column `x` of row `y`, if the image has one there.
    pub fn get_pixel(&self, x: u32, y: u32) -> (pixel: Option<Rgba>)
        requires
            self.wf(),
        ensures
            pixel == if self@.contains(x as int, y as int) {
                Some(self@.at(x as int, y as int))
            } else {
                None
            },
    {
        if x >= self.width || y >= self.height {
            return None;
        }
        proof {
            self.lemma_view_wf();
        }
        let i = self.offset(x, y);
        Some(Rgba { red: self.data[i], green: self.data[i + 1], blue: self.data[i + 2], alpha: self.data[i + 3] })
    }

    /// Overwrites the pixel in column `x` of row `y`.
    pub fn put_pixel(&mut self, x: u32, y: u32, pixel: Rgba)
        requires
            old(self).wf(),
            old(self)@.contains(x as int, y as int),
        ensures
            final(self).wf(),
            final(self)@.width == old(self)@.width,
            final(self)@.height == old(self)@.height,
            final(self)@.pixels == old(self)@.pixels.update(y * old(self)@.width + x, pixel),
            forall|cx: int, cy: int|
                old(self)@.contains(cx, cy) ==> #[trigger] final(self)@.at(cx, cy) == if cx == x && cy
                    == y {
                    pixel
                } else {
                    old(self)@.at(cx, cy)
                },
    {
        proof {
            self.lemma_view_wf();
        }
        let i = self.offset(x, y);
        self.data[i] = pixel.red;
        self.data[i + 1] = pixel.green;
        self.data[i + 2] = pixel.blue;
        self.data[i + 3] = pixel.alpha;
        assert(self@.pixels =~= old(self)@.pixels.update(y * old(self)@.width + x, pixel));
        assert forall|cx: int, cy: int| old(self)@.contains(cx, cy) implies #[trigger] self@.at(cx, cy)
            == if cx == x && cy == y {
            pixel
        } else {
            old(self)@.at(cx, cy)
        } by {
            lemma_index_in_grid(self.width as int, self.height as int, cx, cy);
            if !(cx == x && cy == y) {
                if cy * self.width + cx == y * self.width + x {
                    lemma_index_unique(self.width as int, cx, cy, x as int, y as int);
                }
            }
        }
    }
}

} // verus!
