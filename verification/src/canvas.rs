//! The output image and the placement of tiles on it.

use crate::pixel::{holdable, PixelBuffer, PixelGrid, Rgba};
use image::Pixel;
use vstd::prelude::*;

verus! {

/// What `image`'s alpha blending leaves in a bottom pixel after a top pixel was blended onto
/// it. The crate computes it in 32-bit floating point from the eight channel values alone.
pub uninterp spec fn blended(bottom: Rgba, top: Rgba) -> Rgba;

/// Calls `image::Pixel::blend` on a copy of `bottom`, with `top` as the pixel to blend onto
/// it. The contract names the result and adds the two cases that the method decides before it
/// computes anything: a fully transparent top pixel leaves the bottom pixel as it is, and a
/// fully opaque one replaces it.
#[verifier::external_body]
fn blend(bottom: Rgba, top: Rgba) -> (out: Rgba)
    ensures
        out == blended(bottom, top),
        top.alpha == 0 ==> out == bottom,
        top.alpha == 255 ==> out == top,
{
    let mut pixel = image::Rgba([bottom.red, bottom.green, bottom.blue, bottom.alpha]);
    pixel.blend(&image::Rgba([top.red, top.green, top.blue, top.alpha]));
    Rgba { red: pixel.0[0], green: pixel.0[1], blue: pixel.0[2], alpha: pixel.0[3] }
}

/// The pixel that results from drawing `top` over `bottom`.
pub open spec fn composite(bottom: Rgba, top: Rgba) -> Rgba {
    if top.alpha == 0 {
        bottom
    } else if top.alpha == 255 {
        top
    } else {
        blended(bottom, top)
    }
}

/// The pixel at `(cx, cy)` of a canvas after a tile was placed with its top-left corner at
/// `(x, y)`: where the tile covers the coordinate, the tile's pixel drawn over the canvas's;
/// elsewhere the canvas's pixel. Tile pixels that fall outside the canvas are clipped.
pub open spec fn placed_at(canvas: PixelGrid, tile: PixelGrid, x: int, y: int, cx: int, cy: int) -> Rgba {
    if tile.contains(cx - x, cy - y) {
        composite(canvas.at(cx, cy), tile.at(cx - x, cy - y))
    } else {
        canvas.at(cx, cy)
    }
}

/// A tile without any transparency replaces each canvas pixel that it covers with its own.
pub proof fn lemma_opaque_tile_replaces(canvas: PixelGrid, tile: PixelGrid, x: int, y: int)
    requires
        forall|tx: int, ty: int| tile.contains(tx, ty) ==> (#[trigger] tile.at(tx, ty)).alpha == 255,
    ensures
        forall|cx: int, cy: int|
            tile.contains(cx - x, cy - y) ==> #[trigger] placed_at(canvas, tile, x, y, cx, cy)
                == tile.at(cx - x, cy - y),
        forall|cx: int, cy: int|
            !tile.contains(cx - x, cy - y) ==> #[trigger] placed_at(canvas, tile, x, y, cx, cy)
                == canvas.at(cx, cy),
{
}

/// A fully transparent tile leaves every canvas pixel as it was.
pub proof fn lemma_transparent_tile_changes_nothing(canvas: PixelGrid, tile: PixelGrid, x: int, y: int)
    requires
        forall|tx: int, ty: int| tile.contains(tx, ty) ==> (#[trigger] tile.at(tx, ty)).alpha == 0,
    ensures
        forall|cx: int, cy: int| #[trigger] placed_at(canvas, tile, x, y, cx, cy) == canvas.at(cx, cy),
{
}

/// The background of a canvas where none is asked for: opaque white.
pub const DEFAULT_BACKGROUND: u32 = 0xFFFF_FFFF;

/// Why a canvas could not be made.
#[derive(Clone, Copy, Debug, PartialEq, Eq, Structural)]
pub enum CanvasError {
    /// The canvas would have more pixels than 32 bits can count, or more bytes than fit in
    /// memory.
    TooLarge,
}

/// The output image. Tiles are composited onto it in place.
pub struct CanvasManager {
    canvas: PixelBuffer,
}

impl View for CanvasManager {
    type V = PixelGrid;

    open spec fn view(&self) -> PixelGrid {
        self.buffer()@
    }
}

impl CanvasManager {
    /// The buffer that holds the canvas.
    pub closed spec fn buffer(&self) -> PixelBuffer {
        self.canvas
    }

    /// The canvas holds four bytes for each of its pixels.
    pub open spec fn wf(&self) -> bool {
        self.buffer().wf()
    }

    /// A canvas of the given dimensions, every pixel of which has the background color that
    /// the packed value holds.
    pub fn new(width: u32, height: u32, background_color: u32) -> (made: Result<CanvasManager, CanvasError>)
        ensures
            made is Ok <==> holdable(width, height),
            made matches Ok(manager) ==> {
                &&& manager.wf()
                &&& manager@.width == width
                &&& manager@.height == height
                &&& forall|i: int|
                    0 <= i < width * height ==> manager@.pixels[i] == Rgba::unpacked(background_color)
            },
            made matches Err(error) ==> error == CanvasError::TooLarge,
    {
        match PixelBuffer::filled(width, height, Rgba::from_packed(background_color)) {
            Some(canvas) => Ok(CanvasManager { canvas }),
            None => Err(CanvasError::TooLarge),
        }
    }

    /// Draws a tile over the canvas with its top-left corner at `(x, y)`. The part of the
    /// tile that falls outside the canvas is clipped.
    pub fn place_emoji(&mut self, emoji: &PixelBuffer, x: u32, y: u32)
        requires
            old(self).wf(),
            emoji.wf(),
        ensures
            final(self).wf(),
            final(self)@.width == old(self)@.width,
            final(self)@.height == old(self)@.height,
            forall|cx: int, cy: int|
                old(self)@.contains(cx, cy) ==> #[trigger] final(self)@.at(cx, cy) == placed_at(
                    old(self)@,
                    emoji@,
                    x as int,
                    y as int,
                    cx,
                    cy,
                ),
    {
        let width = self.canvas.width();
        let height = self.canvas.height();
        if x >= width || y >= height {
            return ;
        }
        let columns = if emoji.width() < width - x {
            emoji.width()
        } else {
            width - x
        };
        let rows = if emoji.height() < height - y {
            emoji.height()
        } else {
            height - y
        };
        let mut ty: u32 = 0;
        while ty < rows
            invariant
                ty <= rows,
                self.wf(),
                emoji.wf(),
                self@.width == old(self)@.width == width,
                self@.height == old(self)@.height == height,
                x < width,
                y < height,
                columns <= emoji@.width,
                columns <= width - x,
                columns == emoji@.width || columns == width - x,
                rows <= emoji@.height,
                rows <= height - y,
                forall|cx: int, cy: int|
                    old(self)@.contains(cx, cy) ==> #[trigger] self@.at(cx, cy) == if cy - y < ty {
                        placed_at(old(self)@, emoji@, x as int, y as int, cx, cy)
                    } else {
                        old(self)@.at(cx, cy)
                    },
            decreases rows - ty,
        {
            let mut tx: u32 = 0;
            while tx < columns
                invariant
                    tx <= columns,
                    ty < rows,
                    self.wf(),
                    emoji.wf(),
                    self@.width == old(self)@.width == width,
                    self@.height == old(self)@.height == height,
                    x < width,
                    y < height,
                    columns <= emoji@.width,
                    columns <= width - x,
                    rows <= emoji@.height,
                    rows <= height - y,
                    forall|cx: int, cy: int|
                        old(self)@.contains(cx, cy) ==> #[trigger] self@.at(cx, cy) == if cy - y < ty
                            || (cy - y == ty && cx - x < tx) {
                            placed_at(old(self)@, emoji@, x as int, y as int, cx, cy)
                        } else {
                            old(self)@.at(cx, cy)
                        },
                decreases columns - tx,
            {
                let top = emoji.get_pixel(tx, ty).unwrap();
                let bottom = self.canvas.get_pixel(x + tx, y + ty).unwrap();
                let ghost before = self@;
                self.canvas.put_pixel(x + tx, y + ty, blend(bottom, top));
                assert forall|cx: int, cy: int| old(self)@.contains(cx, cy) implies #[trigger] self@.at(
                    cx,
                    cy,
                ) == if cy - y < ty || (cy - y == ty && cx - x < tx + 1) {
                    placed_at(old(self)@, emoji@, x as int, y as int, cx, cy)
                } else {
                    old(self)@.at(cx, cy)
                } by {
                    assert(before.contains(cx, cy));
                    assert(before.at(cx, cy) == if cy - y < ty || (cy - y == ty && cx - x < tx) {
                        placed_at(old(self)@, emoji@, x as int, y as int, cx, cy)
                    } else {
                        old(self)@.at(cx, cy)
                    });
                }
                tx += 1;
            }
            ty += 1;
        }
    }

    /// The canvas as an image.
    pub fn canvas(&self) -> (buffer: &PixelBuffer)
        ensures
            *buffer == self.buffer(),
    {
        &self.canvas
    }
}

} // verus!
