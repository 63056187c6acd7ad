//! The tile library: its color index and the cache of resized tiles.

use crate::color::{get_average_rgb, mean_of, visible_count, AverageRgb};
use crate::index::{answers, ColorIndex, EmojiData};
use crate::pixel::{PixelBuffer, Rgba};
use vstd::arithmetic::div_mod::{lemma_fundamental_div_mod, lemma_mod_bound};
use vstd::prelude::*;

verus! {

/// Calls `image::imageops::resize` with the Lanczos filter of window 3 on an image given by
/// its bytes, four per pixel. The result has the dimensions asked for, and where these are
/// the image's own it is a copy of the image. Nothing else is claimed of the pixels: they
/// come from floating-point sines whose last digits may differ between machines. The call
/// panics on an image without pixels and where a buffer of it would exceed `isize::MAX`
/// bytes (its intermediate image holds four 4-byte numbers per pixel, as wide as the source
/// and as high as the result); `requires` leaves these out. It also leaves out sides longer
/// than [`LONGEST_SIDE`], beyond which the filter can no longer tell pixel positions apart.
#[verifier::external_body]
fn lanczos3(bytes: &Vec<u8>, width: u32, height: u32, new_width: u32, new_height: u32) -> (resized: Vec<u8>)
    requires
        bytes@.len() == 4 * width * height,
        width > 0,
        height > 0,
        new_width > 0,
        new_height > 0,
        width <= LONGEST_SIDE,
        height <= LONGEST_SIDE,
        new_width <= LONGEST_SIDE,
        new_height <= LONGEST_SIDE,
        16 * width * new_height <= isize::MAX,
        4 * new_width * new_height <= isize::MAX,
    ensures
        resized@.len() == 4 * new_width * new_height,
        new_width == width && new_height == height ==> resized@ == bytes@,
{
    let source: image::ImageBuffer<image::Rgba<u8>, &[u8]> = image::ImageBuffer::from_raw(
        width,
        height,
        bytes.as_slice(),
    ).unwrap();
    image::imageops::resize(&source, new_width, new_height, image::imageops::FilterType::Lanczos3).into_raw()
}

/// The quotient of two natural numbers, rounded to the nearest integer, halves upwards.
pub open spec fn rounded_quotient(numerator: int, denominator: int) -> int
    recommends
        numerator >= 0,
        denominator > 0,
{
    (2 * numerator + denominator) / (2 * denominator)
}

/// The dimensions of an image after it was fitted into a square of side `size`: the longer
/// side becomes `size`, the shorter one is scaled by the same factor and rounded. An image
/// without any extent stays so.
pub open spec fn fitted(width: u32, height: u32, size: u32) -> (int, int) {
    if width == 0 && height == 0 {
        (0, 0)
    } else if width >= height {
        (size as int, rounded_quotient(height * size, width as int))
    } else {
        (rounded_quotient(width * size, height as int), size as int)
    }
}

/// Rounding a quotient moves it by at most one half.
pub proof fn lemma_rounded_quotient(numerator: int, denominator: int)
    requires
        numerator >= 0,
        denominator > 0,
    ensures
        -denominator <= 2 * (rounded_quotient(numerator, denominator) * denominator - numerator)
            <= denominator,
        0 <= rounded_quotient(numerator, denominator),
{
    let q = rounded_quotient(numerator, denominator);
    lemma_fundamental_div_mod(2 * numerator + denominator, 2 * denominator);
    lemma_mod_bound(2 * numerator + denominator, 2 * denominator);
    assert(2 * denominator * q == 2 * (q * denominator)) by (nonlinear_arith);
    if q < 0 {
        assert(2 * denominator * q <= -2 * denominator) by (nonlinear_arith)
            requires
                q <= -1,
                denominator > 0,
        ;
    }
}

/// Fitting keeps the aspect ratio: the longer side of the result is exactly `size`, and the
/// shorter one differs from its exact proportional length by at most half a pixel.
pub proof fn lemma_fitted_keeps_aspect(width: u32, height: u32, size: u32)
    requires
        width > 0 || height > 0,
    ensures
        width >= height ==> {
            &&& fitted(width, height, size).0 == size
            &&& 0 <= fitted(width, height, size).1 <= size
            &&& -width <= 2 * (fitted(width, height, size).1 * width - height * size) <= width
        },
        width <= height ==> {
            &&& fitted(width, height, size).1 == size
            &&& 0 <= fitted(width, height, size).0 <= size
            &&& -height <= 2 * (fitted(width, height, size).0 * height - width * size) <= height
        },
{
    if width >= height {
        lemma_shorter_side(height, width, size);
    }
    if width <= height {
        lemma_shorter_side(width, height, size);
    }
}

/// The scaled shorter side is at most `size` and within half a pixel of its exact length.
proof fn lemma_shorter_side(shorter: u32, longer: u32, size: u32)
    requires
        shorter <= longer,
        longer > 0,
    ensures
        0 <= rounded_quotient(shorter * size, longer as int) <= size,
        -longer <= 2 * (rounded_quotient(shorter * size, longer as int) * longer - shorter * size)
            <= longer,
        shorter == longer ==> rounded_quotient(shorter * size, longer as int) == size,
        shorter == 0 ==> rounded_quotient(shorter * size, longer as int) == 0,
{
    let q = rounded_quotient(shorter * size, longer as int);
    assert(0 <= shorter * size <= longer * size) by (nonlinear_arith)
        requires
            0 <= shorter <= longer,
            0 <= size,
    ;
    lemma_rounded_quotient(shorter * size, longer as int);
    if q > size {
        assert(q * longer >= size * longer + longer) by (nonlinear_arith)
            requires
                q >= size + 1,
                longer > 0,
        ;
        assert(size * longer == longer * size) by (nonlinear_arith);
    }
    if shorter == 0 && q > 0 {
        assert(q * longer >= longer) by (nonlinear_arith)
            requires
                q >= 1,
                longer > 0,
        ;
    }
    if shorter == longer && q < size {
        assert(q * longer <= size * longer - longer) by (nonlinear_arith)
            requires
                q <= size - 1,
                longer > 0,
        ;
        assert(size * longer == longer * size) by (nonlinear_arith);
    }
}

/// Computes [`fitted`].
pub fn fit_within(width: u32, height: u32, size: u32) -> (dimensions: (u32, u32))
    ensures
        (dimensions.0 as int, dimensions.1 as int) == fitted(width, height, size),
{
    if width == 0 && height == 0 {
        (0, 0)
    } else if width >= height {
        (size, scale_side(height, width, size))
    } else {
        (scale_side(width, height, size), size)
    }
}

/// The shorter side after scaling the longer one to `size`.
fn scale_side(shorter: u32, longer: u32, size: u32) -> (scaled: u32)
    requires
        shorter <= longer,
        longer > 0,
    ensures
        scaled == rounded_quotient(shorter * size, longer as int),
{
    proof {
        lemma_shorter_side(shorter, longer, size);
        assert(0 <= shorter * size <= 0xffff_ffff * 0xffff_ffff) by (nonlinear_arith)
            requires
                0 <= shorter <= 0xffff_ffff,
                0 <= size <= 0xffff_ffff,
        ;
    }
    let numerator: u128 = 2 * ((shorter as u128) * (size as u128)) + longer as u128;
    (numerator / (2 * longer as u128)) as u32
}

/// The longest side that is resampled: up to here 32-bit floating-point numbers, in which the
/// filter computes, tell neighboring pixel positions apart.
pub const LONGEST_SIDE: u32 = 0x100_0000;

/// Whether the resampling of an image to the given dimensions can be carried out: no side of
/// the image or of the result is longer than [`LONGEST_SIDE`], the buffers count their bytes
/// in `isize`, and an image its pixels in 32 bits.
pub open spec fn resizable(width: u32, height: u32, new_width: int, new_height: int) -> bool {
    &&& width <= LONGEST_SIDE
    &&& height <= LONGEST_SIDE
    &&& new_width <= LONGEST_SIDE
    &&& new_height <= LONGEST_SIDE
    &&& 16 * width * new_height <= isize::MAX
    &&& 4 * new_width * new_height <= isize::MAX
    &&& new_width * new_height <= u32::MAX
}

/// Resizes an image so that it fits into a square of side `size` and keeps its aspect ratio,
/// unless a side is too long or the buffers would not fit in memory. An image that has the
/// fitted dimensions already is copied.
pub fn resize_to_fit(image: &PixelBuffer, size: u32) -> (resized: Option<PixelBuffer>)
    requires
        image.wf(),
    ensures
        resized is Some <==> resizable(
            image.spec_width(),
            image.spec_height(),
            fitted(image.spec_width(), image.spec_height(), size).0,
            fitted(image.spec_width(), image.spec_height(), size).1,
        ),
        resized matches Some(tile) ==> {
            &&& tile.wf()
            &&& (tile@.width as int, tile@.height as int) == fitted(
                image.spec_width(),
                image.spec_height(),
                size,
            )
            &&& (tile@.width == image@.width && tile@.height == image@.height ==> tile@ == image@)
        },
{
    let (width, height) = fit_within(image.width(), image.height(), size);
    proof {
        assert(16 * image.spec_width() * height <= 16 * 0xffff_ffff * 0xffff_ffff && 4 * width * height
            <= 4 * 0xffff_ffff * 0xffff_ffff) by (nonlinear_arith)
            requires
                0 <= image.spec_width() <= 0xffff_ffff,
                0 <= width <= 0xffff_ffff,
                0 <= height <= 0xffff_ffff,
        ;
    }
    assert(4 * width * height == 4 * (width * height)) by (nonlinear_arith);
    let scratch: u128 = 16 * (image.width() as u128) * (height as u128);
    let needed: u128 = 4 * (width as u128) * (height as u128);
    if image.width() > LONGEST_SIDE || image.height() > LONGEST_SIDE || width > LONGEST_SIDE || height
        > LONGEST_SIDE {
        return None;
    }
    if scratch > isize::MAX as u128 || needed > isize::MAX as u128 || needed > 4 * (u32::MAX as u128) {
        return None;
    }
    if width == 0 || height == 0 {
        assert(4 * width * height == 0) by (nonlinear_arith)
            requires
                width == 0 || height == 0,
        ;
        let empty = PixelBuffer::from_raw(width, height, Vec::new());
        proof {
            if width == image.spec_width() && height == image.spec_height() {
                assert(4 * image.spec_width() * image.spec_height() == 0) by (nonlinear_arith)
                    requires
                        image.spec_width() == 0 || image.spec_height() == 0,
                ;
                assert(empty.unwrap()@.pixels =~= image@.pixels);
            }
        }
        return empty;
    }
    proof {
        if image.spec_width() >= image.spec_height() {
            lemma_shorter_side(image.spec_height(), image.spec_width(), size);
        } else {
            lemma_shorter_side(image.spec_width(), image.spec_height(), size);
        }
    }
    let bytes = lanczos3(image.as_raw(), image.width(), image.height(), width, height);
    PixelBuffer::from_raw(width, height, bytes)
}

/// What became of a resized tile that was offered to the cache.
#[derive(Clone, Copy, Debug, PartialEq, Eq, Structural)]
pub enum CacheOutcome {
    /// The tile was resized and stored.
    Stored,
    /// The cache holds the tile already, and keeps what it holds.
    AlreadyCached,
    /// The library has no tile at this position.
    UnknownTile,
    /// The tile could not be resized: a side is too long, or the buffers would not fit in
    /// memory.
    TooLarge,
}

/// What becomes of an image that is offered to the cache for a tile: the cache has slots for
/// the tiles of the library only, keeps what it holds, and stores what can be resized.
pub open spec fn offer_outcome(
    cached: Seq<Option<PixelBuffer>>,
    tile: usize,
    width: u32,
    height: u32,
    image_size: u32,
) -> CacheOutcome {
    if tile >= cached.len() {
        CacheOutcome::UnknownTile
    } else if cached[tile as int] is Some {
        CacheOutcome::AlreadyCached
    } else if !resizable(width, height, fitted(width, height, image_size).0, fitted(width, height, image_size).1) {
        CacheOutcome::TooLarge
    } else {
        CacheOutcome::Stored
    }
}

/// Whether `after` is the cache that follows `before` when the image is offered for a tile:
/// no other slot changes, and the tile's slot changes only where the image is stored, to the
/// image fitted into a square of side `image_size`.
pub open spec fn offered(
    before: Seq<Option<PixelBuffer>>,
    after: Seq<Option<PixelBuffer>>,
    tile: usize,
    image: PixelBuffer,
    image_size: u32,
) -> bool {
    &&& after.len() == before.len()
    &&& forall|i: int| 0 <= i < before.len() && i != tile ==> after[i] == before[i]
    &&& if offer_outcome(before, tile, image.spec_width(), image.spec_height(), image_size)
        == CacheOutcome::Stored {
        after[tile as int] matches Some(held) && {
            &&& held.wf()
            &&& (held@.width as int, held@.height as int) == fitted(
                image.spec_width(),
                image.spec_height(),
                image_size,
            )
            &&& (held@.width == image@.width && held@.height == image@.height ==> held@ == image@)
        }
    } else {
        after == before
    }
}

/// The tile library of one run: the color index over all tiles, and for each tile its image
/// resized for placement, once it has been asked for.
pub struct EmojiManager {
    emoji_cache: Vec<Option<PixelBuffer>>,
    emoji_index: ColorIndex,
}

impl EmojiManager {
    /// The entries of the color index, in the order in which the tiles were added.
    pub closed spec fn entries(&self) -> Seq<EmojiData> {
        self.emoji_index@
    }

    /// The resized image of each tile, where the cache holds one.
    pub closed spec fn cached(&self) -> Seq<Option<PixelBuffer>> {
        self.emoji_cache@
    }

    /// The cache has one slot for each tile, and what it holds are images.
    pub closed spec fn wf(&self) -> bool {
        &&& self.emoji_index.wf()
        &&& self.emoji_cache@.len() == self.emoji_index@.len()
        &&& forall|i: int|
            0 <= i < self.emoji_cache@.len() ==> ((#[trigger] self.emoji_cache@[i]) matches Some(tile)
                ==> tile.wf())
    }

    /// What well-formedness means for a caller.
    pub proof fn lemma_wf(&self)
        requires
            self.wf(),
        ensures
            self.cached().len() == self.entries().len(),
            forall|i: int|
                0 <= i < self.entries().len() ==> (#[trigger] self.entries()[i]).average_rgb.wf(),
            forall|i: int|
                0 <= i < self.cached().len() ==> ((#[trigger] self.cached()[i]) matches Some(tile)
                    ==> tile.wf()),
    {
        self.emoji_index.lemma_wf();
    }

    /// A library without tiles.
    pub fn new() -> (manager: EmojiManager)
        ensures
            manager.wf(),
            manager.entries().len() == 0,
            manager.cached().len() == 0,
    {
        EmojiManager { emoji_cache: Vec::new(), emoji_index: ColorIndex::new() }
    }

    /// The number of tiles.
    pub fn len(&self) -> (len: usize)
        requires
            self.wf(),
        ensures
            len == self.entries().len(),
    {
        self.emoji_index.len()
    }

    /// Takes a tile into the library under the given identifier: computes its mean color over
    /// its visible pixels and adds it to the color index. Gives the tile's position. A tile
    /// without visible pixels is left out.
    pub fn add_emoji(&mut self, image_id: String, image: &PixelBuffer) -> (added: Option<usize>)
        requires
            old(self).wf(),
            image.wf(),
        ensures
            final(self).wf(),
            added == if visible_count(image@.pixels) == 0 {
                None
            } else {
                Some(old(self).entries().len() as usize)
            },
            added is None ==> final(self).entries() == old(self).entries() && final(self).cached() == old(
                self,
            ).cached(),
            added is Some ==> {
                &&& final(self).entries() == old(self).entries().push(
                    EmojiData { image_id, average_rgb: mean_of(image@.pixels) },
                )
                &&& final(self).cached() == old(self).cached().push(None)
            },
    {
        match get_average_rgb(image) {
            None => None,
            Some(average_rgb) => {
                let position = self.emoji_index.append(EmojiData { image_id, average_rgb });
                self.emoji_cache.push(None);
                assert forall|i: int| 0 <= i < self.emoji_cache@.len() implies ((
                #[trigger] self.emoji_cache@[i]) matches Some(tile) ==> tile.wf()) by {
                    if i < position {
                        assert(old(self).emoji_cache@[i] == self.emoji_cache@[i]);
                    }
                }
                Some(position)
            },
        }
    }

    /// The position of the tile whose mean color is nearest to the pixel's color, by squared
    /// Euclidean distance; of several at the same distance, the one added first. A fully
    /// transparent pixel has no nearest tile, nor has any pixel in an empty library.
    pub fn get_nearest_emoji(&self, pixel: Rgba) -> (found: Option<usize>)
        requires
            self.wf(),
        ensures
            answers(self.entries(), pixel, found),
    {
        self.emoji_index.nearest(pixel)
    }

    /// The identifier under which a tile was added.
    pub fn emoji_id(&self, tile: usize) -> (image_id: Option<&String>)
        requires
            self.wf(),
        ensures
            image_id == if tile < self.entries().len() {
                Some(&self.entries()[tile as int].image_id)
            } else {
                None
            },
    {
        match self.emoji_index.get(tile) {
            Some(entry) => Some(&entry.image_id),
            None => None,
        }
    }

    /// The mean color of a tile.
    pub fn emoji_average(&self, tile: usize) -> (average: Option<AverageRgb>)
        requires
            self.wf(),
        ensures
            average == if tile < self.entries().len() {
                Some(self.entries()[tile as int].average_rgb)
            } else {
                None
            },
    {
        match self.emoji_index.get(tile) {
            Some(entry) => Some(entry.average_rgb),
            None => None,
        }
    }

    /// The resized image of a tile, if the cache holds it.
    pub fn cached_emoji(&self, tile: usize) -> (image: Option<&PixelBuffer>)
        requires
            self.wf(),
        ensures
            image matches Some(held) ==> tile < self.cached().len() && self.cached()[tile as int]
                == Some(*held) && held.wf(),
            image is None ==> tile >= self.cached().len() || self.cached()[tile as int] is None,
    {
        if tile < self.emoji_cache.len() {
            self.emoji_cache[tile].as_ref()
        } else {
            None
        }
    }

    /// Offers the decoded image of a tile to the cache. If the cache holds nothing for the
    /// tile yet, the image is fitted into a square of side `image_size` and stored; what the
    /// cache holds already stays, whatever size it was fitted to.
    pub fn cache_emoji(&mut self, tile: usize, image: &PixelBuffer, image_size: u32) -> (outcome:
        CacheOutcome)
        requires
            old(self).wf(),
            image.wf(),
        ensures
            final(self).wf(),
            final(self).entries() == old(self).entries(),
            outcome == offer_outcome(
                old(self).cached(),
                tile,
                image.spec_width(),
                image.spec_height(),
                image_size,
            ),
            offered(old(self).cached(), final(self).cached(), tile, *image, image_size),
    {
        if tile >= self.emoji_cache.len() {
            return CacheOutcome::UnknownTile;
        }
        if self.emoji_cache[tile].is_some() {
            return CacheOutcome::AlreadyCached;
        }
        match resize_to_fit(image, image_size) {
            None => CacheOutcome::TooLarge,
            Some(resized) => {
                self.emoji_cache[tile] = Some(resized);
                assert forall|i: int| 0 <= i < self.emoji_cache@.len() implies ((
                #[trigger] self.emoji_cache@[i]) matches Some(held) ==> held.wf()) by {
                    if i != tile {
                        assert(old(self).emoji_cache@[i] == self.emoji_cache@[i]);
                    }
                }
                CacheOutcome::Stored
            },
        }
    }
}

} // verus!
