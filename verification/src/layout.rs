//! Layouts: for each pixel of a list, the tile that belongs at its coordinate.

use crate::index::{is_first_nearest, ColorIndex, EmojiData, IndexError};
use crate::pixel::Rgba;
use vstd::prelude::*;

verus! {

/// A target pixel: its coordinate and its color.
#[derive(Clone, Copy, Debug)]
pub struct PixelData {
    pub x: u32,
    pub y: u32,
    pub rgb: [u8; 3],
}

impl PixelData {
    /// The pixel's color, fully opaque.
    pub open spec fn color(self) -> Rgba {
        Rgba { red: self.rgb[0], green: self.rgb[1], blue: self.rgb[2], alpha: 255 }
    }
}

/// Which tile belongs at which coordinate.
#[derive(Debug)]
pub struct EmojiPlacement {
    pub image_id: String,
    pub x: u32,
    pub y: u32,
}

/// Whether a placement is the one for a pixel: at the pixel's coordinate, the tile whose mean
/// color is nearest to the pixel's color.
pub open spec fn places(entries: Seq<EmojiData>, pixel: PixelData, placement: EmojiPlacement) -> bool {
    &&& placement.x == pixel.x
    &&& placement.y == pixel.y
    &&& exists|i: int|
        #![trigger entries[i]]
        is_first_nearest(entries, pixel.color(), i) && placement.image_id@ == entries[i].image_id@
}

/// A color index that answers whole lists of pixels.
pub struct EmojiManagerWasm {
    index: ColorIndex,
}

impl EmojiManagerWasm {
    /// The entries of the color index, in the order in which they were given.
    pub closed spec fn entries(&self) -> Seq<EmojiData> {
        self.index@
    }

    /// The color index is well-formed.
    pub closed spec fn wf(&self) -> bool {
        self.index.wf()
    }

    /// Builds the index from a list of tiles, unless one of them has sums and a count that
    /// describe no mean color.
    pub fn new(emoji_data: Vec<EmojiData>) -> (made: Result<EmojiManagerWasm, IndexError>)
        ensures
            made is Ok <==> forall|i: int|
                0 <= i < emoji_data@.len() ==> (#[trigger] emoji_data@[i]).average_rgb.wf(),
            made matches Ok(manager) ==> manager.wf() && manager.entries() == emoji_data@,
            made matches Err(error) ==> error == IndexError::InvalidAverage,
    {
        match ColorIndex::from_entries(emoji_data) {
            Ok(index) => Ok(EmojiManagerWasm { index }),
            Err(error) => Err(error),
        }
    }

    /// For each pixel of the list, in order, its placement. An empty index places nothing.
    pub fn generate_layout(&self, pixels: &Vec<PixelData>) -> (placements: Vec<EmojiPlacement>)
        requires
            self.wf(),
        ensures
            self.entries().len() == 0 ==> placements@.len() == 0,
            self.entries().len() > 0 ==> placements@.len() == pixels@.len(),
            forall|k: int|
                0 <= k < placements@.len() ==> places(self.entries(), pixels@[k], #[trigger] placements@[k]),
    {
        let mut placements: Vec<EmojiPlacement> = Vec::new();
        let mut k: usize = 0;
        while k < pixels.len()
            invariant
                self.wf(),
                k <= pixels@.len(),
                self.entries().len() == 0 ==> placements@.len() == 0,
                self.entries().len() > 0 ==> placements@.len() == k,
                forall|j: int|
                    0 <= j < placements@.len() ==> places(
                        self.entries(),
                        pixels@[j],
                        #[trigger] placements@[j],
                    ),
            decreases pixels@.len() - k,
        {
            let pixel = pixels[k];
            let color = Rgba { red: pixel.rgb[0], green: pixel.rgb[1], blue: pixel.rgb[2], alpha: 255 };
            match self.index.nearest(color) {
                Some(tile) => {
                    let entry = self.index.get(tile).unwrap();
                    let placement = EmojiPlacement { image_id: entry.image_id.clone(), x: pixel.x, y: pixel.y };
                    assert(places(self.entries(), pixels@[k as int], placement)) by {
                        assert(is_first_nearest(self.entries(), pixel.color(), tile as int));
                        assert(placement.image_id@ == self.entries()[tile as int].image_id@);
                    }
                    let ghost before = placements@;
                    placements.push(placement);
                    assert forall|j: int| 0 <= j < placements@.len() implies places(
                        self.entries(),
                        pixels@[j],
                        #[trigger] placements@[j],
                    ) by {
                        if j < k {
                            assert(placements@[j] == before[j]);
                        }
                    }
                },
                None => {},
            }
            k += 1;
        }
        placements
    }
}

} // verus!
