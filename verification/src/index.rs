//! The color index: which tile's mean color is nearest to a pixel's color.

use crate::color::{lemma_closer_carries, AverageRgb, Channel};
use crate::pixel::Rgba;
use crate::tree::{leads, Tree};
use vstd::prelude::*;

verus! {

/// One tile of the library as the index knows it: its identifier and its mean color.
#[derive(Debug)]
pub struct EmojiData {
    pub image_id: String,
    pub average_rgb: AverageRgb,
}

/// Whether entry `i` is the nearest to the pixel's color: no entry is closer, and of the
/// entries at the same distance it is the one that was added first.
pub open spec fn is_first_nearest(entries: Seq<EmojiData>, pixel: Rgba, i: int) -> bool {
    &&& 0 <= i < entries.len()
    &&& forall|j: int|
        0 <= j < entries.len() ==> (#[trigger] entries[j]).average_rgb.closer(
            entries[i].average_rgb,
            pixel,
        ) == false
    &&& forall|j: int|
        0 <= j < i ==> entries[i].average_rgb.closer((#[trigger] entries[j]).average_rgb, pixel)
}

/// What a query for the tile nearest to a pixel answers: nothing for a fully transparent
/// pixel or an empty index, else the position of the nearest entry.
pub open spec fn answers(entries: Seq<EmojiData>, pixel: Rgba, found: Option<usize>) -> bool {
    match found {
        Some(i) => pixel.alpha != 0 && is_first_nearest(entries, pixel, i as int),
        None => pixel.alpha == 0 || entries.len() == 0,
    }
}

/// At most one entry is the nearest.
pub proof fn lemma_first_nearest_unique(entries: Seq<EmojiData>, pixel: Rgba, i: int, j: int)
    requires
        is_first_nearest(entries, pixel, i),
        is_first_nearest(entries, pixel, j),
    ensures
        i == j,
{
    if i < j {
        assert(entries[j].average_rgb.closer(entries[i].average_rgb, pixel));
    } else if j < i {
        assert(entries[i].average_rgb.closer(entries[j].average_rgb, pixel));
    }
}

/// A query has one answer: two answers to the same query on the same entries are equal. So
/// the search in the tree and the scan of all entries agree, and a query that is repeated
/// finds the same tile again.
pub proof fn lemma_answer_unique(
    entries: Seq<EmojiData>,
    pixel: Rgba,
    first: Option<usize>,
    second: Option<usize>,
)
    requires
        answers(entries, pixel, first),
        answers(entries, pixel, second),
    ensures
        first == second,
{
    match (first, second) {
        (Some(i), Some(j)) => {
            lemma_first_nearest_unique(entries, pixel, i as int, j as int);
        },
        _ => {},
    }
}

/// Why an entry was not added to the index.
#[derive(Clone, Copy, Debug, PartialEq, Eq, Structural)]
pub enum IndexError {
    /// The sums and the count do not describe a mean color.
    InvalidAverage,
}

/// The tiles of the library by mean color: the entries in the order in which they were
/// added, and a search tree over them. Entries are added once and never change.
pub struct ColorIndex {
    entries: Vec<EmojiData>,
    root: Tree,
}

impl View for ColorIndex {
    type V = Seq<EmojiData>;

    closed spec fn view(&self) -> Seq<EmojiData> {
        self.entries@
    }
}

impl ColorIndex {
    /// Every entry holds a mean color, and the search tree holds every entry.
    pub closed spec fn wf(&self) -> bool {
        &&& forall|i: int| 0 <= i < self.entries@.len() ==> (#[trigger] self.entries@[i]).average_rgb.wf()
        &&& self.root.ordered(self.entries@, Channel::Red)
        &&& forall|j: int| self.root.holds(j) <==> 0 <= j < self.entries@.len()
    }

    /// In a well-formed index every entry holds a mean color.
    pub proof fn lemma_wf(&self)
        requires
            self.wf(),
        ensures
            forall|i: int| 0 <= i < self@.len() ==> (#[trigger] self@[i]).average_rgb.wf(),
    {
    }

    /// An index without entries.
    pub fn new() -> (index: ColorIndex)
        ensures
            index.wf(),
            index@.len() == 0,
    {
        ColorIndex { entries: Vec::new(), root: Tree::Leaf }
    }

    /// An index over the given entries, in their order, unless one of them has sums and a
    /// count that describe no mean color.
    pub fn from_entries(entries: Vec<EmojiData>) -> (made: Result<ColorIndex, IndexError>)
        ensures
            made is Ok <==> forall|i: int|
                0 <= i < entries@.len() ==> (#[trigger] entries@[i]).average_rgb.wf(),
            made matches Ok(index) ==> index.wf() && index@ == entries@,
            made matches Err(error) ==> error == IndexError::InvalidAverage,
    {
        let mut k: usize = 0;
        while k < entries.len()
            invariant
                k <= entries@.len(),
                forall|i: int| 0 <= i < k ==> (#[trigger] entries@[i]).average_rgb.wf(),
            decreases entries@.len() - k,
        {
            if !entries[k].average_rgb.is_valid() {
                return Err(IndexError::InvalidAverage);
            }
            k += 1;
        }
        let mut root = Tree::Leaf;
        let mut k: usize = 0;
        while k < entries.len()
            invariant
                k <= entries@.len(),
                forall|i: int| 0 <= i < entries@.len() ==> (#[trigger] entries@[i]).average_rgb.wf(),
                root.ordered(entries@, Channel::Red),
                forall|j: int| root.holds(j) <==> 0 <= j < k,
            decreases entries@.len() - k,
        {
            root = root.insert(&entries, k, Channel::Red);
            k += 1;
        }
        Ok(ColorIndex { entries, root })
    }

    /// The number of entries.
    pub fn len(&self) -> (len: usize)
        ensures
            len == self@.len(),
    {
        self.entries.len()
    }

    /// The entry at a position.
    pub fn get(&self, i: usize) -> (entry: Option<&EmojiData>)
        ensures
            entry == if i < self@.len() {
                Some(&self@[i as int])
            } else {
                None
            },
    {
        if i < self.entries.len() {
            Some(&self.entries[i])
        } else {
            None
        }
    }

    /// Adds an entry behind those that the index holds, and gives its position. An entry
    /// whose sums and count describe no mean color is refused.
    pub fn add(&mut self, data: EmojiData) -> (added: Result<usize, IndexError>)
        requires
            old(self).wf(),
        ensures
            final(self).wf(),
            match added {
                Ok(position) => {
                    &&& data.average_rgb.wf()
                    &&& position == old(self)@.len()
                    &&& final(self)@ == old(self)@.push(data)
                },
                Err(error) => {
                    &&& !data.average_rgb.wf()
                    &&& error == IndexError::InvalidAverage
                    &&& final(self)@ == old(self)@
                },
            },
    {
        if data.average_rgb.is_valid() {
            Ok(self.append(data))
        } else {
            Err(IndexError::InvalidAverage)
        }
    }

    /// Adds an entry that holds a mean color behind those that the index holds, and gives
    /// its position.
    pub(crate) fn append(&mut self, data: EmojiData) -> (position: usize)
        requires
            old(self).wf(),
            data.average_rgb.wf(),
        ensures
            final(self).wf(),
            position == old(self)@.len(),
            final(self)@ == old(self)@.push(data),
    {
        let position = self.entries.len();
        proof {
            self.root.lemma_ordered_after_push(self.entries@, Channel::Red, data);
        }
        self.entries.push(data);
        assert forall|i: int| 0 <= i < self.entries@.len() implies (#[trigger] self.entries@[i]).average_rgb.wf() by {
            if i < position {
                assert(old(self).entries@[i].average_rgb.wf());
            }
        }
        let mut root = Tree::Leaf;
        std::mem::swap(&mut self.root, &mut root);
        self.root = root.insert(&self.entries, position, Channel::Red);
        position
    }

    /// The position of the entry whose mean color is nearest to the pixel's color, by squared
    /// Euclidean distance; of several at the same distance, the one that was added first. A
    /// fully transparent pixel has no nearest entry. The entry is found in the search tree.
    pub fn nearest(&self, pixel: Rgba) -> (found: Option<usize>)
        requires
            self.wf(),
        ensures
            answers(self@, pixel, found),
    {
        if pixel.alpha == 0 || self.entries.len() == 0 {
            return None;
        }
        let found = self.root.search(&self.entries, pixel, Channel::Red, 0);
        assert(is_first_nearest(self@, pixel, found as int)) by {
            assert forall|j: int| 0 <= j < self@.len() implies (#[trigger] self@[j]).average_rgb.closer(
                self@[found as int].average_rgb,
                pixel,
            ) == false by {
                assert(self.root.holds(j));
                assert(leads(self@, pixel, found as int, j));
            }
            assert forall|j: int| 0 <= j < found implies self@[found as int].average_rgb.closer(
                (#[trigger] self@[j]).average_rgb,
                pixel,
            ) by {
                assert(self.root.holds(j));
                assert(leads(self@, pixel, found as int, j));
            }
        }
        Some(found)
    }

    /// The answer of [`ColorIndex::nearest`], found by comparing the pixel's color with every
    /// entry in turn.
    pub fn nearest_by_scan(&self, pixel: Rgba) -> (found: Option<usize>)
        requires
            self.wf(),
        ensures
            answers(self@, pixel, found),
    {
        if pixel.alpha == 0 || self.entries.len() == 0 {
            return None;
        }
        let mut best: usize = 0;
        let mut k: usize = 1;
        assert(is_first_nearest(self@.take(1), pixel, 0));
        while k < self.entries.len()
            invariant
                self.wf(),
                0 <= best < k <= self@.len(),
                is_first_nearest(self@.take(k as int), pixel, best as int),
            decreases self@.len() - k,
        {
            let ghost seen = self@.take(k as int);
            let ghost next = self@.take(k + 1);
            if self.entries[k].average_rgb.closer_than(&self.entries[best].average_rgb, pixel) {
                proof {
                    assert forall|j: int| 0 <= j < k implies next[k as int].average_rgb.closer(
                        (#[trigger] next[j]).average_rgb,
                        pixel,
                    ) by {
                        assert(!seen[j].average_rgb.closer(seen[best as int].average_rgb, pixel));
                        lemma_closer_carries(
                            self@[k as int].average_rgb,
                            self@[best as int].average_rgb,
                            self@[j].average_rgb,
                            pixel,
                        );
                    }
                    assert forall|j: int| 0 <= j < next.len() implies (#[trigger] next[j]).average_rgb.closer(
                        next[k as int].average_rgb,
                        pixel,
                    ) == false by {
                        if j < k {
                            lemma_closer_asymmetric(next[k as int].average_rgb, next[j].average_rgb, pixel);
                        } else {
                            lemma_closer_irreflexive(next[k as int].average_rgb, pixel);
                        }
                    }
                }
                best = k;
            } else {
                proof {
                    assert forall|j: int| 0 <= j < next.len() implies (#[trigger] next[j]).average_rgb.closer(
                        next[best as int].average_rgb,
                        pixel,
                    ) == false by {
                        if j < k {
                            assert(!seen[j].average_rgb.closer(seen[best as int].average_rgb, pixel));
                        }
                    }
                    assert forall|j: int| 0 <= j < best implies next[best as int].average_rgb.closer(
                        (#[trigger] next[j]).average_rgb,
                        pixel,
                    ) by {
                        assert(seen[best as int].average_rgb.closer(seen[j].average_rgb, pixel));
                    }
                }
            }
            k += 1;
        }
        assert(self@.take(k as int) =~= self@);
        Some(best)
    }
}

/// No mean color is closer to a pixel's color than itself.
pub proof fn lemma_closer_irreflexive(a: AverageRgb, pixel: Rgba)
    ensures
        !a.closer(a, pixel),
{
}

/// Of two mean colors at most one is closer to a pixel's color than the other.
pub proof fn lemma_closer_asymmetric(a: AverageRgb, b: AverageRgb, pixel: Rgba)
    requires
        a.closer(b, pixel),
    ensures
        !b.closer(a, pixel),
{
}

} // verus!
