//! A three-dimensional search tree over mean colors.
//!
//! Each node holds one entry of the index and splits the remaining ones by one color
//! channel: entries whose mean of that channel is smaller go to the left, the others to the
//! right. The channel changes from level to level: red, green, blue, red, and so on.
//!
//! The tree grows by insertion and is never rebalanced, so its depth, and with it the depth of
//! the recursion in [`Tree::insert`] and [`Tree::search`], follows from the order in which the
//! entries were added.

use crate::color::{
    lemma_closer_carries, lemma_closer_carries_late, lemma_no_farther_carries, lemma_shielded, Channel,
};
use crate::index::EmojiData;
use crate::pixel::Rgba;
use vstd::prelude::*;

verus! {

impl Channel {
    /// The channel by which the next level splits.
    pub open spec fn following(self) -> Channel {
        match self {
            Channel::Red => Channel::Green,
            Channel::Green => Channel::Blue,
            Channel::Blue => Channel::Red,
        }
    }

    /// Computes [`Channel::following`].
    pub fn next(self) -> (next: Channel)
        ensures
            next == self.following(),
    {
        match self {
            Channel::Red => Channel::Green,
            Channel::Green => Channel::Blue,
            Channel::Blue => Channel::Red,
        }
    }
}

/// Whether entry `i` comes before entry `j` in the order of answers: it is closer to the
/// pixel's color, or as close and not added later.
pub open spec fn leads(entries: Seq<EmojiData>, pixel: Rgba, i: int, j: int) -> bool {
    entries[i].average_rgb.closer(entries[j].average_rgb, pixel) || (!entries[j].average_rgb.closer(
        entries[i].average_rgb,
        pixel,
    ) && i <= j)
}

/// Of two entries one leads the other.
pub proof fn lemma_leads_total(entries: Seq<EmojiData>, pixel: Rgba, i: int, j: int)
    ensures
        leads(entries, pixel, i, j) || leads(entries, pixel, j, i),
{
}

/// What leads a second entry leads every third that the second leads.
pub proof fn lemma_leads_carries(entries: Seq<EmojiData>, pixel: Rgba, i: int, j: int, k: int)
    requires
        0 <= i < entries.len(),
        0 <= j < entries.len(),
        0 <= k < entries.len(),
        entries[i].average_rgb.wf(),
        entries[j].average_rgb.wf(),
        entries[k].average_rgb.wf(),
        leads(entries, pixel, i, j),
        leads(entries, pixel, j, k),
    ensures
        leads(entries, pixel, i, k),
{
    let a = entries[i].average_rgb;
    let b = entries[j].average_rgb;
    let c = entries[k].average_rgb;
    if a.closer(b, pixel) {
        lemma_closer_carries(a, b, c, pixel);
    } else if b.closer(c, pixel) {
        lemma_closer_carries_late(a, b, c, pixel);
    } else {
        lemma_no_farther_carries(a, b, c, pixel);
    }
}

/// A search tree over the entries of an index. A node names its entry by position.
pub enum Tree {
    Leaf,
    Node { entry: usize, left: Box<Tree>, right: Box<Tree> },
}

impl Tree {
    /// Whether the tree holds the entry at position `j`.
    pub open spec fn holds(self, j: int) -> bool
        decreases self,
    {
        match self {
            Tree::Leaf => false,
            Tree::Node { entry, left, right } => j == entry || left.holds(j) || right.holds(j),
        }
    }

    /// Whether the tree is a search tree over `entries` that splits by `axis` at its root:
    /// every node names an entry, the entries to its left have a smaller mean of the node's
    /// channel than the node's entry, and those to its right have not.
    pub open spec fn ordered(self, entries: Seq<EmojiData>, axis: Channel) -> bool
        decreases self,
    {
        match self {
            Tree::Leaf => true,
            Tree::Node { entry, left, right } => {
                &&& entry < entries.len()
                &&& left.ordered(entries, axis.following())
                &&& right.ordered(entries, axis.following())
                &&& forall|j: int| #[trigger]
                    left.holds(j) ==> entries[j].average_rgb.below(entries[entry as int].average_rgb, axis)
                &&& forall|j: int| #[trigger]
                    right.holds(j) ==> !entries[j].average_rgb.below(
                        entries[entry as int].average_rgb,
                        axis,
                    )
            },
        }
    }

    /// An ordered tree holds positions of entries only.
    pub proof fn lemma_holds_entries(self, entries: Seq<EmojiData>, axis: Channel, j: int)
        requires
            self.ordered(entries, axis),
            self.holds(j),
        ensures
            0 <= j < entries.len(),
        decreases self,
    {
        match self {
            Tree::Leaf => {},
            Tree::Node { entry, left, right } => {
                if left.holds(j) {
                    left.lemma_holds_entries(entries, axis.following(), j);
                } else if right.holds(j) {
                    right.lemma_holds_entries(entries, axis.following(), j);
                }
            },
        }
    }

    /// A tree stays ordered when an entry is added behind the entries.
    pub proof fn lemma_ordered_after_push(self, entries: Seq<EmojiData>, axis: Channel, added: EmojiData)
        requires
            self.ordered(entries, axis),
        ensures
            self.ordered(entries.push(added), axis),
        decreases self,
    {
        match self {
            Tree::Leaf => {},
            Tree::Node { entry, left, right } => {
                left.lemma_ordered_after_push(entries, axis.following(), added);
                right.lemma_ordered_after_push(entries, axis.following(), added);
                let longer = entries.push(added);
                assert forall|j: int| #[trigger] left.holds(j) implies longer[j].average_rgb.below(
                    longer[entry as int].average_rgb,
                    axis,
                ) by {
                    left.lemma_holds_entries(entries, axis.following(), j);
                }
                assert forall|j: int| #[trigger] right.holds(j) implies !longer[j].average_rgb.below(
                    longer[entry as int].average_rgb,
                    axis,
                ) by {
                    right.lemma_holds_entries(entries, axis.following(), j);
                }
            },
        }
    }

    /// The tree with one more entry.
    pub fn insert(self, entries: &Vec<EmojiData>, added: usize, axis: Channel) -> (grown: Tree)
        requires
            self.ordered(entries@, axis),
            added < entries@.len(),
            forall|i: int| 0 <= i < entries@.len() ==> (#[trigger] entries@[i]).average_rgb.wf(),
        ensures
            grown.ordered(entries@, axis),
            forall|j: int| grown.holds(j) <==> (self.holds(j) || j == added),
        decreases self,
    {
        match self {
            Tree::Leaf => {
                let grown = Tree::Node { entry: added, left: Box::new(Tree::Leaf), right: Box::new(Tree::Leaf) };
                proof {
                    reveal_with_fuel(Tree::holds, 2);
                    reveal_with_fuel(Tree::ordered, 2);
                }
                grown
            },
            Tree::Node { entry, left, right } => {
                proof {
                    assert(entries@[added as int].average_rgb.wf());
                    assert(entries@[entry as int].average_rgb.wf());
                }
                if entries[added].average_rgb.is_below(&entries[entry].average_rgb, axis) {
                    let grown_left = (*left).insert(entries, added, axis.next());
                    let grown = Tree::Node { entry, left: Box::new(grown_left), right };
                    proof {
                        assert forall|j: int| #[trigger] grown_left.holds(j) implies entries@[j].average_rgb.below(
                            entries@[entry as int].average_rgb,
                            axis,
                        ) by {
                            if !left.holds(j) {
                                assert(j == added);
                            }
                        }
                        assert forall|j: int| grown.holds(j) <==> (self.holds(j) || j == added) by {
                            assert(grown_left.holds(j) <==> (left.holds(j) || j == added));
                        }
                    }
                    grown
                } else {
                    let grown_right = (*right).insert(entries, added, axis.next());
                    let grown = Tree::Node { entry, left, right: Box::new(grown_right) };
                    proof {
                        assert forall|j: int| #[trigger] grown_right.holds(j) implies !entries@[j].average_rgb.below(
                            entries@[entry as int].average_rgb,
                            axis,
                        ) by {
                            if !right.holds(j) {
                                assert(j == added);
                            }
                        }
                        assert forall|j: int| grown.holds(j) <==> (self.holds(j) || j == added) by {
                            assert(grown_right.holds(j) <==> (right.holds(j) || j == added));
                        }
                    }
                    grown
                }
            },
        }
    }

    /// The entry that leads `best` and all entries of the tree: the nearest of them to the
    /// pixel's color, and of several at the same distance the one that was added first.
    /// A subtree is passed over where the entry found so far is closer to the pixel's color
    /// than anything on the subtree's side of the splitting plane.
    pub fn search(&self, entries: &Vec<EmojiData>, pixel: Rgba, axis: Channel, best: usize) -> (found: usize)
        requires
            self.ordered(entries@, axis),
            best < entries@.len(),
            forall|i: int| 0 <= i < entries@.len() ==> (#[trigger] entries@[i]).average_rgb.wf(),
        ensures
            found == best || self.holds(found as int),
            found < entries@.len(),
            leads(entries@, pixel, found as int, best as int),
            forall|j: int| #[trigger] self.holds(j) ==> leads(entries@, pixel, found as int, j),
        decreases self,
    {
        match self {
            Tree::Leaf => best,
            Tree::Node { entry, left, right } => {
                let entry = *entry;
                let here = &entries[entry].average_rgb;
                proof {
                    assert(entries@[best as int].average_rgb.wf());
                    assert(entries@[entry as int].average_rgb.wf());
                    lemma_leads_total(entries@, pixel, entry as int, best as int);
                }
                let first = if Self::is_leading(entries, pixel, entry, best) {
                    entry
                } else {
                    best
                };
                let above = here.is_above(pixel, axis);
                let (near, far) = if above {
                    (left, right)
                } else {
                    (right, left)
                };
                let second = near.search(entries, pixel, axis.next(), first);
                proof {
                    assert(entries@[second as int].average_rgb.wf());
                    assert(entries@[first as int].average_rgb.wf());
                    lemma_leads_carries(entries@, pixel, second as int, first as int, entry as int);
                    lemma_leads_carries(entries@, pixel, second as int, first as int, best as int);
                }
                if here.is_shielding(axis, pixel, &entries[second].average_rgb) {
                    proof {
                        assert forall|j: int| #[trigger] far.holds(j) implies leads(
                            entries@,
                            pixel,
                            second as int,
                            j,
                        ) by {
                            far.lemma_holds_entries(entries@, axis.following(), j);
                            assert(entries@[j].average_rgb.wf());
                            lemma_shielded(
                                *here,
                                entries@[j].average_rgb,
                                axis,
                                pixel,
                                entries@[second as int].average_rgb,
                            );
                        }
                        assert forall|j: int| #[trigger] self.holds(j) implies leads(
                            entries@,
                            pixel,
                            second as int,
                            j,
                        ) by {
                            assert(j == entry || near.holds(j) || far.holds(j));
                        }
                    }
                    second
                } else {
                    let third = far.search(entries, pixel, axis.next(), second);
                    proof {
                        assert(entries@[third as int].average_rgb.wf());
                        lemma_leads_carries(entries@, pixel, third as int, second as int, entry as int);
                        lemma_leads_carries(entries@, pixel, third as int, second as int, best as int);
                        assert forall|j: int| #[trigger] near.holds(j) implies leads(
                            entries@,
                            pixel,
                            third as int,
                            j,
                        ) by {
                            near.lemma_holds_entries(entries@, axis.following(), j);
                            assert(entries@[j].average_rgb.wf());
                            lemma_leads_carries(entries@, pixel, third as int, second as int, j);
                        }
                        assert forall|j: int| #[trigger] self.holds(j) implies leads(
                            entries@,
                            pixel,
                            third as int,
                            j,
                        ) by {
                            assert(j == entry || near.holds(j) || far.holds(j));
                        }
                    }
                    third
                }
            },
        }
    }

    /// Decides [`leads`].
    fn is_leading(entries: &Vec<EmojiData>, pixel: Rgba, i: usize, j: usize) -> (leading: bool)
        requires
            i < entries@.len(),
            j < entries@.len(),
            entries@[i as int].average_rgb.wf(),
            entries@[j as int].average_rgb.wf(),
        ensures
            leading == leads(entries@, pixel, i as int, j as int),
    {
        let a = &entries[i].average_rgb;
        let b = &entries[j].average_rgb;
        a.closer_than(b, pixel) || (i <= j && !b.closer_than(a, pixel))
    }
}

} // verus!
