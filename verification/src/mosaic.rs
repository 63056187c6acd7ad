//! The iterations of the mosaic: each one leads from a sampled coordinate pair to a tile on
//! the canvas.

use crate::canvas::{placed_at, CanvasManager};
use crate::emoji::{offer_outcome, offered, CacheOutcome, EmojiManager};
use crate::index::{answers, EmojiData};
use crate::pixel::{PixelBuffer, PixelGrid};
use crate::sampler::{draw_bounds, drawn, related, Sampler, SamplerMode};
use vstd::prelude::*;

verus! {

/// What one iteration did.
#[derive(Clone, Copy, Debug, PartialEq, Eq, Structural)]
pub enum Step {
    /// Nothing was placed: the source coordinate lies outside the target image, the target
    /// pixel is fully transparent, or the library is empty.
    Skipped,
    /// The resized image of this tile was composited onto the canvas.
    Placed { tile: usize },
    /// This tile is the nearest, but the cache holds no image of it yet. The canvas is as it
    /// was; the caller loads the tile and completes the iteration with [`place_loaded`].
    Missing { tile: usize },
}

/// Whether `step` is what the iteration for the target pixel at `source` comes to: skipped
/// where there is no pixel or no nearest tile for it, else the nearest tile, placed if the
/// cache holds its image and missing if not.
pub open spec fn decided(
    target: PixelGrid,
    entries: Seq<EmojiData>,
    cached: Seq<Option<PixelBuffer>>,
    source: (u32, u32),
    step: Step,
) -> bool {
    if !target.contains(source.0 as int, source.1 as int) {
        step == Step::Skipped
    } else {
        let pixel = target.at(source.0 as int, source.1 as int);
        match step {
            Step::Skipped => answers(entries, pixel, None),
            Step::Placed { tile } => answers(entries, pixel, Some(tile)) && cached[tile as int] is Some,
            Step::Missing { tile } => answers(entries, pixel, Some(tile)) && cached[tile as int] is None,
        }
    }
}

/// Whether `after` is the canvas that the iteration leaves: with the tile's cached image
/// composited at `position` where the step placed one, else unchanged.
pub open spec fn composited(
    before: PixelGrid,
    after: PixelGrid,
    cached: Seq<Option<PixelBuffer>>,
    position: (u32, u32),
    step: Step,
) -> bool {
    match step {
        Step::Placed { tile } => {
            &&& after.width == before.width
            &&& after.height == before.height
            &&& forall|cx: int, cy: int|
                before.contains(cx, cy) ==> #[trigger] after.at(cx, cy) == placed_at(
                    before,
                    cached[tile as int].unwrap()@,
                    position.0 as int,
                    position.1 as int,
                    cx,
                    cy,
                )
        },
        _ => after == before,
    }
}

/// Carries out the iteration for one coordinate pair: reads the target pixel at `source`,
/// finds the tile nearest to its color, and composites the tile's cached image onto the
/// canvas with its top-left corner at `position`.
pub fn place_sample(
    target: &PixelBuffer,
    manager: &EmojiManager,
    canvas: &mut CanvasManager,
    source: (u32, u32),
    position: (u32, u32),
) -> (step: Step)
    requires
        target.wf(),
        manager.wf(),
        old(canvas).wf(),
    ensures
        final(canvas).wf(),
        decided(target@, manager.entries(), manager.cached(), source, step),
        composited(old(canvas)@, final(canvas)@, manager.cached(), position, step),
{
    let pixel = match target.get_pixel(source.0, source.1) {
        Some(pixel) => pixel,
        None => {
            return Step::Skipped;
        },
    };
    let tile = match manager.get_nearest_emoji(pixel) {
        Some(tile) => tile,
        None => {
            return Step::Skipped;
        },
    };
    proof {
        manager.lemma_wf();
    }
    match manager.cached_emoji(tile) {
        Some(image) => {
            canvas.place_emoji(image, position.0, position.1);
            Step::Placed { tile }
        },
        None => Step::Missing { tile },
    }
}

/// Whether the cache holds an image of the tile.
pub open spec fn has_image(cached: Seq<Option<PixelBuffer>>, tile: usize) -> bool {
    tile < cached.len() && cached[tile as int] is Some
}

/// Completes an iteration that missed a tile: offers the tile's decoded image to the cache,
/// which fits it into a square of side `image_size`, and composites what the cache then
/// holds for the tile onto the canvas with its top-left corner at `position`. Where the
/// cache holds nothing for the tile afterwards, the canvas stays as it was.
pub fn place_loaded(
    manager: &mut EmojiManager,
    canvas: &mut CanvasManager,
    tile: usize,
    image: &PixelBuffer,
    image_size: u32,
    position: (u32, u32),
) -> (outcome: CacheOutcome)
    requires
        old(manager).wf(),
        old(canvas).wf(),
        image.wf(),
    ensures
        final(manager).wf(),
        final(canvas).wf(),
        final(manager).entries() == old(manager).entries(),
        outcome == offer_outcome(
            old(manager).cached(),
            tile,
            image.spec_width(),
            image.spec_height(),
            image_size,
        ),
        offered(old(manager).cached(), final(manager).cached(), tile, *image, image_size),
        has_image(final(manager).cached(), tile) ==> composited(
            old(canvas)@,
            final(canvas)@,
            final(manager).cached(),
            position,
            Step::Placed { tile },
        ),
        !has_image(final(manager).cached(), tile) ==> final(canvas)@ == old(canvas)@,
{
    let outcome = manager.cache_emoji(tile, image, image_size);
    match manager.cached_emoji(tile) {
        Some(held) => {
            canvas.place_emoji(held, position.0, position.1);
        },
        None => {},
    }
    outcome
}

/// One iteration of the mosaic: draws a coordinate pair from the sampler and carries out the
/// iteration for it. Gives the pair along with what was done.
pub fn step(
    target: &PixelBuffer,
    manager: &EmojiManager,
    canvas: &mut CanvasManager,
    sampler: &mut Sampler,
) -> (taken: (((u32, u32), (u32, u32)), Step))
    requires
        target.wf(),
        manager.wf(),
        old(canvas).wf(),
        old(sampler).can_sample(),
    ensures
        final(canvas).wf(),
        final(sampler).mode() == old(sampler).mode(),
        final(sampler).src_dim() == old(sampler).src_dim(),
        final(sampler).canvas_dim() == old(sampler).canvas_dim(),
        final(sampler).scale() == old(sampler).scale(),
        drawn(old(sampler).mode(), taken.0).0 < draw_bounds(
            old(sampler).mode(),
            old(sampler).src_dim(),
            old(sampler).canvas_dim(),
        ).0,
        drawn(old(sampler).mode(), taken.0).1 < draw_bounds(
            old(sampler).mode(),
            old(sampler).src_dim(),
            old(sampler).canvas_dim(),
        ).1,
        related(old(sampler).mode(), old(sampler).scale(), taken.0.0, taken.0.1),
        decided(target@, manager.entries(), manager.cached(), taken.0.0, taken.1),
        composited(old(canvas)@, final(canvas)@, manager.cached(), taken.0.1, taken.1),
{
    let pair = sampler.sample();
    let step = place_sample(target, manager, canvas, pair.0, pair.1);
    (pair, step)
}

/// How a run of iterations ended.
#[derive(Clone, Copy, Debug, PartialEq, Eq, Structural)]
pub enum Progress {
    /// All iterations were carried out.
    Finished,
    /// An iteration needs the image of a tile that the cache does not hold. Nothing was
    /// placed in that iteration; `(x, y)` is where the tile belongs on the canvas, and
    /// `remaining` iterations have not begun.
    Suspended { tile: usize, x: u32, y: u32, remaining: u32 },
}

/// A record of successive iterations: the coordinate pair that each one drew, what it did,
/// and the canvas before the first iteration and after each.
pub struct Trace {
    pub draws: Seq<((u32, u32), (u32, u32))>,
    pub steps: Seq<Step>,
    pub frames: Seq<PixelGrid>,
}

/// Whether a coordinate pair is one that a sampler of the given configuration can draw.
pub open spec fn drawable(
    mode: SamplerMode,
    src_dim: (u32, u32),
    canvas_dim: (u32, u32),
    scale: u32,
    pair: ((u32, u32), (u32, u32)),
) -> bool {
    &&& drawn(mode, pair).0 < draw_bounds(mode, src_dim, canvas_dim).0
    &&& drawn(mode, pair).1 < draw_bounds(mode, src_dim, canvas_dim).1
    &&& related(mode, scale, pair.0, pair.1)
}

impl Trace {
    /// Whether the record is one of iterations on the given target and library with draws
    /// that the sampler can make: each step is what its draw comes to, and each frame
    /// follows from the one before by that step.
    pub open spec fn follows(
        self,
        target: PixelGrid,
        entries: Seq<EmojiData>,
        cached: Seq<Option<PixelBuffer>>,
        mode: SamplerMode,
        src_dim: (u32, u32),
        canvas_dim: (u32, u32),
        scale: u32,
    ) -> bool {
        &&& self.steps.len() == self.draws.len()
        &&& self.frames.len() == self.draws.len() + 1
        &&& forall|k: int|
            0 <= k < self.draws.len() ==> {
                &&& drawable(mode, src_dim, canvas_dim, scale, #[trigger] self.draws[k])
                &&& decided(target, entries, cached, self.draws[k].0, self.steps[k])
                &&& composited(self.frames[k], self.frames[k + 1], cached, self.draws[k].1, self.steps[k])
            }
    }

    /// Whether the record ends as `progress` says: after `iterations` iterations none of
    /// which missed a tile, or earlier, with the first iteration that missed one.
    pub open spec fn ends(self, iterations: u32, progress: Progress) -> bool {
        match progress {
            Progress::Finished => {
                &&& self.draws.len() == iterations
                &&& forall|k: int| 0 <= k < self.steps.len() ==> !(#[trigger] self.steps[k] is Missing)
            },
            Progress::Suspended { tile, x, y, remaining } => {
                &&& remaining < iterations
                &&& self.draws.len() == iterations - remaining
                &&& forall|k: int| 0 <= k < self.steps.len() - 1 ==> !(#[trigger] self.steps[k] is Missing)
                &&& self.steps.last() == Step::Missing { tile }
                &&& self.draws.last().1 == (x, y)
            },
        }
    }
}

/// Carries out iterations of the mosaic, one after the other, until `iterations` are done or
/// one of them needs a tile that the cache does not hold. In the second case the caller
/// loads the tile, completes the iteration with [`place_loaded`] at the position given, and
/// runs the remaining iterations. A sampler that cannot draw admits no iteration.
pub fn run(
    target: &PixelBuffer,
    manager: &EmojiManager,
    canvas: &mut CanvasManager,
    sampler: &mut Sampler,
    iterations: u32,
) -> (progress: Progress)
    requires
        target.wf(),
        manager.wf(),
        old(canvas).wf(),
        iterations > 0 ==> old(sampler).can_sample(),
    ensures
        final(canvas).wf(),
        final(sampler).mode() == old(sampler).mode(),
        final(sampler).src_dim() == old(sampler).src_dim(),
        final(sampler).canvas_dim() == old(sampler).canvas_dim(),
        final(sampler).scale() == old(sampler).scale(),
        exists|trace: Trace|
            {
                &&& #[trigger] trace.follows(
                    target@,
                    manager.entries(),
                    manager.cached(),
                    old(sampler).mode(),
                    old(sampler).src_dim(),
                    old(sampler).canvas_dim(),
                    old(sampler).scale(),
                )
                &&& trace.ends(iterations, progress)
                &&& trace.frames.first() == old(canvas)@
                &&& trace.frames.last() == final(canvas)@
            },
{
    let ghost mut trace = Trace { draws: Seq::empty(), steps: Seq::empty(), frames: seq![canvas@] };
    let mut done: u32 = 0;
    while done < iterations
        invariant
            done <= iterations,
            target.wf(),
            manager.wf(),
            canvas.wf(),
            iterations > 0 ==> old(sampler).can_sample(),
            sampler.mode() == old(sampler).mode(),
            sampler.src_dim() == old(sampler).src_dim(),
            sampler.canvas_dim() == old(sampler).canvas_dim(),
            sampler.scale() == old(sampler).scale(),
            trace.follows(
                target@,
                manager.entries(),
                manager.cached(),
                old(sampler).mode(),
                old(sampler).src_dim(),
                old(sampler).canvas_dim(),
                old(sampler).scale(),
            ),
            trace.draws.len() == done,
            forall|k: int| 0 <= k < trace.steps.len() ==> !(#[trigger] trace.steps[k] is Missing),
            trace.frames.first() == old(canvas)@,
            trace.frames.last() == canvas@,
        decreases iterations - done,
    {
        let ghost before = trace;
        let (pair, step) = step(target, manager, canvas, sampler);
        proof {
            trace =
            Trace {
                draws: before.draws.push(pair),
                steps: before.steps.push(step),
                frames: before.frames.push(canvas@),
            };
            assert forall|k: int| 0 <= k < trace.draws.len() implies {
                &&& drawable(
                    old(sampler).mode(),
                    old(sampler).src_dim(),
                    old(sampler).canvas_dim(),
                    old(sampler).scale(),
                    #[trigger] trace.draws[k],
                )
                &&& decided(target@, manager.entries(), manager.cached(), trace.draws[k].0, trace.steps[k])
                &&& composited(
                    trace.frames[k],
                    trace.frames[k + 1],
                    manager.cached(),
                    trace.draws[k].1,
                    trace.steps[k],
                )
            } by {
                if k < done {
                    assert(trace.draws[k] == before.draws[k]);
                    assert(trace.steps[k] == before.steps[k]);
                    assert(trace.frames[k] == before.frames[k]);
                    assert(trace.frames[k + 1] == before.frames[k + 1]);
                }
            }
            assert(trace.follows(
                target@,
                manager.entries(),
                manager.cached(),
                old(sampler).mode(),
                old(sampler).src_dim(),
                old(sampler).canvas_dim(),
                old(sampler).scale(),
            ));
            assert(trace.frames.first() == before.frames.first());
            assert(trace.frames.last() == canvas@);
        }
        done += 1;
        match step {
            Step::Missing { tile } => {
                let progress = Progress::Suspended {
                    tile,
                    x: pair.1.0,
                    y: pair.1.1,
                    remaining: iterations - done,
                };
                proof {
                    assert forall|k: int| 0 <= k < trace.steps.len() - 1 implies !(
                    #[trigger] trace.steps[k] is Missing) by {
                        assert(trace.steps[k] == before.steps[k]);
                    }
                    assert(trace.ends(iterations, progress));
                }
                return progress;
            },
            _ => {
                proof {
                    assert forall|k: int| 0 <= k < trace.steps.len() implies !(
                    #[trigger] trace.steps[k] is Missing) by {
                        if k < done - 1 {
                            assert(trace.steps[k] == before.steps[k]);
                        }
                    }
                }
            },
        }
    }
    proof {
        assert(trace.ends(iterations, Progress::Finished));
    }
    Progress::Finished
}

} // verus!
