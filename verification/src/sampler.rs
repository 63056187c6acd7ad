//! Random choice of the next source pixel and of the canvas position it maps to.

use rand::rngs::ThreadRng;
use rand::Rng;
use vstd::prelude::*;

verus! {

/// `rand::rngs::ThreadRng`, a handle to the thread-local generator. Opaque to the verifier.
#[verifier::external_type_specification]
#[verifier::external_body]
pub struct ExThreadRng(ThreadRng);

/// Calls `rand::thread_rng`, which hands out the calling thread's generator, seeded by the
/// operating system. Nothing is claimed of the handle.
pub assume_specification[ rand::thread_rng ]() -> ThreadRng;

/// Calls `rand::Rng::gen_range(0, bound)` on a `ThreadRng`. The draw lies in the half-open
/// range `[0, bound)`; the call panics on an empty range, which `requires` leaves out.
/// Nothing else is claimed: two draws with the same bound may differ.
#[verifier::external_body]
fn draw_below(rng: &mut ThreadRng, bound: u32) -> (drawn: u32)
    requires
        bound > 0,
    ensures
        drawn < bound,
{
    rng.gen_range(0, bound)
}

/// The coordinate space in which the random draw is made.
#[derive(Clone, Copy, Debug, PartialEq, Eq, Structural)]
pub enum SamplerMode {
    /// Draw a source pixel; the canvas position follows by multiplication.
    Source,
    /// Draw a canvas position; the source pixel follows by integer division.
    Destination,
}

/// What stands in the way of a mode name or of a draw.
#[derive(Clone, Copy, Debug, PartialEq, Eq, Structural)]
pub enum SamplerError {
    /// The mode name is neither `source` nor `destination`.
    UnrecognizedMode,
    /// Source mode with a source image of zero width or height.
    EmptySource,
    /// Source mode where the last source pixel times the scale leaves `u32`.
    CoordinateOverflow,
    /// Destination mode with a canvas of zero width or height.
    EmptyCanvas,
    /// Destination mode with a scale of zero.
    ZeroScale,
}

/// The mode that a name selects, if any.
pub open spec fn mode_named(name: Seq<char>) -> Option<SamplerMode> {
    if name == "source"@ {
        Some(SamplerMode::Source)
    } else if name == "destination"@ {
        Some(SamplerMode::Destination)
    } else {
        None
    }
}

impl<'a> TryFrom<&'a str> for SamplerMode {
    type Error = SamplerError;

    /// Reads a mode from its name: `source` or `destination`, in lower case.
    fn try_from(value: &'a str) -> (parsed: Result<SamplerMode, SamplerError>) {
        let name = value.to_owned();
        if name == "source".to_owned() {
            Ok(SamplerMode::Source)
        } else if name == "destination".to_owned() {
            Ok(SamplerMode::Destination)
        } else {
            Err(SamplerError::UnrecognizedMode)
        }
    }
}

impl<'a> vstd::std_specs::convert::TryFromSpecImpl<&'a str> for SamplerMode {
    open spec fn obeys_try_from_spec() -> bool {
        true
    }

    open spec fn try_from_spec(value: &'a str) -> Result<SamplerMode, SamplerError> {
        match mode_named(value@) {
            Some(mode) => Ok(mode),
            None => Err(SamplerError::UnrecognizedMode),
        }
    }
}

/// The first reason, if any, for which the given configuration cannot be sampled: in source
/// mode an empty source image or a last source pixel that times the scale leaves `u32`, in
/// destination mode an empty canvas or a scale of zero.
pub open spec fn rejection(
    mode: SamplerMode,
    src_dim: (u32, u32),
    canvas_dim: (u32, u32),
    scale: u32,
) -> Option<SamplerError> {
    match mode {
        SamplerMode::Source => if src_dim.0 == 0 || src_dim.1 == 0 {
            Some(SamplerError::EmptySource)
        } else if (src_dim.0 - 1) * scale > u32::MAX || (src_dim.1 - 1) * scale > u32::MAX {
            Some(SamplerError::CoordinateOverflow)
        } else {
            None
        },
        SamplerMode::Destination => if canvas_dim.0 == 0 || canvas_dim.1 == 0 {
            Some(SamplerError::EmptyCanvas)
        } else if scale == 0 {
            Some(SamplerError::ZeroScale)
        } else {
            None
        },
    }
}

/// Whether a source coordinate and a canvas coordinate belong together: in source mode the
/// canvas coordinate is the source coordinate times the scale, in destination mode the source
/// coordinate is the canvas coordinate divided by the scale, rounded down.
pub open spec fn related(mode: SamplerMode, scale: u32, source: (u32, u32), canvas: (u32, u32)) -> bool {
    match mode {
        SamplerMode::Source => canvas.0 == source.0 * scale && canvas.1 == source.1 * scale,
        SamplerMode::Destination => {
            &&& scale > 0
            &&& source.0 == canvas.0 / scale
            &&& source.1 == canvas.1 / scale
        },
    }
}

/// The coordinate of a pair that was drawn at random: the source coordinate in source mode,
/// the canvas coordinate in destination mode.
pub open spec fn drawn(mode: SamplerMode, pair: ((u32, u32), (u32, u32))) -> (u32, u32) {
    match mode {
        SamplerMode::Source => pair.0,
        SamplerMode::Destination => pair.1,
    }
}

/// The exclusive upper bounds of a draw: the source dimensions in source mode, the canvas
/// dimensions in destination mode.
pub open spec fn draw_bounds(mode: SamplerMode, src_dim: (u32, u32), canvas_dim: (u32, u32)) -> (
    u32,
    u32,
) {
    match mode {
        SamplerMode::Source => src_dim,
        SamplerMode::Destination => canvas_dim,
    }
}

/// Picks coordinate pairs at random. Its only state is the random generator.
pub struct Sampler {
    mode: SamplerMode,
    src_dim: (u32, u32),
    canvas_dim: (u32, u32),
    scale: u32,
    rng: ThreadRng,
}

impl Sampler {
    /// The coordinate space in which this sampler draws.
    pub closed spec fn mode(&self) -> SamplerMode {
        self.mode
    }

    /// The width and height of the source image.
    pub closed spec fn src_dim(&self) -> (u32, u32) {
        self.src_dim
    }

    /// The width and height of the canvas.
    pub closed spec fn canvas_dim(&self) -> (u32, u32) {
        self.canvas_dim
    }

    /// How many canvas pixels one source pixel spans along each axis.
    pub closed spec fn scale(&self) -> u32 {
        self.scale
    }

    /// Whether the sampler can draw: nothing stands in the way of its configuration.
    pub open spec fn can_sample(&self) -> bool {
        rejection(self.mode(), self.src_dim(), self.canvas_dim(), self.scale()) is None
    }

    /// Sets up a sampler. Every configuration is taken as it is; whether it can be sampled
    /// is told by [`Sampler::rejected`].
    pub fn new(mode: SamplerMode, src_dim: (u32, u32), canvas_dim: (u32, u32), scale: u32) -> (made:
        Result<Sampler, SamplerError>)
        ensures
            made matches Ok(sampler) && {
                &&& sampler.mode() == mode
                &&& sampler.src_dim() == src_dim
                &&& sampler.canvas_dim() == canvas_dim
                &&& sampler.scale() == scale
            },
    {
        Ok(Sampler { mode, src_dim, canvas_dim, scale, rng: rand::thread_rng() })
    }

    /// The first reason, if any, for which this sampler cannot draw: a draw from an empty
    /// range, a product that leaves `u32`, or a division by zero.
    pub fn rejected(&self) -> (reason: Option<SamplerError>)
        ensures
            reason == rejection(self.mode(), self.src_dim(), self.canvas_dim(), self.scale()),
    {
        match self.mode {
            SamplerMode::Source => {
                if self.src_dim.0 == 0 || self.src_dim.1 == 0 {
                    return Some(SamplerError::EmptySource);
                }
                assert((self.src_dim.0 - 1) * self.scale <= u32::MAX * u32::MAX && (self.src_dim.1 - 1)
                    * self.scale <= u32::MAX * u32::MAX) by (nonlinear_arith);
                let reach_x: u64 = (self.src_dim.0 - 1) as u64 * self.scale as u64;
                let reach_y: u64 = (self.src_dim.1 - 1) as u64 * self.scale as u64;
                if reach_x > u32::MAX as u64 || reach_y > u32::MAX as u64 {
                    Some(SamplerError::CoordinateOverflow)
                } else {
                    None
                }
            },
            SamplerMode::Destination => {
                if self.canvas_dim.0 == 0 || self.canvas_dim.1 == 0 {
                    Some(SamplerError::EmptyCanvas)
                } else if self.scale == 0 {
                    Some(SamplerError::ZeroScale)
                } else {
                    None
                }
            },
        }
    }

    /// The coordinate pair that follows from the draw `(x, y)`.
    pub fn coordinates(&self, x: u32, y: u32) -> (pair: ((u32, u32), (u32, u32)))
        requires
            self.can_sample(),
            x < draw_bounds(self.mode(), self.src_dim(), self.canvas_dim()).0,
            y < draw_bounds(self.mode(), self.src_dim(), self.canvas_dim()).1,
        ensures
            drawn(self.mode(), pair) == (x, y),
            related(self.mode(), self.scale(), pair.0, pair.1),
    {
        match self.mode {
            SamplerMode::Source => {
                assert(x * self.scale <= (self.src_dim.0 - 1) * self.scale) by (nonlinear_arith)
                    requires
                        x <= self.src_dim.0 - 1,
                ;
                assert(y * self.scale <= (self.src_dim.1 - 1) * self.scale) by (nonlinear_arith)
                    requires
                        y <= self.src_dim.1 - 1,
                ;
                ((x, y), (x * self.scale, y * self.scale))
            },
            SamplerMode::Destination => ((x / self.scale, y / self.scale), (x, y)),
        }
    }

    /// Draws the next coordinate pair: a uniformly random coordinate below the draw bounds,
    /// and the coordinate of the other space that belongs to it.
    pub fn sample(&mut self) -> (pair: ((u32, u32), (u32, u32)))
        requires
            old(self).can_sample(),
        ensures
            final(self).mode() == old(self).mode(),
            final(self).src_dim() == old(self).src_dim(),
            final(self).canvas_dim() == old(self).canvas_dim(),
            final(self).scale() == old(self).scale(),
            drawn(old(self).mode(), pair).0 < draw_bounds(
                old(self).mode(),
                old(self).src_dim(),
                old(self).canvas_dim(),
            ).0,
            drawn(old(self).mode(), pair).1 < draw_bounds(
                old(self).mode(),
                old(self).src_dim(),
                old(self).canvas_dim(),
            ).1,
            related(old(self).mode(), old(self).scale(), pair.0, pair.1),
    {
        let bounds = match self.mode {
            SamplerMode::Source => self.src_dim,
            SamplerMode::Destination => self.canvas_dim,
        };
        let x = draw_below(&mut self.rng, bounds.0);
        let y = draw_below(&mut self.rng, bounds.1);
        self.coordinates(x, y)
    }
}

} // verus!
