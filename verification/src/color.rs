//! Average colors, held exactly, and their distance to a pixel's color.

use crate::pixel::{PixelBuffer, Rgba};
use vstd::arithmetic::div_mod::{lemma_fundamental_div_mod, lemma_mod_bound};
use vstd::prelude::*;

verus! {

/// One of the three color channels of a pixel.
#[derive(Clone, Copy, Debug, PartialEq, Eq, Structural)]
pub enum Channel {
    Red,
    Green,
    Blue,
}

/// The value of one color channel of a pixel.
pub open spec fn channel_of(pixel: Rgba, channel: Channel) -> u8 {
    match channel {
        Channel::Red => pixel.red,
        Channel::Green => pixel.green,
        Channel::Blue => pixel.blue,
    }
}

/// A pixel counts towards an average unless it is fully transparent.
pub open spec fn visible(pixel: Rgba) -> bool {
    pixel.alpha != 0
}

/// How many of the pixels are visible.
pub open spec fn visible_count(pixels: Seq<Rgba>) -> nat
    decreases pixels.len(),
{
    if pixels.len() == 0 {
        0
    } else {
        visible_count(pixels.drop_last()) + if visible(pixels.last()) {
            1nat
        } else {
            0nat
        }
    }
}

/// The sum of one channel over the visible pixels.
pub open spec fn channel_sum(pixels: Seq<Rgba>, channel: Channel) -> nat
    decreases pixels.len(),
{
    if pixels.len() == 0 {
        0
    } else {
        channel_sum(pixels.drop_last(), channel) + if visible(pixels.last()) {
            channel_of(pixels.last(), channel) as nat
        } else {
            0nat
        }
    }
}

/// There are no more visible pixels than pixels, and a channel's sum is at most 255 times
/// their number: the mean of a channel lies between 0 and 255.
pub proof fn lemma_channel_sum_bounded(pixels: Seq<Rgba>, channel: Channel)
    ensures
        visible_count(pixels) <= pixels.len(),
        channel_sum(pixels, channel) <= 255 * visible_count(pixels),
    decreases pixels.len(),
{
    if pixels.len() > 0 {
        lemma_channel_sum_bounded(pixels.drop_last(), channel);
    }
}

/// The mean color of a set of pixels, held exactly as the sum of each channel and the number
/// of pixels. The mean of a channel is its sum divided by `count`.
#[derive(Clone, Copy, Debug, PartialEq, Eq, Structural)]
pub struct AverageRgb {
    pub red: u64,
    pub green: u64,
    pub blue: u64,
    pub count: u32,
}

/// The square of an integer.
pub open spec fn square(v: int) -> int {
    v * v
}

impl AverageRgb {
    /// The sum of one channel.
    pub open spec fn sum(self, channel: Channel) -> u64 {
        match channel {
            Channel::Red => self.red,
            Channel::Green => self.green,
            Channel::Blue => self.blue,
        }
    }

    /// An average is taken over at least one pixel, and each mean lies between 0 and 255.
    pub open spec fn wf(self) -> bool {
        &&& self.count > 0
        &&& self.red <= 255 * self.count
        &&& self.green <= 255 * self.count
        &&& self.blue <= 255 * self.count
    }

    /// The difference between a pixel's channel and the channel's mean, times `count`.
    pub open spec fn offset(self, pixel: Rgba, channel: Channel) -> int {
        channel_of(pixel, channel) * self.count - self.sum(channel)
    }

    /// The squared Euclidean distance between a pixel's color and the mean color, times the
    /// square of `count`.
    pub open spec fn scaled_distance(self, pixel: Rgba) -> int {
        square(self.offset(pixel, Channel::Red)) + square(self.offset(pixel, Channel::Green)) + square(
            self.offset(pixel, Channel::Blue),
        )
    }

    /// Whether this mean color is strictly closer to the pixel's color than the other one, by
    /// squared Euclidean distance. The two distances are fractions; they are compared after
    /// multiplying both by both denominators.
    pub open spec fn closer(self, other: AverageRgb, pixel: Rgba) -> bool {
        self.scaled_distance(pixel) * square(other.count as int) < other.scaled_distance(pixel)
            * square(self.count as int)
    }

    /// Whether this mean color is at most as far from the pixel's color as the other one.
    pub open spec fn no_farther(self, other: AverageRgb, pixel: Rgba) -> bool {
        !other.closer(self, pixel)
    }

    /// Whether the sums and the count describe a mean color.
    pub fn is_valid(&self) -> (valid: bool)
        ensures
            valid == self.wf(),
    {
        let limit: u64 = 255 * (self.count as u64);
        self.count > 0 && self.red <= limit && self.green <= limit && self.blue <= limit
    }

    /// The square of the scaled offset of one channel.
    fn squared_offset(count: u32, sum: u64, value: u8) -> (squared: u128)
        requires
            sum <= 255 * count,
        ensures
            squared == square(value * count - sum),
            squared <= square(255 * count),
    {
        assert(0 <= value * count <= 255 * count) by (nonlinear_arith)
            requires
                0 <= value <= 255,
                0 <= count,
        ;
        let scaled: u64 = (value as u64) * (count as u64);
        let gap: u64 = if scaled >= sum {
            scaled - sum
        } else {
            sum - scaled
        };
        assert(gap * gap == square(value * count - sum) && gap * gap <= square(255 * count)
            && square(255 * count) <= 0x1_0000_0000_0000_0000_0000) by (nonlinear_arith)
            requires
                gap == value * count - sum || gap == sum - value * count,
                0 <= gap <= 255 * count,
                count <= 0xffff_ffff,
        ;
        (gap as u128) * (gap as u128)
    }

    /// Computes [`AverageRgb::scaled_distance`].
    fn distance_to(&self, pixel: Rgba) -> (distance: u128)
        requires
            self.wf(),
        ensures
            distance == self.scaled_distance(pixel),
            distance <= 3 * square(255 * self.count),
    {
        assert(square(255 * self.count) <= 0x1_0000_0000_0000_0000_0000) by (nonlinear_arith)
            requires
                self.count <= 0xffff_ffff,
        ;
        let red = Self::squared_offset(self.count, self.red, pixel.red);
        let green = Self::squared_offset(self.count, self.green, pixel.green);
        let blue = Self::squared_offset(self.count, self.blue, pixel.blue);
        red + green + blue
    }

    /// Decides [`AverageRgb::closer`].
    pub fn closer_than(&self, other: &AverageRgb, pixel: Rgba) -> (closer: bool)
        requires
            self.wf(),
            other.wf(),
        ensures
            closer == self.closer(*other, pixel),
    {
        let mine = self.distance_to(pixel);
        let theirs = other.distance_to(pixel);
        fraction_below(mine, unit_of(self.count), theirs, unit_of(other.count))
    }

    /// Whether the mean of a channel is strictly smaller here than in the other mean color.
    pub open spec fn below(self, other: AverageRgb, axis: Channel) -> bool {
        self.sum(axis) * other.count < other.sum(axis) * self.count
    }

    /// Decides [`AverageRgb::below`].
    pub fn is_below(&self, other: &AverageRgb, axis: Channel) -> (below: bool)
        requires
            self.wf(),
            other.wf(),
        ensures
            below == self.below(*other, axis),
    {
        let mine = self.channel_sum(axis);
        let theirs = other.channel_sum(axis);
        assert(mine * other.count <= 0xff_ffff_ffff * 0xffff_ffff && theirs * self.count
            <= 0xff_ffff_ffff * 0xffff_ffff) by (nonlinear_arith)
            requires
                0 <= mine <= 0xff_ffff_ffff,
                0 <= theirs <= 0xff_ffff_ffff,
                0 <= self.count <= 0xffff_ffff,
                0 <= other.count <= 0xffff_ffff,
        ;
        (mine as u128) * (other.count as u128) < (theirs as u128) * (self.count as u128)
    }

    /// The sum of one channel.
    pub fn channel_sum(&self, axis: Channel) -> (sum: u64)
        ensures
            sum == self.sum(axis),
    {
        match axis {
            Channel::Red => self.red,
            Channel::Green => self.green,
            Channel::Blue => self.blue,
        }
    }

    /// Whether a pixel's channel is strictly smaller than the channel's mean.
    pub open spec fn above(self, pixel: Rgba, axis: Channel) -> bool {
        self.offset(pixel, axis) < 0
    }

    /// Decides [`AverageRgb::above`].
    pub fn is_above(&self, pixel: Rgba, axis: Channel) -> (above: bool)
        requires
            self.wf(),
        ensures
            above == self.above(pixel, axis),
    {
        let value = channel_value(pixel, axis);
        assert(0 <= value * self.count <= 255 * self.count) by (nonlinear_arith)
            requires
                0 <= value <= 255,
                0 <= self.count,
        ;
        (value as u64) * (self.count as u64) < self.channel_sum(axis)
    }

    /// Whether the other mean color is strictly closer to the pixel's color than any color
    /// can be whose channel `axis` has the mean that it has here: whether the squared
    /// distance of `nearer` is below the squared offset of that channel.
    pub open spec fn shields(self, axis: Channel, pixel: Rgba, nearer: AverageRgb) -> bool {
        nearer.scaled_distance(pixel) * square(self.count as int) < square(self.offset(pixel, axis))
            * square(nearer.count as int)
    }

    /// Decides [`AverageRgb::shields`].
    pub fn is_shielding(&self, axis: Channel, pixel: Rgba, nearer: &AverageRgb) -> (shields: bool)
        requires
            self.wf(),
            nearer.wf(),
        ensures
            shields == self.shields(axis, pixel, *nearer),
    {
        let theirs = nearer.distance_to(pixel);
        let mine = Self::squared_offset(self.count, self.channel_sum(axis), channel_value(pixel, axis));
        fraction_below(theirs, unit_of(nearer.count), mine, unit_of(self.count))
    }
}

/// The value of one color channel of a pixel.
pub fn channel_value(pixel: Rgba, channel: Channel) -> (value: u8)
    ensures
        value == channel_of(pixel, channel),
{
    match channel {
        Channel::Red => pixel.red,
        Channel::Green => pixel.green,
        Channel::Blue => pixel.blue,
    }
}

/// The square of a count, the denominator of a squared distance.
fn unit_of(count: u32) -> (unit: u128)
    requires
        count > 0,
    ensures
        unit == square(count as int),
        0 < unit <= 0xffff_ffff * 0xffff_ffff,
{
    assert(0 < square(count as int) <= 0xffff_ffff * 0xffff_ffff) by (nonlinear_arith)
        requires
            0 < count <= 0xffff_ffff,
    ;
    (count as u128) * (count as u128)
}

/// Whether the fraction `n1 / d1` is strictly below `n2 / d2`. The fractions are split into
/// whole parts and rests, so that no product leaves 128 bits.
fn fraction_below(n1: u128, d1: u128, n2: u128, d2: u128) -> (below: bool)
    requires
        0 < d1 <= 0xffff_ffff * 0xffff_ffff,
        0 < d2 <= 0xffff_ffff * 0xffff_ffff,
    ensures
        below == (n1 * d2 < n2 * d1),
{
    let w1 = n1 / d1;
    let r1 = n1 % d1;
    let w2 = n2 / d2;
    let r2 = n2 % d2;
    proof {
        lemma_fundamental_div_mod(n1 as int, d1 as int);
        lemma_fundamental_div_mod(n2 as int, d2 as int);
        lemma_mod_bound(n1 as int, d1 as int);
        lemma_mod_bound(n2 as int, d2 as int);
        lemma_compare_fractions(w1 as int, r1 as int, d1 as int, w2 as int, r2 as int, d2 as int);
        assert(r1 * d2 <= 0xffff_ffff * 0xffff_ffff * (0xffff_ffff * 0xffff_ffff) && r2 * d1
            <= 0xffff_ffff * 0xffff_ffff * (0xffff_ffff * 0xffff_ffff)) by (nonlinear_arith)
            requires
                0 <= r1 < d1 <= 0xffff_ffff * 0xffff_ffff,
                0 <= r2 < d2 <= 0xffff_ffff * 0xffff_ffff,
        ;
    }
    if w1 != w2 {
        w1 < w2
    } else {
        r1 * d2 < r2 * d1
    }
}

/// Two fractions, each given as a whole part and a rest over its denominator, compare as
/// their whole parts do, and with equal whole parts as their rests do.
pub proof fn lemma_compare_fractions(w1: int, r1: int, d1: int, w2: int, r2: int, d2: int)
    requires
        0 <= r1 < d1,
        0 <= r2 < d2,
    ensures
        ((d1 * w1 + r1) * d2 < (d2 * w2 + r2) * d1) <==> (w1 < w2 || (w1 == w2 && r1 * d2 < r2 * d1)),
{
    let p = d1 * d2;
    assert((d1 * w1 + r1) * d2 == w1 * p + r1 * d2) by (nonlinear_arith)
        requires
            p == d1 * d2,
    ;
    assert((d2 * w2 + r2) * d1 == w2 * p + r2 * d1) by (nonlinear_arith)
        requires
            p == d1 * d2,
    ;
    assert(0 <= r1 * d2 < p) by (nonlinear_arith)
        requires
            0 <= r1 < d1,
            0 < d2,
            p == d1 * d2,
    ;
    assert(0 <= r2 * d1 < p) by (nonlinear_arith)
        requires
            0 <= r2 < d2,
            0 < d1,
            p == d1 * d2,
    ;
    if w1 < w2 {
        assert(w1 * p + p <= w2 * p) by (nonlinear_arith)
            requires
                w1 + 1 <= w2,
                p > 0,
        ;
    } else if w2 < w1 {
        assert(w2 * p + p <= w1 * p) by (nonlinear_arith)
            requires
                w2 + 1 <= w1,
                p > 0,
        ;
    }
}

/// If one fraction is below a second and the second is at most a third, the first is below
/// the third; each fraction a numerator over a positive denominator, compared by cross
/// multiplication.
pub proof fn lemma_fractions_transitive(a: int, da: int, b: int, db: int, c: int, dc: int)
    requires
        da > 0,
        db > 0,
        dc > 0,
        a * db < b * da,
        b * dc <= c * db,
    ensures
        a * dc < c * da,
{
    assert(a * db * dc < b * da * dc) by (nonlinear_arith)
        requires
            a * db < b * da,
            dc > 0,
    ;
    assert(b * dc * da <= c * db * da) by (nonlinear_arith)
        requires
            b * dc <= c * db,
            da > 0,
    ;
    assert(b * da * dc == b * dc * da) by (nonlinear_arith);
    assert(a * db * dc == a * dc * db) by (nonlinear_arith);
    assert(c * db * da == c * da * db) by (nonlinear_arith);
    assert(a * dc < c * da) by (nonlinear_arith)
        requires
            a * dc * db < c * da * db,
            db > 0,
    ;
}

/// Being closer to a pixel's color carries over: what is closer than a second mean color is
/// closer than any third that the second is no farther than.
pub proof fn lemma_closer_carries(a: AverageRgb, b: AverageRgb, c: AverageRgb, pixel: Rgba)
    requires
        a.wf(),
        b.wf(),
        c.wf(),
        a.closer(b, pixel),
        b.no_farther(c, pixel),
    ensures
        a.closer(c, pixel),
{
    assert(square(a.count as int) > 0 && square(b.count as int) > 0 && square(c.count as int) > 0)
        by (nonlinear_arith)
        requires
            a.count > 0,
            b.count > 0,
            c.count > 0,
    ;
    lemma_fractions_transitive(
        a.scaled_distance(pixel),
        square(a.count as int),
        b.scaled_distance(pixel),
        square(b.count as int),
        c.scaled_distance(pixel),
        square(c.count as int),
    );
}

/// If one fraction is at most a second and the second is below a third, the first is below
/// the third.
pub proof fn lemma_fractions_transitive_late(a: int, da: int, b: int, db: int, c: int, dc: int)
    requires
        da > 0,
        db > 0,
        dc > 0,
        a * db <= b * da,
        b * dc < c * db,
    ensures
        a * dc < c * da,
{
    assert(a * db * dc <= b * da * dc) by (nonlinear_arith)
        requires
            a * db <= b * da,
            dc > 0,
    ;
    assert(b * dc * da < c * db * da) by (nonlinear_arith)
        requires
            b * dc < c * db,
            da > 0,
    ;
    assert(b * da * dc == b * dc * da) by (nonlinear_arith);
    assert(a * db * dc == a * dc * db) by (nonlinear_arith);
    assert(c * db * da == c * da * db) by (nonlinear_arith);
    assert(a * dc < c * da) by (nonlinear_arith)
        requires
            a * dc * db < c * da * db,
            db > 0,
    ;
}

/// If one fraction is at most a second and the second at most a third, the first is at most
/// the third.
pub proof fn lemma_fractions_transitive_weak(a: int, da: int, b: int, db: int, c: int, dc: int)
    requires
        da > 0,
        db > 0,
        dc > 0,
        a * db <= b * da,
        b * dc <= c * db,
    ensures
        a * dc <= c * da,
{
    assert(a * db * dc <= b * da * dc) by (nonlinear_arith)
        requires
            a * db <= b * da,
            dc > 0,
    ;
    assert(b * dc * da <= c * db * da) by (nonlinear_arith)
        requires
            b * dc <= c * db,
            da > 0,
    ;
    assert(b * da * dc == b * dc * da) by (nonlinear_arith);
    assert(a * db * dc == a * dc * db) by (nonlinear_arith);
    assert(c * db * da == c * da * db) by (nonlinear_arith);
    assert(a * dc <= c * da) by (nonlinear_arith)
        requires
            a * dc * db <= c * da * db,
            db > 0,
    ;
}

/// The square of a positive count is positive.
pub proof fn lemma_unit_positive(a: AverageRgb)
    requires
        a.wf(),
    ensures
        square(a.count as int) > 0,
{
    assert(square(a.count as int) > 0) by (nonlinear_arith)
        requires
            a.count > 0,
    ;
}

/// What is no farther than a second mean color is closer than any third that the second is
/// closer than.
pub proof fn lemma_closer_carries_late(a: AverageRgb, b: AverageRgb, c: AverageRgb, pixel: Rgba)
    requires
        a.wf(),
        b.wf(),
        c.wf(),
        a.no_farther(b, pixel),
        b.closer(c, pixel),
    ensures
        a.closer(c, pixel),
{
    lemma_unit_positive(a);
    lemma_unit_positive(b);
    lemma_unit_positive(c);
    lemma_fractions_transitive_late(
        a.scaled_distance(pixel),
        square(a.count as int),
        b.scaled_distance(pixel),
        square(b.count as int),
        c.scaled_distance(pixel),
        square(c.count as int),
    );
}

/// What is no farther than a second mean color is no farther than any third that the second
/// is no farther than.
pub proof fn lemma_no_farther_carries(a: AverageRgb, b: AverageRgb, c: AverageRgb, pixel: Rgba)
    requires
        a.wf(),
        b.wf(),
        c.wf(),
        a.no_farther(b, pixel),
        b.no_farther(c, pixel),
    ensures
        a.no_farther(c, pixel),
{
    lemma_unit_positive(a);
    lemma_unit_positive(b);
    lemma_unit_positive(c);
    lemma_fractions_transitive_weak(
        a.scaled_distance(pixel),
        square(a.count as int),
        b.scaled_distance(pixel),
        square(b.count as int),
        c.scaled_distance(pixel),
        square(c.count as int),
    );
}

/// A mean color on the other side of a plane is at least as far from the pixel's color as
/// the plane is. The plane holds the colors whose channel `axis` has the mean that it has in
/// `plane`; `point` lies on one side of it or in it, the pixel's color on the other.
pub proof fn lemma_across_plane(plane: AverageRgb, point: AverageRgb, axis: Channel, pixel: Rgba)
    requires
        plane.wf(),
        point.wf(),
        (plane.above(pixel, axis) && !point.below(plane, axis)) || (!plane.above(pixel, axis)
            && point.below(plane, axis)),
    ensures
        square(plane.offset(pixel, axis)) * square(point.count as int) <= point.scaled_distance(pixel)
            * square(plane.count as int),
{
    let q = channel_of(pixel, axis) as int;
    let u = plane.offset(pixel, axis);
    let v = point.offset(pixel, axis);
    let n = plane.count as int;
    let m = point.count as int;
    let s = plane.sum(axis) as int;
    let t = point.sum(axis) as int;
    assert(v * n == q * m * n - t * n) by (nonlinear_arith)
        requires
            v == q * m - t,
    ;
    assert(u * m == q * m * n - s * m) by (nonlinear_arith)
        requires
            u == q * n - s,
    ;
    if plane.above(pixel, axis) {
        assert(u * m <= 0) by (nonlinear_arith)
            requires
                u < 0,
                m > 0,
        ;
        assert(v * n <= u * m);
        assert((u * m) * (u * m) <= (v * n) * (v * n)) by (nonlinear_arith)
            requires
                v * n <= u * m <= 0,
        ;
    } else {
        assert(u * m >= 0) by (nonlinear_arith)
            requires
                u >= 0,
                m > 0,
        ;
        assert(v * n >= u * m);
        assert((u * m) * (u * m) <= (v * n) * (v * n)) by (nonlinear_arith)
            requires
                v * n >= u * m >= 0,
        ;
    }
    assert((u * m) * (u * m) == square(u) * square(m)) by (nonlinear_arith);
    assert((v * n) * (v * n) == square(v) * square(n)) by (nonlinear_arith);
    assert(square(v) <= point.scaled_distance(pixel)) by {
        assert(square(point.offset(pixel, Channel::Red)) >= 0) by (nonlinear_arith);
        assert(square(point.offset(pixel, Channel::Green)) >= 0) by (nonlinear_arith);
        assert(square(point.offset(pixel, Channel::Blue)) >= 0) by (nonlinear_arith);
    }
    assert(square(v) * square(n) <= point.scaled_distance(pixel) * square(n)) by (nonlinear_arith)
        requires
            square(v) <= point.scaled_distance(pixel),
            square(n) >= 0,
    ;
    assert(square(n) >= 0) by (nonlinear_arith);
}

/// What a plane shields from is closer to the pixel's color than every mean color across the
/// plane.
pub proof fn lemma_shielded(plane: AverageRgb, point: AverageRgb, axis: Channel, pixel: Rgba, nearer: AverageRgb)
    requires
        plane.wf(),
        point.wf(),
        nearer.wf(),
        plane.shields(axis, pixel, nearer),
        (plane.above(pixel, axis) && !point.below(plane, axis)) || (!plane.above(pixel, axis)
            && point.below(plane, axis)),
    ensures
        nearer.closer(point, pixel),
{
    lemma_across_plane(plane, point, axis, pixel);
    lemma_unit_positive(plane);
    lemma_unit_positive(point);
    lemma_unit_positive(nearer);
    lemma_fractions_transitive(
        nearer.scaled_distance(pixel),
        square(nearer.count as int),
        square(plane.offset(pixel, axis)),
        square(plane.count as int),
        point.scaled_distance(pixel),
        square(point.count as int),
    );
}

/// The mean color of the visible pixels among the given ones, if their number fits the count.
pub open spec fn mean_of(pixels: Seq<Rgba>) -> AverageRgb {
    AverageRgb {
        red: channel_sum(pixels, Channel::Red) as u64,
        green: channel_sum(pixels, Channel::Green) as u64,
        blue: channel_sum(pixels, Channel::Blue) as u64,
        count: visible_count(pixels) as u32,
    }
}

/// The mean color of the visible pixels of an image, or `None` where it has none. Since a
/// channel's sum is at most 255 times the count, each mean lies between 0 and 255.
pub fn get_average_rgb(img: &PixelBuffer) -> (average: Option<AverageRgb>)
    requires
        img.wf(),
    ensures
        average == if visible_count(img@.pixels) > 0 {
            Some(mean_of(img@.pixels))
        } else {
            None
        },
        average matches Some(mean) ==> {
            &&& mean.wf()
            &&& mean.count == visible_count(img@.pixels)
            &&& mean.red == channel_sum(img@.pixels, Channel::Red)
            &&& mean.green == channel_sum(img@.pixels, Channel::Green)
            &&& mean.blue == channel_sum(img@.pixels, Channel::Blue)
        },
{
    proof {
        img.lemma_view_wf();
    }
    let total = img.pixel_count();
    let mut red: u64 = 0;
    let mut green: u64 = 0;
    let mut blue: u64 = 0;
    let mut count: u32 = 0;
    let mut i: usize = 0;
    while i < total
        invariant
            i <= total == img@.pixels.len() <= u32::MAX,
            count == visible_count(img@.pixels.take(i as int)),
            red == channel_sum(img@.pixels.take(i as int), Channel::Red),
            green == channel_sum(img@.pixels.take(i as int), Channel::Green),
            blue == channel_sum(img@.pixels.take(i as int), Channel::Blue),
        decreases total - i,
    {
        let pixel = img.nth_pixel(i);
        proof {
            let next = img@.pixels.take(i + 1);
            assert(next.drop_last() =~= img@.pixels.take(i as int));
            assert(next.last() == pixel);
            lemma_channel_sum_bounded(next, Channel::Red);
            lemma_channel_sum_bounded(next, Channel::Green);
            lemma_channel_sum_bounded(next, Channel::Blue);
        }
        if pixel.alpha != 0 {
            red += pixel.red as u64;
            green += pixel.green as u64;
            blue += pixel.blue as u64;
            count += 1;
        }
        i += 1;
    }
    proof {
        assert(img@.pixels.take(total as int) =~= img@.pixels);
        lemma_channel_sum_bounded(img@.pixels, Channel::Red);
        lemma_channel_sum_bounded(img@.pixels, Channel::Green);
        lemma_channel_sum_bounded(img@.pixels, Channel::Blue);
    }
    if count == 0 {
        None
    } else {
        Some(AverageRgb { red, green, blue, count })
    }
}

} // verus!
