//! Units, thresholds and the table of measured legs.
//!
//! Distances are whole millimetres, bearings and angles whole micro-degrees, instants whole
//! milliseconds, and a confidence is a number of millionths. The thresholds below are the
//! tunable constants of the validation rules.

use vstd::prelude::*;

verus! {

/// Micro-degrees in a full turn.
pub const FULL_TURN: u32 = 360_000_000;

/// Micro-degrees in half a turn.
pub const HALF_TURN: u32 = 180_000_000;

/// Two points closer than this many millimetres count as close together.
pub const MAX_POINTS_DELTA: u64 = 1_000_000;

/// A point is a turn when the bearings to its two neighbours differ by at least this many
/// micro-degrees.
pub const MAX_BEARING: u32 = 50_000_000;

/// A change of owner that is undone within fewer than this many millimetres is a flicker.
pub const SHORT_HOP: u64 = 250_000;

/// A window of the consolidation pass that spans more than this many millimetres is long.
pub const WINDOW_SPAN: u64 = 100_000;

/// Number of points in a window of the consolidation pass.
pub const WINDOW_SIZE: usize = 5;

/// An owner dominates a window when it owns at least this many of its points.
pub const WINDOW_MAJORITY: usize = 3;

/// Shortest common route, in millimetres, that is accepted.
pub const MIN_DISTANCE: u64 = 1_000_000;

/// Longest common route, in millimetres, that is accepted.
pub const MAX_DISTANCE: u64 = 80_000_000;

/// Largest accepted gap, in milliseconds, between the two first (or last) fixes.
pub const MAX_DELTA_IN_MILLISECONDS: u64 = 90_000;

/// A fix whose outlier score, in thousandths, exceeds this is noise.
pub const OUTLIER_THRESHOLD: u64 = 1_000;

/// The confidence, in millionths, of two indistinguishable paths.
pub const FULL_CONFIDENCE: u32 = 1_000_000;

/// What was measured from one point towards another.
#[derive(Clone, Copy, Debug)]
pub struct Leg {
    /// Great-circle distance in millimetres.
    pub distance: u64,
    /// Initial bearing in micro-degrees, clockwise from north.
    pub bearing: u32,
}

/// The leg that stands for a pair of points nobody measured: infinitely far, due north.
pub open spec fn unmeasured() -> Leg {
    Leg { distance: u64::MAX, bearing: 0 }
}

/// A table of legs between the points of one sequence: row `from`, column `to`.
///
/// The table need not be square or complete. A pair outside the table reads as
/// [`unmeasured`], so every lookup has an answer. A complete table of `n` points holds
/// `n * n` legs.
#[derive(Clone, Debug)]
pub struct Survey {
    pub legs: Vec<Vec<Leg>>,
}

impl Survey {
    /// The entry for the pair `(from, to)`.
    pub open spec fn leg_spec(&self, from: int, to: int) -> Leg {
        if 0 <= from < self.legs@.len() && 0 <= to < self.legs@[from]@.len() {
            self.legs@[from]@[to]
        } else {
            unmeasured()
        }
    }

    /// Distance in millimetres from `from` to `to`.
    pub open spec fn distance_spec(&self, from: int, to: int) -> u64 {
        self.leg_spec(from, to).distance
    }

    /// Bearing in micro-degrees from `from` towards `to`.
    pub open spec fn bearing_spec(&self, from: int, to: int) -> u32 {
        self.leg_spec(from, to).bearing
    }

    /// The angle at `mid` between the directions towards `before` and towards `after`.
    pub open spec fn turn_spec(&self, before: int, mid: int, after: int) -> int {
        turn_angle_spec(self.bearing_spec(mid, before), self.bearing_spec(mid, after))
    }

    /// The survey that holds these rows of legs.
    pub fn new(legs: Vec<Vec<Leg>>) -> (survey: Survey)
        ensures
            survey.legs == legs,
    {
        Survey { legs }
    }

    /// The leg from `from` to `to`, or the unmeasured leg where the table has none.
    pub fn leg(&self, from: usize, to: usize) -> (leg: Leg)
        ensures
            leg == self.leg_spec(from as int, to as int),
    {
        if from < self.legs.len() {
            let row = &self.legs[from];
            if to < row.len() {
                return row[to];
            }
        }
        Leg { distance: u64::MAX, bearing: 0 }
    }

    /// Distance in millimetres from `from` to `to`.
    pub fn distance(&self, from: usize, to: usize) -> (d: u64)
        ensures
            d == self.distance_spec(from as int, to as int),
    {
        self.leg(from, to).distance
    }

    /// The angle at `mid` between the directions towards `before` and towards `after`.
    pub fn turn(&self, before: usize, mid: usize, after: usize) -> (angle: u32)
        ensures
            angle == self.turn_spec(before as int, mid as int, after as int),
            angle <= HALF_TURN,
    {
        turn_angle(self.leg(mid, before).bearing, self.leg(mid, after).bearing)
    }
}

/// The difference between two bearings, folded into the half turn from 0 to 180 degrees.
pub open spec fn turn_angle_spec(toward_before: u32, toward_after: u32) -> int {
    let delta = ((toward_after % FULL_TURN) - (toward_before % FULL_TURN) + FULL_TURN)
        % (FULL_TURN as int);
    if delta <= HALF_TURN {
        delta
    } else {
        FULL_TURN - delta
    }
}

/// The difference between two bearings, folded into the half turn from 0 to 180 degrees.
/// A bearing of a full turn or more counts as what is left of it after whole turns.
pub fn turn_angle(toward_before: u32, toward_after: u32) -> (angle: u32)
    ensures
        angle == turn_angle_spec(toward_before, toward_after),
        angle <= HALF_TURN,
{
    let before: u32 = toward_before % FULL_TURN;
    let after: u32 = toward_after % FULL_TURN;
    let delta: u32 = if after >= before {
        after - before
    } else {
        after + (FULL_TURN - before)
    };
    if delta <= HALF_TURN {
        delta
    } else {
        FULL_TURN - delta
    }
}

/// The sum of two distances, held at the largest value a distance can take.
pub open spec fn saturating_sum(a: int, b: int) -> int {
    if a + b > u64::MAX {
        u64::MAX as int
    } else {
        a + b
    }
}

/// The sum of two distances, held at the largest value a distance can take.
pub fn add_distance(a: u64, b: u64) -> (sum: u64)
    ensures
        sum == saturating_sum(a as int, b as int),
{
    if a > u64::MAX - b {
        u64::MAX
    } else {
        a + b
    }
}

/// Whether a fix with this outlier score, in thousandths, is dropped as noise.
pub open spec fn is_outlier_spec(score: u64) -> bool {
    score > OUTLIER_THRESHOLD
}

/// Whether a fix with this outlier score, in thousandths, is dropped as noise.
pub fn is_outlier(score: u64) -> (noisy: bool)
    ensures
        noisy == is_outlier_spec(score),
{
    score > OUTLIER_THRESHOLD
}

/// Confidence in millionths: one minus the ratio of the Fréchet distance to the scale, the
/// ratio rounded down and held between zero and one. A distance that reaches the scale
/// (a scale of zero included) leaves no confidence at all.
pub open spec fn confidence_spec(frechet: u64, scale: u64) -> int {
    if frechet >= scale {
        0
    } else {
        FULL_CONFIDENCE - (frechet * FULL_CONFIDENCE) / (scale as int)
    }
}

/// A confidence lies between nothing and [`FULL_CONFIDENCE`], and it is full when the
/// paths are no distance apart on a scale that is not zero.
pub proof fn lemma_confidence_range(frechet: u64, scale: u64)
    ensures
        0 <= confidence_spec(frechet, scale) <= FULL_CONFIDENCE,
        frechet == 0 && scale > 0 ==> confidence_spec(frechet, scale) == FULL_CONFIDENCE,
        frechet >= scale ==> confidence_spec(frechet, scale) == 0,
{
    if frechet < scale {
        lemma_ratio_below_one(frechet as int, scale as int, FULL_CONFIDENCE as int);
    }
}

/// The confidence, in millionths, that two paths are one, given the Fréchet distance
/// between them and the scale to hold it against, both in one unit.
pub fn confidence(frechet: u64, scale: u64) -> (score: u32)
    ensures
        score == confidence_spec(frechet, scale),
        score <= FULL_CONFIDENCE,
        frechet == 0 && scale > 0 ==> score == FULL_CONFIDENCE,
{
    if frechet >= scale {
        return 0;
    }
    assert(FULL_CONFIDENCE == 1_000_000);
    let scaled: u128 = (frechet as u128) * 1_000_000;
    let ratio: u128 = scaled / (scale as u128);
    proof {
        lemma_ratio_below_one(frechet as int, scale as int, FULL_CONFIDENCE as int);
    }
    FULL_CONFIDENCE - (ratio as u32)
}

/// A proper fraction of `whole`, rounded down, stays below `whole`.
proof fn lemma_ratio_below_one(part: int, scale: int, whole: int)
    requires
        0 <= part < scale,
        0 < whole,
    ensures
        0 <= (part * whole) / scale < whole,
        part == 0 ==> (part * whole) / scale == 0,
{
    assert(0 <= part * whole < scale * whole) by (nonlinear_arith)
        requires
            0 <= part < scale,
            0 < whole,
    ;
    assert((part * whole) / scale < whole) by (nonlinear_arith)
        requires
            0 <= part * whole < scale * whole,
            0 < scale,
    ;
    assert(0 <= (part * whole) / scale) by (nonlinear_arith)
        requires
            0 <= part * whole,
            0 < scale,
    ;
    if part == 0 {
        assert(part * whole == 0) by (nonlinear_arith)
            requires
                part == 0,
        ;
    }
}

} // verus!
