//! Spaced-repetition scheduling: a pure function from a flashcard's
//! current repetition state and a review quality score to its next
//! state.
//!
//! The ease factor is held in exact thousandths (2.5 is stored as
//! 2500), so the update formula
//! `ease + (0.1 - (5 - q) * (0.08 + (5 - q) * 0.02))` becomes integer
//! arithmetic: `ease_milli + 100 - (5 - q) * (80 + (5 - q) * 20)`.

use vstd::prelude::*;

verus! {

/// Starting ease factor of a new card, in thousandths.
pub const EASE_START_MILLI: u32 = 2500;

/// The floor the ease factor is clamped to after every update, in
/// thousandths.
pub const EASE_FLOOR_MILLI: u32 = 1300;

/// Largest representable ease factor, in thousandths.
pub const EASE_CAP_MILLI: u32 = 0xffff_ffff;

/// Largest representable review interval, in days.
pub const INTERVAL_CAP_DAYS: u32 = 0x7fff_ffff;

/// Largest repetition count.
pub const REPETITIONS_CAP: u32 = 0xffff_ffff;

/// The scheduling triple of one flashcard.
#[derive(Clone, Copy, Debug, PartialEq, Eq, Structural)]
pub struct ReviewState {
    /// Ease factor in thousandths; at least 1300 for a well-formed
    /// card.
    pub ease_milli: u32,
    /// Days until the card is due again; at least 1 for a well-formed
    /// card.
    pub interval_days: u32,
    /// Consecutive successful recalls; reset to 0 by a failed review.
    pub repetitions: u32,
}

impl ReviewState {
    /// A card's triple as the scheduler maintains it: ease at or above
    /// the floor, interval at least one day.
    pub open spec fn wf(&self) -> bool {
        self.ease_milli >= EASE_FLOOR_MILLI && self.interval_days >= 1
    }

    /// The triple every new card starts from.
    pub fn initial() -> (r: ReviewState)
        ensures
            r.ease_milli == EASE_START_MILLI,
            r.interval_days == 1,
            r.repetitions == 0,
            r.wf(),
    {
        ReviewState { ease_milli: EASE_START_MILLI, interval_days: 1, repetitions: 0 }
    }
}

/// A caller-supplied quality score clamped to the domain 0..=5; a
/// score is never rejected.
pub open spec fn clamp_quality(q: int) -> int {
    if q < 0 {
        0
    } else if q > 5 {
        5
    } else {
        q
    }
}

/// Change of the ease factor, in thousandths, for a clamped quality
/// score: the penalty grows quadratically as the score drops.
pub open spec fn ease_delta_milli(q: int) -> int {
    100 - (5 - q) * (80 + (5 - q) * 20)
}

/// The ease factor after a review: the delta for the clamped score is
/// applied to the old ease, the result clamped to the 1.3 floor and
/// capped at the largest representable thousandth.
pub open spec fn next_ease_milli(ease: int, q: int) -> int {
    let e = ease + ease_delta_milli(clamp_quality(q));
    if e < EASE_FLOOR_MILLI as int {
        EASE_FLOOR_MILLI as int
    } else if e > EASE_CAP_MILLI as int {
        EASE_CAP_MILLI as int
    } else {
        e
    }
}

/// The interval after a review. A failed review (clamped quality
/// below 3) resets the interval to one day; the first two successes
/// fix it at 1 and 6 days; later successes multiply it by the old
/// ease factor, rounding half away from zero, with a minimum of one
/// day and a cap at the largest representable interval.
pub open spec fn next_interval_days(interval: int, ease: int, reps: int, q: int) -> int {
    if clamp_quality(q) < 3 {
        1
    } else if reps == 0 {
        1
    } else if reps == 1 {
        6
    } else {
        let grown = (interval * ease + 500) / 1000;
        if grown < 1 {
            1
        } else if grown > INTERVAL_CAP_DAYS as int {
            INTERVAL_CAP_DAYS as int
        } else {
            grown
        }
    }
}

/// The repetition count after a review: reset to zero by a failure,
/// incremented by a success.
pub open spec fn next_repetitions(reps: int, q: int) -> int {
    if clamp_quality(q) < 3 {
        0
    } else if reps >= REPETITIONS_CAP as int {
        REPETITIONS_CAP as int
    } else {
        reps + 1
    }
}

/// The full next triple for a card reviewed with the given score.
pub open spec fn next_state(state: ReviewState, q: int) -> ReviewState {
    ReviewState {
        ease_milli: next_ease_milli(state.ease_milli as int, q) as u32,
        interval_days: next_interval_days(
            state.interval_days as int,
            state.ease_milli as int,
            state.repetitions as int,
            q,
        ) as u32,
        repetitions: next_repetitions(state.repetitions as int, q) as u32,
    }
}

/// The delta is bounded: between -800 (quality 0) and +100 (quality
/// 5) thousandths.
proof fn lemma_ease_delta_bounds(q: int)
    requires
        0 <= q <= 5,
    ensures
        -800 <= ease_delta_milli(q) <= 100,
        q < 3 ==> ease_delta_milli(q) <= -320,
{
    assert(ease_delta_milli(0) == -800);
    assert(ease_delta_milli(1) == -540);
    assert(ease_delta_milli(2) == -320);
    assert(ease_delta_milli(3) == -140);
    assert(ease_delta_milli(4) == 0);
    assert(ease_delta_milli(5) == 100);
    assert(q == 0 || q == 1 || q == 2 || q == 3 || q == 4 || q == 5);
}

/// The delta table: one exact value for each quality score. The
/// quadratic penalty drops the ease sharply for poor recalls while a
/// perfect recall raises it by a tenth.
pub proof fn lemma_ease_delta_values()
    ensures
        ease_delta_milli(0) == -800,
        ease_delta_milli(1) == -540,
        ease_delta_milli(2) == -320,
        ease_delta_milli(3) == -140,
        ease_delta_milli(4) == 0,
        ease_delta_milli(5) == 100,
{
}

/// No review, whatever the quality score and prior state, drives the
/// ease factor below the 1.3 floor.
pub proof fn lemma_ease_floor(ease: int, q: int)
    ensures
        next_ease_milli(ease, q) >= EASE_FLOOR_MILLI as int,
{
}

/// A failed review (clamped quality below 3) always resets the
/// learning ladder: the interval goes back to one day and the
/// repetition count to zero, whatever the prior ease factor.
pub proof fn lemma_failure_resets(interval: int, ease: int, reps: int, q: int)
    requires
        clamp_quality(q) < 3,
    ensures
        next_interval_days(interval, ease, reps, q) == 1,
        next_repetitions(reps, q) == 0,
{
}

/// A failed review strictly decreases an ease factor that sits above
/// the floor.
pub proof fn lemma_failure_decreases_ease(ease: int, q: int)
    requires
        clamp_quality(q) < 3,
        ease > EASE_FLOOR_MILLI as int,
    ensures
        next_ease_milli(ease, q) < ease,
{
    lemma_ease_delta_bounds(clamp_quality(q));
}

/// Compute the next scheduling triple for one review. Pure and
/// deterministic; the quality score is clamped to 0..=5, never
/// rejected.
pub fn schedule_review(state: &ReviewState, quality: i64) -> (r: ReviewState)
    ensures
        r == next_state(*state, quality as int),
        r.wf(),
{
    let q: i64 = if quality < 0 {
        0
    } else if quality > 5 {
        5
    } else {
        quality
    };
    assert(q == clamp_quality(quality as int));

    let interval_days: u32 = if q < 3 {
        1
    } else if state.repetitions == 0 {
        1
    } else if state.repetitions == 1 {
        6
    } else {
        proof {
            let a = state.interval_days as int;
            let b = state.ease_milli as int;
            assert(a * b <= 0xffff_ffff * 0xffff_ffff) by (nonlinear_arith)
                requires
                    0 <= a <= 0xffff_ffff,
                    0 <= b <= 0xffff_ffff,
            ;
        }
        let prod: u64 = (state.interval_days as u64) * (state.ease_milli as u64);
        let grown: u64 = (prod + 500) / 1000;
        if grown < 1 {
            1
        } else if grown > INTERVAL_CAP_DAYS as u64 {
            INTERVAL_CAP_DAYS
        } else {
            grown as u32
        }
    };

    let repetitions: u32 = if q < 3 {
        0
    } else if state.repetitions == REPETITIONS_CAP {
        REPETITIONS_CAP
    } else {
        state.repetitions + 1
    };

    let d: i64 = 5 - q;
    proof {
        lemma_ease_delta_bounds(q as int);
    }
    assert(d * (80 + d * 20) == (5 - q) * (80 + (5 - q) * 20));
    assert(0 <= d * (80 + d * 20) <= 900) by (nonlinear_arith)
        requires
            0 <= d <= 5,
    ;
    let delta: i64 = 100 - d * (80 + d * 20);
    let e: i64 = state.ease_milli as i64 + delta;
    let ease_milli: u32 = if e < EASE_FLOOR_MILLI as i64 {
        EASE_FLOOR_MILLI
    } else if e > EASE_CAP_MILLI as i64 {
        EASE_CAP_MILLI
    } else {
        e as u32
    };

    ReviewState { ease_milli, interval_days, repetitions }
}

} // verus!
