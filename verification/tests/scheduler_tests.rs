use yotion::scheduler::{schedule_review, ReviewState, EASE_FLOOR_MILLI, EASE_START_MILLI};

#[test]
fn failure_resets_the_ladder() {
    let state = ReviewState { ease_milli: 2500, interval_days: 10, repetitions: 4 };
    let next = schedule_review(&state, 0);
    assert_eq!(next.repetitions, 0);
    assert_eq!(next.interval_days, 1);
    // ease strictly decreases from 2.5: 2500 - 800 = 1700 thousandths
    assert!(next.ease_milli < 2500);
    assert_eq!(next.ease_milli, 1700);
}

#[test]
fn success_ladder_from_a_fresh_card() {
    let s0 = ReviewState { ease_milli: EASE_START_MILLI, interval_days: 1, repetitions: 0 };
    let s1 = schedule_review(&s0, 5);
    assert_eq!((s1.interval_days, s1.repetitions), (1, 1));
    assert_eq!(s1.ease_milli, 2600);
    let s2 = schedule_review(&s1, 5);
    assert_eq!((s2.interval_days, s2.repetitions), (6, 2));
    assert_eq!(s2.ease_milli, 2700);
    let s3 = schedule_review(&s2, 5);
    // round(6 * 2.7) = round(16.2) = 16
    assert_eq!((s3.interval_days, s3.repetitions), (16, 3));
    assert_eq!(s3.ease_milli, 2800);
}

#[test]
fn ease_never_falls_below_the_floor() {
    let mut state = ReviewState { ease_milli: EASE_START_MILLI, interval_days: 1, repetitions: 0 };
    for _ in 0..100 {
        state = schedule_review(&state, 0);
        assert!(state.ease_milli >= EASE_FLOOR_MILLI);
    }
    assert_eq!(state.ease_milli, EASE_FLOOR_MILLI);
}

#[test]
fn quality_is_clamped_not_rejected() {
    let state = ReviewState { ease_milli: 2500, interval_days: 3, repetitions: 2 };
    // below the domain behaves as 0: a failure
    let low = schedule_review(&state, -7);
    assert_eq!((low.interval_days, low.repetitions), (1, 0));
    assert_eq!(low.ease_milli, 1700);
    // above the domain behaves as 5: a perfect recall
    let high = schedule_review(&state, 99);
    let five = schedule_review(&state, 5);
    assert_eq!(high, five);
}

#[test]
fn interval_growth_rounds_half_away_from_zero() {
    // 4 days at ease 2.125: 4 * 2.125 = 8.5, which rounds to 9
    let state = ReviewState { ease_milli: 2125, interval_days: 4, repetitions: 2 };
    let next = schedule_review(&state, 4);
    assert_eq!(next.interval_days, 9);
    // ease is unchanged by quality 4
    assert_eq!(next.ease_milli, 2125);
    assert_eq!(next.repetitions, 3);
}

#[test]
fn middling_failure_still_resets() {
    // quality 2 is below the success threshold of 3
    let state = ReviewState { ease_milli: 3000, interval_days: 40, repetitions: 9 };
    let next = schedule_review(&state, 2);
    assert_eq!((next.interval_days, next.repetitions), (1, 0));
    assert_eq!(next.ease_milli, 3000 - 320);
}

#[test]
fn initial_state_matches_a_new_card() {
    let s = ReviewState::initial();
    assert_eq!(s.ease_milli, EASE_START_MILLI);
    assert_eq!(s.interval_days, 1);
    assert_eq!(s.repetitions, 0);
}
