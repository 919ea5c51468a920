use simulation::run::{
    end_after_tick, end_before_tick, logic_step_ratio, max_steps, same_hash, trailing_divergence, EndReason,
};

#[test]
fn a_fight_lasts_at_most_two_minutes_of_twentieth_second_ticks() {
    assert_eq!(max_steps(), 2_400);
    assert_eq!(logic_step_ratio(), (1, 20));
    assert_eq!(end_before_tick(2_399), None);
    assert_eq!(end_before_tick(2_400), Some(EndReason::ForcedTimeLimit));
    assert_eq!(EndReason::ForcedTimeLimit.name(), "forced_time_limit");
}

#[test]
fn a_tick_diverges_from_a_recording_before_the_fight_may_drain() {
    let hash = vec![1u8, 2, 3];
    assert_eq!(end_after_tick(&None, &hash, false), None);
    assert_eq!(end_after_tick(&None, &hash, true), Some(EndReason::NaturalModuleDrain));
    assert_eq!(end_after_tick(&Some(Some(vec![1, 2, 3])), &hash, true), Some(EndReason::NaturalModuleDrain));
    assert_eq!(end_after_tick(&Some(Some(vec![1, 2, 4])), &hash, true), Some(EndReason::FirstDivergence));
    assert_eq!(end_after_tick(&Some(None), &hash, false), Some(EndReason::FirstDivergence));
    assert!(same_hash(&hash, &vec![1, 2, 3]));
    assert!(!same_hash(&hash, &vec![1, 2]));
}

#[test]
fn a_longer_recording_diverges_after_the_last_tick_run() {
    assert_eq!(trailing_divergence(Some(40), 30), Some(31));
    assert_eq!(trailing_divergence(Some(30), 30), None);
    assert_eq!(trailing_divergence(None, 30), None);
}
