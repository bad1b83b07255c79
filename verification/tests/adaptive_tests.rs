use idm_rs::adaptive::{clamp_usize, initial_target, next_target, AdaptiveController, LoadSignal};

#[test]
fn new_controller_clamps_base() {
    assert_eq!(AdaptiveController::new(8, 2, 32).target(), 8);
    assert_eq!(AdaptiveController::new(1, 2, 32).target(), 2);
    assert_eq!(AdaptiveController::new(64, 2, 32).target(), 32);
    assert_eq!(initial_target(64, 2, 32), 32);
}

#[test]
fn tune_moves_one_step() {
    let c = AdaptiveController::new(8, 2, 32);
    c.tune(LoadSignal::Healthy);
    assert_eq!(c.target(), 9);
    c.tune(LoadSignal::Congested);
    c.tune(LoadSignal::Congested);
    assert_eq!(c.target(), 7);
    c.tune(LoadSignal::Steady);
    assert_eq!(c.target(), 7);
}

#[test]
fn tune_stays_within_bounds() {
    let c = AdaptiveController::new(2, 2, 3);
    c.tune(LoadSignal::Congested);
    assert_eq!(c.target(), 2);
    for _ in 0..10 {
        c.tune(LoadSignal::Healthy);
    }
    assert_eq!(c.target(), 3);
}

#[test]
fn clones_share_the_target() {
    let a = AdaptiveController::new(4, 1, 10);
    let b = a.clone();
    b.tune(LoadSignal::Healthy);
    assert_eq!(a.target(), 5);
}

#[test]
fn next_target_examples() {
    assert_eq!(next_target(0, LoadSignal::Congested, 0, 5), 0);
    assert_eq!(next_target(5, LoadSignal::Healthy, 0, 5), 5);
    assert_eq!(next_target(usize::MAX, LoadSignal::Healthy, 0, usize::MAX), usize::MAX);
    assert_eq!(next_target(3, LoadSignal::Steady, 4, 9), 4);
    assert_eq!(clamp_usize(7, 1, 5), 5);
}

#[test]
fn congestion_converges_to_minimum() {
    let c = AdaptiveController::new(30, 2, 32);
    for _ in 0..100 {
        c.tune(LoadSignal::Congested);
    }
    assert_eq!(c.target(), 2);
}
