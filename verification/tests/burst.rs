use hydro_strike::burst::{Burst, BurstAction, SquelchStatus};

#[test]
fn burst_state_machine() {
    let mut burst = Burst::new();
    assert!(!burst.in_burst);

    // Idle samples do nothing.
    assert_eq!(burst.catcher_step(SquelchStatus::SignalLo), BurstAction::Ignore);
    assert!(!burst.in_burst);

    // A squelch rise opens the burst.
    assert_eq!(burst.catcher_step(SquelchStatus::Rise), BurstAction::Start);
    assert!(burst.in_burst);

    // High samples are appended.
    assert_eq!(burst.catcher_step(SquelchStatus::SignalHi), BurstAction::Append);
    assert_eq!(burst.catcher_step(SquelchStatus::SignalHi), BurstAction::Append);
    assert!(burst.in_burst);

    // A fall alone ends nothing.
    assert_eq!(burst.catcher_step(SquelchStatus::Fall), BurstAction::Ignore);
    assert!(burst.in_burst);

    // The squelch timeout closes and emits the burst.
    assert_eq!(burst.catcher_step(SquelchStatus::Timeout), BurstAction::Emit);
    assert!(!burst.in_burst);
}

#[test]
fn burst_default_is_idle() {
    let burst = Burst::default();
    assert!(!burst.in_burst);
}
