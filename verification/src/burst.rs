use vstd::prelude::*;

verus! {

/// The squelch condition the gain control reports for one sample.
#[derive(Debug, Clone, Copy, PartialEq, Eq, Structural)]
pub enum SquelchStatus {
    Unknown,
    Enabled,
    Rise,
    SignalHi,
    Fall,
    SignalLo,
    Timeout,
    Disabled,
}

/// What the burst catcher does with one sample: open a fresh burst, append
/// the sample, emit the finished burst, or nothing.
#[derive(Debug, Clone, Copy, PartialEq, Eq, Structural)]
pub enum BurstAction {
    Start,
    Append,
    Emit,
    Ignore,
}

/// The action one squelch status calls for.
pub open spec fn spec_burst_action(status: SquelchStatus) -> BurstAction {
    match status {
        SquelchStatus::Rise => BurstAction::Start,
        SquelchStatus::SignalHi => BurstAction::Append,
        SquelchStatus::Timeout => BurstAction::Emit,
        _ => BurstAction::Ignore,
    }
}

/// The burst catcher's state machine.  The sample buffer, the RSSI sum and
/// the gain control itself live beside it, outside the library; they are
/// driven by the returned action.
#[derive(Debug)]
pub struct Burst {
    pub in_burst: bool,
}

impl Burst {
    pub fn new() -> (r: Self)
        ensures
            !r.in_burst,
    {
        Self { in_burst: false }
    }

    /// One step of the burst state machine: a squelch rise opens a burst,
    /// a high signal extends it, a timeout closes and emits it, and every
    /// other status changes nothing.
    pub fn catcher_step(&mut self, status: SquelchStatus) -> (action: BurstAction)
        ensures
            action == spec_burst_action(status),
            final(self).in_burst == match status {
                SquelchStatus::Rise => true,
                SquelchStatus::Timeout => false,
                _ => old(self).in_burst,
            },
    {
        match status {
            SquelchStatus::Rise => {
                self.in_burst = true;
                BurstAction::Start
            },
            SquelchStatus::SignalHi => BurstAction::Append,
            SquelchStatus::Timeout => {
                self.in_burst = false;
                BurstAction::Emit
            },
            _ => BurstAction::Ignore,
        }
    }
}

impl Default for Burst {
    fn default() -> (r: Self)
        ensures
            !r.in_burst,
    {
        Self::new()
    }
}

} // verus!
