//! Recording of labelled durations, switched on and off at run time. The state
//! lives with the caller (the program keeps one per thread).

use vstd::prelude::*;
use std::time::Duration;

verus! {

/// The timing records of one thread.
pub struct TimingState {
    enabled: bool,
    data: Vec<(String, Duration)>,
}

/// The labels and durations of a list of records.
pub open spec fn record_views(s: Seq<(String, Duration)>) -> Seq<(Seq<char>, Duration)> {
    Seq::new(s.len(), |i: int| (s[i].0@, s[i].1))
}

impl TimingState {
    /// Whether recording is on.
    pub closed spec fn is_on(self) -> bool {
        self.enabled
    }

    /// What has been recorded, in order.
    pub closed spec fn records(self) -> Seq<(Seq<char>, Duration)> {
        record_views(self.data@)
    }

    /// A state with nothing recorded; recording is on when `enabled` (the program
    /// passes whether `JSONEVAL_TIMING` is set).
    pub fn new(enabled: bool) -> (res: Self)
        ensures
            res.is_on() == enabled,
            res.records() == Seq::<(Seq<char>, Duration)>::empty(),
    {
        let res = TimingState { enabled, data: Vec::new() };
        assert(res.records() =~= Seq::<(Seq<char>, Duration)>::empty());
        res
    }

    /// The records, in order.
    pub fn data(&self) -> (res: &Vec<(String, Duration)>)
        ensures
            record_views(res@) == self.records(),
    {
        &self.data
    }
}

/// Check if timing is enabled.
pub fn is_timing_enabled(state: &TimingState) -> (res: bool)
    ensures
        res == state.is_on(),
{
    state.enabled
}

/// Enable timing; the records stay.
pub fn enable_timing(state: &mut TimingState)
    ensures
        final(state).is_on(),
        final(state).records() == old(state).records(),
{
    state.enabled = true;
}

/// Disable timing; the records stay.
pub fn disable_timing(state: &mut TimingState)
    ensures
        !final(state).is_on(),
        final(state).records() == old(state).records(),
{
    state.enabled = false;
}

/// Record `duration` under `label`, when timing is enabled.
pub fn record_timing(state: &mut TimingState, label: &str, duration: Duration)
    ensures
        final(state).is_on() == old(state).is_on(),
        final(state).records() == (if old(state).is_on() {
            old(state).records().push((label@, duration))
        } else {
            old(state).records()
        }),
{
    if state.enabled {
        let ghost prev = state.data@;
        state.data.push((String::from_str(label), duration));
        assert(record_views(state.data@) =~= record_views(prev).push((label@, duration)));
    }
}

/// Clear the records; whether timing is on stays.
pub fn clear_timing_data(state: &mut TimingState)
    ensures
        final(state).is_on() == old(state).is_on(),
        final(state).records() == Seq::<(Seq<char>, Duration)>::empty(),
{
    state.data.clear();
    assert(record_views(state.data@) =~= Seq::<(Seq<char>, Duration)>::empty());
}

} // verus!
