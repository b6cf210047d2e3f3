use json_eval_rs::timing::{
    clear_timing_data, disable_timing, enable_timing, is_timing_enabled, record_timing, TimingState,
};
use std::time::Duration;

#[test]
fn timing_records_only_when_enabled() {
    let mut t = TimingState::new(false);
    assert!(!is_timing_enabled(&t));
    record_timing(&mut t, "parse", Duration::from_millis(3));
    assert!(t.data().is_empty());
    enable_timing(&mut t);
    assert!(is_timing_enabled(&t));
    record_timing(&mut t, "parse", Duration::from_millis(3));
    record_timing(&mut t, "eval", Duration::from_millis(5));
    assert_eq!(t.data().len(), 2);
    assert_eq!(t.data()[0].0, "parse");
    assert_eq!(t.data()[1].1, Duration::from_millis(5));
    disable_timing(&mut t);
    assert_eq!(t.data().len(), 2);
    clear_timing_data(&mut t);
    assert!(t.data().is_empty());
    assert!(!is_timing_enabled(&t));
}
