use hallucinator_core::monitor::MonitorStatus;
use hallucinator_core::MonitorError;

#[test]
fn monitor_starts_once() {
    let mut m = MonitorStatus::new();
    assert!(!m.is_running());
    assert!(m.check_start().is_ok());
    m.started();
    assert!(m.is_running());
    assert!(matches!(m.check_start(), Err(MonitorError::AlreadyRunning)));
}

#[test]
fn recording_needs_a_running_monitor() {
    let mut m = MonitorStatus::new();
    assert!(matches!(m.start_recording(), Err(MonitorError::NotRunning)));
    assert!(!m.is_recording());
    assert!(matches!(m.stop_recording(), Err(MonitorError::NotRecording)));
    m.started();
    assert!(m.start_recording().is_ok());
    assert!(m.is_recording());
    assert!(m.stop_recording().is_ok());
    assert!(!m.is_recording());
    assert!(m.is_running());
}

#[test]
fn stopping_the_monitor_stops_recording() {
    let mut m = MonitorStatus::new();
    assert!(matches!(m.stop(), Err(MonitorError::NotRunning)));
    m.started();
    m.start_recording().unwrap();
    assert!(m.stop().is_ok());
    assert!(!m.is_running());
    assert!(!m.is_recording());
}
