use tracky::model::{Log, Tracker, TrackerError};
use tracky::service::App;

#[test]
fn tracker_state_machine_at_fixed_times() {
    let mut t = Tracker::new("x");
    assert_eq!(t.get_title(), "x");
    assert!(!t.is_running());

    t.up_at(100, Some(String::from("n"))).unwrap();
    assert!(t.is_running());
    assert!(matches!(t.up_at(150, None), Err(TrackerError::AlreadyRunning)));

    let note = t.down_at(160).unwrap();
    assert_eq!(note, "n");
    assert!(!t.is_running());
    assert_eq!(t.logs[0].start_time, 100);
    assert_eq!(t.logs[0].end_time, Some(160));
    assert!(matches!(t.down_at(170), Err(TrackerError::IsNotRunning)));
}

#[test]
fn down_on_tracker_without_logs() {
    let mut t = Tracker::new("y");
    assert!(matches!(t.down_at(5), Err(TrackerError::NoLogs)));
    assert!(matches!(t.down(), Err(TrackerError::NoLogs)));
}

#[test]
fn tracker_cycles_between_idle_and_running() {
    let mut t = Tracker::new("cycle");
    for k in 0u64..4 {
        t.up_at(k * 100, None).unwrap();
        assert!(t.is_running());
        t.down_at(k * 100 + 10).unwrap();
        assert!(!t.is_running());
    }
    assert_eq!(t.logs.len(), 4);
}

#[test]
fn up_and_down_with_live_clock() {
    let mut t = Tracker::new("live");
    t.up(Some("job")).unwrap();
    assert!(t.is_running());
    let note = t.down().unwrap();
    assert_eq!(note, "job");
    assert!(!t.is_running());
}

#[test]
fn log_stop_at_renders_span_and_closes_once() {
    let mut l = Log::new_at(100, Some(String::from("z")));
    assert!(l.is_running());
    let d = l.stop_at(160).unwrap();
    assert_eq!(d, "1:00");
    assert!(!l.is_running());
    assert!(l.stop_at(200).is_none());
    assert_eq!(l.end_time, Some(160));
}

#[test]
fn log_stop_clamps_a_backwards_clock() {
    let mut l = Log::new_at(100, None);
    let d = l.stop_at(50).unwrap();
    assert_eq!(l.end_time, Some(100));
    assert_eq!(d, "0s");
}

#[test]
fn log_note_placeholder() {
    let l = Log::new_at(0, None);
    assert_eq!(l.get_note(), "<untitled>");
    let m = Log::new_at(0, Some(String::from("memo")));
    assert_eq!(m.get_note(), "memo");
}

#[test]
fn log_duration_at_exact_values() {
    let mut l = Log::new_at(100, None);
    assert_eq!(l.duration_at(100), "0s");
    assert_eq!(l.duration_at(165), "1:05");
    assert_eq!(l.duration_at(100 + 3700), "01:01:40");
    l.stop_at(160);
    assert_eq!(l.duration_at(9999), "1:00");
}

#[test]
fn log_new_is_open_and_stop_closes() {
    let mut l = Log::new(Some(String::from("w")));
    assert!(l.is_running());
    assert!(l.time1().is_none());
    let d = l.stop();
    assert!(d.is_some());
    assert!(!l.is_running());
    assert!(l.time1().is_some());
}

#[test]
fn clock_times_are_well_formed() {
    let l = Log::new_at(86400 + 3600, None);
    let t0 = l.time0();
    let parts: Vec<u32> = t0.split(':').map(|p| p.parse().unwrap()).collect();
    assert_eq!(parts.len(), 3);
    assert!(parts[0] < 24);
    assert!(parts[1] < 60);
    assert!(parts[2] < 60);
}

#[test]
fn status_lines_show_newest_three_logs() {
    let mut t = Tracker::new("m");
    for k in 0u64..5 {
        t.up_at(k * 100, None).unwrap();
        t.down_at(k * 100 + 10).unwrap();
    }
    let s = t.get_last_3_logs();
    assert_eq!(s.lines().count(), 3);
    for line in s.lines() {
        assert!(line.contains(" -> "));
        assert!(line.ends_with(" <untitled>"));
    }
}

#[test]
fn status_lines_of_empty_tracker_are_empty() {
    let t = Tracker::new("none");
    assert_eq!(t.get_last_3_logs(), "");
}

#[test]
fn log_listing_is_chronological_with_blank_open_end() {
    let mut t = Tracker::new("w");
    t.up_at(100, Some(String::from("one"))).unwrap();
    t.down_at(200).unwrap();
    t.up_at(300, None).unwrap();
    let mut app = App::new();
    app.trackers.push(t);
    app.curr = Some(String::from("w"));

    let lines = app.log_tracker(None).unwrap();
    assert_eq!(lines.len(), 2);
    assert!(lines[0].contains(" -> "));
    assert!(lines[0].ends_with(" one"));
    assert!(lines[1].contains(" -> "));
    assert!(lines[1].ends_with(" <untitled>"));
}
