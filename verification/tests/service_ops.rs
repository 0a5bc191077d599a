use tracky::service::App;
use tracky::model::TrackerError;

#[test]
fn create_sets_current_and_rejects_duplicate() {
    let mut app = App::new();
    let r = app.new_tracker("alpha");
    assert!(matches!(r, Ok(s) if s == "alpha"));
    assert_eq!(app.curr.as_deref(), Some("alpha"));
    assert_eq!(app.trackers.len(), 1);

    let r2 = app.new_tracker("alpha");
    assert!(matches!(r2, Err(TrackerError::AlreadyExists(s)) if s == "alpha"));
    assert_eq!(app.trackers.len(), 1);
    assert_eq!(app.curr.as_deref(), Some("alpha"));
}

#[test]
fn create_keeps_existing_current() {
    let mut app = App::new();
    app.new_tracker("a").unwrap();
    app.new_tracker("b").unwrap();
    assert_eq!(app.curr.as_deref(), Some("a"));
    assert_eq!(app.trackers.len(), 2);
}

#[test]
fn start_then_start_again_fails() {
    let mut app = App::new();
    app.new_tracker("work").unwrap();
    let r = app.run_tracker(None, None);
    assert_eq!(r.unwrap(), "Running...");
    assert!(app.trackers[0].is_running());

    let r2 = app.run_tracker(None, None);
    assert!(matches!(r2, Err(TrackerError::AlreadyRunning)));
    assert!(app.trackers[0].is_running());
}

#[test]
fn stop_on_fresh_tracker_reports_no_logs() {
    let mut app = App::new();
    app.new_tracker("fresh").unwrap();
    let r = app.end_tracker(None);
    assert!(matches!(r, Err(TrackerError::NoLogs)));
}

#[test]
fn stop_returns_note_and_leaves_idle() {
    let mut app = App::new();
    app.new_tracker("t").unwrap();
    app.run_tracker(None, Some("writing")).unwrap();
    let r = app.end_tracker(None).unwrap();
    assert_eq!(r, "Stopping... writing");
    assert!(!app.trackers[0].is_running());

    let r2 = app.end_tracker(None);
    assert!(matches!(r2, Err(TrackerError::IsNotRunning)));
}

#[test]
fn stop_without_note_uses_placeholder() {
    let mut app = App::new();
    app.new_tracker("t").unwrap();
    app.run_tracker(None, None).unwrap();
    let r = app.end_tracker(None).unwrap();
    assert_eq!(r, "Stopping... <untitled>");
}

#[test]
fn switch_to_absent_tracker_keeps_current() {
    let mut app = App::new();
    app.new_tracker("real").unwrap();
    let r = app.swp_tracker("ghost");
    assert!(matches!(r, Err(TrackerError::DoesNotExist(s)) if s == "ghost"));
    assert_eq!(app.curr.as_deref(), Some("real"));
}

#[test]
fn switch_changes_current() {
    let mut app = App::new();
    app.new_tracker("a").unwrap();
    app.new_tracker("b").unwrap();
    let r = app.swp_tracker("b");
    assert_eq!(r.unwrap(), "b");
    assert_eq!(app.curr.as_deref(), Some("b"));
}

#[test]
fn explicit_title_wins_over_current() {
    let mut app = App::new();
    app.new_tracker("a").unwrap();
    app.new_tracker("b").unwrap();
    assert_eq!(app.curr.as_deref(), Some("a"));
    app.run_tracker(Some("b"), Some("note")).unwrap();
    assert!(!app.trackers[0].is_running());
    assert!(app.trackers[1].is_running());
}

#[test]
fn decide_title_prefers_explicit_argument() {
    let mut app = App::new();
    app.new_tracker("a").unwrap();
    let p = app.decide_title(Some("x")).unwrap();
    assert_eq!(p.0, "x");
    assert!(!p.1);
    let q = app.decide_title(None).unwrap();
    assert_eq!(q.0, "a");
    assert!(q.1);
    let empty = App::new();
    assert!(matches!(empty.decide_title(None), Err(TrackerError::NoneSelected)));
}

#[test]
fn stale_current_is_cleared_and_reported_as_none_selected() {
    let mut app = App::new();
    app.new_tracker("a").unwrap();
    app.curr = Some(String::from("ghost"));
    let r = app.run_tracker(None, None);
    assert!(matches!(r, Err(TrackerError::NoneSelected)));
    assert_eq!(app.curr, None);
    assert_eq!(app.trackers.len(), 1);
}

#[test]
fn operations_without_any_selection_report_none_selected() {
    let mut app = App::new();
    assert!(matches!(app.run_tracker(None, None), Err(TrackerError::NoneSelected)));
    assert!(matches!(app.end_tracker(None), Err(TrackerError::NoneSelected)));
    assert!(matches!(app.del_tracker(None), Err(TrackerError::NoneSelected)));
    assert!(matches!(app.log_tracker(None), Err(TrackerError::NoneSelected)));
    assert!(matches!(app.output_state_of_tracker(None), Err(TrackerError::NoneSelected)));
}

#[test]
fn delete_clears_current_only_when_it_was_deleted() {
    let mut app = App::new();
    app.new_tracker("a").unwrap();
    app.new_tracker("b").unwrap();

    let r = app.del_tracker(Some("b"));
    assert_eq!(r.unwrap(), "b");
    assert_eq!(app.curr.as_deref(), Some("a"));
    assert_eq!(app.trackers.len(), 1);

    let r2 = app.del_tracker(Some("a"));
    assert_eq!(r2.unwrap(), "a");
    assert_eq!(app.curr, None);
    assert!(app.trackers.is_empty());
}

#[test]
fn delete_of_absent_explicit_title_fails() {
    let mut app = App::new();
    app.new_tracker("a").unwrap();
    let r = app.del_tracker(Some("nope"));
    assert!(matches!(r, Err(TrackerError::DoesNotExist(s)) if s == "nope"));
    assert_eq!(app.trackers.len(), 1);
    assert_eq!(app.curr.as_deref(), Some("a"));
}

#[test]
fn delete_via_current_fallback() {
    let mut app = App::new();
    app.new_tracker("solo").unwrap();
    let r = app.del_tracker(None);
    assert_eq!(r.unwrap(), "solo");
    assert!(app.trackers.is_empty());
    assert_eq!(app.curr, None);
}

#[test]
fn list_marks_current_and_sorts() {
    let mut app = App::new();
    app.new_tracker("a").unwrap();
    app.new_tracker("b").unwrap();
    let lines = app.list_all_trackers().unwrap();
    assert_eq!(lines, vec!["> a".to_string(), "  b".to_string()]);
}

#[test]
fn list_sorts_regardless_of_insertion_order() {
    let mut app = App::new();
    for t in ["pear", "apple", "zebra", "mango"] {
        app.new_tracker(t).unwrap();
    }
    let lines = app.list_all_trackers().unwrap();
    assert_eq!(
        lines,
        vec![
            "  apple".to_string(),
            "  mango".to_string(),
            "> pear".to_string(),
            "  zebra".to_string(),
        ]
    );
}

#[test]
fn list_of_empty_app_is_distinct_empty_case() {
    let app = App::new();
    assert!(app.list_all_trackers().is_none());
}

#[test]
fn status_of_idle_tracker_without_logs() {
    let mut app = App::new();
    app.new_tracker("tr").unwrap();
    let s = app.output_state_of_tracker(None).unwrap();
    assert_eq!(s, "tr: idle\n");
}

#[test]
fn status_of_running_tracker_shows_note() {
    let mut app = App::new();
    app.new_tracker("tr").unwrap();
    app.run_tracker(None, Some("hack")).unwrap();
    let s = app.output_state_of_tracker(None).unwrap();
    assert!(s.starts_with("tr: running\n"));
    assert!(s.ends_with(" hack"));
}

#[test]
fn status_of_explicitly_absent_tracker_fails() {
    let mut app = App::new();
    app.new_tracker("a").unwrap();
    let r = app.output_state_of_tracker(Some("ghost"));
    assert!(matches!(r, Err(TrackerError::DoesNotExist(s)) if s == "ghost"));
}
