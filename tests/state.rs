use tracemap::list::StatefulList;
use tracemap::session::{completion_message, status_of_message, TraceSession, TraceStatus};
use tracemap::state::{App, MAX_ZOOM, MIN_ZOOM};
use tracemap::tabs::TabsState;

#[test]
fn tabs_wrap_both_ways() {
    let mut t = TabsState::new(vec!["a", "b", "c"]);
    assert_eq!(t.index, 0);
    t.previous();
    assert_eq!(t.index, 2);
    t.next();
    assert_eq!(t.index, 0);
    t.next();
    assert_eq!(t.index, 1);
}

#[test]
fn list_selection_wraps() {
    let mut l = StatefulList::with_items(vec![10, 20, 30]);
    assert_eq!(l.selected, None);
    l.next();
    assert_eq!(l.selected, Some(0));
    l.previous();
    assert_eq!(l.selected, Some(2));
    l.next();
    assert_eq!(l.selected, Some(0));
    let mut m: StatefulList<u8> = StatefulList::with_items(vec![]);
    m.previous();
    assert_eq!(m.selected, Some(0));
}

#[test]
fn completion_message_reports_stderr_or_ok() {
    assert_eq!(completion_message(String::new()), "ok");
    assert_eq!(completion_message("unknown host".to_string()), "unknown host");
}

#[test]
fn status_from_message() {
    assert!(matches!(status_of_message("ok".to_string()), TraceStatus::Done));
    match status_of_message("boom".to_string()) {
        TraceStatus::Failed(m) => assert_eq!(m, "boom"),
        other => panic!("unexpected {:?}", other),
    }
}

#[test]
fn status_text_and_error_flag() {
    assert_eq!(TraceStatus::Waiting.text(), "Waiting");
    assert_eq!(TraceStatus::InProgress.text(), "In Progress...");
    assert_eq!(TraceStatus::Done.text(), "Done");
    assert_eq!(TraceStatus::Failed("bad".to_string()).text(), "bad");
    assert!(TraceStatus::Failed("bad".to_string()).is_error());
    assert!(!TraceStatus::Done.is_error());
}

#[test]
fn session_collects_records_in_order() {
    let mut s: TraceSession<u32> = TraceSession::new();
    assert!(matches!(s.status, TraceStatus::Waiting));
    s.start("example.com".to_string());
    s.receive_record(3);
    s.receive_record(1);
    assert_eq!(s.results, vec![3, 1]);
    s.receive_records(vec![4, 2]);
    assert_eq!(s.results, vec![3, 1, 4, 2]);
    s.receive_status("ok".to_string());
    assert!(matches!(s.status, TraceStatus::Done));
    s.start("other".to_string());
    assert!(s.results.is_empty());
    assert_eq!(s.target.as_deref(), Some("other"));
    assert!(matches!(s.status, TraceStatus::InProgress));
}

#[test]
fn typing_editing_and_starting_a_trace() {
    let mut app: App<u32> = App::new("Trace", true);
    assert_eq!(app.session.status.text(), "Waiting");
    for c in "exampl".chars() {
        app.on_key(c);
    }
    app.on_key('x');
    app.on_backspace();
    app.on_key('e');
    assert_eq!(app.input, "example");
    let target = app.trace();
    assert_eq!(target, "example");
    assert_eq!(app.input, "");
    assert_eq!(app.session.target.as_deref(), Some("example"));
    assert_eq!(app.session.status.text(), "In Progress...");
    app.on_backspace();
    assert_eq!(app.input, "");
}

#[test]
fn ticks_take_records_and_status() {
    let mut app: App<u32> = App::new("Trace", false);
    app.trace();
    app.on_tick(vec![5], None);
    app.on_tick(vec![], None);
    assert_eq!(app.session.results, vec![5]);
    assert_eq!(app.session.status.text(), "In Progress...");
    app.on_tick(vec![6, 7, 8], Some("traceroute: unknown host".to_string()));
    assert_eq!(app.session.results, vec![5, 6, 7, 8]);
    assert!(app.session.status.is_error());
    assert_eq!(app.session.status.text(), "traceroute: unknown host");
}

#[test]
fn zoom_is_clamped() {
    let mut app: App<u32> = App::new("Trace", false);
    app.zoom_out();
    assert_eq!(app.zoom, MIN_ZOOM);
    for _ in 0..30 {
        app.zoom_in();
    }
    assert_eq!(app.zoom, MAX_ZOOM);
    app.zoom_out();
    assert_eq!(app.zoom, 19);
}

#[test]
fn tabs_and_background_toggle() {
    let mut app: App<u32> = App::new("Trace", false);
    app.on_right();
    assert_eq!(app.tabs.index, 0);
    app.on_left();
    assert_eq!(app.tabs.index, 0);
    assert!(!app.show_countries);
    app.toggle_countries();
    assert!(app.show_countries);
}

#[test]
fn keys_leave_other_state_alone() {
    let mut app: App<u32> = App::new("Trace", true);
    app.on_tick(vec![1, 2], None);
    app.toggle_countries();
    app.on_key('a');
    app.zoom_in();
    assert_eq!(app.input, "a");
    assert_eq!(app.zoom, 2);
    assert!(app.show_countries);
    assert_eq!(app.session.results, vec![1, 2]);
    app.trace();
    assert!(app.show_countries);
    assert_eq!(app.zoom, 2);
    assert!(app.enhanced_graphics);
}
