use ssht::connection::{ConnectionStatus, ForwardBinding, StatusEvent};
use ssht::tui::{
    format_port_labels, format_ports, is_quit_key, precedes, status_view, KeyKind, KeyPress, StatusColor, UiState,
};

fn event(name: &str, status: ConnectionStatus, attempt: u32, message: Option<&str>, forwards: &[&str]) -> StatusEvent {
    let forwards: Vec<String> = forwards.iter().map(|s| s.to_string()).collect();
    StatusEvent::new(name.to_string(), status, attempt, message.map(|m| m.to_string()), &forwards)
}

#[test]
fn status_words_and_colours() {
    assert_eq!(status_view(&ConnectionStatus::Connecting), ("Connecting", StatusColor::Yellow));
    assert_eq!(status_view(&ConnectionStatus::Connected), ("Connected", StatusColor::Green));
    assert_eq!(status_view(&ConnectionStatus::Reconnecting), ("Retrying", StatusColor::Magenta));
    assert_eq!(status_view(&ConnectionStatus::Failed), ("Failed", StatusColor::Red));
    assert_eq!(status_view(&ConnectionStatus::Stopped), ("Stopped", StatusColor::Gray));
}

#[test]
fn ports_of_nothing_is_dash() {
    assert_eq!(format_ports(&[]), "-");
    assert_eq!(format_port_labels(&[]), "-");
}

#[test]
fn ports_are_joined() {
    let bindings = [ForwardBinding { local: 6443, remote: 6443 }, ForwardBinding { local: 8080, remote: 80 }];
    assert_eq!(format_ports(&bindings), "6443 -> 6443, 8080 -> 80");
    let labels = vec!["a -> b".to_string(), "c -> d".to_string()];
    assert_eq!(format_port_labels(&labels), "a -> b, c -> d");
}

#[test]
fn name_order() {
    let s = |x: &str| x.to_string();
    assert!(precedes(&s("a"), &s("b")));
    assert!(!precedes(&s("b"), &s("a")));
    assert!(precedes(&s("office"), &s("officex")));
    assert!(!precedes(&s("office"), &s("office")));
    assert!(precedes(&s(""), &s("a")));
    assert!(precedes(&s("Qa"), &s("qa")));
}

#[test]
fn empty_screen_waits() {
    let state = UiState::new();
    assert!(state.is_empty());
    assert!(!state.finished());
    assert_eq!(state.placeholder(), Some("Waiting for updates\u{2026}"));
    assert!(state.rows().is_empty());
}

#[test]
fn disconnected_empty_screen_is_finished() {
    let mut state = UiState::new();
    state.mark_disconnected();
    assert!(state.is_disconnected());
    assert!(state.finished());
    assert_eq!(state.placeholder(), Some("No active tasks"));
}

#[test]
fn rows_in_name_order_whatever_the_arrival() {
    let mut state = UiState::new();
    state.apply(event("qa", ConnectionStatus::Connecting, 1, None, &["1 -> h:2"]));
    state.apply(event("office", ConnectionStatus::Failed, 2, Some("boom"), &[]));
    state.apply(event("dev", ConnectionStatus::Connected, 1, None, &["1 -> h:2", "3 -> h:4"]));
    assert_eq!(state.placeholder(), None);
    let rows = state.rows();
    let names: Vec<&str> = rows.iter().map(|r| r.namespace.as_str()).collect();
    assert_eq!(names, vec!["dev", "office", "qa"]);
    assert_eq!(rows[0].status, "Connected");
    assert_eq!(rows[0].color, StatusColor::Green);
    assert_eq!(rows[0].attempt, "1");
    assert_eq!(rows[0].ports, "1 -> h:2, 3 -> h:4");
    assert_eq!(rows[0].message, "");
    assert_eq!(rows[1].status, "Failed");
    assert_eq!(rows[1].attempt, "2");
    assert_eq!(rows[1].ports, "-");
    assert_eq!(rows[1].message, "boom");
}

#[test]
fn later_report_replaces_entry() {
    let mut state = UiState::new();
    state.apply(event("office", ConnectionStatus::Connecting, 1, None, &[]));
    state.apply(event("office", ConnectionStatus::Reconnecting, 1, Some("retry in 1 seconds"), &["9 -> h:9"]));
    let rows = state.rows();
    assert_eq!(rows.len(), 1);
    assert_eq!(rows[0].status, "Retrying");
    assert_eq!(rows[0].color, StatusColor::Magenta);
    assert_eq!(rows[0].message, "retry in 1 seconds");
    assert_eq!(rows[0].ports, "9 -> h:9");
}

#[test]
fn disconnected_with_entries_is_not_finished() {
    let mut state = UiState::new();
    state.apply(event("office", ConnectionStatus::Stopped, 3, None, &[]));
    state.mark_disconnected();
    assert!(!state.finished());
}

#[test]
fn quit_keys() {
    let key = |code: KeyKind, control: bool| KeyPress { code, control };
    assert!(is_quit_key(&key(KeyKind::Char('c'), true)));
    assert!(!is_quit_key(&key(KeyKind::Char('c'), false)));
    assert!(is_quit_key(&key(KeyKind::Char('q'), false)));
    assert!(is_quit_key(&key(KeyKind::Char('Q'), false)));
    assert!(is_quit_key(&key(KeyKind::Char('q'), true)));
    assert!(is_quit_key(&key(KeyKind::Esc, false)));
    assert!(!is_quit_key(&key(KeyKind::Char('x'), false)));
    assert!(!is_quit_key(&key(KeyKind::Other, true)));
}

fn names_and_statuses(state: &UiState) -> Vec<(String, &'static str, String, String)> {
    state.rows().into_iter().map(|r| (r.namespace, r.status, r.attempt, r.message)).collect()
}

#[test]
fn reports_on_different_namespaces_commute() {
    let mut one = UiState::new();
    one.apply(event("qa", ConnectionStatus::Connected, 1, None, &[]));
    one.apply(event("office", ConnectionStatus::Failed, 2, Some("x"), &[]));
    let mut other = UiState::new();
    other.apply(event("office", ConnectionStatus::Failed, 2, Some("x"), &[]));
    other.apply(event("qa", ConnectionStatus::Connected, 1, None, &[]));
    assert_eq!(names_and_statuses(&one), names_and_statuses(&other));
}

#[test]
fn repeated_report_changes_nothing() {
    let mut once = UiState::new();
    once.apply(event("office", ConnectionStatus::Connecting, 1, None, &["1 -> h:1"]));
    let mut twice = UiState::new();
    twice.apply(event("office", ConnectionStatus::Connecting, 1, None, &["1 -> h:1"]));
    twice.apply(event("office", ConnectionStatus::Connecting, 1, None, &["1 -> h:1"]));
    assert_eq!(names_and_statuses(&once), names_and_statuses(&twice));
}
