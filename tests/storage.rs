use macromate::event::MacroState;
use macromate::storage::{format_state, parse_duration, parse_line};
use std::collections::HashSet;

#[test]
fn test_parse_hold() {
    let state = parse_line("hold W for 100ms").unwrap();
    assert_eq!(state.duration_ms, 100);
    assert!(state.keys_pressed.contains(&17)); // W = 17
}

#[test]
fn test_parse_hold_multiple() {
    let state = parse_line("hold W+A for 50ms").unwrap();
    assert_eq!(state.duration_ms, 50);
    assert!(state.keys_pressed.contains(&17)); // W
    assert!(state.keys_pressed.contains(&30)); // A
}

#[test]
fn test_parse_wait() {
    let state = parse_line("wait 200ms").unwrap();
    assert_eq!(state.duration_ms, 200);
    assert!(state.keys_pressed.is_empty());
}

#[test]
fn test_parse_move() {
    let state = parse_line("move 10 -5").unwrap();
    assert_eq!(state.mouse_delta, (10, -5));
}

#[test]
fn test_parse_scroll() {
    let state = parse_line("scroll up 3").unwrap();
    assert_eq!(state.scroll_delta, (3, 0));

    let state = parse_line("scroll down 5").unwrap();
    assert_eq!(state.scroll_delta, (-5, 0));

    let state = parse_line("scroll left 2").unwrap();
    assert_eq!(state.scroll_delta, (0, -2));

    let state = parse_line("scroll right 4").unwrap();
    assert_eq!(state.scroll_delta, (0, 4));
}

#[test]
fn test_parse_duration() {
    assert_eq!(parse_duration("100ms").unwrap(), 100);
    assert_eq!(parse_duration("2s").unwrap(), 2000);
    assert!(parse_duration("100").is_err());
}

#[test]
fn test_format_scroll_with_duration() {
    // State with scroll and duration should output scroll + wait
    let state = MacroState {
        duration_ms: 500,
        keys_pressed: HashSet::new(),
        mouse_delta: (0, 0),
        scroll_delta: (-1, 0), // scroll down
    };

    let formatted = format_state(&state);
    assert!(formatted.contains("scroll down 1"));
    assert!(formatted.contains("wait 500ms"));
}
