use macromate::event::MacroState;
use macromate::keymap::{keycode_to_name, name_to_keycode};
use macromate::storage::{
    format_state, parse_duration, parse_keys, parse_line, parse_macro, render_states, ParseErrorKind,
};
use std::collections::HashSet;

fn state(duration_ms: u64, keys: &[u16], mouse: (i32, i32), scroll: (i32, i32)) -> MacroState {
    MacroState {
        duration_ms,
        keys_pressed: keys.iter().copied().collect(),
        mouse_delta: mouse,
        scroll_delta: scroll,
    }
}

fn same(a: &MacroState, b: &MacroState) -> bool {
    a.duration_ms == b.duration_ms
        && a.keys_pressed == b.keys_pressed
        && a.mouse_delta == b.mouse_delta
        && a.scroll_delta == b.scroll_delta
}

#[test]
fn catalog_lookups() {
    assert_eq!(name_to_keycode("W"), Some(17));
    assert_eq!(name_to_keycode("SHIFT"), Some(42));
    assert_eq!(name_to_keycode("w"), None);
    assert_eq!(name_to_keycode("NOPE"), None);
    assert_eq!(keycode_to_name(30), Some("A"));
    assert_eq!(keycode_to_name(59), Some("F1"));
    assert_eq!(keycode_to_name(999), None);
}

#[test]
fn duration_units_and_errors() {
    assert_eq!(parse_duration("0ms").unwrap(), 0);
    assert_eq!(parse_duration("+7ms").unwrap(), 7);
    assert_eq!(parse_duration("100").unwrap_err().kind, ParseErrorKind::MissingDurationUnit);
    assert_eq!(parse_duration("10m").unwrap_err().kind, ParseErrorKind::MissingDurationUnit);
    assert_eq!(parse_duration("xms").unwrap_err().kind, ParseErrorKind::BadDuration);
    assert_eq!(parse_duration("ms").unwrap_err().kind, ParseErrorKind::BadDuration);
    assert_eq!(parse_duration("-1ms").unwrap_err().kind, ParseErrorKind::BadDuration);
    assert_eq!(parse_duration("18446744073709551615ms").unwrap(), u64::MAX);
    assert_eq!(parse_duration("18446744073709551616ms").unwrap_err().kind, ParseErrorKind::BadDuration);
    assert_eq!(parse_duration("18446744073709552s").unwrap_err().kind, ParseErrorKind::BadDuration);
}

#[test]
fn key_order_does_not_matter() {
    let a = parse_line("hold W+A for 50ms").unwrap();
    let b = parse_line("hold A+W for 50ms").unwrap();
    assert_eq!(a.keys_pressed, b.keys_pressed);
    assert!(same(&a, &b));
}

#[test]
fn parse_keys_trims_names() {
    let k = parse_keys(" W + SHIFT ").unwrap();
    let expected: HashSet<u16> = [17u16, 42].into_iter().collect();
    assert_eq!(k, expected);
    let e = parse_keys("W+Q2").unwrap_err();
    assert_eq!(e.kind, ParseErrorKind::UnknownKey);
    assert_eq!(e.text, "Q2");
}

#[test]
fn parse_errors_name_their_cause() {
    assert_eq!(parse_line("hold W for 100").unwrap_err().kind, ParseErrorKind::MissingDurationUnit);
    assert_eq!(parse_line("hold W 100ms").unwrap_err().kind, ParseErrorKind::HoldSyntax);
    assert_eq!(parse_line("hold w for 100ms").unwrap_err().kind, ParseErrorKind::UnknownKey);
    assert_eq!(parse_line("move 1").unwrap_err().kind, ParseErrorKind::MoveSyntax);
    assert_eq!(parse_line("move 1 2 3").unwrap_err().kind, ParseErrorKind::MoveSyntax);
    assert_eq!(parse_line("move 1 x").unwrap_err().kind, ParseErrorKind::BadCoordinate);
    assert_eq!(parse_line("scroll up").unwrap_err().kind, ParseErrorKind::ScrollSyntax);
    assert_eq!(parse_line("scroll sideways 2").unwrap_err().kind, ParseErrorKind::BadScrollDirection);
    assert_eq!(parse_line("scroll up two").unwrap_err().kind, ParseErrorKind::BadScrollAmount);
    assert_eq!(parse_line("scroll down -2147483648").unwrap_err().kind, ParseErrorKind::BadScrollAmount);
    assert_eq!(parse_line("jump 3").unwrap_err().kind, ParseErrorKind::UnknownCommand);
    assert_eq!(parse_line("tap SPACE").unwrap().keys_pressed.len(), 1);
    assert_eq!(parse_line("  wait 2s  ").unwrap().duration_ms, 2000);
}

#[test]
fn bad_line_is_reported_with_its_number() {
    let e = parse_macro("# header\n\nwait 5ms\nhold NOPE for 5ms\n").unwrap_err();
    assert_eq!(e.line, 4);
    assert_eq!(e.error.kind, ParseErrorKind::UnknownKey);
    assert_eq!(e.error.text, "NOPE");
    let e = parse_macro("move 1 2 3").unwrap_err();
    assert_eq!(e.line, 1);
    assert_eq!(e.error.kind, ParseErrorKind::MoveSyntax);
    let e = parse_macro("wait 5\r\n").unwrap_err();
    assert_eq!(e.error.kind, ParseErrorKind::MissingDurationUnit);
}

#[test]
fn format_each_shape() {
    assert_eq!(format_state(&state(100, &[17, 30], (0, 0), (0, 0))), "hold A+W for 100ms");
    assert_eq!(format_state(&state(0, &[57], (0, 0), (0, 0))), "tap SPACE");
    assert_eq!(format_state(&state(250, &[], (0, 0), (0, 0))), "wait 250ms");
    assert_eq!(format_state(&state(0, &[], (10, -5), (0, 0))), "move 10 -5");
    assert_eq!(format_state(&state(0, &[], (0, 0), (0, 0))), "# empty state");
    assert_eq!(
        format_state(&state(40, &[42], (1, 2), (3, -4))),
        "hold SHIFT for 40ms\nmove 1 2\nscroll up 3\nscroll left 4"
    );
}

#[test]
fn scroll_lines_round_trip() {
    for line in ["scroll up 3", "scroll down 5", "scroll left 2", "scroll right 4"] {
        let st = parse_line(line).unwrap();
        assert_eq!(format_state(&st), line);
    }
}

#[test]
fn scroll_with_duration_is_two_lines() {
    let st = state(500, &[], (0, 0), (-1, 0));
    let text = format_state(&st);
    assert_eq!(text, "scroll down 1\nwait 500ms");
    let states = parse_macro(&text).unwrap();
    assert_eq!(states.len(), 2);
    assert_eq!(states[0].scroll_delta, (-1, 0));
    assert_eq!(states[0].duration_ms, 0);
    assert_eq!(states[1].scroll_delta, (0, 0));
    assert_eq!(states[1].duration_ms, 500);
}

#[test]
fn document_round_trip() {
    let states = vec![
        state(100, &[17], (0, 0), (0, 0)),
        state(0, &[30, 42], (0, 0), (0, 0)),
        state(20, &[], (0, 0), (0, 0)),
        state(0, &[], (-7, 9), (0, 0)),
        state(0, &[], (0, 0), (0, -3)),
    ];
    let text = render_states(&states);
    assert!(text.starts_with("# EvKey Macro\n"));
    let back = parse_macro(&text).unwrap();
    assert_eq!(back.len(), states.len());
    for (a, b) in states.iter().zip(back.iter()) {
        assert!(same(a, b));
    }
}
