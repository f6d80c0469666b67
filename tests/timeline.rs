use macromate::event::{EventKind, MacroState, MotionAxis, RecordedEvent, ScrollAxis};
use macromate::player::playback_delays;
use macromate::recorder::Recorder;
use macromate::storage::{deserialize_events, format_state, serialize_events};
use macromate::timeline::{events_to_states, states_to_events};

fn key(ts: u64, code: u16, pressed: bool) -> RecordedEvent {
    RecordedEvent { timestamp_us: ts, event: EventKind::KeyChange { code, pressed } }
}

#[test]
fn single_hold_compresses_to_one_state() {
    let log = vec![key(0, 17, true), key(100_000, 17, false)];
    let states = events_to_states(&log);
    assert_eq!(states.len(), 1);
    assert_eq!(states[0].duration_ms, 100);
    assert_eq!(states[0].keys_pressed.len(), 1);
    assert!(states[0].keys_pressed.contains(&17));
    assert_eq!(format_state(&states[0]), "hold W for 100ms");
}

#[test]
fn recording_session_end_to_end() {
    let mut rec = Recorder::new();
    let f1 = rec.toggle_key();
    assert_eq!(f1, 59);
    let changed = rec.poll(&vec![(EventKind::KeyChange { code: f1, pressed: true }, 5_000)]);
    assert!(changed);
    assert!(rec.is_recording());
    let changed = rec.poll(&vec![
        (EventKind::KeyChange { code: f1, pressed: false }, 5_000),
        (EventKind::KeyChange { code: 17, pressed: true }, 5_000),
        (EventKind::KeyChange { code: 17, pressed: false }, 105_000),
    ]);
    assert!(!changed);
    let changed = rec.poll(&vec![(EventKind::KeyChange { code: f1, pressed: true }, 200_000)]);
    assert!(changed);
    assert!(!rec.is_recording());
    let log = rec.stop();
    assert_eq!(log, vec![key(0, 17, true), key(100_000, 17, false)]);
    assert!(rec.events().is_empty());
    let states = events_to_states(&log);
    assert_eq!(states.len(), 1);
    assert_eq!(format_state(&states[0]), "hold W for 100ms");
}

#[test]
fn idle_recorder_logs_nothing() {
    let mut rec = Recorder::with_toggle_key(88);
    assert!(!rec.poll(&vec![(EventKind::KeyChange { code: 17, pressed: true }, 1)]));
    assert!(rec.events().is_empty());
    rec.start(10);
    rec.poll(&vec![(EventKind::RelativeMotion { axis: MotionAxis::X, delta: 4 }, 25)]);
    assert_eq!(rec.events().len(), 1);
    assert_eq!(rec.events()[0].timestamp_us, 15);
}

#[test]
fn gaps_motion_and_scroll() {
    let log = vec![
        RecordedEvent { timestamp_us: 50_000, event: EventKind::RelativeMotion { axis: MotionAxis::X, delta: 3 } },
        RecordedEvent { timestamp_us: 60_000, event: EventKind::RelativeMotion { axis: MotionAxis::Y, delta: -2 } },
        RecordedEvent { timestamp_us: 60_000, event: EventKind::Scroll { wheel: ScrollAxis::Vertical, delta: 1 } },
        key(80_000, 30, true),
        key(90_000, 30, false),
    ];
    let states = events_to_states(&log);
    assert_eq!(states.len(), 2);
    assert_eq!(states[0].duration_ms, 80);
    assert_eq!(states[0].mouse_delta, (3, -2));
    assert_eq!(states[0].scroll_delta, (1, 0));
    assert!(states[0].keys_pressed.is_empty());
    assert_eq!(states[1].duration_ms, 10);
    assert!(states[1].keys_pressed.contains(&30));
}

#[test]
fn expansion_times_each_state() {
    let states = vec![
        MacroState { duration_ms: 20, keys_pressed: [30u16].into_iter().collect(), mouse_delta: (0, 0), scroll_delta: (0, 0) },
        MacroState { duration_ms: 5, keys_pressed: Default::default(), mouse_delta: (0, 0), scroll_delta: (0, 0) },
        MacroState { duration_ms: 0, keys_pressed: Default::default(), mouse_delta: (2, 0), scroll_delta: (0, -1) },
    ];
    let events = states_to_events(&states);
    assert_eq!(
        events,
        vec![
            key(0, 30, true),
            key(20_000, 30, false),
            RecordedEvent { timestamp_us: 25_000, event: EventKind::RelativeMotion { axis: MotionAxis::X, delta: 2 } },
            RecordedEvent { timestamp_us: 25_000, event: EventKind::Scroll { wheel: ScrollAxis::Horizontal, delta: -1 } },
        ]
    );
}

#[test]
fn save_and_load_text() {
    let log = vec![key(0, 17, true), key(100_000, 17, false)];
    let text = serialize_events(&log);
    assert_eq!(text, "# EvKey Macro\n# Layout: QWERTY\n\nhold W for 100ms\n");
    let back = deserialize_events(&text).unwrap();
    assert_eq!(back, log);
}

#[test]
fn delays_between_events() {
    let log = vec![key(1_000, 17, true), key(1_000, 30, true), key(4_500, 17, false), key(4_000, 30, false)];
    assert_eq!(playback_delays(&log), vec![1_000, 0, 3_500, 0]);
}

#[test]
fn compress_then_expand_keeps_totals() {
    let log = vec![
        key(0, 17, true),
        RecordedEvent { timestamp_us: 10_000, event: EventKind::RelativeMotion { axis: MotionAxis::X, delta: 5 } },
        RecordedEvent { timestamp_us: 20_000, event: EventKind::RelativeMotion { axis: MotionAxis::X, delta: -2 } },
        key(30_000, 17, false),
        RecordedEvent { timestamp_us: 45_500, event: EventKind::Scroll { wheel: ScrollAxis::Vertical, delta: -3 } },
    ];
    let states = events_to_states(&log);
    let total: u64 = states.iter().map(|s| s.duration_ms).sum();
    assert_eq!(total, 45);
    let back = states_to_events(&states);
    let net_x: i32 = back
        .iter()
        .map(|e| match e.event {
            EventKind::RelativeMotion { axis: MotionAxis::X, delta } => delta,
            _ => 0,
        })
        .sum();
    let net_v: i32 = back
        .iter()
        .map(|e| match e.event {
            EventKind::Scroll { wheel: ScrollAxis::Vertical, delta } => delta,
            _ => 0,
        })
        .sum();
    assert_eq!(net_x, 3);
    assert_eq!(net_v, -3);
    assert_eq!(back[0], key(0, 17, true));
    assert_eq!(back[2], key(30_000, 17, false));
}
