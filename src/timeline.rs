//! Conversion between a timestamped event log and a sequence of macro states.
//!
//! Compression cuts the timeline wherever the set of held keys changes. Each
//! interval between cuts becomes one state: the keys held throughout it, its
//! length in whole milliseconds, and the motion and scroll accumulated in it.
//! Intervals with nothing to say (no keys, no motion, no scroll, no time) are
//! dropped. Expansion turns each state back into key presses at its start,
//! motion and scroll at its start, and key releases at its end.

use crate::event::{EventKind, MacroState, MotionAxis, RecordedEvent, ScrollAxis, StateView};
use std::collections::HashSet;
use vstd::prelude::*;

verus! {

broadcast use vstd::std_specs::hash::group_hash_axioms;

/// An `i32` sum that sticks at the bounds instead of overflowing.
pub open spec fn sat_i32(x: int) -> i32 {
    if x > i32::MAX {
        i32::MAX
    } else if x < i32::MIN {
        i32::MIN
    } else {
        x as i32
    }
}

/// A `u64` value that sticks at the maximum instead of overflowing.
pub open spec fn sat_u64(x: int) -> u64 {
    if x > u64::MAX {
        u64::MAX
    } else if x < 0 {
        0
    } else {
        x as u64
    }
}

/// The interval in progress during compression.
pub struct Pending {
    pub held: Set<u16>,
    pub start_us: u64,
    pub mouse: (i32, i32),
    pub scroll: (i32, i32),
}

pub open spec fn fresh(held: Set<u16>, start_us: u64) -> Pending {
    Pending { held, start_us, mouse: (0, 0), scroll: (0, 0) }
}

/// Whole milliseconds between two microsecond instants (zero if `end` is earlier).
pub open spec fn interval_ms(start_us: u64, end_us: u64) -> u64 {
    sat_u64(end_us / 1000 - start_us / 1000)
}

/// The state that the pending interval becomes when it ends at `end_us`.
pub open spec fn interval_state(p: Pending, end_us: u64) -> StateView {
    StateView {
        duration_ms: interval_ms(p.start_us, end_us),
        keys: p.held,
        mouse_delta: p.mouse,
        scroll_delta: p.scroll,
    }
}

/// A state that says nothing: no keys, no motion, no scroll and no time.
pub open spec fn is_blank(st: StateView) -> bool {
    st.keys.is_empty() && st.mouse_delta == (0i32, 0i32) && st.scroll_delta == (0i32, 0i32)
        && st.duration_ms == 0
}

/// `out` with the pending interval, ended at `end_us`, appended unless blank.
pub open spec fn close(out: Seq<StateView>, p: Pending, end_us: u64) -> Seq<StateView> {
    if is_blank(interval_state(p, end_us)) {
        out
    } else {
        out.push(interval_state(p, end_us))
    }
}

/// One event applied to the compression state.
pub open spec fn step(acc: (Seq<StateView>, Pending), e: RecordedEvent) -> (
    Seq<StateView>,
    Pending,
) {
    let (out, p) = acc;
    match e.event {
        EventKind::KeyChange { code, pressed } => {
            let held = if pressed {
                p.held.insert(code)
            } else {
                p.held.remove(code)
            };
            if held == p.held {
                acc
            } else {
                (close(out, p, e.timestamp_us), fresh(held, e.timestamp_us))
            }
        },
        EventKind::RelativeMotion { axis, delta } => {
            let mouse = match axis {
                MotionAxis::X => (sat_i32(p.mouse.0 + delta), p.mouse.1),
                MotionAxis::Y => (p.mouse.0, sat_i32(p.mouse.1 + delta)),
            };
            (out, Pending { mouse, ..p })
        },
        EventKind::Scroll { wheel, delta } => {
            let scroll = match wheel {
                ScrollAxis::Vertical => (sat_i32(p.scroll.0 + delta), p.scroll.1),
                ScrollAxis::Horizontal => (p.scroll.0, sat_i32(p.scroll.1 + delta)),
            };
            (out, Pending { scroll, ..p })
        },
        EventKind::Other { .. } => acc,
    }
}

/// The compression state after the events of `events`, in order.
pub open spec fn compress_prefix(events: Seq<RecordedEvent>) -> (Seq<StateView>, Pending)
    decreases events.len(),
{
    if events.len() == 0 {
        (Seq::empty(), fresh(Set::empty(), 0))
    } else {
        step(compress_prefix(events.drop_last()), events.last())
    }
}

/// The states that a log compresses to: its intervals from time zero to its
/// last event.
pub open spec fn compress(events: Seq<RecordedEvent>) -> Seq<StateView> {
    if events.len() == 0 {
        Seq::empty()
    } else {
        let (out, p) = compress_prefix(events);
        close(out, p, events.last().timestamp_us)
    }
}

pub proof fn lemma_set_push(s: Seq<u16>, x: u16)
    requires
        s.no_duplicates(),
        !s.contains(x),
    ensures
        s.push(x).no_duplicates(),
        s.push(x).to_set() == s.to_set().insert(x),
{
    assert forall|y: u16| s.push(x).contains(y) <==> s.to_set().insert(x).contains(y) by {
        if s.push(x).contains(y) {
            let k = choose|k: int| 0 <= k < s.push(x).len() && s.push(x)[k] == y;
            if k < s.len() {
                assert(s.contains(y));
            }
        }
        if s.contains(y) {
            let k = choose|k: int| 0 <= k < s.len() && s[k] == y;
            assert(s.push(x)[k] == y);
        }
        assert(s.push(x)[s.len() as int] == x);
    }
    assert(s.push(x).to_set() =~= s.to_set().insert(x));
}

pub proof fn lemma_set_remove(s: Seq<u16>, i: int)
    requires
        s.no_duplicates(),
        0 <= i < s.len(),
    ensures
        s.remove(i).no_duplicates(),
        s.remove(i).to_set() == s.to_set().remove(s[i]),
{
    let x = s[i];
    let r = s.remove(i);
    assert forall|a: int, b: int| 0 <= a < b < r.len() implies r[a] != r[b] by {
        let a2 = if a < i { a } else { a + 1 };
        let b2 = if b < i { b } else { b + 1 };
        assert(r[a] == s[a2] && r[b] == s[b2]);
    }
    assert forall|y: u16| r.contains(y) <==> s.to_set().remove(x).contains(y) by {
        if r.contains(y) {
            let k = choose|k: int| 0 <= k < r.len() && r[k] == y;
            let k2 = if k < i { k } else { k + 1 };
            assert(s[k2] == y);
            assert(k2 != i);
        }
        if s.contains(y) && y != x {
            let k = choose|k: int| 0 <= k < s.len() && s[k] == y;
            assert(k != i);
            if k < i {
                assert(r[k] == y);
            } else {
                assert(r[k - 1] == y);
            }
        }
    }
    assert(r.to_set() =~= s.to_set().remove(x));
}

/// The interval in progress, as the compressor holds it.
struct Interval {
    held: Vec<u16>,
    start_us: u64,
    mouse: (i32, i32),
    scroll: (i32, i32),
}

impl Interval {
    spec fn inv(&self) -> bool {
        self.held@.no_duplicates()
    }

    spec fn model(&self) -> Pending {
        Pending {
            held: self.held@.to_set(),
            start_us: self.start_us,
            mouse: self.mouse,
            scroll: self.scroll,
        }
    }
}

fn add_sat(a: i32, b: i32) -> (r: i32)
    ensures
        r == sat_i32(a + b),
{
    let s = a as i64 + b as i64;
    if s > i32::MAX as i64 {
        i32::MAX
    } else if s < i32::MIN as i64 {
        i32::MIN
    } else {
        s as i32
    }
}

fn key_set(codes: &Vec<u16>) -> (r: HashSet<u16>)
    ensures
        r@ == codes@.to_set(),
{
    let mut set: HashSet<u16> = HashSet::new();
    let mut i: usize = 0;
    while i < codes.len()
        invariant
            i <= codes@.len(),
            set@ == codes@.subrange(0, i as int).to_set(),
        decreases codes@.len() - i,
    {
        set.insert(codes[i]);
        proof {
            let a = codes@.subrange(0, i as int);
            let b = codes@.subrange(0, i + 1);
            assert forall|y: u16| b.contains(y) <==> a.to_set().insert(codes@[i as int]).contains(y) by {
                if b.contains(y) {
                    let k = choose|k: int| 0 <= k < b.len() && b[k] == y;
                    if k < i {
                        assert(a[k] == y);
                    }
                }
                if a.contains(y) {
                    let k = choose|k: int| 0 <= k < a.len() && a[k] == y;
                    assert(b[k] == y);
                }
                assert(b[i as int] == codes@[i as int]);
            }
            assert(b.to_set() =~= a.to_set().insert(codes@[i as int]));
        }
        i = i + 1;
    }
    assert(codes@.subrange(0, i as int) =~= codes@);
    set
}

/// Appends the state of the interval ended at `end_us`, unless it is blank.
fn close_interval(out: &mut Vec<MacroState>, p: &Interval, end_us: u64, ghost_out: Ghost<Seq<StateView>>)
    requires
        p.inv(),
        old(out)@.map_values(|s: MacroState| s@) == ghost_out@,
    ensures
        final(out)@.map_values(|s: MacroState| s@) == close(ghost_out@, p.model(), end_us),
{
    let end_ms = end_us / 1000;
    let start_ms = p.start_us / 1000;
    let duration_ms: u64 = if end_ms >= start_ms {
        end_ms - start_ms
    } else {
        0
    };
    let blank = p.held.len() == 0 && p.mouse.0 == 0 && p.mouse.1 == 0 && p.scroll.0 == 0
        && p.scroll.1 == 0 && duration_ms == 0;
    proof {
        if p.held@.len() > 0 {
            assert(p.held@.to_set().contains(p.held@[0]));
        } else {
            assert(p.held@.to_set() =~= Set::<u16>::empty());
        }
    }
    if !blank {
        let st = MacroState {
            duration_ms,
            keys_pressed: key_set(&p.held),
            mouse_delta: p.mouse,
            scroll_delta: p.scroll,
        };
        out.push(st);
        assert(final(out)@.map_values(|s: MacroState| s@) =~= ghost_out@.push(
            interval_state(p.model(), end_us),
        ));
    }
}

/// Compresses a chronological event log into macro states.
pub fn events_to_states(events: &Vec<RecordedEvent>) -> (r: Vec<MacroState>)
    ensures
        r@.map_values(|s: MacroState| s@) == compress(events@),
{
    let mut out: Vec<MacroState> = Vec::new();
    if events.len() == 0 {
        return out;
    }
    let mut p = Interval { held: Vec::new(), start_us: 0, mouse: (0, 0), scroll: (0, 0) };
    let ghost mut gout: Seq<StateView> = Seq::empty();
    assert(p.model().held =~= Set::<u16>::empty());
    let mut i: usize = 0;
    while i < events.len()
        invariant
            i <= events@.len(),
            p.inv(),
            out@.map_values(|s: MacroState| s@) == gout,
            compress_prefix(events@.subrange(0, i as int)) == (gout, p.model()),
        decreases events@.len() - i,
    {
        let e = events[i];
        assert(events@.subrange(0, i + 1).drop_last() =~= events@.subrange(0, i as int));
        let ghost before = (gout, p.model());
        match e.event {
            EventKind::KeyChange { code, pressed } => {
                let mut k: usize = 0;
                while k < p.held.len() && p.held[k] != code
                    invariant
                        k <= p.held@.len(),
                        forall|j: int| 0 <= j < k ==> p.held@[j] != code,
                    decreases p.held@.len() - k,
                {
                    k = k + 1;
                }
                let found = k < p.held.len();
                proof {
                    if !found {
                        assert(!p.held@.contains(code));
                    } else {
                        assert(p.held@.to_set().contains(code));
                    }
                }
                if pressed && !found {
                    close_interval(&mut out, &p, e.timestamp_us, Ghost(gout));
                    proof {
                        lemma_set_push(p.held@, code);
                        assert(p.held@.to_set().insert(code) != p.held@.to_set());
                        gout = close(gout, p.model(), e.timestamp_us);
                    }
                    p.held.push(code);
                    p.start_us = e.timestamp_us;
                    p.mouse = (0, 0);
                    p.scroll = (0, 0);
                } else if !pressed && found {
                    close_interval(&mut out, &p, e.timestamp_us, Ghost(gout));
                    proof {
                        lemma_set_remove(p.held@, k as int);
                        assert(!p.held@.to_set().remove(code).contains(code));
                        gout = close(gout, p.model(), e.timestamp_us);
                    }
                    p.held.remove(k);
                    p.start_us = e.timestamp_us;
                    p.mouse = (0, 0);
                    p.scroll = (0, 0);
                } else {
                    proof {
                        if pressed {
                            assert(p.held@.to_set().insert(code) =~= p.held@.to_set());
                        } else {
                            assert(p.held@.to_set().remove(code) =~= p.held@.to_set());
                        }
                    }
                }
            },
            EventKind::RelativeMotion { axis, delta } => {
                match axis {
                    MotionAxis::X => {
                        p.mouse = (add_sat(p.mouse.0, delta), p.mouse.1);
                    },
                    MotionAxis::Y => {
                        p.mouse = (p.mouse.0, add_sat(p.mouse.1, delta));
                    },
                }
            },
            EventKind::Scroll { wheel, delta } => {
                match wheel {
                    ScrollAxis::Vertical => {
                        p.scroll = (add_sat(p.scroll.0, delta), p.scroll.1);
                    },
                    ScrollAxis::Horizontal => {
                        p.scroll = (p.scroll.0, add_sat(p.scroll.1, delta));
                    },
                }
            },
            EventKind::Other { .. } => {},
        }
        assert(compress_prefix(events@.subrange(0, i + 1)) == step(before, e));
        i = i + 1;
    }
    assert(events@.subrange(0, i as int) =~= events@);
    let last = events[events.len() - 1].timestamp_us;
    close_interval(&mut out, &p, last, Ghost(gout));
    out
}

/// Key events at time `t` for the codes below `n` that are in `keys`, in
/// ascending order of code.
pub open spec fn key_events(keys: Set<u16>, t: u64, pressed: bool, n: int) -> Seq<RecordedEvent>
    decreases n,
{
    if n <= 0 {
        Seq::empty()
    } else {
        let code = (n - 1) as u16;
        let here = if keys.contains(code) {
            seq![RecordedEvent { timestamp_us: t, event: EventKind::KeyChange { code, pressed } }]
        } else {
            Seq::empty()
        };
        key_events(keys, t, pressed, n - 1) + here
    }
}

pub open spec fn event_if(nonzero: bool, e: RecordedEvent) -> Seq<RecordedEvent> {
    if nonzero {
        seq![e]
    } else {
        Seq::empty()
    }
}

/// Motion and scroll events at time `t` for the non-zero axes of a state.
pub open spec fn delta_events(st: StateView, t: u64) -> Seq<RecordedEvent> {
    let (dx, dy) = st.mouse_delta;
    let (v, h) = st.scroll_delta;
    event_if(
        dx != 0,
        RecordedEvent {
            timestamp_us: t,
            event: EventKind::RelativeMotion { axis: MotionAxis::X, delta: dx },
        },
    ) + event_if(
        dy != 0,
        RecordedEvent {
            timestamp_us: t,
            event: EventKind::RelativeMotion { axis: MotionAxis::Y, delta: dy },
        },
    ) + event_if(
        v != 0,
        RecordedEvent {
            timestamp_us: t,
            event: EventKind::Scroll { wheel: ScrollAxis::Vertical, delta: v },
        },
    ) + event_if(
        h != 0,
        RecordedEvent {
            timestamp_us: t,
            event: EventKind::Scroll { wheel: ScrollAxis::Horizontal, delta: h },
        },
    )
}

pub const KEY_CODE_COUNT: u32 = 65536;

/// When a state that starts at `t_us` ends.
pub open spec fn end_time(t_us: u64, duration_ms: u64) -> u64 {
    sat_u64(t_us + duration_ms * 1000)
}

/// The events of one state that starts at `t`: presses, then motion and
/// scroll, then releases when it ends.
pub open spec fn state_events(st: StateView, t: u64) -> Seq<RecordedEvent> {
    key_events(st.keys, t, true, KEY_CODE_COUNT as int) + delta_events(st, t) + key_events(
        st.keys,
        end_time(t, st.duration_ms),
        false,
        KEY_CODE_COUNT as int,
    )
}

/// The time at which a sequence of states, played from zero, ends.
pub open spec fn clock(states: Seq<StateView>) -> u64
    decreases states.len(),
{
    if states.len() == 0 {
        0
    } else {
        end_time(clock(states.drop_last()), states.last().duration_ms)
    }
}

/// The event log that a sequence of states expands to.
pub open spec fn expand(states: Seq<StateView>) -> Seq<RecordedEvent>
    decreases states.len(),
{
    if states.len() == 0 {
        Seq::empty()
    } else {
        expand(states.drop_last()) + state_events(states.last(), clock(states.drop_last()))
    }
}

fn push_key_events(out: &mut Vec<RecordedEvent>, keys: &HashSet<u16>, t: u64, pressed: bool)
    ensures
        final(out)@ == old(out)@ + key_events(keys@, t, pressed, KEY_CODE_COUNT as int),
{
    let mut c: u32 = 0;
    while c < KEY_CODE_COUNT
        invariant
            c <= KEY_CODE_COUNT,
            out@ == old(out)@ + key_events(keys@, t, pressed, c as int),
        decreases KEY_CODE_COUNT - c,
    {
        let code = c as u16;
        if keys.contains(&code) {
            out.push(RecordedEvent { timestamp_us: t, event: EventKind::KeyChange { code, pressed } });
        }
        assert(out@ =~= old(out)@ + key_events(keys@, t, pressed, c + 1));
        c = c + 1;
    }
}

fn push_if(out: &mut Vec<RecordedEvent>, nonzero: bool, e: RecordedEvent)
    ensures
        final(out)@ == old(out)@ + event_if(nonzero, e),
{
    if nonzero {
        out.push(e);
    }
    assert(final(out)@ =~= old(out)@ + event_if(nonzero, e));
}

/// Appends the events of one state that starts at `t`; returns when it ends.
fn push_state_events(out: &mut Vec<RecordedEvent>, st: &MacroState, t: u64) -> (end: u64)
    ensures
        final(out)@ == old(out)@ + state_events(st@, t),
        end == end_time(t, st.duration_ms),
{
    let ghost start = out@;
    push_key_events(out, &st.keys_pressed, t, true);
    let ghost presses = out@;
    let (dx, dy) = st.mouse_delta;
    let (v, h) = st.scroll_delta;
    push_if(out, dx != 0, RecordedEvent { timestamp_us: t, event: EventKind::RelativeMotion { axis: MotionAxis::X, delta: dx } });
    push_if(out, dy != 0, RecordedEvent { timestamp_us: t, event: EventKind::RelativeMotion { axis: MotionAxis::Y, delta: dy } });
    push_if(out, v != 0, RecordedEvent { timestamp_us: t, event: EventKind::Scroll { wheel: ScrollAxis::Vertical, delta: v } });
    push_if(out, h != 0, RecordedEvent { timestamp_us: t, event: EventKind::Scroll { wheel: ScrollAxis::Horizontal, delta: h } });
    assert(out@ =~= presses + delta_events(st@, t));
    let ghost middle = out@;
    let end = end_of(t, st.duration_ms);
    push_key_events(out, &st.keys_pressed, end, false);
    assert(final(out)@ == middle + key_events(st@.keys, end, false, KEY_CODE_COUNT as int));
    assert(final(out)@ =~= start + state_events(st@, t));
    end
}

fn end_of(t: u64, duration_ms: u64) -> (r: u64)
    ensures
        r == end_time(t, duration_ms),
{
    match duration_ms.checked_mul(1000) {
        Some(us) => t.saturating_add(us),
        None => u64::MAX,
    }
}

/// Expands macro states into a timestamped event log, starting at time zero.
pub fn states_to_events(states: &Vec<MacroState>) -> (r: Vec<RecordedEvent>)
    ensures
        r@ == expand(states@.map_values(|s: MacroState| s@)),
{
    let ghost all = states@.map_values(|s: MacroState| s@);
    let mut out: Vec<RecordedEvent> = Vec::new();
    let mut t: u64 = 0;
    let mut i: usize = 0;
    while i < states.len()
        invariant
            i <= states@.len(),
            all == states@.map_values(|s: MacroState| s@),
            t == clock(all.subrange(0, i as int)),
            out@ == expand(all.subrange(0, i as int)),
        decreases states@.len() - i,
    {
        let st = &states[i];
        assert(all.subrange(0, i + 1).drop_last() =~= all.subrange(0, i as int));
        assert(all.subrange(0, i + 1).last() == st@);
        let end = push_state_events(&mut out, st, t);
        assert(out@ =~= expand(all.subrange(0, i + 1)));
        t = end;
        i = i + 1;
    }
    assert(all.subrange(0, i as int) =~= all);
    out
}

/// Total length of a sequence of states, in milliseconds.
pub open spec fn total_ms(states: Seq<StateView>) -> nat
    decreases states.len(),
{
    if states.len() == 0 {
        0
    } else {
        (total_ms(states.drop_last()) + states.last().duration_ms) as nat
    }
}

/// Timestamps never step back.
pub open spec fn chronological(events: Seq<RecordedEvent>) -> bool {
    forall|i: int, j: int|
        0 <= i <= j < events.len() ==> events[i].timestamp_us <= events[j].timestamp_us
}

proof fn lemma_div_ordered(a: u64, b: u64)
    requires
        a <= b,
    ensures
        a / 1000 <= b / 1000,
{
    assert(a / 1000 <= b / 1000) by (nonlinear_arith)
        requires
            a <= b,
    ;
}

proof fn lemma_close_total(out: Seq<StateView>, p: Pending, end_us: u64)
    requires
        p.start_us <= end_us,
        total_ms(out) == p.start_us / 1000,
    ensures
        total_ms(close(out, p, end_us)) == end_us / 1000,
{
    lemma_div_ordered(p.start_us, end_us);
    let c = close(out, p, end_us);
    if !is_blank(interval_state(p, end_us)) {
        assert(c.drop_last() =~= out);
    }
}

proof fn lemma_prefix_total(events: Seq<RecordedEvent>)
    requires
        chronological(events),
    ensures
        total_ms(compress_prefix(events).0) == compress_prefix(events).1.start_us / 1000,
        events.len() == 0 ==> compress_prefix(events).1.start_us == 0,
        events.len() > 0 ==> compress_prefix(events).1.start_us <= events.last().timestamp_us,
    decreases events.len(),
{
    if events.len() > 0 {
        let prev = events.drop_last();
        assert forall|i: int, j: int| 0 <= i <= j < prev.len() implies prev[i].timestamp_us
            <= prev[j].timestamp_us by {
            assert(prev[i] == events[i] && prev[j] == events[j]);
        }
        lemma_prefix_total(prev);
        let (out, p) = compress_prefix(prev);
        let e = events.last();
        if prev.len() > 0 {
            assert(prev.last() == events[events.len() - 2]);
        }
        assert(p.start_us <= e.timestamp_us);
        if let EventKind::KeyChange { code, pressed } = e.event {
            lemma_close_total(out, p, e.timestamp_us);
        }
    }
}

/// The states of a chronological log last, together, as long as the log up to
/// its last event (in whole milliseconds); expanded again, they end at that
/// millisecond.
pub proof fn lemma_compress_keeps_time(events: Seq<RecordedEvent>)
    requires
        chronological(events),
        events.len() > 0,
    ensures
        total_ms(compress(events)) == events.last().timestamp_us / 1000,
        clock(compress(events)) == (events.last().timestamp_us / 1000) * 1000,
{
    lemma_prefix_total(events);
    let (out, p) = compress_prefix(events);
    lemma_close_total(out, p, events.last().timestamp_us);
    lemma_clock_total(compress(events));
    let t = events.last().timestamp_us;
    assert((t / 1000) * 1000 <= t) by (nonlinear_arith);
}

/// Playing states from time zero ends after their total length, unless that
/// passes the largest timestamp.
pub proof fn lemma_clock_total(states: Seq<StateView>)
    ensures
        clock(states) == sat_u64((total_ms(states) * 1000) as int),
    decreases states.len(),
{
    if states.len() > 0 {
        lemma_clock_total(states.drop_last());
        assert(total_ms(states) * 1000 == total_ms(states.drop_last()) * 1000
            + states.last().duration_ms * 1000) by (nonlinear_arith)
            requires
                total_ms(states) == total_ms(states.drop_last()) + states.last().duration_ms,
        ;
    }
}

/// What an event adds along one of the four delta axes: 0 and 1 are pointer
/// motion along X and Y, 2 and 3 are vertical and horizontal scroll.
pub open spec fn event_delta(e: RecordedEvent, axis: int) -> int {
    match e.event {
        EventKind::RelativeMotion { axis: MotionAxis::X, delta } => if axis == 0 { delta as int } else { 0 },
        EventKind::RelativeMotion { axis: MotionAxis::Y, delta } => if axis == 1 { delta as int } else { 0 },
        EventKind::Scroll { wheel: ScrollAxis::Vertical, delta } => if axis == 2 { delta as int } else { 0 },
        EventKind::Scroll { wheel: ScrollAxis::Horizontal, delta } => if axis == 3 { delta as int } else { 0 },
        _ => 0,
    }
}

pub open spec fn delta_of(mouse: (i32, i32), scroll: (i32, i32), axis: int) -> int {
    if axis == 0 {
        mouse.0 as int
    } else if axis == 1 {
        mouse.1 as int
    } else if axis == 2 {
        scroll.0 as int
    } else {
        scroll.1 as int
    }
}

/// Net motion or scroll of a log along one axis.
pub open spec fn log_delta(events: Seq<RecordedEvent>, axis: int) -> int
    decreases events.len(),
{
    if events.len() == 0 {
        0
    } else {
        log_delta(events.drop_last(), axis) + event_delta(events.last(), axis)
    }
}

/// Sum of the sizes of the motion or scroll steps of a log along one axis.
pub open spec fn log_travel(events: Seq<RecordedEvent>, axis: int) -> int
    decreases events.len(),
{
    if events.len() == 0 {
        0
    } else {
        log_travel(events.drop_last(), axis) + abs_int(event_delta(events.last(), axis))
    }
}

pub open spec fn abs_int(x: int) -> int {
    if x < 0 { -x } else { x }
}

/// Net motion or scroll of a sequence of states along one axis.
pub open spec fn states_delta(states: Seq<StateView>, axis: int) -> int
    decreases states.len(),
{
    if states.len() == 0 {
        0
    } else {
        states_delta(states.drop_last(), axis) + delta_of(
            states.last().mouse_delta,
            states.last().scroll_delta,
            axis,
        )
    }
}

proof fn lemma_close_delta(out: Seq<StateView>, p: Pending, end_us: u64, axis: int)
    ensures
        states_delta(close(out, p, end_us), axis) == states_delta(out, axis) + delta_of(
            p.mouse,
            p.scroll,
            axis,
        ),
{
    let c = close(out, p, end_us);
    if !is_blank(interval_state(p, end_us)) {
        assert(c.drop_last() =~= out);
    }
}

proof fn lemma_prefix_delta(events: Seq<RecordedEvent>, axis: int)
    requires
        0 <= axis < 4,
        log_travel(events, axis) <= i32::MAX,
    ensures
        states_delta(compress_prefix(events).0, axis) + delta_of(
            compress_prefix(events).1.mouse,
            compress_prefix(events).1.scroll,
            axis,
        ) == log_delta(events, axis),
        abs_int(delta_of(compress_prefix(events).1.mouse, compress_prefix(events).1.scroll, axis))
            <= log_travel(events, axis),
    decreases events.len(),
{
    if events.len() > 0 {
        let prev = events.drop_last();
        lemma_prefix_delta(prev, axis);
        let (out, p) = compress_prefix(prev);
        let e = events.last();
        if let EventKind::KeyChange { code, pressed } = e.event {
            lemma_close_delta(out, p, e.timestamp_us, axis);
        }
    }
}

/// Compressing a log keeps its net pointer motion and scroll along each axis,
/// when the steps along that axis add up to no more than an `i32` holds.
pub proof fn lemma_compress_keeps_motion(events: Seq<RecordedEvent>, axis: int)
    requires
        0 <= axis < 4,
        log_travel(events, axis) <= i32::MAX,
    ensures
        states_delta(compress(events), axis) == log_delta(events, axis),
{
    if events.len() > 0 {
        lemma_prefix_delta(events, axis);
        let (out, p) = compress_prefix(events);
        lemma_close_delta(out, p, events.last().timestamp_us, axis);
    }
}

proof fn lemma_log_delta_concat(a: Seq<RecordedEvent>, b: Seq<RecordedEvent>, axis: int)
    ensures
        log_delta(a + b, axis) == log_delta(a, axis) + log_delta(b, axis),
    decreases b.len(),
{
    if b.len() == 0 {
        assert(a + b =~= a);
    } else {
        lemma_log_delta_concat(a, b.drop_last(), axis);
        assert((a + b).drop_last() =~= a + b.drop_last());
        assert((a + b).last() == b.last());
    }
}

proof fn lemma_key_events_delta(keys: Set<u16>, t: u64, pressed: bool, n: int, axis: int)
    ensures
        log_delta(key_events(keys, t, pressed, n), axis) == 0,
    decreases n,
{
    if n > 0 {
        let prev = key_events(keys, t, pressed, n - 1);
        let code = (n - 1) as u16;
        let here = if keys.contains(code) {
            seq![RecordedEvent { timestamp_us: t, event: EventKind::KeyChange { code, pressed } }]
        } else {
            Seq::empty()
        };
        lemma_key_events_delta(keys, t, pressed, n - 1, axis);
        lemma_log_delta_concat(prev, here, axis);
        assert(log_delta(Seq::<RecordedEvent>::empty(), axis) == 0);
        if keys.contains(code) {
            assert(here.drop_last() =~= Seq::<RecordedEvent>::empty());
        }
    }
}

proof fn lemma_event_if_delta(nonzero: bool, e: RecordedEvent, axis: int)
    ensures
        log_delta(event_if(nonzero, e), axis) == if nonzero { event_delta(e, axis) } else { 0 },
{
    assert(log_delta(Seq::<RecordedEvent>::empty(), axis) == 0);
    if nonzero {
        assert(event_if(nonzero, e).drop_last() =~= Seq::<RecordedEvent>::empty());
    }
}

proof fn lemma_state_events_delta(st: StateView, t: u64, axis: int)
    requires
        0 <= axis < 4,
    ensures
        log_delta(state_events(st, t), axis) == delta_of(st.mouse_delta, st.scroll_delta, axis),
{
    let (dx, dy) = st.mouse_delta;
    let (v, h) = st.scroll_delta;
    let ex = RecordedEvent { timestamp_us: t, event: EventKind::RelativeMotion { axis: MotionAxis::X, delta: dx } };
    let ey = RecordedEvent { timestamp_us: t, event: EventKind::RelativeMotion { axis: MotionAxis::Y, delta: dy } };
    let ev = RecordedEvent { timestamp_us: t, event: EventKind::Scroll { wheel: ScrollAxis::Vertical, delta: v } };
    let eh = RecordedEvent { timestamp_us: t, event: EventKind::Scroll { wheel: ScrollAxis::Horizontal, delta: h } };
    let a = event_if(dx != 0, ex);
    let b = event_if(dy != 0, ey);
    let c = event_if(v != 0, ev);
    let d = event_if(h != 0, eh);
    lemma_event_if_delta(dx != 0, ex, axis);
    lemma_event_if_delta(dy != 0, ey, axis);
    lemma_event_if_delta(v != 0, ev, axis);
    lemma_event_if_delta(h != 0, eh, axis);
    lemma_log_delta_concat(a, b, axis);
    lemma_log_delta_concat(a + b, c, axis);
    lemma_log_delta_concat(a + b + c, d, axis);
    let presses = key_events(st.keys, t, true, KEY_CODE_COUNT as int);
    let releases = key_events(st.keys, end_time(t, st.duration_ms), false, KEY_CODE_COUNT as int);
    lemma_key_events_delta(st.keys, t, true, KEY_CODE_COUNT as int, axis);
    lemma_key_events_delta(st.keys, end_time(t, st.duration_ms), false, KEY_CODE_COUNT as int, axis);
    lemma_log_delta_concat(presses, delta_events(st, t), axis);
    lemma_log_delta_concat(presses + delta_events(st, t), releases, axis);
}

/// Expanding states gives a log with the same net motion and scroll along
/// each axis.
pub proof fn lemma_expand_keeps_motion(states: Seq<StateView>, axis: int)
    requires
        0 <= axis < 4,
    ensures
        log_delta(expand(states), axis) == states_delta(states, axis),
    decreases states.len(),
{
    if states.len() > 0 {
        let prev = states.drop_last();
        lemma_expand_keeps_motion(prev, axis);
        lemma_state_events_delta(states.last(), clock(prev), axis);
        lemma_log_delta_concat(expand(prev), state_events(states.last(), clock(prev)), axis);
    }
}

/// A log compressed and expanded again has the net motion and scroll of the
/// log along each axis, and ends at the millisecond where the log's last
/// event falls.
pub proof fn lemma_compress_expand(events: Seq<RecordedEvent>, axis: int)
    requires
        chronological(events),
        events.len() > 0,
        0 <= axis < 4,
        log_travel(events, axis) <= i32::MAX,
    ensures
        log_delta(expand(compress(events)), axis) == log_delta(events, axis),
        clock(compress(events)) == (events.last().timestamp_us / 1000) * 1000,
{
    lemma_compress_keeps_motion(events, axis);
    lemma_expand_keeps_motion(compress(events), axis);
    lemma_compress_keeps_time(events);
}

} // verus!
