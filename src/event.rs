//! Raw input events and the macro states that summarise them.

use std::collections::HashSet;
use vstd::prelude::*;

verus! {

/// Axis of relative pointer motion.
#[derive(Clone, Copy, Debug, PartialEq, Eq, Structural)]
pub enum MotionAxis {
    X,
    Y,
}

/// Axis of a scroll wheel.
#[derive(Clone, Copy, Debug, PartialEq, Eq, Structural)]
pub enum ScrollAxis {
    Vertical,
    Horizontal,
}

/// What a raw input event reports.
#[derive(Clone, Copy, Debug, PartialEq, Eq, Structural)]
pub enum EventKind {
    /// A key or button went down (`pressed`) or up.
    KeyChange { code: u16, pressed: bool },
    /// Relative pointer motion along one axis.
    RelativeMotion { axis: MotionAxis, delta: i32 },
    /// Scroll ticks along one axis.
    Scroll { wheel: ScrollAxis, delta: i32 },
    /// Any other event, kept as its raw type, code and value.
    Other { type_code: u16, code: u16, value: i32 },
}

/// An input event stamped with the microseconds elapsed since recording began.
#[derive(Clone, Copy, Debug, PartialEq, Eq, Structural)]
pub struct RecordedEvent {
    pub timestamp_us: u64,
    pub event: EventKind,
}

/// One interval of input: the keys held throughout it, and the net pointer
/// motion and scroll during it.
#[derive(Debug)]
pub struct MacroState {
    pub duration_ms: u64,
    pub keys_pressed: HashSet<u16>,
    pub mouse_delta: (i32, i32),
    pub scroll_delta: (i32, i32),
}

/// The mathematical content of a [`MacroState`].
pub struct StateView {
    pub duration_ms: u64,
    pub keys: Set<u16>,
    pub mouse_delta: (i32, i32),
    pub scroll_delta: (i32, i32),
}

impl View for MacroState {
    type V = StateView;

    open spec fn view(&self) -> StateView {
        StateView {
            duration_ms: self.duration_ms,
            keys: self.keys_pressed@,
            mouse_delta: self.mouse_delta,
            scroll_delta: self.scroll_delta,
        }
    }
}

pub open spec fn view_states(v: Seq<MacroState>) -> Seq<StateView> {
    v.map_values(|s: MacroState| s@)
}

} // verus!
