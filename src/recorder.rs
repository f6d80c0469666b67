//! The capture state machine: a toggle key switches between idle and
//! recording, and while recording every other event is logged with the
//! microseconds elapsed since recording began.

use crate::event::{EventKind, RecordedEvent};
use vstd::prelude::*;

verus! {

/// Key code of F1, the default toggle key.
pub const DEFAULT_TOGGLE_KEY: u16 = 59;

/// What the recorder is: the toggle key, when recording began (if it is
/// recording), and the log so far.
pub struct RecorderView {
    pub toggle_key: u16,
    pub start_us: Option<u64>,
    pub events: Seq<RecordedEvent>,
}

pub struct Recorder {
    toggle_key: u16,
    start_us: Option<u64>,
    events: Vec<RecordedEvent>,
}

impl View for Recorder {
    type V = RecorderView;

    closed spec fn view(&self) -> RecorderView {
        RecorderView { toggle_key: self.toggle_key, start_us: self.start_us, events: self.events@ }
    }
}

/// `a - b`, or zero when `b` is later.
pub open spec fn elapsed(now_us: u64, start_us: u64) -> u64 {
    if now_us >= start_us {
        (now_us - start_us) as u64
    } else {
        0
    }
}

/// One input, read at `now_us`, applied to the recorder; the flag says
/// whether it toggled recording.
pub open spec fn handle(r: RecorderView, event: EventKind, now_us: u64) -> (RecorderView, bool) {
    match event {
        EventKind::KeyChange { code, pressed } if code == r.toggle_key => {
            if !pressed {
                (r, false)
            } else if r.start_us is None {
                (RecorderView { start_us: Some(now_us), events: Seq::empty(), ..r }, true)
            } else {
                (RecorderView { start_us: None, ..r }, true)
            }
        },
        _ => match r.start_us {
            Some(s) => (
                RecorderView {
                    events: r.events.push(
                        RecordedEvent { timestamp_us: elapsed(now_us, s), event },
                    ),
                    ..r
                },
                false,
            ),
            None => (r, false),
        },
    }
}

/// A batch of inputs applied in order; the flag says whether any toggled.
pub open spec fn handle_all(r: RecorderView, batch: Seq<(EventKind, u64)>) -> (RecorderView, bool)
    decreases batch.len(),
{
    if batch.len() == 0 {
        (r, false)
    } else {
        let (r1, c1) = handle_all(r, batch.drop_last());
        let (r2, c2) = handle(r1, batch.last().0, batch.last().1);
        (r2, c1 || c2)
    }
}

impl Recorder {
    /// An idle recorder toggled by F1.
    pub fn new() -> (r: Recorder)
        ensures
            r@ == (RecorderView {
                toggle_key: DEFAULT_TOGGLE_KEY,
                start_us: None,
                events: Seq::empty(),
            }),
    {
        Recorder::with_toggle_key(DEFAULT_TOGGLE_KEY)
    }

    /// An idle recorder toggled by `toggle_key`.
    pub fn with_toggle_key(toggle_key: u16) -> (r: Recorder)
        ensures
            r@ == (RecorderView { toggle_key, start_us: None, events: Seq::empty() }),
    {
        Recorder { toggle_key, start_us: None, events: Vec::new() }
    }

    pub fn toggle_key(&self) -> (r: u16)
        ensures
            r == self@.toggle_key,
    {
        self.toggle_key
    }

    /// Starts recording at `now_us`, dropping any earlier log.
    pub fn start(&mut self, now_us: u64)
        ensures
            final(self)@ == (RecorderView {
                toggle_key: old(self)@.toggle_key,
                start_us: Some(now_us),
                events: Seq::empty(),
            }),
    {
        self.start_us = Some(now_us);
        self.events.clear();
    }

    /// Applies the events drained from the devices, each with the time it was
    /// read; returns whether the toggle key switched recording on or off.
    pub fn poll(&mut self, batch: &Vec<(EventKind, u64)>) -> (changed: bool)
        ensures
            (final(self)@, changed) == handle_all(old(self)@, batch@),
    {
        let mut changed = false;
        let mut i: usize = 0;
        while i < batch.len()
            invariant
                i <= batch@.len(),
                (self@, changed) == handle_all(old(self)@, batch@.subrange(0, i as int)),
            decreases batch@.len() - i,
        {
            let (event, now_us) = batch[i];
            assert(batch@.subrange(0, i + 1).drop_last() =~= batch@.subrange(0, i as int));
            let toggled = self.handle_event(event, now_us);
            changed = changed || toggled;
            i = i + 1;
        }
        assert(batch@.subrange(0, i as int) =~= batch@);
        changed
    }

    fn handle_event(&mut self, event: EventKind, now_us: u64) -> (toggled: bool)
        ensures
            (final(self)@, toggled) == handle(old(self)@, event, now_us),
    {
        match event {
            EventKind::KeyChange { code, pressed } if code == self.toggle_key => {
                if !pressed {
                    false
                } else if self.start_us.is_none() {
                    self.start_us = Some(now_us);
                    self.events.clear();
                    assert(self.events@ =~= Seq::<RecordedEvent>::empty());
                    true
                } else {
                    self.start_us = None;
                    true
                }
            },
            _ => {
                if let Some(s) = self.start_us {
                    let timestamp_us = if now_us >= s {
                        now_us - s
                    } else {
                        0
                    };
                    self.events.push(RecordedEvent { timestamp_us, event });
                }
                false
            },
        }
    }

    pub fn is_recording(&self) -> (r: bool)
        ensures
            r == self@.start_us is Some,
    {
        self.start_us.is_some()
    }

    /// Ends recording and hands over the log, leaving the recorder empty.
    pub fn stop(&mut self) -> (r: Vec<RecordedEvent>)
        ensures
            r@ == old(self)@.events,
            final(self)@ == (RecorderView {
                toggle_key: old(self)@.toggle_key,
                start_us: None,
                events: Seq::empty(),
            }),
    {
        self.start_us = None;
        let mut taken: Vec<RecordedEvent> = Vec::new();
        std::mem::swap(&mut taken, &mut self.events);
        taken
    }

    /// The log so far, without stopping.
    pub fn events(&self) -> (r: &[RecordedEvent])
        ensures
            r@ == self@.events,
    {
        self.events.as_slice()
    }
}

} // verus!
