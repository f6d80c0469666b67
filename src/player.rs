//! Timing of replay: how long to wait before emitting each event.

use crate::event::RecordedEvent;
use vstd::prelude::*;

verus! {

/// Microseconds to wait before event `i`: the gap since the previous event
/// (or since time zero for the first), or zero if the log steps back in time.
pub open spec fn delay_before(events: Seq<RecordedEvent>, i: int) -> u64 {
    let prev: u64 = if i == 0 { 0 } else { events[i - 1].timestamp_us };
    if events[i].timestamp_us >= prev {
        (events[i].timestamp_us - prev) as u64
    } else {
        0
    }
}

/// The wait before each event of a timed replay.
pub fn playback_delays(events: &[RecordedEvent]) -> (r: Vec<u64>)
    ensures
        r@.len() == events@.len(),
        forall|i: int| 0 <= i < events@.len() ==> r@[i] == delay_before(events@, i),
{
    let mut out: Vec<u64> = Vec::new();
    let mut last: u64 = 0;
    let mut i: usize = 0;
    while i < events.len()
        invariant
            i <= events@.len(),
            out@.len() == i,
            last == if i == 0 { 0 } else { events@[i - 1].timestamp_us },
            forall|k: int| 0 <= k < i ==> out@[k] == delay_before(events@, k),
        decreases events@.len() - i,
    {
        let ts = events[i].timestamp_us;
        out.push(ts.saturating_sub(last));
        last = ts;
        i = i + 1;
    }
    out
}

} // verus!
