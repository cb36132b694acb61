use vstd::prelude::*;

use crate::types::{control_of, spec_control_of, Event, Target};

verus! {

// ---------------------------------------------------------------------------
// The Repeat filter: per-(device, control) deduplication
// ---------------------------------------------------------------------------

/// The last event the Repeat filter passed for one device's control.
#[derive(Clone, Copy, Debug, PartialEq, Eq, Structural)]
pub struct SeenRecord {
    pub device: usize,
    pub control: Target,
    pub kind: crate::types::EventKind,
    pub time: u64,
}

/// Index of the record kept for a device's control, or the length when none.
pub open spec fn spec_find(seen: Seq<SeenRecord>, device: usize, control: Target) -> int
    decreases seen.len(),
{
    if seen.len() == 0 {
        0
    } else if seen[0].device == device && seen[0].control == control {
        0
    } else {
        1 + spec_find(seen.skip(1), device, control)
    }
}

/// The record kept for a device's control, if any.
pub open spec fn spec_lookup(seen: Seq<SeenRecord>, device: usize, control: Target) -> Option<
    SeenRecord,
> {
    if spec_find(seen, device, control) < seen.len() {
        Some(seen[spec_find(seen, device, control)])
    } else {
        None
    }
}

/// Remember `rec` as the last passed event of its device's control.
pub open spec fn spec_store(seen: Seq<SeenRecord>, rec: SeenRecord) -> Seq<SeenRecord> {
    if spec_find(seen, rec.device, rec.control) < seen.len() {
        seen.update(spec_find(seen, rec.device, rec.control), rec)
    } else {
        seen.push(rec)
    }
}

/// Whether the Repeat filter drops the event: it names a control, the last
/// passed event of that control was identical, and it falls inside the
/// debounce window. Events that name no control — `Connected`,
/// `Disconnected`, `Dropped` — are never dropped.
pub open spec fn spec_repeat_drops(
    seen: Seq<SeenRecord>,
    window: u64,
    device: usize,
    ev: Event,
) -> bool {
    match spec_control_of(ev.kind) {
        Option::None => false,
        Option::Some(ctl) => match spec_lookup(seen, device, ctl) {
            Option::None => false,
            Option::Some(rec) => rec.kind == ev.kind && rec.time <= ev.time < rec.time + window,
        },
    }
}

/// The filter's memory after it saw the event: passed events that name a
/// control are recorded; dropped ones and control-less ones leave it alone.
pub open spec fn spec_repeat_state(
    seen: Seq<SeenRecord>,
    window: u64,
    device: usize,
    ev: Event,
) -> Seq<SeenRecord> {
    match spec_control_of(ev.kind) {
        Option::None => seen,
        Option::Some(ctl) => if spec_repeat_drops(seen, window, device, ev) {
            seen
        } else {
            spec_store(seen, SeenRecord { device, control: ctl, kind: ev.kind, time: ev.time })
        },
    }
}

pub proof fn lemma_find_bounds(seen: Seq<SeenRecord>, device: usize, control: Target)
    ensures
        0 <= spec_find(seen, device, control) <= seen.len(),
        spec_find(seen, device, control) < seen.len() ==> seen[spec_find(seen, device, control)].device
            == device && seen[spec_find(seen, device, control)].control == control,
    decreases seen.len(),
{
    if seen.len() != 0 && !(seen[0].device == device && seen[0].control == control) {
        lemma_find_bounds(seen.skip(1), device, control);
    }
}

/// After a record is stored, the lookup for its device's control finds it.
pub proof fn lemma_lookup_store(seen: Seq<SeenRecord>, rec: SeenRecord)
    ensures
        spec_lookup(spec_store(seen, rec), rec.device, rec.control) == Some(rec),
    decreases seen.len(),
{
    lemma_find_bounds(seen, rec.device, rec.control);
    let stored = spec_store(seen, rec);
    if seen.len() == 0 {
        assert(stored =~= seq![rec]);
    } else if seen[0].device == rec.device && seen[0].control == rec.control {
        assert(stored[0] == rec);
    } else {
        assert(stored[0] == seen[0]);
        assert(stored.skip(1) =~= spec_store(seen.skip(1), rec));
        lemma_lookup_store(seen.skip(1), rec);
        lemma_find_bounds(stored.skip(1), rec.device, rec.control);
        assert(spec_find(stored, rec.device, rec.control) == 1 + spec_find(
            stored.skip(1),
            rec.device,
            rec.control,
        ));
        assert(stored[1 + spec_find(stored.skip(1), rec.device, rec.control)] == stored.skip(1)[
            spec_find(stored.skip(1), rec.device, rec.control)
        ]);
    }
}

// ---------------------------------------------------------------------------
// The dedup laws
// ---------------------------------------------------------------------------

/// Of two identical consecutive events for the same control inside the
/// debounce window, exactly one passes: when the first passed, the second is
/// dropped, and dropping leaves the memory alone.
pub proof fn lemma_repeat_dedup(
    seen: Seq<SeenRecord>,
    window: u64,
    device: usize,
    e1: Event,
    e2: Event,
)
    requires
        spec_control_of(e1.kind) is Some,
        !spec_repeat_drops(seen, window, device, e1),
        e2.kind == e1.kind,
        e1.time <= e2.time < e1.time + window,
    ensures
        spec_repeat_drops(spec_repeat_state(seen, window, device, e1), window, device, e2),
        spec_repeat_state(
            spec_repeat_state(seen, window, device, e1),
            window,
            device,
            e2,
        ) == spec_repeat_state(seen, window, device, e1),
{
    let ctl = spec_control_of(e1.kind)->Some_0;
    let rec = SeenRecord { device, control: ctl, kind: e1.kind, time: e1.time };
    lemma_lookup_store(seen, rec);
}

/// An event whose value differs from the last passed one is passed too, even
/// inside the window.
pub proof fn lemma_repeat_passes_changed(
    seen: Seq<SeenRecord>,
    window: u64,
    device: usize,
    e1: Event,
    e2: Event,
)
    requires
        spec_control_of(e1.kind) is Some,
        !spec_repeat_drops(seen, window, device, e1),
        e2.kind != e1.kind,
        spec_control_of(e2.kind) == spec_control_of(e1.kind),
    ensures
        !spec_repeat_drops(spec_repeat_state(seen, window, device, e1), window, device, e2),
{
    let ctl = spec_control_of(e1.kind)->Some_0;
    let rec = SeenRecord { device, control: ctl, kind: e1.kind, time: e1.time };
    lemma_lookup_store(seen, rec);
}

// ---------------------------------------------------------------------------
// Executable filters
// ---------------------------------------------------------------------------

/// The Repeat filter: drops an event identical to the last passed one of the
/// same device and control when it arrives within `window` ticks. It never
/// drops an event that names no control.
#[derive(Debug)]
pub struct Repeat {
    window: u64,
    seen: Vec<SeenRecord>,
}

impl Repeat {
    pub closed spec fn spec_window(&self) -> u64 {
        self.window
    }

    pub closed spec fn spec_seen(&self) -> Seq<SeenRecord> {
        self.seen@
    }

    /// A Repeat filter with the given debounce window, in ticks, and an empty
    /// memory.
    pub fn new(window: u64) -> (r: Repeat)
        ensures
            r.spec_window() == window,
            r.spec_seen() == Seq::<SeenRecord>::empty(),
    {
        Repeat { window, seen: Vec::new() }
    }

    fn find(&self, device: usize, control: Target) -> (r: usize)
        ensures
            r == spec_find(self.spec_seen(), device, control),
            r <= self.spec_seen().len(),
    {
        proof {
            lemma_find_bounds(self.seen@, device, control);
            assert(self.seen@.skip(0) =~= self.seen@);
        }
        let mut i: usize = 0;
        while i < self.seen.len()
            invariant
                i <= self.seen@.len(),
                0 <= spec_find(self.seen@, device, control) <= self.seen@.len(),
                spec_find(self.seen@, device, control) == i + spec_find(
                    self.seen@.skip(i as int),
                    device,
                    control,
                ),
            decreases self.seen.len() - i,
        {
            proof {
                assert(self.seen@.skip(i as int)[0] == self.seen@[i as int]);
                assert(self.seen@.skip(i as int).skip(1) =~= self.seen@.skip(i + 1));
            }
            let rec = self.seen[i];
            if rec.device == device && crate::types::target_eq(rec.control, control) {
                return i;
            }
            i = i + 1;
        }
        self.seen.len()
    }

    /// Pass or drop one event, and remember what passed, as the model
    /// functions say.
    pub fn filter(&mut self, device: usize, ev: Event) -> (r: Option<Event>)
        ensures
            final(self).spec_window() == old(self).spec_window(),
            r == (if spec_repeat_drops(
                old(self).spec_seen(),
                old(self).spec_window(),
                device,
                ev,
            ) {
                Option::<Event>::None
            } else {
                Option::<Event>::Some(ev)
            }),
            final(self).spec_seen() == spec_repeat_state(
                old(self).spec_seen(),
                old(self).spec_window(),
                device,
                ev,
            ),
    {
        let ctl_opt = control_of(ev.kind);
        match ctl_opt {
            Option::None => Some(ev),
            Option::Some(ctl) => {
                let i = self.find(device, ctl);
                proof {
                    lemma_find_bounds(self.seen@, device, ctl);
                }
                if i < self.seen.len() {
                    let rec = self.seen[i];
                    if crate::types::kind_eq(rec.kind, ev.kind) && rec.time <= ev.time && ev.time
                        - rec.time < self.window {
                        return None;
                    }
                }
                let rec = SeenRecord { device, control: ctl, kind: ev.kind, time: ev.time };
                if i < self.seen.len() {
                    self.seen[i] = rec;
                } else {
                    self.seen.push(rec);
                }
                proof {
                    assert(self.seen@ =~= spec_repeat_state(
                        old(self).spec_seen(),
                        old(self).spec_window(),
                        device,
                        ev,
                    ));
                }
                Some(ev)
            },
        }
    }
}

/// The Deadzone filter: flattens small axis motion to rest, leaving every
/// other event alone.
#[derive(Clone, Copy, Debug)]
pub struct Deadzone {
    threshold: i16,
}

/// What the Deadzone filter makes of one event.
pub open spec fn spec_deadzone(threshold: i16, ev: Event) -> Event {
    match ev.kind {
        crate::types::EventKind::AxisChanged(a, v) => if -threshold < v < threshold {
            Event { kind: crate::types::EventKind::AxisChanged(a, 0i16), time: ev.time }
        } else {
            ev
        },
        _ => ev,
    }
}

impl Deadzone {
    pub closed spec fn spec_threshold(&self) -> i16 {
        self.threshold
    }

    /// A Deadzone filter that flattens axis values strictly inside
    /// `(-threshold, threshold)`.
    pub fn new(threshold: i16) -> (r: Deadzone)
        requires
            threshold >= 0,
        ensures
            r.spec_threshold() == threshold,
    {
        Deadzone { threshold }
    }

    /// Flatten one event.
    pub fn filter(&self, ev: Event) -> (r: Event)
        ensures
            r == spec_deadzone(self.spec_threshold(), ev),
    {
        match ev.kind {
            crate::types::EventKind::AxisChanged(a, v) => {
                if -(self.threshold as i32) < v as i32 && (v as i32) < self.threshold as i32 {
                    Event { kind: crate::types::EventKind::AxisChanged(a, 0), time: ev.time }
                } else {
                    ev
                }
            },
            _ => ev,
        }
    }
}

/// The closed set of event filters; they compose by sequential application.
#[derive(Debug)]
pub enum EventFilter {
    Repeat(Repeat),
    Deadzone(Deadzone),
}

impl EventFilter {
    /// Run one event through the filter: pass it, transform it, or drop it.
    pub fn filter(&mut self, device: usize, ev: Event) -> (r: Option<Event>)
        ensures
            match *old(self) {
                EventFilter::Repeat(rep) => {
                    &&& (*final(self) matches EventFilter::Repeat(rep2) && rep2.spec_window()
                        == rep.spec_window() && rep2.spec_seen() == spec_repeat_state(
                        rep.spec_seen(),
                        rep.spec_window(),
                        device,
                        ev,
                    ))
                    &&& r == (if spec_repeat_drops(rep.spec_seen(), rep.spec_window(), device, ev) {
                        Option::<Event>::None
                    } else {
                        Option::<Event>::Some(ev)
                    })
                },
                EventFilter::Deadzone(dz) => {
                    &&& *final(self) == *old(self)
                    &&& r == Some(spec_deadzone(dz.spec_threshold(), ev))
                },
            },
    {
        match self {
            EventFilter::Repeat(rep) => rep.filter(device, ev),
            EventFilter::Deadzone(dz) => Some(dz.filter(ev)),
        }
    }
}

} // verus!
