//! A cross-platform gamepad abstraction: a context that tracks devices,
//! produces a mapping-translated event stream from raw backend reports, and
//! applies declarative mapping tables that turn native control codes into a
//! stable logical vocabulary. On a platform without a backend the context is
//! degraded but usable: no devices, no events, every capability refused.

pub mod filter;
pub mod gamepad;
pub mod mapping;
pub mod native_ev_codes;
pub mod types;
pub mod uuid_iface;

use vstd::prelude::*;

use crate::gamepad::{none_view, spec_commit, spec_fresh, wf_pad, DeviceInfo, Gamepad, GamepadView};
use crate::mapping::spec_translate;
use crate::types::{Error, Event, EventKind, PowerInfo, RawCode, Status};

verus! {

// ---------------------------------------------------------------------------
// Raw reports and backends
// ---------------------------------------------------------------------------

/// A raw report delivered by a backend: a native control sample, a connect
/// with the device's identity, or a disconnect.
#[derive(Debug)]
pub enum RawEvent {
    Report(usize, RawCode),
    Connect(usize, DeviceInfo),
    Disconnect(usize),
}

/// The backend capability a context is built over: none on an unsupported
/// platform, or a runtime-injected queue that an outer driver fills with raw
/// reports.
#[derive(Clone, Copy, Debug, PartialEq, Eq, Structural)]
pub enum Backend {
    Unsupported,
    Injected,
}

/// Options a context is built with.
#[derive(Clone, Copy, Debug, PartialEq, Eq, Structural)]
pub struct GilrsConfig {
    /// When false, `next_event` leaves device state alone and the caller
    /// commits each event with `update`.
    pub update_state: bool,
    pub backend: Backend,
}

// ---------------------------------------------------------------------------
// What one raw report does to the registry
// ---------------------------------------------------------------------------

/// The effect of one raw report on the device registry, or `None` when it is
/// dropped: ids are assigned densely in connect order; a connect is honored
/// only for a brand-new id or a device seen disconnected; a disconnect only
/// for a connected device; a sample only when the device is connected and its
/// mapping translates the code.
pub open spec fn spec_apply_raw(
    gps: Seq<GamepadView>,
    raw: RawEvent,
    counter: u64,
    update_state: bool,
) -> Option<(Seq<GamepadView>, usize, Event)> {
    match raw {
        RawEvent::Connect(d, info) => {
            if d == gps.len() {
                Some(
                    (
                        gps.push(spec_fresh(info)),
                        d,
                        Event { kind: EventKind::Connected, time: counter },
                    ),
                )
            } else if d < gps.len() && gps[d as int].status == Status::Disconnected {
                Some(
                    (
                        gps.update(d as int, spec_fresh(info)),
                        d,
                        Event { kind: EventKind::Connected, time: counter },
                    ),
                )
            } else {
                None
            }
        },
        RawEvent::Disconnect(d) => {
            if d < gps.len() && gps[d as int].status == Status::Connected {
                Some(
                    (
                        gps.update(
                            d as int,
                            (GamepadView { status: Status::Disconnected, ..gps[d as int] }),
                        ),
                        d,
                        Event { kind: EventKind::Disconnected, time: counter },
                    ),
                )
            } else {
                None
            }
        },
        RawEvent::Report(d, code) => {
            if d < gps.len() && gps[d as int].status == Status::Connected {
                match spec_translate(gps[d as int].mapping.entries, code) {
                    Some(kind) => Some(
                        (
                            if update_state {
                                gps.update(d as int, spec_commit(gps[d as int], kind))
                            } else {
                                gps
                            },
                            d,
                            Event { kind, time: counter },
                        ),
                    ),
                    None => None,
                }
            } else {
                None
            }
        },
    }
}

/// What one `next_event` call does: the dropped prefix of the queue is
/// consumed silently, then the first effective report yields its event.
pub open spec fn spec_next(
    gps: Seq<GamepadView>,
    q: Seq<RawEvent>,
    counter: u64,
    update_state: bool,
) -> (Seq<GamepadView>, Seq<RawEvent>, Option<(usize, Event)>)
    decreases q.len(),
{
    if q.len() == 0 {
        (gps, q, None::<(usize, Event)>)
    } else {
        match spec_apply_raw(gps, q[0], counter, update_state) {
            Some(step) => (step.0, q.skip(1), Some((step.1, step.2))),
            None => spec_next(gps, q.skip(1), counter, update_state),
        }
    }
}

/// A connect report for a device that did not pass through `Disconnected`
/// first is dropped: no path skips the disconnect observation.
pub proof fn lemma_reconnect_needs_disconnect(
    gps: Seq<GamepadView>,
    d: usize,
    info: DeviceInfo,
    counter: u64,
    update_state: bool,
)
    requires
        d < gps.len(),
        gps[d as int].status != Status::Disconnected,
    ensures
        spec_apply_raw(gps, RawEvent::Connect(d, info), counter, update_state) is None,
{
}

// ---------------------------------------------------------------------------
// The context
// ---------------------------------------------------------------------------

/// The context: the device registry, the frame counter, and the pending raw
/// reports of the backend.
#[derive(Debug)]
pub struct Gilrs {
    gamepads: Vec<Gamepad>,
    not_observed: Gamepad,
    counter: u64,
    queue: Vec<RawEvent>,
    supported: bool,
    update_state: bool,
}

/// A degraded but usable context, handed back together with the reason the
/// platform has no full one.
#[derive(Debug)]
pub struct PartialGilrs {
    pub context: Gilrs,
    pub error: Error,
}

impl Gilrs {
    /// The registry itself, in id order.
    pub closed spec fn raw_pads(&self) -> Seq<Gamepad> {
        self.gamepads@
    }

    /// The registry as a sequence of device models, in id order.
    pub open spec fn pads(&self) -> Seq<GamepadView> {
        self.raw_pads().map_values(|g: Gamepad| g@)
    }

    pub closed spec fn sentinel(&self) -> GamepadView {
        self.not_observed@
    }

    pub closed spec fn spec_counter(&self) -> u64 {
        self.counter
    }

    pub closed spec fn spec_queue(&self) -> Seq<RawEvent> {
        self.queue@
    }

    pub closed spec fn spec_supported(&self) -> bool {
        self.supported
    }

    pub closed spec fn spec_update_state(&self) -> bool {
        self.update_state
    }

    /// Every device model has full control tables; the sentinel is a
    /// not-observed device without capabilities; a context without a backend
    /// has no devices and no pending reports.
    pub open spec fn wf(&self) -> bool {
        &&& forall|i: int| 0 <= i < self.pads().len() ==> wf_pad(#[trigger] self.pads()[i])
        &&& wf_pad(self.sentinel())
        &&& self.sentinel().status == Status::NotObserved
        &&& self.sentinel().power == PowerInfo::Unknown
        &&& !self.sentinel().ff_supported
        &&& (!self.spec_supported() ==> self.pads().len() == 0 && self.spec_queue().len() == 0)
    }

    /// A context for the current platform. This build has no native backend:
    /// the context is empty and degraded, as `wf` and the field contracts
    /// say.
    pub fn new() -> (r: Gilrs)
        ensures
            r.wf(),
            !r.spec_supported(),
            r.pads().len() == 0,
            r.spec_queue().len() == 0,
            r.spec_counter() == 0,
            r.spec_update_state(),
            r.sentinel() == none_view(),
    {
        Gilrs {
            gamepads: Vec::new(),
            not_observed: Gamepad::none(),
            counter: 0,
            queue: Vec::new(),
            supported: false,
            update_state: true,
        }
    }

    /// A context primed with mapping data. Without a backend the mappings
    /// have no device to apply to, so this equals `new`.
    pub fn with_mappings(_sdl_mapping: &str) -> (r: Gilrs)
        ensures
            r.wf(),
            !r.spec_supported(),
            r.pads().len() == 0,
            r.spec_queue().len() == 0,
            r.spec_counter() == 0,
            r.spec_update_state(),
            r.sentinel() == none_view(),
    {
        Gilrs::new()
    }

    /// Build a context over a backend. Without one, the error names the
    /// platform gap and still carries an empty, usable context.
    pub fn build(config: GilrsConfig) -> (r: Result<Gilrs, PartialGilrs>)
        ensures
            match r {
                Ok(c) => {
                    &&& config.backend == Backend::Injected
                    &&& c.wf()
                    &&& c.spec_supported()
                    &&& c.pads().len() == 0
                    &&& c.spec_queue().len() == 0
                    &&& c.spec_counter() == 0
                    &&& c.spec_update_state() == config.update_state
                    &&& c.sentinel() == none_view()
                },
                Err(p) => {
                    &&& config.backend == Backend::Unsupported
                    &&& p.error == Error::NotImplemented
                    &&& p.context.wf()
                    &&& !p.context.spec_supported()
                    &&& p.context.pads().len() == 0
                    &&& p.context.spec_queue().len() == 0
                    &&& p.context.spec_counter() == 0
                    &&& p.context.spec_update_state() == config.update_state
                    &&& p.context.sentinel() == none_view()
                },
            },
    {
        let context = Gilrs {
            gamepads: Vec::new(),
            not_observed: Gamepad::none(),
            counter: 0,
            queue: Vec::new(),
            supported: matches!(config.backend, Backend::Injected),
            update_state: config.update_state,
        };
        match config.backend {
            Backend::Injected => Ok(context),
            Backend::Unsupported => Err(PartialGilrs { context, error: Error::NotImplemented }),
        }
    }

    /// Hand the context a raw report, as a backend's driver does. Without a
    /// backend there is nothing to report: the call changes nothing.
    pub fn push_raw(&mut self, raw: RawEvent)
        requires
            old(self).wf(),
        ensures
            final(self).wf(),
            old(self).spec_supported() ==> final(self).spec_queue() == old(self).spec_queue().push(
                raw,
            ),
            !old(self).spec_supported() ==> final(self).spec_queue() == old(self).spec_queue(),
            final(self).pads() == old(self).pads(),
            final(self).sentinel() == old(self).sentinel(),
            final(self).spec_counter() == old(self).spec_counter(),
            final(self).spec_supported() == old(self).spec_supported(),
            final(self).spec_update_state() == old(self).spec_update_state(),
    {
        if self.supported {
            self.queue.push(raw);
        }
        proof {
            assert(self.pads() == old(self).pads());
            assert(self.wf());
        }
    }

    /// The current frame number.
    pub fn counter(&self) -> (r: u64)
        ensures
            r == self.spec_counter(),
    {
        self.counter
    }

    /// Advance the frame counter by one; later events are stamped with the
    /// new value.
    pub fn inc(&mut self)
        requires
            old(self).spec_counter() < u64::MAX,
        ensures
            final(self).spec_counter() == old(self).spec_counter() + 1,
            final(self).pads() == old(self).pads(),
            final(self).sentinel() == old(self).sentinel(),
            final(self).spec_queue() == old(self).spec_queue(),
            final(self).spec_supported() == old(self).spec_supported(),
            final(self).spec_update_state() == old(self).spec_update_state(),
            old(self).wf() ==> final(self).wf(),
    {
        self.counter = self.counter + 1;
    }

    /// One more than the highest id ever assigned; `0..hint` covers every
    /// device the context knows.
    pub fn last_gamepad_hint(&self) -> (r: usize)
        ensures
            r == self.pads().len(),
    {
        self.gamepads.len()
    }

    /// The ids of all known devices, in id order, disconnected ones included.
    pub fn gamepads(&self) -> (r: Vec<usize>)
        ensures
            r@.len() == self.pads().len(),
            forall|i: int| 0 <= i < r@.len() ==> r@[i] == i,
    {
        let mut out: Vec<usize> = Vec::new();
        let mut i: usize = 0;
        while i < self.gamepads.len()
            invariant
                i <= self.gamepads@.len(),
                out@.len() == i,
                forall|j: int| 0 <= j < i ==> out@[j] == j,
            decreases self.gamepads.len() - i,
        {
            out.push(i);
            i = i + 1;
        }
        out
    }

    /// The device with the given id, or the not-observed sentinel when no
    /// such id was ever assigned.
    pub fn gamepad(&self, id: usize) -> (r: &Gamepad)
        ensures
            id < self.pads().len() ==> r@ == self.pads()[id as int],
            id >= self.pads().len() ==> r@ == self.sentinel(),
    {
        if id < self.gamepads.len() {
            &self.gamepads[id]
        } else {
            &self.not_observed
        }
    }

    /// Mutable access to the device with the given id, or to the not-observed
    /// sentinel when no such id was ever assigned.
    pub fn gamepad_mut(&mut self, id: usize) -> (r: &mut Gamepad)
        ensures
            id < old(self).pads().len() ==> ({
                &&& (*r)@ == old(self).pads()[id as int]
                &&& final(self).raw_pads() == old(self).raw_pads().update(id as int, *final(r))
                &&& final(self).sentinel() == old(self).sentinel()
            }),
            id >= old(self).pads().len() ==> ({
                &&& (*r)@ == old(self).sentinel()
                &&& final(self).raw_pads() == old(self).raw_pads()
                &&& final(self).sentinel() == (*final(r))@
            }),
            final(self).spec_counter() == old(self).spec_counter(),
            final(self).spec_queue() == old(self).spec_queue(),
            final(self).spec_supported() == old(self).spec_supported(),
            final(self).spec_update_state() == old(self).spec_update_state(),
    {
        if id < self.gamepads.len() {
            &mut self.gamepads[id]
        } else {
            &mut self.not_observed
        }
    }

    /// Replacing one device in the registry updates the same slot of the
    /// model sequence.
    pub proof fn lemma_pads_of_update(pre: Gilrs, post: Gilrs, id: int, g: Gamepad)
        requires
            0 <= id < pre.raw_pads().len(),
            post.raw_pads() == pre.raw_pads().update(id, g),
        ensures
            post.pads() == pre.pads().update(id, g@),
    {
        assert(post.pads() =~= pre.pads().update(id, g@));
    }

    /// Commit one event into the device it belongs to, as `spec_commit` says;
    /// an unknown id changes nothing.
    pub fn update(&mut self, id: usize, ev: Event)
        requires
            old(self).wf(),
        ensures
            final(self).wf(),
            id < old(self).pads().len() ==> final(self).pads() == old(self).pads().update(
                id as int,
                spec_commit(old(self).pads()[id as int], ev.kind),
            ),
            id >= old(self).pads().len() ==> final(self).pads() == old(self).pads(),
            final(self).sentinel() == old(self).sentinel(),
            final(self).spec_counter() == old(self).spec_counter(),
            final(self).spec_queue() == old(self).spec_queue(),
            final(self).spec_supported() == old(self).spec_supported(),
            final(self).spec_update_state() == old(self).spec_update_state(),
    {
        if id < self.gamepads.len() {
            proof {
                assert(old(self).pads()[id as int] == old(self).gamepads@[id as int]@);
                assert(wf_pad(old(self).pads()[id as int]));
            }
            let g = &mut self.gamepads[id];
            g.commit(ev.kind);
            proof {
                assert(self.pads() =~= old(self).pads().update(
                    id as int,
                    spec_commit(old(self).pads()[id as int], ev.kind),
                ));
                assert(forall|i: int|
                    0 <= i < self.pads().len() ==> wf_pad(#[trigger] self.pads()[i]));
            }
        } else {
            proof {
                assert(self.pads() =~= old(self).pads());
            }
        }
    }
}

} // verus!

verus! {

/// On a platform without a backend the context stays empty and silent: no
/// devices, and the event stream never yields.
pub proof fn lemma_unsupported_degraded(c: Gilrs)
    requires
        c.wf(),
        !c.spec_supported(),
    ensures
        c.pads().len() == 0,
        spec_next(c.pads(), c.spec_queue(), c.spec_counter(), c.spec_update_state()).2 is None,
{
}

// ---------------------------------------------------------------------------
// The event stream
// ---------------------------------------------------------------------------

impl Gilrs {
    /// Pull raw reports until one is effective and return its event, stamped
    /// with the current counter; `None` once nothing is pending. Reports that
    /// no rule accepts are consumed silently. With `update_state` set, the
    /// event is also committed into its device here.
    pub fn next_event(&mut self) -> (r: Option<(usize, Event)>)
        requires
            old(self).wf(),
        ensures
            final(self).wf(),
            final(self).spec_counter() == old(self).spec_counter(),
            final(self).spec_supported() == old(self).spec_supported(),
            final(self).spec_update_state() == old(self).spec_update_state(),
            final(self).sentinel() == old(self).sentinel(),
            ({
                let step = spec_next(
                    old(self).pads(),
                    old(self).spec_queue(),
                    old(self).spec_counter(),
                    old(self).spec_update_state(),
                );
                final(self).pads() == step.0 && final(self).spec_queue() == step.1 && r == step.2
            }),
            !old(self).spec_supported() ==> (r is None),
    {
        loop
            invariant
                self.wf(),
                self.spec_counter() == old(self).spec_counter(),
                self.spec_supported() == old(self).spec_supported(),
                self.spec_update_state() == old(self).spec_update_state(),
                self.sentinel() == old(self).sentinel(),
                spec_next(
                    old(self).pads(),
                    old(self).spec_queue(),
                    old(self).spec_counter(),
                    old(self).spec_update_state(),
                ) == spec_next(
                    self.pads(),
                    self.spec_queue(),
                    self.spec_counter(),
                    self.spec_update_state(),
                ),
            decreases self.spec_queue().len(),
        {
            if self.queue.len() == 0 {
                return None;
            }
            let ghost pre = *self;
            let raw = self.queue.remove(0);
            proof {
                assert(self.spec_queue() =~= pre.spec_queue().skip(1));
                assert(self.pads() == pre.pads());
            }
            match raw {
                RawEvent::Connect(d, info) => {
                    let ghost ghost_info = info;
                    if d == self.gamepads.len() {
                        let ev = Event { kind: EventKind::Connected, time: self.counter };
                        let g = Gamepad::from_info(info);
                        self.gamepads.push(g);
                        proof {
                            assert(self.pads() =~= pre.pads().push(spec_fresh(ghost_info)));
                        }
                        return Some((d, ev));
                    } else if d < self.gamepads.len() && matches!(
                        self.gamepad(d).status(),
                        Status::Disconnected,
                    ) {
                        let ev = Event { kind: EventKind::Connected, time: self.counter };
                        let g = Gamepad::from_info(info);
                        self.gamepads[d] = g;
                        proof {
                            assert(self.pads() =~= pre.pads().update(
                                d as int,
                                spec_fresh(ghost_info),
                            ));
                        }
                        return Some((d, ev));
                    } else {
                        proof {
                            assert(spec_apply_raw(
                                pre.pads(),
                                raw,
                                pre.spec_counter(),
                                pre.spec_update_state(),
                            ) is None);
                        }
                    }
                },
                RawEvent::Disconnect(d) => {
                    if d < self.gamepads.len() && matches!(
                        self.gamepad(d).status(),
                        Status::Connected,
                    ) {
                        let ev = Event { kind: EventKind::Disconnected, time: self.counter };
                        let g = &mut self.gamepads[d];
                        g.disconnect();
                        proof {
                            assert(self.pads() =~= pre.pads().update(
                                d as int,
                                (GamepadView { status: Status::Disconnected, ..pre.pads()[d as int] }),
                            ));
                        }
                        return Some((d, ev));
                    } else {
                        proof {
                            assert(spec_apply_raw(
                                pre.pads(),
                                raw,
                                pre.spec_counter(),
                                pre.spec_update_state(),
                            ) is None);
                        }
                    }
                },
                RawEvent::Report(d, code) => {
                    if d < self.gamepads.len() && matches!(
                        self.gamepad(d).status(),
                        Status::Connected,
                    ) {
                        let kind_opt = self.gamepad(d).mapping().apply(code);
                        match kind_opt {
                            Some(kind) => {
                                let ev = Event { kind, time: self.counter };
                                if self.update_state {
                                    proof {
                                        assert(wf_pad(pre.pads()[d as int]));
                                    }
                                    let g = &mut self.gamepads[d];
                                    g.commit(kind);
                                    proof {
                                        assert(self.pads() =~= pre.pads().update(
                                            d as int,
                                            spec_commit(pre.pads()[d as int], kind),
                                        ));
                                    }
                                }
                                return Some((d, ev));
                            },
                            None => {
                                proof {
                                    assert(spec_apply_raw(
                                        pre.pads(),
                                        raw,
                                        pre.spec_counter(),
                                        pre.spec_update_state(),
                                    ) is None);
                                }
                            },
                        }
                    } else {
                        proof {
                            assert(spec_apply_raw(
                                pre.pads(),
                                raw,
                                pre.spec_counter(),
                                pre.spec_update_state(),
                            ) is None);
                        }
                    }
                },
            }
        }
    }
}

// ---------------------------------------------------------------------------
// Draining the stream whole
// ---------------------------------------------------------------------------

/// What draining every pending report yields: the final registry and the
/// events of the effective reports, in delivery order.
pub open spec fn spec_drain(
    gps: Seq<GamepadView>,
    q: Seq<RawEvent>,
    counter: u64,
    update_state: bool,
) -> (Seq<GamepadView>, Seq<(usize, Event)>)
    decreases q.len(),
{
    if q.len() == 0 {
        (gps, Seq::<(usize, Event)>::empty())
    } else {
        match spec_apply_raw(gps, q[0], counter, update_state) {
            Some(step) => {
                let rest = spec_drain(step.0, q.skip(1), counter, update_state);
                (rest.0, seq![(step.1, step.2)] + rest.1)
            },
            None => spec_drain(gps, q.skip(1), counter, update_state),
        }
    }
}

/// `spec_drain` decomposes into one `spec_next` step and the drain of what is
/// left.
pub proof fn lemma_drain_step(
    gps: Seq<GamepadView>,
    q: Seq<RawEvent>,
    counter: u64,
    update_state: bool,
)
    ensures
        ({
            let step = spec_next(gps, q, counter, update_state);
            match step.2 {
                Some(e) => spec_drain(gps, q, counter, update_state) == ({
                    let rest = spec_drain(step.0, step.1, counter, update_state);
                    (rest.0, seq![e] + rest.1)
                }),
                None => spec_drain(gps, q, counter, update_state) == (
                    gps,
                    Seq::<(usize, Event)>::empty(),
                ),
            }
        }),
    decreases q.len(),
{
    if q.len() != 0 {
        match spec_apply_raw(gps, q[0], counter, update_state) {
            Some(_) => {},
            None => lemma_drain_step(gps, q.skip(1), counter, update_state),
        }
    }
}

/// A `spec_next` step consumes at least one report, and `None` means the
/// queue ran dry.
pub proof fn lemma_next_consumes(
    gps: Seq<GamepadView>,
    q: Seq<RawEvent>,
    counter: u64,
    update_state: bool,
)
    ensures
        (spec_next(gps, q, counter, update_state).2 is Some) ==> spec_next(
            gps,
            q,
            counter,
            update_state,
        ).1.len() < q.len(),
        (spec_next(gps, q, counter, update_state).2 is None) ==> spec_next(
            gps,
            q,
            counter,
            update_state,
        ).1.len() == 0 && spec_next(gps, q, counter, update_state).0 == gps,
    decreases q.len(),
{
    if q.len() != 0 {
        match spec_apply_raw(gps, q[0], counter, update_state) {
            Some(_) => {},
            None => lemma_next_consumes(gps, q.skip(1), counter, update_state),
        }
    }
}

/// A finite, restartable snapshot of the drained event stream.
pub struct EventIterator {
    events: Vec<(usize, Event)>,
    pos: usize,
}

impl EventIterator {
    /// The whole drained snapshot, in delivery order; no call changes it.
    pub closed spec fn all_events(&self) -> Seq<(usize, Event)> {
        self.events@
    }

    /// The events not yet handed out.
    pub closed spec fn remaining(&self) -> Seq<(usize, Event)> {
        if self.pos <= self.events@.len() {
            self.events@.skip(self.pos as int)
        } else {
            Seq::<(usize, Event)>::empty()
        }
    }

    /// The next drained event, front to back; `None` once all were yielded.
    pub fn next(&mut self) -> (r: Option<(usize, Event)>)
        ensures
            final(self).all_events() == old(self).all_events(),
            old(self).remaining().len() == 0 ==> (r is None)
                && final(self).remaining() == old(self).remaining(),
            old(self).remaining().len() > 0 ==> r == Some(old(self).remaining()[0])
                && final(self).remaining() == old(self).remaining().skip(1),
    {
        if self.pos < self.events.len() {
            let e = self.events[self.pos];
            self.pos = self.pos + 1;
            proof {
                assert(old(self).remaining()[0] == old(self).events@[old(self).pos as int]);
                assert(self.events@.skip(self.pos as int) =~= old(self).remaining().skip(1));
            }
            Some(e)
        } else {
            None
        }
    }

    /// Go back to the first drained event: everything is remaining again.
    pub fn restart(&mut self)
        ensures
            final(self).all_events() == old(self).all_events(),
            final(self).remaining() == old(self).all_events(),
    {
        self.pos = 0;
        proof {
            assert(self.events@.skip(0) =~= self.events@);
        }
    }
}

impl Gilrs {
    /// Drain every pending report into a snapshot iterator, applying each
    /// effective one as `next_event` does.
    pub fn drain_events(&mut self) -> (r: EventIterator)
        requires
            old(self).wf(),
        ensures
            final(self).wf(),
            final(self).spec_counter() == old(self).spec_counter(),
            final(self).spec_supported() == old(self).spec_supported(),
            final(self).spec_update_state() == old(self).spec_update_state(),
            final(self).sentinel() == old(self).sentinel(),
            final(self).spec_queue().len() == 0,
            ({
                let d = spec_drain(
                    old(self).pads(),
                    old(self).spec_queue(),
                    old(self).spec_counter(),
                    old(self).spec_update_state(),
                );
                final(self).pads() == d.0 && r.remaining() == d.1 && r.all_events() == d.1
            }),
    {
        let mut out: Vec<(usize, Event)> = Vec::new();
        loop
            invariant
                self.wf(),
                self.spec_counter() == old(self).spec_counter(),
                self.spec_supported() == old(self).spec_supported(),
                self.spec_update_state() == old(self).spec_update_state(),
                self.sentinel() == old(self).sentinel(),
                ({
                    let d0 = spec_drain(
                        old(self).pads(),
                        old(self).spec_queue(),
                        old(self).spec_counter(),
                        old(self).spec_update_state(),
                    );
                    let d = spec_drain(
                        self.pads(),
                        self.spec_queue(),
                        self.spec_counter(),
                        self.spec_update_state(),
                    );
                    d0.0 == d.0 && d0.1 == out@ + d.1
                }),
            ensures
                self.wf(),
                self.spec_counter() == old(self).spec_counter(),
                self.spec_supported() == old(self).spec_supported(),
                self.spec_update_state() == old(self).spec_update_state(),
                self.sentinel() == old(self).sentinel(),
                self.spec_queue().len() == 0,
                ({
                    let d0 = spec_drain(
                        old(self).pads(),
                        old(self).spec_queue(),
                        old(self).spec_counter(),
                        old(self).spec_update_state(),
                    );
                    self.pads() == d0.0 && out@ == d0.1
                }),
            decreases self.spec_queue().len(),
        {
            proof {
                lemma_drain_step(
                    self.pads(),
                    self.spec_queue(),
                    self.spec_counter(),
                    self.spec_update_state(),
                );
                lemma_next_consumes(
                    self.pads(),
                    self.spec_queue(),
                    self.spec_counter(),
                    self.spec_update_state(),
                );
            }
            let ghost pre_out = out@;
            match self.next_event() {
                Some(e) => {
                    out.push(e);
                    proof {
                        let d = spec_drain(
                            self.pads(),
                            self.spec_queue(),
                            self.spec_counter(),
                            self.spec_update_state(),
                        );
                        assert(pre_out + (seq![e] + d.1) =~= out@ + d.1);
                    }
                },
                None => {
                    proof {
                        assert(self.spec_queue().len() == 0);
                        assert(spec_drain(
                            self.pads(),
                            self.spec_queue(),
                            self.spec_counter(),
                            self.spec_update_state(),
                        ).0 == self.pads());
                        assert(spec_drain(
                            self.pads(),
                            self.spec_queue(),
                            self.spec_counter(),
                            self.spec_update_state(),
                        ).1 =~= Seq::<(usize, Event)>::empty());
                        assert(out@ + Seq::<(usize, Event)>::empty() =~= out@);
                    }
                    break;
                },
            }
        }
        let r = EventIterator { events: out, pos: 0 };
        proof {
            assert(r.remaining() =~= r.events@);
        }
        r
    }
}

} // verus!
