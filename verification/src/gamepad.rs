use vstd::prelude::*;

use crate::mapping::{spec_complete, MapEntry, MappingData, MappingView};
use crate::types::{
    axis_index, button_index, spec_axis_index, spec_button_index, Error, EventKind, MappingError,
    MappingSource, PowerInfo, Status, AXIS_COUNT, BUTTON_COUNT,
};
use crate::uuid_iface::{uuid_from_value, uuid_value};

verus! {

// ---------------------------------------------------------------------------
// Model
// ---------------------------------------------------------------------------

/// Mathematical model of one device's state.
pub struct GamepadView {
    pub name: Seq<char>,
    pub uuid: u128,
    pub status: Status,
    pub buttons: Seq<i16>,
    pub axes: Seq<i16>,
    pub mapping: MappingView,
    pub mapping_source: MappingSource,
    pub ff_supported: bool,
    pub max_ff_effects: usize,
    pub ff_gain: u16,
    pub power: PowerInfo,
}

/// Button and axis tables have one slot per logical control.
pub open spec fn wf_pad(g: GamepadView) -> bool {
    &&& g.buttons.len() == BUTTON_COUNT
    &&& g.axes.len() == AXIS_COUNT
}

/// All controls at rest.
pub open spec fn neutral_buttons() -> Seq<i16> {
    Seq::new(BUTTON_COUNT as nat, |i: int| 0i16)
}

pub open spec fn neutral_axes() -> Seq<i16> {
    Seq::new(AXIS_COUNT as nat, |i: int| 0i16)
}

/// The model of the sentinel device handed out for unknown ids and on a
/// platform without a backend.
pub open spec fn none_view() -> GamepadView {
    GamepadView {
        name: Seq::<char>::empty(),
        uuid: 0,
        status: Status::NotObserved,
        buttons: neutral_buttons(),
        axes: neutral_axes(),
        mapping: MappingView {
            guid: seq!['0'],
            name: Seq::<char>::empty(),
            entries: Seq::<MapEntry>::empty(),
        },
        mapping_source: MappingSource::NotSet,
        ff_supported: false,
        max_ff_effects: 0,
        ff_gain: 0,
        power: PowerInfo::Unknown,
    }
}

// ---------------------------------------------------------------------------
// Device identity handed over by a backend
// ---------------------------------------------------------------------------

/// What a backend reports about a device when it connects.
#[derive(Debug)]
pub struct DeviceInfo {
    pub name: String,
    pub vendor_id: u16,
    pub product_id: u16,
    pub ff_supported: bool,
    pub max_ff_effects: usize,
    pub power: PowerInfo,
    pub driver_mapping: Option<MappingData>,
}

/// The stable UUID value derived from a device's vendor and product ids, or
/// zero when both are unknown.
pub open spec fn spec_uuid_of_ids(vendor: u16, product: u16) -> u128 {
    if vendor == 0 && product == 0 {
        0
    } else {
        (vendor as int * 0x10000 + product as int) as u128
    }
}

pub fn uuid_of_ids(vendor: u16, product: u16) -> (r: u128)
    ensures
        r == spec_uuid_of_ids(vendor, product),
{
    if vendor == 0 && product == 0 {
        0
    } else {
        vendor as u128 * 0x10000 + product as u128
    }
}

/// The state of a device right after it connects: identity from the report,
/// controls at rest, and the driver's mapping when it supplied one.
pub open spec fn spec_fresh(info: DeviceInfo) -> GamepadView {
    GamepadView {
        name: info.name@,
        uuid: spec_uuid_of_ids(info.vendor_id, info.product_id),
        status: Status::Connected,
        buttons: neutral_buttons(),
        axes: neutral_axes(),
        mapping: match info.driver_mapping {
            Some(m) => m@,
            None => none_view().mapping,
        },
        mapping_source: match info.driver_mapping {
            Some(_) => MappingSource::Driver,
            None => MappingSource::NotSet,
        },
        ff_supported: info.ff_supported,
        max_ff_effects: info.max_ff_effects,
        ff_gain: 0,
        power: info.power,
    }
}

// ---------------------------------------------------------------------------
// Committing an event into device state
// ---------------------------------------------------------------------------

/// How one event changes a device's state. A pressed button reads `i16::MAX`,
/// a released one `0`. `Connected` moves the status only out of
/// `Disconnected` and resets the control tables to neutral, as every connect
/// transition does; `Disconnected` moves it only out of `Connected`. The
/// not-observed sentinel is terminal and inert: no event changes it at all.
/// A commit carries no backend identity, so the mapping in effect stays; the
/// raw connect path rebuilds identity and mapping whole.
pub open spec fn spec_commit(g: GamepadView, kind: EventKind) -> GamepadView {
    if g.status == Status::NotObserved {
        g
    } else {
        match kind {
        EventKind::ButtonPressed(b) => GamepadView {
            buttons: g.buttons.update(spec_button_index(b), i16::MAX),
            ..g
        },
        EventKind::ButtonReleased(b) => GamepadView {
            buttons: g.buttons.update(spec_button_index(b), 0i16),
            ..g
        },
        EventKind::ButtonChanged(b, v) => GamepadView {
            buttons: g.buttons.update(spec_button_index(b), v),
            ..g
        },
        EventKind::AxisChanged(a, v) => GamepadView {
            axes: g.axes.update(spec_axis_index(a), v),
            ..g
        },
        EventKind::Connected => if g.status == Status::Disconnected {
            GamepadView {
                status: Status::Connected,
                buttons: neutral_buttons(),
                axes: neutral_axes(),
                ..g
            }
        } else {
            g
        },
        EventKind::Disconnected => if g.status == Status::Connected {
            GamepadView { status: Status::Disconnected, ..g }
        } else {
            g
        },
        EventKind::Dropped => g,
        }
    }
}

/// The status state machine: a commit makes a device `Connected` only when it
/// was `Disconnected`; the not-observed sentinel is terminal and wholly
/// inert; and every status change comes from a `Connected` or `Disconnected`
/// event.
pub proof fn lemma_status_transitions(g: GamepadView, kind: EventKind)
    ensures
        spec_commit(g, kind).status == Status::Connected && g.status != Status::Connected
            ==> g.status == Status::Disconnected && kind == EventKind::Connected,
        g.status == Status::NotObserved ==> spec_commit(g, kind) == g,
        spec_commit(g, kind).status != g.status ==> kind == EventKind::Connected || kind
            == EventKind::Disconnected,
{
}

// ---------------------------------------------------------------------------
// The device type
// ---------------------------------------------------------------------------

/// Per-device state: identity, connection status, current logical control
/// values, the mapping in effect, and force-feedback capability.
#[derive(Debug)]
pub struct Gamepad {
    name: String,
    uuid: u128,
    status: Status,
    buttons: Vec<i16>,
    axes: Vec<i16>,
    mapping: MappingData,
    mapping_source: MappingSource,
    ff_supported: bool,
    max_ff_effects: usize,
    ff_gain: u16,
    power: PowerInfo,
}

impl View for Gamepad {
    type V = GamepadView;

    closed spec fn view(&self) -> GamepadView {
        GamepadView {
            name: self.name@,
            uuid: self.uuid,
            status: self.status,
            buttons: self.buttons@,
            axes: self.axes@,
            mapping: self.mapping@,
            mapping_source: self.mapping_source,
            ff_supported: self.ff_supported,
            max_ff_effects: self.max_ff_effects,
            ff_gain: self.ff_gain,
            power: self.power,
        }
    }
}

fn zero_values(n: usize) -> (r: Vec<i16>)
    ensures
        r@ == Seq::new(n as nat, |i: int| 0i16),
{
    let mut out: Vec<i16> = Vec::new();
    let mut i: usize = 0;
    while i < n
        invariant
            i <= n,
            out@ == Seq::new(i as nat, |j: int| 0i16),
        decreases n - i,
    {
        out.push(0);
        assert(out@ =~= Seq::new((i + 1) as nat, |j: int| 0i16));
        i = i + 1;
    }
    out
}

impl Gamepad {
    /// The sentinel device: not observed, no controls, no capabilities.
    pub fn none() -> (r: Gamepad)
        ensures
            r@ == none_view(),
            wf_pad(r@),
    {
        let r = Gamepad {
            name: String::new(),
            uuid: 0,
            status: Status::NotObserved,
            buttons: zero_values(BUTTON_COUNT),
            axes: zero_values(AXIS_COUNT),
            mapping: MappingData::empty(),
            mapping_source: MappingSource::NotSet,
            ff_supported: false,
            max_ff_effects: 0,
            ff_gain: 0,
            power: PowerInfo::Unknown,
        };
        proof {
            assert(r@.name =~= none_view().name);
            assert(r@.mapping.name =~= none_view().mapping.name);
            assert(r@.mapping.entries =~= none_view().mapping.entries);
        }
        r
    }

    /// A device as it stands right after its connect report.
    pub fn from_info(info: DeviceInfo) -> (r: Gamepad)
        ensures
            r@ == spec_fresh(info),
            wf_pad(r@),
    {
        let ghost ghost_info = info;
        let DeviceInfo { name, vendor_id, product_id, ff_supported, max_ff_effects, power, driver_mapping } = info;
        let (mapping, mapping_source) = match driver_mapping {
            Some(m) => (m, MappingSource::Driver),
            None => (MappingData::empty(), MappingSource::NotSet),
        };
        let r = Gamepad {
            name,
            uuid: uuid_of_ids(vendor_id, product_id),
            status: Status::Connected,
            buttons: zero_values(BUTTON_COUNT),
            axes: zero_values(AXIS_COUNT),
            mapping,
            mapping_source,
            ff_supported,
            max_ff_effects,
            ff_gain: 0,
            power,
        };
        proof {
            if ghost_info.driver_mapping is None {
                assert(r@.mapping.name =~= spec_fresh(ghost_info).mapping.name);
                assert(r@.mapping.entries =~= spec_fresh(ghost_info).mapping.entries);
            }
        }
        r
    }

    /// The device's display name.
    pub fn name(&self) -> (r: &str)
        ensures
            r@ == self@.name,
    {
        self.name.as_str()
    }

    /// The device's stable UUID, all-zero when its identity is unknown.
    pub fn uuid(&self) -> (r: uuid::Uuid)
        ensures
            uuid_value(r) == self@.uuid,
    {
        uuid_from_value(self.uuid)
    }

    /// The cached battery state; `Unknown` until a backend reported one.
    pub fn power_info(&self) -> (r: PowerInfo)
        ensures
            r == self@.power,
    {
        self.power
    }

    /// Cache a freshly polled battery state, as an explicit power poll of the
    /// backend does. The sentinel of an unsupported platform knows no power
    /// state and stays `Unknown`.
    pub fn refresh_power_info(&mut self, power: PowerInfo)
        ensures
            old(self)@.status == Status::NotObserved ==> final(self)@ == old(self)@,
            old(self)@.status != Status::NotObserved ==> final(self)@ == (GamepadView {
                power,
                ..old(self)@
            }),
    {
        if !matches!(self.status, Status::NotObserved) {
            self.power = power;
        }
    }

    /// Where the mapping in effect came from.
    pub fn mapping_source(&self) -> (r: MappingSource)
        ensures
            r == self@.mapping_source,
    {
        self.mapping_source
    }

    /// The device's connection status.
    pub fn status(&self) -> (r: Status)
        ensures
            r == self@.status,
    {
        self.status
    }

    /// Current value of a logical button; `0` is released.
    pub fn button_value(&self, b: crate::types::Button) -> (r: i16)
        requires
            wf_pad(self@),
        ensures
            r == self@.buttons[spec_button_index(b)],
    {
        self.buttons[button_index(b)]
    }

    /// Current value of a logical axis.
    pub fn axis_value(&self, a: crate::types::Axis) -> (r: i16)
        requires
            wf_pad(self@),
        ensures
            r == self@.axes[spec_axis_index(a)],
    {
        self.axes[axis_index(a)]
    }

    /// The mapping table in effect.
    pub fn mapping(&self) -> (r: &MappingData)
        ensures
            r@ == self@.mapping,
    {
        &self.mapping
    }

    /// Replace the mapping table. Fails with `NotImplemented` on the sentinel
    /// device of an unsupported platform, with `Incomplete` in strict mode
    /// when a logical control has no assignment; on failure nothing changes.
    /// On success the table is swapped whole and the accepted display name —
    /// the given one, or the device's own — is returned.
    pub fn set_mapping(&mut self, mapping: &MappingData, strict: bool, name: Option<&str>) -> (r:
        Result<String, MappingError>)
        ensures
            old(self)@.status == Status::NotObserved ==> r == Err::<String, MappingError>(
                MappingError::NotImplemented,
            ) && final(self)@ == old(self)@,
            old(self)@.status != Status::NotObserved && strict && !spec_complete(mapping@.entries)
                ==> r == Err::<String, MappingError>(MappingError::Incomplete) && final(self)@
                == old(self)@,
            old(self)@.status != Status::NotObserved && (!strict || spec_complete(mapping@.entries))
                ==> {
                &&& r is Ok
                &&& (match r {
                    Ok(nm) => nm@ == (match name {
                        Some(n) => n@,
                        None => old(self)@.name,
                    }),
                    Err(_) => false,
                })
                &&& final(self)@ == (GamepadView {
                    mapping: mapping@,
                    mapping_source: MappingSource::SdlMapping,
                    ..old(self)@
                })
            },
    {
        if matches!(self.status, Status::NotObserved) {
            return Err(MappingError::NotImplemented);
        }
        if strict && !mapping.is_complete() {
            return Err(MappingError::Incomplete);
        }
        self.mapping = mapping.copy_of();
        self.mapping_source = MappingSource::SdlMapping;
        match name {
            Some(n) => Ok(n.to_owned()),
            None => Ok(self.name.clone()),
        }
    }

    /// How many force-feedback effects the device can keep at once.
    pub fn max_ff_effects(&self) -> (r: usize)
        ensures
            r == self@.max_ff_effects,
    {
        self.max_ff_effects
    }

    /// Whether the device and platform support force feedback.
    pub fn is_ff_supported(&self) -> (r: bool)
        ensures
            r == self@.ff_supported,
    {
        self.ff_supported
    }

    /// The force-feedback gain last accepted.
    pub fn ff_gain(&self) -> (r: u16)
        ensures
            r == self@.ff_gain,
    {
        self.ff_gain
    }

    /// Set the force-feedback gain. Fails with `FfNotSupported`, changing
    /// nothing, whenever the device or the platform lacks force feedback.
    pub fn set_ff_gain(&mut self, gain: u16) -> (r: Result<(), Error>)
        ensures
            !old(self)@.ff_supported ==> r == Err::<(), Error>(Error::FfNotSupported)
                && final(self)@ == old(self)@,
            old(self)@.ff_supported ==> r == Ok::<(), Error>(()) && final(self)@ == (GamepadView {
                ff_gain: gain,
                ..old(self)@
            }),
    {
        if !self.ff_supported {
            return Err(Error::FfNotSupported);
        }
        self.ff_gain = gain;
        Ok(())
    }

    /// Commit one event's effect into this device's state, as `spec_commit`
    /// says.
    pub fn commit(&mut self, kind: EventKind)
        requires
            wf_pad(old(self)@),
        ensures
            final(self)@ == spec_commit(old(self)@, kind),
            wf_pad(final(self)@),
    {
        if matches!(self.status, Status::NotObserved) {
            return;
        }
        match kind {
            EventKind::ButtonPressed(b) => {
                let i = button_index(b);
                self.buttons[i] = i16::MAX;
            },
            EventKind::ButtonReleased(b) => {
                let i = button_index(b);
                self.buttons[i] = 0;
            },
            EventKind::ButtonChanged(b, v) => {
                let i = button_index(b);
                self.buttons[i] = v;
            },
            EventKind::AxisChanged(a, v) => {
                let i = axis_index(a);
                self.axes[i] = v;
            },
            EventKind::Connected => {
                if matches!(self.status, Status::Disconnected) {
                    self.status = Status::Connected;
                    self.buttons = zero_values(BUTTON_COUNT);
                    self.axes = zero_values(AXIS_COUNT);
                }
            },
            EventKind::Disconnected => {
                if matches!(self.status, Status::Connected) {
                    self.status = Status::Disconnected;
                }
            },
            EventKind::Dropped => {},
        }
    }

    /// Mark a connected device disconnected; its state and mapping stay for
    /// inspection. A device that is not connected — the terminal sentinel
    /// included — is left alone.
    pub fn disconnect(&mut self)
        ensures
            old(self)@.status == Status::Connected ==> final(self)@ == (GamepadView {
                status: Status::Disconnected,
                ..old(self)@
            }),
            old(self)@.status != Status::Connected ==> final(self)@ == old(self)@,
    {
        if matches!(self.status, Status::Connected) {
            self.status = Status::Disconnected;
        }
    }
}

} // verus!
