use vstd::prelude::*;

verus! {

/// Connection status of a gamepad. `NotObserved` marks the sentinel device
/// returned for unknown ids and devices of a context without a backend.
#[derive(Clone, Copy, Debug, PartialEq, Eq, Structural)]
pub enum Status {
    Connected,
    Disconnected,
    NotObserved,
}

/// Battery / power state of a device, refreshed on explicit polls.
/// The payload of `Discharging` and `Charging` is a percentage, 0 to 100.
#[derive(Clone, Copy, Debug, PartialEq, Eq, Structural)]
pub enum PowerInfo {
    Unknown,
    Wired,
    Discharging(u8),
    Charging(u8),
}

/// Where the mapping in effect on a device came from.
#[derive(Clone, Copy, Debug, PartialEq, Eq, Structural)]
pub enum MappingSource {
    NotSet,
    SdlMapping,
    Driver,
}

/// A stable, platform-independent logical button identifier.
#[derive(Clone, Copy, Debug, PartialEq, Eq, Structural)]
pub enum Button {
    South,
    East,
    West,
    North,
    Select,
    Mode,
    Start,
    LeftThumb,
    RightThumb,
    LeftTrigger,
    RightTrigger,
    DPadUp,
    DPadDown,
    DPadLeft,
    DPadRight,
}

/// A stable, platform-independent logical axis identifier.
#[derive(Clone, Copy, Debug, PartialEq, Eq, Structural)]
pub enum Axis {
    LeftStickX,
    LeftStickY,
    RightStickX,
    RightStickY,
    LeftZ,
    RightZ,
}

/// A logical control: a button or an axis.
#[derive(Clone, Copy, Debug, PartialEq, Eq, Structural)]
pub enum Target {
    Btn(Button),
    Ax(Axis),
}

/// Number of logical buttons.
pub const BUTTON_COUNT: usize = 15;

/// Number of logical axes.
pub const AXIS_COUNT: usize = 6;

/// Dense index of a logical button, always below `BUTTON_COUNT`.
pub open spec fn spec_button_index(b: Button) -> int {
    match b {
        Button::South => 0,
        Button::East => 1,
        Button::West => 2,
        Button::North => 3,
        Button::Select => 4,
        Button::Mode => 5,
        Button::Start => 6,
        Button::LeftThumb => 7,
        Button::RightThumb => 8,
        Button::LeftTrigger => 9,
        Button::RightTrigger => 10,
        Button::DPadUp => 11,
        Button::DPadDown => 12,
        Button::DPadLeft => 13,
        Button::DPadRight => 14,
    }
}

/// Dense index of a logical axis, always below `AXIS_COUNT`.
pub open spec fn spec_axis_index(a: Axis) -> int {
    match a {
        Axis::LeftStickX => 0,
        Axis::LeftStickY => 1,
        Axis::RightStickX => 2,
        Axis::RightStickY => 3,
        Axis::LeftZ => 4,
        Axis::RightZ => 5,
    }
}

pub fn button_index(b: Button) -> (r: usize)
    ensures
        r == spec_button_index(b),
        r < BUTTON_COUNT,
{
    match b {
        Button::South => 0,
        Button::East => 1,
        Button::West => 2,
        Button::North => 3,
        Button::Select => 4,
        Button::Mode => 5,
        Button::Start => 6,
        Button::LeftThumb => 7,
        Button::RightThumb => 8,
        Button::LeftTrigger => 9,
        Button::RightTrigger => 10,
        Button::DPadUp => 11,
        Button::DPadDown => 12,
        Button::DPadLeft => 13,
        Button::DPadRight => 14,
    }
}

pub fn axis_index(a: Axis) -> (r: usize)
    ensures
        r == spec_axis_index(a),
        r < AXIS_COUNT,
{
    match a {
        Axis::LeftStickX => 0,
        Axis::LeftStickY => 1,
        Axis::RightStickX => 2,
        Axis::RightStickY => 3,
        Axis::LeftZ => 4,
        Axis::RightZ => 5,
    }
}

/// A logical event kind. Axis and button values are normalized to the full
/// `i16` range; a pressed button reads `i16::MAX`, a released one `0`.
#[derive(Clone, Copy, Debug, PartialEq, Eq, Structural)]
pub enum EventKind {
    ButtonPressed(Button),
    ButtonReleased(Button),
    ButtonChanged(Button, i16),
    AxisChanged(Axis, i16),
    Connected,
    Disconnected,
    Dropped,
}

/// A logical event: a kind together with the context counter at the time it
/// was produced.
#[derive(Clone, Copy, Debug, PartialEq, Eq, Structural)]
pub struct Event {
    pub kind: EventKind,
    pub time: u64,
}

/// The logical control an event speaks about, if any. `Connected`,
/// `Disconnected` and `Dropped` carry none.
pub open spec fn spec_control_of(kind: EventKind) -> Option<Target> {
    match kind {
        EventKind::ButtonPressed(b) => Some(Target::Btn(b)),
        EventKind::ButtonReleased(b) => Some(Target::Btn(b)),
        EventKind::ButtonChanged(b, _) => Some(Target::Btn(b)),
        EventKind::AxisChanged(a, _) => Some(Target::Ax(a)),
        EventKind::Connected => None,
        EventKind::Disconnected => None,
        EventKind::Dropped => None,
    }
}

pub fn control_of(kind: EventKind) -> (r: Option<Target>)
    ensures
        r == spec_control_of(kind),
{
    match kind {
        EventKind::ButtonPressed(b) => Some(Target::Btn(b)),
        EventKind::ButtonReleased(b) => Some(Target::Btn(b)),
        EventKind::ButtonChanged(b, _) => Some(Target::Btn(b)),
        EventKind::AxisChanged(a, _) => Some(Target::Ax(a)),
        EventKind::Connected => None,
        EventKind::Disconnected => None,
        EventKind::Dropped => None,
    }
}

pub fn target_eq(a: Target, b: Target) -> (r: bool)
    ensures
        r == (a == b),
{
    a == b
}

pub fn kind_eq(a: EventKind, b: EventKind) -> (r: bool)
    ensures
        r == (a == b),
{
    a == b
}

/// Force-feedback and other per-call failures.
#[derive(Clone, Copy, Debug, PartialEq, Eq, Structural)]
pub enum Error {
    /// The device or the platform has no force feedback.
    FfNotSupported,
    /// The current platform has no backend.
    NotImplemented,
}

/// Why a mapping was rejected. `Parse` carries the index of the offending
/// comma-separated token.
#[derive(Clone, Copy, Debug, PartialEq, Eq, Structural)]
pub enum MappingError {
    Parse(usize),
    Incomplete,
    NotImplemented,
}

/// A native control sample inside a raw report, in backend-specific codes.
#[derive(Clone, Copy, Debug, PartialEq, Eq, Structural)]
pub enum RawCode {
    ButtonPress(u16),
    ButtonRelease(u16),
    AxisValue(u16, i16),
    HatMoved(u16, u16),
}

} // verus!
