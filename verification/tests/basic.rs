use gilrs::filter::{Deadzone, EventFilter, Repeat};
use gilrs::gamepad::{DeviceInfo, Gamepad};
use gilrs::mapping::MappingData;
use gilrs::types::{
    Axis, Button, Error, Event, EventKind, MappingError, MappingSource, PowerInfo, RawCode, Status,
};
use gilrs::{Backend, Gilrs, GilrsConfig, RawEvent};

fn device_info() -> DeviceInfo {
    DeviceInfo {
        name: String::from("pad"),
        vendor_id: 1,
        product_id: 2,
        ff_supported: true,
        max_ff_effects: 4,
        power: PowerInfo::Wired,
        driver_mapping: None,
    }
}

const GENERIC: &str = "0300,Generic,a:b0,b:b1,leftx:a0,";

const FULL: &str = "03000000000000000000000000000000,Full,a:b0,b:b1,x:b2,y:b3,back:b4,guide:b5,start:b6,leftstick:b7,rightstick:b8,leftshoulder:b9,rightshoulder:b10,dpup:b11,dpdown:b12,dpleft:b13,dpright:b14,leftx:a0,lefty:a1,rightx:a2,righty:a3,lefttrigger:a4,righttrigger:a5,";

#[test]
fn unsupported_context_is_empty() {
    let mut g = Gilrs::new();
    assert_eq!(g.last_gamepad_hint(), 0);
    assert!(g.gamepads().is_empty());
    assert!(g.next_event().is_none());
    assert!(g.next_event().is_none());
    assert_eq!(g.counter(), 0);
    let pad = g.gamepad(3);
    assert_eq!(pad.power_info(), PowerInfo::Unknown);
    assert_eq!(pad.status(), Status::NotObserved);
    assert_eq!(pad.name(), "");
    assert!(!pad.is_ff_supported());
    assert_eq!(pad.max_ff_effects(), 0);
    assert_eq!(pad.mapping_source(), MappingSource::NotSet);
    assert_eq!(pad.uuid(), uuid::Uuid::nil());
}

#[test]
fn unsupported_context_refuses_capabilities() {
    let mut g = Gilrs::with_mappings(GENERIC);
    assert!(g.next_event().is_none());
    let pad = g.gamepad_mut(0);
    assert_eq!(pad.set_ff_gain(100), Err(Error::FfNotSupported));
    let m = MappingData::empty();
    assert_eq!(pad.set_mapping(&m, false, None), Err(MappingError::NotImplemented));
}

#[test]
fn push_raw_without_backend_is_ignored() {
    let mut g = Gilrs::new();
    g.push_raw(RawEvent::Connect(0, device_info()));
    assert!(g.next_event().is_none());
    assert_eq!(g.last_gamepad_hint(), 0);
}

#[test]
fn build_degraded_still_usable() {
    let partial = Gilrs::build(GilrsConfig { update_state: true, backend: Backend::Unsupported })
        .unwrap_err();
    assert_eq!(partial.error, Error::NotImplemented);
    let mut g = partial.context;
    assert!(g.next_event().is_none());
    assert_eq!(g.last_gamepad_hint(), 0);
}

#[test]
fn counter_counts_incs() {
    let mut g = Gilrs::new();
    for _ in 0..10 {
        g.inc();
    }
    assert_eq!(g.counter(), 10);
    g.inc();
    assert_eq!(g.counter(), 11);
}

#[test]
fn mapping_translates_button_press() {
    let m = MappingData::parse(GENERIC).unwrap();
    assert_eq!(m.apply(RawCode::ButtonPress(0)), Some(EventKind::ButtonPressed(Button::South)));
    assert_eq!(m.apply(RawCode::ButtonRelease(1)), Some(EventKind::ButtonReleased(Button::East)));
    assert_eq!(
        m.apply(RawCode::AxisValue(0, 1000)),
        Some(EventKind::AxisChanged(Axis::LeftStickX, 1000))
    );
    assert_eq!(m.apply(RawCode::ButtonPress(5)), None);
    assert_eq!(m.guid(), "0300");
    assert_eq!(m.name(), "Generic");
}

#[test]
fn mapping_axis_modifiers_and_hats() {
    let m = MappingData::parse("0300,G,dpup:h0.4,leftx:-a2~,lefty:+a3,").unwrap();
    assert_eq!(m.apply(RawCode::HatMoved(0, 4)), Some(EventKind::ButtonPressed(Button::DPadUp)));
    assert_eq!(m.apply(RawCode::HatMoved(0, 0)), Some(EventKind::ButtonReleased(Button::DPadUp)));
    // Negative half keeps only values at or below rest, then the inversion
    // flips the sign.
    assert_eq!(
        m.apply(RawCode::AxisValue(2, -100)),
        Some(EventKind::AxisChanged(Axis::LeftStickX, 100))
    );
    assert_eq!(
        m.apply(RawCode::AxisValue(2, 50)),
        Some(EventKind::AxisChanged(Axis::LeftStickX, 0))
    );
    // Positive half keeps only values at or above rest.
    assert_eq!(
        m.apply(RawCode::AxisValue(3, -50)),
        Some(EventKind::AxisChanged(Axis::LeftStickY, 0))
    );
    assert_eq!(
        m.apply(RawCode::AxisValue(3, 70)),
        Some(EventKind::AxisChanged(Axis::LeftStickY, 70))
    );
}

#[test]
fn parse_rejects_malformed_values() {
    assert!(matches!(MappingData::parse("0300,Name,a:bX,"), Err(MappingError::Parse(2))));
    assert!(matches!(MappingData::parse("0300,Name,a:b0,b:,"), Err(MappingError::Parse(3))));
    assert!(matches!(MappingData::parse("0300,Name,leftx:a99999,"), Err(MappingError::Parse(2))));
    assert!(matches!(MappingData::parse(""), Err(MappingError::Parse(0))));
    assert!(matches!(MappingData::parse("not hex!,Name,"), Err(MappingError::Parse(0))));
}

#[test]
fn parse_skips_unknown_keys() {
    let m = MappingData::parse("0300,Generic,a:b0,platform:Linux,crc:4f12,").unwrap();
    assert_eq!(m.apply(RawCode::ButtonPress(0)), Some(EventKind::ButtonPressed(Button::South)));
    assert_eq!(m.serialize(), "0300,Generic,a:b0,");
}

#[test]
fn serialize_parse_round_trip() {
    let m = MappingData::parse("0300,G,dpup:h0.4,leftx:-a2~,lefty:+a3,b:b1,").unwrap();
    let out = m.serialize();
    assert_eq!(out, "0300,G,dpup:h0.4,leftx:-a2~,lefty:+a3,b:b1,");
    let m2 = MappingData::parse(&out).unwrap();
    assert_eq!(m2.serialize(), out);
}

#[test]
fn strict_mapping_needs_every_control() {
    let partial = MappingData::parse(GENERIC).unwrap();
    assert!(!partial.is_complete());
    let full = MappingData::parse(FULL).unwrap();
    assert!(full.is_complete());
}

#[test]
fn strict_set_mapping_incomplete_leaves_mapping_alone() {
    let mut g =
        Gilrs::build(GilrsConfig { update_state: true, backend: Backend::Injected }).unwrap();
    g.push_raw(RawEvent::Connect(0, device_info()));
    assert!(g.next_event().is_some());
    let m = MappingData::parse(GENERIC).unwrap();
    let pad = g.gamepad_mut(0);
    assert_eq!(pad.set_mapping(&m, true, None), Err(MappingError::Incomplete));
    assert_eq!(pad.mapping_source(), MappingSource::NotSet);
    assert_eq!(pad.set_mapping(&m, false, Some("renamed")).unwrap(), "renamed");
    assert_eq!(pad.mapping_source(), MappingSource::SdlMapping);
    let full = MappingData::parse(FULL).unwrap();
    assert_eq!(pad.set_mapping(&full, true, None).unwrap(), "pad");
}

#[test]
fn context_translates_and_commits() {
    let mut g =
        Gilrs::build(GilrsConfig { update_state: true, backend: Backend::Injected }).unwrap();
    let mut info = device_info();
    info.driver_mapping = Some(MappingData::parse(GENERIC).unwrap());
    g.inc();
    g.push_raw(RawEvent::Connect(0, info));
    let (id, ev) = g.next_event().unwrap();
    assert_eq!(id, 0);
    assert_eq!(ev.kind, EventKind::Connected);
    assert_eq!(ev.time, 1);
    assert_eq!(g.gamepad(0).mapping_source(), MappingSource::Driver);
    assert_eq!(g.gamepad(0).name(), "pad");
    assert_eq!(g.gamepad(0).power_info(), PowerInfo::Wired);
    assert_eq!(g.gamepad(0).uuid(), uuid::Uuid::from_u128(0x10002));
    assert_eq!(g.last_gamepad_hint(), 1);
    assert_eq!(g.gamepads(), vec![0]);

    g.push_raw(RawEvent::Report(0, RawCode::ButtonPress(0)));
    g.push_raw(RawEvent::Report(0, RawCode::ButtonPress(9)));
    g.push_raw(RawEvent::Report(0, RawCode::AxisValue(0, -7)));
    let (_, ev) = g.next_event().unwrap();
    assert_eq!(ev.kind, EventKind::ButtonPressed(Button::South));
    assert_eq!(g.gamepad(0).button_value(Button::South), i16::MAX);
    // The unmapped button-9 report is dropped silently; the axis one follows.
    let (_, ev) = g.next_event().unwrap();
    assert_eq!(ev.kind, EventKind::AxisChanged(Axis::LeftStickX, -7));
    assert_eq!(g.gamepad(0).axis_value(Axis::LeftStickX), -7);
    assert!(g.next_event().is_none());
}

#[test]
fn update_commits_when_asked() {
    let mut g =
        Gilrs::build(GilrsConfig { update_state: false, backend: Backend::Injected }).unwrap();
    let mut info = device_info();
    info.driver_mapping = Some(MappingData::parse(GENERIC).unwrap());
    g.push_raw(RawEvent::Connect(0, info));
    assert!(g.next_event().is_some());
    g.push_raw(RawEvent::Report(0, RawCode::ButtonPress(0)));
    let (id, ev) = g.next_event().unwrap();
    assert_eq!(ev.kind, EventKind::ButtonPressed(Button::South));
    // Without update_state the device still reads released.
    assert_eq!(g.gamepad(0).button_value(Button::South), 0);
    g.update(id, ev);
    assert_eq!(g.gamepad(0).button_value(Button::South), i16::MAX);
}

#[test]
fn reconnect_needs_disconnect_first() {
    let mut g =
        Gilrs::build(GilrsConfig { update_state: true, backend: Backend::Injected }).unwrap();
    g.push_raw(RawEvent::Connect(0, device_info()));
    assert!(g.next_event().is_some());
    assert_eq!(g.gamepad(0).status(), Status::Connected);
    // A second connect for a connected device is platform noise: dropped.
    g.push_raw(RawEvent::Connect(0, device_info()));
    assert!(g.next_event().is_none());
    g.push_raw(RawEvent::Disconnect(0));
    let (_, ev) = g.next_event().unwrap();
    assert_eq!(ev.kind, EventKind::Disconnected);
    assert_eq!(g.gamepad(0).status(), Status::Disconnected);
    // Ids stay assigned while disconnected.
    assert_eq!(g.last_gamepad_hint(), 1);
    g.push_raw(RawEvent::Connect(0, device_info()));
    let (_, ev) = g.next_event().unwrap();
    assert_eq!(ev.kind, EventKind::Connected);
    assert_eq!(g.gamepad(0).status(), Status::Connected);
}

#[test]
fn ff_gain_on_capable_device() {
    let mut g =
        Gilrs::build(GilrsConfig { update_state: true, backend: Backend::Injected }).unwrap();
    g.push_raw(RawEvent::Connect(0, device_info()));
    assert!(g.next_event().is_some());
    let pad = g.gamepad_mut(0);
    assert!(pad.is_ff_supported());
    assert_eq!(pad.max_ff_effects(), 4);
    assert_eq!(pad.set_ff_gain(12345), Ok(()));
    assert_eq!(pad.ff_gain(), 12345);
}

#[test]
fn repeat_filter_dedups_identical_events() {
    let mut f = Repeat::new(2);
    let e1 = Event { kind: EventKind::ButtonPressed(Button::South), time: 5 };
    let e2 = Event { kind: EventKind::ButtonPressed(Button::South), time: 6 };
    assert_eq!(f.filter(0, e1), Some(e1));
    assert_eq!(f.filter(0, e2), None);
    // Outside the window the same event passes again.
    let e3 = Event { kind: EventKind::ButtonPressed(Button::South), time: 7 };
    assert_eq!(f.filter(0, e3), Some(e3));
}

#[test]
fn repeat_filter_passes_differing_values() {
    let mut f = Repeat::new(10);
    let e1 = Event { kind: EventKind::AxisChanged(Axis::LeftStickX, 10), time: 1 };
    let e2 = Event { kind: EventKind::AxisChanged(Axis::LeftStickX, 11), time: 1 };
    assert_eq!(f.filter(0, e1), Some(e1));
    assert_eq!(f.filter(0, e2), Some(e2));
    // Another device is tracked separately.
    assert_eq!(f.filter(1, e1), Some(e1));
}

#[test]
fn repeat_filter_never_drops_connection_events() {
    let mut f = Repeat::new(100);
    let e = Event { kind: EventKind::Connected, time: 0 };
    assert_eq!(f.filter(0, e), Some(e));
    assert_eq!(f.filter(0, e), Some(e));
    let d = Event { kind: EventKind::Disconnected, time: 0 };
    assert_eq!(f.filter(0, d), Some(d));
    assert_eq!(f.filter(0, d), Some(d));
}

#[test]
fn deadzone_flattens_small_motion() {
    let dz = Deadzone::new(100);
    let small = Event { kind: EventKind::AxisChanged(Axis::LeftZ, 50), time: 0 };
    let big = Event { kind: EventKind::AxisChanged(Axis::LeftZ, 150), time: 0 };
    assert_eq!(dz.filter(small).kind, EventKind::AxisChanged(Axis::LeftZ, 0));
    assert_eq!(dz.filter(big).kind, EventKind::AxisChanged(Axis::LeftZ, 150));
    let press = Event { kind: EventKind::ButtonPressed(Button::South), time: 0 };
    assert_eq!(dz.filter(press), press);
}

#[test]
fn filters_compose_sequentially() {
    let mut pipeline =
        vec![EventFilter::Deadzone(Deadzone::new(100)), EventFilter::Repeat(Repeat::new(10))];
    let small1 = Event { kind: EventKind::AxisChanged(Axis::LeftZ, 3), time: 0 };
    let small2 = Event { kind: EventKind::AxisChanged(Axis::LeftZ, 4), time: 1 };
    let mut run = |ev: Event| -> Option<Event> {
        let mut cur = Some(ev);
        for f in pipeline.iter_mut() {
            match cur {
                Some(e) => cur = f.filter(0, e),
                None => return None,
            }
        }
        cur
    };
    // The deadzone flattens both to the same rest event, and the repeat
    // filter then drops the duplicate.
    assert!(run(small1).is_some());
    assert!(run(small2).is_none());
}

#[test]
fn drain_events_snapshots_the_stream() {
    let mut g =
        Gilrs::build(GilrsConfig { update_state: true, backend: Backend::Injected }).unwrap();
    let mut info = device_info();
    info.driver_mapping = Some(MappingData::parse(GENERIC).unwrap());
    g.push_raw(RawEvent::Connect(0, info));
    g.push_raw(RawEvent::Report(0, RawCode::ButtonPress(0)));
    g.push_raw(RawEvent::Report(0, RawCode::ButtonPress(9)));
    g.push_raw(RawEvent::Disconnect(0));
    let mut it = g.drain_events();
    assert_eq!(it.next().unwrap().1.kind, EventKind::Connected);
    assert_eq!(it.next().unwrap().1.kind, EventKind::ButtonPressed(Button::South));
    assert_eq!(it.next().unwrap().1.kind, EventKind::Disconnected);
    assert!(it.next().is_none());
    assert!(g.next_event().is_none());
    it.restart();
    assert_eq!(it.next().unwrap().1.kind, EventKind::Connected);
}

#[test]
fn sentinel_gamepad_is_none() {
    let pad = Gamepad::none();
    assert_eq!(pad.status(), Status::NotObserved);
    assert_eq!(pad.name(), "");
    assert_eq!(pad.uuid(), uuid::Uuid::nil());
    assert_eq!(pad.power_info(), PowerInfo::Unknown);
}

#[test]
fn power_info_refreshes_on_poll_only() {
    let mut g =
        Gilrs::build(GilrsConfig { update_state: true, backend: Backend::Injected }).unwrap();
    g.push_raw(RawEvent::Connect(0, device_info()));
    assert!(g.next_event().is_some());
    assert_eq!(g.gamepad(0).power_info(), PowerInfo::Wired);
    g.gamepad_mut(0).refresh_power_info(PowerInfo::Discharging(80));
    assert_eq!(g.gamepad(0).power_info(), PowerInfo::Discharging(80));
    // The sentinel of a backend-less context never learns a power state.
    let mut bare = Gilrs::new();
    bare.gamepad_mut(7).refresh_power_info(PowerInfo::Charging(10));
    assert_eq!(bare.gamepad(7).power_info(), PowerInfo::Unknown);
}

#[test]
fn native_code_bounds() {
    let m = MappingData::parse("0300,G,a:b65535,").unwrap();
    assert_eq!(
        m.apply(RawCode::ButtonPress(65535)),
        Some(EventKind::ButtonPressed(Button::South))
    );
    assert!(matches!(MappingData::parse("0300,G,a:b65536,"), Err(MappingError::Parse(2))));
    // Leading zeros are read, and the canonical form drops them.
    let padded = MappingData::parse("0300,G,a:b007,").unwrap();
    assert_eq!(padded.serialize(), "0300,G,a:b7,");
}

#[test]
fn unknown_identity_gives_nil_uuid() {
    let mut info = device_info();
    info.vendor_id = 0;
    info.product_id = 0;
    let pad = Gamepad::from_info(info);
    assert_eq!(pad.uuid(), uuid::Uuid::nil());
    assert_eq!(pad.status(), Status::Connected);
}

#[test]
fn empty_mapping_serializes_to_bare_header() {
    let m = MappingData::empty();
    assert_eq!(m.serialize(), "0,,");
    let again = MappingData::parse(&m.serialize()).unwrap();
    assert_eq!(again.serialize(), "0,,");
}

#[test]
fn sentinel_status_is_terminal() {
    let mut g = Gilrs::new();
    let pad = g.gamepad_mut(5);
    // Neither a disconnect nor a connect event moves the sentinel.
    pad.disconnect();
    assert_eq!(pad.status(), Status::NotObserved);
    pad.commit(EventKind::Connected);
    assert_eq!(pad.status(), Status::NotObserved);
    pad.commit(EventKind::ButtonPressed(Button::South));
    assert_eq!(pad.button_value(Button::South), 0);
    let m = MappingData::parse(GENERIC).unwrap();
    assert_eq!(pad.set_mapping(&m, false, None), Err(MappingError::NotImplemented));
    assert_eq!(pad.mapping_source(), MappingSource::NotSet);
}

#[test]
fn reconnect_event_resets_control_state() {
    let mut g =
        Gilrs::build(GilrsConfig { update_state: true, backend: Backend::Injected }).unwrap();
    let mut info = device_info();
    info.driver_mapping = Some(MappingData::parse(GENERIC).unwrap());
    g.push_raw(RawEvent::Connect(0, info));
    g.push_raw(RawEvent::Report(0, RawCode::ButtonPress(0)));
    g.push_raw(RawEvent::Disconnect(0));
    while g.next_event().is_some() {}
    assert_eq!(g.gamepad(0).button_value(Button::South), i16::MAX);
    // Committing the connect transition puts every control back at rest.
    g.update(0, Event { kind: EventKind::Connected, time: 9 });
    assert_eq!(g.gamepad(0).status(), Status::Connected);
    assert_eq!(g.gamepad(0).button_value(Button::South), 0);
}
