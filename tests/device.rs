use vitaoxipad::buttons::{
    compute_dpad_direction, dpad_direction_to_axis_values, get_pressed_buttons, map_button_to_ds4,
    Button, ButtonSet, ButtonsData, DpadDirection, TriggerConfig,
};
use vitaoxipad::config::{Config, Preset, TouchConfig, TouchpadSource};
use vitaoxipad::device::{
    create_motion_events, create_stick_events, process_touch_reports, Error, VitaDevice,
};
use vitaoxipad::events::{
    InputEvent, ABS_HAT0X, ABS_HAT0Y, ABS_MT_POSITION_X, ABS_MT_POSITION_Y, ABS_MT_PRESSURE,
    ABS_MT_SLOT, ABS_MT_TRACKING_ID, ABS_RX, ABS_RY, ABS_RZ, ABS_X, ABS_Y, ABS_Z, BTN_EAST,
    BTN_SOUTH, BTN_THUMBL, BTN_THUMBR, BTN_TL2, BTN_TOOL_FINGER, BTN_TOUCH, BTN_TR2, EV_ABS,
    EV_KEY, EV_SYN,
};
use vitaoxipad::report::{MainReport, MotionSample, TouchPoint};
use vitaoxipad::touch::{Point, TouchAction, TouchZone, ZoneIndex};

fn no_buttons() -> ButtonsData {
    ButtonsData {
        up: false,
        down: false,
        left: false,
        right: false,
        cross: false,
        circle: false,
        square: false,
        triangle: false,
        start: false,
        select: false,
        lt: false,
        rt: false,
        ps: false,
        vol_up: false,
        vol_down: false,
    }
}

fn still() -> MotionSample {
    MotionSample { accel_x: 0, accel_y: 0, accel_z: 0, gyro_x: 0, gyro_y: 0, gyro_z: 0 }
}

fn report(timestamp: u64, buttons: ButtonsData) -> MainReport {
    MainReport {
        timestamp,
        buttons,
        lx: 128,
        ly: 128,
        rx: 128,
        ry: 128,
        motion: still(),
        front_touch: Vec::new(),
        back_touch: Vec::new(),
        charge_percent: 50,
    }
}

fn key(code: u16, value: i32) -> InputEvent {
    InputEvent { kind: EV_KEY, code, value }
}

fn abs(code: u16, value: i32) -> InputEvent {
    InputEvent { kind: EV_ABS, code, value }
}

fn syn() -> InputEvent {
    InputEvent { kind: EV_SYN, code: 0, value: 0 }
}

fn sticks(v: i32) -> Vec<InputEvent> {
    vec![abs(ABS_X, v), abs(ABS_Y, v), abs(ABS_RX, v), abs(ABS_RY, v)]
}

fn touch(id: u8, x: u16, y: u16, force: u8) -> TouchPoint {
    TouchPoint { id, x, y, force }
}

fn device(name: &str) -> VitaDevice {
    match VitaDevice::create(name) {
        Ok(d) => d,
        Err(_) => panic!("preset {} is missing", name),
    }
}

#[test]
fn button_edge_press_then_release() {
    let mut dev = device("standart");
    let mut b = no_buttons();
    b.cross = true;
    let first = dev.send_report(report(1, b));
    let mut expected = vec![key(BTN_SOUTH, 1)];
    expected.extend(sticks(128));
    expected.push(syn());
    assert_eq!(first.main, expected);

    let second = dev.send_report(report(2, no_buttons()));
    let mut expected = vec![key(BTN_SOUTH, 0)];
    expected.extend(sticks(128));
    expected.push(syn());
    assert_eq!(second.main, expected);
}

#[test]
fn held_button_is_not_pressed_again() {
    let mut dev = device("standart");
    let mut b = no_buttons();
    b.circle = true;
    let first = dev.send_report(report(1, b));
    assert_eq!(first.main[0], key(BTN_EAST, 1));
    let second = dev.send_report(report(2, b));
    let mut expected = sticks(128);
    expected.push(syn());
    assert_eq!(second.main, expected);
}

#[test]
fn dpad_diagonal_emits_hat_once() {
    let mut dev = device("standart");
    let mut b = no_buttons();
    b.up = true;
    b.left = true;
    let first = dev.send_report(report(10, b));
    let mut expected = vec![abs(ABS_HAT0X, -1), abs(ABS_HAT0Y, -1)];
    expected.extend(sticks(128));
    expected.push(syn());
    assert_eq!(first.main, expected);
    let second = dev.send_report(report(11, b));
    let mut expected = sticks(128);
    expected.push(syn());
    assert_eq!(second.main, expected);
}

#[test]
fn timestamp_regression_is_dropped() {
    let mut dev = device("standart");
    let mut b = no_buttons();
    b.square = true;
    let first = dev.send_report(report(100, b));
    assert!(!first.main.is_empty());
    assert!(!first.sensor.is_empty());
    let second = dev.send_report(report(99, no_buttons()));
    assert!(second.main.is_empty());
    assert!(second.touchpad.is_empty());
    assert!(second.sensor.is_empty());
    let equal = dev.send_report(report(100, no_buttons()));
    assert!(equal.main.is_empty());
    // The square stays held: the dropped reports changed nothing.
    let third = dev.send_report(report(101, b));
    let mut expected = sticks(128);
    expected.push(syn());
    assert_eq!(third.main, expected);
}

#[test]
fn touch_lift_releases_slot() {
    let mut dev = device("front_touchpad");
    let mut a = report(1, no_buttons());
    a.front_touch = vec![touch(7, 100, 200, 30), touch(8, 900, 300, 40)];
    let first = dev.send_report(a);
    let expected_first = vec![
        abs(ABS_MT_SLOT, 0),
        abs(ABS_MT_TRACKING_ID, 7),
        abs(ABS_MT_POSITION_X, 100),
        abs(ABS_MT_POSITION_Y, 200),
        abs(ABS_MT_PRESSURE, 30),
        abs(ABS_MT_SLOT, 1),
        abs(ABS_MT_TRACKING_ID, 8),
        abs(ABS_MT_POSITION_X, 900),
        abs(ABS_MT_POSITION_Y, 300),
        abs(ABS_MT_PRESSURE, 40),
        key(BTN_TOUCH, 1),
        key(BTN_TOOL_FINGER, 1),
        syn(),
    ];
    assert_eq!(first.touchpad, expected_first);

    let mut b = report(2, no_buttons());
    b.front_touch = vec![touch(7, 110, 210, 30)];
    let second = dev.send_report(b);
    let expected_second = vec![
        abs(ABS_MT_SLOT, 1),
        abs(ABS_MT_TRACKING_ID, -1),
        abs(ABS_MT_SLOT, 0),
        abs(ABS_MT_TRACKING_ID, 7),
        abs(ABS_MT_POSITION_X, 110),
        abs(ABS_MT_POSITION_Y, 210),
        abs(ABS_MT_PRESSURE, 30),
        syn(),
    ];
    assert_eq!(second.touchpad, expected_second);

    let third = dev.send_report(report(3, no_buttons()));
    let expected_third = vec![
        abs(ABS_MT_SLOT, 0),
        abs(ABS_MT_TRACKING_ID, -1),
        key(BTN_TOUCH, 0),
        key(BTN_TOOL_FINGER, 0),
        syn(),
    ];
    assert_eq!(third.touchpad, expected_third);
}

#[test]
fn touches_beyond_the_slots_are_ignored() {
    let mut dev = device("rear_touchpad");
    let mut a = report(1, no_buttons());
    a.back_touch = (0..6).map(|i| touch(i, 10, 10, 0)).collect();
    let frames = dev.send_report(a);
    // Four slots of five events each, no finger button since no force, then a boundary.
    assert_eq!(frames.touchpad.len(), 4 * 5 + 1);
    assert_eq!(frames.touchpad[15], abs(ABS_MT_SLOT, 3));
}

#[test]
fn zone_maps_front_touch_to_thumb_buttons() {
    let mut dev = device("standart");
    let mut a = report(1, no_buttons());
    a.front_touch = vec![touch(1, 100, 500, 10)];
    let first = dev.send_report(a);
    assert_eq!(first.main[0], key(BTN_THUMBL, 1));
    assert!(first.touchpad.is_empty());

    let mut b = report(2, no_buttons());
    b.front_touch = vec![touch(1, 1800, 500, 10)];
    let second = dev.send_report(b);
    assert_eq!(second.main[0], key(BTN_THUMBR, 1));
    assert_eq!(second.main[1], key(BTN_THUMBL, 0));
}

#[test]
fn rear_zones_of_standart_act_as_l2_r2() {
    let mut dev = device("standart");
    let mut a = report(1, no_buttons());
    a.back_touch = vec![touch(1, 10, 10, 10), touch(2, 1900, 800, 10)];
    let frames = dev.send_report(a);
    assert!(frames.main.contains(&key(BTN_TR2, 1)));
    assert!(frames.main.contains(&key(BTN_TL2, 1)));
}

#[test]
fn motion_axes_are_permuted_into_slots() {
    let mut dev = device("standart");
    let mut a = report(1, no_buttons());
    a.motion = MotionSample { accel_x: 1, accel_y: 2, accel_z: 3, gyro_x: 4, gyro_y: 5, gyro_z: 6 };
    let frames = dev.send_report(a);
    let expected = vec![
        abs(ABS_X, 1),
        abs(ABS_Y, 3),
        abs(ABS_Z, 2),
        abs(ABS_RX, 4),
        abs(ABS_RY, 6),
        abs(ABS_RZ, 5),
        syn(),
    ];
    assert_eq!(frames.sensor, expected);
}

#[test]
fn motion_and_stick_event_lists() {
    let mut a = report(1, no_buttons());
    a.lx = 0;
    a.ly = 255;
    a.rx = 7;
    a.ry = 9;
    a.motion = MotionSample {
        accel_x: -32768,
        accel_y: 32767,
        accel_z: 0,
        gyro_x: -1,
        gyro_y: 1,
        gyro_z: 2,
    };
    assert_eq!(
        create_stick_events(&a),
        vec![abs(ABS_X, 0), abs(ABS_Y, 255), abs(ABS_RX, 7), abs(ABS_RY, 9)]
    );
    assert_eq!(
        create_motion_events(&a),
        vec![
            abs(ABS_X, -32768),
            abs(ABS_Y, 0),
            abs(ABS_Z, 32767),
            abs(ABS_RX, -1),
            abs(ABS_RY, 2),
            abs(ABS_RZ, 1)
        ]
    );
}

#[test]
fn unknown_preset_is_refused() {
    match VitaDevice::create("nope") {
        Err(Error::InvalidConfig(name)) => assert_eq!(name, "nope"),
        Ok(_) => panic!("an unknown preset was accepted"),
    }
    assert!(VitaDevice::create("Standart").is_err());
    assert!(VitaDevice::create("").is_err());
}

#[test]
fn preset_names() {
    assert_eq!(Preset::from_name("standart"), Some(Preset::Standart));
    assert_eq!(Preset::from_name("alt_triggers"), Some(Preset::AltTriggers));
    assert_eq!(Preset::from_name("rear_touchpad"), Some(Preset::RearTouchpad));
    assert_eq!(Preset::from_name("front_touchpad"), Some(Preset::FrontTouchpad));
    assert_eq!(Preset::from_name("front_touchpad "), None);
}

#[test]
fn presets_fix_triggers_and_sources() {
    let s = Config::rear_rl2_front_rl3();
    assert_eq!(s.trigger_config, TriggerConfig::Trigger);
    assert_eq!(s.touchpad_source, None);
    let a = Config::rear_rl1_front_rl3_vitatriggers_rl2();
    assert_eq!(a.trigger_config, TriggerConfig::Shoulder);
    let r = Config::front_top_rl2_bottom_rl3_rear_touchpad();
    assert_eq!(r.touchpad_source, Some(TouchpadSource::Rear));
    assert!(matches!(r.rear_touch_config, Some(TouchConfig::Touchpad)));
    let f = Config::rear_top_rl2_bottom_rl3_front_touchpad();
    assert_eq!(f.touchpad_source, Some(TouchpadSource::Front));
    assert!(matches!(f.front_touch_config, Some(TouchConfig::Touchpad)));
    let d = Config::default();
    assert_eq!(d.trigger_config, TriggerConfig::Shoulder);
    assert!(d.rear_touch_config.is_none());
}

#[test]
fn quadrants_of_rear_touchpad_preset() {
    let cfg = Config::front_top_rl2_bottom_rl3_rear_touchpad();
    let touches = vec![
        touch(0, 10, 10, 1),
        touch(1, 1900, 10, 1),
        touch(2, 10, 1000, 1),
        touch(3, 1900, 1000, 1),
    ];
    let actions = process_touch_reports(&touches, &cfg.front_touch_config);
    assert_eq!(
        actions,
        vec![
            TouchAction::Button(Button::ShoulderLeft),
            TouchAction::Button(Button::ShoulderRight),
            TouchAction::Button(Button::ThumbLeft),
            TouchAction::Button(Button::ThumbRight),
        ]
    );
    assert!(process_touch_reports(&touches, &cfg.rear_touch_config).is_empty());
}

#[test]
fn zone_index_locates_points() {
    let zones = vec![
        TouchZone::new((Point(0, 0), Point(10, 10)), Some(TouchAction::Dpad(DpadDirection::North))),
        TouchZone::new((Point(30, 30), Point(20, 20)), None),
    ];
    let ix = ZoneIndex::zones(zones);
    let z = ix.locate_at_point(&Point(5, 5)).unwrap();
    assert_eq!(z.action, Some(TouchAction::Dpad(DpadDirection::North)));
    let z = ix.locate_at_point(&Point(25, 21)).unwrap();
    assert_eq!(z.lower, Point(20, 20));
    assert_eq!(z.upper, Point(30, 30));
    assert_eq!(z.action, None);
    assert!(ix.locate_at_point(&Point(15, 15)).is_none());
    assert!(ix.locate_at_point(&Point(10, 10)).is_some());
    assert_eq!(Point(3, 4).x(), 3);
    assert_eq!(Point(3, 4).y(), 4);
}

#[test]
fn dpad_zone_overrides_hat() {
    let zones = vec![TouchZone::new(
        (Point(0, 0), Point(1920, 1087)),
        Some(TouchAction::Dpad(DpadDirection::SouthEast)),
    )];
    let mut cfg = Config::default();
    cfg.front_touch_config = Some(TouchConfig::zones(zones));
    let mut dev = VitaDevice::new(cfg);
    let mut a = report(1, no_buttons());
    a.front_touch = vec![touch(0, 5, 5, 1)];
    let frames = dev.send_report(a);
    assert_eq!(frames.main[0], abs(ABS_HAT0X, 1));
    assert_eq!(frames.main[1], abs(ABS_HAT0Y, 1));
}

#[test]
fn dpad_truth_table() {
    let dir = |u, d, l, r| {
        let mut b = no_buttons();
        b.up = u;
        b.down = d;
        b.left = l;
        b.right = r;
        compute_dpad_direction(&b)
    };
    assert_eq!(dir(true, false, false, false), DpadDirection::North);
    assert_eq!(dir(true, false, false, true), DpadDirection::NorthEast);
    assert_eq!(dir(false, false, false, true), DpadDirection::East);
    assert_eq!(dir(false, true, false, true), DpadDirection::SouthEast);
    assert_eq!(dir(false, true, false, false), DpadDirection::South);
    assert_eq!(dir(false, true, true, false), DpadDirection::SouthWest);
    assert_eq!(dir(false, false, true, false), DpadDirection::West);
    assert_eq!(dir(true, false, true, false), DpadDirection::NorthWest);
    assert_eq!(dir(true, true, false, false), DpadDirection::Neutral);
    assert_eq!(dir(false, false, true, true), DpadDirection::Neutral);
    assert_eq!(dir(false, false, false, false), DpadDirection::Neutral);
    assert_eq!(dpad_direction_to_axis_values(DpadDirection::NorthWest), (-1, -1));
    assert_eq!(dpad_direction_to_axis_values(DpadDirection::SouthEast), (1, 1));
    assert_eq!(dpad_direction_to_axis_values(DpadDirection::Neutral), (0, 0));
}

#[test]
fn pressed_buttons_follow_trigger_config() {
    let mut b = no_buttons();
    b.lt = true;
    b.rt = true;
    b.circle = true;
    b.select = true;
    assert_eq!(
        get_pressed_buttons(&b, TriggerConfig::Shoulder),
        vec![Button::Circle, Button::Share, Button::ShoulderLeft, Button::ShoulderRight]
    );
    assert_eq!(
        get_pressed_buttons(&b, TriggerConfig::Trigger),
        vec![Button::Circle, Button::Share, Button::TriggerLeft, Button::TriggerRight]
    );
    assert_eq!(TriggerConfig::default(), TriggerConfig::Shoulder);
}

#[test]
fn ds4_key_table() {
    assert_eq!(map_button_to_ds4(Button::ThumbRight), 0x13e);
    assert_eq!(map_button_to_ds4(Button::ThumbLeft), 0x13d);
    assert_eq!(map_button_to_ds4(Button::Options), 0x13b);
    assert_eq!(map_button_to_ds4(Button::Share), 0x13a);
    assert_eq!(map_button_to_ds4(Button::TriggerRight), 0x137);
    assert_eq!(map_button_to_ds4(Button::TriggerLeft), 0x136);
    assert_eq!(map_button_to_ds4(Button::ShoulderRight), 0x139);
    assert_eq!(map_button_to_ds4(Button::ShoulderLeft), 0x138);
    assert_eq!(map_button_to_ds4(Button::Triangle), 0x133);
    assert_eq!(map_button_to_ds4(Button::Circle), 0x131);
    assert_eq!(map_button_to_ds4(Button::Cross), 0x130);
    assert_eq!(map_button_to_ds4(Button::Square), 0x134);
}

#[test]
fn button_set_membership() {
    let mut s = ButtonSet::new();
    assert!(!s.contains(Button::Cross));
    s.insert(Button::Cross);
    s.insert(Button::Cross);
    assert!(s.contains(Button::Cross));
    assert!(!s.contains(Button::Square));
}

#[test]
fn slot_with_changed_id_is_lifted_first() {
    let mut dev = device("front_touchpad");
    let mut a = report(1, no_buttons());
    a.front_touch = vec![touch(3, 1, 1, 1)];
    dev.send_report(a);
    let mut b = report(2, no_buttons());
    b.front_touch = vec![touch(4, 1, 1, 1)];
    let frames = dev.send_report(b);
    let expected = vec![
        abs(ABS_MT_SLOT, 0),
        abs(ABS_MT_TRACKING_ID, -1),
        abs(ABS_MT_SLOT, 0),
        abs(ABS_MT_TRACKING_ID, 4),
        abs(ABS_MT_POSITION_X, 1),
        abs(ABS_MT_POSITION_Y, 1),
        abs(ABS_MT_PRESSURE, 1),
        syn(),
    ];
    assert_eq!(frames.touchpad, expected);
}
