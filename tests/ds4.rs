use vitaoxipad::buttons::{Button, ButtonsData, DpadDirection, TriggerConfig};
use vitaoxipad::config::{Config, TouchConfig};
use vitaoxipad::device::{Error, VitaDevice};
use vitaoxipad::ds4::{
    map_button_to_ds4, map_dpad_direction_to_ds4, Ds4Device, Ds4Touch, DS4_CROSS,
    DS4_SHOULDER_LEFT, DS4_SPECIAL_TOUCHPAD, DS4_THUMB_LEFT, DS4_TRIGGER_LEFT,
    DS4_TRIGGER_RIGHT,
};
use vitaoxipad::events::{InputEvent, BTN_SOUTH, EV_KEY};
use vitaoxipad::report::{MainReport, MotionSample, TouchPoint};

fn idle() -> ButtonsData {
    ButtonsData {
        up: false,
        down: false,
        left: false,
        right: false,
        cross: false,
        circle: false,
        square: false,
        triangle: false,
        start: false,
        select: false,
        lt: false,
        rt: false,
        ps: false,
        vol_up: false,
        vol_down: false,
    }
}

fn report(timestamp: u64, buttons: ButtonsData) -> MainReport {
    MainReport {
        timestamp,
        buttons,
        lx: 10,
        ly: 20,
        rx: 30,
        ry: 40,
        motion: MotionSample { accel_x: 1, accel_y: 2, accel_z: 3, gyro_x: 4, gyro_y: 5, gyro_z: 6 },
        front_touch: Vec::new(),
        back_touch: Vec::new(),
        charge_percent: 100,
    }
}

fn ds4(name: &str) -> Ds4Device {
    match Ds4Device::create(name) {
        Ok(d) => d,
        Err(_) => panic!("preset {} is missing", name),
    }
}

#[test]
fn ds4_buttons_dpad_and_triggers() {
    let mut dev = ds4("standart");
    let mut b = idle();
    b.cross = true;
    b.lt = true;
    b.up = true;
    b.right = true;
    let r = dev.send_report(report(1, b), 0).unwrap();
    assert_eq!(r.buttons, 1 | DS4_CROSS | DS4_TRIGGER_LEFT);
    assert_eq!(r.trigger_l, 255);
    assert_eq!(r.trigger_r, 0);
    assert_eq!((r.thumb_lx, r.thumb_ly, r.thumb_rx, r.thumb_ry), (10, 20, 30, 40));
    assert_eq!(r.battery_level, 10);
    assert!(!r.has_touch_report);
    assert_eq!(r.special, 0);
}

#[test]
fn ds4_alt_triggers_use_shoulders() {
    let mut dev = ds4("alt_triggers");
    let mut b = idle();
    b.lt = true;
    let r = dev.send_report(report(1, b), 0).unwrap();
    assert_eq!(r.buttons, 8 | DS4_SHOULDER_LEFT);
    assert_eq!(r.trigger_l, 0);
}

#[test]
fn ds4_zone_touch_and_battery() {
    let mut dev = ds4("standart");
    let mut a = report(1, idle());
    a.front_touch = vec![TouchPoint { id: 0, x: 100, y: 500, force: 9 }];
    a.back_touch = vec![TouchPoint { id: 1, x: 1800, y: 10, force: 9 }];
    a.charge_percent = 47;
    let r = dev.send_report(a, 0).unwrap();
    assert_eq!(r.buttons, 8 | DS4_THUMB_LEFT | vitaoxipad::ds4::DS4_SHOULDER_RIGHT);
    assert_eq!(r.battery_level, 4);
    assert_eq!(r.trigger_r, 0);
}

#[test]
fn ds4_touchpad_points_are_rescaled() {
    let mut dev = ds4("front_touchpad");
    let mut a = report(1, idle());
    a.front_touch = vec![
        TouchPoint { id: 0, x: 5, y: 1086, force: 1 },
        TouchPoint { id: 1, x: 6, y: 0, force: 1 },
        TouchPoint { id: 2, x: 7, y: 500, force: 1 },
    ];
    let r = dev.send_report(a, 0).unwrap();
    assert!(r.has_touch_report);
    // 1086 * 942 / 1087 = 941.13..., rounded to 941.
    assert_eq!(r.touch_points, vec![Ds4Touch { x: 5, y: 941 }, Ds4Touch { x: 6, y: 0 }]);
}

#[test]
fn ds4_rear_touchpad_scale() {
    let mut dev = ds4("rear_touchpad");
    let mut a = report(1, idle());
    a.back_touch = vec![TouchPoint { id: 0, x: 1, y: 443, force: 1 }];
    let r = dev.send_report(a, 0).unwrap();
    // 443 * 942 / 887 = 470.46..., rounded to 470.
    assert_eq!(r.touch_points, vec![Ds4Touch { x: 1, y: 470 }]);
}

#[test]
fn ds4_short_tap_clicks() {
    let mut dev = ds4("front_touchpad");
    let mut a = report(1, idle());
    a.front_touch = vec![TouchPoint { id: 0, x: 5, y: 5, force: 1 }];
    assert_eq!(dev.send_report(a, 1000).unwrap().special, 0);
    let r = dev.send_report(report(2, idle()), 1100).unwrap();
    assert_eq!(r.special, DS4_SPECIAL_TOUCHPAD);

    let mut b = report(3, idle());
    b.front_touch = vec![TouchPoint { id: 0, x: 5, y: 5, force: 1 }];
    dev.send_report(b, 2000);
    let r = dev.send_report(report(4, idle()), 2150).unwrap();
    assert_eq!(r.special, 0);
}

#[test]
fn ds4_drops_old_timestamps() {
    let mut dev = ds4("standart");
    assert!(dev.send_report(report(5, idle()), 0).is_some());
    assert!(dev.send_report(report(5, idle()), 0).is_none());
    assert!(dev.send_report(report(4, idle()), 0).is_none());
}

#[test]
fn ds4_tables() {
    assert_eq!(map_dpad_direction_to_ds4(DpadDirection::North), 0);
    assert_eq!(map_dpad_direction_to_ds4(DpadDirection::NorthWest), 7);
    assert_eq!(map_dpad_direction_to_ds4(DpadDirection::Neutral), 8);
    assert_eq!(map_button_to_ds4(Button::TriggerRight), DS4_TRIGGER_RIGHT);
    assert_eq!(map_button_to_ds4(Button::ThumbRight), 0x8000);
    assert_eq!(map_button_to_ds4(Button::Square), 0x0010);
    assert!(matches!(Ds4Device::create("x"), Err(Error::InvalidConfig(_))));
}

#[test]
fn builder_changes_only_what_it_sets() {
    let mut dev = match VitaDevice::create("standart") {
        Ok(d) => d,
        Err(_) => panic!("standart is missing"),
    };
    let mut b = Config::builder();
    b.trigger_config = Some(TriggerConfig::Shoulder);
    b.front_touch_config = Some(Some(TouchConfig::touchpad()));
    dev.set_config(b);
    let cfg = dev.get_config();
    assert_eq!(cfg.trigger_config, TriggerConfig::Shoulder);
    assert!(matches!(cfg.front_touch_config, Some(TouchConfig::Touchpad)));
    assert!(matches!(cfg.rear_touch_config, Some(TouchConfig::Zones(_))));
    assert_eq!(cfg.touchpad_source, None);

    let mut r = report(1, idle());
    r.buttons.cross = true;
    let frames = dev.send_report(r);
    assert_eq!(frames.main[0], InputEvent { kind: EV_KEY, code: BTN_SOUTH, value: 1 });
}
