use vstd::prelude::*;
use crate::buttons::{
    button_at, compute_dpad_direction, dpad_of, get_pressed_buttons, pressed_seq, Button,
    ButtonSet, DpadDirection, BUTTON_COUNT, button_from_index,
};
use crate::config::{
    preset_named, Config, Preset, TouchConfig, FRONT_SURFACE_HEIGHT, REAR_SURFACE_HEIGHT,
};
use crate::device::Error;
use vstd::string::StringSliceAdditionalSpecFns;
use crate::device::{process_touch_reports, report_actions, set_of};
use crate::report::{MainReport, MotionSample, TouchPoint};
use crate::touch::TouchAction;

verus! {

pub const DS4_THUMB_RIGHT: u16 = 0x8000;
pub const DS4_THUMB_LEFT: u16 = 0x4000;
pub const DS4_OPTIONS: u16 = 0x2000;
pub const DS4_SHARE: u16 = 0x1000;
pub const DS4_TRIGGER_RIGHT: u16 = 0x0800;
pub const DS4_TRIGGER_LEFT: u16 = 0x0400;
pub const DS4_SHOULDER_RIGHT: u16 = 0x0200;
pub const DS4_SHOULDER_LEFT: u16 = 0x0100;
pub const DS4_TRIANGLE: u16 = 0x0080;
pub const DS4_CIRCLE: u16 = 0x0040;
pub const DS4_CROSS: u16 = 0x0020;
pub const DS4_SQUARE: u16 = 0x0010;

/// Special-button bit of a touchpad click.
pub const DS4_SPECIAL_TOUCHPAD: u8 = 0x02;

/// Height of the DualShock 4 touchpad in its own units.
pub const DS4_TOUCHPAD_HEIGHT: u32 = 942;

/// A tap shorter than this, in milliseconds, clicks the touchpad.
pub const TAP_CLICK_MS: u64 = 150;

/// The DualShock 4 report bit of each button.
pub open spec fn ds4_bit(b: Button) -> u16 {
    match b {
        Button::ThumbRight => DS4_THUMB_RIGHT,
        Button::ThumbLeft => DS4_THUMB_LEFT,
        Button::Options => DS4_OPTIONS,
        Button::Share => DS4_SHARE,
        Button::TriggerRight => DS4_TRIGGER_RIGHT,
        Button::TriggerLeft => DS4_TRIGGER_LEFT,
        Button::ShoulderRight => DS4_SHOULDER_RIGHT,
        Button::ShoulderLeft => DS4_SHOULDER_LEFT,
        Button::Triangle => DS4_TRIANGLE,
        Button::Circle => DS4_CIRCLE,
        Button::Cross => DS4_CROSS,
        Button::Square => DS4_SQUARE,
    }
}

/// Maps a button to its bit in the DualShock 4 report.
pub fn map_button_to_ds4(button: Button) -> (r: u16)
    ensures
        r == ds4_bit(button),
{
    match button {
        Button::ThumbRight => DS4_THUMB_RIGHT,
        Button::ThumbLeft => DS4_THUMB_LEFT,
        Button::Options => DS4_OPTIONS,
        Button::Share => DS4_SHARE,
        Button::TriggerRight => DS4_TRIGGER_RIGHT,
        Button::TriggerLeft => DS4_TRIGGER_LEFT,
        Button::ShoulderRight => DS4_SHOULDER_RIGHT,
        Button::ShoulderLeft => DS4_SHOULDER_LEFT,
        Button::Triangle => DS4_TRIANGLE,
        Button::Circle => DS4_CIRCLE,
        Button::Cross => DS4_CROSS,
        Button::Square => DS4_SQUARE,
    }
}

/// The D-pad code in the low four bits of the DualShock 4 buttons: 0 north, then
/// clockwise, 8 for none.
pub open spec fn dpad_code(d: DpadDirection) -> u16 {
    match d {
        DpadDirection::North => 0,
        DpadDirection::NorthEast => 1,
        DpadDirection::East => 2,
        DpadDirection::SouthEast => 3,
        DpadDirection::South => 4,
        DpadDirection::SouthWest => 5,
        DpadDirection::West => 6,
        DpadDirection::NorthWest => 7,
        DpadDirection::Neutral => 8,
    }
}

/// Maps a D-pad direction to its DualShock 4 code.
pub fn map_dpad_direction_to_ds4(dpad: DpadDirection) -> (r: u16)
    ensures
        r == dpad_code(dpad),
{
    match dpad {
        DpadDirection::North => 0,
        DpadDirection::NorthEast => 1,
        DpadDirection::East => 2,
        DpadDirection::SouthEast => 3,
        DpadDirection::South => 4,
        DpadDirection::SouthWest => 5,
        DpadDirection::West => 6,
        DpadDirection::NorthWest => 7,
        DpadDirection::Neutral => 8,
    }
}

/// The direction after touch actions: the last D-pad action wins.
pub open spec fn fold_dpad(d: DpadDirection, acts: Seq<TouchAction>) -> DpadDirection
    decreases acts.len(),
{
    if acts.len() == 0 {
        d
    } else {
        match acts.last() {
            TouchAction::Dpad(x) => x,
            TouchAction::Button(_) => fold_dpad(d, acts.drop_last()),
        }
    }
}

/// The buttons after touch actions: each button action adds its button.
pub open spec fn fold_buttons(held: Set<Button>, acts: Seq<TouchAction>) -> Set<Button>
    decreases acts.len(),
{
    if acts.len() == 0 {
        held
    } else {
        match acts.last() {
            TouchAction::Button(b) => fold_buttons(held, acts.drop_last()).insert(b),
            TouchAction::Dpad(_) => fold_buttons(held, acts.drop_last()),
        }
    }
}

/// Bits of the buttons among the first `n` of the fixed order that are in `s`.
pub open spec fn mask_of(s: Set<Button>, n: int) -> u16
    decreases n,
{
    if n <= 0 {
        0
    } else {
        mask_of(s, n - 1) | if s.contains(button_at(n - 1)) {
            ds4_bit(button_at(n - 1))
        } else {
            0u16
        }
    }
}

/// A point on the DualShock 4 touchpad.
#[derive(Clone, Copy, Debug, PartialEq, Eq, Structural)]
pub struct Ds4Touch {
    pub x: u16,
    pub y: u16,
}

/// The content of one DualShock 4 input report.
#[derive(Clone, Debug)]
pub struct Ds4Report {
    pub thumb_lx: u8,
    pub thumb_ly: u8,
    pub thumb_rx: u8,
    pub thumb_ry: u8,
    /// Button bits, with the D-pad code in the low four bits.
    pub buttons: u16,
    /// Special-button bits; the touchpad click is the only one set.
    pub special: u8,
    pub trigger_l: u8,
    pub trigger_r: u8,
    /// Whether the report carries a touchpad record.
    pub has_touch_report: bool,
    /// Up to two touchpad points of that record.
    pub touch_points: Vec<Ds4Touch>,
    pub motion: MotionSample,
    /// Charge level in tenths, at most 10.
    pub battery_level: u8,
}

/// A touch rescaled to the DualShock 4 touchpad: x kept, y scaled from a surface of
/// height `h` to the touchpad's height, rounded to the nearest unit.
pub open spec fn ds4_touch(t: TouchPoint, h: int) -> Ds4Touch {
    Ds4Touch { x: t.x, y: ((t.y as int * DS4_TOUCHPAD_HEIGHT + h / 2) / h) as u16 }
}

/// The touchpad points of a list of touches: the first two, rescaled.
pub open spec fn ds4_points(ts: Seq<TouchPoint>, h: int) -> Seq<Ds4Touch> {
    Seq::new(
        if ts.len() < 2 {
            ts.len()
        } else {
            2
        },
        |i: int| ds4_touch(ts[i], h),
    )
}

fn rescale_touch(t: TouchPoint, h: u32) -> (r: Ds4Touch)
    requires
        h == FRONT_SURFACE_HEIGHT || h == REAR_SURFACE_HEIGHT,
    ensures
        r == ds4_touch(t, h as int),
{
    let y = t.y as u32;
    assert(y * 942 + h / 2 <= 65535 * 942 + 1087) by (nonlinear_arith)
        requires
            y <= 65535,
            h <= 1087,
    ;
    let scaled = (y * DS4_TOUCHPAD_HEIGHT + h / 2) / h;
    Ds4Touch { x: t.x, y: scaled as u16 }
}

fn touch_points(ts: &Vec<TouchPoint>, h: u32) -> (r: Vec<Ds4Touch>)
    requires
        h == FRONT_SURFACE_HEIGHT || h == REAR_SURFACE_HEIGHT,
    ensures
        r@ == ds4_points(ts@, h as int),
{
    let mut r: Vec<Ds4Touch> = Vec::new();
    let n = if ts.len() < 2 { ts.len() } else { 2 };
    let mut i: usize = 0;
    while i < n
        invariant
            i <= n,
            n <= ts@.len(),
            n == (if ts@.len() < 2 { ts@.len() } else { 2 }),
            h == FRONT_SURFACE_HEIGHT || h == REAR_SURFACE_HEIGHT,
            r@ == Seq::new(i as nat, |k: int| ds4_touch(ts@[k], h as int)),
        decreases n - i,
    {
        r.push(rescale_touch(ts[i], h));
        i = i + 1;
        assert(r@ =~= Seq::new(i as nat, |k: int| ds4_touch(ts@[k], h as int)));
    }
    r
}

fn fold_touch_actions(held: &mut ButtonSet, dpad: &mut DpadDirection, acts: &Vec<TouchAction>)
    requires
        old(held).wf(),
    ensures
        final(held).wf(),
        final(held)@ == fold_buttons(old(held)@, acts@),
        *final(dpad) == fold_dpad(*old(dpad), acts@),
{
    let ghost h0 = old(held)@;
    let ghost d0 = *old(dpad);
    let mut i: usize = 0;
    while i < acts.len()
        invariant
            held.wf(),
            i <= acts@.len(),
            held@ == fold_buttons(h0, acts@.subrange(0, i as int)),
            *dpad == fold_dpad(d0, acts@.subrange(0, i as int)),
        decreases acts@.len() - i,
    {
        proof {
            assert(acts@.subrange(0, i + 1).drop_last() =~= acts@.subrange(0, i as int));
        }
        match acts[i] {
            TouchAction::Button(b) => held.insert(b),
            TouchAction::Dpad(d) => {
                *dpad = d;
            },
        }
        i = i + 1;
    }
    assert(acts@.subrange(0, acts@.len() as int) =~= acts@);
}

fn button_mask(held: &ButtonSet) -> (r: u16)
    requires
        held.wf(),
    ensures
        r == mask_of(held@, BUTTON_COUNT as int),
{
    let mut mask: u16 = 0;
    let mut i: usize = 0;
    while i < BUTTON_COUNT
        invariant
            held.wf(),
            i <= BUTTON_COUNT,
            mask == mask_of(held@, i as int),
        decreases BUTTON_COUNT - i,
    {
        let bit = if held.contains_at(i) {
            map_button_to_ds4(button_from_index(i))
        } else {
            0u16
        };
        mask = mask | bit;
        i = i + 1;
    }
    mask
}

/// The buttons held and the D-pad direction that a report stands for.
pub open spec fn ds4_state(cfg: Config, r: MainReport) -> (Set<Button>, DpadDirection) {
    let acts = report_actions(cfg, r);
    (
        fold_buttons(pressed_seq(r.buttons, cfg.trigger_config).to_set(), acts),
        fold_dpad(dpad_of(r.buttons.up, r.buttons.down, r.buttons.left, r.buttons.right), acts),
    )
}

/// The button word of a report: D-pad code in the low bits, one bit per held button.
pub open spec fn ds4_buttons(cfg: Config, r: MainReport) -> u16 {
    dpad_code(ds4_state(cfg, r).1) | mask_of(ds4_state(cfg, r).0, BUTTON_COUNT as int)
}

/// The touchpad record of a report: from the front surface when it is the touchpad,
/// else from the rear one when it is, else none.
pub open spec fn ds4_touchpad(cfg: Config, r: MainReport) -> (bool, Seq<Ds4Touch>) {
    if cfg.front_touch_config matches Some(TouchConfig::Touchpad) {
        (true, ds4_points(r.front_touch@, FRONT_SURFACE_HEIGHT as int))
    } else if cfg.rear_touch_config matches Some(TouchConfig::Touchpad) {
        (true, ds4_points(r.back_touch@, REAR_SURFACE_HEIGHT as int))
    } else {
        (false, seq![])
    }
}

/// Whether a finger is on the surface used as the touchpad.
pub open spec fn ds4_touching(cfg: Config, r: MainReport) -> bool {
    if cfg.front_touch_config matches Some(TouchConfig::Touchpad) {
        r.front_touch@.len() > 0
    } else if cfg.rear_touch_config matches Some(TouchConfig::Touchpad) {
        r.back_touch@.len() > 0
    } else {
        false
    }
}

pub open spec fn trigger_value(held: Set<Button>, b: Button) -> u8 {
    if held.contains(b) {
        255
    } else {
        0
    }
}

/// Charge in tenths, capped at 10.
pub open spec fn battery_level(charge_percent: u8) -> u8 {
    if charge_percent / 10 < 10 {
        charge_percent / 10
    } else {
        10
    }
}

/// The report translator for a DualShock 4 emulated through ViGEm, with the memory
/// of the touchpad state used to turn short taps into clicks.
pub struct Ds4Device {
    config: Config,
    touch_state: bool,
    touch_start_ms: Option<u64>,
    last_timestamp: u64,
}

impl Ds4Device {
    pub closed spec fn cfg(&self) -> Config {
        self.config
    }

    /// Whether a finger was on the touchpad in the last report.
    pub closed spec fn touching(&self) -> bool {
        self.touch_state
    }

    /// When the current touch began, in the caller's milliseconds.
    pub closed spec fn touch_start(&self) -> Option<u64> {
        self.touch_start_ms
    }

    pub closed spec fn last_accepted(&self) -> u64 {
        self.last_timestamp
    }

    pub closed spec fn wf(&self) -> bool {
        self.config.wf()
    }

    pub fn new(config: Config) -> (r: Ds4Device)
        requires
            config.wf(),
        ensures
            r.wf(),
            r.cfg() == config,
            !r.touching(),
            r.touch_start() is None,
            r.last_accepted() == 0,
    {
        Ds4Device { config, touch_state: false, touch_start_ms: None, last_timestamp: 0 }
    }

    /// A translator with the preset of the given name, or `InvalidConfig` with the
    /// name when no preset has it.
    pub fn create(config_name: &str) -> (r: Result<Ds4Device, Error>)
        ensures
            match preset_named(config_name.spec_bytes()) {
                Some(p) => r matches Ok(d) && d.wf() && d.cfg().is_preset(p) && !d.touching()
                    && d.touch_start() is None && d.last_accepted() == 0,
                None => r matches Err(Error::InvalidConfig(s)) && s@ == config_name@,
            },
    {
        match Preset::from_name(config_name) {
            Some(p) => Ok(Ds4Device::new(Config::from_preset(p))),
            None => Err(Error::InvalidConfig(config_name.to_owned())),
        }
    }

    /// Builds the DualShock 4 report of a Vita report read at `now_ms` milliseconds.
    ///
    /// A report whose timestamp is not above the last accepted one gives `None` and
    /// changes nothing. A touch on the touchpad surface that ends less than 150 ms
    /// after it began clicks the touchpad.
    pub fn send_report(&mut self, report: MainReport, now_ms: u64) -> (r: Option<Ds4Report>)
        requires
            old(self).wf(),
        ensures
            final(self).wf(),
            final(self).cfg() == old(self).cfg(),
            report.timestamp <= old(self).last_accepted() ==> r is None && final(self).touching()
                == old(self).touching() && final(self).touch_start() == old(self).touch_start()
                && final(self).last_accepted() == old(self).last_accepted(),
            report.timestamp > old(self).last_accepted() ==> {
                let cfg = old(self).cfg();
                let held = ds4_state(cfg, report).0;
                let touching = ds4_touching(cfg, report);
                let was = old(self).touching();
                let click = !touching && was && (old(self).touch_start() matches Some(t) && (
                now_ms as int) - (t as int) < TAP_CLICK_MS);
                &&& final(self).last_accepted() == report.timestamp
                &&& final(self).touching() == touching
                &&& final(self).touch_start() == if touching && !was {
                    Some(now_ms)
                } else if !touching && was {
                    None
                } else {
                    old(self).touch_start()
                }
                &&& r matches Some(d) && {
                    &&& d.thumb_lx == report.lx && d.thumb_ly == report.ly
                    &&& d.thumb_rx == report.rx && d.thumb_ry == report.ry
                    &&& d.buttons == ds4_buttons(cfg, report)
                    &&& d.trigger_l == trigger_value(held, Button::TriggerLeft)
                    &&& d.trigger_r == trigger_value(held, Button::TriggerRight)
                    &&& d.special == if click {
                        DS4_SPECIAL_TOUCHPAD
                    } else {
                        0u8
                    }
                    &&& (d.has_touch_report, d.touch_points@) == ds4_touchpad(cfg, report)
                    &&& d.motion == report.motion
                    &&& d.battery_level == battery_level(report.charge_percent)
                }
            },
    {
        if report.timestamp <= self.last_timestamp {
            return None;
        }
        self.last_timestamp = report.timestamp;

        let mut dpad = compute_dpad_direction(&report.buttons);
        let pressed_buttons = get_pressed_buttons(&report.buttons, self.config.trigger_config);
        let mut held = set_of(&pressed_buttons);
        let mut actions = process_touch_reports(&report.front_touch, &self.config.front_touch_config);
        let mut rear_actions = process_touch_reports(&report.back_touch, &self.config.rear_touch_config);
        actions.append(&mut rear_actions);
        assert(actions@ == report_actions(self.config, report));
        fold_touch_actions(&mut held, &mut dpad, &actions);
        let buttons = map_dpad_direction_to_ds4(dpad) | button_mask(&held);

        let (has_touch_report, points, touching) = match (
            &self.config.front_touch_config,
            &self.config.rear_touch_config,
        ) {
            (Some(TouchConfig::Touchpad), _) => (
                true,
                touch_points(&report.front_touch, 1087),
                report.front_touch.len() > 0,
            ),
            (_, Some(TouchConfig::Touchpad)) => (
                true,
                touch_points(&report.back_touch, 887),
                report.back_touch.len() > 0,
            ),
            _ => (false, Vec::new(), false),
        };

        let mut special: u8 = 0;
        if touching && !self.touch_state {
            self.touch_start_ms = Some(now_ms);
        } else if !touching && self.touch_state {
            if let Some(start) = self.touch_start_ms {
                if now_ms < start || now_ms - start < TAP_CLICK_MS {
                    special = DS4_SPECIAL_TOUCHPAD;
                }
            }
            self.touch_start_ms = None;
        }
        self.touch_state = touching;

        let tenths = report.charge_percent / 10;
        Some(
            Ds4Report {
                thumb_lx: report.lx,
                thumb_ly: report.ly,
                thumb_rx: report.rx,
                thumb_ry: report.ry,
                buttons,
                special,
                trigger_l: if held.contains(Button::TriggerLeft) { 255 } else { 0 },
                trigger_r: if held.contains(Button::TriggerRight) { 255 } else { 0 },
                has_touch_report,
                touch_points: points,
                motion: report.motion,
                battery_level: if tenths < 10 { tenths } else { 10 },
            },
        )
    }
}

} // verus!
