use vstd::prelude::*;
use crate::buttons::{Button, TriggerConfig};
use crate::touch::{zone_of, Point, TouchAction, TouchZone, ZoneIndex};
use vstd::string::StringSliceAdditionalSpecFns;

verus! {

/// Width of both touch surfaces, one past the largest x.
pub const SURFACE_WIDTH: i32 = 1920;
/// Height of the front touch surface, one past the largest y.
pub const FRONT_SURFACE_HEIGHT: i32 = 1087;
/// Height of the rear touch surface, one past the largest y.
pub const REAR_SURFACE_HEIGHT: i32 = 887;

/// How one touch surface is used: as zones that act as buttons, or passed through
/// as a touchpad.
pub enum TouchConfig {
    Zones(ZoneIndex),
    Touchpad,
}

impl TouchConfig {
    pub open spec fn wf(&self) -> bool {
        match self {
            TouchConfig::Zones(ix) => ix.wf(),
            TouchConfig::Touchpad => true,
        }
    }

    /// Creates a `TouchConfig` with the given zones.
    pub fn zones(zones: Vec<TouchZone>) -> (r: TouchConfig)
        requires
            forall|i: int| 0 <= i < zones@.len() ==> (#[trigger] zones@[i]).wf(),
        ensures
            r.wf(),
            r matches TouchConfig::Zones(ix) && ix@ == zones@,
    {
        TouchConfig::Zones(ZoneIndex::zones(zones))
    }

    /// Creates a `TouchConfig` representing a touchpad.
    #[inline]
    pub fn touchpad() -> (r: TouchConfig)
        ensures
            r matches TouchConfig::Touchpad,
    {
        TouchConfig::Touchpad
    }
}

/// Which surface feeds the virtual touchpad.
#[derive(Clone, Copy, Debug, PartialEq, Eq, Structural)]
pub enum TouchpadSource {
    Front,
    Rear,
}

/// Overall configuration of the virtual device.
pub struct Config {
    pub front_touch_config: Option<TouchConfig>,
    pub rear_touch_config: Option<TouchConfig>,
    pub trigger_config: TriggerConfig,
    pub touchpad_source: Option<TouchpadSource>,
}

pub open spec fn opt_touch_wf(c: Option<TouchConfig>) -> bool {
    match c {
        Some(t) => t.wf(),
        None => true,
    }
}

/// The surface is used as zones, exactly these.
pub open spec fn has_zones(c: Option<TouchConfig>, zs: Seq<TouchZone>) -> bool {
    match c {
        Some(TouchConfig::Zones(ix)) => ix.wf() && ix@ == zs,
        _ => false,
    }
}

pub open spec fn is_touchpad(c: Option<TouchConfig>) -> bool {
    c matches Some(TouchConfig::Touchpad)
}

pub open spec fn button_zone(a: Point, b: Point, button: Button) -> TouchZone {
    zone_of((a, b), Some(TouchAction::Button(button)))
}

/// A surface `w` by `h` cut into a left and a right half at `w / 2`.
pub open spec fn halves(w: i32, h: i32, left: Button, right: Button) -> Seq<TouchZone> {
    seq![
        button_zone(Point(0, 0), Point((w / 2) as i32, h), left),
        button_zone(Point((w / 2) as i32, 0), Point(w, h), right),
    ]
}

/// A surface `w` by `h` cut into quadrants: top left and top right act as the
/// shoulders, bottom left and bottom right as the thumb buttons.
pub open spec fn quadrants(w: i32, h: i32) -> Seq<TouchZone> {
    seq![
        button_zone(Point(0, 0), Point((w / 2) as i32, (h / 2) as i32), Button::ShoulderLeft),
        button_zone(Point((w / 2) as i32, 0), Point(w, (h / 2) as i32), Button::ShoulderRight),
        button_zone(Point(0, (h / 2) as i32), Point((w / 2) as i32, h), Button::ThumbLeft),
        button_zone(Point((w / 2) as i32, (h / 2) as i32), Point(w, h), Button::ThumbRight),
    ]
}

fn half_zones(w: i32, h: i32, left: Button, right: Button) -> (r: TouchConfig)
    requires
        0 <= w,
        0 <= h,
    ensures
        r.wf(),
        has_zones(Some(r), halves(w, h, left, right)),
{
    let zones = vec![
        TouchZone::new((Point(0, 0), Point(w / 2, h)), Some(TouchAction::Button(left))),
        TouchZone::new((Point(w / 2, 0), Point(w, h)), Some(TouchAction::Button(right))),
    ];
    assert(zones@ =~= halves(w, h, left, right));
    TouchConfig::zones(zones)
}

fn quadrant_zones(w: i32, h: i32) -> (r: TouchConfig)
    requires
        0 <= w,
        0 <= h,
    ensures
        r.wf(),
        has_zones(Some(r), quadrants(w, h)),
{
    let zones = vec![
        TouchZone::new(
            (Point(0, 0), Point(w / 2, h / 2)),
            Some(TouchAction::Button(Button::ShoulderLeft)),
        ),
        TouchZone::new(
            (Point(w / 2, 0), Point(w, h / 2)),
            Some(TouchAction::Button(Button::ShoulderRight)),
        ),
        TouchZone::new(
            (Point(0, h / 2), Point(w / 2, h)),
            Some(TouchAction::Button(Button::ThumbLeft)),
        ),
        TouchZone::new(
            (Point(w / 2, h / 2), Point(w, h)),
            Some(TouchAction::Button(Button::ThumbRight)),
        ),
    ];
    assert(zones@ =~= quadrants(w, h));
    TouchConfig::zones(zones)
}

/// A configuration selected by name.
#[derive(Clone, Copy, Debug, PartialEq, Eq, Structural)]
pub enum Preset {
    /// `standart`
    Standart,
    /// `alt_triggers`
    AltTriggers,
    /// `rear_touchpad`
    RearTouchpad,
    /// `front_touchpad`
    FrontTouchpad,
}

/// The name of each preset, as bytes.
pub open spec fn preset_name(p: Preset) -> Seq<u8> {
    match p {
        Preset::Standart => seq![115u8, 116u8, 97u8, 110u8, 100u8, 97u8, 114u8, 116u8],
        Preset::AltTriggers => seq![
            97u8, 108u8, 116u8, 95u8, 116u8, 114u8, 105u8, 103u8, 103u8, 101u8, 114u8, 115u8,
        ],
        Preset::RearTouchpad => seq![
            114u8, 101u8, 97u8, 114u8, 95u8, 116u8, 111u8, 117u8, 99u8, 104u8, 112u8, 97u8, 100u8,
        ],
        Preset::FrontTouchpad => seq![
            102u8, 114u8, 111u8, 110u8, 116u8, 95u8, 116u8, 111u8, 117u8, 99u8, 104u8, 112u8, 97u8,
            100u8,
        ],
    }
}

/// The preset whose name is exactly these bytes, if any.
pub open spec fn preset_named(b: Seq<u8>) -> Option<Preset> {
    if b == preset_name(Preset::Standart) {
        Some(Preset::Standart)
    } else if b == preset_name(Preset::AltTriggers) {
        Some(Preset::AltTriggers)
    } else if b == preset_name(Preset::RearTouchpad) {
        Some(Preset::RearTouchpad)
    } else if b == preset_name(Preset::FrontTouchpad) {
        Some(Preset::FrontTouchpad)
    } else {
        None
    }
}

fn name_bytes(p: Preset) -> (r: Vec<u8>)
    ensures
        r@ == preset_name(p),
{
    let r = match p {
        Preset::Standart => vec![115u8, 116u8, 97u8, 110u8, 100u8, 97u8, 114u8, 116u8],
        Preset::AltTriggers => vec![
            97u8, 108u8, 116u8, 95u8, 116u8, 114u8, 105u8, 103u8, 103u8, 101u8, 114u8, 115u8,
        ],
        Preset::RearTouchpad => vec![
            114u8, 101u8, 97u8, 114u8, 95u8, 116u8, 111u8, 117u8, 99u8, 104u8, 112u8, 97u8, 100u8,
        ],
        Preset::FrontTouchpad => vec![
            102u8, 114u8, 111u8, 110u8, 116u8, 95u8, 116u8, 111u8, 117u8, 99u8, 104u8, 112u8, 97u8,
            100u8,
        ],
    };
    assert(r@ =~= preset_name(p));
    r
}

fn bytes_equal(a: &[u8], b: &[u8]) -> (r: bool)
    ensures
        r == (a@ == b@),
{
    if a.len() != b.len() {
        return false;
    }
    let mut i: usize = 0;
    while i < a.len()
        invariant
            i <= a@.len(),
            a@.len() == b@.len(),
            forall|k: int| 0 <= k < i ==> a@[k] == b@[k],
        decreases a@.len() - i,
    {
        if a[i] != b[i] {
            return false;
        }
        i = i + 1;
    }
    assert(a@ =~= b@);
    true
}

impl Preset {
    /// Looks a preset up by its name.
    pub fn from_name(name: &str) -> (r: Option<Preset>)
        ensures
            r == preset_named(name.spec_bytes()),
    {
        let b = name.as_bytes();
        let standart = name_bytes(Preset::Standart);
        let alt = name_bytes(Preset::AltTriggers);
        let rear = name_bytes(Preset::RearTouchpad);
        let front = name_bytes(Preset::FrontTouchpad);
        if bytes_equal(b, standart.as_slice()) {
            Some(Preset::Standart)
        } else if bytes_equal(b, alt.as_slice()) {
            Some(Preset::AltTriggers)
        } else if bytes_equal(b, rear.as_slice()) {
            Some(Preset::RearTouchpad)
        } else if bytes_equal(b, front.as_slice()) {
            Some(Preset::FrontTouchpad)
        } else {
            None
        }
    }
}

impl Config {
    pub open spec fn wf(&self) -> bool {
        opt_touch_wf(self.front_touch_config) && opt_touch_wf(self.rear_touch_config)
    }

    /// Front thumb halves, rear L2/R2 halves, triggers as L2/R2.
    pub open spec fn is_standart(&self) -> bool {
        &&& has_zones(
            self.front_touch_config,
            halves(SURFACE_WIDTH, FRONT_SURFACE_HEIGHT, Button::ThumbLeft, Button::ThumbRight),
        )
        &&& has_zones(
            self.rear_touch_config,
            halves(SURFACE_WIDTH, REAR_SURFACE_HEIGHT, Button::ShoulderLeft, Button::ShoulderRight),
        )
        &&& self.trigger_config == TriggerConfig::Trigger
        &&& self.touchpad_source is None
    }

    /// Front thumb halves, rear L1/R1 halves, triggers as L1/R1.
    pub open spec fn is_alt_triggers(&self) -> bool {
        &&& has_zones(
            self.front_touch_config,
            halves(SURFACE_WIDTH, FRONT_SURFACE_HEIGHT, Button::ThumbLeft, Button::ThumbRight),
        )
        &&& has_zones(
            self.rear_touch_config,
            halves(SURFACE_WIDTH, REAR_SURFACE_HEIGHT, Button::TriggerLeft, Button::TriggerRight),
        )
        &&& self.trigger_config == TriggerConfig::Shoulder
        &&& self.touchpad_source is None
    }

    /// Front quadrants, rear surface as the touchpad.
    pub open spec fn is_rear_touchpad(&self) -> bool {
        &&& has_zones(self.front_touch_config, quadrants(SURFACE_WIDTH, FRONT_SURFACE_HEIGHT))
        &&& is_touchpad(self.rear_touch_config)
        &&& self.trigger_config == TriggerConfig::Trigger
        &&& self.touchpad_source == Some(TouchpadSource::Rear)
    }

    /// Rear quadrants, front surface as the touchpad.
    pub open spec fn is_front_touchpad(&self) -> bool {
        &&& is_touchpad(self.front_touch_config)
        &&& has_zones(self.rear_touch_config, quadrants(SURFACE_WIDTH, REAR_SURFACE_HEIGHT))
        &&& self.trigger_config == TriggerConfig::Trigger
        &&& self.touchpad_source == Some(TouchpadSource::Front)
    }

    pub open spec fn is_preset(&self, p: Preset) -> bool {
        match p {
            Preset::Standart => self.is_standart(),
            Preset::AltTriggers => self.is_alt_triggers(),
            Preset::RearTouchpad => self.is_rear_touchpad(),
            Preset::FrontTouchpad => self.is_front_touchpad(),
        }
    }

    /// The `standart` layout.
    #[inline]
    pub fn rear_rl2_front_rl3() -> (r: Config)
        ensures
            r.wf(),
            r.is_standart(),
    {
        Config {
            rear_touch_config: Some(
                half_zones(SURFACE_WIDTH, REAR_SURFACE_HEIGHT, Button::ShoulderLeft, Button::ShoulderRight),
            ),
            front_touch_config: Some(
                half_zones(SURFACE_WIDTH, FRONT_SURFACE_HEIGHT, Button::ThumbLeft, Button::ThumbRight),
            ),
            trigger_config: TriggerConfig::Trigger,
            touchpad_source: None,
        }
    }

    /// The `alt_triggers` layout.
    #[inline]
    pub fn rear_rl1_front_rl3_vitatriggers_rl2() -> (r: Config)
        ensures
            r.wf(),
            r.is_alt_triggers(),
    {
        Config {
            rear_touch_config: Some(
                half_zones(SURFACE_WIDTH, REAR_SURFACE_HEIGHT, Button::TriggerLeft, Button::TriggerRight),
            ),
            front_touch_config: Some(
                half_zones(SURFACE_WIDTH, FRONT_SURFACE_HEIGHT, Button::ThumbLeft, Button::ThumbRight),
            ),
            trigger_config: TriggerConfig::Shoulder,
            touchpad_source: None,
        }
    }

    /// The `rear_touchpad` layout.
    #[inline]
    pub fn front_top_rl2_bottom_rl3_rear_touchpad() -> (r: Config)
        ensures
            r.wf(),
            r.is_rear_touchpad(),
    {
        Config {
            front_touch_config: Some(quadrant_zones(SURFACE_WIDTH, FRONT_SURFACE_HEIGHT)),
            rear_touch_config: Some(TouchConfig::Touchpad),
            trigger_config: TriggerConfig::Trigger,
            touchpad_source: Some(TouchpadSource::Rear),
        }
    }

    /// The `front_touchpad` layout.
    #[inline]
    pub fn rear_top_rl2_bottom_rl3_front_touchpad() -> (r: Config)
        ensures
            r.wf(),
            r.is_front_touchpad(),
    {
        Config {
            front_touch_config: Some(TouchConfig::Touchpad),
            rear_touch_config: Some(quadrant_zones(SURFACE_WIDTH, REAR_SURFACE_HEIGHT)),
            trigger_config: TriggerConfig::Trigger,
            touchpad_source: Some(TouchpadSource::Front),
        }
    }

    /// The configuration of a preset.
    pub fn from_preset(p: Preset) -> (r: Config)
        ensures
            r.wf(),
            r.is_preset(p),
    {
        match p {
            Preset::Standart => Config::rear_rl2_front_rl3(),
            Preset::AltTriggers => Config::rear_rl1_front_rl3_vitatriggers_rl2(),
            Preset::RearTouchpad => Config::front_top_rl2_bottom_rl3_rear_touchpad(),
            Preset::FrontTouchpad => Config::rear_top_rl2_bottom_rl3_front_touchpad(),
        }
    }

    /// Front surface as the touchpad, no rear surface, triggers as shoulders.
    pub fn default() -> (r: Config)
        ensures
            r.wf(),
            is_touchpad(r.front_touch_config),
            r.rear_touch_config is None,
            r.trigger_config == TriggerConfig::Shoulder,
            r.touchpad_source is None,
    {
        Config {
            front_touch_config: Some(TouchConfig::Touchpad),
            rear_touch_config: None,
            trigger_config: TriggerConfig::default(),
            touchpad_source: None,
        }
    }
}

/// Changes to a configuration: each field that is set replaces the one it names.
pub struct ConfigBuilder {
    pub front_touch_config: Option<Option<TouchConfig>>,
    pub rear_touch_config: Option<Option<TouchConfig>>,
    pub trigger_config: Option<TriggerConfig>,
    pub touchpad_source: Option<Option<TouchpadSource>>,
}

impl ConfigBuilder {
    pub open spec fn wf(&self) -> bool {
        &&& (self.front_touch_config matches Some(c) ==> opt_touch_wf(c))
        &&& (self.rear_touch_config matches Some(c) ==> opt_touch_wf(c))
    }
}

impl Config {
    /// A builder with no field set.
    #[inline]
    pub fn builder() -> (r: ConfigBuilder)
        ensures
            r.front_touch_config is None,
            r.rear_touch_config is None,
            r.trigger_config is None,
            r.touchpad_source is None,
    {
        ConfigBuilder {
            front_touch_config: None,
            rear_touch_config: None,
            trigger_config: None,
            touchpad_source: None,
        }
    }
}

} // verus!
