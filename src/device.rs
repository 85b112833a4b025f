use vstd::prelude::*;
use crate::buttons::{
    button_at, button_index, ds4_key, lemma_ds4_key_injective, dpad_of, hat_of, lemma_button_index, pressed_seq,
    BUTTON_COUNT, Button, ButtonSet, button_from_index,
    compute_dpad_direction, dpad_direction_to_axis_values, get_pressed_buttons, map_button_to_ds4,
};
use crate::config::{preset_named, Config, ConfigBuilder, Preset, TouchConfig, TouchpadSource};
use vstd::string::StringSliceAdditionalSpecFns;
use crate::events::{
    abs_ev, key_ev, syn_ev, InputEvent, ABS_HAT0X, ABS_HAT0Y, ABS_MT_POSITION_X,
    ABS_MT_POSITION_Y, ABS_MT_PRESSURE, ABS_MT_SLOT, ABS_MT_TRACKING_ID, ABS_RX, ABS_RY, ABS_RZ,
    ABS_X, ABS_Y, ABS_Z, BTN_TOOL_FINGER, BTN_TOUCH, EV_ABS, KEY_PRESSED, KEY_RELEASED,
};
use crate::report::{MainReport, MotionSample, TouchPoint};
use crate::touch::{Point, TouchAction, ZoneIndex};

verus! {

/// The point a touch stands at.
pub open spec fn touch_point(t: TouchPoint) -> Point {
    Point(t.x as i32, t.y as i32)
}

/// The action, if any, of the zone that the index answers for a touch.
pub open spec fn touch_action(ix: ZoneIndex, t: TouchPoint) -> Seq<TouchAction> {
    match ix.located(touch_point(t)) {
        Some(z) => match z.action {
            Some(a) => seq![a],
            None => seq![],
        },
        None => seq![],
    }
}

/// The actions of a list of touches on zones, in the order of the touches.
pub open spec fn zone_actions(ix: ZoneIndex, touches: Seq<TouchPoint>) -> Seq<TouchAction>
    decreases touches.len(),
{
    if touches.len() == 0 {
        seq![]
    } else {
        zone_actions(ix, touches.drop_last()) + touch_action(ix, touches.last())
    }
}

/// The actions of a list of touches under a surface's configuration: none unless the
/// surface is used as zones.
pub open spec fn touch_actions(touches: Seq<TouchPoint>, cfg: Option<TouchConfig>) -> Seq<
    TouchAction,
> {
    match cfg {
        Some(TouchConfig::Zones(ix)) => zone_actions(ix, touches),
        _ => seq![],
    }
}

/// Lists the actions that touches trigger on a surface's zones.
pub fn process_touch_reports(touch_reports: &Vec<TouchPoint>, touch_config: &Option<TouchConfig>) -> (r: Vec<TouchAction>)
    requires
        match touch_config {
            Some(TouchConfig::Zones(ix)) => ix.wf(),
            _ => true,
        },
    ensures
        r@ == touch_actions(touch_reports@, *touch_config),
{
    let mut actions: Vec<TouchAction> = Vec::new();
    if let Some(TouchConfig::Zones(zones)) = touch_config {
        let mut i: usize = 0;
        while i < touch_reports.len()
            invariant
                zones.wf(),
                i <= touch_reports@.len(),
                actions@ == zone_actions(*zones, touch_reports@.subrange(0, i as int)),
            decreases touch_reports@.len() - i,
        {
            let touch = touch_reports[i];
            proof {
                assert(touch_reports@.subrange(0, i + 1).drop_last() =~= touch_reports@.subrange(
                    0,
                    i as int,
                ));
            }
            if let Some(zone) = zones.locate_at_point(&Point(touch.x as i32, touch.y as i32)) {
                if let Some(action) = zone.action {
                    actions.push(action);
                }
            }
            i = i + 1;
            proof {
                assert(actions@ =~= zone_actions(*zones, touch_reports@.subrange(0, i as int)));
            }
        }
        assert(touch_reports@.subrange(0, touch_reports@.len() as int) =~= touch_reports@);
    }
    actions
}

/// Button set and hat values after applying touch actions in order: a button action
/// adds its button, a D-pad action replaces the hat values.
pub open spec fn fold_actions(held: Set<Button>, hat: (int, int), acts: Seq<TouchAction>) -> (
    Set<Button>,
    (int, int),
)
    decreases acts.len(),
{
    if acts.len() == 0 {
        (held, hat)
    } else {
        let (h, d) = fold_actions(held, hat, acts.drop_last());
        match acts.last() {
            TouchAction::Button(b) => (h.insert(b), d),
            TouchAction::Dpad(dir) => (h, hat_of(dir)),
        }
    }
}

/// The touch actions of a report, front surface first.
pub open spec fn report_actions(cfg: Config, r: MainReport) -> Seq<TouchAction> {
    touch_actions(r.front_touch@, cfg.front_touch_config) + touch_actions(
        r.back_touch@,
        cfg.rear_touch_config,
    )
}

/// The buttons held and the hat values that a report stands for.
pub open spec fn report_state(cfg: Config, r: MainReport) -> (Set<Button>, (int, int)) {
    fold_actions(
        pressed_seq(r.buttons, cfg.trigger_config).to_set(),
        hat_of(dpad_of(r.buttons.up, r.buttons.down, r.buttons.left, r.buttons.right)),
        report_actions(cfg, r),
    )
}

/// Key events, with the given value, for the buttons among the first `n` of the
/// fixed order that are in `to` and not in `from`.
pub open spec fn edge_events(from: Set<Button>, to: Set<Button>, n: int, value: i32) -> Seq<
    InputEvent,
>
    decreases n,
{
    if n <= 0 {
        seq![]
    } else {
        let b = button_at(n - 1);
        edge_events(from, to, n - 1, value) + if to.contains(b) && !from.contains(b) {
            seq![key_ev(ds4_key(b), value)]
        } else {
            seq![]
        }
    }
}

/// Hat events for the axes whose value changed.
pub open spec fn hat_events(prev: (int, int), cur: (int, int)) -> Seq<InputEvent> {
    (if cur.0 != prev.0 {
        seq![abs_ev(ABS_HAT0X, cur.0 as i32)]
    } else {
        seq![]
    }) + (if cur.1 != prev.1 {
        seq![abs_ev(ABS_HAT0Y, cur.1 as i32)]
    } else {
        seq![]
    })
}

/// The four stick axes, passed through.
pub open spec fn stick_events(r: MainReport) -> Seq<InputEvent> {
    seq![
        abs_ev(ABS_X, r.lx as i32),
        abs_ev(ABS_Y, r.ly as i32),
        abs_ev(ABS_RX, r.rx as i32),
        abs_ev(ABS_RY, r.ry as i32),
    ]
}

/// The motion axes in the sensor node's slots: the accelerometer's z goes to Y and
/// its y to Z, the gyro's z goes to RY and its y to RZ.
pub open spec fn motion_events(m: MotionSample) -> Seq<InputEvent> {
    seq![
        abs_ev(ABS_X, m.accel_x as i32),
        abs_ev(ABS_Y, m.accel_z as i32),
        abs_ev(ABS_Z, m.accel_y as i32),
        abs_ev(ABS_RX, m.gyro_x as i32),
        abs_ev(ABS_RY, m.gyro_z as i32),
        abs_ev(ABS_RZ, m.gyro_y as i32),
    ]
}

pub(crate) fn set_of(v: &Vec<Button>) -> (r: ButtonSet)
    ensures
        r.wf(),
        r@ == v@.to_set(),
{
    let mut r = ButtonSet::new();
    let mut i: usize = 0;
    while i < v.len()
        invariant
            r.wf(),
            i <= v@.len(),
            r@ == v@.subrange(0, i as int).to_set(),
        decreases v@.len() - i,
    {
        r.insert(v[i]);
        proof {
            let s = v@.subrange(0, i + 1);
            let t = v@.subrange(0, i as int);
            assert(s =~= t.push(v@[i as int]));
            t.lemma_push_to_set_commute(v@[i as int]);
            assert(r@ =~= s.to_set());
        }
        i = i + 1;
    }
    assert(v@.subrange(0, v@.len() as int) =~= v@);
    r
}

fn apply_actions(held: &mut ButtonSet, hat: &mut (i32, i32), acts: &Vec<TouchAction>)
    requires
        old(held).wf(),
        -1 <= old(hat).0 <= 1,
        -1 <= old(hat).1 <= 1,
    ensures
        final(held).wf(),
        (final(held)@, (final(hat).0 as int, final(hat).1 as int)) == fold_actions(
            old(held)@,
            (old(hat).0 as int, old(hat).1 as int),
            acts@,
        ),
        -1 <= final(hat).0 <= 1,
        -1 <= final(hat).1 <= 1,
{
    let ghost h0 = old(held)@;
    let ghost d0 = (old(hat).0 as int, old(hat).1 as int);
    let mut i: usize = 0;
    while i < acts.len()
        invariant
            held.wf(),
            i <= acts@.len(),
            (held@, (hat.0 as int, hat.1 as int)) == fold_actions(h0, d0, acts@.subrange(0, i as int)),
            -1 <= hat.0 <= 1,
            -1 <= hat.1 <= 1,
        decreases acts@.len() - i,
    {
        proof {
            assert(acts@.subrange(0, i + 1).drop_last() =~= acts@.subrange(0, i as int));
        }
        match acts[i] {
            TouchAction::Button(b) => {
                held.insert(b);
            },
            TouchAction::Dpad(d) => {
                *hat = dpad_direction_to_axis_values(d);
            },
        }
        i = i + 1;
    }
    assert(acts@.subrange(0, acts@.len() as int) =~= acts@);
}

fn push_edge_events(out: &mut Vec<InputEvent>, from: &ButtonSet, to: &ButtonSet, value: i32)
    requires
        from.wf(),
        to.wf(),
    ensures
        final(out)@ == old(out)@ + edge_events(from@, to@, BUTTON_COUNT as int, value),
{
    let ghost start = old(out)@;
    let mut i: usize = 0;
    while i < BUTTON_COUNT
        invariant
            from.wf(),
            to.wf(),
            i <= BUTTON_COUNT,
            out@ == start + edge_events(from@, to@, i as int, value),
        decreases BUTTON_COUNT - i,
    {
        if to.contains_at(i) && !from.contains_at(i) {
            let b = button_from_index(i);
            out.push(InputEvent::key(map_button_to_ds4(b), value));
        }
        i = i + 1;
        proof {
            assert(out@ =~= start + edge_events(from@, to@, i as int, value));
        }
    }
}

fn push_stick_events(out: &mut Vec<InputEvent>, report: &MainReport)
    ensures
        final(out)@ == old(out)@ + stick_events(*report),
{
    out.push(InputEvent::absolute(ABS_X, report.lx as i32));
    out.push(InputEvent::absolute(ABS_Y, report.ly as i32));
    out.push(InputEvent::absolute(ABS_RX, report.rx as i32));
    out.push(InputEvent::absolute(ABS_RY, report.ry as i32));
    assert(final(out)@ =~= old(out)@ + stick_events(*report));
}

/// Lists the stick events of a report.
pub fn create_stick_events(report: &MainReport) -> (r: Vec<InputEvent>)
    ensures
        r@ == stick_events(*report),
{
    let mut v: Vec<InputEvent> = Vec::new();
    push_stick_events(&mut v, report);
    assert(v@ =~= stick_events(*report));
    v
}

/// Lists the motion events of a report.
pub fn create_motion_events(report: &MainReport) -> (r: Vec<InputEvent>)
    ensures
        r@ == motion_events(report.motion),
{
    let m = report.motion;
    let v = vec![
        InputEvent::absolute(ABS_X, m.accel_x as i32),
        InputEvent::absolute(ABS_Y, m.accel_z as i32),
        InputEvent::absolute(ABS_Z, m.accel_y as i32),
        InputEvent::absolute(ABS_RX, m.gyro_x as i32),
        InputEvent::absolute(ABS_RY, m.gyro_z as i32),
        InputEvent::absolute(ABS_RZ, m.gyro_y as i32),
    ];
    assert(v@ =~= motion_events(m));
    v
}

/// Whether slot `k` is lifted by a report: it held a finger, and the report has no
/// touch in that slot or a touch with another id.
pub open spec fn lifts_slot(prev: Seq<Option<u8>>, touches: Seq<TouchPoint>, k: int) -> bool {
    prev[k] is Some && (k >= touches.len() || prev[k] != Some(touches[k].id))
}

/// Lift events, in slot order, for the first `n` slots that a report lifts.
pub open spec fn lift_events(prev: Seq<Option<u8>>, touches: Seq<TouchPoint>, n: int) -> Seq<
    InputEvent,
>
    decreases n,
{
    if n <= 0 {
        seq![]
    } else {
        lift_events(prev, touches, n - 1) + if lifts_slot(prev, touches, n - 1) {
            seq![abs_ev(ABS_MT_SLOT, (n - 1) as i32), abs_ev(ABS_MT_TRACKING_ID, -1i32)]
        } else {
            seq![]
        }
    }
}

/// Slot, tracking id, position and pressure of one touch.
pub open spec fn contact_events(t: TouchPoint, slot: int) -> Seq<InputEvent> {
    seq![
        abs_ev(ABS_MT_SLOT, slot as i32),
        abs_ev(ABS_MT_TRACKING_ID, t.id as i32),
        abs_ev(ABS_MT_POSITION_X, t.x as i32),
        abs_ev(ABS_MT_POSITION_Y, t.y as i32),
        abs_ev(ABS_MT_PRESSURE, t.force as i32),
    ]
}

/// Contact events of the first `n` touches, touch `k` in slot `k`.
pub open spec fn contacts_events(touches: Seq<TouchPoint>, n: int) -> Seq<InputEvent>
    decreases n,
{
    if n <= 0 {
        seq![]
    } else {
        contacts_events(touches, n - 1) + contact_events(touches[n - 1], n - 1)
    }
}

/// Whether any of the first `n` touches presses with a force above zero.
pub open spec fn any_pressed(touches: Seq<TouchPoint>, n: int) -> bool
    decreases n,
{
    if n <= 0 {
        false
    } else {
        any_pressed(touches, n - 1) || touches[n - 1].force > 0
    }
}

/// Finger button events on a change of the aggregate touch state.
pub open spec fn finger_events(active: bool, state: bool) -> Seq<InputEvent> {
    if active && !state {
        seq![key_ev(BTN_TOUCH, KEY_PRESSED), key_ev(BTN_TOOL_FINGER, KEY_PRESSED)]
    } else if !active && state {
        seq![key_ev(BTN_TOUCH, KEY_RELEASED), key_ev(BTN_TOOL_FINGER, KEY_RELEASED)]
    } else {
        seq![]
    }
}

pub open spec fn min_int(a: int, b: int) -> int {
    if a <= b {
        a
    } else {
        b
    }
}

/// The tracking id each slot holds after a report: the id of the touch in that slot,
/// none where the report has no touch.
pub open spec fn slots_after(touches: Seq<TouchPoint>, max_slots: int) -> Seq<Option<u8>> {
    Seq::new(
        max_slots as nat,
        |s: int|
            if s < touches.len() {
                Some(touches[s].id)
            } else {
                None
            },
    )
}

/// Whether any touch that fits a slot presses.
pub open spec fn touch_active(touches: Seq<TouchPoint>, max_slots: int) -> bool {
    any_pressed(touches, min_int(touches.len() as int, max_slots))
}

/// The multi-touch events of one report on a surface with `max_slots` slots.
pub open spec fn touch_events(
    prev: Seq<Option<u8>>,
    touches: Seq<TouchPoint>,
    max_slots: int,
    state: bool,
) -> Seq<InputEvent> {
    lift_events(prev, touches, max_slots) + contacts_events(
        touches,
        min_int(touches.len() as int, max_slots),
    ) + finger_events(touch_active(touches, max_slots), state)
}

/// Builds the multi-touch events of a report and updates the slot memory and the
/// aggregate touch state. A slot whose finger is gone, or replaced by a finger with
/// another id, gets a lift before any contact. Slots from `max_slots` on are left
/// alone.
fn create_touch_events(
    touch_reports: &Vec<TouchPoint>,
    previous_touches: &mut Vec<Option<u8>>,
    max_slots: usize,
    touch_state: &mut bool,
) -> (r: Vec<InputEvent>)
    requires
        old(previous_touches)@.len() >= max_slots,
        max_slots <= i32::MAX,
    ensures
        r@ == touch_events(old(previous_touches)@, touch_reports@, max_slots as int, *old(touch_state)),
        final(previous_touches)@.len() == old(previous_touches)@.len(),
        forall|s: int|
            0 <= s < max_slots ==> #[trigger] final(previous_touches)@[s] == slots_after(
                touch_reports@,
                max_slots as int,
            )[s],
        forall|s: int|
            max_slots <= s < old(previous_touches)@.len() ==> #[trigger] final(previous_touches)@[s]
                == old(previous_touches)@[s],
        *final(touch_state) == touch_active(touch_reports@, max_slots as int),
{
    let ghost prev0 = old(previous_touches)@;
    let ghost touches = touch_reports@;
    let len = touch_reports.len();
    let mut events: Vec<InputEvent> = Vec::new();
    let mut slot: usize = 0;
    while slot < max_slots
        invariant
            slot <= max_slots,
            max_slots <= i32::MAX,
            max_slots <= prev0.len(),
            len == touches.len(),
            touches == touch_reports@,
            previous_touches@.len() == prev0.len(),
            events@ == lift_events(prev0, touches, slot as int),
            forall|s: int|
                0 <= s < prev0.len() ==> #[trigger] previous_touches@[s] == if s < slot
                    && lifts_slot(prev0, touches, s) {
                    None
                } else {
                    prev0[s]
                },
        decreases max_slots - slot,
    {
        let lift = match previous_touches[slot] {
            Some(a) => slot >= len || touch_reports[slot].id != a,
            None => false,
        };
        if lift {
            events.push(InputEvent::absolute(ABS_MT_SLOT, slot as i32));
            events.push(InputEvent::absolute(ABS_MT_TRACKING_ID, -1));
            previous_touches.set(slot, None);
        }
        slot = slot + 1;
        proof {
            assert(events@ =~= lift_events(prev0, touches, slot as int));
        }
    }
    let ghost lifted = events@;
    let ghost mid = previous_touches@;
    let mut any_touch_active = false;
    let n = if len < max_slots { len } else { max_slots };
    let mut k: usize = 0;
    while k < n
        invariant
            k <= n,
            n == min_int(len as int, max_slots as int),
            max_slots <= i32::MAX,
            max_slots <= prev0.len(),
            len == touches.len(),
            touches == touch_reports@,
            previous_touches@.len() == prev0.len(),
            mid.len() == prev0.len(),
            events@ == lifted + contacts_events(touches, k as int),
            any_touch_active == any_pressed(touches, k as int),
            forall|s: int|
                0 <= s < prev0.len() ==> #[trigger] previous_touches@[s] == if s < k {
                    Some(touches[s].id)
                } else {
                    mid[s]
                },
        decreases n - k,
    {
        let touch = touch_reports[k];
        events.push(InputEvent::absolute(ABS_MT_SLOT, k as i32));
        events.push(InputEvent::absolute(ABS_MT_TRACKING_ID, touch.id as i32));
        events.push(InputEvent::absolute(ABS_MT_POSITION_X, touch.x as i32));
        events.push(InputEvent::absolute(ABS_MT_POSITION_Y, touch.y as i32));
        events.push(InputEvent::absolute(ABS_MT_PRESSURE, touch.force as i32));
        if touch.force > 0 {
            any_touch_active = true;
        }
        previous_touches.set(k, Some(touch.id));
        k = k + 1;
        proof {
            assert(events@ =~= lifted + contacts_events(touches, k as int));
        }
    }
    if any_touch_active && !*touch_state {
        events.push(InputEvent::key(BTN_TOUCH, KEY_PRESSED));
        events.push(InputEvent::key(BTN_TOOL_FINGER, KEY_PRESSED));
        *touch_state = true;
    } else if !any_touch_active && *touch_state {
        events.push(InputEvent::key(BTN_TOUCH, KEY_RELEASED));
        events.push(InputEvent::key(BTN_TOOL_FINGER, KEY_RELEASED));
        *touch_state = false;
    }
    proof {
        assert(events@ =~= touch_events(prev0, touches, max_slots as int, *old(touch_state)));
        assert forall|s: int| 0 <= s < max_slots implies #[trigger] previous_touches@[s]
            == slots_after(touches, max_slots as int)[s] by {
            if s >= n {
                assert(s >= len);
                assert(mid[s] == if lifts_slot(prev0, touches, s) {
                    None
                } else {
                    prev0[s]
                });
            }
        }
    }
    events
}

/// Number of multi-touch slots of the front surface.
pub const FRONT_TOUCHPAD_MAX_SLOTS: usize = 6;
/// Number of multi-touch slots of the rear surface.
pub const REAR_TOUCHPAD_MAX_SLOTS: usize = 4;

/// The events of one report for each of the three virtual nodes. Each non-empty
/// batch ends with a frame boundary.
pub struct DeviceFrames {
    /// Buttons, D-pad and sticks.
    pub main: Vec<InputEvent>,
    /// Multi-touch; empty when no surface feeds the touchpad.
    pub touchpad: Vec<InputEvent>,
    /// Accelerometer and gyro.
    pub sensor: Vec<InputEvent>,
}

/// Why a device could not be set up.
#[derive(Debug)]
pub enum Error {
    /// No preset has this name.
    InvalidConfig(String),
}

/// The translator from Vita reports to DualShock 4 events, with the memory of what
/// the virtual device currently shows.
pub struct VitaDevice {
    config: Config,
    previous_front_touches: Vec<Option<u8>>,
    previous_rear_touches: Vec<Option<u8>>,
    touch_state: bool,
    previous_buttons: ButtonSet,
    previous_hat_x: i32,
    previous_hat_y: i32,
    last_timestamp: u64,
}

/// Whether the tracking-id memory is all empty.
pub open spec fn all_empty(s: Seq<Option<u8>>, n: int) -> bool {
    s.len() == n && forall|i: int| 0 <= i < n ==> (#[trigger] s[i]) is None
}

/// The touchpad batch of a report.
pub open spec fn touchpad_frame(
    src: Option<TouchpadSource>,
    front: Seq<Option<u8>>,
    rear: Seq<Option<u8>>,
    state: bool,
    r: MainReport,
) -> Seq<InputEvent> {
    match src {
        Some(TouchpadSource::Front) => touch_events(
            front,
            r.front_touch@,
            FRONT_TOUCHPAD_MAX_SLOTS as int,
            state,
        ).push(syn_ev()),
        Some(TouchpadSource::Rear) => touch_events(
            rear,
            r.back_touch@,
            REAR_TOUCHPAD_MAX_SLOTS as int,
            state,
        ).push(syn_ev()),
        None => seq![],
    }
}

impl VitaDevice {
    /// The configuration in use.
    pub closed spec fn cfg(&self) -> Config {
        self.config
    }

    /// The buttons the virtual device shows as held.
    pub closed spec fn held(&self) -> Set<Button> {
        self.previous_buttons@
    }

    /// The hat values the virtual device shows.
    pub closed spec fn hat(&self) -> (int, int) {
        (self.previous_hat_x as int, self.previous_hat_y as int)
    }

    /// Tracking id last emitted for each front slot; none after a lift.
    pub closed spec fn front_slots(&self) -> Seq<Option<u8>> {
        self.previous_front_touches@
    }

    /// Tracking id last emitted for each rear slot; none after a lift.
    pub closed spec fn rear_slots(&self) -> Seq<Option<u8>> {
        self.previous_rear_touches@
    }

    /// Whether the touchpad shows a finger down.
    pub closed spec fn touching(&self) -> bool {
        self.touch_state
    }

    /// Timestamp of the last report accepted.
    pub closed spec fn last_accepted(&self) -> u64 {
        self.last_timestamp
    }

    pub closed spec fn wf(&self) -> bool {
        &&& self.config.wf()
        &&& self.previous_buttons.wf()
        &&& self.previous_front_touches@.len() == FRONT_TOUCHPAD_MAX_SLOTS
        &&& self.previous_rear_touches@.len() == REAR_TOUCHPAD_MAX_SLOTS
        &&& -1 <= self.previous_hat_x <= 1
        &&& -1 <= self.previous_hat_y <= 1
    }

    /// The state before any report: nothing held, hat centred, all slots empty.
    pub open spec fn is_fresh(&self) -> bool {
        &&& self.wf()
        &&& self.held() == Set::<Button>::empty()
        &&& self.hat() == (0int, 0int)
        &&& all_empty(self.front_slots(), FRONT_TOUCHPAD_MAX_SLOTS as int)
        &&& all_empty(self.rear_slots(), REAR_TOUCHPAD_MAX_SLOTS as int)
        &&& !self.touching()
        &&& self.last_accepted() == 0
    }

    /// A device in its initial state with the given configuration.
    pub fn new(config: Config) -> (r: VitaDevice)
        requires
            config.wf(),
        ensures
            r.is_fresh(),
            r.cfg() == config,
    {
        VitaDevice {
            config,
            previous_front_touches: vec![None; FRONT_TOUCHPAD_MAX_SLOTS],
            previous_rear_touches: vec![None; REAR_TOUCHPAD_MAX_SLOTS],
            touch_state: false,
            previous_buttons: ButtonSet::new(),
            previous_hat_x: 0,
            previous_hat_y: 0,
            last_timestamp: 0,
        }
    }

    /// A device with the preset of the given name, or `InvalidConfig` with the name
    /// when no preset has it.
    pub fn create(config_name: &str) -> (r: Result<VitaDevice, Error>)
        ensures
            match preset_named(config_name.spec_bytes()) {
                Some(p) => r matches Ok(d) && d.is_fresh() && d.cfg().is_preset(p),
                None => r matches Err(Error::InvalidConfig(s)) && s@ == config_name@,
            },
    {
        match Preset::from_name(config_name) {
            Some(p) => Ok(VitaDevice::new(Config::from_preset(p))),
            None => Err(Error::InvalidConfig(config_name.to_owned())),
        }
    }

    /// The configuration in use.
    #[inline]
    pub fn get_config(&self) -> (r: &Config)
        ensures
            *r == self.cfg(),
    {
        &self.config
    }

    /// Replaces the touch surfaces' and the triggers' configuration with those the
    /// builder sets; the touchpad source and the device's memory stay as they are.
    pub fn set_config(&mut self, config: ConfigBuilder)
        requires
            old(self).wf(),
            config.wf(),
        ensures
            final(self).wf(),
            final(self).cfg().front_touch_config == match config.front_touch_config {
                Some(c) => c,
                None => old(self).cfg().front_touch_config,
            },
            final(self).cfg().rear_touch_config == match config.rear_touch_config {
                Some(c) => c,
                None => old(self).cfg().rear_touch_config,
            },
            final(self).cfg().trigger_config == match config.trigger_config {
                Some(c) => c,
                None => old(self).cfg().trigger_config,
            },
            final(self).cfg().touchpad_source == old(self).cfg().touchpad_source,
            final(self).held() == old(self).held(),
            final(self).hat() == old(self).hat(),
            final(self).front_slots() == old(self).front_slots(),
            final(self).rear_slots() == old(self).rear_slots(),
            final(self).touching() == old(self).touching(),
            final(self).last_accepted() == old(self).last_accepted(),
    {
        let ConfigBuilder { front_touch_config, rear_touch_config, trigger_config, touchpad_source: _ } = config;
        if let Some(c) = front_touch_config {
            self.config.front_touch_config = c;
        }
        if let Some(c) = rear_touch_config {
            self.config.rear_touch_config = c;
        }
        if let Some(t) = trigger_config {
            self.config.trigger_config = t;
        }
    }

    /// Translates one report into events for the three virtual nodes.
    ///
    /// A report whose timestamp is not above the last accepted one is dropped: no
    /// events, no change. Otherwise the main batch holds a press for each button
    /// newly held, then a release for each button no longer held, then the hat axes
    /// that changed, then the sticks; the touchpad batch the lifts and contacts of the
    /// surface that feeds it; the sensor batch the motion axes.
    pub fn send_report(&mut self, report: MainReport) -> (r: DeviceFrames)
        requires
            old(self).wf(),
        ensures
            final(self).wf(),
            final(self).cfg() == old(self).cfg(),
            final(self).last_accepted() >= old(self).last_accepted(),
            report.timestamp <= old(self).last_accepted() ==> {
                &&& r.main@.len() == 0
                &&& r.touchpad@.len() == 0
                &&& r.sensor@.len() == 0
                &&& final(self).held() == old(self).held()
                &&& final(self).hat() == old(self).hat()
                &&& final(self).front_slots() == old(self).front_slots()
                &&& final(self).rear_slots() == old(self).rear_slots()
                &&& final(self).touching() == old(self).touching()
                &&& final(self).last_accepted() == old(self).last_accepted()
            },
            report.timestamp > old(self).last_accepted() ==> {
                let (cur, hat) = report_state(old(self).cfg(), report);
                let prev = old(self).held();
                let src = old(self).cfg().touchpad_source;
                &&& final(self).last_accepted() == report.timestamp
                &&& final(self).held() == cur
                &&& final(self).hat() == hat
                &&& r.main@ == edge_events(prev, cur, BUTTON_COUNT as int, KEY_PRESSED)
                    + edge_events(cur, prev, BUTTON_COUNT as int, KEY_RELEASED)
                    + hat_events(old(self).hat(), hat) + stick_events(report) + seq![syn_ev()]
                &&& r.touchpad@ == touchpad_frame(
                    src,
                    old(self).front_slots(),
                    old(self).rear_slots(),
                    old(self).touching(),
                    report,
                )
                &&& r.sensor@ == motion_events(report.motion).push(syn_ev())
                &&& final(self).front_slots() == if src == Some(TouchpadSource::Front) {
                    slots_after(report.front_touch@, FRONT_TOUCHPAD_MAX_SLOTS as int)
                } else {
                    old(self).front_slots()
                }
                &&& final(self).rear_slots() == if src == Some(TouchpadSource::Rear) {
                    slots_after(report.back_touch@, REAR_TOUCHPAD_MAX_SLOTS as int)
                } else {
                    old(self).rear_slots()
                }
                &&& final(self).touching() == match src {
                    Some(TouchpadSource::Front) => touch_active(
                        report.front_touch@,
                        FRONT_TOUCHPAD_MAX_SLOTS as int,
                    ),
                    Some(TouchpadSource::Rear) => touch_active(
                        report.back_touch@,
                        REAR_TOUCHPAD_MAX_SLOTS as int,
                    ),
                    None => old(self).touching(),
                }
            },
    {
        if report.timestamp <= self.last_timestamp {
            return DeviceFrames { main: Vec::new(), touchpad: Vec::new(), sensor: Vec::new() };
        }
        self.last_timestamp = report.timestamp;
        let main = self.main_frame(&report);
        let touchpad = self.touchpad_frame(&report);
        let mut sensor = create_motion_events(&report);
        sensor.push(InputEvent::synchronize());
        DeviceFrames { main, touchpad, sensor }
    }

    #[verifier::rlimit(40)]
    fn main_frame(&mut self, report: &MainReport) -> (r: Vec<InputEvent>)
        requires
            old(self).wf(),
        ensures
            final(self).wf(),
            final(self).config == old(self).config,
            final(self).last_timestamp == old(self).last_timestamp,
            final(self).previous_front_touches == old(self).previous_front_touches,
            final(self).previous_rear_touches == old(self).previous_rear_touches,
            final(self).touch_state == old(self).touch_state,
            ({
                let (cur, hat) = report_state(old(self).cfg(), *report);
                let prev = old(self).held();
                &&& final(self).held() == cur
                &&& final(self).hat() == hat
                &&& r@ == edge_events(prev, cur, BUTTON_COUNT as int, KEY_PRESSED)
                    + edge_events(cur, prev, BUTTON_COUNT as int, KEY_RELEASED)
                    + hat_events(old(self).hat(), hat) + stick_events(*report) + seq![syn_ev()]
            }),
    {
        let dpad_direction = compute_dpad_direction(&report.buttons);
        let mut hat = dpad_direction_to_axis_values(dpad_direction);
        let pressed_buttons = get_pressed_buttons(&report.buttons, self.config.trigger_config);
        let mut pressed = set_of(&pressed_buttons);

        let mut actions = process_touch_reports(&report.front_touch, &self.config.front_touch_config);
        let mut rear_actions = process_touch_reports(&report.back_touch, &self.config.rear_touch_config);
        actions.append(&mut rear_actions);
        assert(actions@ == report_actions(self.config, *report));
        apply_actions(&mut pressed, &mut hat, &actions);

        let mut main: Vec<InputEvent> = Vec::new();
        push_edge_events(&mut main, &self.previous_buttons, &pressed, KEY_PRESSED);
        push_edge_events(&mut main, &pressed, &self.previous_buttons, KEY_RELEASED);
        let ghost before_hat = main@;
        let (hat_x, hat_y) = hat;
        if hat_x != self.previous_hat_x {
            main.push(InputEvent::absolute(ABS_HAT0X, hat_x));
            self.previous_hat_x = hat_x;
        }
        if hat_y != self.previous_hat_y {
            main.push(InputEvent::absolute(ABS_HAT0Y, hat_y));
            self.previous_hat_y = hat_y;
        }
        proof {
            assert(main@ =~= before_hat + hat_events(old(self).hat(), (hat_x as int, hat_y as int)));
        }
        push_stick_events(&mut main, report);
        main.push(InputEvent::synchronize());
        self.previous_buttons = pressed;
        main
    }

    fn touchpad_frame(&mut self, report: &MainReport) -> (r: Vec<InputEvent>)
        requires
            old(self).wf(),
        ensures
            final(self).wf(),
            final(self).config == old(self).config,
            final(self).last_timestamp == old(self).last_timestamp,
            final(self).previous_buttons == old(self).previous_buttons,
            final(self).previous_hat_x == old(self).previous_hat_x,
            final(self).previous_hat_y == old(self).previous_hat_y,
            ({
                let src = old(self).cfg().touchpad_source;
                &&& r@ == touchpad_frame(
                    src,
                    old(self).front_slots(),
                    old(self).rear_slots(),
                    old(self).touching(),
                    *report,
                )
                &&& final(self).front_slots() == if src == Some(TouchpadSource::Front) {
                    slots_after(report.front_touch@, FRONT_TOUCHPAD_MAX_SLOTS as int)
                } else {
                    old(self).front_slots()
                }
                &&& final(self).rear_slots() == if src == Some(TouchpadSource::Rear) {
                    slots_after(report.back_touch@, REAR_TOUCHPAD_MAX_SLOTS as int)
                } else {
                    old(self).rear_slots()
                }
                &&& final(self).touching() == match src {
                    Some(TouchpadSource::Front) => touch_active(
                        report.front_touch@,
                        FRONT_TOUCHPAD_MAX_SLOTS as int,
                    ),
                    Some(TouchpadSource::Rear) => touch_active(
                        report.back_touch@,
                        REAR_TOUCHPAD_MAX_SLOTS as int,
                    ),
                    None => old(self).touching(),
                }
            }),
    {
        let mut touchpad: Vec<InputEvent> = Vec::new();
        match self.config.touchpad_source {
            Some(TouchpadSource::Front) => {
                touchpad = create_touch_events(
                    &report.front_touch,
                    &mut self.previous_front_touches,
                    FRONT_TOUCHPAD_MAX_SLOTS,
                    &mut self.touch_state,
                );
                touchpad.push(InputEvent::synchronize());
            },
            Some(TouchpadSource::Rear) => {
                touchpad = create_touch_events(
                    &report.back_touch,
                    &mut self.previous_rear_touches,
                    REAR_TOUCHPAD_MAX_SLOTS,
                    &mut self.touch_state,
                );
                touchpad.push(InputEvent::synchronize());
            },
            None => {},
        }
        proof {
            assert(self.previous_front_touches@ =~= if old(self).config.touchpad_source == Some(
                TouchpadSource::Front,
            ) {
                slots_after(report.front_touch@, FRONT_TOUCHPAD_MAX_SLOTS as int)
            } else {
                old(self).previous_front_touches@
            });
            assert(self.previous_rear_touches@ =~= if old(self).config.touchpad_source == Some(
                TouchpadSource::Rear,
            ) {
                slots_after(report.back_touch@, REAR_TOUCHPAD_MAX_SLOTS as int)
            } else {
                old(self).previous_rear_touches@
            });
        }
        touchpad
    }
}

proof fn lemma_edge_events_prefix(from: Set<Button>, to: Set<Button>, n: int, value: i32)
    requires
        0 <= n <= BUTTON_COUNT,
    ensures
        forall|k: int|
            0 <= k < edge_events(from, to, n, value).len() ==> exists|i: int|
                0 <= i < n && #[trigger] edge_events(from, to, n, value)[k] == key_ev(
                    ds4_key(button_at(i)),
                    value,
                ) && to.contains(button_at(i)) && !from.contains(button_at(i)),
        forall|i: int|
            0 <= i < n ==> (#[trigger] edge_events(from, to, n, value).contains(
                key_ev(ds4_key(button_at(i)), value),
            ) <==> to.contains(button_at(i)) && !from.contains(button_at(i))),
        edge_events(from, to, n, value).no_duplicates(),
    decreases n,
{
    if n > 0 {
        lemma_edge_events_prefix(from, to, n - 1, value);
        let e = edge_events(from, to, n, value);
        let p = edge_events(from, to, n - 1, value);
        let b = button_at(n - 1);
        assert forall|i: int, j: int|
            0 <= i < BUTTON_COUNT && 0 <= j < BUTTON_COUNT && i != j implies ds4_key(button_at(i))
            != ds4_key(button_at(j)) by {
            lemma_ds4_key_injective(button_at(i), button_at(j));
            crate::buttons::lemma_button_at(i);
            crate::buttons::lemma_button_at(j);
        }
        assert forall|i: int|
            0 <= i < n implies (#[trigger] e.contains(key_ev(ds4_key(button_at(i)), value))
            <==> to.contains(button_at(i)) && !from.contains(button_at(i))) by {
            let x = key_ev(ds4_key(button_at(i)), value);
            if e.contains(x) {
                let k = choose|k: int| 0 <= k < e.len() && e[k] == x;
                if k < p.len() {
                    assert(p[k] == x);
                    let i2 = choose|i2: int|
                        0 <= i2 < n - 1 && #[trigger] p[k] == key_ev(ds4_key(button_at(i2)), value)
                            && to.contains(button_at(i2)) && !from.contains(button_at(i2));
                    assert(i2 == i);
                }
            }
            if to.contains(button_at(i)) && !from.contains(button_at(i)) {
                if i < n - 1 {
                    assert(p.contains(x));
                    let k = choose|k: int| 0 <= k < p.len() && p[k] == x;
                    assert(e[k] == x);
                } else {
                    assert(e[p.len() as int] == x);
                }
            }
        }
        assert forall|k: int| 0 <= k < e.len() implies exists|i: int|
            0 <= i < n && #[trigger] e[k] == key_ev(ds4_key(button_at(i)), value) && to.contains(
                button_at(i),
            ) && !from.contains(button_at(i)) by {
            if k < p.len() {
                assert(e[k] == p[k]);
            } else {
                assert(e[k] == key_ev(ds4_key(b), value));
            }
        }
        if to.contains(b) && !from.contains(b) {
            assert forall|k: int| 0 <= k < p.len() implies p[k] != key_ev(ds4_key(b), value) by {
                let i2 = choose|i2: int|
                    0 <= i2 < n - 1 && #[trigger] p[k] == key_ev(ds4_key(button_at(i2)), value)
                        && to.contains(button_at(i2)) && !from.contains(button_at(i2));
            }
            assert forall|x: int, y: int|
                0 <= x < e.len() && 0 <= y < e.len() && x != y implies e[x] != e[y] by {
                if x < p.len() && y < p.len() {
                    assert(e[x] == p[x] && e[y] == p[y]);
                }
            }
        } else {
            assert(e =~= p);
        }
    }
}

/// Between two consecutive reports holding the button sets `previous` and `current`,
/// the presses name each button of `current` not in `previous` exactly once, the
/// releases each button of `previous` not in `current` exactly once, and nothing else.
#[verifier::spinoff_prover]
pub proof fn lemma_button_edges(previous: Set<Button>, current: Set<Button>)
    ensures
        ({
            let presses = edge_events(previous, current, BUTTON_COUNT as int, KEY_PRESSED);
            let releases = edge_events(current, previous, BUTTON_COUNT as int, KEY_RELEASED);
            &&& presses.no_duplicates()
            &&& releases.no_duplicates()
            &&& forall|b: Button|
                #[trigger] presses.contains(key_ev(ds4_key(b), KEY_PRESSED)) <==> (current.contains(
                    b,
                ) && !previous.contains(b))
            &&& forall|b: Button|
                #[trigger] releases.contains(key_ev(ds4_key(b), KEY_RELEASED)) <==> (
                previous.contains(b) && !current.contains(b))
            &&& forall|k: int|
                #![trigger presses[k]]
                0 <= k < presses.len() ==> exists|b: Button|
                    presses[k] == key_ev(#[trigger] ds4_key(b), KEY_PRESSED) && current.contains(b)
                        && !previous.contains(b)
            &&& forall|k: int|
                #![trigger releases[k]]
                0 <= k < releases.len() ==> exists|b: Button|
                    releases[k] == key_ev(#[trigger] ds4_key(b), KEY_RELEASED) && previous.contains(
                        b,
                    ) && !current.contains(b)
        }),
{
    let n = BUTTON_COUNT as int;
    lemma_edge_events_prefix(previous, current, n, KEY_PRESSED);
    lemma_edge_events_prefix(current, previous, n, KEY_RELEASED);
    let presses = edge_events(previous, current, n, KEY_PRESSED);
    let releases = edge_events(current, previous, n, KEY_RELEASED);
    assert forall|b: Button| #[trigger] presses.contains(key_ev(ds4_key(b), KEY_PRESSED)) <==> (
    current.contains(b) && !previous.contains(b)) by {
        lemma_button_index(b);
        assert(presses.contains(key_ev(ds4_key(button_at(button_index(b))), KEY_PRESSED)) <==> (
        current.contains(button_at(button_index(b))) && !previous.contains(
            button_at(button_index(b)),
        )));
    }
    assert forall|b: Button| #[trigger] releases.contains(key_ev(ds4_key(b), KEY_RELEASED)) <==> (
    previous.contains(b) && !current.contains(b)) by {
        lemma_button_index(b);
        assert(releases.contains(key_ev(ds4_key(button_at(button_index(b))), KEY_RELEASED)) <==> (
        previous.contains(button_at(button_index(b))) && !current.contains(
            button_at(button_index(b)),
        )));
    }
    assert forall|k: int| #![trigger presses[k]] 0 <= k < presses.len() implies exists|b: Button|
        presses[k] == key_ev(#[trigger] ds4_key(b), KEY_PRESSED) && current.contains(b)
            && !previous.contains(b) by {
        let i = choose|i: int|
            0 <= i < n && #[trigger] presses[k] == key_ev(ds4_key(button_at(i)), KEY_PRESSED)
                && current.contains(button_at(i)) && !previous.contains(button_at(i));
        let b = button_at(i);
        assert(presses[k] == key_ev(ds4_key(b), KEY_PRESSED));
    }
    assert forall|k: int| #![trigger releases[k]] 0 <= k < releases.len() implies exists|b: Button|
        releases[k] == key_ev(#[trigger] ds4_key(b), KEY_RELEASED) && previous.contains(b)
            && !current.contains(b) by {
        let i = choose|i: int|
            0 <= i < n && #[trigger] releases[k] == key_ev(ds4_key(button_at(i)), KEY_RELEASED)
                && previous.contains(button_at(i)) && !current.contains(button_at(i));
        let b = button_at(i);
        assert(releases[k] == key_ev(ds4_key(b), KEY_RELEASED));
    }
}

/// Whether an event sets a tracking id.
pub open spec fn is_tracking(e: InputEvent) -> bool {
    e.kind == EV_ABS && e.code == ABS_MT_TRACKING_ID
}

/// The tracking ids a batch sets for slot `s`: the value of each tracking-id event
/// that directly follows the selection of slot `s`.
pub open spec fn slot_ids(ev: Seq<InputEvent>, s: int) -> Seq<i32>
    decreases ev.len(),
{
    if ev.len() < 2 {
        seq![]
    } else {
        slot_ids(ev.drop_last(), s) + if is_tracking(ev.last()) && ev[ev.len() - 2] == abs_ev(
            ABS_MT_SLOT,
            s as i32,
        ) {
            seq![ev.last().value]
        } else {
            seq![]
        }
    }
}

proof fn lemma_slot_ids_append(a: Seq<InputEvent>, b: Seq<InputEvent>, s: int)
    requires
        b.len() > 0 ==> !is_tracking(b[0]),
    ensures
        slot_ids(a + b, s) == slot_ids(a, s) + slot_ids(b, s),
    decreases b.len(),
{
    if b.len() == 0 {
        assert(a + b =~= a);
        assert(slot_ids(a, s) + seq![] =~= slot_ids(a, s));
    } else if b.len() == 1 {
        assert((a + b).drop_last() =~= a);
        assert(slot_ids(a, s) + seq![] =~= slot_ids(a, s));
        if a.len() == 0 {
            assert(a + b =~= b);
        }
    } else {
        lemma_slot_ids_append(a, b.drop_last(), s);
        assert((a + b).drop_last() =~= a + b.drop_last());
        assert((a + b)[(a + b).len() - 2] == b[b.len() - 2]);
        assert(slot_ids(a, s) + slot_ids(b.drop_last(), s) + if is_tracking(b.last()) && b[b.len()
            - 2] == abs_ev(ABS_MT_SLOT, s as i32) {
            seq![b.last().value]
        } else {
            seq![]
        } =~= slot_ids(a, s) + slot_ids(b, s));
    }
}

proof fn lemma_slot_ids_pair(x: InputEvent, y: InputEvent, s: int)
    ensures
        slot_ids(seq![x, y], s) == if is_tracking(y) && x == abs_ev(ABS_MT_SLOT, s as i32) {
            seq![y.value]
        } else {
            seq![]
        },
{
    let ev = seq![x, y];
    assert(ev.drop_last() =~= seq![x]);
    assert(slot_ids(seq![x], s) == Seq::<i32>::empty());
    assert(ev.last() == y && ev[0] == x);
    assert(seq![] + slot_ids(ev, s) =~= slot_ids(ev, s));
    assert(Seq::<i32>::empty() + (if is_tracking(y) && x == abs_ev(ABS_MT_SLOT, s as i32) {
        seq![y.value]
    } else {
        seq![]
    }) =~= (if is_tracking(y) && x == abs_ev(ABS_MT_SLOT, s as i32) {
        seq![y.value]
    } else {
        seq![]
    }));
}

proof fn lemma_slot_ids_lifts(prev: Seq<Option<u8>>, touches: Seq<TouchPoint>, n: int, s: int)
    requires
        0 <= s,
        n <= i32::MAX,
        s <= i32::MAX,
    ensures
        slot_ids(lift_events(prev, touches, n), s) == if s < n && lifts_slot(prev, touches, s) {
            seq![-1i32]
        } else {
            seq![]
        },
    decreases n,
{
    if n > 0 {
        lemma_slot_ids_lifts(prev, touches, n - 1, s);
        let k = n - 1;
        let chunk = if lifts_slot(prev, touches, k) {
            seq![abs_ev(ABS_MT_SLOT, k as i32), abs_ev(ABS_MT_TRACKING_ID, -1i32)]
        } else {
            seq![]
        };
        lemma_slot_ids_append(lift_events(prev, touches, k), chunk, s);
        if chunk.len() > 0 {
            lemma_slot_ids_pair(abs_ev(ABS_MT_SLOT, k as i32), abs_ev(ABS_MT_TRACKING_ID, -1i32), s);
        }
        let r = slot_ids(lift_events(prev, touches, k), s) + slot_ids(chunk, s);
        assert(r =~= if s < n && lifts_slot(prev, touches, s) {
            seq![-1i32]
        } else {
            seq![]
        });
    }
}

proof fn lemma_slot_ids_contact(t: TouchPoint, k: int, s: int)
    requires
        0 <= k <= i32::MAX,
        0 <= s <= i32::MAX,
    ensures
        slot_ids(contact_events(t, k), s) == if k == s {
            seq![t.id as i32]
        } else {
            seq![]
        },
{
    let c = contact_events(t, k);
    let pair = seq![c[0], c[1]];
    lemma_slot_ids_pair(c[0], c[1], s);
    assert(c =~= pair + seq![c[2]] + seq![c[3]] + seq![c[4]]);
    lemma_slot_ids_append(pair, seq![c[2]], s);
    lemma_slot_ids_append(pair + seq![c[2]], seq![c[3]], s);
    lemma_slot_ids_append(pair + seq![c[2]] + seq![c[3]], seq![c[4]], s);
    assert(slot_ids(seq![c[2]], s) == Seq::<i32>::empty());
    assert(slot_ids(seq![c[3]], s) == Seq::<i32>::empty());
    assert(slot_ids(seq![c[4]], s) == Seq::<i32>::empty());
    assert(slot_ids(c, s) =~= slot_ids(pair, s));
}

proof fn lemma_slot_ids_contacts(touches: Seq<TouchPoint>, n: int, s: int)
    requires
        0 <= s,
        n <= touches.len(),
        n <= i32::MAX,
        s <= i32::MAX,
    ensures
        slot_ids(contacts_events(touches, n), s) == if s < n {
            seq![touches[s].id as i32]
        } else {
            seq![]
        },
    decreases n,
{
    if n > 0 {
        lemma_slot_ids_contacts(touches, n - 1, s);
        lemma_slot_ids_append(
            contacts_events(touches, n - 1),
            contact_events(touches[n - 1], n - 1),
            s,
        );
        lemma_slot_ids_contact(touches[n - 1], n - 1, s);
        let r = slot_ids(contacts_events(touches, n - 1), s) + slot_ids(
            contact_events(touches[n - 1], n - 1),
            s,
        );
        assert(r =~= if s < n {
            seq![touches[s].id as i32]
        } else {
            seq![]
        });
    }
}

/// The tracking ids one report sets for slot `s`: a lift (−1) when the slot held a
/// finger that is gone or replaced by another id, then the id of the slot's touch,
/// if any.
pub open spec fn step_ids(prev: Seq<Option<u8>>, touches: Seq<TouchPoint>, s: int) -> Seq<i32> {
    (if lifts_slot(prev, touches, s) {
        seq![-1i32]
    } else {
        seq![]
    }) + (if s < touches.len() {
        seq![touches[s].id as i32]
    } else {
        seq![]
    })
}

/// For each slot, one report's touch events set the ids of `step_ids`: a lift exactly
/// when the slot held a finger that is gone or has another id, then the id of the
/// slot's touch; and the slot memory afterwards is the id last set, none after a
/// lift.
pub proof fn lemma_tracking_ids(
    prev: Seq<Option<u8>>,
    touches: Seq<TouchPoint>,
    max_slots: int,
    state: bool,
    s: int,
)
    requires
        prev.len() == max_slots,
        0 <= s < max_slots,
        max_slots <= i32::MAX,
    ensures
        ({
            let ids = slot_ids(touch_events(prev, touches, max_slots, state), s);
            &&& ids == step_ids(prev, touches, s)
            &&& slots_after(touches, max_slots)[s] == if s < touches.len() {
                Some(touches[s].id)
            } else {
                None
            }
        }),
{
    let n = min_int(touches.len() as int, max_slots);
    let lifts = lift_events(prev, touches, max_slots);
    let contacts = contacts_events(touches, n);
    let fingers = finger_events(touch_active(touches, max_slots), state);
    lemma_slot_ids_lifts(prev, touches, max_slots, s);
    lemma_slot_ids_contacts(touches, n, s);
    if n > 0 {
        assert(contacts_events(touches, n)[0] == abs_ev(ABS_MT_SLOT, 0)) by {
            lemma_contacts_first(touches, n);
        }
    }
    lemma_slot_ids_append(lifts, contacts, s);
    lemma_slot_ids_append(lifts + contacts, fingers, s);
    assert(slot_ids(fingers, s) == Seq::<i32>::empty()) by {
        if fingers.len() > 0 {
            lemma_slot_ids_pair(fingers[0], fingers[1], s);
            assert(fingers =~= seq![fingers[0], fingers[1]]);
        }
    }
    let ids = slot_ids(touch_events(prev, touches, max_slots, state), s);
    assert(ids =~= step_ids(prev, touches, s));
}

proof fn lemma_contacts_first(touches: Seq<TouchPoint>, n: int)
    requires
        0 < n <= touches.len(),
    ensures
        contacts_events(touches, n).len() >= 1,
        contacts_events(touches, n)[0] == abs_ev(ABS_MT_SLOT, 0),
    decreases n,
{
    let a = contacts_events(touches, n - 1);
    let b = contact_events(touches[n - 1], n - 1);
    assert(contacts_events(touches, n) == a + b);
    if n > 1 {
        lemma_contacts_first(touches, n - 1);
        assert((a + b)[0] == a[0]);
    } else {
        assert(a.len() == 0);
        assert((a + b)[0] == b[0]);
    }
}

/// The tracking ids a slot shows over a stream of touch lists on one surface, each
/// list sent as one report, starting from slot memory `prev` and touch state `state`.
pub open spec fn stream_ids(
    prev: Seq<Option<u8>>,
    reports: Seq<Seq<TouchPoint>>,
    max_slots: int,
    state: bool,
    s: int,
) -> Seq<i32>
    decreases reports.len(),
{
    if reports.len() == 0 {
        seq![]
    } else {
        let ts = reports[0];
        slot_ids(touch_events(prev, ts, max_slots, state), s) + stream_ids(
            slots_after(ts, max_slots),
            reports.drop_first(),
            max_slots,
            touch_active(ts, max_slots),
            s,
        )
    }
}

/// Two different fingers never follow each other without a lift between them.
pub open spec fn lifts_separate(ids: Seq<i32>) -> bool {
    forall|i: int, j: int|
        0 <= i < j < ids.len() && ids[i] >= 0 && ids[j] >= 0 && ids[i] != ids[j] ==> exists|k: int|
            i < k < j && #[trigger] ids[k] == -1
}

/// Every lift follows a finger: the first one follows a finger held in the memory.
pub open spec fn lifts_follow_fingers(ids: Seq<i32>, held: bool) -> bool {
    &&& (ids.len() > 0 && ids[0] < 0 ==> held)
    &&& forall|i: int| 0 < i < ids.len() && #[trigger] ids[i] < 0 ==> ids[i - 1] >= 0
}

/// Until the first lift, a slot that holds finger `a` shows no other id.
pub open spec fn held_until_lift(ids: Seq<i32>, held: Option<u8>) -> bool {
    held matches Some(a) ==> forall|j: int|
        0 <= j < ids.len() && ids[j] >= 0 && (forall|k: int| 0 <= k < j ==> ids[k] != -1) ==> #[trigger] ids[j]
            == a as i32
}

proof fn lemma_prepend_finger_separates(a: u8, rest: Seq<i32>)
    requires
        lifts_separate(rest),
        held_until_lift(rest, Some(a)),
    ensures
        lifts_separate(seq![a as i32] + rest),
{
    let v = a as i32;
    let ids = seq![v] + rest;
    assert forall|i: int, j: int|
        0 <= i < j < ids.len() && ids[i] >= 0 && ids[j] >= 0 && ids[i] != ids[j] implies exists|k: int|
        i < k < j && #[trigger] ids[k] == -1 by {
        assert(ids[j] == rest[j - 1]);
        if i == 0 {
            if forall|k: int| 0 <= k < j - 1 ==> rest[k] != -1 {
                assert(rest[j - 1] == v);
            } else {
                let k = choose|k: int| 0 <= k < j - 1 && rest[k] == -1;
                assert(ids[k + 1] == -1);
            }
        } else {
            assert(ids[i] == rest[i - 1]);
            let k = choose|k: int| i - 1 < k < j - 1 && #[trigger] rest[k] == -1;
            assert(ids[k + 1] == -1);
        }
    }
}

proof fn lemma_prepend_finger_follows(a: u8, rest: Seq<i32>, held: bool)
    requires
        lifts_follow_fingers(rest, true),
    ensures
        lifts_follow_fingers(seq![a as i32] + rest, held),
{
    let ids = seq![a as i32] + rest;
    assert forall|i: int| 0 < i < ids.len() && #[trigger] ids[i] < 0 implies ids[i - 1] >= 0 by {
        assert(ids[i] == rest[i - 1]);
        if i > 1 {
            assert(rest[i - 1] < 0);
            assert(ids[i - 1] == rest[i - 2]);
        }
    }
}

proof fn lemma_prepend_finger_held(a: u8, rest: Seq<i32>, held: Option<u8>)
    requires
        held is None || held == Some(a),
        held_until_lift(rest, Some(a)),
    ensures
        held_until_lift(seq![a as i32] + rest, held),
{
    let ids = seq![a as i32] + rest;
    if held is Some {
        assert forall|j: int|
            0 <= j < ids.len() && ids[j] >= 0 && (forall|k: int| 0 <= k < j ==> ids[k] != -1)
                implies #[trigger] ids[j] == a as i32 by {
            if j > 0 {
                assert(ids[j] == rest[j - 1]);
                assert forall|k: int| 0 <= k < j - 1 implies rest[k] != -1 by {
                    assert(ids[k + 1] == rest[k]);
                }
            }
        }
    }
}

proof fn lemma_prepend_finger(a: u8, rest: Seq<i32>, held: Option<u8>)
    requires
        held is None || held == Some(a),
        lifts_separate(rest),
        lifts_follow_fingers(rest, true),
        held_until_lift(rest, Some(a)),
    ensures
        lifts_separate(seq![a as i32] + rest),
        lifts_follow_fingers(seq![a as i32] + rest, held is Some),
        held_until_lift(seq![a as i32] + rest, held),
{
    lemma_prepend_finger_separates(a, rest);
    lemma_prepend_finger_follows(a, rest, held is Some);
    lemma_prepend_finger_held(a, rest, held);
}

#[verifier::spinoff_prover]
proof fn lemma_prepend_lift(rest: Seq<i32>, held: Option<u8>)
    requires
        held is Some,
        lifts_separate(rest),
        lifts_follow_fingers(rest, false),
    ensures
        lifts_separate(seq![-1i32] + rest),
        lifts_follow_fingers(seq![-1i32] + rest, true),
        held_until_lift(seq![-1i32] + rest, held),
{
    let ids = seq![-1i32] + rest;
    assert forall|i: int, j: int|
        0 <= i < j < ids.len() && ids[i] >= 0 && ids[j] >= 0 && ids[i] != ids[j] implies exists|k: int|
        i < k < j && #[trigger] ids[k] == -1 by {
        assert(ids[i] == rest[i - 1] && ids[j] == rest[j - 1]);
        let k = choose|k: int| i - 1 < k < j - 1 && #[trigger] rest[k] == -1;
        assert(ids[k + 1] == -1);
    }
    assert forall|i: int| 0 < i < ids.len() && #[trigger] ids[i] < 0 implies ids[i - 1] >= 0 by {
        assert(ids[i] == rest[i - 1]);
        if i > 1 {
            assert(rest[i - 1] < 0);
            assert(ids[i - 1] == rest[i - 2]);
        }
    }
    assert forall|j: int|
        0 <= j < ids.len() && ids[j] >= 0 && (forall|k: int| 0 <= k < j ==> ids[k] != -1)
            implies #[trigger] ids[j] == held->0 as i32 by {
        if j > 0 {
            assert(ids[0] == -1);
        }
    }
}

proof fn lemma_stream_ids(
    prev: Seq<Option<u8>>,
    reports: Seq<Seq<TouchPoint>>,
    max_slots: int,
    state: bool,
    s: int,
)
    requires
        prev.len() == max_slots,
        0 <= s < max_slots,
        max_slots <= i32::MAX,
    ensures
        ({
            let ids = stream_ids(prev, reports, max_slots, state, s);
            &&& lifts_separate(ids)
            &&& lifts_follow_fingers(ids, prev[s] is Some)
            &&& held_until_lift(ids, prev[s])
        }),
    decreases reports.len(),
{
    if reports.len() > 0 {
        let ts = reports[0];
        let tail = reports.drop_first();
        let m1 = slots_after(ts, max_slots);
        let st1 = touch_active(ts, max_slots);
        lemma_tracking_ids(prev, ts, max_slots, state, s);
        lemma_stream_ids(m1, tail, max_slots, st1, s);
        let step = slot_ids(touch_events(prev, ts, max_slots, state), s);
        let rest = stream_ids(m1, tail, max_slots, st1, s);
        if s < ts.len() {
            let b = ts[s].id;
            if prev[s] is Some && prev[s] != Some(b) {
                lemma_prepend_finger(b, rest, None);
                lemma_prepend_lift(seq![b as i32] + rest, prev[s]);
                assert(step == seq![-1i32, b as i32]);
                assert(step + rest =~= seq![-1i32] + (seq![b as i32] + rest));
            } else {
                lemma_prepend_finger(b, rest, prev[s]);
                assert(step =~= seq![b as i32]);
            }
        } else if prev[s] is Some {
            lemma_prepend_lift(rest, prev[s]);
            assert(step =~= seq![-1i32]);
        } else {
            assert(step + rest =~= rest);
        }
    }
}

/// Over any stream of reports, the ids a slot shows alternate between fingers and
/// lifts: two different fingers always have a lift (−1) between them, and every lift
/// follows a finger.
pub proof fn lemma_tracking_stream(
    prev: Seq<Option<u8>>,
    reports: Seq<Seq<TouchPoint>>,
    max_slots: int,
    state: bool,
    s: int,
)
    requires
        prev.len() == max_slots,
        0 <= s < max_slots,
        max_slots <= i32::MAX,
    ensures
        lifts_separate(stream_ids(prev, reports, max_slots, state, s)),
        lifts_follow_fingers(stream_ids(prev, reports, max_slots, state, s), prev[s] is Some),
{
    lemma_stream_ids(prev, reports, max_slots, state, s);
}

} // verus!
