use vstd::prelude::*;
use crate::events::{
    BTN_EAST, BTN_NORTH, BTN_SELECT, BTN_SOUTH, BTN_START, BTN_THUMBL, BTN_THUMBR, BTN_TL, BTN_TL2,
    BTN_TR, BTN_TR2, BTN_WEST,
};

verus! {

/// The twelve abstract buttons of the virtual controller.
#[derive(Clone, Copy, Debug, PartialEq, Eq, Structural)]
pub enum Button {
    ThumbRight,
    ThumbLeft,
    Options,
    Share,
    TriggerRight,
    TriggerLeft,
    ShoulderRight,
    ShoulderLeft,
    Triangle,
    Circle,
    Cross,
    Square,
}

/// The nine positions of the D-pad: eight compass points and none.
#[derive(Clone, Copy, Debug, PartialEq, Eq, Structural)]
pub enum DpadDirection {
    North,
    NorthEast,
    East,
    SouthEast,
    South,
    SouthWest,
    West,
    NorthWest,
    Neutral,
}

/// How the Vita's LT/RT buttons show up on the virtual controller.
#[derive(Clone, Copy, Debug, PartialEq, Eq, Structural)]
pub enum TriggerConfig {
    /// LT/RT act as L1/R1.
    Shoulder,
    /// LT/RT act as L2/R2.
    Trigger,
}

impl TriggerConfig {
    pub fn default() -> (r: TriggerConfig)
        ensures
            r == TriggerConfig::Shoulder,
    {
        TriggerConfig::Shoulder
    }
}

/// The digital buttons of one Vita report.
#[derive(Clone, Copy, Debug, PartialEq, Eq, Structural)]
pub struct ButtonsData {
    pub up: bool,
    pub down: bool,
    pub left: bool,
    pub right: bool,
    pub cross: bool,
    pub circle: bool,
    pub square: bool,
    pub triangle: bool,
    pub start: bool,
    pub select: bool,
    pub lt: bool,
    pub rt: bool,
    pub ps: bool,
    pub vol_up: bool,
    pub vol_down: bool,
}

/// Number of abstract buttons.
pub const BUTTON_COUNT: usize = 12;

/// Position of a button in the fixed order in which buttons are walked.
pub open spec fn button_index(b: Button) -> int {
    match b {
        Button::ThumbRight => 0,
        Button::ThumbLeft => 1,
        Button::Options => 2,
        Button::Share => 3,
        Button::TriggerRight => 4,
        Button::TriggerLeft => 5,
        Button::ShoulderRight => 6,
        Button::ShoulderLeft => 7,
        Button::Triangle => 8,
        Button::Circle => 9,
        Button::Cross => 10,
        Button::Square => 11,
    }
}

/// The button at a position of the fixed order.
pub open spec fn button_at(i: int) -> Button {
    if i == 0 {
        Button::ThumbRight
    } else if i == 1 {
        Button::ThumbLeft
    } else if i == 2 {
        Button::Options
    } else if i == 3 {
        Button::Share
    } else if i == 4 {
        Button::TriggerRight
    } else if i == 5 {
        Button::TriggerLeft
    } else if i == 6 {
        Button::ShoulderRight
    } else if i == 7 {
        Button::ShoulderLeft
    } else if i == 8 {
        Button::Triangle
    } else if i == 9 {
        Button::Circle
    } else if i == 10 {
        Button::Cross
    } else {
        Button::Square
    }
}

pub proof fn lemma_button_index(b: Button)
    ensures
        0 <= button_index(b) < BUTTON_COUNT,
        button_at(button_index(b)) == b,
{
}

pub proof fn lemma_button_at(i: int)
    requires
        0 <= i < BUTTON_COUNT,
    ensures
        button_index(button_at(i)) == i,
{
}

pub fn button_from_index(i: usize) -> (r: Button)
    requires
        i < BUTTON_COUNT,
    ensures
        r == button_at(i as int),
{
    match i {
        0 => Button::ThumbRight,
        1 => Button::ThumbLeft,
        2 => Button::Options,
        3 => Button::Share,
        4 => Button::TriggerRight,
        5 => Button::TriggerLeft,
        6 => Button::ShoulderRight,
        7 => Button::ShoulderLeft,
        8 => Button::Triangle,
        9 => Button::Circle,
        10 => Button::Cross,
        _ => Button::Square,
    }
}

pub fn index_of_button(b: Button) -> (r: usize)
    ensures
        r as int == button_index(b),
{
    match b {
        Button::ThumbRight => 0,
        Button::ThumbLeft => 1,
        Button::Options => 2,
        Button::Share => 3,
        Button::TriggerRight => 4,
        Button::TriggerLeft => 5,
        Button::ShoulderRight => 6,
        Button::ShoulderLeft => 7,
        Button::Triangle => 8,
        Button::Circle => 9,
        Button::Cross => 10,
        Button::Square => 11,
    }
}

/// The evdev key code that stands for each button on a DualShock 4.
pub open spec fn ds4_key(b: Button) -> u16 {
    match b {
        Button::ThumbRight => BTN_THUMBR,
        Button::ThumbLeft => BTN_THUMBL,
        Button::Options => BTN_START,
        Button::Share => BTN_SELECT,
        Button::TriggerRight => BTN_TR,
        Button::TriggerLeft => BTN_TL,
        Button::ShoulderRight => BTN_TR2,
        Button::ShoulderLeft => BTN_TL2,
        Button::Triangle => BTN_NORTH,
        Button::Circle => BTN_EAST,
        Button::Cross => BTN_SOUTH,
        Button::Square => BTN_WEST,
    }
}

/// Maps a button to its DualShock 4 key code.
pub fn map_button_to_ds4(button: Button) -> (r: u16)
    ensures
        r == ds4_key(button),
{
    match button {
        Button::ThumbRight => BTN_THUMBR,
        Button::ThumbLeft => BTN_THUMBL,
        Button::Options => BTN_START,
        Button::Share => BTN_SELECT,
        Button::TriggerRight => BTN_TR,
        Button::TriggerLeft => BTN_TL,
        Button::ShoulderRight => BTN_TR2,
        Button::ShoulderLeft => BTN_TL2,
        Button::Triangle => BTN_NORTH,
        Button::Circle => BTN_EAST,
        Button::Cross => BTN_SOUTH,
        Button::Square => BTN_WEST,
    }
}

/// Distinct buttons have distinct key codes.
pub proof fn lemma_ds4_key_injective(a: Button, b: Button)
    ensures
        ds4_key(a) == ds4_key(b) ==> a == b,
{
}

/// The D-pad direction of four arrow buttons; an ambiguous combination is none.
pub open spec fn dpad_of(up: bool, down: bool, left: bool, right: bool) -> DpadDirection {
    match (up, down, left, right) {
        (true, false, false, false) => DpadDirection::North,
        (true, false, true, false) => DpadDirection::NorthWest,
        (true, false, false, true) => DpadDirection::NorthEast,
        (false, true, false, false) => DpadDirection::South,
        (false, true, true, false) => DpadDirection::SouthWest,
        (false, true, false, true) => DpadDirection::SouthEast,
        (false, false, true, false) => DpadDirection::West,
        (false, false, false, true) => DpadDirection::East,
        _ => DpadDirection::Neutral,
    }
}

/// Computes the D-pad direction from the arrow buttons of a report.
pub fn compute_dpad_direction(buttons: &ButtonsData) -> (r: DpadDirection)
    ensures
        r == dpad_of(buttons.up, buttons.down, buttons.left, buttons.right),
{
    match (buttons.up, buttons.down, buttons.left, buttons.right) {
        (true, false, false, false) => DpadDirection::North,
        (true, false, true, false) => DpadDirection::NorthWest,
        (true, false, false, true) => DpadDirection::NorthEast,
        (false, true, false, false) => DpadDirection::South,
        (false, true, true, false) => DpadDirection::SouthWest,
        (false, true, false, true) => DpadDirection::SouthEast,
        (false, false, true, false) => DpadDirection::West,
        (false, false, false, true) => DpadDirection::East,
        _ => DpadDirection::Neutral,
    }
}

/// Hat axis values `(x, y)` of a direction; north is negative y.
pub open spec fn hat_of(d: DpadDirection) -> (int, int) {
    match d {
        DpadDirection::North => (0, -1),
        DpadDirection::NorthEast => (1, -1),
        DpadDirection::East => (1, 0),
        DpadDirection::SouthEast => (1, 1),
        DpadDirection::South => (0, 1),
        DpadDirection::SouthWest => (-1, 1),
        DpadDirection::West => (-1, 0),
        DpadDirection::NorthWest => (-1, -1),
        DpadDirection::Neutral => (0, 0),
    }
}

/// Converts a D-pad direction to hat axis values for uinput.
pub fn dpad_direction_to_axis_values(direction: DpadDirection) -> (r: (i32, i32))
    ensures
        (r.0 as int, r.1 as int) == hat_of(direction),
{
    match direction {
        DpadDirection::North => (0, -1),
        DpadDirection::NorthEast => (1, -1),
        DpadDirection::East => (1, 0),
        DpadDirection::SouthEast => (1, 1),
        DpadDirection::South => (0, 1),
        DpadDirection::SouthWest => (-1, 1),
        DpadDirection::West => (-1, 0),
        DpadDirection::NorthWest => (-1, -1),
        DpadDirection::Neutral => (0, 0),
    }
}

pub open spec fn opt_button(pressed: bool, b: Button) -> Seq<Button> {
    if pressed {
        seq![b]
    } else {
        seq![]
    }
}

/// The button that LT stands for under a trigger configuration.
pub open spec fn left_trigger_button(tc: TriggerConfig) -> Button {
    match tc {
        TriggerConfig::Shoulder => Button::ShoulderLeft,
        TriggerConfig::Trigger => Button::TriggerLeft,
    }
}

/// The button that RT stands for under a trigger configuration.
pub open spec fn right_trigger_button(tc: TriggerConfig) -> Button {
    match tc {
        TriggerConfig::Shoulder => Button::ShoulderRight,
        TriggerConfig::Trigger => Button::TriggerRight,
    }
}

/// The buttons held in a report, in the order face buttons, Options, Share, then the
/// two triggers as the trigger configuration maps them.
pub open spec fn pressed_seq(rb: ButtonsData, tc: TriggerConfig) -> Seq<Button> {
    opt_button(rb.circle, Button::Circle) + opt_button(rb.square, Button::Square) + opt_button(
        rb.cross,
        Button::Cross,
    ) + opt_button(rb.triangle, Button::Triangle) + opt_button(rb.start, Button::Options)
        + opt_button(rb.select, Button::Share) + opt_button(rb.lt, left_trigger_button(tc))
        + opt_button(rb.rt, right_trigger_button(tc))
}

fn push_if(v: &mut Vec<Button>, pressed: bool, b: Button)
    ensures
        final(v)@ == old(v)@ + opt_button(pressed, b),
{
    if pressed {
        v.push(b);
    }
    proof {
        assert(final(v)@ =~= old(v)@ + opt_button(pressed, b));
    }
}

/// Lists the buttons held in a report under a trigger configuration.
pub fn get_pressed_buttons(report_buttons: &ButtonsData, trigger_config: TriggerConfig) -> (r: Vec<
    Button,
>)
    ensures
        r@ == pressed_seq(*report_buttons, trigger_config),
{
    let mut v: Vec<Button> = Vec::new();
    assert(v@ =~= Seq::<Button>::empty());
    push_if(&mut v, report_buttons.circle, Button::Circle);
    assert(v@ =~= opt_button(report_buttons.circle, Button::Circle));
    push_if(&mut v, report_buttons.square, Button::Square);
    push_if(&mut v, report_buttons.cross, Button::Cross);
    push_if(&mut v, report_buttons.triangle, Button::Triangle);
    push_if(&mut v, report_buttons.start, Button::Options);
    push_if(&mut v, report_buttons.select, Button::Share);
    let (left, right) = match trigger_config {
        TriggerConfig::Shoulder => (Button::ShoulderLeft, Button::ShoulderRight),
        TriggerConfig::Trigger => (Button::TriggerLeft, Button::TriggerRight),
    };
    push_if(&mut v, report_buttons.lt, left);
    push_if(&mut v, report_buttons.rt, right);
    v
}

/// A set of abstract buttons, one flag per button in the fixed order.
pub struct ButtonSet {
    held: Vec<bool>,
}

impl ButtonSet {
    pub closed spec fn wf(&self) -> bool {
        self.held@.len() == BUTTON_COUNT
    }

    /// The buttons in the set.
    pub closed spec fn view(&self) -> Set<Button> {
        Set::new(|b: Button| self.held@[button_index(b)])
    }

    pub fn new() -> (r: ButtonSet)
        ensures
            r.wf(),
            r.view() == Set::<Button>::empty(),
    {
        let r = ButtonSet { held: vec![false; BUTTON_COUNT] };
        assert(r.view() =~= Set::<Button>::empty());
        r
    }

    pub fn contains(&self, b: Button) -> (r: bool)
        requires
            self.wf(),
        ensures
            r == self.view().contains(b),
    {
        self.held[index_of_button(b)]
    }

    pub fn insert(&mut self, b: Button)
        requires
            old(self).wf(),
        ensures
            final(self).wf(),
            final(self).view() == old(self).view().insert(b),
    {
        let i = index_of_button(b);
        self.held.set(i, true);
        proof {
            assert forall|c: Button| #[trigger] final(self).view().contains(c) == old(
                self,
            ).view().insert(b).contains(c) by {
                lemma_button_index(c);
                lemma_button_index(b);
            }
            assert(final(self).view() =~= old(self).view().insert(b));
        }
    }

    /// Whether the button at a position of the fixed order is in the set.
    pub fn contains_at(&self, i: usize) -> (r: bool)
        requires
            self.wf(),
            i < BUTTON_COUNT,
        ensures
            r == self.view().contains(button_at(i as int)),
    {
        proof {
            lemma_button_at(i as int);
        }
        self.held[i]
    }
}

} // verus!
