//! A physical gamepad's events as pad buttons.
//!
//! The four directions have two sources, the directional pad and the left stick.  Each
//! keeps its own word, and the guest sees a direction as long as either holds it.

use vstd::prelude::*;

use crate::gpu::pad::{
    with_bits, PadState, ALL_BUTTONS, DIR_MASK, PAD_BUTTON_CIRCLE, PAD_BUTTON_CROSS,
    PAD_BUTTON_DOWN, PAD_BUTTON_L1, PAD_BUTTON_L2, PAD_BUTTON_L3, PAD_BUTTON_LEFT,
    PAD_BUTTON_OPTIONS, PAD_BUTTON_R1, PAD_BUTTON_R2, PAD_BUTTON_R3, PAD_BUTTON_RIGHT,
    PAD_BUTTON_SQUARE, PAD_BUTTON_TRIANGLE, PAD_BUTTON_UP,
};

verus! {

/// A button of a physical gamepad.
#[derive(Clone, Copy, Debug, PartialEq, Eq, Structural)]
pub enum Button {
    South,
    East,
    West,
    North,
    Start,
    DPadUp,
    DPadDown,
    DPadLeft,
    DPadRight,
    LeftTrigger,
    RightTrigger,
    LeftTrigger2,
    RightTrigger2,
    LeftThumb,
    RightThumb,
    Other,
}

/// Where a stick axis stands, beyond its dead zone or inside it.
#[derive(Clone, Copy, Debug, PartialEq, Eq, Structural)]
pub enum AxisSide {
    Low,
    Center,
    High,
}

#[derive(Clone, Copy, Debug, PartialEq, Eq, Structural)]
pub enum PadEvent {
    Pressed(Button),
    Released(Button),
    LeftStickX(AxisSide),
    LeftStickY(AxisSide),
    Disconnected,
    Other,
}

/// The pad button a gamepad button stands for.
pub open spec fn mask_of(button: Button) -> Option<u32> {
    match button {
        Button::South => Some(PAD_BUTTON_CROSS),
        Button::East => Some(PAD_BUTTON_CIRCLE),
        Button::West => Some(PAD_BUTTON_SQUARE),
        Button::North => Some(PAD_BUTTON_TRIANGLE),
        Button::Start => Some(PAD_BUTTON_OPTIONS),
        Button::DPadUp => Some(PAD_BUTTON_UP),
        Button::DPadDown => Some(PAD_BUTTON_DOWN),
        Button::DPadLeft => Some(PAD_BUTTON_LEFT),
        Button::DPadRight => Some(PAD_BUTTON_RIGHT),
        Button::LeftTrigger => Some(PAD_BUTTON_L1),
        Button::RightTrigger => Some(PAD_BUTTON_R1),
        Button::LeftTrigger2 => Some(PAD_BUTTON_L2),
        Button::RightTrigger2 => Some(PAD_BUTTON_R2),
        Button::LeftThumb => Some(PAD_BUTTON_L3),
        Button::RightThumb => Some(PAD_BUTTON_R3),
        Button::Other => None,
    }
}

pub fn button_mask(button: Button) -> (mask: Option<u32>)
    ensures
        mask == mask_of(button),
{
    match button {
        Button::South => Some(PAD_BUTTON_CROSS),
        Button::East => Some(PAD_BUTTON_CIRCLE),
        Button::West => Some(PAD_BUTTON_SQUARE),
        Button::North => Some(PAD_BUTTON_TRIANGLE),
        Button::Start => Some(PAD_BUTTON_OPTIONS),
        Button::DPadUp => Some(PAD_BUTTON_UP),
        Button::DPadDown => Some(PAD_BUTTON_DOWN),
        Button::DPadLeft => Some(PAD_BUTTON_LEFT),
        Button::DPadRight => Some(PAD_BUTTON_RIGHT),
        Button::LeftTrigger => Some(PAD_BUTTON_L1),
        Button::RightTrigger => Some(PAD_BUTTON_R1),
        Button::LeftTrigger2 => Some(PAD_BUTTON_L2),
        Button::RightTrigger2 => Some(PAD_BUTTON_R2),
        Button::LeftThumb => Some(PAD_BUTTON_L3),
        Button::RightThumb => Some(PAD_BUTTON_R3),
        Button::Other => None,
    }
}

/// A button word whose directions are those that either source holds.
pub open spec fn with_dirs(buttons: u32, dpad_dirs: u32, stick_dirs: u32) -> u32 {
    (buttons & !DIR_MASK) | ((dpad_dirs | stick_dirs) & DIR_MASK)
}

/// Write the four directions; neither source can clear what the other holds.
pub fn apply_dirs(input: &mut PadState, dpad_dirs: u32, stick_dirs: u32)
    ensures
        final(input).buttons == with_dirs(old(input).buttons, dpad_dirs, stick_dirs),
{
    let ghost before = input.buttons;
    let combined: u32 = dpad_dirs | stick_dirs;
    input.set_button(PAD_BUTTON_LEFT, combined & PAD_BUTTON_LEFT != 0);
    input.set_button(PAD_BUTTON_RIGHT, combined & PAD_BUTTON_RIGHT != 0);
    input.set_button(PAD_BUTTON_UP, combined & PAD_BUTTON_UP != 0);
    input.set_button(PAD_BUTTON_DOWN, combined & PAD_BUTTON_DOWN != 0);
    assert(({
        let l = if combined & 0x80 != 0 { before | 0x80u32 } else { before & !0x80u32 };
        let r = if combined & 0x20 != 0 { l | 0x20u32 } else { l & !0x20u32 };
        let u = if combined & 0x10 != 0 { r | 0x10u32 } else { r & !0x10u32 };
        let d = if combined & 0x40 != 0 { u | 0x40u32 } else { u & !0x40u32 };
        d
    }) == (before & !0xF0u32) | (combined & 0xF0)) by (bit_vector);
}

/// What the two direction sources hold.
#[derive(Clone, Copy, Debug, PartialEq, Eq, Structural)]
pub struct Gamepad {
    pub dpad_dirs: u32,
    pub stick_dirs: u32,
}

/// The bit a stick axis holds.
pub open spec fn axis_bits(side: AxisSide, low: u32, high: u32) -> u32 {
    match side {
        AxisSide::Low => low,
        AxisSide::Center => 0,
        AxisSide::High => high,
    }
}

/// What the sources hold after an event.
pub open spec fn gamepad_after(g: Gamepad, event: PadEvent) -> Gamepad {
    match event {
        PadEvent::Pressed(b) => match mask_of(b) {
            Some(mask) if mask & DIR_MASK != 0 => Gamepad { dpad_dirs: g.dpad_dirs | mask, ..g },
            _ => g,
        },
        PadEvent::Released(b) => match mask_of(b) {
            Some(mask) if mask & DIR_MASK != 0 => Gamepad { dpad_dirs: g.dpad_dirs & !mask, ..g },
            _ => g,
        },
        PadEvent::LeftStickX(side) => Gamepad {
            stick_dirs: (g.stick_dirs & !0xA0u32) | axis_bits(
                side,
                PAD_BUTTON_LEFT,
                PAD_BUTTON_RIGHT,
            ),
            ..g
        },
        PadEvent::LeftStickY(side) => Gamepad {
            stick_dirs: (g.stick_dirs & !0x50u32) | axis_bits(
                side,
                PAD_BUTTON_DOWN,
                PAD_BUTTON_UP,
            ),
            ..g
        },
        PadEvent::Disconnected => Gamepad { dpad_dirs: 0, stick_dirs: 0 },
        PadEvent::Other => g,
    }
}

/// The button word after an event.
pub open spec fn buttons_after(g: Gamepad, buttons: u32, event: PadEvent) -> u32 {
    let h = gamepad_after(g, event);
    match event {
        PadEvent::Pressed(b) => match mask_of(b) {
            Some(mask) => if mask & DIR_MASK != 0 {
                with_dirs(buttons, h.dpad_dirs, h.stick_dirs)
            } else {
                with_bits(buttons, mask, true)
            },
            None => buttons,
        },
        PadEvent::Released(b) => match mask_of(b) {
            Some(mask) => if mask & DIR_MASK != 0 {
                with_dirs(buttons, h.dpad_dirs, h.stick_dirs)
            } else {
                with_bits(buttons, mask, false)
            },
            None => buttons,
        },
        PadEvent::LeftStickX(_) | PadEvent::LeftStickY(_) => with_dirs(
            buttons,
            h.dpad_dirs,
            h.stick_dirs,
        ),
        PadEvent::Disconnected => with_bits(buttons, ALL_BUTTONS, false),
        PadEvent::Other => buttons,
    }
}

impl Gamepad {
    pub fn new() -> (g: Self)
        ensures
            g.dpad_dirs == 0,
            g.stick_dirs == 0,
    {
        Gamepad { dpad_dirs: 0, stick_dirs: 0 }
    }

    /// Take one event into the sources and the button word.
    pub fn handle(&mut self, input: &mut PadState, event: PadEvent)
        ensures
            *final(self) == gamepad_after(*old(self), event),
            final(input).buttons == buttons_after(*old(self), old(input).buttons, event),
    {
        match event {
            PadEvent::Pressed(b) => {
                if let Some(mask) = button_mask(b) {
                    if mask & DIR_MASK != 0 {
                        self.dpad_dirs = self.dpad_dirs | mask;
                        apply_dirs(input, self.dpad_dirs, self.stick_dirs);
                    } else {
                        input.set_button(mask, true);
                    }
                }
            },
            PadEvent::Released(b) => {
                if let Some(mask) = button_mask(b) {
                    if mask & DIR_MASK != 0 {
                        self.dpad_dirs = self.dpad_dirs & !mask;
                        apply_dirs(input, self.dpad_dirs, self.stick_dirs);
                    } else {
                        input.set_button(mask, false);
                    }
                }
            },
            PadEvent::LeftStickX(side) => {
                let held: u32 = match side {
                    AxisSide::Low => PAD_BUTTON_LEFT,
                    AxisSide::Center => 0,
                    AxisSide::High => PAD_BUTTON_RIGHT,
                };
                self.stick_dirs = (self.stick_dirs & !0xA0u32) | held;
                apply_dirs(input, self.dpad_dirs, self.stick_dirs);
            },
            PadEvent::LeftStickY(side) => {
                let held: u32 = match side {
                    AxisSide::Low => PAD_BUTTON_DOWN,
                    AxisSide::Center => 0,
                    AxisSide::High => PAD_BUTTON_UP,
                };
                self.stick_dirs = (self.stick_dirs & !0x50u32) | held;
                apply_dirs(input, self.dpad_dirs, self.stick_dirs);
            },
            PadEvent::Disconnected => {
                self.dpad_dirs = 0;
                self.stick_dirs = 0;
                input.set_button(ALL_BUTTONS, false);
            },
            PadEvent::Other => {},
        }
    }
}

/// A direction is pressed exactly as long as one of its two sources holds it.
pub proof fn law_direction_is_either_source(
    buttons: u32,
    dpad_dirs: u32,
    stick_dirs: u32,
    bit: u32,
)
    requires
        bit & DIR_MASK == bit,
    ensures
        with_dirs(buttons, dpad_dirs, stick_dirs) & bit == (dpad_dirs & bit) | (stick_dirs & bit),
{
    assert(bit & 0xF0 == bit ==> ((buttons & !0xF0u32) | ((dpad_dirs | stick_dirs) & 0xF0)) & bit
        == (dpad_dirs & bit) | (stick_dirs & bit)) by (bit_vector);
}

/// A stick that comes back to its center releases no direction the pad holds.
pub proof fn law_recenter_keeps_the_pad(g: Gamepad, buttons: u32, bit: u32)
    requires
        bit & DIR_MASK == bit,
        g.dpad_dirs & bit == bit,
    ensures
        buttons_after(g, buttons, PadEvent::LeftStickX(AxisSide::Center)) & bit == bit,
        buttons_after(g, buttons, PadEvent::LeftStickY(AxisSide::Center)) & bit == bit,
{
    let x = gamepad_after(g, PadEvent::LeftStickX(AxisSide::Center)).stick_dirs;
    let y = gamepad_after(g, PadEvent::LeftStickY(AxisSide::Center)).stick_dirs;
    law_direction_is_either_source(buttons, g.dpad_dirs, x, bit);
    law_direction_is_either_source(buttons, g.dpad_dirs, y, bit);
    assert(bit | (x & bit) == bit) by (bit_vector);
    assert(bit | (y & bit) == bit) by (bit_vector);
}

/// A pad that vanishes holds nothing down: no button stays pressed.
pub proof fn law_disconnect_releases_all(g: Gamepad, buttons: u32, b: Button)
    requires
        mask_of(b) is Some,
    ensures
        buttons_after(g, buttons, PadEvent::Disconnected) & mask_of(b)->0 == 0,
{
    let mask = mask_of(b)->0;
    assert(mask & 0xFFFE == mask) by {
        assert(0x2u32 & 0xFFFE == 0x2u32 && 0x4u32 & 0xFFFE == 0x4u32 && 0x8u32 & 0xFFFE
            == 0x8u32 && 0x10u32 & 0xFFFE == 0x10u32 && 0x20u32 & 0xFFFE == 0x20u32 && 0x40u32
            & 0xFFFE == 0x40u32 && 0x80u32 & 0xFFFE == 0x80u32 && 0x100u32 & 0xFFFE == 0x100u32
            && 0x200u32 & 0xFFFE == 0x200u32 && 0x400u32 & 0xFFFE == 0x400u32 && 0x800u32
            & 0xFFFE == 0x800u32 && 0x1000u32 & 0xFFFE == 0x1000u32 && 0x2000u32 & 0xFFFE
            == 0x2000u32 && 0x4000u32 & 0xFFFE == 0x4000u32 && 0x8000u32 & 0xFFFE == 0x8000u32)
            by (bit_vector);
    }
    assert(mask & 0xFFFE == mask ==> (buttons & !0xFFFEu32) & mask == 0) by (bit_vector);
}

/// A button is a bit of the pad's word: no two buttons share one, and it is one bit.
pub proof fn law_buttons_have_their_own_bits(a: Button, b: Button)
    requires
        a !is Other,
        b !is Other,
    ensures
        mask_of(a) is Some,
        mask_of(a)->0 != 0,
        a != b ==> mask_of(a)->0 & mask_of(b)->0 == 0,
        mask_of(a)->0 & (mask_of(a)->0 - 1) as u32 == 0,
{
    lemma_masks(a);
    lemma_masks(b);
    let p = mask_of(a)->0;
    let q = mask_of(b)->0;
    lemma_single_bits(p, q);
}

/// The pad's word as the guest reads it: each button at the bit that its pad has for it.
pub proof fn lemma_masks(b: Button)
    ensures
        mask_of(b) == (match b {
            Button::LeftThumb => Some(0x2u32),
            Button::RightThumb => Some(0x4u32),
            Button::Start => Some(0x8u32),
            Button::DPadUp => Some(0x10u32),
            Button::DPadRight => Some(0x20u32),
            Button::DPadDown => Some(0x40u32),
            Button::DPadLeft => Some(0x80u32),
            Button::LeftTrigger2 => Some(0x100u32),
            Button::RightTrigger2 => Some(0x200u32),
            Button::LeftTrigger => Some(0x400u32),
            Button::RightTrigger => Some(0x800u32),
            Button::North => Some(0x1000u32),
            Button::East => Some(0x2000u32),
            Button::South => Some(0x4000u32),
            Button::West => Some(0x8000u32),
            Button::Other => None,
        }),
{
}

spec fn is_pad_bit(x: u32) -> bool {
    x == 0x2 || x == 0x4 || x == 0x8 || x == 0x10 || x == 0x20 || x == 0x40 || x == 0x80 || x
        == 0x100 || x == 0x200 || x == 0x400 || x == 0x800 || x == 0x1000 || x == 0x2000 || x
        == 0x4000 || x == 0x8000
}

proof fn lemma_single_bits(p: u32, q: u32)
    requires
        is_pad_bit(p),
        is_pad_bit(q),
    ensures
        p != q ==> p & q == 0,
        p & (p - 1) as u32 == 0,
{
    assert(is_pad_bit(p) && is_pad_bit(q) ==> (p != q ==> p & q == 0) && p & (p - 1) as u32 == 0)
        by (bit_vector);
}

/// The four directions.
pub open spec fn is_direction(b: Button) -> bool {
    b is DPadUp || b is DPadDown || b is DPadLeft || b is DPadRight
}

/// A button that is no direction is down from its press to its release, and neither touches
/// another bit of the word: pressed, its bit is set; released, it is clear; and a press that is
/// released gives the word back without it.
pub proof fn law_buttons_are_down_while_pressed(g: Gamepad, buttons: u32, b: Button)
    requires
        b !is Other,
        !is_direction(b),
    ensures
        ({
            let bit = mask_of(b)->0;
            let down = buttons_after(g, buttons, PadEvent::Pressed(b));
            let up = buttons_after(g, buttons, PadEvent::Released(b));
            &&& down & bit == bit
            &&& down & !bit == buttons & !bit
            &&& up & bit == 0
            &&& up & !bit == buttons & !bit
            &&& gamepad_after(g, PadEvent::Pressed(b)) == g
            &&& gamepad_after(g, PadEvent::Released(b)) == g
            &&& buttons & bit == 0 ==> buttons_after(g, down, PadEvent::Released(b)) == buttons
        }),
{
    lemma_masks(b);
    let m = mask_of(b)->0;
    lemma_not_direction(m);
    assert((buttons | m) & m == m && (buttons | m) & !m == buttons & !m && (buttons & !m) & m == 0
        && (buttons & !m) & !m == buttons & !m && (buttons & m == 0 ==> (buttons | m) & !m
        == buttons)) by (bit_vector);
}

proof fn lemma_not_direction(m: u32)
    ensures
        m == 0x2 || m == 0x4 || m == 0x8 || m == 0x100 || m == 0x200 || m == 0x400 || m == 0x800
            || m == 0x1000 || m == 0x2000 || m == 0x4000 || m == 0x8000 ==> m & DIR_MASK == 0,
        m == 0x10 || m == 0x20 || m == 0x40 || m == 0x80 ==> m & DIR_MASK == m,
{
    assert((m == 0x2 || m == 0x4 || m == 0x8 || m == 0x100 || m == 0x200 || m == 0x400 || m == 0x800
        || m == 0x1000 || m == 0x2000 || m == 0x4000 || m == 0x8000 ==> m & 0xF0 == 0) && (m == 0x10
        || m == 0x20 || m == 0x40 || m == 0x80 ==> m & 0xF0 == m)) by (bit_vector);
}

/// A direction of the directional pad is down while the pad or the stick holds it: pressed, it
/// is down; released, it is down exactly where the stick holds it still.  Buttons that are no
/// directions do not change, nor does what the stick holds.
pub proof fn law_pad_directions(g: Gamepad, buttons: u32, b: Button)
    requires
        is_direction(b),
    ensures
        ({
            let bit = mask_of(b)->0;
            let down = buttons_after(g, buttons, PadEvent::Pressed(b));
            let up = buttons_after(g, buttons, PadEvent::Released(b));
            let held = gamepad_after(g, PadEvent::Pressed(b));
            let free = gamepad_after(g, PadEvent::Released(b));
            &&& down & bit == bit
            &&& up & bit == g.stick_dirs & bit
            &&& down & !0xF0u32 == buttons & !0xF0u32
            &&& up & !0xF0u32 == buttons & !0xF0u32
            &&& held.dpad_dirs & bit == bit && held.dpad_dirs & !bit == g.dpad_dirs & !bit
            &&& free.dpad_dirs & bit == 0 && free.dpad_dirs & !bit == g.dpad_dirs & !bit
            &&& held.stick_dirs == g.stick_dirs && free.stick_dirs == g.stick_dirs
        }),
{
    lemma_masks(b);
    let m = mask_of(b)->0;
    lemma_not_direction(m);
    lemma_pad_bits(buttons, g.dpad_dirs, g.stick_dirs, m);
}

proof fn lemma_pad_bits(w: u32, d: u32, t: u32, m: u32)
    requires
        m == 0x10 || m == 0x20 || m == 0x40 || m == 0x80,
    ensures
        ((w & !0xF0u32) | (((d | m) | t) & 0xF0)) & m == m,
        ((w & !0xF0u32) | (((d & !m) | t) & 0xF0)) & m == t & m,
        ((w & !0xF0u32) | (((d | m) | t) & 0xF0)) & !0xF0u32 == w & !0xF0u32,
        ((w & !0xF0u32) | (((d & !m) | t) & 0xF0)) & !0xF0u32 == w & !0xF0u32,
        (d | m) & m == m && (d | m) & !m == d & !m && (d & !m) & m == 0 && (d & !m) & !m == d & !m,
{
    assert((m == 0x10 || m == 0x20 || m == 0x40 || m == 0x80) ==> ((w & !0xF0u32) | (((d | m) | t)
        & 0xF0)) & m == m && ((w & !0xF0u32) | (((d & !m) | t) & 0xF0)) & m == t & m && ((w
        & !0xF0u32) | (((d | m) | t) & 0xF0)) & !0xF0u32 == w & !0xF0u32 && ((w & !0xF0u32) | (((d
        & !m) | t) & 0xF0)) & !0xF0u32 == w & !0xF0u32 && (d | m) & m == m && (d | m) & !m == d
        & !m && (d & !m) & m == 0 && (d & !m) & !m == d & !m) by (bit_vector);
}

/// The stick holds the direction it is pushed to and no other on that axis: left (0x80) and
/// right (0x20), down (0x40) and up (0x10).  The other axis and the directional pad stay.
pub proof fn law_stick_directions(g: Gamepad, side: AxisSide)
    ensures
        ({
            let x = gamepad_after(g, PadEvent::LeftStickX(side));
            let y = gamepad_after(g, PadEvent::LeftStickY(side));
            &&& x.dpad_dirs == g.dpad_dirs && y.dpad_dirs == g.dpad_dirs
            &&& x.stick_dirs & 0x80 == (if side is Low {
                0x80u32
            } else {
                0u32
            })
            &&& x.stick_dirs & 0x20 == (if side is High {
                0x20u32
            } else {
                0u32
            })
            &&& y.stick_dirs & 0x40 == (if side is Low {
                0x40u32
            } else {
                0u32
            })
            &&& y.stick_dirs & 0x10 == (if side is High {
                0x10u32
            } else {
                0u32
            })
            &&& x.stick_dirs & 0x50 == g.stick_dirs & 0x50
            &&& y.stick_dirs & 0xA0 == g.stick_dirs & 0xA0
        }),
{
    let t = g.stick_dirs;
    assert(((t & !0xA0u32) | 0x80) & 0x80 == 0x80 && ((t & !0xA0u32) | 0x80) & 0x20 == 0 && ((t
        & !0xA0u32) | 0x20) & 0x20 == 0x20 && ((t & !0xA0u32) | 0x20) & 0x80 == 0 && ((t & !0xA0u32)
        | 0) & 0x80 == 0 && ((t & !0xA0u32) | 0) & 0x20 == 0 && ((t & !0xA0u32) | 0x80) & 0x50 == t
        & 0x50 && ((t & !0xA0u32) | 0x20) & 0x50 == t & 0x50 && ((t & !0xA0u32) | 0) & 0x50 == t
        & 0x50) by (bit_vector);
    assert(((t & !0x50u32) | 0x40) & 0x40 == 0x40 && ((t & !0x50u32) | 0x40) & 0x10 == 0 && ((t
        & !0x50u32) | 0x10) & 0x10 == 0x10 && ((t & !0x50u32) | 0x10) & 0x40 == 0 && ((t & !0x50u32)
        | 0) & 0x40 == 0 && ((t & !0x50u32) | 0) & 0x10 == 0 && ((t & !0x50u32) | 0x40) & 0xA0 == t
        & 0xA0 && ((t & !0x50u32) | 0x10) & 0xA0 == t & 0xA0 && ((t & !0x50u32) | 0) & 0xA0 == t
        & 0xA0) by (bit_vector);
}

/// The stick moves no button that is no direction, and a direction is down after it exactly
/// where the pad or the stick holds it.  Events that concern no button change nothing, and a
/// pad that vanishes leaves nothing held.
pub proof fn law_other_events(g: Gamepad, buttons: u32, side: AxisSide, b: Button)
    requires
        b !is Other,
    ensures
        ({
            let x = PadEvent::LeftStickX(side);
            let y = PadEvent::LeftStickY(side);
            let bit = mask_of(b)->0;
            let gx = gamepad_after(g, x);
            let gy = gamepad_after(g, y);
            let gone = gamepad_after(g, PadEvent::Disconnected);
            &&& !is_direction(b) ==> buttons_after(g, buttons, x) & bit == buttons & bit
                && buttons_after(g, buttons, y) & bit == buttons & bit
            &&& is_direction(b) ==> buttons_after(g, buttons, x) & bit == (gx.dpad_dirs & bit) | (
            gx.stick_dirs & bit) && buttons_after(g, buttons, y) & bit == (gy.dpad_dirs & bit) | (
            gy.stick_dirs & bit)
            &&& buttons_after(g, buttons, PadEvent::Other) == buttons
            &&& gamepad_after(g, PadEvent::Other) == g
            &&& buttons_after(g, buttons, PadEvent::Pressed(Button::Other)) == buttons
            &&& buttons_after(g, buttons, PadEvent::Released(Button::Other)) == buttons
            &&& gamepad_after(g, PadEvent::Pressed(Button::Other)) == g
            &&& gamepad_after(g, PadEvent::Released(Button::Other)) == g
            &&& gone.dpad_dirs == 0 && gone.stick_dirs == 0
            &&& buttons_after(g, buttons, PadEvent::Disconnected) & bit == 0
        }),
{
    lemma_masks(b);
    let m = mask_of(b)->0;
    lemma_not_direction(m);
    law_disconnect_releases_all(g, buttons, b);
    let gx = gamepad_after(g, PadEvent::LeftStickX(side));
    let gy = gamepad_after(g, PadEvent::LeftStickY(side));
    if is_direction(b) {
        law_direction_is_either_source(buttons, gx.dpad_dirs, gx.stick_dirs, m);
        law_direction_is_either_source(buttons, gy.dpad_dirs, gy.stick_dirs, m);
    } else {
        lemma_dirs_leave(buttons, gx.dpad_dirs | gx.stick_dirs, m);
        lemma_dirs_leave(buttons, gy.dpad_dirs | gy.stick_dirs, m);
    }
}

proof fn lemma_dirs_leave(w: u32, held: u32, m: u32)
    requires
        m & 0xF0 == 0,
    ensures
        ((w & !0xF0u32) | (held & 0xF0)) & m == w & m,
{
    assert(m & 0xF0 == 0 ==> ((w & !0xF0u32) | (held & 0xF0)) & m == w & m) by (bit_vector);
}

} // verus!
