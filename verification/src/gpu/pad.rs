//! The pad's button word.

use vstd::prelude::*;

verus! {

pub const PAD_BUTTON_L3: u32 = 0x2;
pub const PAD_BUTTON_R3: u32 = 0x4;
pub const PAD_BUTTON_OPTIONS: u32 = 0x8;
pub const PAD_BUTTON_UP: u32 = 0x10;
pub const PAD_BUTTON_RIGHT: u32 = 0x20;
pub const PAD_BUTTON_DOWN: u32 = 0x40;
pub const PAD_BUTTON_LEFT: u32 = 0x80;
pub const PAD_BUTTON_L2: u32 = 0x100;
pub const PAD_BUTTON_R2: u32 = 0x200;
pub const PAD_BUTTON_L1: u32 = 0x400;
pub const PAD_BUTTON_R1: u32 = 0x800;
pub const PAD_BUTTON_TRIANGLE: u32 = 0x1000;
pub const PAD_BUTTON_CIRCLE: u32 = 0x2000;
pub const PAD_BUTTON_CROSS: u32 = 0x4000;
pub const PAD_BUTTON_SQUARE: u32 = 0x8000;

/// The four directions.
pub const DIR_MASK: u32 = 0xF0;

/// Every button a pad can press.
pub const ALL_BUTTONS: u32 = 0xFFFE;

/// The buttons the guest sees as pressed.
#[derive(Clone, Copy, Debug, PartialEq, Eq, Structural)]
pub struct PadState {
    pub buttons: u32,
}

/// `word` with the bits of `mask` set, or cleared.
pub open spec fn with_bits(word: u32, mask: u32, on: bool) -> u32 {
    if on {
        word | mask
    } else {
        word & !mask
    }
}

impl PadState {
    pub fn new() -> (s: Self)
        ensures
            s.buttons == 0,
    {
        PadState { buttons: 0 }
    }

    /// Press or release the buttons of `mask`.
    pub fn set_button(&mut self, mask: u32, pressed: bool)
        ensures
            final(self).buttons == with_bits(old(self).buttons, mask, pressed),
    {
        if pressed {
            self.buttons = self.buttons | mask;
        } else {
            self.buttons = self.buttons & !mask;
        }
    }
}

/// Pressing sets the bits of a mask, releasing clears them, and neither touches another bit.
pub proof fn law_set_and_clear(word: u32, mask: u32)
    ensures
        with_bits(word, mask, true) & mask == mask,
        with_bits(word, mask, false) & mask == 0,
        with_bits(word, mask, true) & !mask == word & !mask,
        with_bits(word, mask, false) & !mask == word & !mask,
{
    assert((word | mask) & mask == mask && (word & !mask) & mask == 0 && (word | mask) & !mask == word
        & !mask && (word & !mask) & !mask == word & !mask) by (bit_vector);
}

} // verus!
