//! Pressed-key bookkeeping of the frame loop, one bit per key code.

use vstd::prelude::*;

verus! {

/// Number of key codes that a mask can track.
pub const KEY_CODE_COUNT: usize = 128;

/// One bit per key code; bit `k` is set while key `k` is held.
pub type KeysBitmask = u128;

/// Keys held in the current frame and in the previous one.
pub struct InputState {
    pub keys_pressed_bitmask: KeysBitmask,
    pub previous_keys_pressed_bitmask: KeysBitmask,
}

/// Whether the bit of `key_code` is set in `mask`.
pub open spec fn mask_has(mask: KeysBitmask, key_code: usize) -> bool {
    mask & (1u128 << key_code) != 0
}

/// The key codes whose bits are set in `mask`.
pub open spec fn mask_keys(mask: KeysBitmask) -> Set<usize> {
    Set::new(|k: usize| k < KEY_CODE_COUNT && mask_has(mask, k))
}

/// The way in which two opposite keys steer together.
pub open spec fn steer(forth: bool, back: bool) -> int {
    if forth && !back {
        1
    } else if !forth && back {
        -1
    } else {
        0
    }
}

impl InputState {
    /// The keys held in the current frame.
    pub open spec fn pressed(&self) -> Set<usize> {
        mask_keys(self.keys_pressed_bitmask)
    }

    /// The keys that were held in the previous frame.
    pub open spec fn previously_pressed(&self) -> Set<usize> {
        mask_keys(self.previous_keys_pressed_bitmask)
    }

    /// A state in which no key is or was held.
    pub fn new() -> (state: Self)
        ensures
            state.keys_pressed_bitmask == 0,
            state.previous_keys_pressed_bitmask == 0,
            state.pressed() == Set::<usize>::empty(),
            state.previously_pressed() == Set::<usize>::empty(),
    {
        proof {
            lemma_empty_mask();
        }
        InputState { keys_pressed_bitmask: 0, previous_keys_pressed_bitmask: 0 }
    }

    /// Whether `key_code` is held in the current frame.
    pub fn is_key_pressed(&mut self, key_code: usize) -> (held: bool)
        requires
            key_code < KEY_CODE_COUNT,
        ensures
            *final(self) == *old(self),
            held == old(self).pressed().contains(key_code),
    {
        self.keys_pressed_bitmask & (1u128 << key_code) != 0
    }

    /// Whether `key_code` was held in the previous frame.
    pub fn was_key_pressed(&mut self, key_code: usize) -> (held: bool)
        requires
            key_code < KEY_CODE_COUNT,
        ensures
            *final(self) == *old(self),
            held == old(self).previously_pressed().contains(key_code),
    {
        self.previous_keys_pressed_bitmask & (1u128 << key_code) != 0
    }

    /// Records that `key_code` went down (`pressed`) or up.
    pub fn set_key_pressed(&mut self, key_code: usize, pressed: bool)
        requires
            key_code < KEY_CODE_COUNT,
        ensures
            final(self).previous_keys_pressed_bitmask == old(self).previous_keys_pressed_bitmask,
            final(self).keys_pressed_bitmask == if pressed {
                old(self).keys_pressed_bitmask | (1u128 << key_code)
            } else {
                old(self).keys_pressed_bitmask & !(1u128 << key_code)
            },
            final(self).pressed() == if pressed {
                old(self).pressed().insert(key_code)
            } else {
                old(self).pressed().remove(key_code)
            },
    {
        let bit: u128 = 1u128 << key_code;
        let cleared: u128 = self.keys_pressed_bitmask & !bit;
        let updated: u128 = if pressed {
            cleared | bit
        } else {
            cleared
        };
        proof {
            let mask = self.keys_pressed_bitmask;
            assert((mask & !bit) | bit == mask | bit) by (bit_vector);
            lemma_mask_update(mask, key_code, pressed);
        }
        self.keys_pressed_bitmask = updated;
    }

    /// Which way the pair of opposite keys `forth` and `back` steers: `1`
    /// where only `forth` is held, `-1` where only `back` is held, `0`
    /// where both or neither are.
    pub fn axis(&mut self, forth: usize, back: usize) -> (way: i8)
        requires
            forth < KEY_CODE_COUNT,
            back < KEY_CODE_COUNT,
        ensures
            *final(self) == *old(self),
            way == steer(old(self).pressed().contains(forth), old(self).pressed().contains(back)),
    {
        let forth_pressed: bool = self.is_key_pressed(forth);
        let back_pressed: bool = self.is_key_pressed(back);
        if forth_pressed && !back_pressed {
            1
        } else if !forth_pressed && back_pressed {
            -1
        } else {
            0
        }
    }

    /// Whether `key_code` went down in the current frame: it is held now
    /// and was not held in the previous frame.
    pub fn is_key_struck(&mut self, key_code: usize) -> (struck: bool)
        requires
            key_code < KEY_CODE_COUNT,
        ensures
            *final(self) == *old(self),
            struck == (old(self).pressed().contains(key_code) && !old(
                self,
            ).previously_pressed().contains(key_code)),
    {
        let held: bool = self.is_key_pressed(key_code);
        let was_held: bool = self.was_key_pressed(key_code);
        held && !was_held
    }

    /// Ends the frame: the keys held now become those of the previous frame.
    pub fn end_frame(&mut self)
        ensures
            final(self).keys_pressed_bitmask == old(self).keys_pressed_bitmask,
            final(self).previous_keys_pressed_bitmask == old(self).keys_pressed_bitmask,
            final(self).previously_pressed() == old(self).pressed(),
    {
        self.previous_keys_pressed_bitmask = self.keys_pressed_bitmask;
    }
}

/// The zero mask holds no key.
pub proof fn lemma_empty_mask()
    ensures
        mask_keys(0) == Set::<usize>::empty(),
{
    assert forall|k: usize| k < KEY_CODE_COUNT implies !mask_has(0, k) by {
        assert(0u128 & (1u128 << k) == 0) by (bit_vector);
    }
    assert(mask_keys(0) =~= Set::<usize>::empty());
}

/// Clearing the bit of a key, and setting it again when the key is
/// `pressed`, changes that key and no other.
pub proof fn lemma_mask_update(mask: KeysBitmask, key_code: usize, pressed: bool)
    requires
        key_code < KEY_CODE_COUNT,
    ensures
        ({
            let bit = 1u128 << key_code;
            let updated = if pressed {
                (mask & !bit) | bit
            } else {
                mask & !bit
            };
            mask_keys(updated) == if pressed {
                mask_keys(mask).insert(key_code)
            } else {
                mask_keys(mask).remove(key_code)
            }
        }),
{
    let bit = 1u128 << key_code;
    let set = (mask & !bit) | bit;
    let clear = mask & !bit;
    assert forall|k: usize| k < KEY_CODE_COUNT implies (mask_has(set, k) == (k == key_code
        || mask_has(mask, k))) && (mask_has(clear, k) == (k != key_code && mask_has(mask, k))) by {
        assert(k < 128 && key_code < 128 ==> ((((mask & !(1u128 << key_code)) | (1u128 << key_code))
            & (1u128 << k) != 0) == (k == key_code || mask & (1u128 << k) != 0))) by (bit_vector);
        assert(k < 128 && key_code < 128 ==> (((mask & !(1u128 << key_code)) & (1u128 << k) != 0)
            == (k != key_code && mask & (1u128 << k) != 0))) by (bit_vector);
    }
    if pressed {
        assert(mask_keys(set) =~= mask_keys(mask).insert(key_code));
    } else {
        assert(mask_keys(clear) =~= mask_keys(mask).remove(key_code));
    }
}

} // verus!
