//! The 16-key buffer interface: the host input layer fills the buffer once
//! per cycle; the core only ever reads it.

use vstd::prelude::*;

verus! {

/// Clears and refills the key buffer from host input once per cycle.
/// Translating host events into key indices is the host's business; the
/// verified part is the buffer-clearing step.
pub struct KeyboardDriver {}

/// What a round of input polling asks of the host loop.
#[derive(Clone, Copy, Debug, PartialEq, Eq, Structural)]
pub enum PollResult {
    Continue,
    Quit,
}

impl KeyboardDriver {
    pub fn new() -> (d: KeyboardDriver) {
        KeyboardDriver {}
    }

    /// Resets every key to the unpressed state.
    pub fn clear_buffer(&self, keys_buffer: &mut [bool; 16])
        ensures
            forall|k: int| 0 <= k < 16 ==> !final(keys_buffer)@[k],
    {
        let mut k: usize = 0;
        while k < 16
            invariant
                k <= 16,
                forall|j: int| 0 <= j < k ==> !keys_buffer@[j],
            decreases 16 - k,
        {
            keys_buffer[k] = false;
            k = k + 1;
        }
    }
}

} // verus!
