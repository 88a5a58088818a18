//! Exercises the key-buffer handling around the machine core.

use chip8::keyboard::{KeyboardDriver, PollResult};

#[test]
fn clear_buffer_unsets_every_key() {
    let driver = KeyboardDriver::new();
    let mut keys = [true; 16];
    driver.clear_buffer(&mut keys);
    for k in 0..16 {
        assert!(!keys[k]);
    }
}

#[test]
fn poll_results_compare() {
    assert_eq!(PollResult::Continue, PollResult::Continue);
    assert_ne!(PollResult::Continue, PollResult::Quit);
}
