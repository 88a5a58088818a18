//! Exercises the machine core: single instructions, instruction sequences,
//! the timers, loading, and whole-program scenarios.

use chip8::cpu::{decode, CPU, Fault, Instr, LoadError, Timer, START_RAM_ADDRESS};

fn fresh() -> CPU {
    CPU::default()
}

#[test]
fn set_then_add_wraps() {
    let mut cpu = fresh();
    cpu.next_instruction_with(0x6A02, 0).unwrap();
    cpu.next_instruction_with(0x7A05, 0).unwrap();
    assert_eq!(cpu.reg(0xA), 7);
    assert_eq!(cpu.reg(0xF), 0);

    let mut cpu = fresh();
    cpu.next_instruction_with(0x61F0, 0).unwrap();
    cpu.next_instruction_with(0x7120, 0).unwrap();
    assert_eq!(cpu.reg(1), 0x10);
    assert_eq!(cpu.reg(0xF), 0);
}

#[test]
fn clear_screen_unsets_every_pixel_and_marks_dirty() {
    let mut cpu = fresh();
    // Draw the digit-0 glyph somewhere first so there is something to clear.
    cpu.next_instruction_with(0xA000, 0).unwrap();
    cpu.next_instruction_with(0xD005, 0).unwrap();
    cpu.mark_frame_drawn();
    assert!(!cpu.frame_dirty());
    cpu.next_instruction_with(0x00E0, 0).unwrap();
    assert!(cpu.frame_dirty());
    for y in 0..32 {
        for x in 0..64 {
            assert!(!cpu.pixel(x, y));
        }
    }
}

#[test]
fn draw_twice_restores_and_reports_collision() {
    let mut cpu = fresh();
    cpu.next_instruction_with(0x6A02, 0).unwrap();
    cpu.next_instruction_with(0x6B03, 0).unwrap();
    cpu.next_instruction_with(0xA000, 0).unwrap();
    cpu.next_instruction_with(0xDAB5, 0).unwrap();
    assert_eq!(cpu.reg(0xF), 0);
    assert!(cpu.pixel(2, 3));
    cpu.next_instruction_with(0xDAB5, 0).unwrap();
    assert_eq!(cpu.reg(0xF), 1);
    for y in 0..32 {
        for x in 0..64 {
            assert!(!cpu.pixel(x, y));
        }
    }
}

#[test]
fn call_then_return_resumes_after_call() {
    let mut cpu = fresh();
    let before = cpu.program_counter();
    assert_eq!(before, START_RAM_ADDRESS as u16);
    cpu.next_instruction_with(0x2300, 0).unwrap();
    assert_eq!(cpu.program_counter(), 0x300);
    assert_eq!(cpu.stack_depth(), 2);
    cpu.next_instruction_with(0x00EE, 0).unwrap();
    assert_eq!(cpu.program_counter(), before + 2);
    assert_eq!(cpu.stack_depth(), 0);
}

#[test]
fn call_pushes_high_byte_then_low_byte() {
    let mut cpu = fresh();
    cpu.next_instruction_with(0x1234, 0).unwrap(); // jump to 0x234
    cpu.next_instruction_with(0x2300, 0).unwrap(); // call from 0x234
    assert_eq!(cpu.stack_depth(), 2);
    assert_eq!(cpu.stack_at(0), 0x02); // high byte first
    assert_eq!(cpu.stack_at(1), 0x34); // low byte on top
    cpu.next_instruction_with(0x00EE, 0).unwrap();
    assert_eq!(cpu.program_counter(), 0x236);
}

#[test]
fn subtract_sets_inverted_borrow_flag() {
    let mut cpu = fresh();
    cpu.next_instruction_with(0x6105, 0).unwrap();
    cpu.next_instruction_with(0x6203, 0).unwrap();
    cpu.next_instruction_with(0x8125, 0).unwrap();
    assert_eq!(cpu.reg(1), 0x02);
    assert_eq!(cpu.reg(0xF), 1);

    let mut cpu = fresh();
    cpu.next_instruction_with(0x6103, 0).unwrap();
    cpu.next_instruction_with(0x6205, 0).unwrap();
    cpu.next_instruction_with(0x8125, 0).unwrap();
    assert_eq!(cpu.reg(1), 0xFE);
    assert_eq!(cpu.reg(0xF), 0);
}

#[test]
fn timer_decrements_at_most_once_per_window() {
    let mut t = Timer::new(5, 0);
    // 1000 updates all within one millisecond of each other.
    for i in 0..1000u64 {
        t.update_at(1_000_000 + i);
    }
    assert_eq!(t.value(), 4);
    // And a fresh window decrements once more.
    t.update_at(1_100_000);
    assert_eq!(t.value(), 3);
}

#[test]
fn timer_never_goes_below_zero() {
    let mut t = Timer::new(1, 0);
    t.update_at(1_000_000);
    assert!(t.is_zero());
    t.update_at(2_000_000);
    assert_eq!(t.value(), 0);
}

#[test]
fn draw_program_scenario() {
    let mut cpu = fresh();
    let program: Vec<u8> = vec![
        0x00, 0xE0, // clear screen
        0x6A, 0x02, // VA = 2
        0x6B, 0x03, // VB = 3
        0xA0, 0x00, // I = 0 (font glyph for digit 0)
        0xDA, 0xB5, // draw 5 rows at (VA, VB)
        0x12, 0x02, // jump to itself
    ];
    cpu.load_ram(&program).unwrap();
    for _ in 0..5 {
        cpu.cycle().unwrap();
    }
    assert_eq!(cpu.reg(0xA), 2);
    assert_eq!(cpu.reg(0xB), 3);
    assert_eq!(cpu.index_register(), 0);
    assert!(cpu.frame_dirty());
    // The five rows of the digit-0 glyph: F0 90 90 90 F0.
    let glyph: [u8; 5] = [0xF0, 0x90, 0x90, 0x90, 0xF0];
    for (row, byte) in glyph.iter().enumerate() {
        for bit in 0..8 {
            let lit = byte & (0x80 >> bit) != 0;
            assert_eq!(cpu.pixel(2 + bit, 3 + row), lit);
        }
    }
    // The jump keeps spinning on itself.
    let pc = cpu.program_counter();
    cpu.cycle().unwrap();
    assert_eq!(cpu.program_counter(), 0x202);
    assert_eq!(pc, 0x20A);
}

#[test]
fn return_with_short_stack_is_a_fault() {
    let mut cpu = fresh();
    let r = cpu.next_instruction_with(0x00EE, 0);
    assert_eq!(r, Err(Fault::StackUnderflow));
    assert_eq!(cpu.program_counter(), START_RAM_ADDRESS as u16);
    assert_eq!(cpu.stack_depth(), 0);
}

#[test]
fn program_image_too_large_is_refused() {
    let mut cpu = fresh();
    let too_big = vec![0u8; 4096 - 0x200 + 1];
    assert_eq!(cpu.load_ram(&too_big), Err(LoadError::TooLarge));
    let just_fits = vec![0xAB; 4096 - 0x200];
    assert_eq!(cpu.load_ram(&just_fits), Ok(()));
    assert_eq!(cpu.ram_at(0x200), 0xAB);
    assert_eq!(cpu.ram_at(4095), 0xAB);
    assert_eq!(cpu.ram_at(0x1FF), 0);
}

#[test]
fn empty_program_loads() {
    let mut cpu = fresh();
    let empty: Vec<u8> = Vec::new();
    assert_eq!(cpu.load_ram(&empty), Ok(()));
    assert_eq!(cpu.ram_at(0x200), 0);
}

#[test]
fn unknown_opcode_is_a_noop_that_advances() {
    let mut cpu = fresh();
    cpu.next_instruction_with(0x0123, 0).unwrap();
    assert_eq!(cpu.program_counter(), 0x202);
    cpu.next_instruction_with(0x800F, 0).unwrap();
    assert_eq!(cpu.program_counter(), 0x204);
    cpu.next_instruction_with(0xE1FF, 0).unwrap();
    assert_eq!(cpu.program_counter(), 0x206);
    cpu.next_instruction_with(0xF1FF, 0).unwrap();
    assert_eq!(cpu.program_counter(), 0x208);
}

#[test]
fn skip_instructions_take_the_branch() {
    let mut cpu = fresh();
    cpu.next_instruction_with(0x3A00, 0).unwrap(); // VA == 0: skip
    assert_eq!(cpu.program_counter(), 0x204);
    cpu.next_instruction_with(0x3A01, 0).unwrap(); // VA != 1: no skip
    assert_eq!(cpu.program_counter(), 0x206);
    cpu.next_instruction_with(0x4A01, 0).unwrap(); // VA != 1: skip
    assert_eq!(cpu.program_counter(), 0x20A);
    cpu.next_instruction_with(0x5AB0, 0).unwrap(); // VA == VB == 0: skip
    assert_eq!(cpu.program_counter(), 0x20E);
    cpu.next_instruction_with(0x6101, 0).unwrap();
    cpu.next_instruction_with(0x9A10, 0).unwrap(); // VA != V1: skip
    assert_eq!(cpu.program_counter(), 0x214);
}

#[test]
fn bitwise_and_assign_family() {
    let mut cpu = fresh();
    cpu.next_instruction_with(0x610C, 0).unwrap();
    cpu.next_instruction_with(0x620A, 0).unwrap();
    cpu.next_instruction_with(0x8121, 0).unwrap(); // V1 |= V2
    assert_eq!(cpu.reg(1), 0x0E);
    cpu.next_instruction_with(0x8122, 0).unwrap(); // V1 &= V2
    assert_eq!(cpu.reg(1), 0x0A);
    cpu.next_instruction_with(0x8123, 0).unwrap(); // V1 ^= V2
    assert_eq!(cpu.reg(1), 0x00);
    cpu.next_instruction_with(0x8120, 0).unwrap(); // V1 = V2
    assert_eq!(cpu.reg(1), 0x0A);
}

#[test]
fn add_register_sets_carry() {
    let mut cpu = fresh();
    cpu.next_instruction_with(0x61FF, 0).unwrap();
    cpu.next_instruction_with(0x6202, 0).unwrap();
    cpu.next_instruction_with(0x8124, 0).unwrap();
    assert_eq!(cpu.reg(1), 0x01);
    assert_eq!(cpu.reg(0xF), 1);
    cpu.next_instruction_with(0x8124, 0).unwrap();
    assert_eq!(cpu.reg(1), 0x03);
    assert_eq!(cpu.reg(0xF), 0);
}

#[test]
fn reversed_subtract_uses_reversed_operands() {
    let mut cpu = fresh();
    cpu.next_instruction_with(0x6103, 0).unwrap();
    cpu.next_instruction_with(0x6205, 0).unwrap();
    cpu.next_instruction_with(0x8127, 0).unwrap(); // V1 = V2 - V1
    assert_eq!(cpu.reg(1), 0x02);
    assert_eq!(cpu.reg(0xF), 1);
    cpu.next_instruction_with(0x6207, 0).unwrap();
    cpu.next_instruction_with(0x6109, 0).unwrap();
    cpu.next_instruction_with(0x8127, 0).unwrap();
    assert_eq!(cpu.reg(1), 0xFE);
    assert_eq!(cpu.reg(0xF), 0);
}

#[test]
fn shifts_capture_the_outgoing_bit() {
    let mut cpu = fresh();
    cpu.next_instruction_with(0x6105, 0).unwrap();
    cpu.next_instruction_with(0x8106, 0).unwrap(); // V1 >>= 1
    assert_eq!(cpu.reg(1), 2);
    assert_eq!(cpu.reg(0xF), 1);
    cpu.next_instruction_with(0x6181, 0).unwrap();
    cpu.next_instruction_with(0x810E, 0).unwrap(); // V1 <<= 1
    assert_eq!(cpu.reg(1), 0x02);
    assert_eq!(cpu.reg(0xF), 1);
    cpu.next_instruction_with(0x6140, 0).unwrap();
    cpu.next_instruction_with(0x810E, 0).unwrap();
    assert_eq!(cpu.reg(1), 0x80);
    assert_eq!(cpu.reg(0xF), 0);
}

#[test]
fn jump_and_jump_plus_v0() {
    let mut cpu = fresh();
    cpu.next_instruction_with(0x1456, 0).unwrap();
    assert_eq!(cpu.program_counter(), 0x456);
    cpu.next_instruction_with(0x6004, 0).unwrap();
    cpu.next_instruction_with(0xB100, 0).unwrap();
    assert_eq!(cpu.program_counter(), 0x104);
}

#[test]
fn program_counter_wraps_at_fff() {
    let mut cpu = fresh();
    cpu.next_instruction_with(0x1FFF, 0).unwrap();
    assert_eq!(cpu.program_counter(), 0);
}

#[test]
fn random_is_masked_by_the_immediate() {
    let mut cpu = fresh();
    cpu.next_instruction_with(0xC1F0, 0b1010_1010).unwrap();
    assert_eq!(cpu.reg(1), 0b1010_0000);
    cpu.next_instruction_with(0xC100, 0xFF).unwrap();
    assert_eq!(cpu.reg(1), 0);
}

#[test]
fn index_register_instructions() {
    let mut cpu = fresh();
    cpu.next_instruction_with(0xAFFF, 0).unwrap();
    assert_eq!(cpu.index_register(), 0xFFF);
    cpu.next_instruction_with(0x61FF, 0).unwrap();
    cpu.next_instruction_with(0xF11E, 0).unwrap(); // I += V1
    assert_eq!(cpu.index_register(), 0x10FE);
    cpu.next_instruction_with(0x6003, 0).unwrap();
    cpu.next_instruction_with(0xF029, 0).unwrap(); // I = glyph address of 3
    assert_eq!(cpu.index_register(), 15);
}

#[test]
fn delay_timer_roundtrip_through_registers() {
    let mut cpu = fresh();
    cpu.next_instruction_with(0x6530, 0).unwrap();
    cpu.next_instruction_with(0xF515, 0).unwrap(); // delay = V5
    assert_eq!(cpu.timer.value(), 0x30);
    cpu.next_instruction_with(0xF607, 0).unwrap(); // V6 = delay
    assert_eq!(cpu.reg(6), 0x30);
    cpu.next_instruction_with(0xF518, 0).unwrap(); // sound = V5
    assert!(!cpu.sound_timer.is_zero());
    assert_eq!(cpu.sound_timer.value(), 0x30);
}

#[test]
fn bcd_stores_three_digits() {
    let mut cpu = fresh();
    cpu.next_instruction_with(0x61EA, 0).unwrap(); // V1 = 234
    cpu.next_instruction_with(0xA300, 0).unwrap();
    cpu.next_instruction_with(0xF133, 0).unwrap();
    assert_eq!(cpu.ram_at(0x300), 2);
    assert_eq!(cpu.ram_at(0x301), 3);
    assert_eq!(cpu.ram_at(0x302), 4);
}

#[test]
fn store_and_load_registers_roundtrip() {
    let mut cpu = fresh();
    cpu.next_instruction_with(0x6011, 0).unwrap();
    cpu.next_instruction_with(0x6122, 0).unwrap();
    cpu.next_instruction_with(0x6233, 0).unwrap();
    cpu.next_instruction_with(0xA400, 0).unwrap();
    cpu.next_instruction_with(0xF255, 0).unwrap(); // store V0..=V2
    assert_eq!(cpu.ram_at(0x400), 0x11);
    assert_eq!(cpu.ram_at(0x401), 0x22);
    assert_eq!(cpu.ram_at(0x402), 0x33);
    cpu.next_instruction_with(0x6000, 0).unwrap();
    cpu.next_instruction_with(0x6100, 0).unwrap();
    cpu.next_instruction_with(0x6200, 0).unwrap();
    cpu.next_instruction_with(0xF265, 0).unwrap(); // load V0..=V2
    assert_eq!(cpu.reg(0), 0x11);
    assert_eq!(cpu.reg(1), 0x22);
    assert_eq!(cpu.reg(2), 0x33);
}

#[test]
fn wait_key_blocks_until_a_key_is_pressed() {
    let mut cpu = fresh();
    cpu.next_instruction_with(0xF10A, 0).unwrap();
    assert_eq!(cpu.program_counter(), 0x200); // held in place
    cpu.key_buffer[4] = true;
    cpu.key_buffer[9] = true;
    cpu.next_instruction_with(0xF10A, 0).unwrap();
    assert_eq!(cpu.program_counter(), 0x202);
    assert_eq!(cpu.reg(1), 4); // lowest pressed key wins
}

#[test]
fn key_skips_follow_the_buffer() {
    let mut cpu = fresh();
    cpu.next_instruction_with(0x6107, 0).unwrap();
    cpu.key_buffer[7] = true;
    cpu.next_instruction_with(0xE19E, 0).unwrap(); // pressed: skip
    assert_eq!(cpu.program_counter(), 0x206);
    cpu.next_instruction_with(0xE1A1, 0).unwrap(); // pressed: no skip
    assert_eq!(cpu.program_counter(), 0x208);
    cpu.key_buffer[7] = false;
    cpu.next_instruction_with(0xE1A1, 0).unwrap(); // released: skip
    assert_eq!(cpu.program_counter(), 0x20C);
}

#[test]
fn draw_clips_at_the_edges() {
    let mut cpu = fresh();
    cpu.next_instruction_with(0x6A3E, 0).unwrap(); // VA = 62
    cpu.next_instruction_with(0x6B1E, 0).unwrap(); // VB = 30
    cpu.next_instruction_with(0xA000, 0).unwrap(); // glyph 0: rows F0 90 ...
    cpu.next_instruction_with(0xDAB5, 0).unwrap();
    // Only columns 62 and 63 and rows 30 and 31 can be lit.
    assert!(cpu.pixel(62, 30));
    assert!(cpu.pixel(63, 30));
    assert!(cpu.pixel(62, 31));
    assert!(!cpu.pixel(63, 31));
    // Nothing wrapped around to the opposite edges.
    for y in 0..32 {
        assert!(!cpu.pixel(0, y));
        assert!(!cpu.pixel(1, y));
    }
    for x in 0..64 {
        assert!(!cpu.pixel(x, 0));
    }
}

#[test]
fn draw_origin_wraps_into_the_grid() {
    let mut cpu = fresh();
    cpu.next_instruction_with(0x6A42, 0).unwrap(); // VA = 66 -> column 2
    cpu.next_instruction_with(0x6B23, 0).unwrap(); // VB = 35 -> row 3
    cpu.next_instruction_with(0xA000, 0).unwrap();
    cpu.next_instruction_with(0xDAB5, 0).unwrap();
    assert!(cpu.pixel(2, 3));
    assert!(cpu.pixel(5, 3));
}

#[test]
fn decode_classifies_opcodes() {
    assert_eq!(decode(0x00E0), Instr::Cls);
    assert_eq!(decode(0x00EE), Instr::Ret);
    assert_eq!(decode(0x1ABC), Instr::Jump(0xABC));
    assert_eq!(decode(0x2ABC), Instr::Call(0xABC));
    assert_eq!(decode(0x6A12), Instr::SetImm(0xA, 0x12));
    assert_eq!(decode(0x8AB4), Instr::AddReg(0xA, 0xB));
    assert_eq!(decode(0x8AB6), Instr::Shr(0xA));
    assert_eq!(decode(0xDAB5), Instr::Draw(0xA, 0xB, 5));
    assert_eq!(decode(0xE19E), Instr::SkipKey(1));
    assert_eq!(decode(0xF10A), Instr::WaitKey(1));
    assert_eq!(decode(0xFFFF), Instr::Unknown(0xFFFF));
    assert_eq!(decode(0x0000), Instr::Unknown(0x0000));
}

#[test]
fn fetch_combines_bytes_big_endian() {
    let mut cpu = fresh();
    cpu.load_ram(&[0x6A, 0x02]).unwrap();
    assert_eq!(cpu.fetch_opcode(), 0x6A02);
}

#[test]
fn timer_update_against_wall_clock_moves_at_most_one_step() {
    let mut t = Timer::new(10, 0);
    t.update();
    let v = t.value();
    assert!(v == 10 || v == 9);
    t.is_zero();
}
