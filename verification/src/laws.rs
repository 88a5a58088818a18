//! Machine-wide laws: properties of whole instruction sequences and of the
//! timers, proved once and for all over the step specification.

use vstd::prelude::*;
use crate::cpu::{
    CpuView, TimerView, decode_spec, draw_collision, draw_state_spec, draw_vram, op_family,
    op_nn, op_x, reg_val, sprite_covers, sprite_pixel_on, step_fault, step_spec, tick_spec,
    wrap8, VRAM_SIZE, TARGET_FRAME_TIME_MICROS,
};

verus! {

/// Setting a register and then adding an immediate to it leaves exactly
/// that register holding the wrapped sum of the two immediates; no other
/// register, in particular not the flag register, is touched.
pub proof fn lemma_set_then_add(s: CpuView, op1: u16, op2: u16, rnd1: u8, rnd2: u8)
    requires
        s.wf(),
        op_family(op1) == 0x6,
        op_family(op2) == 0x7,
        op_x(op1) == op_x(op2),
    ensures
        step_spec(step_spec(s, op1, rnd1), op2, rnd2).regs
            == s.regs.update(op_x(op1) as int, wrap8(op_nn(op1) + op_nn(op2))),
{
    let s1 = step_spec(s, op1, rnd1);
    let s2 = step_spec(s1, op2, rnd2);
    assert(s1.regs == s.regs.update(op_x(op1) as int, op_nn(op1)));
    assert(reg_val(s1, op_x(op2)) == op_nn(op1));
    assert(s2.regs == s1.regs.update(op_x(op2) as int, wrap8(op_nn(op1) + op_nn(op2))));
    assert(s2.regs =~= s.regs.update(op_x(op1) as int, wrap8(op_nn(op1) + op_nn(op2))));
}

/// After a clear-screen step every pixel reads unlit and the dirty flag
/// is set.
pub proof fn lemma_clear_screen(s: CpuView, op: u16, rnd: u8)
    requires
        s.wf(),
        decode_spec(op) is Cls,
    ensures
        forall|idx: int| 0 <= idx < VRAM_SIZE ==> !(#[trigger] step_spec(s, op, rnd).vram[idx]),
        step_spec(s, op, rnd).vram_changed,
{
}

/// Drawing the same sprite twice at the same origin, with no other pixel
/// write in between, restores the framebuffer to its pre-draw state (XOR
/// is self-inverse); and whenever the first draw set at least one pixel,
/// the second draw reports a collision in VF.
pub proof fn lemma_draw_twice(s: CpuView, x: u8, y: u8, n: u8)
    requires
        s.wf(),
        x < 16,
        y < 16,
        n < 16,
        x != 15,
        y != 15,
    ensures
        draw_state_spec(draw_state_spec(s, x, y, n), x, y, n).vram == s.vram,
        (exists|idx: int|
            0 <= idx < VRAM_SIZE && #[trigger] sprite_covers(
                reg_val(s, x) as int % 64,
                reg_val(s, y) as int % 32,
                n as int,
                idx,
            ) && sprite_pixel_on(
                s.ram,
                s.index as int,
                reg_val(s, x) as int % 64,
                reg_val(s, y) as int % 32,
                idx,
            ) && !s.vram[idx]) ==> reg_val(
            draw_state_spec(draw_state_spec(s, x, y, n), x, y, n),
            15,
        ) == 1,
{
    let x0 = reg_val(s, x) as int % 64;
    let y0 = reg_val(s, y) as int % 32;
    let s1 = draw_state_spec(s, x, y, n);
    let s2 = draw_state_spec(s1, x, y, n);
    assert(reg_val(s1, x) == reg_val(s, x));
    assert(reg_val(s1, y) == reg_val(s, y));
    assert(s1.vram == draw_vram(s.vram, s.ram, s.index as int, x0, y0, n as int));
    assert(s2.vram == draw_vram(s1.vram, s1.ram, s1.index as int, x0, y0, n as int));
    assert(s2.vram =~= s.vram);
    if exists|idx: int|
        0 <= idx < VRAM_SIZE && #[trigger] sprite_covers(x0, y0, n as int, idx)
            && sprite_pixel_on(s.ram, s.index as int, x0, y0, idx) && !s.vram[idx] {
        let idx = choose|idx: int|
            0 <= idx < VRAM_SIZE && #[trigger] sprite_covers(x0, y0, n as int, idx)
                && sprite_pixel_on(s.ram, s.index as int, x0, y0, idx) && !s.vram[idx];
        assert(s1.vram[idx]);
        assert(draw_collision(s1.vram, s1.ram, s1.index as int, x0, y0, n as int));
    }
}

/// A call followed by a return resumes at the instruction immediately
/// after the call: the program counter lands on its pre-call value plus
/// one instruction width, and the call stack is as it was. The law holds
/// everywhere short of the program-counter wraparound boundary.
pub proof fn lemma_call_then_return(s: CpuView, op: u16, rnd1: u8, rnd2: u8)
    requires
        s.wf(),
        op_family(op) == 0x2,
        s.pc < 0xFFF,
    ensures
        !step_fault(step_spec(s, op, rnd1), 0x00EE),
        step_spec(step_spec(s, op, rnd1), 0x00EE, rnd2).pc == s.pc + 2,
        step_spec(step_spec(s, op, rnd1), 0x00EE, rnd2).stack == s.stack,
{
    let s1 = step_spec(s, op, rnd1);
    assert(s1.stack == s.stack.push((s.pc as int / 0x100) as u8).push((s.pc % 0x100) as u8));
    let s2 = step_spec(s1, 0x00EE, rnd2);
    assert(s1.stack[s1.stack.len() - 2] == s.pc as int / 0x100);
    assert(s1.stack[s1.stack.len() - 1] == s.pc % 0x100);
    assert((s.pc as int / 0x100) * 256 + (s.pc % 0x100) == s.pc);
    assert(s2.stack =~= s.stack);
}

/// The result of a run of timer updates, each against the clock reading
/// it observed, in call order.
pub open spec fn tick_fold(t: TimerView, times: Seq<u64>) -> TimerView
    decreases times.len(),
{
    if times.len() == 0 {
        t
    } else {
        tick_fold(tick_spec(t, times[0]), times.drop_first())
    }
}

/// A run of updates whose clock readings all lie before the timer's next
/// 60 Hz boundary leaves the timer exactly as it was.
pub proof fn lemma_no_tick_within_frame(t: TimerView, times: Seq<u64>)
    requires
        forall|k: int|
            0 <= k < times.len() ==> #[trigger] times[k] < t.last_update
                + TARGET_FRAME_TIME_MICROS,
    ensures
        tick_fold(t, times) == t,
    decreases times.len(),
{
    if times.len() > 0 {
        assert(tick_spec(t, times[0]) == t);
        lemma_no_tick_within_frame(t, times.drop_first());
    }
}

/// However often the update operation is called, the counter goes down by
/// at most one while the clock readings observed stay within one 60 Hz
/// frame of each other.
pub proof fn lemma_timer_decrements_at_most_once(t: TimerView, times: Seq<u64>)
    requires
        forall|j: int, k: int|
            0 <= j < times.len() && 0 <= k < times.len() ==> #[trigger] times[k]
                < #[trigger] times[j] + TARGET_FRAME_TIME_MICROS,
    ensures
        tick_fold(t, times).counter == t.counter
            || tick_fold(t, times).counter + 1 == t.counter,
    decreases times.len(),
{
    if times.len() > 0 {
        let t1 = tick_spec(t, times[0]);
        if t1 == t {
            lemma_timer_decrements_at_most_once(t, times.drop_first());
            assert(tick_fold(t, times) == tick_fold(t, times.drop_first()));
        } else {
            assert(t1.last_update == times[0]);
            assert(forall|k: int|
                0 <= k < times.drop_first().len() ==> #[trigger] times.drop_first()[k]
                    < t1.last_update + TARGET_FRAME_TIME_MICROS);
            lemma_no_tick_within_frame(t1, times.drop_first());
            assert(tick_fold(t, times) == t1);
        }
    }
}

} // verus!
