//! The CHIP-8 machine core: timers, registers, memory, stack, framebuffer,
//! and the fetch/decode/execute cycle.
//!
//! The whole machine state has a mathematical view (`CpuView`), and one
//! instruction step is specified by the pure function `step_spec`; the
//! executable interpreter is proved to follow it exactly.

use vstd::prelude::*;

verus! {

/// First address a loaded program occupies.
pub const START_RAM_ADDRESS: usize = 0x200;

/// Offset of the 80-byte font glyph table inside the reserved low memory.
pub const FONT_OFFSET: usize = 0x00;

/// Framebuffer width in pixels.
pub const WIDTH: usize = 64;

/// Framebuffer height in pixels.
pub const HEIGHT: usize = 32;

/// Number of addressable memory bytes.
pub const RAM_SIZE: usize = 4096;

/// Number of framebuffer pixels.
pub const VRAM_SIZE: usize = 64 * 32;

/// A countdown timer decays at 60 Hz: at most one decrement per this many
/// microseconds of wall-clock time.
pub const TARGET_FRAME_TIME_MICROS: u64 = 1_000_000 / 60;

/// An 8-bit countdown counter together with the wall-clock instant
/// (microseconds) at which it last crossed a 60 Hz boundary.
pub struct Timer {
    counter: u8,
    last_update: u64,
}

/// Mathematical view of a `Timer`.
pub ghost struct TimerView {
    pub counter: u8,
    pub last_update: u64,
}

impl View for Timer {
    type V = TimerView;

    closed spec fn view(&self) -> TimerView {
        TimerView { counter: self.counter, last_update: self.last_update }
    }
}

/// One call of the timer update operation at wall-clock time `now`
/// (microseconds): if a full 60 Hz frame has elapsed since the reference
/// instant, the counter decrements once (never below zero) and the
/// reference instant resets; otherwise nothing changes.
pub open spec fn tick_spec(t: TimerView, now: u64) -> TimerView {
    let elapsed = if now >= t.last_update { now - t.last_update } else { 0 };
    if elapsed >= TARGET_FRAME_TIME_MICROS {
        TimerView {
            counter: if t.counter > 0 { (t.counter - 1) as u8 } else { 0 },
            last_update: now,
        }
    } else {
        t
    }
}

/// Relies on std::time::SystemTime::now: the current wall-clock time, read
/// as whole microseconds since the UNIX epoch (zero if the clock reads
/// earlier than the epoch). Nothing is assumed of the value returned.
#[verifier::external_body]
fn clock_micros() -> u64 {
    match std::time::SystemTime::now().duration_since(std::time::UNIX_EPOCH) {
        Ok(d) => d.as_micros() as u64,
        Err(_) => 0,
    }
}

impl Timer {
    /// A timer with the given counter whose reference instant is `now`.
    pub fn new(counter: u8, now: u64) -> (t: Timer)
        ensures
            t@ == (TimerView { counter, last_update: now }),
    {
        Timer { counter, last_update: now }
    }

    /// Timer update against an explicitly supplied clock reading.
    pub fn update_at(&mut self, now: u64)
        ensures
            final(self)@ == tick_spec(old(self)@, now),
    {
        let elapsed: u64 = if now >= self.last_update {
            now - self.last_update
        } else {
            0
        };
        if elapsed >= TARGET_FRAME_TIME_MICROS {
            if self.counter > 0 {
                self.counter = self.counter - 1;
            }
            self.last_update = now;
        }
    }

    /// Timer update against the machine's wall clock. Whatever the clock
    /// read, the counter moves by at most one step downwards.
    pub fn update(&mut self)
        ensures
            exists|now: u64| final(self)@ == tick_spec(old(self)@, now),
            final(self)@.counter == old(self)@.counter
                || final(self)@.counter + 1 == old(self)@.counter,
    {
        let now = clock_micros();
        self.update_at(now);
        proof {
            assert(final(self)@ == tick_spec(old(self)@, now));
        }
    }

    /// Whether the counter has run down to zero.
    pub fn is_zero(&self) -> (r: bool)
        ensures
            r == (self@.counter == 0),
    {
        self.counter == 0
    }

    /// The current counter value.
    pub fn value(&self) -> (r: u8)
        ensures
            r == self@.counter,
    {
        self.counter
    }
}

/// The machine: registers, index register, program counter, memory, call
/// stack, framebuffer with its dirty flag, the two timers and the key buffer.
///
/// The call stack holds return addresses as two bytes per call, the high
/// byte pushed first, the low byte on top. Its depth is deliberately left
/// unbounded (a growable sequence, as the data model allows) rather than
/// capped at a fixed hardware limit: a runaway program exhausts host
/// memory instead of silently overwriting frames.
pub struct CPU {
    pc: u16,
    registers: [u8; 16],
    index: u16,
    ram: [u8; RAM_SIZE],
    vram: [bool; VRAM_SIZE],
    vram_changed: bool,
    stack: Vec<u8>,
    pub timer: Timer,
    pub sound_timer: Timer,
    pub key_buffer: [bool; 16],
}

/// Mathematical view of the whole machine state. The framebuffer is a flat
/// row-major sequence: the pixel at column `x`, row `y` sits at `y * 64 + x`.
pub ghost struct CpuView {
    pub pc: u16,
    pub regs: Seq<u8>,
    pub index: u16,
    pub ram: Seq<u8>,
    pub vram: Seq<bool>,
    pub vram_changed: bool,
    pub stack: Seq<u8>,
    pub delay: TimerView,
    pub sound: TimerView,
    pub keys: Seq<bool>,
}

impl View for CPU {
    type V = CpuView;

    closed spec fn view(&self) -> CpuView {
        CpuView {
            pc: self.pc,
            regs: self.registers@,
            index: self.index,
            ram: self.ram@,
            vram: self.vram@,
            vram_changed: self.vram_changed,
            stack: self.stack@,
            delay: self.timer@,
            sound: self.sound_timer@,
            keys: self.key_buffer@,
        }
    }
}

impl CpuView {
    /// The fixed sizes of the machine's components.
    pub open spec fn dims_ok(self) -> bool {
        &&& self.regs.len() == 16
        &&& self.ram.len() == RAM_SIZE
        &&& self.vram.len() == VRAM_SIZE
        &&& self.keys.len() == 16
    }

    /// Shape of every reachable machine state. The program counter never
    /// leaves `0x1000` behind: each step first reduces it modulo `0xFFF`
    /// when it reaches that value and then advances by at most 2.
    pub open spec fn wf(self) -> bool {
        &&& self.dims_ok()
        &&& self.pc <= 0x1000
    }
}

impl CPU {
    /// Shape of every reachable machine state (see `CpuView::wf`).
    pub open spec fn wf(&self) -> bool {
        self@.wf()
    }
}

/// The 80-byte font table: glyphs for the hexadecimal digits 0 through F,
/// five bytes per glyph, in digit order.
pub open spec fn fontset_spec() -> Seq<u8> {
    seq![
        0xF0u8, 0x90, 0x90, 0x90, 0xF0, // 0
        0x20, 0x60, 0x20, 0x20, 0x70, // 1
        0xF0, 0x10, 0xF0, 0x80, 0xF0, // 2
        0xF0, 0x10, 0xF0, 0x10, 0xF0, // 3
        0x90, 0x90, 0xF0, 0x10, 0x10, // 4
        0xF0, 0x80, 0xF0, 0x10, 0xF0, // 5
        0xF0, 0x80, 0xF0, 0x90, 0xF0, // 6
        0xF0, 0x10, 0x20, 0x40, 0x40, // 7
        0xF0, 0x90, 0xF0, 0x90, 0xF0, // 8
        0xF0, 0x90, 0xF0, 0x10, 0xF0, // 9
        0xF0, 0x90, 0xF0, 0x90, 0x90, // A
        0xE0, 0x90, 0xE0, 0x90, 0xE0, // B
        0xF0, 0x80, 0x80, 0x80, 0xF0, // C
        0xE0, 0x90, 0x90, 0x90, 0xE0, // D
        0xF0, 0x80, 0xF0, 0x80, 0xF0, // E
        0xF0, 0x80, 0xF0, 0x80, 0x80, // F
    ]
}

/// Memory as the machine starts: all zero except the font table.
pub open spec fn initial_ram_spec() -> Seq<u8> {
    Seq::new(
        RAM_SIZE as nat,
        |a: int|
            if FONT_OFFSET <= a < FONT_OFFSET + 80 {
                fontset_spec()[a - FONT_OFFSET]
            } else {
                0u8
            },
    )
}

/// The font table as an executable vector.
fn font_table() -> (v: Vec<u8>)
    ensures
        v@ == fontset_spec(),
{
    let mut v: Vec<u8> = Vec::new();
    v.push(0xF0); v.push(0x90); v.push(0x90); v.push(0x90); v.push(0xF0);
    v.push(0x20); v.push(0x60); v.push(0x20); v.push(0x20); v.push(0x70);
    v.push(0xF0); v.push(0x10); v.push(0xF0); v.push(0x80); v.push(0xF0);
    v.push(0xF0); v.push(0x10); v.push(0xF0); v.push(0x10); v.push(0xF0);
    v.push(0x90); v.push(0x90); v.push(0xF0); v.push(0x10); v.push(0x10);
    v.push(0xF0); v.push(0x80); v.push(0xF0); v.push(0x10); v.push(0xF0);
    v.push(0xF0); v.push(0x80); v.push(0xF0); v.push(0x90); v.push(0xF0);
    v.push(0xF0); v.push(0x10); v.push(0x20); v.push(0x40); v.push(0x40);
    v.push(0xF0); v.push(0x90); v.push(0xF0); v.push(0x90); v.push(0xF0);
    v.push(0xF0); v.push(0x90); v.push(0xF0); v.push(0x10); v.push(0xF0);
    v.push(0xF0); v.push(0x90); v.push(0xF0); v.push(0x90); v.push(0x90);
    v.push(0xE0); v.push(0x90); v.push(0xE0); v.push(0x90); v.push(0xE0);
    v.push(0xF0); v.push(0x80); v.push(0x80); v.push(0x80); v.push(0xF0);
    v.push(0xE0); v.push(0x90); v.push(0x90); v.push(0x90); v.push(0xE0);
    v.push(0xF0); v.push(0x80); v.push(0xF0); v.push(0x80); v.push(0xF0);
    v.push(0xF0); v.push(0x80); v.push(0xF0); v.push(0x80); v.push(0x80);
    proof {
        assert(v@ =~= fontset_spec());
    }
    v
}

impl Default for CPU {
    /// A fresh machine: program counter at the start-of-program address,
    /// cleared registers, stack, key buffer and framebuffer, the font table
    /// preloaded, both timers at zero.
    fn default() -> (c: CPU)
        ensures
            c.wf(),
            c@.pc == START_RAM_ADDRESS,
            c@.regs =~= Seq::new(16, |k: int| 0u8),
            c@.index == 0,
            c@.ram =~= initial_ram_spec(),
            c@.vram =~= Seq::new(VRAM_SIZE as nat, |k: int| false),
            !c@.vram_changed,
            c@.stack =~= Seq::<u8>::empty(),
            c@.delay.counter == 0,
            c@.sound.counter == 0,
            c@.keys =~= Seq::new(16, |k: int| false),
    {
        let mut ram = [0u8; RAM_SIZE];
        let font = font_table();
        let mut k: usize = 0;
        while k < 80
            invariant
                k <= 80,
                font@ == fontset_spec(),
                forall|j: int| 0 <= j < k ==> ram@[FONT_OFFSET + j] == fontset_spec()[j],
                forall|j: int|
                    0 <= j < RAM_SIZE && !(FONT_OFFSET <= j < FONT_OFFSET + k) ==> ram@[j] == 0u8,
            decreases 80 - k,
        {
            ram[FONT_OFFSET + k] = font[k];
            k = k + 1;
        }
        let now = clock_micros();
        CPU {
            pc: START_RAM_ADDRESS as u16,
            registers: [0u8; 16],
            timer: Timer::new(0, now),
            sound_timer: Timer::new(0, now),
            index: 0,
            ram,
            vram: [false; VRAM_SIZE],
            vram_changed: false,
            stack: Vec::new(),
            key_buffer: [false; 16],
        }
    }
}

/// The 16-bit opcode at the program counter: two consecutive memory bytes,
/// big-endian. Addresses are reduced modulo the memory size, so a fetch is
/// defined for every reachable program counter.
pub open spec fn fetch_spec(s: CpuView) -> u16 {
    (s.ram[s.pc as int % (RAM_SIZE as int)] * 256
        + s.ram[(s.pc + 1) % (RAM_SIZE as int)]) as u16
}

/// Memory after a program image is copied in at the start-of-program
/// address; everything outside the image keeps its old contents.
pub open spec fn load_spec(ram: Seq<u8>, prog: Seq<u8>) -> Seq<u8> {
    Seq::new(
        RAM_SIZE as nat,
        |a: int|
            if START_RAM_ADDRESS <= a < START_RAM_ADDRESS + prog.len() {
                prog[a - START_RAM_ADDRESS]
            } else {
                ram[a]
            },
    )
}

/// A program image that does not fit between the start-of-program address
/// and the end of memory is refused.
#[derive(Clone, Copy, Debug, PartialEq, Eq, Structural)]
pub enum LoadError {
    TooLarge,
}

impl CPU {
    /// Reads the two bytes at the program counter as one big-endian opcode.
    pub fn fetch_opcode(&self) -> (op: u16)
        requires
            self.wf(),
        ensures
            op == fetch_spec(self@),
    {
        let hi = self.ram[(self.pc as usize) % RAM_SIZE];
        let lo = self.ram[(self.pc as usize + 1) % RAM_SIZE];
        (hi as u16) * 256 + (lo as u16)
    }

    /// Copies a program image verbatim into memory starting at the
    /// start-of-program address. Succeeds exactly when the image fits
    /// below the upper memory bound; an image too large is refused whole,
    /// leaving the machine unchanged.
    pub fn load_ram(&mut self, program: &[u8]) -> (r: Result<(), LoadError>)
        requires
            old(self).wf(),
        ensures
            final(self).wf(),
            r is Ok <==> program@.len() <= RAM_SIZE - START_RAM_ADDRESS,
            r is Ok ==> final(self)@ == (CpuView {
                ram: load_spec(old(self)@.ram, program@),
                ..old(self)@
            }),
            r is Err ==> final(self)@ == old(self)@,
    {
        if program.len() > RAM_SIZE - START_RAM_ADDRESS {
            return Err(LoadError::TooLarge);
        }
        let mut k: usize = 0;
        while k < program.len()
            invariant
                old(self).wf(),
                k <= program@.len(),
                program@.len() <= RAM_SIZE - START_RAM_ADDRESS,
                self@.ram.len() == RAM_SIZE,
                forall|a: int|
                    START_RAM_ADDRESS <= a < START_RAM_ADDRESS + k ==> self@.ram[a]
                        == program@[a - START_RAM_ADDRESS],
                forall|a: int|
                    0 <= a < RAM_SIZE && !(START_RAM_ADDRESS <= a < START_RAM_ADDRESS + k)
                        ==> self@.ram[a] == old(self)@.ram[a],
                self@ == (CpuView { ram: self@.ram, ..old(self)@ }),
            decreases program@.len() - k,
        {
            self.ram[START_RAM_ADDRESS + k] = program[k];
            k = k + 1;
        }
        proof {
            assert(self@.ram =~= load_spec(old(self)@.ram, program@));
            assert(self@ =~= (CpuView { ram: load_spec(old(self)@.ram, program@), ..old(self)@ }));
        }
        Ok(())
    }

    /// The pixel at column `x`, row `y` of the framebuffer.
    pub fn pixel(&self, x: usize, y: usize) -> (r: bool)
        requires
            self.wf(),
            x < WIDTH,
            y < HEIGHT,
        ensures
            r == self@.vram[y * WIDTH + x],
    {
        self.vram[y * WIDTH + x]
    }

    /// Whether the framebuffer changed since it was last presented.
    pub fn frame_dirty(&self) -> (r: bool)
        ensures
            r == self@.vram_changed,
    {
        self.vram_changed
    }

    /// Consumes the dirty flag once the host has redrawn the frame.
    pub fn mark_frame_drawn(&mut self)
        ensures
            final(self)@ == (CpuView { vram_changed: false, ..old(self)@ }),
    {
        self.vram_changed = false;
    }

    /// The current program counter.
    pub fn program_counter(&self) -> (r: u16)
        ensures
            r == self@.pc,
    {
        self.pc
    }

    /// The current index register.
    pub fn index_register(&self) -> (r: u16)
        ensures
            r == self@.index,
    {
        self.index
    }

    /// General-purpose register `i`.
    pub fn reg(&self, i: usize) -> (r: u8)
        requires
            self.wf(),
            i < 16,
        ensures
            r == self@.regs[i as int],
    {
        self.registers[i]
    }

    /// The memory byte at `addr`.
    pub fn ram_at(&self, addr: usize) -> (r: u8)
        requires
            self.wf(),
            addr < RAM_SIZE,
        ensures
            r == self@.ram[addr as int],
    {
        self.ram[addr]
    }

    /// How many bytes the call stack currently holds.
    pub fn stack_depth(&self) -> (r: usize)
        ensures
            r == self@.stack.len(),
    {
        self.stack.len()
    }

    /// Call-stack byte `i`, counted from the bottom: each call leaves the
    /// return address's high byte below its low byte.
    pub fn stack_at(&self, i: usize) -> (r: u8)
        requires
            i < self@.stack.len(),
        ensures
            r == self@.stack[i as int],
    {
        self.stack[i]
    }
}

/// High nibble of an opcode: selects the instruction family.
pub open spec fn op_family(op: u16) -> int {
    op as int / 0x1000
}

/// The `x` register index field (bits 11..8).
pub open spec fn op_x(op: u16) -> u8 {
    ((op / 0x100) % 0x10) as u8
}

/// The `y` register index field (bits 7..4).
pub open spec fn op_y(op: u16) -> u8 {
    ((op / 0x10) % 0x10) as u8
}

/// The 4-bit immediate field (bits 3..0).
pub open spec fn op_n(op: u16) -> u8 {
    (op % 0x10) as u8
}

/// The 8-bit immediate field (bits 7..0).
pub open spec fn op_nn(op: u16) -> u8 {
    (op % 0x100) as u8
}

/// The 12-bit address field (bits 11..0).
pub open spec fn op_nnn(op: u16) -> u16 {
    op % 0x1000
}

/// A decoded instruction. Decoding is total: every 16-bit value maps to
/// exactly one variant, with `Unknown` as the explicit unrecognized
/// outcome. The shift instructions follow the convention of shifting `Vx`
/// in place, ignoring `Vy`.
#[derive(Clone, Copy, Debug, PartialEq, Eq, Structural)]
pub enum Instr {
    /// 00E0: clear the framebuffer.
    Cls,
    /// 00EE: return from subroutine.
    Ret,
    /// 1nnn: jump.
    Jump(u16),
    /// 2nnn: call subroutine.
    Call(u16),
    /// 3xnn: skip next instruction if Vx == nn.
    SkipEqImm(u8, u8),
    /// 4xnn: skip next instruction if Vx != nn.
    SkipNeImm(u8, u8),
    /// 5xy?: skip next instruction if Vx == Vy.
    SkipEqReg(u8, u8),
    /// 6xnn: Vx = nn.
    SetImm(u8, u8),
    /// 7xnn: Vx += nn, wrapping, no flag.
    AddImm(u8, u8),
    /// 8xy0: Vx = Vy.
    Assign(u8, u8),
    /// 8xy1: Vx |= Vy.
    Or(u8, u8),
    /// 8xy2: Vx &= Vy.
    And(u8, u8),
    /// 8xy3: Vx ^= Vy.
    Xor(u8, u8),
    /// 8xy4: Vx += Vy, VF = carry.
    AddReg(u8, u8),
    /// 8xy5: Vx -= Vy, VF = 1 when no borrow.
    SubReg(u8, u8),
    /// 8xy6: Vx >>= 1, VF = old bit 0.
    Shr(u8),
    /// 8xy7: Vx = Vy - Vx, VF = 1 when no borrow.
    SubFrom(u8, u8),
    /// 8xyE: Vx <<= 1, VF = old bit 7.
    Shl(u8),
    /// 9xy?: skip next instruction if Vx != Vy.
    SkipNeReg(u8, u8),
    /// Annn: I = nnn.
    SetIndex(u16),
    /// Bnnn: jump to nnn + V0.
    JumpPlus(u16),
    /// Cxnn: Vx = random byte & nn.
    Rand(u8, u8),
    /// Dxyn: draw an n-row sprite at (Vx, Vy).
    Draw(u8, u8, u8),
    /// Ex9E: skip next instruction if key Vx is pressed.
    SkipKey(u8),
    /// ExA1: skip next instruction if key Vx is not pressed.
    SkipNoKey(u8),
    /// Fx07: Vx = delay timer.
    ReadDelay(u8),
    /// Fx0A: block until a key is pressed, then Vx = its index.
    WaitKey(u8),
    /// Fx15: delay timer = Vx.
    SetDelay(u8),
    /// Fx18: sound timer = Vx.
    SetSound(u8),
    /// Fx1E: I += Vx, wrapping.
    AddIndex(u8),
    /// Fx29: I = font glyph address for digit Vx.
    FontAddr(u8),
    /// Fx33: three decimal digits of Vx stored at I, I+1, I+2.
    StoreBcd(u8),
    /// Fx55: V0..=Vx stored to memory starting at I.
    StoreRegs(u8),
    /// Fx65: V0..=Vx loaded from memory starting at I.
    LoadRegs(u8),
    /// Anything else: reported, executed as a no-op that still advances.
    Unknown(u16),
}

/// The total decode function on 16-bit opcodes.
pub open spec fn decode_spec(op: u16) -> Instr {
    let x = op_x(op);
    let y = op_y(op);
    let n = op_n(op);
    let nn = op_nn(op);
    let nnn = op_nnn(op);
    let family = op_family(op);
    if family == 0x0 {
        if nn == 0xE0 {
            Instr::Cls
        } else if nn == 0xEE {
            Instr::Ret
        } else {
            Instr::Unknown(op)
        }
    } else if family == 0x1 {
        Instr::Jump(nnn)
    } else if family == 0x2 {
        Instr::Call(nnn)
    } else if family == 0x3 {
        Instr::SkipEqImm(x, nn)
    } else if family == 0x4 {
        Instr::SkipNeImm(x, nn)
    } else if family == 0x5 {
        Instr::SkipEqReg(x, y)
    } else if family == 0x6 {
        Instr::SetImm(x, nn)
    } else if family == 0x7 {
        Instr::AddImm(x, nn)
    } else if family == 0x8 {
        if n == 0x0 {
            Instr::Assign(x, y)
        } else if n == 0x1 {
            Instr::Or(x, y)
        } else if n == 0x2 {
            Instr::And(x, y)
        } else if n == 0x3 {
            Instr::Xor(x, y)
        } else if n == 0x4 {
            Instr::AddReg(x, y)
        } else if n == 0x5 {
            Instr::SubReg(x, y)
        } else if n == 0x6 {
            Instr::Shr(x)
        } else if n == 0x7 {
            Instr::SubFrom(x, y)
        } else if n == 0xE {
            Instr::Shl(x)
        } else {
            Instr::Unknown(op)
        }
    } else if family == 0x9 {
        Instr::SkipNeReg(x, y)
    } else if family == 0xA {
        Instr::SetIndex(nnn)
    } else if family == 0xB {
        Instr::JumpPlus(nnn)
    } else if family == 0xC {
        Instr::Rand(x, nn)
    } else if family == 0xD {
        Instr::Draw(x, y, n)
    } else if family == 0xE {
        if nn == 0x9E {
            Instr::SkipKey(x)
        } else if nn == 0xA1 {
            Instr::SkipNoKey(x)
        } else {
            Instr::Unknown(op)
        }
    } else {
        if nn == 0x07 {
            Instr::ReadDelay(x)
        } else if nn == 0x0A {
            Instr::WaitKey(x)
        } else if nn == 0x15 {
            Instr::SetDelay(x)
        } else if nn == 0x18 {
            Instr::SetSound(x)
        } else if nn == 0x1E {
            Instr::AddIndex(x)
        } else if nn == 0x29 {
            Instr::FontAddr(x)
        } else if nn == 0x33 {
            Instr::StoreBcd(x)
        } else if nn == 0x55 {
            Instr::StoreRegs(x)
        } else if nn == 0x65 {
            Instr::LoadRegs(x)
        } else {
            Instr::Unknown(op)
        }
    }
}

/// An 8-bit value reduced from an unbounded intermediate result.
pub open spec fn wrap8(v: int) -> u8 {
    (v % 256) as u8
}

/// General-purpose register `x` of state `s`.
pub open spec fn reg_val(s: CpuView, x: u8) -> u8 {
    s.regs[x as int]
}

/// The program-counter wraparound applied at the end of every step: a
/// counter that has reached `0xFFF` is reduced modulo `0xFFF`.
pub open spec fn fixup_pc(pc: int) -> int {
    if pc >= 0xFFF {
        pc % 0xFFF
    } else {
        pc
    }
}

/// End-of-step program-counter bookkeeping: the wraparound, then the
/// default advance by one instruction width when the instruction did not
/// redirect control flow itself.
pub open spec fn advanced(s: CpuView, advance: bool) -> CpuView {
    let p = fixup_pc(s.pc as int);
    CpuView { pc: (if advance { p + 2 } else { p }) as u16, ..s }
}

/// A conditional skip: one extra instruction width when the condition
/// holds, on top of the default advance applied afterwards.
pub open spec fn skipped(s: CpuView, cond: bool) -> CpuView {
    if cond {
        CpuView { pc: (s.pc + 2) as u16, ..s }
    } else {
        s
    }
}

/// Bit `j` of a sprite row byte, most significant first.
pub open spec fn sprite_bit(b: u8, j: u8) -> bool {
    b & (0x80u8 >> j) != 0
}

/// Sprite row `row` is read from memory at `I + row`, reduced modulo the
/// memory size.
pub open spec fn sprite_row_byte(ram: Seq<u8>, ir: int, row: int) -> u8 {
    ram[(ir + row) % (RAM_SIZE as int)]
}

/// Whether flat pixel index `idx` lies inside the sprite drawn at origin
/// `(x0, y0)` with `n` rows. Pixels past the right or bottom edge are
/// clipped, which this predicate reflects by never wrapping `idx` around
/// a row or the bottom.
pub open spec fn sprite_covers(x0: int, y0: int, n: int, idx: int) -> bool {
    let px = idx % (WIDTH as int);
    let py = idx / (WIDTH as int);
    y0 <= py < y0 + n && x0 <= px < x0 + 8
}

/// Whether the sprite bit that falls on flat pixel index `idx` is lit.
pub open spec fn sprite_pixel_on(ram: Seq<u8>, ir: int, x0: int, y0: int, idx: int) -> bool {
    let px = idx % (WIDTH as int);
    let py = idx / (WIDTH as int);
    sprite_bit(sprite_row_byte(ram, ir, py - y0), (px - x0) as u8)
}

/// One framebuffer pixel after a sprite draw: lit sprite bits are XORed
/// into the grid, everything else keeps its value.
pub open spec fn draw_pixel(
    v0: Seq<bool>,
    ram: Seq<u8>,
    ir: int,
    x0: int,
    y0: int,
    n: int,
    idx: int,
) -> bool {
    if sprite_covers(x0, y0, n, idx) && sprite_pixel_on(ram, ir, x0, y0, idx) {
        !v0[idx]
    } else {
        v0[idx]
    }
}

/// The whole framebuffer after a sprite draw.
pub open spec fn draw_vram(
    v0: Seq<bool>,
    ram: Seq<u8>,
    ir: int,
    x0: int,
    y0: int,
    n: int,
) -> Seq<bool> {
    Seq::new(v0.len(), |idx: int| draw_pixel(v0, ram, ir, x0, y0, n, idx))
}

/// Whether a sprite draw collides: some lit sprite bit lands on a pixel
/// that was already set.
pub open spec fn draw_collision(
    v0: Seq<bool>,
    ram: Seq<u8>,
    ir: int,
    x0: int,
    y0: int,
    n: int,
) -> bool {
    exists|idx: int|
        0 <= idx < v0.len() && #[trigger] sprite_covers(x0, y0, n, idx)
            && sprite_pixel_on(ram, ir, x0, y0, idx) && v0[idx]
}

/// The machine after a sprite draw, before the program counter advances:
/// the origin is wrapped into the grid, the sprite is XORed in with
/// clipping, VF reports collision, and the frame is marked dirty.
pub open spec fn draw_state_spec(s: CpuView, x: u8, y: u8, n: u8) -> CpuView {
    let x0 = (reg_val(s, x) % 64) as int;
    let y0 = (reg_val(s, y) % 32) as int;
    CpuView {
        vram: draw_vram(s.vram, s.ram, s.index as int, x0, y0, n as int),
        vram_changed: true,
        regs: s.regs.update(
            15,
            if draw_collision(s.vram, s.ram, s.index as int, x0, y0, n as int) {
                1u8
            } else {
                0u8
            },
        ),
        ..s
    }
}

/// The lowest pressed key index at or above position `k`, if any.
pub open spec fn first_key_from(keys: Seq<bool>, k: int) -> Option<u8>
    decreases 16 - k,
{
    if k < 0 || k >= 16 {
        None
    } else if keys[k] {
        Some(k as u8)
    } else {
        first_key_from(keys, k + 1)
    }
}

/// The lowest pressed key index, if any key is pressed.
pub open spec fn first_key(keys: Seq<bool>) -> Option<u8> {
    first_key_from(keys, 0)
}

/// Memory after registers V0..=Vk are stored at addresses I..=I+k, each
/// address reduced modulo the memory size.
pub open spec fn store_regs_spec(ram: Seq<u8>, regs: Seq<u8>, ir: int, k: int) -> Seq<u8>
    decreases k + 1,
{
    if k < 0 {
        ram
    } else {
        store_regs_spec(ram, regs, ir, k - 1).update((ir + k) % (RAM_SIZE as int), regs[k])
    }
}

/// Registers after V0..=Vk are loaded from addresses I..=I+k, each address
/// reduced modulo the memory size.
pub open spec fn load_regs_spec(regs: Seq<u8>, ram: Seq<u8>, ir: int, k: int) -> Seq<u8>
    decreases k + 1,
{
    if k < 0 {
        regs
    } else {
        load_regs_spec(regs, ram, ir, k - 1).update(k, ram[(ir + k) % (RAM_SIZE as int)])
    }
}

/// The one faulting outcome of a step: a return with fewer than two bytes
/// on the call stack (stack underflow).
pub open spec fn step_fault(s: CpuView, op: u16) -> bool {
    decode_spec(op) is Ret && s.stack.len() < 2
}

/// One fetch-decode-execute step of the machine on opcode `op`, with `rnd`
/// the byte the randomness source supplied (only the random instruction
/// reads it). Defined for every non-faulting state and opcode.
pub open spec fn step_spec(s: CpuView, op: u16, rnd: u8) -> CpuView {
    match decode_spec(op) {
        Instr::Cls => advanced(
            CpuView {
                vram: Seq::new(VRAM_SIZE as nat, |i: int| false),
                vram_changed: true,
                ..s
            },
            true,
        ),
        Instr::Ret => {
            let hi = s.stack[s.stack.len() - 2];
            let lo = s.stack[s.stack.len() - 1];
            advanced(
                CpuView {
                    pc: (hi * 256 + lo) as u16,
                    stack: s.stack.take(s.stack.len() - 2),
                    ..s
                },
                true,
            )
        },
        Instr::Jump(a) => advanced(CpuView { pc: a, ..s }, false),
        Instr::Call(a) => advanced(
            CpuView {
                pc: a,
                stack: s.stack.push((s.pc as int / 0x100) as u8).push((s.pc % 0x100) as u8),
                ..s
            },
            false,
        ),
        Instr::SkipEqImm(x, nn) => advanced(skipped(s, reg_val(s, x) == nn), true),
        Instr::SkipNeImm(x, nn) => advanced(skipped(s, reg_val(s, x) != nn), true),
        Instr::SkipEqReg(x, y) => advanced(skipped(s, reg_val(s, x) == reg_val(s, y)), true),
        Instr::SetImm(x, nn) => advanced(CpuView { regs: s.regs.update(x as int, nn), ..s }, true),
        Instr::AddImm(x, nn) => advanced(
            CpuView { regs: s.regs.update(x as int, wrap8(reg_val(s, x) + nn)), ..s },
            true,
        ),
        Instr::Assign(x, y) => advanced(
            CpuView { regs: s.regs.update(x as int, reg_val(s, y)), ..s },
            true,
        ),
        Instr::Or(x, y) => advanced(
            CpuView { regs: s.regs.update(x as int, reg_val(s, x) | reg_val(s, y)), ..s },
            true,
        ),
        Instr::And(x, y) => advanced(
            CpuView { regs: s.regs.update(x as int, reg_val(s, x) & reg_val(s, y)), ..s },
            true,
        ),
        Instr::Xor(x, y) => advanced(
            CpuView { regs: s.regs.update(x as int, reg_val(s, x) ^ reg_val(s, y)), ..s },
            true,
        ),
        Instr::AddReg(x, y) => {
            let sum = reg_val(s, x) + reg_val(s, y);
            advanced(
                CpuView {
                    regs: s.regs.update(x as int, wrap8(sum)).update(
                        15,
                        if sum > 255 { 1u8 } else { 0u8 },
                    ),
                    ..s
                },
                true,
            )
        },
        Instr::SubReg(x, y) => {
            let a = reg_val(s, x);
            let b = reg_val(s, y);
            advanced(
                CpuView {
                    regs: s.regs.update(x as int, wrap8(a - b)).update(
                        15,
                        if a >= b { 1u8 } else { 0u8 },
                    ),
                    ..s
                },
                true,
            )
        },
        Instr::Shr(x) => {
            let r1 = s.regs.update(15, (reg_val(s, x) % 2) as u8);
            advanced(
                CpuView { regs: r1.update(x as int, (r1[x as int] / 2) as u8), ..s },
                true,
            )
        },
        Instr::SubFrom(x, y) => {
            let a = reg_val(s, x);
            let b = reg_val(s, y);
            advanced(
                CpuView {
                    regs: s.regs.update(x as int, wrap8(b - a)).update(
                        15,
                        if b >= a { 1u8 } else { 0u8 },
                    ),
                    ..s
                },
                true,
            )
        },
        Instr::Shl(x) => {
            let r1 = s.regs.update(15, (reg_val(s, x) / 128) as u8);
            advanced(
                CpuView { regs: r1.update(x as int, wrap8(r1[x as int] * 2)), ..s },
                true,
            )
        },
        Instr::SkipNeReg(x, y) => advanced(skipped(s, reg_val(s, x) != reg_val(s, y)), true),
        Instr::SetIndex(a) => advanced(CpuView { index: a, ..s }, true),
        Instr::JumpPlus(a) => advanced(CpuView { pc: (a + s.regs[0]) as u16, ..s }, false),
        Instr::Rand(x, nn) => advanced(
            CpuView { regs: s.regs.update(x as int, rnd & nn), ..s },
            true,
        ),
        Instr::Draw(x, y, n) => advanced(draw_state_spec(s, x, y, n), true),
        Instr::SkipKey(x) => advanced(
            skipped(s, s.keys[reg_val(s, x) as int % 16]),
            true,
        ),
        Instr::SkipNoKey(x) => advanced(
            skipped(s, !s.keys[reg_val(s, x) as int % 16]),
            true,
        ),
        Instr::ReadDelay(x) => advanced(
            CpuView { regs: s.regs.update(x as int, s.delay.counter), ..s },
            true,
        ),
        Instr::WaitKey(x) => match first_key(s.keys) {
            Some(k) => advanced(CpuView { regs: s.regs.update(x as int, k), ..s }, true),
            None => s,
        },
        Instr::SetDelay(x) => advanced(
            CpuView {
                delay: TimerView { counter: reg_val(s, x), last_update: s.delay.last_update },
                ..s
            },
            true,
        ),
        Instr::SetSound(x) => advanced(
            CpuView {
                sound: TimerView { counter: reg_val(s, x), last_update: s.sound.last_update },
                ..s
            },
            true,
        ),
        Instr::AddIndex(x) => advanced(
            CpuView { index: ((s.index + reg_val(s, x)) % 0x10000) as u16, ..s },
            true,
        ),
        Instr::FontAddr(x) => advanced(
            CpuView { index: (FONT_OFFSET + 5 * (reg_val(s, x) as int % 16)) as u16, ..s },
            true,
        ),
        Instr::StoreBcd(x) => {
            let v = reg_val(s, x);
            let m = RAM_SIZE as int;
            advanced(
                CpuView {
                    ram: s.ram.update(s.index as int % m, (v / 100) as u8).update(
                        (s.index + 1) % m,
                        ((v / 10) % 10) as u8,
                    ).update((s.index + 2) % m, (v % 10) as u8),
                    ..s
                },
                true,
            )
        },
        Instr::StoreRegs(x) => advanced(
            CpuView { ram: store_regs_spec(s.ram, s.regs, s.index as int, x as int), ..s },
            true,
        ),
        Instr::LoadRegs(x) => advanced(
            CpuView { regs: load_regs_spec(s.regs, s.ram, s.index as int, x as int), ..s },
            true,
        ),
        Instr::Unknown(_) => advanced(s, true),
    }
}

/// Whether the sprite position that falls on flat pixel index `idx` has
/// already been processed by the draw loops: all rows before `i`, and the
/// first `j` columns of row `i`.
spec fn draw_progressed(x0: int, y0: int, i: int, j: int, idx: int) -> bool {
    let px = idx % (WIDTH as int);
    let py = idx / (WIDTH as int);
    py - y0 < i || (py - y0 == i && px - x0 < j)
}

/// One framebuffer pixel mid-draw: already-processed sprite positions show
/// their drawn value, the rest still hold the pre-draw value.
spec fn draw_pixel_upto(
    v0: Seq<bool>,
    ram: Seq<u8>,
    ir: int,
    x0: int,
    y0: int,
    n: int,
    i: int,
    j: int,
    idx: int,
) -> bool {
    if sprite_covers(x0, y0, n, idx) && draw_progressed(x0, y0, i, j, idx)
        && sprite_pixel_on(ram, ir, x0, y0, idx) {
        !v0[idx]
    } else {
        v0[idx]
    }
}

/// The framebuffer mid-draw.
spec fn draw_vram_upto(
    v0: Seq<bool>,
    ram: Seq<u8>,
    ir: int,
    x0: int,
    y0: int,
    n: int,
    i: int,
    j: int,
) -> Seq<bool> {
    Seq::new(v0.len(), |idx: int| draw_pixel_upto(v0, ram, ir, x0, y0, n, i, j, idx))
}

/// Whether a collision has been found among the already-processed sprite
/// positions.
spec fn draw_collision_upto(
    v0: Seq<bool>,
    ram: Seq<u8>,
    ir: int,
    x0: int,
    y0: int,
    n: int,
    i: int,
    j: int,
) -> bool {
    exists|idx: int|
        0 <= idx < v0.len() && #[trigger] sprite_covers(x0, y0, n, idx)
            && draw_progressed(x0, y0, i, j, idx) && sprite_pixel_on(ram, ir, x0, y0, idx)
            && v0[idx]
}

impl CPU {
    /// Clears the framebuffer and marks it dirty.
    pub fn clear_vram(&mut self)
        ensures
            final(self)@ == (CpuView {
                vram: Seq::new(VRAM_SIZE as nat, |i: int| false),
                vram_changed: true,
                ..old(self)@
            }),
    {
        self.vram = [false; VRAM_SIZE];
        self.vram_changed = true;
        proof {
            assert(self@.vram =~= Seq::new(VRAM_SIZE as nat, |i: int| false));
        }
    }

    /// Return from subroutine: pops the two return-address bytes — the
    /// low byte sits on top, the high byte below it — and restores the
    /// program counter from them.
    pub fn op_0x00EE(&mut self)
        requires
            old(self).wf(),
            old(self)@.stack.len() >= 2,
        ensures
            final(self)@ == (CpuView {
                pc: (old(self)@.stack[old(self)@.stack.len() - 2] * 256
                    + old(self)@.stack[old(self)@.stack.len() - 1]) as u16,
                stack: old(self)@.stack.take(old(self)@.stack.len() - 2),
                ..old(self)@
            }),
    {
        let lo = self.stack.pop().unwrap();
        let hi = self.stack.pop().unwrap();
        self.pc = (hi as u16) * 256 + (lo as u16);
        proof {
            assert(self@.stack =~= old(self)@.stack.take(old(self)@.stack.len() - 2));
        }
    }

    /// Draws the `n`-row sprite at memory address I with origin
    /// `(Vx mod 64, Vy mod 32)`, XORing lit bits into the framebuffer,
    /// clipping at the right and bottom edges, setting VF on collision and
    /// marking the frame dirty.
    #[verifier::loop_isolation(false)]
    #[verifier::rlimit(100)]
    pub fn op_0xDXYN(&mut self, x: u8, y: u8, n: u8)
        requires
            old(self).wf(),
            x < 16,
            y < 16,
            n < 16,
        ensures
            final(self)@ == draw_state_spec(old(self)@, x, y, n),
    {
        let ghost s0 = self@;
        let ghost ir = s0.index as int;
        let x0 = (self.registers[x as usize] % 64) as usize;
        let y0 = (self.registers[y as usize] % 32) as usize;
        self.vram_changed = true;
        self.registers[15] = 0;
        let rows = if (n as usize) < HEIGHT - y0 {
            n as usize
        } else {
            HEIGHT - y0
        };
        let mut i: usize = 0;
        while i < rows
            invariant
                s0.wf(),
                x < 16,
                y < 16,
                n < 16,
                x0 == reg_val(s0, x) as int % 64,
                y0 == reg_val(s0, y) as int % 32,
                rows == if n as int <= 32 - y0 { n as int } else { 32 - y0 },
                i <= rows,
                self@.pc == s0.pc,
                self@.index == s0.index,
                self@.ram == s0.ram,
                self@.stack == s0.stack,
                self@.delay == s0.delay,
                self@.sound == s0.sound,
                self@.keys == s0.keys,
                self@.vram_changed,
                self@.vram == draw_vram_upto(s0.vram, s0.ram, ir, x0 as int, y0 as int,
                    n as int, i as int, 0),
                self@.regs == s0.regs.update(
                    15,
                    if draw_collision_upto(s0.vram, s0.ram, ir, x0 as int, y0 as int,
                        n as int, i as int, 0) { 1u8 } else { 0u8 },
                ),
            decreases rows - i,
        {
            let addr = (self.index as usize + i) % RAM_SIZE;
            proof {
                assert(addr == (ir + i) % (RAM_SIZE as int));
            }
            let byte = self.ram[addr];
            proof {
                assert(byte == s0.ram[(ir + i) % (RAM_SIZE as int)]);
                assert(byte == sprite_row_byte(s0.ram, ir, i as int));
            }
            let py = y0 + i;
            let cols = if 8 < WIDTH - x0 {
                8
            } else {
                WIDTH - x0
            };
            let mut j: usize = 0;
            while j < cols
                invariant
                    s0.wf(),
                    x < 16,
                    y < 16,
                    n < 16,
                    x0 == reg_val(s0, x) as int % 64,
                    y0 == reg_val(s0, y) as int % 32,
                    rows == if n as int <= 32 - y0 { n as int } else { 32 - y0 },
                    i < rows,
                    py == y0 + i,
                    byte == sprite_row_byte(s0.ram, ir, i as int),
                    cols == if 8 <= 64 - x0 { 8int } else { 64 - x0 },
                    j <= cols,
                    self@.pc == s0.pc,
                    self@.index == s0.index,
                    self@.ram == s0.ram,
                    self@.stack == s0.stack,
                    self@.delay == s0.delay,
                    self@.sound == s0.sound,
                    self@.keys == s0.keys,
                    self@.vram_changed,
                    self@.vram == draw_vram_upto(s0.vram, s0.ram, ir, x0 as int, y0 as int,
                        n as int, i as int, j as int),
                    self@.regs == s0.regs.update(
                        15,
                        if draw_collision_upto(s0.vram, s0.ram, ir, x0 as int, y0 as int,
                            n as int, i as int, j as int) { 1u8 } else { 0u8 },
                    ),
                decreases cols - j,
            {
                let px = x0 + j;
                if byte & (0x80u8 >> (j as u8)) != 0 {
                    let idx = py * WIDTH + px;
                    proof {
                        assert(idx == (y0 + i) * 64 + (x0 + j));
                        assert(idx as int % 64 == x0 + j && idx as int / 64 == y0 + i);
                        assert(sprite_covers(x0 as int, y0 as int, n as int, idx as int));
                        assert(sprite_pixel_on(s0.ram, ir, x0 as int, y0 as int, idx as int));
                        assert(!draw_progressed(x0 as int, y0 as int, i as int, j as int,
                            idx as int));
                        assert(self@.vram[idx as int] == s0.vram[idx as int]);
                    }
                    if self.vram[idx] {
                        self.registers[15] = 1;
                        self.vram[idx] = false;
                        proof {
                            assert(draw_collision_upto(s0.vram, s0.ram, ir, x0 as int,
                                y0 as int, n as int, i as int, j + 1));
                        }
                    } else {
                        self.vram[idx] = true;
                        proof {
                            assert forall|k: int|
                                0 <= k < s0.vram.len() && #[trigger] sprite_covers(x0 as int,
                                    y0 as int, n as int, k) && draw_progressed(x0 as int,
                                    y0 as int, i as int, j + 1, k) && sprite_pixel_on(s0.ram,
                                    ir, x0 as int, y0 as int, k) && s0.vram[k] implies
                                draw_collision_upto(s0.vram, s0.ram, ir, x0 as int, y0 as int,
                                    n as int, i as int, j as int) by {
                                assert(k != idx);
                                assert(draw_progressed(x0 as int, y0 as int, i as int,
                                    j as int, k));
                            }
                        }
                    }
                    proof {
                        assert(self@.vram =~= draw_vram_upto(s0.vram, s0.ram, ir, x0 as int,
                            y0 as int, n as int, i as int, j + 1));
                        assert(self@.regs =~= s0.regs.update(
                            15,
                            if draw_collision_upto(s0.vram, s0.ram, ir, x0 as int, y0 as int,
                                n as int, i as int, j + 1) { 1u8 } else { 0u8 },
                        ));
                    }
                } else {
                    proof {
                        assert(self@.vram =~= draw_vram_upto(s0.vram, s0.ram, ir, x0 as int,
                            y0 as int, n as int, i as int, j + 1));
                        assert forall|k: int|
                            0 <= k < s0.vram.len() && #[trigger] sprite_covers(x0 as int,
                                y0 as int, n as int, k) && draw_progressed(x0 as int,
                                y0 as int, i as int, j + 1, k) && sprite_pixel_on(s0.ram, ir,
                                x0 as int, y0 as int, k) && s0.vram[k] implies
                            draw_collision_upto(s0.vram, s0.ram, ir, x0 as int, y0 as int,
                                n as int, i as int, j as int) by {
                            if !draw_progressed(x0 as int, y0 as int, i as int, j as int, k) {
                                assert(k % 64 == x0 + j && k / 64 == y0 + i);
                                assert(k == (y0 + i) * 64 + (x0 + j));
                                assert(!sprite_pixel_on(s0.ram, ir, x0 as int, y0 as int, k));
                            }
                        }
                    }
                }
                j = j + 1;
            }
            proof {
                assert(self@.vram =~= draw_vram_upto(s0.vram, s0.ram, ir, x0 as int,
                    y0 as int, n as int, i + 1, 0));
                assert forall|k: int|
                    0 <= k < s0.vram.len() && #[trigger] sprite_covers(x0 as int, y0 as int,
                        n as int, k) && draw_progressed(x0 as int, y0 as int, i + 1, 0, k)
                        && sprite_pixel_on(s0.ram, ir, x0 as int, y0 as int, k) && s0.vram[k]
                    implies draw_collision_upto(s0.vram, s0.ram, ir, x0 as int, y0 as int,
                        n as int, i as int, cols as int) by {
                    assert(draw_progressed(x0 as int, y0 as int, i as int, cols as int, k));
                }
                assert(draw_collision_upto(s0.vram, s0.ram, ir, x0 as int, y0 as int,
                    n as int, i as int, cols as int) ==> draw_collision_upto(s0.vram, s0.ram,
                    ir, x0 as int, y0 as int, n as int, i + 1, 0));
            }
            i = i + 1;
        }
        proof {
            assert(self@.vram =~= draw_vram(s0.vram, s0.ram, ir, x0 as int, y0 as int,
                n as int));
            assert forall|k: int|
                0 <= k < s0.vram.len() && #[trigger] sprite_covers(x0 as int, y0 as int,
                    n as int, k) && sprite_pixel_on(s0.ram, ir, x0 as int, y0 as int, k)
                    && s0.vram[k] implies draw_collision_upto(s0.vram, s0.ram, ir, x0 as int,
                    y0 as int, n as int, rows as int, 0) by {
                assert(draw_progressed(x0 as int, y0 as int, rows as int, 0, k));
            }
            assert(draw_collision_upto(s0.vram, s0.ram, ir, x0 as int, y0 as int, n as int,
                rows as int, 0) ==> draw_collision(s0.vram, s0.ram, ir, x0 as int, y0 as int,
                n as int));
            assert(self@ =~= draw_state_spec(s0, x, y, n));
        }
    }

    /// The lowest pressed key in the key buffer, if any.
    fn scan_keys(&self) -> (r: Option<u8>)
        ensures
            r == first_key(self@.keys),
    {
        let mut k: usize = 0;
        while k < 16
            invariant
                k <= 16,
                first_key(self@.keys) == first_key_from(self@.keys, k as int),
            decreases 16 - k,
        {
            if self.key_buffer[k] {
                return Some(k as u8);
            }
            k = k + 1;
        }
        None
    }

    /// Stores registers V0..=Vx to memory starting at I, each address
    /// reduced modulo the memory size.
    fn op_store_regs(&mut self, x: u8)
        requires
            old(self).wf(),
            x < 16,
        ensures
            final(self)@ == (CpuView {
                ram: store_regs_spec(old(self)@.ram, old(self)@.regs, old(self)@.index as int,
                    x as int),
                ..old(self)@
            }),
    {
        let mut k: usize = 0;
        while k <= x as usize
            invariant
                old(self).wf(),
                x < 16,
                k <= x as usize + 1,
                self@ == (CpuView {
                    ram: store_regs_spec(old(self)@.ram, old(self)@.regs,
                        old(self)@.index as int, k as int - 1),
                    ..old(self)@
                }),
            decreases x as usize + 1 - k,
        {
            let addr = (self.index as usize + k) % RAM_SIZE;
            self.ram[addr] = self.registers[k];
            k = k + 1;
        }
    }

    /// Loads registers V0..=Vx from memory starting at I, each address
    /// reduced modulo the memory size.
    fn op_load_regs(&mut self, x: u8)
        requires
            old(self).wf(),
            x < 16,
        ensures
            final(self)@ == (CpuView {
                regs: load_regs_spec(old(self)@.regs, old(self)@.ram, old(self)@.index as int,
                    x as int),
                ..old(self)@
            }),
    {
        let mut k: usize = 0;
        while k <= x as usize
            invariant
                old(self).wf(),
                x < 16,
                k <= x as usize + 1,
                self@ == (CpuView {
                    regs: load_regs_spec(old(self)@.regs, old(self)@.ram,
                        old(self)@.index as int, k as int - 1),
                    ..old(self)@
                }),
            decreases x as usize + 1 - k,
        {
            let addr = (self.index as usize + k) % RAM_SIZE;
            self.registers[k] = self.ram[addr];
            k = k + 1;
        }
    }
}

/// Decodes one opcode; follows `decode_spec` exactly.
pub fn decode(op: u16) -> (i: Instr)
    ensures
        i == decode_spec(op),
{
    let x = ((op / 0x100) % 0x10) as u8;
    let y = ((op / 0x10) % 0x10) as u8;
    let n = (op % 0x10) as u8;
    let nn = (op % 0x100) as u8;
    let nnn = op % 0x1000;
    let family = op / 0x1000;
    match family {
        0x0 => {
            if nn == 0xE0 {
                Instr::Cls
            } else if nn == 0xEE {
                Instr::Ret
            } else {
                Instr::Unknown(op)
            }
        },
        0x1 => Instr::Jump(nnn),
        0x2 => Instr::Call(nnn),
        0x3 => Instr::SkipEqImm(x, nn),
        0x4 => Instr::SkipNeImm(x, nn),
        0x5 => Instr::SkipEqReg(x, y),
        0x6 => Instr::SetImm(x, nn),
        0x7 => Instr::AddImm(x, nn),
        0x8 => {
            match n {
                0x0 => Instr::Assign(x, y),
                0x1 => Instr::Or(x, y),
                0x2 => Instr::And(x, y),
                0x3 => Instr::Xor(x, y),
                0x4 => Instr::AddReg(x, y),
                0x5 => Instr::SubReg(x, y),
                0x6 => Instr::Shr(x),
                0x7 => Instr::SubFrom(x, y),
                0xE => Instr::Shl(x),
                _ => Instr::Unknown(op),
            }
        },
        0x9 => Instr::SkipNeReg(x, y),
        0xA => Instr::SetIndex(nnn),
        0xB => Instr::JumpPlus(nnn),
        0xC => Instr::Rand(x, nn),
        0xD => Instr::Draw(x, y, n),
        0xE => {
            if nn == 0x9E {
                Instr::SkipKey(x)
            } else if nn == 0xA1 {
                Instr::SkipNoKey(x)
            } else {
                Instr::Unknown(op)
            }
        },
        _ => {
            if nn == 0x07 {
                Instr::ReadDelay(x)
            } else if nn == 0x0A {
                Instr::WaitKey(x)
            } else if nn == 0x15 {
                Instr::SetDelay(x)
            } else if nn == 0x18 {
                Instr::SetSound(x)
            } else if nn == 0x1E {
                Instr::AddIndex(x)
            } else if nn == 0x29 {
                Instr::FontAddr(x)
            } else if nn == 0x33 {
                Instr::StoreBcd(x)
            } else if nn == 0x55 {
                Instr::StoreRegs(x)
            } else if nn == 0x65 {
                Instr::LoadRegs(x)
            } else {
                Instr::Unknown(op)
            }
        },
    }
}

/// An execution fault of the loaded program, reported to the host loop
/// rather than corrupting the machine.
#[derive(Clone, Copy, Debug, PartialEq, Eq, Structural)]
pub enum Fault {
    /// A return was executed with fewer than two bytes on the call stack.
    StackUnderflow,
}

/// Relies on rand::random: a byte drawn from the thread-local generator.
/// Nothing is assumed of its value.
#[verifier::external_body]
fn random_byte() -> u8 {
    rand::random::<u8>()
}

impl CPU {
    /// Executes the instruction families 0x0 through 0x7 (except the
    /// return instruction, which the dispatcher handles): screen clear,
    /// jump, call, the immediate and register skips, and the immediate
    /// register writes. Returns whether the default advance applies.
    #[verifier::rlimit(100)]
    fn exec_low(&mut self, instr: Instr, opcode: u16, rnd: u8) -> (adv: bool)
        requires
            old(self).wf(),
            instr == decode_spec(opcode),
            op_family(opcode) <= 0x7,
            !(instr is Ret),
        ensures
            final(self)@.dims_ok(),
            step_spec(old(self)@, opcode, rnd) == advanced(final(self)@, adv),
    {
        let ghost s0 = self@;
        match instr {
            Instr::Cls => {
                self.clear_vram();
                proof {
                    assert(step_spec(s0, opcode, rnd) == advanced(self@, true));
                }
                true
            },
            Instr::Jump(a) => {
                self.pc = a;
                proof {
                    assert(step_spec(s0, opcode, rnd) == advanced(self@, false));
                }
                false
            },
            Instr::Call(a) => {
                self.stack.push((self.pc / 0x100) as u8);
                self.stack.push((self.pc % 0x100) as u8);
                self.pc = a;
                proof {
                    assert(step_spec(s0, opcode, rnd) == advanced(self@, false));
                }
                false
            },
            Instr::SkipEqImm(x, nn) => {
                if self.registers[x as usize] == nn {
                    self.pc = self.pc + 2;
                }
                proof {
                    assert(step_spec(s0, opcode, rnd) == advanced(self@, true));
                }
                true
            },
            Instr::SkipNeImm(x, nn) => {
                if self.registers[x as usize] != nn {
                    self.pc = self.pc + 2;
                }
                proof {
                    assert(step_spec(s0, opcode, rnd) == advanced(self@, true));
                }
                true
            },
            Instr::SkipEqReg(x, y) => {
                if self.registers[x as usize] == self.registers[y as usize] {
                    self.pc = self.pc + 2;
                }
                proof {
                    assert(step_spec(s0, opcode, rnd) == advanced(self@, true));
                }
                true
            },
            Instr::SetImm(x, nn) => {
                self.registers[x as usize] = nn;
                proof {
                    assert(step_spec(s0, opcode, rnd) == advanced(self@, true));
                }
                true
            },
            Instr::AddImm(x, nn) => {
                let sum = self.registers[x as usize] as u16 + nn as u16;
                self.registers[x as usize] = (sum % 256) as u8;
                proof {
                    assert(step_spec(s0, opcode, rnd) == advanced(self@, true));
                }
                true
            },
            Instr::Unknown(_) => {
                proof {
                    assert(step_spec(s0, opcode, rnd) == advanced(self@, true));
                }
                true
            },
            _ => {
                proof {
                    assert(false);
                }
                true
            },
        }
    }

    /// Executes the moves and bitwise operations of the 0x8 family and
    /// hands the arithmetic and shift operations on.
    #[verifier::rlimit(100)]
    fn exec_alu(&mut self, instr: Instr, opcode: u16, rnd: u8) -> (adv: bool)
        requires
            old(self).wf(),
            instr == decode_spec(opcode),
            op_family(opcode) == 0x8,
        ensures
            final(self)@.dims_ok(),
            step_spec(old(self)@, opcode, rnd) == advanced(final(self)@, adv),
    {
        let ghost s0 = self@;
        match instr {
            Instr::Assign(x, y) => {
                self.registers[x as usize] = self.registers[y as usize];
                proof {
                    assert(step_spec(s0, opcode, rnd) == advanced(self@, true));
                }
                true
            },
            Instr::Or(x, y) => {
                self.registers[x as usize] = self.registers[x as usize]
                    | self.registers[y as usize];
                proof {
                    assert(step_spec(s0, opcode, rnd) == advanced(self@, true));
                }
                true
            },
            Instr::And(x, y) => {
                self.registers[x as usize] = self.registers[x as usize]
                    & self.registers[y as usize];
                proof {
                    assert(step_spec(s0, opcode, rnd) == advanced(self@, true));
                }
                true
            },
            Instr::Xor(x, y) => {
                self.registers[x as usize] = self.registers[x as usize]
                    ^ self.registers[y as usize];
                proof {
                    assert(step_spec(s0, opcode, rnd) == advanced(self@, true));
                }
                true
            },
            Instr::Unknown(_) => {
                proof {
                    assert(step_spec(s0, opcode, rnd) == advanced(self@, true));
                }
                true
            },
            _ => self.exec_alu_arith(instr, opcode, rnd),
        }
    }

    /// Routes the adds, subtracts and shifts of the 0x8 family, with
    /// their carry, inverted-borrow and shifted-out-bit flag conventions.
    fn exec_alu_arith(&mut self, instr: Instr, opcode: u16, rnd: u8) -> (adv: bool)
        requires
            old(self).wf(),
            instr == decode_spec(opcode),
            op_family(opcode) == 0x8,
            instr is AddReg || instr is SubReg || instr is SubFrom || instr is Shr
                || instr is Shl,
        ensures
            final(self)@.dims_ok(),
            step_spec(old(self)@, opcode, rnd) == advanced(final(self)@, adv),
    {
        match instr {
            Instr::AddReg(x, y) => self.exec_add_reg(x, y, opcode, rnd),
            Instr::SubReg(x, y) => self.exec_sub_reg(x, y, opcode, rnd),
            Instr::SubFrom(x, y) => self.exec_sub_from(x, y, opcode, rnd),
            Instr::Shr(x) => self.exec_shr(x, opcode, rnd),
            Instr::Shl(x) => self.exec_shl(x, opcode, rnd),
            _ => {
                proof {
                    assert(false);
                }
                true
            },
        }
    }

    /// Vx += Vy with VF as the carry flag.
    #[verifier::rlimit(100)]
    fn exec_add_reg(&mut self, x: u8, y: u8, opcode: u16, rnd: u8) -> (adv: bool)
        requires
            old(self).wf(),
            decode_spec(opcode) == Instr::AddReg(x, y),
        ensures
            final(self)@.dims_ok(),
            step_spec(old(self)@, opcode, rnd) == advanced(final(self)@, adv),
    {
        let ghost s0 = self@;
        let sum = self.registers[x as usize] as u16 + self.registers[y as usize] as u16;
        self.registers[x as usize] = (sum % 256) as u8;
        self.registers[15] = if sum > 255 {
            1
        } else {
            0
        };
        proof {
            assert(step_spec(s0, opcode, rnd) == advanced(self@, true));
        }
        true
    }

    /// Vx -= Vy with the inverted-borrow convention: VF = 1 exactly when
    /// no borrow occurred.
    #[verifier::rlimit(100)]
    fn exec_sub_reg(&mut self, x: u8, y: u8, opcode: u16, rnd: u8) -> (adv: bool)
        requires
            old(self).wf(),
            decode_spec(opcode) == Instr::SubReg(x, y),
        ensures
            final(self)@.dims_ok(),
            step_spec(old(self)@, opcode, rnd) == advanced(final(self)@, adv),
    {
        let ghost s0 = self@;
        let a = self.registers[x as usize];
        let b = self.registers[y as usize];
        self.registers[x as usize] = if a >= b {
            a - b
        } else {
            ((a as u16 + 256) - b as u16) as u8
        };
        self.registers[15] = if a >= b {
            1
        } else {
            0
        };
        proof {
            assert(step_spec(s0, opcode, rnd) == advanced(self@, true));
        }
        true
    }

    /// Vx = Vy - Vx, the same inverted-borrow convention on reversed
    /// operands.
    #[verifier::rlimit(100)]
    fn exec_sub_from(&mut self, x: u8, y: u8, opcode: u16, rnd: u8) -> (adv: bool)
        requires
            old(self).wf(),
            decode_spec(opcode) == Instr::SubFrom(x, y),
        ensures
            final(self)@.dims_ok(),
            step_spec(old(self)@, opcode, rnd) == advanced(final(self)@, adv),
    {
        let ghost s0 = self@;
        let a = self.registers[x as usize];
        let b = self.registers[y as usize];
        self.registers[x as usize] = if b >= a {
            b - a
        } else {
            ((b as u16 + 256) - a as u16) as u8
        };
        self.registers[15] = if b >= a {
            1
        } else {
            0
        };
        proof {
            assert(step_spec(s0, opcode, rnd) == advanced(self@, true));
        }
        true
    }

    /// Vx >>= 1 with VF taking the shifted-out low bit first.
    #[verifier::rlimit(100)]
    fn exec_shr(&mut self, x: u8, opcode: u16, rnd: u8) -> (adv: bool)
        requires
            old(self).wf(),
            decode_spec(opcode) == Instr::Shr(x),
        ensures
            final(self)@.dims_ok(),
            step_spec(old(self)@, opcode, rnd) == advanced(final(self)@, adv),
    {
        let ghost s0 = self@;
        self.registers[15] = self.registers[x as usize] % 2;
        let cur = self.registers[x as usize];
        self.registers[x as usize] = cur / 2;
        proof {
            assert(step_spec(s0, opcode, rnd) == advanced(self@, true));
        }
        true
    }

    /// Vx <<= 1 with VF taking the shifted-out high bit first.
    #[verifier::rlimit(100)]
    fn exec_shl(&mut self, x: u8, opcode: u16, rnd: u8) -> (adv: bool)
        requires
            old(self).wf(),
            decode_spec(opcode) == Instr::Shl(x),
        ensures
            final(self)@.dims_ok(),
            step_spec(old(self)@, opcode, rnd) == advanced(final(self)@, adv),
    {
        let ghost s0 = self@;
        self.registers[15] = self.registers[x as usize] / 128;
        let cur = self.registers[x as usize];
        self.registers[x as usize] = ((cur as u16 * 2) % 256) as u8;
        proof {
            assert(step_spec(s0, opcode, rnd) == advanced(self@, true));
        }
        true
    }

    /// Executes the instruction families 0x9 through 0xE: the register
    /// skip, index and computed jumps, the random byte, the sprite draw
    /// and the key skips.
    #[verifier::rlimit(100)]
    fn exec_mid(&mut self, instr: Instr, opcode: u16, rnd: u8) -> (adv: bool)
        requires
            old(self).wf(),
            instr == decode_spec(opcode),
            0x9 <= op_family(opcode) <= 0xE,
        ensures
            final(self)@.dims_ok(),
            step_spec(old(self)@, opcode, rnd) == advanced(final(self)@, adv),
    {
        let ghost s0 = self@;
        match instr {
            Instr::SkipNeReg(x, y) => {
                if self.registers[x as usize] != self.registers[y as usize] {
                    self.pc = self.pc + 2;
                }
                proof {
                    assert(step_spec(s0, opcode, rnd) == advanced(self@, true));
                }
                true
            },
            Instr::SetIndex(a) => {
                self.index = a;
                proof {
                    assert(step_spec(s0, opcode, rnd) == advanced(self@, true));
                }
                true
            },
            Instr::JumpPlus(a) => {
                self.pc = a + self.registers[0] as u16;
                proof {
                    assert(step_spec(s0, opcode, rnd) == advanced(self@, false));
                }
                false
            },
            Instr::Rand(x, nn) => {
                self.registers[x as usize] = rnd & nn;
                proof {
                    assert(step_spec(s0, opcode, rnd) == advanced(self@, true));
                }
                true
            },
            Instr::Draw(x, y, n) => {
                self.op_0xDXYN(x, y, n);
                proof {
                    assert(step_spec(s0, opcode, rnd) == advanced(self@, true));
                }
                true
            },
            Instr::SkipKey(x) => {
                let key = (self.registers[x as usize] as usize) % 16;
                if self.key_buffer[key] {
                    self.pc = self.pc + 2;
                }
                proof {
                    assert(step_spec(s0, opcode, rnd) == advanced(self@, true));
                }
                true
            },
            Instr::SkipNoKey(x) => {
                let key = (self.registers[x as usize] as usize) % 16;
                if !self.key_buffer[key] {
                    self.pc = self.pc + 2;
                }
                proof {
                    assert(step_spec(s0, opcode, rnd) == advanced(self@, true));
                }
                true
            },
            Instr::Unknown(_) => {
                proof {
                    assert(step_spec(s0, opcode, rnd) == advanced(self@, true));
                }
                true
            },
            _ => {
                proof {
                    assert(false);
                }
                true
            },
        }
    }

    /// Executes the 0xF family except the blocking key wait (which the
    /// dispatcher handles): the timer reads and writes, index arithmetic,
    /// font lookup, decimal conversion and the block register transfers.
    #[verifier::rlimit(100)]
    fn exec_fx(&mut self, instr: Instr, opcode: u16, rnd: u8) -> (adv: bool)
        requires
            old(self).wf(),
            instr == decode_spec(opcode),
            op_family(opcode) == 0xF,
            !(instr is WaitKey),
        ensures
            final(self)@.dims_ok(),
            step_spec(old(self)@, opcode, rnd) == advanced(final(self)@, adv),
    {
        let ghost s0 = self@;
        match instr {
            Instr::ReadDelay(x) => {
                self.registers[x as usize] = self.timer.counter;
                proof {
                    assert(step_spec(s0, opcode, rnd) == advanced(self@, true));
                }
                true
            },
            Instr::SetDelay(x) => {
                self.timer.counter = self.registers[x as usize];
                proof {
                    assert(step_spec(s0, opcode, rnd) == advanced(self@, true));
                }
                true
            },
            Instr::SetSound(x) => {
                self.sound_timer.counter = self.registers[x as usize];
                proof {
                    assert(step_spec(s0, opcode, rnd) == advanced(self@, true));
                }
                true
            },
            Instr::AddIndex(x) => {
                let sum = self.index as u32 + self.registers[x as usize] as u32;
                self.index = (sum % 0x10000) as u16;
                proof {
                    assert(step_spec(s0, opcode, rnd) == advanced(self@, true));
                }
                true
            },
            Instr::FontAddr(x) => {
                self.index = FONT_OFFSET as u16 + 5 * (self.registers[x as usize] % 16) as u16;
                proof {
                    assert(step_spec(s0, opcode, rnd) == advanced(self@, true));
                }
                true
            },
            Instr::StoreBcd(x) => {
                let v = self.registers[x as usize];
                let i0 = (self.index as usize) % RAM_SIZE;
                let i1 = (self.index as usize + 1) % RAM_SIZE;
                let i2 = (self.index as usize + 2) % RAM_SIZE;
                self.ram[i0] = v / 100;
                self.ram[i1] = (v / 10) % 10;
                self.ram[i2] = v % 10;
                proof {
                    assert(step_spec(s0, opcode, rnd) == advanced(self@, true));
                }
                true
            },
            Instr::StoreRegs(x) => {
                self.op_store_regs(x);
                proof {
                    assert(step_spec(s0, opcode, rnd) == advanced(self@, true));
                }
                true
            },
            Instr::LoadRegs(x) => {
                self.op_load_regs(x);
                proof {
                    assert(step_spec(s0, opcode, rnd) == advanced(self@, true));
                }
                true
            },
            Instr::Unknown(_) => {
                proof {
                    assert(step_spec(s0, opcode, rnd) == advanced(self@, true));
                }
                true
            },
            _ => {
                proof {
                    assert(false);
                }
                true
            },
        }
    }

    /// Executes one already-fetched opcode with an explicitly supplied
    /// random byte; follows `step_spec` exactly. Fails, leaving the
    /// machine untouched, exactly on a return with an underfull stack;
    /// unrecognized opcodes are no-ops that still advance.
    #[verifier::rlimit(100)]
    pub fn next_instruction_with(&mut self, opcode: u16, rnd: u8) -> (r: Result<(), Fault>)
        requires
            old(self).wf(),
        ensures
            final(self).wf(),
            r is Err <==> step_fault(old(self)@, opcode),
            r is Err ==> final(self)@ == old(self)@,
            r is Ok ==> final(self)@ == step_spec(old(self)@, opcode, rnd),
    {
        let ghost s0 = self@;
        let instr = decode(opcode);
        let family = opcode / 0x1000;
        let advance: bool;
        if let Instr::Ret = instr {
            if self.stack.len() < 2 {
                return Err(Fault::StackUnderflow);
            }
            self.op_0x00EE();
            proof {
                assert(step_spec(s0, opcode, rnd) == advanced(self@, true));
            }
            advance = true;
        } else if let Instr::WaitKey(x) = instr {
            match self.scan_keys() {
                Some(k) => {
                    self.registers[x as usize] = k;
                    proof {
                        assert(step_spec(s0, opcode, rnd) == advanced(self@, true));
                    }
                    advance = true;
                },
                None => {
                    proof {
                        assert(step_spec(s0, opcode, rnd) == self@);
                    }
                    return Ok(());
                },
            }
        } else if family <= 0x7 {
            advance = self.exec_low(instr, opcode, rnd);
        } else if family == 0x8 {
            advance = self.exec_alu(instr, opcode, rnd);
        } else if family <= 0xE {
            advance = self.exec_mid(instr, opcode, rnd);
        } else {
            advance = self.exec_fx(instr, opcode, rnd);
        }
        let ghost pre = self@;
        if self.pc >= 0xFFF {
            self.pc = self.pc % 0xFFF;
        }
        if advance {
            self.pc = self.pc + 2;
        }
        proof {
            assert(self@ =~= advanced(pre, advance));
        }
        Ok(())
    }

    /// Executes one already-fetched opcode, drawing from the machine's
    /// randomness source: the step taken is `step_spec` for whatever byte
    /// the source supplied.
    pub fn next_instruction(&mut self, opcode: u16) -> (r: Result<(), Fault>)
        requires
            old(self).wf(),
        ensures
            final(self).wf(),
            r is Err <==> step_fault(old(self)@, opcode),
            r is Err ==> final(self)@ == old(self)@,
            r is Ok ==> exists|rnd: u8| final(self)@ == step_spec(old(self)@, opcode, rnd),
    {
        let rnd = random_byte();
        let r = self.next_instruction_with(opcode, rnd);
        proof {
            if r is Ok {
                assert(final(self)@ == step_spec(old(self)@, opcode, rnd));
            }
        }
        r
    }

    /// One machine cycle: fetch the opcode at the program counter and
    /// execute it.
    pub fn cycle(&mut self) -> (r: Result<(), Fault>)
        requires
            old(self).wf(),
        ensures
            final(self).wf(),
            r is Err <==> step_fault(old(self)@, fetch_spec(old(self)@)),
            r is Err ==> final(self)@ == old(self)@,
            r is Ok ==> exists|rnd: u8|
                final(self)@ == step_spec(old(self)@, fetch_spec(old(self)@), rnd),
    {
        let opcode = self.fetch_opcode();
        self.next_instruction(opcode)
    }
}

} // verus!
