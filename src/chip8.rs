//! The interpreter: machine state, program loading, and the
//! fetch/decode/execute cycle.
use vstd::prelude::*;

use crate::display::{blank_video, collision_flag, drawn, valid_video, Display};
use crate::lsfr::{byte_from, state_after, Lsfr};

verus! {

/// Bytes of addressable memory.
pub const MEMORY_SIZE: usize = 4096;

/// Where a program image is loaded and where execution starts.
pub const START_ADDRESS: usize = 0x200;

/// Where the hexadecimal digit glyphs live.
pub const FONTSET_START_ADDRESS: usize = 0x50;

/// Largest program image that fits above `START_ADDRESS`.
pub const MAX_PROGRAM_SIZE: usize = 3584;

/// Number of general-purpose registers, of stack slots and of keys.
pub const SLOTS: usize = 16;

/// The register that receives carry, borrow, shift-out and collision flags.
pub const FLAG_REGISTER: usize = 15;

/// Fatal conditions of loading or running a program.
#[derive(Debug, Clone, Copy, PartialEq, Eq, Structural)]
pub enum Chip8Error {
    /// The program image does not fit in memory above `START_ADDRESS`.
    ProgramTooLarge,
    /// The fetched instruction matches no known pattern.
    UnknownInstruction(u16),
    /// A call with all sixteen stack slots in use.
    StackOverflow,
    /// A return with an empty stack.
    StackUnderflow,
    /// A fetch, or an access through the index register, past the end of
    /// memory.
    MemoryOutOfBounds,
    /// A key instruction names a key above 15.
    KeyOutOfRange,
}

/// The abstract state of a machine.
pub ghost struct Chip8View {
    pub registers: Seq<u8>,
    pub memory: Seq<u8>,
    pub index: u16,
    pub pc: int,
    pub stack: Seq<u16>,
    pub sp: int,
    pub delay_timer: u8,
    pub sound_timer: u8,
    pub keypad: Seq<u8>,
    pub video: Seq<u32>,
    pub dirty: bool,
    pub rng: u16,
}

/// The shapes every reachable state has.
pub open spec fn valid_state(s: Chip8View) -> bool {
    &&& s.registers.len() == SLOTS
    &&& s.memory.len() == MEMORY_SIZE
    &&& s.stack.len() == SLOTS
    &&& 0 <= s.sp <= SLOTS
    &&& s.keypad.len() == SLOTS
    &&& valid_video(s.video)
    &&& 0 <= s.pc <= 0x10001
}

/// The glyphs of the hexadecimal digits 0 to F, five rows each.
pub open spec fn font_glyphs() -> Seq<u8> {
    seq![
        0xF0u8, 0x90, 0x90, 0x90, 0xF0, 0x20, 0x60, 0x20, 0x20, 0x70,
        0xF0, 0x10, 0xF0, 0x80, 0xF0, 0xF0, 0x10, 0xF0, 0x10, 0xF0,
        0x90, 0x90, 0xF0, 0x10, 0x10, 0xF0, 0x80, 0xF0, 0x10, 0xF0,
        0xF0, 0x80, 0xF0, 0x90, 0xF0, 0xF0, 0x10, 0x20, 0x40, 0x40,
        0xF0, 0x90, 0xF0, 0x90, 0xF0, 0xF0, 0x90, 0xF0, 0x10, 0xF0,
        0xF0, 0x90, 0xF0, 0x90, 0x90, 0xE0, 0x90, 0xE0, 0x90, 0xE0,
        0xF0, 0x80, 0x80, 0x80, 0xF0, 0xE0, 0x90, 0x90, 0x90, 0xE0,
        0xF0, 0x80, 0xF0, 0x80, 0xF0, 0xF0, 0x80, 0xF0, 0x80, 0x80,
    ]
}

/// Memory of a freshly loaded machine: glyphs at `FONTSET_START_ADDRESS`,
/// the program at `START_ADDRESS`, zero elsewhere.
pub open spec fn initial_memory(program: Seq<u8>) -> Seq<u8> {
    Seq::new(
        MEMORY_SIZE as nat,
        |a: int|
            if FONTSET_START_ADDRESS <= a < FONTSET_START_ADDRESS + 80 {
                font_glyphs()[a - FONTSET_START_ADDRESS]
            } else if START_ADDRESS <= a < START_ADDRESS + program.len() {
                program[a - START_ADDRESS]
            } else {
                0u8
            },
    )
}

/// Sixteen zero bytes.
pub open spec fn zeros16() -> Seq<u8> {
    Seq::new(SLOTS as nat, |k: int| 0u8)
}

/// The state of a machine freshly loaded with `program`.
pub open spec fn initial_state(program: Seq<u8>) -> Chip8View {
    Chip8View {
        registers: zeros16(),
        memory: initial_memory(program),
        index: 0,
        pc: START_ADDRESS as int,
        stack: Seq::new(SLOTS as nat, |k: int| 0u16),
        sp: 0,
        delay_timer: 0,
        sound_timer: 0,
        keypad: zeros16(),
        video: blank_video(),
        dirty: true,
        rng: crate::lsfr::LSFR_SEED,
    }
}

/// The instruction at `pc`: two bytes, high byte first.
pub open spec fn fetch(s: Chip8View) -> u16 {
    ((s.memory[s.pc] as u16) << 8u16) | (s.memory[s.pc + 1] as u16)
}

/// First (most significant) nibble of an instruction.
pub open spec fn nib1(op: u16) -> u16 {
    op >> 12u16
}

/// Second nibble: usually the register `x`.
pub open spec fn nib2(op: u16) -> u16 {
    (op >> 8u16) & 0xFu16
}

/// Third nibble: usually the register `y`.
pub open spec fn nib3(op: u16) -> u16 {
    (op >> 4u16) & 0xFu16
}

/// Fourth (least significant) nibble.
pub open spec fn nib4(op: u16) -> u16 {
    op & 0xFu16
}

/// The 12-bit address operand `nnn`.
pub open spec fn addr_of(op: u16) -> u16 {
    op & 0xFFFu16
}

/// The byte operand `kk`.
pub open spec fn byte_of(op: u16) -> u8 {
    #[verifier::truncate]
    ((op & 0xFFu16) as u8)
}

/// Moves on to the next instruction.
pub open spec fn advance(s: Chip8View) -> Chip8View {
    Chip8View { pc: s.pc + 2, ..s }
}

/// Skips the next instruction when `cond` holds, else moves on to it.
pub open spec fn skip_if(s: Chip8View, cond: bool) -> Chip8View {
    Chip8View { pc: if cond { s.pc + 4 } else { s.pc + 2 }, ..s }
}

/// Continues at `target`.
pub open spec fn jump_to(s: Chip8View, target: int) -> Chip8View {
    Chip8View { pc: target, ..s }
}

/// Writes `v` to register `x` and moves on.
pub open spec fn set_reg(s: Chip8View, x: int, v: u8) -> Chip8View {
    advance(Chip8View { registers: s.registers.update(x, v), ..s })
}

/// Writes `v` to register `x`, then the flag register, and moves on: when `x`
/// is the flag register itself, the flag is what remains.
pub open spec fn set_reg_then_flag(s: Chip8View, x: int, v: u8, flag: u8) -> Chip8View {
    advance(Chip8View { registers: s.registers.update(x, v).update(FLAG_REGISTER as int, flag), ..s })
}

/// `00E0` and `00EE`.
pub open spec fn execute_system(s: Chip8View, op: u16) -> Result<Chip8View, Chip8Error> {
    if op == 0x00E0 {
        Ok(advance(Chip8View { video: blank_video(), dirty: true, ..s }))
    } else if op == 0x00EE {
        if s.sp == 0 {
            Err(Chip8Error::StackUnderflow)
        } else {
            Ok(Chip8View { pc: s.stack[s.sp - 1] + 2, sp: s.sp - 1, ..s })
        }
    } else {
        Err(Chip8Error::UnknownInstruction(op))
    }
}

/// `2nnn`: the address of the call itself is pushed.
pub open spec fn execute_call(s: Chip8View, op: u16) -> Result<Chip8View, Chip8Error> {
    if s.sp >= SLOTS {
        Err(Chip8Error::StackOverflow)
    } else {
        Ok(
            Chip8View {
                stack: s.stack.update(s.sp, s.pc as u16),
                sp: s.sp + 1,
                pc: addr_of(op) as int,
                ..s
            },
        )
    }
}

/// The register operations `8xyn`.
pub open spec fn execute_alu(s: Chip8View, op: u16) -> Result<Chip8View, Chip8Error> {
    let x = nib2(op) as int;
    let n = nib4(op);
    let vx = s.registers[x];
    let vy = s.registers[nib3(op) as int];
    if n == 0x0 {
        Ok(set_reg(s, x, vy))
    } else if n == 0x1 {
        Ok(set_reg(s, x, vx | vy))
    } else if n == 0x2 {
        Ok(set_reg(s, x, vx & vy))
    } else if n == 0x3 {
        Ok(set_reg(s, x, vx ^ vy))
    } else if n == 0x4 {
        let sum = vx as int + vy as int;
        Ok(set_reg_then_flag(s, x, (sum % 256) as u8, if sum > 255 { 1 } else { 0 }))
    } else if n == 0x5 {
        Ok(
            set_reg_then_flag(
                s,
                x,
                ((vx as int - vy as int) % 256) as u8,
                if vx >= vy { 1 } else { 0 },
            ),
        )
    } else if n == 0x6 {
        Ok(set_reg_then_flag(s, x, vx / 2, vx % 2))
    } else if n == 0x7 {
        Ok(
            set_reg_then_flag(
                s,
                x,
                ((vy as int - vx as int) % 256) as u8,
                if vy >= vx { 1 } else { 0 },
            ),
        )
    } else if n == 0xE {
        Ok(set_reg_then_flag(s, x, ((vx as int * 2) % 256) as u8, vx / 128))
    } else {
        Err(Chip8Error::UnknownInstruction(op))
    }
}

/// `Dxyn`: draws the `n` bytes at the index register.
pub open spec fn execute_draw(s: Chip8View, op: u16) -> Result<Chip8View, Chip8Error> {
    let n = nib4(op) as int;
    let i = s.index as int;
    if i + n > MEMORY_SIZE {
        Err(Chip8Error::MemoryOutOfBounds)
    } else {
        let sprite = s.memory.subrange(i, i + n);
        let vx = s.registers[nib2(op) as int] as int;
        let vy = s.registers[nib3(op) as int] as int;
        Ok(
            advance(
                Chip8View {
                    video: drawn(s.video, vx, vy, sprite),
                    dirty: true,
                    registers: s.registers.update(
                        FLAG_REGISTER as int,
                        collision_flag(s.video, vx, vy, sprite),
                    ),
                    ..s
                },
            ),
        )
    }
}

/// `Ex9E` and `ExA1`.
pub open spec fn execute_key_skip(s: Chip8View, op: u16) -> Result<Chip8View, Chip8Error> {
    let key = s.registers[nib2(op) as int] as int;
    let low = byte_of(op);
    if low != 0x9E && low != 0xA1 {
        Err(Chip8Error::UnknownInstruction(op))
    } else if key >= SLOTS {
        Err(Chip8Error::KeyOutOfRange)
    } else if low == 0x9E {
        Ok(skip_if(s, s.keypad[key] == 1))
    } else {
        Ok(skip_if(s, s.keypad[key] != 1))
    }
}

/// The lowest pressed key at or above `from`, or 16 when there is none.
pub open spec fn first_pressed(keypad: Seq<u8>, from: int) -> int
    decreases SLOTS - from,
{
    if from >= SLOTS || from < 0 {
        SLOTS as int
    } else if keypad[from] == 1 {
        from
    } else {
        first_pressed(keypad, from + 1)
    }
}

/// Memory with `count` registers stored from address `at` on.
pub open spec fn store_registers(mem: Seq<u8>, regs: Seq<u8>, at: int, count: int) -> Seq<u8> {
    Seq::new(mem.len(), |a: int| if at <= a < at + count { regs[a - at] } else { mem[a] })
}

/// Registers with the first `count` loaded from address `at` on.
pub open spec fn load_registers(regs: Seq<u8>, mem: Seq<u8>, at: int, count: int) -> Seq<u8> {
    Seq::new(regs.len(), |k: int| if k < count { mem[at + k] } else { regs[k] })
}

/// The `Fxkk` instructions.
pub open spec fn execute_misc(s: Chip8View, op: u16) -> Result<Chip8View, Chip8Error> {
    let x = nib2(op) as int;
    let vx = s.registers[x];
    let low = byte_of(op);
    let i = s.index as int;
    if low == 0x07 {
        Ok(set_reg(s, x, s.delay_timer))
    } else if low == 0x0A {
        let k = first_pressed(s.keypad, 0);
        if k < SLOTS {
            Ok(set_reg(s, x, k as u8))
        } else {
            Ok(s)
        }
    } else if low == 0x15 {
        Ok(advance(Chip8View { delay_timer: vx, ..s }))
    } else if low == 0x18 {
        Ok(advance(Chip8View { sound_timer: vx, ..s }))
    } else if low == 0x1E {
        Ok(advance(Chip8View { index: ((i + vx as int) % 0x10000) as u16, ..s }))
    } else if low == 0x29 {
        Ok(advance(Chip8View { index: (FONTSET_START_ADDRESS + 5 * vx as int) as u16, ..s }))
    } else if low == 0x33 {
        if i + 2 >= MEMORY_SIZE {
            Err(Chip8Error::MemoryOutOfBounds)
        } else {
            Ok(
                advance(
                    Chip8View {
                        memory: s.memory.update(i, vx / 100).update(i + 1, (vx / 10) % 10).update(
                            i + 2,
                            vx % 10,
                        ),
                        ..s
                    },
                ),
            )
        }
    } else if low == 0x55 {
        if i + x >= MEMORY_SIZE {
            Err(Chip8Error::MemoryOutOfBounds)
        } else {
            Ok(advance(Chip8View { memory: store_registers(s.memory, s.registers, i, x + 1), ..s }))
        }
    } else if low == 0x65 {
        if i + x >= MEMORY_SIZE {
            Err(Chip8Error::MemoryOutOfBounds)
        } else {
            Ok(
                advance(
                    Chip8View { registers: load_registers(s.registers, s.memory, i, x + 1), ..s },
                ),
            )
        }
    } else {
        Err(Chip8Error::UnknownInstruction(op))
    }
}

/// What executing instruction `op` does to state `s` (timers not included).
pub open spec fn execute(s: Chip8View, op: u16) -> Result<Chip8View, Chip8Error> {
    let a = nib1(op);
    let x = nib2(op) as int;
    let kk = byte_of(op);
    if a == 0x0 {
        execute_system(s, op)
    } else if a == 0x1 {
        Ok(jump_to(s, addr_of(op) as int))
    } else if a == 0x2 {
        execute_call(s, op)
    } else if a == 0x3 {
        Ok(skip_if(s, s.registers[x] == kk))
    } else if a == 0x4 {
        Ok(skip_if(s, s.registers[x] != kk))
    } else if a == 0x5 && nib4(op) == 0 {
        Ok(skip_if(s, s.registers[x] == s.registers[nib3(op) as int]))
    } else if a == 0x6 {
        Ok(set_reg(s, x, kk))
    } else if a == 0x7 {
        Ok(set_reg(s, x, ((s.registers[x] as int + kk as int) % 256) as u8))
    } else if a == 0x8 {
        execute_alu(s, op)
    } else if a == 0x9 && nib4(op) == 0 {
        Ok(skip_if(s, s.registers[x] != s.registers[nib3(op) as int]))
    } else if a == 0xA {
        Ok(advance(Chip8View { index: addr_of(op), ..s }))
    } else if a == 0xB {
        Ok(jump_to(s, addr_of(op) as int))
    } else if a == 0xC {
        Ok(
            set_reg(
                Chip8View { rng: state_after(s.rng, 8), ..s },
                x,
                byte_from(s.rng) & kk,
            ),
        )
    } else if a == 0xD {
        execute_draw(s, op)
    } else if a == 0xE {
        execute_key_skip(s, op)
    } else if a == 0xF {
        execute_misc(s, op)
    } else {
        Err(Chip8Error::UnknownInstruction(op))
    }
}

/// Decrements both timers that are above zero.
pub open spec fn tick_timers(s: Chip8View) -> Chip8View {
    Chip8View {
        delay_timer: if s.delay_timer > 0 { (s.delay_timer - 1) as u8 } else { 0 },
        sound_timer: if s.sound_timer > 0 { (s.sound_timer - 1) as u8 } else { 0 },
        ..s
    }
}

/// One full cycle: fetch, execute, tick the timers.
pub open spec fn cycle_result(s: Chip8View) -> Result<Chip8View, Chip8Error> {
    if s.pc + 1 >= MEMORY_SIZE {
        Err(Chip8Error::MemoryOutOfBounds)
    } else {
        match execute(s, fetch(s)) {
            Ok(t) => Ok(tick_timers(t)),
            Err(e) => Err(e),
        }
    }
}

/// A call that was expected to give `expected` left `post` and returned `r`:
/// on success the new state, on failure the error and the state untouched.
pub open spec fn outcome(
    pre: Chip8View,
    post: Chip8View,
    r: Result<(), Chip8Error>,
    expected: Result<Chip8View, Chip8Error>,
) -> bool {
    match expected {
        Ok(t) => r is Ok && post == t,
        Err(e) => r == Err::<(), Chip8Error>(e) && post == pre,
    }
}

/// A CHIP-8 machine.
#[derive(Debug)]
pub struct Chip8 {
    registers: Vec<u8>,
    memory: Vec<u8>,
    index: u16,
    pc: usize,
    stack: Vec<u16>,
    sp: usize,
    delay_timer: u8,
    sound_timer: u8,
    keypad: Vec<u8>,
    display: Display,
    lsfr: Lsfr,
}

impl View for Chip8 {
    type V = Chip8View;

    closed spec fn view(&self) -> Chip8View {
        Chip8View {
            registers: self.registers@,
            memory: self.memory@,
            index: self.index,
            pc: self.pc as int,
            stack: self.stack@,
            sp: self.sp as int,
            delay_timer: self.delay_timer,
            sound_timer: self.sound_timer,
            keypad: self.keypad@,
            video: self.display.model().video,
            dirty: self.display.model().dirty,
            rng: self.lsfr@,
        }
    }
}


proof fn lemma_decode(op: u16)
    ensures
        nib1(op) < 16,
        nib2(op) < 16,
        nib3(op) < 16,
        nib4(op) < 16,
        addr_of(op) < 4096,
{
    assert(op >> 12u16 < 16u16) by (bit_vector);
    assert((op >> 8u16) & 0xFu16 < 16u16) by (bit_vector);
    assert((op >> 4u16) & 0xFu16 < 16u16) by (bit_vector);
    assert(op & 0xFu16 < 16u16) by (bit_vector);
    assert(op & 0xFFFu16 < 4096u16) by (bit_vector);
}

/// `a + b` modulo 256, and 1 when the sum exceeds 255, else 0.
fn add_with_carry(a: u8, b: u8) -> (r: (u8, u8))
    ensures
        r.0 == ((a as int + b as int) % 256) as u8,
        r.1 == (if a as int + b as int > 255 { 1u8 } else { 0u8 }),
{
    let sum: u16 = a as u16 + b as u16;
    if sum > 255 {
        ((sum - 256) as u8, 1)
    } else {
        (sum as u8, 0)
    }
}

/// `a - b` modulo 256, and 1 when no borrow occurs (`a >= b`), else 0.
fn sub_with_borrow(a: u8, b: u8) -> (r: (u8, u8))
    ensures
        r.0 == ((a as int - b as int) % 256) as u8,
        r.1 == (if a >= b { 1u8 } else { 0u8 }),
{
    if a >= b {
        (a - b, 1)
    } else {
        ((256 + a as u16 - b as u16) as u8, 0)
    }
}

/// `2 * a` modulo 256.
fn double_wrapping(a: u8) -> (r: u8)
    ensures
        r == ((a as int * 2) % 256) as u8,
{
    if a >= 128 {
        (a - 128) * 2
    } else {
        a * 2
    }
}

/// The glyph table.
fn fontset() -> (r: Vec<u8>)
    ensures
        r@ == font_glyphs(),
{
    let v: Vec<u8> = vec![
        0xF0, 0x90, 0x90, 0x90, 0xF0, 0x20, 0x60, 0x20, 0x20, 0x70,
        0xF0, 0x10, 0xF0, 0x80, 0xF0, 0xF0, 0x10, 0xF0, 0x10, 0xF0,
        0x90, 0x90, 0xF0, 0x10, 0x10, 0xF0, 0x80, 0xF0, 0x10, 0xF0,
        0xF0, 0x80, 0xF0, 0x90, 0xF0, 0xF0, 0x10, 0x20, 0x40, 0x40,
        0xF0, 0x90, 0xF0, 0x90, 0xF0, 0xF0, 0x90, 0xF0, 0x10, 0xF0,
        0xF0, 0x90, 0xF0, 0x90, 0x90, 0xE0, 0x90, 0xE0, 0x90, 0xE0,
        0xF0, 0x80, 0x80, 0x80, 0xF0, 0xE0, 0x90, 0x90, 0x90, 0xE0,
        0xF0, 0x80, 0xF0, 0x80, 0xF0, 0xF0, 0x80, 0xF0, 0x80, 0x80,
    ];
    assert(v@ =~= font_glyphs());
    v
}

/// Sixteen zero bytes.
fn zero_bytes() -> (r: Vec<u8>)
    ensures
        r@ == zeros16(),
{
    let mut v: Vec<u8> = Vec::new();
    let mut k: usize = 0;
    while k < SLOTS
        invariant
            k <= SLOTS,
            v@ == Seq::new(k as nat, |j: int| 0u8),
        decreases SLOTS - k,
    {
        v.push(0);
        k = k + 1;
        assert(v@ =~= Seq::new(k as nat, |j: int| 0u8));
    }
    v
}

/// Memory of a freshly loaded machine.
fn start_memory(program: &[u8]) -> (r: Vec<u8>)
    requires
        program@.len() <= MAX_PROGRAM_SIZE,
    ensures
        r@ == initial_memory(program@),
{
    let font = fontset();
    let mut memory: Vec<u8> = Vec::new();
    let mut a: usize = 0;
    while a < MEMORY_SIZE
        invariant
            a <= MEMORY_SIZE,
            program@.len() <= MAX_PROGRAM_SIZE,
            font@ == font_glyphs(),
            memory@ == initial_memory(program@).subrange(0, a as int),
        decreases MEMORY_SIZE - a,
    {
        let b: u8 = if FONTSET_START_ADDRESS <= a && a < FONTSET_START_ADDRESS + 80 {
            font[a - FONTSET_START_ADDRESS]
        } else if START_ADDRESS <= a && a < START_ADDRESS + program.len() {
            program[a - START_ADDRESS]
        } else {
            0
        };
        memory.push(b);
        a = a + 1;
        assert(memory@ =~= initial_memory(program@).subrange(0, a as int));
    }
    assert(memory@ =~= initial_memory(program@));
    memory
}

impl Chip8 {
    /// The machine's state has the shapes every reachable state has.
    pub open spec fn wf(&self) -> bool {
        valid_state(self@)
    }

    /// Executes instructions of the form `00nn`.
    fn op_system(&mut self, op: u16) -> (r: Result<(), Chip8Error>)
        requires
            old(self).wf(),
            old(self)@.pc + 1 < MEMORY_SIZE,
        ensures
            final(self).wf(),
            outcome(old(self)@, final(self)@, r, execute_system(old(self)@, op)),
    {
        if op == 0x00E0u16 {
            self.display.clear();
            self.pc = self.pc + 2;
            Ok(())
        } else if op == 0x00EEu16 {
            if self.sp == 0 {
                Err(Chip8Error::StackUnderflow)
            } else {
                let ret = self.stack[self.sp - 1] as usize;
                self.sp = self.sp - 1;
                self.pc = ret + 2;
                Ok(())
            }
        } else {
            Err(Chip8Error::UnknownInstruction(op))
        }
    }

    /// Executes `2nnn`.
    fn op_call(&mut self, op: u16) -> (r: Result<(), Chip8Error>)
        requires
            old(self).wf(),
            old(self)@.pc + 1 < MEMORY_SIZE,
        ensures
            final(self).wf(),
            outcome(old(self)@, final(self)@, r, execute_call(old(self)@, op)),
    {
        proof {
            lemma_decode(op);
        }
        if self.sp >= SLOTS {
            Err(Chip8Error::StackOverflow)
        } else {
            let sp = self.sp;
            self.stack.set(sp, self.pc as u16);
            self.sp = sp + 1;
            self.pc = (op & 0xFFFu16) as usize;
            Ok(())
        }
    }

    /// Writes `v` to register `x`, then the flag register, and moves on.
    fn write_reg_then_flag(&mut self, x: usize, v: u8, flag: u8)
        requires
            old(self).wf(),
            old(self)@.pc + 1 < MEMORY_SIZE,
            x < SLOTS,
        ensures
            final(self).wf(),
            final(self)@ == set_reg_then_flag(old(self)@, x as int, v, flag),
    {
        self.registers.set(x, v);
        self.registers.set(FLAG_REGISTER, flag);
        self.pc = self.pc + 2;
    }

    /// Executes the register operations `8xyn`.
    fn op_alu(&mut self, op: u16) -> (r: Result<(), Chip8Error>)
        requires
            old(self).wf(),
            old(self)@.pc + 1 < MEMORY_SIZE,
        ensures
            final(self).wf(),
            outcome(old(self)@, final(self)@, r, execute_alu(old(self)@, op)),
    {
        proof {
            lemma_decode(op);
        }
        let x: usize = ((op >> 8u16) & 0xFu16) as usize;
        let y: usize = ((op >> 4u16) & 0xFu16) as usize;
        let n: u16 = op & 0xFu16;
        let vx = self.registers[x];
        let vy = self.registers[y];
        if n <= 0x3 {
            let v: u8 = if n == 0x0 {
                vy
            } else if n == 0x1 {
                vx | vy
            } else if n == 0x2 {
                vx & vy
            } else {
                vx ^ vy
            };
            self.registers.set(x, v);
        } else if n == 0x4 {
            let (low, flag) = add_with_carry(vx, vy);
            self.write_reg_then_flag(x, low, flag);
            return Ok(());
        } else if n == 0x5 {
            let (d, flag) = sub_with_borrow(vx, vy);
            self.write_reg_then_flag(x, d, flag);
            return Ok(());
        } else if n == 0x6 {
            self.write_reg_then_flag(x, vx / 2, vx % 2);
            return Ok(());
        } else if n == 0x7 {
            let (d, flag) = sub_with_borrow(vy, vx);
            self.write_reg_then_flag(x, d, flag);
            return Ok(());
        } else if n == 0xE {
            self.write_reg_then_flag(x, double_wrapping(vx), vx / 128);
            return Ok(());
        } else {
            return Err(Chip8Error::UnknownInstruction(op));
        }
        self.pc = self.pc + 2;
        Ok(())
    }

    /// Executes `Dxyn`.
    fn op_draw(&mut self, op: u16) -> (r: Result<(), Chip8Error>)
        requires
            old(self).wf(),
            old(self)@.pc + 1 < MEMORY_SIZE,
        ensures
            final(self).wf(),
            outcome(old(self)@, final(self)@, r, execute_draw(old(self)@, op)),
    {
        proof {
            lemma_decode(op);
        }
        let x: usize = ((op >> 8u16) & 0xFu16) as usize;
        let y: usize = ((op >> 4u16) & 0xFu16) as usize;
        let n: usize = (op & 0xFu16) as usize;
        let i: usize = self.index as usize;
        if i + n > MEMORY_SIZE {
            return Err(Chip8Error::MemoryOutOfBounds);
        }
        let vx = self.registers[x];
        let vy = self.registers[y];
        let sprite = vstd::slice::slice_subrange(self.memory.as_slice(), i, i + n);
        let flag = self.display.draw(vx as usize, vy as usize, sprite);
        self.registers.set(FLAG_REGISTER, flag);
        self.pc = self.pc + 2;
        Ok(())
    }

    /// Executes `Ex9E` and `ExA1`.
    fn op_key_skip(&mut self, op: u16) -> (r: Result<(), Chip8Error>)
        requires
            old(self).wf(),
            old(self)@.pc + 1 < MEMORY_SIZE,
        ensures
            final(self).wf(),
            outcome(old(self)@, final(self)@, r, execute_key_skip(old(self)@, op)),
    {
        proof {
            lemma_decode(op);
        }
        let x: usize = ((op >> 8u16) & 0xFu16) as usize;
        let low: u8 = #[verifier::truncate] ((op & 0xFFu16) as u8);
        if low != 0x9E && low != 0xA1 {
            return Err(Chip8Error::UnknownInstruction(op));
        }
        let key: usize = self.registers[x] as usize;
        if key >= SLOTS {
            return Err(Chip8Error::KeyOutOfRange);
        }
        let pressed = self.keypad[key] == 1;
        let skip = if low == 0x9E { pressed } else { !pressed };
        self.pc = if skip { self.pc + 4 } else { self.pc + 2 };
        Ok(())
    }

    /// The lowest pressed key, or 16 when no key is pressed.
    fn lowest_pressed(&self) -> (r: usize)
        requires
            self.wf(),
        ensures
            r as int == first_pressed(self@.keypad, 0),
    {
        let mut i: usize = 0;
        while i < SLOTS && self.keypad[i] != 1
            invariant
                i <= SLOTS,
                self.keypad@.len() == SLOTS,
                first_pressed(self.keypad@, 0) == first_pressed(self.keypad@, i as int),
            decreases SLOTS - i,
        {
            i = i + 1;
        }
        i
    }

    /// Executes `Fx33`, `Fx55` and `Fx65`.
    fn op_memory(&mut self, op: u16) -> (r: Result<(), Chip8Error>)
        requires
            old(self).wf(),
            old(self)@.pc + 1 < MEMORY_SIZE,
            byte_of(op) == 0x33 || byte_of(op) == 0x55 || byte_of(op) == 0x65,
        ensures
            final(self).wf(),
            outcome(old(self)@, final(self)@, r, execute_misc(old(self)@, op)),
    {
        proof {
            lemma_decode(op);
        }
        let ghost s0 = self@;
        let x: usize = ((op >> 8u16) & 0xFu16) as usize;
        let low: u8 = #[verifier::truncate] ((op & 0xFFu16) as u8);
        let i: usize = self.index as usize;
        if low == 0x33 {
            if i + 2 >= MEMORY_SIZE {
                return Err(Chip8Error::MemoryOutOfBounds);
            }
            let vx = self.registers[x];
            self.memory.set(i, vx / 100);
            self.memory.set(i + 1, (vx / 10) % 10);
            self.memory.set(i + 2, vx % 10);
        } else if low == 0x55 {
            if i + x >= MEMORY_SIZE {
                return Err(Chip8Error::MemoryOutOfBounds);
            }
            let mut k: usize = 0;
            assert(store_registers(s0.memory, s0.registers, i as int, 0) =~= s0.memory);
            while k <= x
                invariant
                    x < SLOTS,
                    i + x < MEMORY_SIZE,
                    i == s0.index as int,
                    k <= x + 1,
                    valid_state(s0),
                    self@ == (Chip8View {
                        memory: store_registers(s0.memory, s0.registers, i as int, k as int),
                        ..s0
                    }),
                decreases x + 1 - k,
            {
                let v = self.registers[k];
                self.memory.set(i + k, v);
                k = k + 1;
                assert(self.memory@ =~= store_registers(
                    s0.memory,
                    s0.registers,
                    i as int,
                    k as int,
                ));
            }
        } else {
            if i + x >= MEMORY_SIZE {
                return Err(Chip8Error::MemoryOutOfBounds);
            }
            let mut k: usize = 0;
            assert(load_registers(s0.registers, s0.memory, i as int, 0) =~= s0.registers);
            while k <= x
                invariant
                    x < SLOTS,
                    i + x < MEMORY_SIZE,
                    i == s0.index as int,
                    k <= x + 1,
                    valid_state(s0),
                    self@ == (Chip8View {
                        registers: load_registers(s0.registers, s0.memory, i as int, k as int),
                        ..s0
                    }),
                decreases x + 1 - k,
            {
                let v = self.memory[i + k];
                self.registers.set(k, v);
                k = k + 1;
                assert(self.registers@ =~= load_registers(
                    s0.registers,
                    s0.memory,
                    i as int,
                    k as int,
                ));
            }
        }
        self.pc = self.pc + 2;
        Ok(())
    }

    /// Executes the `Fxkk` instructions.
    fn op_misc(&mut self, op: u16) -> (r: Result<(), Chip8Error>)
        requires
            old(self).wf(),
            old(self)@.pc + 1 < MEMORY_SIZE,
        ensures
            final(self).wf(),
            outcome(old(self)@, final(self)@, r, execute_misc(old(self)@, op)),
    {
        proof {
            lemma_decode(op);
        }
        let x: usize = ((op >> 8u16) & 0xFu16) as usize;
        let low: u8 = #[verifier::truncate] ((op & 0xFFu16) as u8);
        if low == 0x33 || low == 0x55 || low == 0x65 {
            return self.op_memory(op);
        }
        let vx = self.registers[x];
        if low == 0x07 {
            self.registers.set(x, self.delay_timer);
        } else if low == 0x0A {
            let k = self.lowest_pressed();
            if k < SLOTS {
                self.registers.set(x, k as u8);
            } else {
                return Ok(());
            }
        } else if low == 0x15 {
            self.delay_timer = vx;
        } else if low == 0x18 {
            self.sound_timer = vx;
        } else if low == 0x1E {
            self.index = ((self.index as u32 + vx as u32) % 0x10000) as u16;
        } else if low == 0x29 {
            self.index = FONTSET_START_ADDRESS as u16 + 5 * (vx as u16);
        } else {
            return Err(Chip8Error::UnknownInstruction(op));
        }
        self.pc = self.pc + 2;
        Ok(())
    }

    /// Moves on, skipping the next instruction when `cond` holds.
    fn skip_when(&mut self, cond: bool)
        requires
            old(self).wf(),
            old(self)@.pc + 1 < MEMORY_SIZE,
        ensures
            final(self).wf(),
            final(self)@ == skip_if(old(self)@, cond),
    {
        self.pc = if cond { self.pc + 4 } else { self.pc + 2 };
    }

    /// Writes `v` to register `x` and moves on.
    fn write_reg(&mut self, x: usize, v: u8)
        requires
            old(self).wf(),
            old(self)@.pc + 1 < MEMORY_SIZE,
            x < SLOTS,
        ensures
            final(self).wf(),
            final(self)@ == set_reg(old(self)@, x as int, v),
    {
        self.registers.set(x, v);
        self.pc = self.pc + 2;
    }

    /// The next byte of the machine's random source.
    fn gen_random(&mut self) -> (r: u8)
        requires
            old(self).wf(),
        ensures
            r == byte_from(old(self)@.rng),
            final(self).wf(),
            final(self)@ == (Chip8View { rng: state_after(old(self)@.rng, 8), ..old(self)@ }),
    {
        self.lsfr.gen()
    }

    /// Decodes and executes one instruction; the timers are left alone.
    fn process_instruction(&mut self, op: u16) -> (r: Result<(), Chip8Error>)
        requires
            old(self).wf(),
            old(self)@.pc + 1 < MEMORY_SIZE,
        ensures
            final(self).wf(),
            outcome(old(self)@, final(self)@, r, execute(old(self)@, op)),
    {
        proof {
            lemma_decode(op);
        }
        let a: u16 = op >> 12u16;
        let x: usize = ((op >> 8u16) & 0xFu16) as usize;
        let y: usize = ((op >> 4u16) & 0xFu16) as usize;
        let n: u16 = op & 0xFu16;
        let nnn: u16 = op & 0xFFFu16;
        let kk: u8 = #[verifier::truncate] ((op & 0xFFu16) as u8);
        if a == 0x0 {
            self.op_system(op)
        } else if a == 0x1 {
            self.pc = nnn as usize;
            Ok(())
        } else if a == 0x2 {
            self.op_call(op)
        } else if a == 0x3 {
            let cond = self.registers[x] == kk;
            self.skip_when(cond);
            Ok(())
        } else if a == 0x4 {
            let cond = self.registers[x] != kk;
            self.skip_when(cond);
            Ok(())
        } else if a == 0x5 && n == 0 {
            let cond = self.registers[x] == self.registers[y];
            self.skip_when(cond);
            Ok(())
        } else if a == 0x6 {
            self.write_reg(x, kk);
            Ok(())
        } else if a == 0x7 {
            let (v, _carry) = add_with_carry(self.registers[x], kk);
            self.write_reg(x, v);
            Ok(())
        } else if a == 0x8 {
            self.op_alu(op)
        } else if a == 0x9 && n == 0 {
            let cond = self.registers[x] != self.registers[y];
            self.skip_when(cond);
            Ok(())
        } else if a == 0xA {
            self.index = nnn;
            self.pc = self.pc + 2;
            Ok(())
        } else if a == 0xB {
            self.pc = nnn as usize;
            Ok(())
        } else if a == 0xC {
            let rnd = self.gen_random();
            self.write_reg(x, rnd & kk);
            Ok(())
        } else if a == 0xD {
            self.op_draw(op)
        } else if a == 0xE {
            self.op_key_skip(op)
        } else if a == 0xF {
            self.op_misc(op)
        } else {
            Err(Chip8Error::UnknownInstruction(op))
        }
    }

    /// Runs one instruction cycle: fetches the instruction at the program
    /// counter (high byte first), executes it, then decrements each nonzero
    /// timer by one. On a fatal condition the state is left as it was and
    /// the condition is returned.
    pub fn cycle(&mut self) -> (r: Result<(), Chip8Error>)
        requires
            old(self).wf(),
        ensures
            final(self).wf(),
            outcome(old(self)@, final(self)@, r, cycle_result(old(self)@)),
    {
        if self.pc + 1 >= MEMORY_SIZE {
            return Err(Chip8Error::MemoryOutOfBounds);
        }
        let op: u16 = ((self.memory[self.pc] as u16) << 8u16) | (self.memory[self.pc + 1] as u16);
        match self.process_instruction(op) {
            Err(e) => {
                return Err(e);
            },
            Ok(()) => {},
        }
        if self.delay_timer > 0 {
            self.delay_timer = self.delay_timer - 1;
        }
        if self.sound_timer > 0 {
            self.sound_timer = self.sound_timer - 1;
        }
        Ok(())
    }

    /// Marks key `idx` pressed.
    pub fn press_key(&mut self, idx: usize)
        requires
            old(self).wf(),
            idx < SLOTS,
        ensures
            final(self).wf(),
            final(self)@ == (Chip8View {
                keypad: old(self)@.keypad.update(idx as int, 1u8),
                ..old(self)@
            }),
    {
        self.keypad.set(idx, 1);
    }

    /// Marks key `idx` released.
    pub fn lift_key(&mut self, idx: usize)
        requires
            old(self).wf(),
            idx < SLOTS,
        ensures
            final(self).wf(),
            final(self)@ == (Chip8View {
                keypad: old(self)@.keypad.update(idx as int, 0u8),
                ..old(self)@
            }),
    {
        self.keypad.set(idx, 0);
    }

    /// The framebuffer cells in row-major order, each 0 or 1.
    pub fn get_video(&self) -> (r: &[u32])
        ensures
            r@ == self@.video,
    {
        self.display.view()
    }

    /// Whether the framebuffer changed since the last acknowledgment.
    pub fn is_dirty(&self) -> (r: bool)
        ensures
            r == self@.dirty,
    {
        self.display.is_dirty()
    }

    /// Acknowledges the current frame.
    pub fn set_clean(&mut self)
        requires
            old(self).wf(),
        ensures
            final(self).wf(),
            final(self)@ == (Chip8View { dirty: false, ..old(self)@ }),
    {
        self.display.set_clean()
    }

    /// A machine with `program` loaded at `START_ADDRESS`, glyphs in place,
    /// everything else zero, a blank dirty framebuffer and a freshly seeded
    /// random source. Fails when the program does not fit in memory.
    pub fn load(program: &[u8]) -> (r: Result<Chip8, Chip8Error>)
        ensures
            r is Ok <==> program@.len() <= MAX_PROGRAM_SIZE,
            r matches Ok(m) ==> m.wf() && m@ == initial_state(program@),
            r matches Err(e) ==> e == Chip8Error::ProgramTooLarge,
    {
        if program.len() > MAX_PROGRAM_SIZE {
            return Err(Chip8Error::ProgramTooLarge);
        }
        let memory = start_memory(program);
        let registers = zero_bytes();
        let keypad = zero_bytes();
        let mut stack: Vec<u16> = Vec::new();
        let mut k: usize = 0;
        while k < SLOTS
            invariant
                k <= SLOTS,
                stack@ == Seq::new(k as nat, |j: int| 0u16),
            decreases SLOTS - k,
        {
            stack.push(0);
            k = k + 1;
            assert(stack@ =~= Seq::new(k as nat, |j: int| 0u16));
        }
        let m = Chip8 {
            registers,
            memory,
            index: 0,
            pc: START_ADDRESS,
            stack,
            sp: 0,
            delay_timer: 0,
            sound_timer: 0,
            keypad,
            display: Display::new(),
            lsfr: Lsfr::new(),
        };
        Ok(m)
    }

    /// The value of register `x`.
    pub fn register(&self, x: usize) -> (r: u8)
        requires
            self.wf(),
            x < SLOTS,
        ensures
            r == self@.registers[x as int],
    {
        self.registers[x]
    }

    /// The program counter.
    pub fn pc(&self) -> (r: usize)
        ensures
            r == self@.pc,
    {
        self.pc
    }

    /// The number of occupied stack slots.
    pub fn stack_depth(&self) -> (r: usize)
        ensures
            r == self@.sp,
    {
        self.sp
    }

    /// The index register.
    pub fn index(&self) -> (r: u16)
        ensures
            r == self@.index,
    {
        self.index
    }

    /// The delay timer.
    pub fn delay_timer(&self) -> (r: u8)
        ensures
            r == self@.delay_timer,
    {
        self.delay_timer
    }

    /// The sound timer.
    pub fn sound_timer(&self) -> (r: u8)
        ensures
            r == self@.sound_timer,
    {
        self.sound_timer
    }

    /// The byte at address `addr`.
    pub fn memory_at(&self, addr: usize) -> (r: u8)
        requires
            self.wf(),
            addr < MEMORY_SIZE,
        ensures
            r == self@.memory[addr as int],
    {
        self.memory[addr]
    }
}

} // verus!
