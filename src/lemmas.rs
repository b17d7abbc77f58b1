//! Facts about whole instruction cycles, stated over the machine model.
use vstd::prelude::*;

use crate::chip8::{
    addr_of, byte_of, cycle_result, execute, fetch, first_pressed, initial_state, nib1, nib2, nib3, nib4, valid_state,
    Chip8Error, Chip8View, FLAG_REGISTER, MEMORY_SIZE, SLOTS,
};
use crate::display::VIDEO_SIZE;

verus! {

proof fn lemma_fetch_bytes(hi: u8, lo: u8)
    ensures
        hi == 0 && lo == 0xE0 ==> ((hi as u16) << 8u16) | (lo as u16) == 0x00E0u16,
        hi == 0 && lo == 0xEE ==> ((hi as u16) << 8u16) | (lo as u16) == 0x00EEu16,
        hi == 0 && lo == 0 ==> ((hi as u16) << 8u16) | (lo as u16) == 0u16,
{
    assert(hi == 0 && lo == 0xE0 ==> ((hi as u16) << 8u16) | (lo as u16) == 0x00E0u16)
        by (bit_vector);
    assert(hi == 0 && lo == 0xEE ==> ((hi as u16) << 8u16) | (lo as u16) == 0x00EEu16)
        by (bit_vector);
    assert(hi == 0 && lo == 0 ==> ((hi as u16) << 8u16) | (lo as u16) == 0u16) by (bit_vector);
}

/// A cycle that executes `00E0` succeeds, leaves every framebuffer cell 0 and
/// sets the dirty flag.
pub proof fn lemma_clear_screen(s: Chip8View)
    requires
        valid_state(s),
        s.pc + 1 < MEMORY_SIZE,
        fetch(s) == 0x00E0u16,
    ensures
        cycle_result(s) is Ok,
        forall|c: int| 0 <= c < VIDEO_SIZE ==> #[trigger] cycle_result(s)->Ok_0.video[c] == 0,
        cycle_result(s)->Ok_0.dirty,
{
    assert(0x00E0u16 >> 12u16 == 0u16) by (bit_vector);
}

/// A call followed at its target by a return resumes at the instruction after
/// the call, with the stack as deep as before.
pub proof fn lemma_call_then_return(s: Chip8View)
    requires
        valid_state(s),
        s.pc + 1 < MEMORY_SIZE,
        nib1(fetch(s)) == 2,
        s.sp < SLOTS,
        addr_of(fetch(s)) + 1 < MEMORY_SIZE,
        s.memory[addr_of(fetch(s)) as int] == 0,
        s.memory[addr_of(fetch(s)) + 1] == 0xEE,
    ensures
        cycle_result(s) is Ok,
        cycle_result(cycle_result(s)->Ok_0) is Ok,
        cycle_result(cycle_result(s)->Ok_0)->Ok_0.pc == s.pc + 2,
        cycle_result(cycle_result(s)->Ok_0)->Ok_0.sp == s.sp,
{
    let t = cycle_result(s)->Ok_0;
    let a = addr_of(fetch(s)) as int;
    assert(t.pc == a);
    lemma_fetch_bytes(s.memory[a], s.memory[a + 1]);
    assert(fetch(t) == 0x00EEu16);
    assert(0x00EEu16 >> 12u16 == 0u16) by (bit_vector);
    assert(t.stack[t.sp - 1] == s.pc as u16);
}

/// `first_pressed` finds the lowest pressed key, or reports 16 when none is.
pub proof fn lemma_first_pressed(keypad: Seq<u8>, from: int)
    requires
        keypad.len() == SLOTS,
        0 <= from <= SLOTS,
    ensures
        from <= first_pressed(keypad, from) <= SLOTS,
        first_pressed(keypad, from) < SLOTS ==> keypad[first_pressed(keypad, from)] == 1,
        forall|k: int| from <= k < first_pressed(keypad, from) ==> keypad[k] != 1,
    decreases SLOTS - from,
{
    if from < SLOTS && keypad[from] != 1 {
        lemma_first_pressed(keypad, from + 1);
    }
}

/// `Fx0A` waits: with no key pressed a cycle keeps the program counter, the
/// memory and the keypad, so the same instruction runs again on the next
/// cycle, and the one after; with keys pressed the lowest one's index
/// lands in register `x` and the program counter moves on by one
/// instruction.
pub proof fn lemma_wait_for_key(s: Chip8View)
    requires
        valid_state(s),
        s.pc + 1 < MEMORY_SIZE,
        nib1(fetch(s)) == 0xF,
        byte_of(fetch(s)) == 0x0A,
    ensures
        cycle_result(s) is Ok,
        (forall|k: int| 0 <= k < SLOTS ==> s.keypad[k] != 1) ==> {
            &&& valid_state(cycle_result(s)->Ok_0)
            &&& fetch(cycle_result(s)->Ok_0) == fetch(s)
            &&& cycle_result(s)->Ok_0.pc == s.pc
            &&& cycle_result(s)->Ok_0.memory == s.memory
            &&& cycle_result(s)->Ok_0.keypad == s.keypad
            &&& cycle_result(s)->Ok_0.registers == s.registers
        },
        (exists|k: int| 0 <= k < SLOTS && s.keypad[k] == 1) ==> {
            let j = first_pressed(s.keypad, 0);
            &&& 0 <= j < SLOTS
            &&& s.keypad[j] == 1
            &&& (forall|k: int| 0 <= k < j ==> s.keypad[k] != 1)
            &&& cycle_result(s)->Ok_0.registers[nib2(fetch(s)) as int] == j as u8
            &&& cycle_result(s)->Ok_0.pc == s.pc + 2
        },
{
    lemma_first_pressed(s.keypad, 0);
    let op = fetch(s);
    assert(byte_of(op) == 0x0A ==> (op & 0xFFu16) == 0x0Au16) by (bit_vector);
    assert(nib2(op) < 16) by (bit_vector);
}

/// A machine loaded with an empty program first fetches the zero instruction,
/// which it does not recognise.
pub proof fn lemma_empty_program()
    ensures
        fetch(initial_state(Seq::empty())) == 0u16,
        cycle_result(initial_state(Seq::empty())) == Err::<Chip8View, Chip8Error>(
            Chip8Error::UnknownInstruction(0),
        ),
{
    let s = initial_state(Seq::empty());
    assert(s.memory[0x200] == 0);
    assert(s.memory[0x201] == 0);
    lemma_fetch_bytes(s.memory[0x200], s.memory[0x201]);
    assert(0u16 >> 12u16 == 0u16) by (bit_vector);
}

/// The arithmetic and shift operations `8xyn` leave their flag in register
/// 15 even when register 15 is also the destination: the flag is written
/// last, so it overrides the result.
pub proof fn lemma_flag_overrides_result(s: Chip8View, op: u16)
    requires
        valid_state(s),
        nib1(op) == 8,
        nib2(op) == FLAG_REGISTER,
        nib4(op) == 4 || nib4(op) == 5 || nib4(op) == 6 || nib4(op) == 7 || nib4(op) == 0xE,
    ensures
        execute(s, op) is Ok,
        ({
            let vx = s.registers[FLAG_REGISTER as int];
            let vy = s.registers[nib3(op) as int];
            let flag: u8 = if nib4(op) == 4 {
                if vx as int + vy as int > 255 { 1 } else { 0 }
            } else if nib4(op) == 5 {
                if vx >= vy { 1 } else { 0 }
            } else if nib4(op) == 6 {
                vx % 2
            } else if nib4(op) == 7 {
                if vy >= vx { 1 } else { 0 }
            } else {
                vx / 128
            };
            execute(s, op)->Ok_0.registers[FLAG_REGISTER as int] == flag
        }),
{
    assert(nib3(op) < 16) by (bit_vector);
}

} // verus!
