//! Instruction words, their decoded fields, and the faults the processor can
//! raise while executing them.

use vstd::prelude::*;

verus! {

/// The two instruction-set conventions the processor can follow. They differ
/// in the shift instructions (`0x8xy6`/`0x8xyE`) and in whether the register
/// block transfers (`0xFx55`/`0xFx65`) advance the address pointer. The
/// convention is fixed when the processor is built, never per instruction.
#[derive(Clone, Copy, Debug, PartialEq, Eq, Structural)]
pub enum InstructionSet {
    /// The older convention: shifts read through the second register operand
    /// and copy the result into the accumulator; register save/load advances
    /// the address pointer past the transferred block.
    LEGACY,
    /// The common modern reading (the default): shifts operate on the
    /// accumulator register itself; register save/load leaves the address
    /// pointer untouched.
    COWGOD,
}

/// A hard fault. The reference machine leaves out-of-range stack, memory and
/// screen accesses undefined; this implementation makes each of them a typed
/// error carrying the program counter and the instruction word that caused it,
/// and halts the processor. The font table (memory `0x000..0x050`) is
/// write-protected, so a faulting program can never corrupt it.
#[derive(Clone, Copy, Debug, PartialEq, Eq, Structural)]
pub enum Fault {
    /// No instruction pattern matches the word.
    InvalidOpcode { pc: u16, op: u16 },
    /// A call (`0x2nnn`) arrived with all 24 stack slots in use.
    StackOverflow { pc: u16, op: u16 },
    /// A return (`0x00EE`) arrived with an empty stack.
    StackUnderflow { pc: u16, op: u16 },
    /// A memory transfer would read past the end of memory or write outside
    /// the writable region (`0x050..0x1000`).
    MemoryOutOfRange { pc: u16, op: u16 },
    /// A sprite draw would touch pixels outside the 64x32 screen.
    DrawOutOfRange { pc: u16, op: u16 },
    /// A font lookup (`0xFx29`) was given a register value above `0xF`.
    GlyphOutOfRange { pc: u16, op: u16 },
}

/// A ROM that cannot be loaded, reported at load time: memory holds 3584
/// bytes of program space above `0x200`.
#[derive(Clone, Copy, Debug, PartialEq, Eq, Structural)]
pub enum LoadError {
    /// The ROM is longer than the program space.
    RomTooLarge { size: usize },
}

/// The low 12 bits: the address operand of jumps, calls and `0xAnnn`.
pub open spec fn op_addr(op: u16) -> u16 {
    op & 0x0FFF
}

/// Bits 8..12: the accumulator (first) register operand.
pub open spec fn op_acc(op: u16) -> usize {
    ((op & 0x0F00) >> 8) as usize
}

/// Bits 4..8: the second register operand.
pub open spec fn op_reg(op: u16) -> usize {
    ((op & 0x00F0) >> 4) as usize
}

/// The low 8 bits: the immediate byte operand.
pub open spec fn op_num(op: u16) -> u8 {
    (op & 0x00FF) as u8
}

/// The low 4 bits: the nibble operand (a sprite height).
pub open spec fn op_nib(op: u16) -> u8 {
    (op & 0x000F) as u8
}

/// The decoded fields always fall in their natural ranges.
pub proof fn lemma_decode_bounds(op: u16)
    ensures
        op_addr(op) < 0x1000,
        op_acc(op) < 16,
        op_reg(op) < 16,
        op_nib(op) < 16,
{
    assert(op & 0x0FFF < 0x1000 && (op & 0x0F00) >> 8 < 16 && (op & 0x00F0) >> 4 < 16 && op
        & 0x000F < 16) by (bit_vector);
}

/// The masked patterns the dispatcher matches on are mutually exclusive
/// across groups: a match on a finer mask fixes the instruction's high
/// nibble, and the three exact words fix every mask.
pub proof fn lemma_op_mask_facts(op: u16)
    ensures
        op & 0xF00F == 0x5000 ==> op & 0xF000 == 0x5000,
        op & 0xF00F == 0x8000 ==> op & 0xF000 == 0x8000,
        op & 0xF00F == 0x8001 ==> op & 0xF000 == 0x8000,
        op & 0xF00F == 0x8002 ==> op & 0xF000 == 0x8000,
        op & 0xF00F == 0x8003 ==> op & 0xF000 == 0x8000,
        op & 0xF00F == 0x8004 ==> op & 0xF000 == 0x8000,
        op & 0xF00F == 0x8005 ==> op & 0xF000 == 0x8000,
        op & 0xF00F == 0x8006 ==> op & 0xF000 == 0x8000,
        op & 0xF00F == 0x8007 ==> op & 0xF000 == 0x8000,
        op & 0xF00F == 0x800E ==> op & 0xF000 == 0x8000,
        op & 0xF00F == 0x9000 ==> op & 0xF000 == 0x9000,
        op & 0xF0FF == 0xE09E ==> op & 0xF000 == 0xE000,
        op & 0xF0FF == 0xE0A1 ==> op & 0xF000 == 0xE000,
        op & 0xF0FF == 0xF007 ==> op & 0xF000 == 0xF000,
        op & 0xF0FF == 0xF00A ==> op & 0xF000 == 0xF000,
        op & 0xF0FF == 0xF015 ==> op & 0xF000 == 0xF000,
        op & 0xF0FF == 0xF018 ==> op & 0xF000 == 0xF000,
        op & 0xF0FF == 0xF01E ==> op & 0xF000 == 0xF000,
        op & 0xF0FF == 0xF029 ==> op & 0xF000 == 0xF000,
        op & 0xF0FF == 0xF033 ==> op & 0xF000 == 0xF000,
        op & 0xF0FF == 0xF055 ==> op & 0xF000 == 0xF000,
        op & 0xF0FF == 0xF065 ==> op & 0xF000 == 0xF000,
        op == 0x0000 ==> op & 0xF000 == 0 && op & 0xF00F == 0 && op & 0xF0FF == 0,
        op == 0x00E0 ==> op & 0xF000 == 0 && op & 0xF00F == 0 && op & 0xF0FF == 0x00E0,
        op == 0x00EE ==> op & 0xF000 == 0 && op & 0xF00F == 0x000E && op & 0xF0FF == 0x00EE,
{
    assert((op & 0xF00F == 0x5000 ==> op & 0xF000 == 0x5000) && (op & 0xF00F == 0x8000 ==> op
        & 0xF000 == 0x8000) && (op & 0xF00F == 0x8001 ==> op & 0xF000 == 0x8000) && (op & 0xF00F
        == 0x8002 ==> op & 0xF000 == 0x8000) && (op & 0xF00F == 0x8003 ==> op & 0xF000 == 0x8000)
        && (op & 0xF00F == 0x8004 ==> op & 0xF000 == 0x8000) && (op & 0xF00F == 0x8005 ==> op
        & 0xF000 == 0x8000) && (op & 0xF00F == 0x8006 ==> op & 0xF000 == 0x8000) && (op & 0xF00F
        == 0x8007 ==> op & 0xF000 == 0x8000) && (op & 0xF00F == 0x800E ==> op & 0xF000 == 0x8000)
        && (op & 0xF00F == 0x9000 ==> op & 0xF000 == 0x9000)) by (bit_vector);
    assert((op & 0xF0FF == 0xE09E ==> op & 0xF000 == 0xE000) && (op & 0xF0FF == 0xE0A1 ==> op
        & 0xF000 == 0xE000) && (op & 0xF0FF == 0xF007 ==> op & 0xF000 == 0xF000) && (op & 0xF0FF
        == 0xF00A ==> op & 0xF000 == 0xF000) && (op & 0xF0FF == 0xF015 ==> op & 0xF000 == 0xF000)
        && (op & 0xF0FF == 0xF018 ==> op & 0xF000 == 0xF000) && (op & 0xF0FF == 0xF01E ==> op
        & 0xF000 == 0xF000) && (op & 0xF0FF == 0xF029 ==> op & 0xF000 == 0xF000) && (op & 0xF0FF
        == 0xF033 ==> op & 0xF000 == 0xF000) && (op & 0xF0FF == 0xF055 ==> op & 0xF000 == 0xF000)
        && (op & 0xF0FF == 0xF065 ==> op & 0xF000 == 0xF000)) by (bit_vector);
    assert((op == 0x0000 ==> op & 0xF000 == 0 && op & 0xF00F == 0 && op & 0xF0FF == 0) && (op
        == 0x00E0 ==> op & 0xF000 == 0 && op & 0xF00F == 0 && op & 0xF0FF == 0x00E0) && (op
        == 0x00EE ==> op & 0xF000 == 0 && op & 0xF00F == 0x000E && op & 0xF0FF == 0x00EE))
        by (bit_vector);
}

/// Extracts the address operand of an instruction word.
#[inline(always)]
pub fn addr(instruction: u16) -> (a: u16)
    ensures
        a == op_addr(instruction),
        a < 0x1000,
{
    proof {
        lemma_decode_bounds(instruction);
    }
    instruction & 0x0FFF
}

/// Extracts the accumulator register number of an instruction word.
#[inline(always)]
pub fn acc(instruction: u16) -> (r: usize)
    ensures
        r == op_acc(instruction),
        r < 16,
{
    proof {
        lemma_decode_bounds(instruction);
    }
    ((instruction & 0x0F00) >> 8) as usize
}

/// Extracts the second register number of an instruction word.
#[inline(always)]
pub fn reg(instruction: u16) -> (r: usize)
    ensures
        r == op_reg(instruction),
        r < 16,
{
    proof {
        lemma_decode_bounds(instruction);
    }
    ((instruction & 0x00F0) >> 4) as usize
}

/// Extracts the immediate byte operand of an instruction word.
#[inline(always)]
pub fn num(instruction: u16) -> (n: u8)
    ensures
        n == op_num(instruction),
{
    (instruction & 0x00FF) as u8
}

} // verus!
