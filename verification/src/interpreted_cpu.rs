//! The virtual processor: registers, memory, stack, program counter, address
//! pointer and delay timer, with one verified handler per instruction and a
//! decode/dispatch routine. Every contract speaks of the ghost record
//! [`CpuState`]; the processor's view maps onto it.

use crate::audio::{AudioOutput, AudioTimer};
use crate::cpu::{
    acc, addr, num, op_acc, op_addr, op_nib, op_num, op_reg, reg, Fault, InstructionSet, LoadError,
};
use crate::default_fontset::{get_raw_char, initial_memory, lemma_div5};
use crate::display::{blit_ok, DisplayOutput, ScreenBuffer};
use crate::input::InputReciever;
use crate::state::{
    add_addr_fault, bcd_fault, dead_state, draw_fault, draw_sprite_seq, fetch16, glyph_fault,
    lemma_sat_sub_chain, op_valid, restore_fault, sat_sub, save_fault, start_state, step_add_addr,
    step_add_const, step_add_reg, step_and_reg, step_bcd, step_call, step_clear, step_draw_regs,
    step_end_frame, step_font_addr, step_jump, step_jump_v0, step_load_addr, step_load_const,
    step_load_reg, step_load_timer, step_lsh, step_or_reg, step_restore_regs, step_ret,
    step_rev_sub_reg, step_rsh, step_save_regs, step_set_audio, step_set_timer, step_skip,
    step_skip_eq_const, step_skip_eq_reg, step_skip_ne_const, step_skip_ne_reg, step_sub_reg,
    step_tick, step_wait_key_none, step_wait_key_some, step_xor_reg, with_reg, CpuState,
    NANO_BETWEEN_TICKS,
};
use vstd::arithmetic::div_mod::lemma_fundamental_div_mod_converse;
use vstd::prelude::*;

verus! {

/// Relies on `rand::random::<u8>`: draws one byte from the thread-local
/// generator. Nothing is assumed about the value.
#[verifier::external_body]
fn random_byte() -> u8 {
    rand::random::<u8>()
}

/// The virtual processor, generic over the three host collaborators it owns:
/// the display behind the framebuffer, the audio backend behind the audio
/// timer, and the keyboard it polls.
#[allow(non_snake_case)]
pub struct InterpretedCpu<D: DisplayOutput, A: AudioOutput, K: InputReciever> {
    /// Program counter.
    pub pc: u16,
    /// The sixteen 8-bit registers (always length 16).
    pub registerV: Vec<u8>,
    /// The 16-bit address pointer `I`.
    pub i_reg: u16,
    /// The 24 call-return slots (always length 24).
    pub stack: Vec<u16>,
    /// How many stack slots are in use.
    pub sp: usize,
    /// The delay timer, decremented at 60 Hz, floored at 0.
    pub timer: u8,
    /// Nanoseconds accumulated since the last 60 Hz tick fired.
    pub ns_since_last_tick: u64,
    /// The 4096 bytes of memory (always length 4096).
    pub memory: Vec<u8>,
    /// The framebuffer, which signals the host display on changes.
    pub display_output: ScreenBuffer<D>,
    /// The audio timer, which drives the host audio backend.
    pub audio_output: AudioTimer<A>,
    /// The host keyboard, polled by the key instructions.
    pub keyboard_input: K,
    /// Whether the program counter advances at the coming frame end.
    pub advance_pc: bool,
    /// Whether the processor has halted.
    pub dead: bool,
    /// The instruction-set convention fixed at construction.
    pub instruction_set: InstructionSet,
}

impl<D: DisplayOutput, A: AudioOutput, K: InputReciever> View for InterpretedCpu<D, A, K> {
    type V = CpuState;

    open spec fn view(&self) -> CpuState {
        CpuState {
            pc: self.pc,
            regs: self.registerV@,
            i_reg: self.i_reg,
            stack: self.stack@,
            sp: self.sp as int,
            timer: self.timer,
            tick_acc: self.ns_since_last_tick,
            mem: self.memory@,
            screen: self.display_output.packed_pixels@,
            audio: self.audio_output.time,
            advance: self.advance_pc,
            dead: self.dead,
            variant: self.instruction_set,
        }
    }
}

/// Builds `n` zero bytes.
fn zero_bytes(n: usize) -> (v: Vec<u8>)
    ensures
        v@ == Seq::new(n as nat, |i: int| 0u8),
{
    let mut v: Vec<u8> = Vec::new();
    let mut i: usize = 0;
    while i < n
        invariant
            i <= n,
            v@.len() == i,
            forall|j: int| 0 <= j < i ==> v@[j] == 0u8,
        decreases n - i,
    {
        v.push(0u8);
        i += 1;
    }
    assert(v@ =~= Seq::new(n as nat, |i: int| 0u8));
    v
}

/// Builds `n` zero words.
fn zero_words(n: usize) -> (v: Vec<u16>)
    ensures
        v@ == Seq::new(n as nat, |i: int| 0u16),
{
    let mut v: Vec<u16> = Vec::new();
    let mut i: usize = 0;
    while i < n
        invariant
            i <= n,
            v@.len() == i,
            forall|j: int| 0 <= j < i ==> v@[j] == 0u16,
        decreases n - i,
    {
        v.push(0u16);
        i += 1;
    }
    assert(v@ =~= Seq::new(n as nat, |i: int| 0u16));
    v
}

impl<D: DisplayOutput, A: AudioOutput, K: InputReciever> InterpretedCpu<D, A, K> {
    /// The state has its fixed shapes: see [`CpuState::wf`].
    pub open spec fn wf(&self) -> bool {
        self@.wf()
    }

    /// Builds a processor in its start state around the given collaborators:
    /// program counter at `0x200`, registers, stack and timers zero, memory
    /// holding only the font table, the screen and audio timer as handed in.
    pub fn new(
        instruction_set: InstructionSet,
        disp: ScreenBuffer<D>,
        audp: AudioTimer<A>,
        keyb: K,
    ) -> (cpu: InterpretedCpu<D, A, K>)
        requires
            disp.wf(),
        ensures
            cpu.wf(),
            (cpu@ == CpuState {
                screen: disp.packed_pixels@,
                audio: audp.time,
                ..start_state(instruction_set)
            }),
    {
        let mut rval = InterpretedCpu {
            pc: 0x0200,
            registerV: zero_bytes(16),
            i_reg: 0,
            stack: zero_words(24),
            sp: 0,
            timer: 0,
            ns_since_last_tick: 0,
            memory: zero_bytes(4096),
            display_output: disp,
            audio_output: audp,
            keyboard_input: keyb,
            advance_pc: true,
            dead: false,
            instruction_set,
        };
        rval.initialize_memory();
        proof {
            assert(rval@ =~= CpuState {
                screen: rval@.screen,
                audio: rval@.audio,
                ..start_state(instruction_set)
            });
        }
        rval
    }

    /// Zeroes memory and copies the sixteen font glyphs to `0x000..0x050`.
    fn initialize_memory(&mut self)
        requires
            old(self).wf(),
        ensures
            final(self).wf(),
            (final(self)@ == CpuState { mem: initial_memory(), ..old(self)@ }),
    {
        self.memory = zero_bytes(4096);
        let mut letter: usize = 0;
        while letter < 16
            invariant
                self.wf(),
                letter <= 16,
                self.memory@.len() == 4096,
                forall|j: int|
                    0 <= j < 4096 ==> self.memory@[j] == (if j < 5 * letter {
                        crate::default_fontset::font_mem_byte(j)
                    } else {
                        0u8
                    }),
                (CpuState { mem: old(self)@.mem, ..self@ } == old(self)@),
            decreases 16 - letter,
        {
            let offset = letter * 5;
            let letter_bits = get_raw_char(letter as u8);
            let ghost prev = self.memory@;
            self.memory[offset + 0] = letter_bits[0];
            self.memory[offset + 1] = letter_bits[1];
            self.memory[offset + 2] = letter_bits[2];
            self.memory[offset + 3] = letter_bits[3];
            self.memory[offset + 4] = letter_bits[4];
            proof {
                assert forall|j: int| 0 <= j < 4096 implies self.memory@[j] == (if j < 5 * (letter
                    + 1) {
                    crate::default_fontset::font_mem_byte(j)
                } else {
                    0u8
                }) by {
                    if 5 * letter <= j < 5 * letter + 5 {
                        lemma_div5(letter as int, j - 5 * letter);
                        assert(j / 5 == letter && j % 5 == j - 5 * letter);
                    } else {
                        assert(self.memory@[j] == prev[j]);
                    }
                }
            }
            letter += 1;
        }
        proof {
            assert(self.memory@ =~= initial_memory());
            assert(self@ =~= CpuState { mem: initial_memory(), ..old(self)@ });
        }
    }

    /// Restores the start state: everything as a fresh processor, except that
    /// the screen and the audio countdown keep their current contents.
    pub fn reset(&mut self)
        requires
            old(self).wf(),
        ensures
            final(self).wf(),
            (final(self)@ == CpuState {
                screen: old(self)@.screen,
                audio: old(self)@.audio,
                ..start_state(old(self)@.variant)
            }),
    {
        self.pc = 0x0200;
        self.registerV = zero_bytes(16);
        self.i_reg = 0;
        self.stack = zero_words(24);
        self.sp = 0;
        self.timer = 0;
        self.ns_since_last_tick = 0;
        self.advance_pc = true;
        self.dead = false;
        self.initialize_memory();
        proof {
            assert(self@ =~= CpuState {
                screen: old(self)@.screen,
                audio: old(self)@.audio,
                ..start_state(old(self)@.variant)
            });
        }
    }

    /// Copies a ROM into memory starting at `0x200`, or reports that it does
    /// not fit. Nothing else changes; on an oversized ROM, nothing at all.
    pub fn load_rom(&mut self, rom: &[u8]) -> (r: Result<(), LoadError>)
        requires
            old(self).wf(),
        ensures
            final(self).wf(),
            r is Ok <==> rom@.len() <= 3584,
            (r is Err ==> r == Err::<(), LoadError>(
                LoadError::RomTooLarge { size: rom@.len() as usize },
            ) && final(self)@ == old(self)@),
            (r is Ok ==> final(self)@ == CpuState {
                mem: Seq::new(
                    4096,
                    |j: int|
                        if 0x200 <= j < 0x200 + rom@.len() {
                            rom@[j - 0x200]
                        } else {
                            old(self)@.mem[j]
                        },
                ),
                ..old(self)@
            }),
    {
        if rom.len() > 3584 {
            return Err(LoadError::RomTooLarge { size: rom.len() });
        }
        let ghost mem0 = self.memory@;
        let mut idx: usize = 0;
        while idx < rom.len()
            invariant
                self.wf(),
                idx <= rom@.len(),
                rom@.len() <= 3584,
                self.memory@.len() == 4096,
                forall|j: int|
                    0 <= j < 4096 ==> self.memory@[j] == (if 0x200 <= j < 0x200 + idx {
                        rom@[j - 0x200]
                    } else {
                        mem0[j]
                    }),
                (CpuState { mem: old(self)@.mem, ..self@ } == old(self)@),
            decreases rom@.len() - idx,
        {
            self.memory[0x200 + idx] = rom[idx];
            idx += 1;
        }
        proof {
            assert(self.memory@ =~= Seq::new(
                4096,
                |j: int|
                    if 0x200 <= j < 0x200 + rom@.len() {
                        rom@[j - 0x200]
                    } else {
                        old(self)@.mem[j]
                    },
            ));
            assert(self@ =~= CpuState { mem: self@.mem, ..old(self)@ });
        }
        Ok(())
    }

    /// The big-endian instruction word at the program counter.
    pub fn get_next_instr(&self) -> (op: u16)
        requires
            self.wf(),
            self@.pc + 1 < 4096,
        ensures
            op == fetch16(self@),
    {
        let hi = self.memory[self.pc as usize];
        let lo = self.memory[self.pc as usize + 1];
        proof {
            assert((hi as u16) << 8 | (lo as u16) == hi as u16 * 256 + lo as u16) by (bit_vector);
        }
        (hi as u16) << 8 | lo as u16
    }

    /// Whether the processor has halted (by `die` or a fault).
    pub fn has_died(&self) -> (r: bool)
        ensures
            r == self@.dead,
    {
        self.dead
    }

    /// Halts the processor; instruction processing must stop.
    pub fn die(&mut self)
        ensures
            (final(self)@ == dead_state(old(self)@)),
    {
        self.dead = true;
        proof {
            assert(self@ =~= dead_state(old(self)@));
        }
    }

    /// Reads the program counter.
    pub fn get_pc(&self) -> (r: u16)
        ensures
            r == self@.pc,
    {
        self.pc
    }

    /// The frame end: advances the program counter one instruction word,
    /// unless a jump, call or unanswered key wait asked it to hold.
    pub fn end_frame(&mut self)
        requires
            old(self)@.advance ==> old(self)@.pc + 2 <= 0xFFFF,
        ensures
            (final(self)@ == step_end_frame(old(self)@)),
    {
        if self.advance_pc {
            self.pc += 2;
        } else {
            self.advance_pc = true;
        }
        proof {
            assert(self@ =~= step_end_frame(old(self)@));
        }
    }

    /// `0x00E0`: darkens the screen and signals the display.
    pub fn clear_screen(&mut self)
        requires
            old(self).wf(),
        ensures
            final(self).wf(),
            (final(self)@ == step_clear(old(self)@)),
    {
        self.display_output.clear_screen();
        proof {
            assert(self@ =~= step_clear(old(self)@));
        }
    }

    /// `0x00EE`: pops the stack into the program counter.
    pub fn ret(&mut self)
        requires
            old(self).wf(),
            old(self)@.sp > 0,
        ensures
            final(self).wf(),
            (final(self)@ == step_ret(old(self)@)),
    {
        self.sp -= 1;
        self.pc = self.stack[self.sp];
        proof {
            assert(self@ =~= step_ret(old(self)@));
        }
    }

    /// `0x1nnn`: jumps to `addr`; the program counter lands exactly there and
    /// holds through the coming frame end.
    pub fn jump(&mut self, addr: u16)
        requires
            old(self).wf(),
        ensures
            final(self).wf(),
            (final(self)@ == step_jump(old(self)@, addr)),
    {
        self.pc = addr;
        self.advance_pc = false;
        proof {
            assert(self@ =~= step_jump(old(self)@, addr));
        }
    }

    /// `0x2nnn`: pushes the current program counter and jumps to `addr`.
    pub fn call(&mut self, addr: u16)
        requires
            old(self).wf(),
            old(self)@.sp < 24,
        ensures
            final(self).wf(),
            (final(self)@ == step_call(old(self)@, addr)),
    {
        self.stack[self.sp] = self.pc;
        self.sp += 1;
        self.pc = addr;
        self.advance_pc = false;
        proof {
            assert(self@ =~= step_call(old(self)@, addr));
        }
    }

    /// `0x3xkk`: skips the next instruction when register `register` holds
    /// `byte`.
    pub fn skip_if_equal_const(&mut self, register: usize, byte: u8)
        requires
            old(self).wf(),
            register < 16,
            old(self)@.pc + 2 <= 0xFFFF,
        ensures
            final(self).wf(),
            (final(self)@ == step_skip_eq_const(old(self)@, register as int, byte)),
    {
        if self.registerV[register] == byte {
            self.pc += 2;
        }
        proof {
            assert(self@ =~= step_skip_eq_const(old(self)@, register as int, byte));
        }
    }

    /// `0x4xkk`: skips the next instruction when register `register` does not
    /// hold `byte`.
    pub fn skip_if_unequal_const(&mut self, register: usize, byte: u8)
        requires
            old(self).wf(),
            register < 16,
            old(self)@.pc + 2 <= 0xFFFF,
        ensures
            final(self).wf(),
            (final(self)@ == step_skip_ne_const(old(self)@, register as int, byte)),
    {
        if self.registerV[register] != byte {
            self.pc += 2;
        }
        proof {
            assert(self@ =~= step_skip_ne_const(old(self)@, register as int, byte));
        }
    }

    /// `0x5xy0`: skips the next instruction when the two registers are equal.
    pub fn skip_if_equal_reg(&mut self, register1: usize, register2: usize)
        requires
            old(self).wf(),
            register1 < 16,
            register2 < 16,
            old(self)@.pc + 2 <= 0xFFFF,
        ensures
            final(self).wf(),
            (final(self)@ == step_skip_eq_reg(old(self)@, register1 as int, register2 as int)),
    {
        if self.registerV[register1] == self.registerV[register2] {
            self.pc += 2;
        }
        proof {
            assert(self@ =~= step_skip_eq_reg(old(self)@, register1 as int, register2 as int));
        }
    }

    /// `0x9xy0`: skips the next instruction when the two registers differ.
    pub fn skip_if_unequal_reg(&mut self, register1: usize, register2: usize)
        requires
            old(self).wf(),
            register1 < 16,
            register2 < 16,
            old(self)@.pc + 2 <= 0xFFFF,
        ensures
            final(self).wf(),
            (final(self)@ == step_skip_ne_reg(old(self)@, register1 as int, register2 as int)),
    {
        if self.registerV[register1] != self.registerV[register2] {
            self.pc += 2;
        }
        proof {
            assert(self@ =~= step_skip_ne_reg(old(self)@, register1 as int, register2 as int));
        }
    }

    /// `0x6xkk`: loads `byte` into register `register`.
    pub fn load_const(&mut self, register: usize, byte: u8)
        requires
            old(self).wf(),
            register < 16,
        ensures
            final(self).wf(),
            (final(self)@ == step_load_const(old(self)@, register as int, byte)),
    {
        self.registerV[register] = byte;
        proof {
            assert(self@ =~= step_load_const(old(self)@, register as int, byte));
        }
    }

    /// `0x7xkk`: wrapping-adds `byte` into register `register`. The flag
    /// register is deliberately left alone, unlike `0x8xy4`.
    pub fn add_const(&mut self, register: usize, byte: u8)
        requires
            old(self).wf(),
            register < 16,
        ensures
            final(self).wf(),
            (final(self)@ == step_add_const(old(self)@, register as int, byte)),
    {
        let v = self.registerV[register];
        let nv: u8 = if (v as u16) + (byte as u16) > 255 {
            ((v as u16 + byte as u16) - 256) as u8
        } else {
            v + byte
        };
        self.registerV[register] = nv;
        proof {
            assert(self@ =~= step_add_const(old(self)@, register as int, byte));
        }
    }

    /// `0x8xy0`: copies register `reg` into register `acc`.
    pub fn load_register(&mut self, acc: usize, reg: usize)
        requires
            old(self).wf(),
            acc < 16,
            reg < 16,
        ensures
            final(self).wf(),
            (final(self)@ == step_load_reg(old(self)@, acc as int, reg as int)),
    {
        self.registerV[acc] = self.registerV[reg];
        proof {
            assert(self@ =~= step_load_reg(old(self)@, acc as int, reg as int));
        }
    }

    /// `0x8xy1`: ORs register `reg` into register `acc`.
    pub fn or_register(&mut self, acc: usize, reg: usize)
        requires
            old(self).wf(),
            acc < 16,
            reg < 16,
        ensures
            final(self).wf(),
            (final(self)@ == step_or_reg(old(self)@, acc as int, reg as int)),
    {
        self.registerV[acc] = self.registerV[acc] | self.registerV[reg];
        proof {
            assert(self@ =~= step_or_reg(old(self)@, acc as int, reg as int));
        }
    }

    /// `0x8xy2`: ANDs register `reg` into register `acc`.
    pub fn and_register(&mut self, acc: usize, reg: usize)
        requires
            old(self).wf(),
            acc < 16,
            reg < 16,
        ensures
            final(self).wf(),
            (final(self)@ == step_and_reg(old(self)@, acc as int, reg as int)),
    {
        self.registerV[acc] = self.registerV[acc] & self.registerV[reg];
        proof {
            assert(self@ =~= step_and_reg(old(self)@, acc as int, reg as int));
        }
    }

    /// `0x8xy3`: XORs register `reg` into register `acc`.
    pub fn xor_register(&mut self, acc: usize, reg: usize)
        requires
            old(self).wf(),
            acc < 16,
            reg < 16,
        ensures
            final(self).wf(),
            (final(self)@ == step_xor_reg(old(self)@, acc as int, reg as int)),
    {
        self.registerV[acc] = self.registerV[acc] ^ self.registerV[reg];
        proof {
            assert(self@ =~= step_xor_reg(old(self)@, acc as int, reg as int));
        }
    }

    /// `0x8xy4`: wrapping-adds register `reg` into register `acc`; the flag
    /// register then holds the carry-out, written last.
    pub fn add_register(&mut self, acc: usize, reg: usize)
        requires
            old(self).wf(),
            acc < 16,
            reg < 16,
        ensures
            final(self).wf(),
            (final(self)@ == step_add_reg(old(self)@, acc as int, reg as int)),
    {
        let a = self.registerV[acc];
        let b = self.registerV[reg];
        let overflowed = (a as u16) + (b as u16) > 255;
        let value: u8 = if overflowed {
            ((a as u16 + b as u16) - 256) as u8
        } else {
            a + b
        };
        self.registerV[acc] = value;
        self.registerV[0xF] = if overflowed {
            1
        } else {
            0
        };
        proof {
            assert(self@ =~= step_add_reg(old(self)@, acc as int, reg as int));
        }
    }

    /// `0x8xy5`: wrapping-subtracts register `reg` from register `acc`; the
    /// flag register then holds 1 when no borrow was needed, written last.
    pub fn sub_register(&mut self, acc: usize, reg: usize)
        requires
            old(self).wf(),
            acc < 16,
            reg < 16,
        ensures
            final(self).wf(),
            (final(self)@ == step_sub_reg(old(self)@, acc as int, reg as int)),
    {
        let a = self.registerV[acc];
        let b = self.registerV[reg];
        let no_borrow = a >= b;
        let value: u8 = if no_borrow {
            a - b
        } else {
            ((a as u16 + 256) - b as u16) as u8
        };
        self.registerV[acc] = value;
        self.registerV[0xF] = if no_borrow {
            1
        } else {
            0
        };
        proof {
            assert(self@ =~= step_sub_reg(old(self)@, acc as int, reg as int));
        }
    }

    /// `0x8xy7`: sets register `acc` to register `reg` minus register `acc`;
    /// the flag register then holds 1 when no borrow was needed, written last.
    pub fn rev_sub_register(&mut self, acc: usize, reg: usize)
        requires
            old(self).wf(),
            acc < 16,
            reg < 16,
        ensures
            final(self).wf(),
            (final(self)@ == step_rev_sub_reg(old(self)@, acc as int, reg as int)),
    {
        let a = self.registerV[acc];
        let b = self.registerV[reg];
        let no_borrow = b >= a;
        let value: u8 = if no_borrow {
            b - a
        } else {
            ((b as u16 + 256) - a as u16) as u8
        };
        self.registerV[acc] = value;
        self.registerV[0xF] = if no_borrow {
            1
        } else {
            0
        };
        proof {
            assert(self@ =~= step_rev_sub_reg(old(self)@, acc as int, reg as int));
        }
    }

    /// `0x8xy6`: shifts right one bit — the accumulator itself under the
    /// default convention, through register `reg` under the legacy one. The
    /// flag register then holds the bit shifted out.
    pub fn right_shift_register(&mut self, acc: usize, reg: usize)
        requires
            old(self).wf(),
            acc < 16,
            reg < 16,
        ensures
            final(self).wf(),
            (final(self)@ == step_rsh(old(self)@, acc as int, reg as int)),
    {
        match self.instruction_set {
            InstructionSet::LEGACY => {
                let v = self.registerV[reg];
                self.registerV[reg] = v >> 1;
                self.registerV[acc] = v >> 1;
                self.registerV[0xF] = v & 0x01;
            },
            InstructionSet::COWGOD => {
                let v = self.registerV[acc];
                self.registerV[acc] = v >> 1;
                self.registerV[0xF] = v & 0x01;
            },
        }
        proof {
            assert(self@ =~= step_rsh(old(self)@, acc as int, reg as int));
        }
    }

    /// `0x8xyE`: shifts left one bit — conventions as in
    /// [`Self::right_shift_register`]. The flag register then holds 1 when
    /// the shifted-out high bit was set, else 0.
    pub fn left_shift_register(&mut self, acc: usize, reg: usize)
        requires
            old(self).wf(),
            acc < 16,
            reg < 16,
        ensures
            final(self).wf(),
            (final(self)@ == step_lsh(old(self)@, acc as int, reg as int)),
    {
        match self.instruction_set {
            InstructionSet::LEGACY => {
                let v = self.registerV[reg];
                self.registerV[reg] = v << 1;
                self.registerV[acc] = v << 1;
                self.registerV[0xF] = v >> 7;
            },
            InstructionSet::COWGOD => {
                let v = self.registerV[acc];
                self.registerV[acc] = v << 1;
                self.registerV[0xF] = v >> 7;
            },
        }
        proof {
            assert(self@ =~= step_lsh(old(self)@, acc as int, reg as int));
        }
    }

    /// `0xAnnn`: loads `addr` into the address pointer.
    pub fn load_addr_const(&mut self, addr: u16)
        requires
            old(self).wf(),
        ensures
            final(self).wf(),
            (final(self)@ == step_load_addr(old(self)@, addr)),
    {
        self.i_reg = addr;
        proof {
            assert(self@ =~= step_load_addr(old(self)@, addr));
        }
    }

    /// `0xBnnn`: jumps to register 0 plus `addr_offset`.
    pub fn add_jump_v0(&mut self, addr_offset: u16)
        requires
            old(self).wf(),
            addr_offset < 0x1000,
        ensures
            final(self).wf(),
            (final(self)@ == step_jump_v0(old(self)@, addr_offset)),
    {
        let next_adder = self.registerV[0x00] as u16 + addr_offset;
        self.jump(next_adder);
        proof {
            assert(self@ =~= step_jump_v0(old(self)@, addr_offset));
        }
    }

    /// `0xCxkk`: stores a random byte ANDed with `mask` in register `reg`.
    /// Which byte is up to the generator; every bit outside the mask is 0,
    /// and nothing else changes.
    pub fn randomize(&mut self, reg: usize, mask: u8)
        requires
            old(self).wf(),
            reg < 16,
        ensures
            final(self).wf(),
            exists|rv: u8| (final(self)@ == with_reg(old(self)@, reg as int, rv & mask)),
            final(self)@.regs[reg as int] & !mask == 0,
    {
        let rv = random_byte();
        self.registerV[reg] = rv & mask;
        proof {
            assert(self@ =~= with_reg(old(self)@, reg as int, rv & mask));
            assert((rv & mask) & !mask == 0) by (bit_vector);
        }
    }

    /// `0xFx07`: reads the delay timer into register `reg`.
    pub fn load_timer(&mut self, reg: usize)
        requires
            old(self).wf(),
            reg < 16,
        ensures
            final(self).wf(),
            (final(self)@ == step_load_timer(old(self)@, reg as int)),
    {
        self.registerV[reg] = self.timer;
        proof {
            assert(self@ =~= step_load_timer(old(self)@, reg as int));
        }
    }

    /// `0xFx15`: sets the delay timer from register `reg`.
    pub fn set_timer(&mut self, reg: usize)
        requires
            old(self).wf(),
            reg < 16,
        ensures
            final(self).wf(),
            (final(self)@ == step_set_timer(old(self)@, reg as int)),
    {
        self.timer = self.registerV[reg];
        proof {
            assert(self@ =~= step_set_timer(old(self)@, reg as int));
        }
    }

    /// `0xFx18`: sets the audio timer from register `reg`.
    pub fn set_audio(&mut self, reg: usize)
        requires
            old(self).wf(),
            reg < 16,
        ensures
            final(self).wf(),
            (final(self)@ == step_set_audio(old(self)@, reg as int)),
    {
        let t = self.registerV[reg];
        self.audio_output.set_timer(t);
        proof {
            assert(self@ =~= step_set_audio(old(self)@, reg as int));
        }
    }

    /// `0xFx1E`: adds register `reg` into the address pointer.
    pub fn add_addr_reg(&mut self, reg: usize)
        requires
            old(self).wf(),
            reg < 16,
            !add_addr_fault(old(self)@, reg as int),
        ensures
            final(self).wf(),
            (final(self)@ == step_add_addr(old(self)@, reg as int)),
    {
        self.i_reg += self.registerV[reg] as u16;
        proof {
            assert(self@ =~= step_add_addr(old(self)@, reg as int));
        }
    }

    /// `0xFx29`: points the address pointer at the font glyph named by
    /// register `reg` — five bytes per glyph from address 0.
    pub fn set_addr_to_char(&mut self, reg: usize)
        requires
            old(self).wf(),
            reg < 16,
            !glyph_fault(old(self)@, reg as int),
        ensures
            final(self).wf(),
            (final(self)@ == step_font_addr(old(self)@, reg as int)),
    {
        self.i_reg = (self.registerV[reg] * 5) as u16;
        proof {
            assert(self@ =~= step_font_addr(old(self)@, reg as int));
        }
    }

    /// `0xFx33`: stores the three decimal digits of register `reg` at
    /// `I..I+3`, hundreds first.
    pub fn store_digits(&mut self, reg: usize)
        requires
            old(self).wf(),
            reg < 16,
            !bcd_fault(old(self)@, reg as int),
        ensures
            final(self).wf(),
            (final(self)@ == step_bcd(old(self)@, reg as int)),
    {
        let i = self.i_reg as usize;
        let v = self.registerV[reg];
        self.memory[i] = v / 100;
        self.memory[i + 1] = (v / 10) % 10;
        self.memory[i + 2] = v % 10;
        proof {
            assert(self@ =~= step_bcd(old(self)@, reg as int));
        }
    }

    /// `0xDxyn`: composites the `length`-row sprite at the address pointer
    /// onto the screen at (`reg[xreg]`, `reg[yreg]`) and stores the collision
    /// flag in the flag register. A zero-height draw touches no pixel and
    /// clears the flag.
    pub fn draw_sprite(&mut self, xreg: usize, yreg: usize, length: u8)
        requires
            old(self).wf(),
            xreg < 16,
            yreg < 16,
            !draw_fault(old(self)@, xreg as int, yreg as int, length as int),
        ensures
            final(self).wf(),
            (length == 0 ==> final(self)@ == with_reg(old(self)@, 0xF, 0)),
            (length > 0 ==> blit_ok(
                old(self)@.screen,
                final(self)@.screen,
                old(self)@.regs[xreg as int] as int,
                old(self)@.regs[yreg as int] as int,
                draw_sprite_seq(old(self)@, length as int),
            )),
            (length > 0 ==> final(self)@ == CpuState {
                screen: final(self)@.screen,
                regs: step_draw_regs(old(self)@, xreg as int, yreg as int, length as int),
                ..old(self)@
            }),
    {
        if length == 0 {
            self.registerV[0xF] = 0;
            proof {
                assert(self@ =~= with_reg(old(self)@, 0xF, 0));
            }
            return ;
        }
        let x = self.registerV[xreg];
        let y = self.registerV[yreg];
        let i0 = self.i_reg as usize;
        let mut sprite: Vec<u8> = Vec::new();
        let mut k: usize = 0;
        while k < length as usize
            invariant
                self == old(self),
                self.wf(),
                i0 == self@.i_reg,
                i0 + length <= 4096,
                k <= length,
                sprite@.len() == k,
                forall|j: int| 0 <= j < k ==> sprite@[j] == self.memory@[i0 + j],
            decreases length - k,
        {
            let b = self.memory[i0 + k];
            sprite.push(b);
            k += 1;
        }
        proof {
            assert(sprite@ =~= draw_sprite_seq(old(self)@, length as int));
        }
        let collided = self.display_output.put_sprite(x, y, sprite.as_slice());
        self.registerV[0xF] = if collided {
            1
        } else {
            0
        };
        proof {
            assert(self@ =~= CpuState {
                screen: self@.screen,
                regs: step_draw_regs(old(self)@, xreg as int, yreg as int, length as int),
                ..old(self)@
            });
        }
    }

    /// The decision half of the key-skip instructions: skips the next
    /// instruction exactly when the keyboard's answer says to.
    pub fn skip_next_if(&mut self, skip: bool)
        requires
            old(self).wf(),
            old(self)@.pc + 2 <= 0xFFFF,
        ensures
            final(self).wf(),
            (final(self)@ == if skip {
                step_skip(old(self)@)
            } else {
                old(self)@
            }),
    {
        if skip {
            self.pc += 2;
            proof {
                assert(self@ =~= step_skip(old(self)@));
            }
        } else {
            proof {
                assert(self@ =~= old(self)@);
            }
        }
    }

    /// `0xEx9E`: skips the next instruction when the keyboard reports the key
    /// named by register `reg` as held. Which way it goes is the keyboard's
    /// answer; nothing else changes either way.
    pub fn skip_if_key_pressed(&mut self, reg: usize)
        requires
            old(self).wf(),
            reg < 16,
            old(self)@.pc + 2 <= 0xFFFF,
        ensures
            final(self).wf(),
            final(self)@ == step_skip(old(self)@) || final(self)@ == old(self)@,
    {
        let key = self.registerV[reg];
        let pressed = self.keyboard_input.check_key(key);
        self.skip_next_if(pressed);
    }

    /// `0xExA1`: skips the next instruction when the keyboard reports the key
    /// named by register `reg` as not held.
    pub fn skip_if_key_not_pressed(&mut self, reg: usize)
        requires
            old(self).wf(),
            reg < 16,
            old(self)@.pc + 2 <= 0xFFFF,
        ensures
            final(self).wf(),
            final(self)@ == step_skip(old(self)@) || final(self)@ == old(self)@,
    {
        let key = self.registerV[reg];
        let pressed = self.keyboard_input.check_key(key);
        self.skip_next_if(!pressed);
    }

    /// The decision half of `0xFx0A`: a held key lands in register `reg`; no
    /// key holds the program counter for one frame.
    pub fn apply_key_poll(&mut self, reg: usize, polled: Option<u8>)
        requires
            old(self).wf(),
            reg < 16,
        ensures
            final(self).wf(),
            (final(self)@ == match polled {
                Some(k) => step_wait_key_some(old(self)@, reg as int, k),
                None => step_wait_key_none(old(self)@),
            }),
    {
        match polled {
            Some(key) => {
                self.registerV[reg] = key;
                proof {
                    assert(self@ =~= step_wait_key_some(old(self)@, reg as int, key));
                }
            },
            None => {
                self.advance_pc = false;
                proof {
                    assert(self@ =~= step_wait_key_none(old(self)@));
                }
            },
        }
    }

    /// `0xFx0A`: polls for a key. With one held, it lands in register `reg`;
    /// with none, the program counter holds for one frame so this instruction
    /// is fetched again — the processor never blocks.
    pub fn wait_for_key(&mut self, reg: usize)
        requires
            old(self).wf(),
            reg < 16,
        ensures
            final(self).wf(),
            (exists|k: u8| final(self)@ == step_wait_key_some(old(self)@, reg as int, k))
                || final(self)@ == step_wait_key_none(old(self)@),
    {
        let polled = self.keyboard_input.check_any_key();
        self.apply_key_poll(reg, polled);
        proof {
            if polled is Some {
                assert(self@ == step_wait_key_some(old(self)@, reg as int, polled->Some_0));
            }
        }
    }

    /// Accumulates `ns_since_last_frame` elapsed nanoseconds and fires one
    /// 60 Hz tick per whole period accumulated — looping, so coarse or bursty
    /// timing fires every tick owed. Each tick decrements the delay timer
    /// (floored at zero) and steps the audio timer once.
    pub fn tick(&mut self, ns_since_last_frame: u64)
        requires
            old(self).wf(),
            old(self)@.tick_acc + ns_since_last_frame <= u64::MAX,
        ensures
            final(self).wf(),
            (final(self)@ == step_tick(old(self)@, ns_since_last_frame)),
    {
        self.ns_since_last_tick += ns_since_last_frame;
        let ghost total = old(self)@.tick_acc + ns_since_last_frame;
        let ghost t0 = old(self)@.timer;
        let ghost a0 = old(self)@.audio;
        let ghost mut k: int = 0;
        while self.ns_since_last_tick >= NANO_BETWEEN_TICKS
            invariant
                self.wf(),
                k >= 0,
                self.ns_since_last_tick == total - k * (NANO_BETWEEN_TICKS as int),
                self.timer == sat_sub(t0, k),
                self.audio_output.time == sat_sub(a0, k),
                (CpuState { timer: t0, audio: a0, tick_acc: old(self)@.tick_acc, ..self@ } == old(
                    self,
                )@),
            decreases self.ns_since_last_tick,
        {
            if self.timer > 0 {
                self.timer -= 1;
            }
            self.audio_output.tick();
            self.ns_since_last_tick -= NANO_BETWEEN_TICKS;
            proof {
                lemma_sat_sub_chain(t0, k, 1);
                lemma_sat_sub_chain(a0, k, 1);
                k = k + 1;
            }
        }
        proof {
            lemma_fundamental_div_mod_converse(
                total,
                NANO_BETWEEN_TICKS as int,
                k,
                self.ns_since_last_tick as int,
            );
            assert(self@ =~= step_tick(old(self)@, ns_since_last_frame));
        }
    }

    /// `0xFx55`: stores registers `0..=reg` at the address pointer; the
    /// legacy convention then advances the pointer past the block.
    pub fn save_registers(&mut self, reg: usize)
        requires
            old(self).wf(),
            reg < 16,
            !save_fault(old(self)@, reg as int),
        ensures
            final(self).wf(),
            (final(self)@ == step_save_regs(old(self)@, reg as int)),
    {
        let i0 = self.i_reg as usize;
        let mut regnum: usize = 0;
        while regnum < reg + 1
            invariant
                self.wf(),
                reg < 16,
                regnum <= reg + 1,
                i0 == old(self)@.i_reg,
                80 <= i0,
                i0 + reg + 1 <= 4096,
                self.memory@.len() == 4096,
                forall|j: int|
                    0 <= j < 4096 ==> self.memory@[j] == (if i0 <= j < i0 + regnum {
                        old(self)@.regs[j - i0]
                    } else {
                        old(self)@.mem[j]
                    }),
                (CpuState { mem: old(self)@.mem, ..self@ } == old(self)@),
            decreases reg + 1 - regnum,
        {
            self.memory[i0 + regnum] = self.registerV[regnum];
            regnum += 1;
        }
        match self.instruction_set {
            InstructionSet::LEGACY => {
                self.i_reg = self.i_reg + reg as u16 + 1;
            },
            InstructionSet::COWGOD => {},
        }
        proof {
            assert(self.memory@ =~= step_save_regs(old(self)@, reg as int).mem);
            assert(self@ =~= step_save_regs(old(self)@, reg as int));
        }
    }

    /// `0xFx65`: loads registers `0..=reg` from the address pointer; the
    /// legacy convention then advances the pointer past the block.
    pub fn restore_registers(&mut self, reg: usize)
        requires
            old(self).wf(),
            reg < 16,
            !restore_fault(old(self)@, reg as int),
        ensures
            final(self).wf(),
            (final(self)@ == step_restore_regs(old(self)@, reg as int)),
    {
        let i0 = self.i_reg as usize;
        let mut regnum: usize = 0;
        while regnum < reg + 1
            invariant
                self.wf(),
                reg < 16,
                regnum <= reg + 1,
                i0 == old(self)@.i_reg,
                i0 + reg + 1 <= 4096,
                self.registerV@.len() == 16,
                forall|j: int|
                    0 <= j < 16 ==> self.registerV@[j] == (if 0 <= j < regnum {
                        old(self)@.mem[i0 + j]
                    } else {
                        old(self)@.regs[j]
                    }),
                (CpuState { regs: old(self)@.regs, ..self@ } == old(self)@),
            decreases reg + 1 - regnum,
        {
            self.registerV[regnum] = self.memory[i0 + regnum];
            regnum += 1;
        }
        match self.instruction_set {
            InstructionSet::LEGACY => {
                self.i_reg = self.i_reg + reg as u16 + 1;
            },
            InstructionSet::COWGOD => {},
        }
        proof {
            assert(self.registerV@ =~= step_restore_regs(old(self)@, reg as int).regs);
            assert(self@ =~= step_restore_regs(old(self)@, reg as int));
        }
    }

    /// Decodes one instruction word and executes exactly the operation it
    /// encodes. The program counter is not fetched or advanced here — that is
    /// the driver's job through `get_next_instr` and `end_frame`. A word no
    /// pattern matches, and any out-of-range stack, memory or screen access,
    /// halts the processor and is returned as the [`Fault`] naming the
    /// program counter and the word; nothing else is changed then.
    #[verifier::rlimit(60)]
    pub fn process_instruction(&mut self, op: u16) -> (r: Result<(), Fault>)
        requires
            old(self).wf(),
            old(self)@.pc + 2 <= 0xFFFF,
        ensures
            final(self).wf(),
            (op == 0x0000 ==> r is Ok && final(self)@ == old(self)@),
            (op == 0x00E0 ==> r is Ok && final(self)@ == step_clear(old(self)@)),
            (op == 0x00EE ==> if old(self)@.sp > 0 {
                r is Ok && final(self)@ == step_ret(old(self)@)
            } else {
                r == Err::<(), Fault>(Fault::StackUnderflow { pc: old(self)@.pc, op }) && final(self)@ == dead_state(old(self)@)
            }),
            (op & 0xF000 == 0x1000 ==> r is Ok && final(self)@ == step_jump(
                old(self)@,
                op_addr(op),
            )),
            (op & 0xF000 == 0x2000 ==> if old(self)@.sp < 24 {
                r is Ok && final(self)@ == step_call(old(self)@, op_addr(op))
            } else {
                r == Err::<(), Fault>(Fault::StackOverflow { pc: old(self)@.pc, op }) && final(self)@ == dead_state(old(self)@)
            }),
            (op & 0xF000 == 0x3000 ==> r is Ok && final(self)@ == step_skip_eq_const(
                old(self)@,
                op_acc(op) as int,
                op_num(op),
            )),
            (op & 0xF000 == 0x4000 ==> r is Ok && final(self)@ == step_skip_ne_const(
                old(self)@,
                op_acc(op) as int,
                op_num(op),
            )),
            (op & 0xF00F == 0x5000 ==> r is Ok && final(self)@ == step_skip_eq_reg(
                old(self)@,
                op_acc(op) as int,
                op_reg(op) as int,
            )),
            (op & 0xF000 == 0x6000 ==> r is Ok && final(self)@ == step_load_const(
                old(self)@,
                op_acc(op) as int,
                op_num(op),
            )),
            (op & 0xF000 == 0x7000 ==> r is Ok && final(self)@ == step_add_const(
                old(self)@,
                op_acc(op) as int,
                op_num(op),
            )),
            (op & 0xF00F == 0x8000 ==> r is Ok && final(self)@ == step_load_reg(
                old(self)@,
                op_acc(op) as int,
                op_reg(op) as int,
            )),
            (op & 0xF00F == 0x8001 ==> r is Ok && final(self)@ == step_or_reg(
                old(self)@,
                op_acc(op) as int,
                op_reg(op) as int,
            )),
            (op & 0xF00F == 0x8002 ==> r is Ok && final(self)@ == step_and_reg(
                old(self)@,
                op_acc(op) as int,
                op_reg(op) as int,
            )),
            (op & 0xF00F == 0x8003 ==> r is Ok && final(self)@ == step_xor_reg(
                old(self)@,
                op_acc(op) as int,
                op_reg(op) as int,
            )),
            (op & 0xF00F == 0x8004 ==> r is Ok && final(self)@ == step_add_reg(
                old(self)@,
                op_acc(op) as int,
                op_reg(op) as int,
            )),
            (op & 0xF00F == 0x8005 ==> r is Ok && final(self)@ == step_sub_reg(
                old(self)@,
                op_acc(op) as int,
                op_reg(op) as int,
            )),
            (op & 0xF00F == 0x8006 ==> r is Ok && final(self)@ == step_rsh(
                old(self)@,
                op_acc(op) as int,
                op_reg(op) as int,
            )),
            (op & 0xF00F == 0x8007 ==> r is Ok && final(self)@ == step_rev_sub_reg(
                old(self)@,
                op_acc(op) as int,
                op_reg(op) as int,
            )),
            (op & 0xF00F == 0x800E ==> r is Ok && final(self)@ == step_lsh(
                old(self)@,
                op_acc(op) as int,
                op_reg(op) as int,
            )),
            (op & 0xF00F == 0x9000 ==> r is Ok && final(self)@ == step_skip_ne_reg(
                old(self)@,
                op_acc(op) as int,
                op_reg(op) as int,
            )),
            (op & 0xF000 == 0xA000 ==> r is Ok && final(self)@ == step_load_addr(
                old(self)@,
                op_addr(op),
            )),
            (op & 0xF000 == 0xB000 ==> r is Ok && final(self)@ == step_jump_v0(
                old(self)@,
                op_addr(op),
            )),
            (op & 0xF000 == 0xC000 ==> r is Ok && (exists|rv: u8|
                final(self)@ == with_reg(old(self)@, op_acc(op) as int, rv & op_num(op))) && final(self)@.regs[op_acc(op) as int] & !op_num(op) == 0),
            (op & 0xF000 == 0xD000 ==> if op_nib(op) > 0 && old(self)@.i_reg + op_nib(op) > 4096 {
                r == Err::<(), Fault>(Fault::MemoryOutOfRange { pc: old(self)@.pc, op }) && final(self)@ == dead_state(old(self)@)
            } else if draw_fault(old(self)@, op_acc(op) as int, op_reg(op) as int, op_nib(op) as int) {
                r == Err::<(), Fault>(Fault::DrawOutOfRange { pc: old(self)@.pc, op }) && final(self)@ == dead_state(old(self)@)
            } else {
                r is Ok && (op_nib(op) == 0 ==> final(self)@ == with_reg(old(self)@, 0xF, 0)) && (
                op_nib(op) > 0 ==> blit_ok(
                    old(self)@.screen,
                    final(self)@.screen,
                    old(self)@.regs[op_acc(op) as int] as int,
                    old(self)@.regs[op_reg(op) as int] as int,
                    draw_sprite_seq(old(self)@, op_nib(op) as int),
                ) && final(self)@ == CpuState {
                    screen: final(self)@.screen,
                    regs: step_draw_regs(
                        old(self)@,
                        op_acc(op) as int,
                        op_reg(op) as int,
                        op_nib(op) as int,
                    ),
                    ..old(self)@
                })
            }),
            (op & 0xF0FF == 0xE09E ==> r is Ok && (final(self)@ == step_skip(old(self)@) || final(self)@ == old(self)@)),
            (op & 0xF0FF == 0xE0A1 ==> r is Ok && (final(self)@ == step_skip(old(self)@) || final(self)@ == old(self)@)),
            (op & 0xF0FF == 0xF007 ==> r is Ok && final(self)@ == step_load_timer(
                old(self)@,
                op_acc(op) as int,
            )),
            (op & 0xF0FF == 0xF00A ==> r is Ok && ((exists|k: u8|
                final(self)@ == step_wait_key_some(old(self)@, op_acc(op) as int, k)) || final(self)@ == step_wait_key_none(old(self)@))),
            (op & 0xF0FF == 0xF015 ==> r is Ok && final(self)@ == step_set_timer(
                old(self)@,
                op_acc(op) as int,
            )),
            (op & 0xF0FF == 0xF018 ==> r is Ok && final(self)@ == step_set_audio(
                old(self)@,
                op_acc(op) as int,
            )),
            (op & 0xF0FF == 0xF01E ==> if add_addr_fault(old(self)@, op_acc(op) as int) {
                r == Err::<(), Fault>(Fault::MemoryOutOfRange { pc: old(self)@.pc, op }) && final(self)@ == dead_state(old(self)@)
            } else {
                r is Ok && final(self)@ == step_add_addr(old(self)@, op_acc(op) as int)
            }),
            (op & 0xF0FF == 0xF029 ==> if glyph_fault(old(self)@, op_acc(op) as int) {
                r == Err::<(), Fault>(Fault::GlyphOutOfRange { pc: old(self)@.pc, op }) && final(self)@ == dead_state(old(self)@)
            } else {
                r is Ok && final(self)@ == step_font_addr(old(self)@, op_acc(op) as int)
            }),
            (op & 0xF0FF == 0xF033 ==> if bcd_fault(old(self)@, op_acc(op) as int) {
                r == Err::<(), Fault>(Fault::MemoryOutOfRange { pc: old(self)@.pc, op }) && final(self)@ == dead_state(old(self)@)
            } else {
                r is Ok && final(self)@ == step_bcd(old(self)@, op_acc(op) as int)
            }),
            (op & 0xF0FF == 0xF055 ==> if save_fault(old(self)@, op_acc(op) as int) {
                r == Err::<(), Fault>(Fault::MemoryOutOfRange { pc: old(self)@.pc, op }) && final(self)@ == dead_state(old(self)@)
            } else {
                r is Ok && final(self)@ == step_save_regs(old(self)@, op_acc(op) as int)
            }),
            (op & 0xF0FF == 0xF065 ==> if restore_fault(old(self)@, op_acc(op) as int) {
                r == Err::<(), Fault>(Fault::MemoryOutOfRange { pc: old(self)@.pc, op }) && final(self)@ == dead_state(old(self)@)
            } else {
                r is Ok && final(self)@ == step_restore_regs(old(self)@, op_acc(op) as int)
            }),
            (!op_valid(op) ==> r == Err::<(), Fault>(
                Fault::InvalidOpcode { pc: old(self)@.pc, op },
            ) && final(self)@ == dead_state(old(self)@)),
            final(self)@.mem.subrange(0, 80) == old(self)@.mem.subrange(0, 80),
    {
        proof {
            crate::cpu::lemma_op_mask_facts(op);
            crate::cpu::lemma_decode_bounds(op);
        }
        if op == 0 {
            return Ok(());
        } else if op == 0x00E0 {
            self.clear_screen();
            return Ok(());
        } else if op == 0x00EE {
            if self.sp == 0 {
                let f = Fault::StackUnderflow { pc: self.pc, op };
                self.die();
                return Err(f);
            }
            self.ret();
            return Ok(());
        } else if op & 0xF000 == 0x1000 {
            self.jump(addr(op));
            return Ok(());
        } else if op & 0xF000 == 0x2000 {
            if self.sp >= 24 {
                let f = Fault::StackOverflow { pc: self.pc, op };
                self.die();
                return Err(f);
            }
            self.call(addr(op));
            return Ok(());
        } else if op & 0xF000 == 0x3000 {
            self.skip_if_equal_const(acc(op), num(op));
            return Ok(());
        } else if op & 0xF000 == 0x4000 {
            self.skip_if_unequal_const(acc(op), num(op));
            return Ok(());
        } else if op & 0xF00F == 0x5000 {
            self.skip_if_equal_reg(acc(op), reg(op));
            return Ok(());
        } else if op & 0xF000 == 0x6000 {
            self.load_const(acc(op), num(op));
            return Ok(());
        } else if op & 0xF000 == 0x7000 {
            self.add_const(acc(op), num(op));
            return Ok(());
        } else if op & 0xF00F == 0x8000 {
            self.load_register(acc(op), reg(op));
            return Ok(());
        } else if op & 0xF00F == 0x8001 {
            self.or_register(acc(op), reg(op));
            return Ok(());
        } else if op & 0xF00F == 0x8002 {
            self.and_register(acc(op), reg(op));
            return Ok(());
        } else if op & 0xF00F == 0x8003 {
            self.xor_register(acc(op), reg(op));
            return Ok(());
        } else if op & 0xF00F == 0x8004 {
            self.add_register(acc(op), reg(op));
            return Ok(());
        } else if op & 0xF00F == 0x8005 {
            self.sub_register(acc(op), reg(op));
            return Ok(());
        } else if op & 0xF00F == 0x8006 {
            self.right_shift_register(acc(op), reg(op));
            return Ok(());
        } else if op & 0xF00F == 0x8007 {
            self.rev_sub_register(acc(op), reg(op));
            return Ok(());
        } else if op & 0xF00F == 0x800E {
            self.left_shift_register(acc(op), reg(op));
            return Ok(());
        } else if op & 0xF00F == 0x9000 {
            self.skip_if_unequal_reg(acc(op), reg(op));
            return Ok(());
        } else if op & 0xF000 == 0xA000 {
            self.load_addr_const(addr(op));
            return Ok(());
        } else if op & 0xF000 == 0xB000 {
            self.add_jump_v0(addr(op));
            return Ok(());
        } else if op & 0xF000 == 0xC000 {
            self.randomize(acc(op), num(op));
            proof {
                let rv = choose|rv: u8|
                    self@ == with_reg(old(self)@, op_acc(op) as int, rv & op_num(op));
                assert(self@.mem == old(self)@.mem);
            }
            return Ok(());
        } else if op & 0xF000 == 0xD000 {
            let rows = (op & 0x000F) as u8;
            let xr = acc(op);
            let yr = reg(op);
            if rows > 0 {
                if (self.i_reg as usize) + (rows as usize) > 4096 {
                    let f = Fault::MemoryOutOfRange { pc: self.pc, op };
                    self.die();
                    return Err(f);
                }
                let x = self.registerV[xr];
                let y = self.registerV[yr];
                if x >= 64 || (y as usize) + (rows as usize) > 32 || (x % 8 != 0 && (x as usize) + 8
                    > 64) {
                    let f = Fault::DrawOutOfRange { pc: self.pc, op };
                    self.die();
                    return Err(f);
                }
            }
            self.draw_sprite(xr, yr, rows);
            return Ok(());
        } else if op & 0xF0FF == 0xE09E {
            self.skip_if_key_pressed(acc(op));
            return Ok(());
        } else if op & 0xF0FF == 0xE0A1 {
            self.skip_if_key_not_pressed(acc(op));
            return Ok(());
        } else if op & 0xF0FF == 0xF007 {
            self.load_timer(acc(op));
            return Ok(());
        } else if op & 0xF0FF == 0xF00A {
            self.wait_for_key(acc(op));
            proof {
                if self@ != step_wait_key_none(old(self)@) {
                    let k = choose|k: u8|
                        self@ == step_wait_key_some(old(self)@, op_acc(op) as int, k);
                    assert(self@.mem == old(self)@.mem);
                }
            }
            return Ok(());
        } else if op & 0xF0FF == 0xF015 {
            self.set_timer(acc(op));
            return Ok(());
        } else if op & 0xF0FF == 0xF018 {
            self.set_audio(acc(op));
            return Ok(());
        } else if op & 0xF0FF == 0xF01E {
            let a = acc(op);
            if (self.i_reg as u32) + (self.registerV[a] as u32) > 0xFFFF {
                let f = Fault::MemoryOutOfRange { pc: self.pc, op };
                self.die();
                return Err(f);
            }
            self.add_addr_reg(a);
            return Ok(());
        } else if op & 0xF0FF == 0xF029 {
            let a = acc(op);
            if self.registerV[a] >= 16 {
                let f = Fault::GlyphOutOfRange { pc: self.pc, op };
                self.die();
                return Err(f);
            }
            self.set_addr_to_char(a);
            return Ok(());
        } else if op & 0xF0FF == 0xF033 {
            if self.i_reg < 80 || (self.i_reg as usize) + 3 > 4096 {
                let f = Fault::MemoryOutOfRange { pc: self.pc, op };
                self.die();
                return Err(f);
            }
            self.store_digits(acc(op));
            proof {
                crate::state::lemma_font_protected(old(self)@, op_acc(op) as int);
            }
            return Ok(());
        } else if op & 0xF0FF == 0xF055 {
            let a = acc(op);
            if self.i_reg < 80 || (self.i_reg as usize) + a + 1 > 4096 {
                let f = Fault::MemoryOutOfRange { pc: self.pc, op };
                self.die();
                return Err(f);
            }
            self.save_registers(a);
            proof {
                crate::state::lemma_font_protected(old(self)@, op_acc(op) as int);
            }
            return Ok(());
        } else if op & 0xF0FF == 0xF065 {
            let a = acc(op);
            if (self.i_reg as usize) + a + 1 > 4096 {
                let f = Fault::MemoryOutOfRange { pc: self.pc, op };
                self.die();
                return Err(f);
            }
            self.restore_registers(a);
            return Ok(());
        } else {
            let f = Fault::InvalidOpcode { pc: self.pc, op };
            self.die();
            return Err(f);
        }
    }
}

} // verus!
