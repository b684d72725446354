//! The mathematical model of the processor: a ghost record of its whole
//! state, one step function per instruction, and the laws the machine obeys.

use crate::cpu::InstructionSet;
use crate::default_fontset::initial_memory;
use crate::display::{blank, blit_collides};
use vstd::arithmetic::div_mod::{
    lemma_fundamental_div_mod, lemma_fundamental_div_mod_converse, lemma_mod_bound,
};
use vstd::prelude::*;

verus! {

/// Nanoseconds per 60 Hz timer tick (one sixtieth of a second, rounded up).
pub const NANO_BETWEEN_TICKS: u64 = 16666667;

/// Everything the processor owns, as mathematical values. The contracts of
/// [`crate::InterpretedCpu`] speak of this record; its `view` maps the
/// executable state onto it.
#[verifier::ext_equal]
pub struct CpuState {
    /// Program counter.
    pub pc: u16,
    /// The sixteen 8-bit registers; index `0xF` doubles as the flag register.
    pub regs: Seq<u8>,
    /// The 16-bit address pointer `I`.
    pub i_reg: u16,
    /// The 24 call-return slots.
    pub stack: Seq<u16>,
    /// How many stack slots are in use.
    pub sp: int,
    /// The delay timer, decremented at 60 Hz, floored at 0.
    pub timer: u8,
    /// Nanoseconds accumulated since the last 60 Hz tick fired.
    pub tick_acc: u64,
    /// The 4096 bytes of memory.
    pub mem: Seq<u8>,
    /// The 256 packed framebuffer bytes.
    pub screen: Seq<u8>,
    /// The audio countdown timer.
    pub audio: u8,
    /// Whether the program counter advances at the coming frame end. Jumps,
    /// calls and an unanswered key wait clear it for one frame.
    pub advance: bool,
    /// Whether the processor has halted.
    pub dead: bool,
    /// The instruction-set convention fixed at construction.
    pub variant: InstructionSet,
}

impl CpuState {
    /// The fixed shapes of the state: register, stack, memory and screen
    /// sizes, and a stack pointer within bounds.
    pub open spec fn wf(self) -> bool {
        &&& self.regs.len() == 16
        &&& self.stack.len() == 24
        &&& 0 <= self.sp <= 24
        &&& self.mem.len() == 4096
        &&& self.screen.len() == 256
    }
}

/// The state a just-built processor is in, up to the screen and audio
/// collaborators it was handed: program counter at `0x200`, everything zero,
/// memory holding only the font table.
pub open spec fn start_state(variant: InstructionSet) -> CpuState {
    CpuState {
        pc: 0x200,
        regs: Seq::new(16, |i: int| 0u8),
        i_reg: 0,
        stack: Seq::new(24, |i: int| 0u16),
        sp: 0,
        timer: 0,
        tick_acc: 0,
        mem: initial_memory(),
        screen: blank(),
        audio: 0,
        advance: true,
        dead: false,
        variant,
    }
}

/// The state with register `x` set to `v`.
pub open spec fn with_reg(s: CpuState, x: int, v: u8) -> CpuState {
    CpuState { regs: s.regs.update(x, v), ..s }
}

/// The state after the processor halts on a fault.
pub open spec fn dead_state(s: CpuState) -> CpuState {
    CpuState { dead: true, ..s }
}

/// `0x00E0`: the screen goes dark.
pub open spec fn step_clear(s: CpuState) -> CpuState {
    CpuState { screen: blank(), ..s }
}

/// `0x00EE`: the program counter is popped off the stack.
pub open spec fn step_ret(s: CpuState) -> CpuState {
    CpuState { pc: s.stack[s.sp - 1], sp: s.sp - 1, ..s }
}

/// `0x1nnn`: the program counter lands exactly on `a` and does not advance at
/// the coming frame end.
pub open spec fn step_jump(s: CpuState, a: u16) -> CpuState {
    CpuState { pc: a, advance: false, ..s }
}

/// `0x2nnn`: the current program counter is pushed (the frame end after the
/// matching return advances past the call), then as `step_jump`.
pub open spec fn step_call(s: CpuState, a: u16) -> CpuState {
    CpuState { stack: s.stack.update(s.sp, s.pc), sp: s.sp + 1, pc: a, advance: false, ..s }
}

/// The next instruction is skipped: the program counter moves one extra word.
pub open spec fn step_skip(s: CpuState) -> CpuState {
    CpuState { pc: (s.pc + 2) as u16, ..s }
}

/// `0x3xkk`: skip when register `x` equals the immediate byte.
pub open spec fn step_skip_eq_const(s: CpuState, x: int, kk: u8) -> CpuState {
    if s.regs[x] == kk {
        step_skip(s)
    } else {
        s
    }
}

/// `0x4xkk`: skip when register `x` differs from the immediate byte.
pub open spec fn step_skip_ne_const(s: CpuState, x: int, kk: u8) -> CpuState {
    if s.regs[x] != kk {
        step_skip(s)
    } else {
        s
    }
}

/// `0x5xy0`: skip when the two registers are equal.
pub open spec fn step_skip_eq_reg(s: CpuState, x: int, y: int) -> CpuState {
    if s.regs[x] == s.regs[y] {
        step_skip(s)
    } else {
        s
    }
}

/// `0x9xy0`: skip when the two registers differ.
pub open spec fn step_skip_ne_reg(s: CpuState, x: int, y: int) -> CpuState {
    if s.regs[x] != s.regs[y] {
        step_skip(s)
    } else {
        s
    }
}

/// `0x6xkk`: load the immediate byte.
pub open spec fn step_load_const(s: CpuState, x: int, kk: u8) -> CpuState {
    with_reg(s, x, kk)
}

/// `0x7xkk`: wrapping add of the immediate byte; the flag register is *not*
/// written — the asymmetry with `0x8xy4` is deliberate.
pub open spec fn step_add_const(s: CpuState, x: int, kk: u8) -> CpuState {
    with_reg(
        s,
        x,
        if s.regs[x] + kk > 255 {
            (s.regs[x] + kk - 256) as u8
        } else {
            (s.regs[x] + kk) as u8
        },
    )
}

/// `0x8xy0`: copy register `y` into register `x`.
pub open spec fn step_load_reg(s: CpuState, x: int, y: int) -> CpuState {
    with_reg(s, x, s.regs[y])
}

/// `0x8xy1`: bitwise OR into the accumulator.
pub open spec fn step_or_reg(s: CpuState, x: int, y: int) -> CpuState {
    with_reg(s, x, s.regs[x] | s.regs[y])
}

/// `0x8xy2`: bitwise AND into the accumulator.
pub open spec fn step_and_reg(s: CpuState, x: int, y: int) -> CpuState {
    with_reg(s, x, s.regs[x] & s.regs[y])
}

/// `0x8xy3`: bitwise XOR into the accumulator.
pub open spec fn step_xor_reg(s: CpuState, x: int, y: int) -> CpuState {
    with_reg(s, x, s.regs[x] ^ s.regs[y])
}

/// `0x8xy4`: wrapping add; the flag register then holds the carry-out, as the
/// last write, so it wins when `x` is the flag register itself.
pub open spec fn step_add_reg(s: CpuState, x: int, y: int) -> CpuState {
    let sum = s.regs[x] + s.regs[y];
    let v = if sum > 255 {
        (sum - 256) as u8
    } else {
        sum as u8
    };
    let carry: u8 = if sum > 255 {
        1
    } else {
        0
    };
    CpuState { regs: s.regs.update(x, v).update(0xF, carry), ..s }
}

/// `0x8xy5`: wrapping subtract; the flag register then holds 1 when no borrow
/// was needed, 0 otherwise, as the last write.
pub open spec fn step_sub_reg(s: CpuState, x: int, y: int) -> CpuState {
    let v = if s.regs[x] >= s.regs[y] {
        (s.regs[x] - s.regs[y]) as u8
    } else {
        (s.regs[x] + 256 - s.regs[y]) as u8
    };
    let no_borrow: u8 = if s.regs[x] >= s.regs[y] {
        1
    } else {
        0
    };
    CpuState { regs: s.regs.update(x, v).update(0xF, no_borrow), ..s }
}

/// `0x8xy7`: wrapping subtract the other way (`y - x`), stored in `x`; the
/// flag register holds 1 when no borrow was needed.
pub open spec fn step_rev_sub_reg(s: CpuState, x: int, y: int) -> CpuState {
    let v = if s.regs[y] >= s.regs[x] {
        (s.regs[y] - s.regs[x]) as u8
    } else {
        (s.regs[y] + 256 - s.regs[x]) as u8
    };
    let no_borrow: u8 = if s.regs[y] >= s.regs[x] {
        1
    } else {
        0
    };
    CpuState { regs: s.regs.update(x, v).update(0xF, no_borrow), ..s }
}

/// `0x8xy6`: shift right one bit. The default convention shifts the
/// accumulator itself; the legacy one shifts register `y` and copies the
/// result into `x`. The flag register then holds the bit shifted out.
pub open spec fn step_rsh(s: CpuState, x: int, y: int) -> CpuState {
    if s.variant == InstructionSet::LEGACY {
        let v = s.regs[y];
        CpuState { regs: s.regs.update(y, v >> 1).update(x, v >> 1).update(0xF, v & 1), ..s }
    } else {
        let v = s.regs[x];
        CpuState { regs: s.regs.update(x, v >> 1).update(0xF, v & 1), ..s }
    }
}

/// `0x8xyE`: shift left one bit; conventions as in `step_rsh`. The flag
/// register then holds 1 when the shifted-out high bit was set, else 0.
pub open spec fn step_lsh(s: CpuState, x: int, y: int) -> CpuState {
    if s.variant == InstructionSet::LEGACY {
        let v = s.regs[y];
        CpuState { regs: s.regs.update(y, v << 1).update(x, v << 1).update(0xF, v >> 7), ..s }
    } else {
        let v = s.regs[x];
        CpuState { regs: s.regs.update(x, v << 1).update(0xF, v >> 7), ..s }
    }
}

/// `0xAnnn`: load the address pointer.
pub open spec fn step_load_addr(s: CpuState, a: u16) -> CpuState {
    CpuState { i_reg: a, ..s }
}

/// `0xBnnn`: jump to register 0 plus the address operand.
pub open spec fn step_jump_v0(s: CpuState, a: u16) -> CpuState {
    CpuState { pc: (s.regs[0] + a) as u16, advance: false, ..s }
}

/// `0xFx07`: read the delay timer into register `x`.
pub open spec fn step_load_timer(s: CpuState, x: int) -> CpuState {
    with_reg(s, x, s.timer)
}

/// `0xFx15`: set the delay timer from register `x`.
pub open spec fn step_set_timer(s: CpuState, x: int) -> CpuState {
    CpuState { timer: s.regs[x], ..s }
}

/// `0xFx18`: set the audio timer from register `x`.
pub open spec fn step_set_audio(s: CpuState, x: int) -> CpuState {
    CpuState { audio: s.regs[x], ..s }
}

/// `0xFx1E`: add register `x` into the address pointer.
pub open spec fn step_add_addr(s: CpuState, x: int) -> CpuState {
    CpuState { i_reg: (s.i_reg + s.regs[x]) as u16, ..s }
}

/// `0xFx29`: point the address pointer at the font glyph named by register
/// `x` (five bytes per glyph from address 0).
pub open spec fn step_font_addr(s: CpuState, x: int) -> CpuState {
    CpuState { i_reg: (s.regs[x] * 5) as u16, ..s }
}

/// `0xFx33`: store the three decimal digits of register `x` at `I..I+3`,
/// hundreds first.
pub open spec fn step_bcd(s: CpuState, x: int) -> CpuState {
    let v = s.regs[x];
    let i = s.i_reg as int;
    CpuState {
        mem: s.mem.update(i, (v / 100) as u8).update(i + 1, ((v / 10) % 10) as u8).update(
            i + 2,
            (v % 10) as u8,
        ),
        ..s
    }
}

/// `0xFx55`: store registers `0..=x` at `I..`; the legacy convention then
/// advances the address pointer past the block.
pub open spec fn step_save_regs(s: CpuState, x: int) -> CpuState {
    CpuState {
        mem: Seq::new(
            4096,
            |j: int|
                if s.i_reg <= j <= s.i_reg + x {
                    s.regs[j - s.i_reg]
                } else {
                    s.mem[j]
                },
        ),
        i_reg: if s.variant == InstructionSet::LEGACY {
            (s.i_reg + x + 1) as u16
        } else {
            s.i_reg
        },
        ..s
    }
}

/// `0xFx65`: load registers `0..=x` from `I..`; the legacy convention then
/// advances the address pointer past the block.
pub open spec fn step_restore_regs(s: CpuState, x: int) -> CpuState {
    CpuState {
        regs: Seq::new(
            16,
            |j: int|
                if 0 <= j <= x {
                    s.mem[s.i_reg + j]
                } else {
                    s.regs[j]
                },
        ),
        i_reg: if s.variant == InstructionSet::LEGACY {
            (s.i_reg + x + 1) as u16
        } else {
            s.i_reg
        },
        ..s
    }
}

/// `0xFx0A` with a key down: the key lands in register `x`.
pub open spec fn step_wait_key_some(s: CpuState, x: int, key: u8) -> CpuState {
    with_reg(s, x, key)
}

/// `0xFx0A` with no key down: the program counter holds for one frame so the
/// same instruction is fetched again.
pub open spec fn step_wait_key_none(s: CpuState) -> CpuState {
    CpuState { advance: false, ..s }
}

/// `t` minus `k` ticks, floored at zero.
pub open spec fn sat_sub(t: u8, k: int) -> u8 {
    if k >= t {
        0u8
    } else {
        (t - k) as u8
    }
}

/// One call of `tick` with `dt` elapsed nanoseconds: the accumulator grows by
/// `dt`, then one 60 Hz tick fires per whole period in it, each decrementing
/// both timers (floored at zero).
pub open spec fn step_tick(s: CpuState, dt: u64) -> CpuState {
    let total = s.tick_acc + dt;
    let k = total / (NANO_BETWEEN_TICKS as int);
    CpuState {
        timer: sat_sub(s.timer, k),
        audio: sat_sub(s.audio, k),
        tick_acc: (total % (NANO_BETWEEN_TICKS as int)) as u64,
        ..s
    }
}

/// The frame end: the program counter advances one instruction word, unless a
/// jump, call or unanswered key wait asked it to hold this frame.
pub open spec fn step_end_frame(s: CpuState) -> CpuState {
    if s.advance {
        CpuState { pc: (s.pc + 2) as u16, ..s }
    } else {
        CpuState { advance: true, ..s }
    }
}

/// The instruction word fetched at the program counter: two big-endian bytes.
pub open spec fn fetch16(s: CpuState) -> u16 {
    (s.mem[s.pc as int] * 256 + s.mem[s.pc as int + 1]) as u16
}

/// Whether some instruction pattern matches the word `op`.
pub open spec fn op_valid(op: u16) -> bool {
    ||| op == 0x0000
    ||| op == 0x00E0
    ||| op == 0x00EE
    ||| op & 0xF000 == 0x1000
    ||| op & 0xF000 == 0x2000
    ||| op & 0xF000 == 0x3000
    ||| op & 0xF000 == 0x4000
    ||| op & 0xF00F == 0x5000
    ||| op & 0xF000 == 0x6000
    ||| op & 0xF000 == 0x7000
    ||| op & 0xF00F == 0x8000
    ||| op & 0xF00F == 0x8001
    ||| op & 0xF00F == 0x8002
    ||| op & 0xF00F == 0x8003
    ||| op & 0xF00F == 0x8004
    ||| op & 0xF00F == 0x8005
    ||| op & 0xF00F == 0x8006
    ||| op & 0xF00F == 0x8007
    ||| op & 0xF00F == 0x800E
    ||| op & 0xF00F == 0x9000
    ||| op & 0xF000 == 0xA000
    ||| op & 0xF000 == 0xB000
    ||| op & 0xF000 == 0xC000
    ||| op & 0xF000 == 0xD000
    ||| op & 0xF0FF == 0xE09E
    ||| op & 0xF0FF == 0xE0A1
    ||| op & 0xF0FF == 0xF007
    ||| op & 0xF0FF == 0xF00A
    ||| op & 0xF0FF == 0xF015
    ||| op & 0xF0FF == 0xF018
    ||| op & 0xF0FF == 0xF01E
    ||| op & 0xF0FF == 0xF029
    ||| op & 0xF0FF == 0xF033
    ||| op & 0xF0FF == 0xF055
    ||| op & 0xF0FF == 0xF065
}

/// A draw would step outside memory or the screen: the sprite read must end
/// by 4096, the sprite must lie wholly on the 64x32 screen. (A zero-height
/// draw touches nothing and never faults.)
pub open spec fn draw_fault(s: CpuState, x: int, y: int, n: int) -> bool {
    n > 0 && {
        ||| s.i_reg + n > 4096
        ||| s.regs[x] >= 64
        ||| s.regs[y] + n > 32
        ||| (s.regs[x] % 8 != 0 && s.regs[x] + 8 > 64)
    }
}

/// The sprite a draw of height `n` reads from memory: the `n` bytes at the
/// address pointer.
pub open spec fn draw_sprite_seq(s: CpuState, n: int) -> Seq<u8> {
    s.mem.subrange(s.i_reg as int, s.i_reg + n)
}

/// The registers after a draw: the flag register reports whether compositing
/// the sprite at (`regs[x]`, `regs[y]`) turned some lit pixel off.
pub open spec fn step_draw_regs(s: CpuState, x: int, y: int, n: int) -> Seq<u8> {
    s.regs.update(
        0xF,
        if blit_collides(s.screen, s.regs[x] as int, s.regs[y] as int, draw_sprite_seq(s, n)) {
            1u8
        } else {
            0u8
        },
    )
}

/// A register save would write outside the writable region `0x050..0x1000`.
pub open spec fn save_fault(s: CpuState, x: int) -> bool {
    s.i_reg < 80 || s.i_reg + x + 1 > 4096
}

/// A register load would read past the end of memory.
pub open spec fn restore_fault(s: CpuState, x: int) -> bool {
    s.i_reg + x + 1 > 4096
}

/// A BCD store would write outside the writable region `0x050..0x1000`.
pub open spec fn bcd_fault(s: CpuState, x: int) -> bool {
    s.i_reg < 80 || s.i_reg + 3 > 4096
}

/// Adding to the address pointer would overflow its 16 bits.
pub open spec fn add_addr_fault(s: CpuState, x: int) -> bool {
    s.i_reg + s.regs[x] > 0xFFFF
}

/// The font lookup register value names no glyph.
pub open spec fn glyph_fault(s: CpuState, x: int) -> bool {
    s.regs[x] >= 16
}

// ---------------------------------------------------------------------------
// Laws of the machine.
// ---------------------------------------------------------------------------

/// Add and subtract set the flag register to exactly the hardware carry or
/// borrow: 1 on an add that overflows 8 bits, 1 on a subtract that needs no
/// borrow, always 0 or 1, whatever the operand registers hold.
pub proof fn lemma_arith_flags(s: CpuState, x: int, y: int)
    requires
        s.wf(),
        0 <= x < 16,
        0 <= y < 16,
    ensures
        step_add_reg(s, x, y).regs[0xF] == (if s.regs[x] + s.regs[y] > 255 {
            1u8
        } else {
            0u8
        }),
        step_sub_reg(s, x, y).regs[0xF] == (if s.regs[x] >= s.regs[y] {
            1u8
        } else {
            0u8
        }),
        step_rev_sub_reg(s, x, y).regs[0xF] == (if s.regs[y] >= s.regs[x] {
            1u8
        } else {
            0u8
        }),
        x != 0xF ==> step_add_reg(s, x, y).regs[x] == ((s.regs[x] + s.regs[y]) % 256) as u8,
        x != 0xF ==> step_sub_reg(s, x, y).regs[x] == ((s.regs[x] - s.regs[y] + 256) % 256) as u8,
{
}

/// A jump lands exactly on its target: right after `step_jump` the program
/// counter reads `a`, and the coming frame end leaves it there, whatever the
/// program counter held before.
pub proof fn lemma_jump_refetch(s: CpuState, a: u16)
    ensures
        step_jump(s, a).pc == a,
        step_end_frame(step_jump(s, a)).pc == a,
{
}

/// The ghost run of `tick` over a whole sequence of elapsed-time deltas.
pub open spec fn run_ticks(s: CpuState, ds: Seq<u64>) -> CpuState
    decreases ds.len(),
{
    if ds.len() == 0 {
        s
    } else {
        run_ticks(step_tick(s, ds[0]), ds.subrange(1, ds.len() as int))
    }
}

/// The sum of a sequence of deltas.
pub open spec fn sum_deltas(ds: Seq<u64>) -> int
    decreases ds.len(),
{
    if ds.len() == 0 {
        0
    } else {
        ds[0] + sum_deltas(ds.subrange(1, ds.len() as int))
    }
}

/// Dividing off whole periods distributes over an added multiple.
proof fn lemma_div_shift(q: int, r: int)
    requires
        q >= 0,
        r >= 0,
    ensures
        (q * (NANO_BETWEEN_TICKS as int) + r) / (NANO_BETWEEN_TICKS as int) == q + r / (
        NANO_BETWEEN_TICKS as int),
        (q * (NANO_BETWEEN_TICKS as int) + r) % (NANO_BETWEEN_TICKS as int) == r % (
        NANO_BETWEEN_TICKS as int),
{
    let p = NANO_BETWEEN_TICKS as int;
    lemma_fundamental_div_mod(r, p);
    lemma_mod_bound(r, p);
    assert(q * p + r == (q + r / p) * p + (r % p)) by (nonlinear_arith)
        requires
            r == p * (r / p) + (r % p),
    ;
    lemma_fundamental_div_mod_converse(q * p + r, p, q + r / p, r % p);
}

/// Subtracting saturated twice is subtracting the total, saturated.
pub proof fn lemma_sat_sub_chain(t: u8, a: int, b: int)
    requires
        a >= 0,
        b >= 0,
    ensures
        sat_sub(sat_sub(t, a), b) == sat_sub(t, a + b),
{
}

/// A sum of deltas is never negative.
proof fn lemma_sum_deltas_nonneg(ds: Seq<u64>)
    ensures
        sum_deltas(ds) >= 0,
    decreases ds.len(),
{
    if ds.len() > 0 {
        lemma_sum_deltas_nonneg(ds.subrange(1, ds.len() as int));
    }
}

/// However the elapsed time is fragmented over `tick` calls, only the total
/// matters: after any sequence of deltas, the delay and audio timers have
/// gone down by exactly the number of whole 60 Hz periods in the accumulated
/// total (floored at zero), and the remainder sits in the accumulator. Ten
/// sub-period deltas summing to one period thus decrement the delay timer by
/// exactly one, never more, never less.
pub proof fn lemma_tick_accumulation(s: CpuState, ds: Seq<u64>)
    requires
        s.tick_acc < NANO_BETWEEN_TICKS,
    ensures
        (run_ticks(s, ds) == CpuState {
            timer: sat_sub(s.timer, (s.tick_acc + sum_deltas(ds)) / (NANO_BETWEEN_TICKS as int)),
            audio: sat_sub(s.audio, (s.tick_acc + sum_deltas(ds)) / (NANO_BETWEEN_TICKS as int)),
            tick_acc: ((s.tick_acc + sum_deltas(ds)) % (NANO_BETWEEN_TICKS as int)) as u64,
            ..s
        }),
    decreases ds.len(),
{
    let p = NANO_BETWEEN_TICKS as int;
    if ds.len() == 0 {
        lemma_fundamental_div_mod_converse(s.tick_acc as int, p, 0, s.tick_acc as int);
        assert(run_ticks(s, ds) =~= CpuState {
            timer: sat_sub(s.timer, (s.tick_acc + sum_deltas(ds)) / p),
            audio: sat_sub(s.audio, (s.tick_acc + sum_deltas(ds)) / p),
            tick_acc: ((s.tick_acc + sum_deltas(ds)) % p) as u64,
            ..s
        });
    } else {
        let total0 = s.tick_acc + ds[0];
        let k0 = total0 / p;
        lemma_fundamental_div_mod(total0, p);
        lemma_mod_bound(total0, p);
        let s1 = step_tick(s, ds[0]);
        let rest = ds.subrange(1, ds.len() as int);
        lemma_tick_accumulation(s1, rest);
        lemma_sum_deltas_nonneg(rest);
        assert(k0 >= 0) by (nonlinear_arith)
            requires
                total0 >= 0,
                p > 0,
                k0 == total0 / p,
        ;
        assert((s1.tick_acc + sum_deltas(rest)) / p >= 0) by (nonlinear_arith)
            requires
                s1.tick_acc + sum_deltas(rest) >= 0,
                p > 0,
        ;
        lemma_mod_bound(s1.tick_acc + sum_deltas(rest), p);
        // total over the whole run = k0 whole periods + what step one left.
        lemma_div_shift(k0, s1.tick_acc + sum_deltas(rest));
        assert(k0 * p + (s1.tick_acc + sum_deltas(rest)) == s.tick_acc + sum_deltas(ds));
        lemma_sat_sub_chain(s.timer, k0, (s1.tick_acc + sum_deltas(rest)) / p);
        lemma_sat_sub_chain(s.audio, k0, (s1.tick_acc + sum_deltas(rest)) / p);
        assert(run_ticks(s, ds) =~= CpuState {
            timer: sat_sub(s.timer, (s.tick_acc + sum_deltas(ds)) / p),
            audio: sat_sub(s.audio, (s.tick_acc + sum_deltas(ds)) / p),
            tick_acc: ((s.tick_acc + sum_deltas(ds)) % p) as u64,
            ..s
        });
    }
}

/// The font table is never overwritten after initialization: the two
/// memory-writing instructions keep every byte below `0x050` intact whenever
/// their write-range guards hold (and those guards are exactly what the
/// dispatcher enforces before running them).
pub proof fn lemma_font_protected(s: CpuState, x: int)
    requires
        s.wf(),
        0 <= x < 16,
    ensures
        !bcd_fault(s, x) ==> step_bcd(s, x).mem.subrange(0, 80) =~= s.mem.subrange(0, 80),
        !save_fault(s, x) ==> step_save_regs(s, x).mem.subrange(0, 80) =~= s.mem.subrange(0, 80),
{
}

/// Saving registers `0..=x` and immediately restoring them from the same
/// address pointer brings every register back unchanged. Under the default
/// convention the pointer never moved; under the legacy one the caller must
/// first put it back, since the save advanced it past the block.
pub proof fn lemma_save_restore(s: CpuState, x: int)
    requires
        s.wf(),
        0 <= x < 16,
        80 <= s.i_reg,
        s.i_reg + x < 4096,
    ensures
        (s.variant == InstructionSet::COWGOD ==> step_restore_regs(step_save_regs(s, x), x).regs
            =~= s.regs),
        (step_restore_regs(CpuState { i_reg: s.i_reg, ..step_save_regs(s, x) }, x).regs
            =~= s.regs),
{
}

} // verus!
