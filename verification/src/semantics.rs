//! The mathematical model of the CHIP-8 machine: a ghost [`State`] and the
//! specification [`step_spec`] of one fetch-decode-execute cycle.

use vstd::prelude::*;

use crate::decode::{Instr, spec_decode};

verus! {

/// Ghost model of the whole machine: every field of the executable
/// interpreter has its mathematical counterpart here.
#[verifier::ext_equal]
pub struct State {
    /// 4096 addressable bytes.
    pub memory: Seq<u8>,
    /// Program counter: address of the next instruction to fetch.
    pub pc: u16,
    /// Index register, base pointer for memory-indexed opcodes.
    pub index: u16,
    /// The sixteen variable registers V0..VF.
    pub regs: Seq<u8>,
    /// Call stack of return addresses, last pushed at the end.
    pub stack: Seq<u16>,
    /// Delay timer, counts down to zero.
    pub delay: u8,
    /// Sound timer, counts down to zero.
    pub sound: u8,
    /// 64x32 monochrome framebuffer, row-major.
    pub display: Seq<bool>,
    /// Sixteen "key down" flags.
    pub keypad: Seq<bool>,
}

/// Why a cycle was refused. Execution never panics and never continues
/// past a malformed instruction or a malformed access: it reports one of
/// these, with the machine state unchanged.
#[derive(Clone, Copy, Debug, PartialEq, Eq, Structural)]
pub enum Chip8Error {
    /// The fetched word maps to no documented opcode; `pc` is the address
    /// the word was fetched from.
    UnknownOpcode { word: u16, pc: u16 },
    /// A subroutine return was executed with an empty call stack.
    StackUnderflow { pc: u16 },
    /// An instruction would touch memory outside the 4096 bytes; `addr` is
    /// the base address of the refused access.
    AddressOutOfRange { pc: u16, addr: u16 },
}

/// Every field of a decoded instruction came out of a nibble or a byte of
/// the word: register numbers and the sprite height fit in four bits,
/// addresses in twelve.
pub open spec fn instr_wf(i: Instr) -> bool {
    match i {
        Instr::ClearScreen => true,
        Instr::Return => true,
        Instr::Jump { nnn } => nnn < 4096,
        Instr::Call { nnn } => nnn < 4096,
        Instr::SkipEqImm { x, nn } => x < 16,
        Instr::SkipNeImm { x, nn } => x < 16,
        Instr::SkipEqReg { x, y } => x < 16 && y < 16,
        Instr::SetImm { x, nn } => x < 16,
        Instr::AddImm { x, nn } => x < 16,
        Instr::Assign { x, y } => x < 16 && y < 16,
        Instr::Or { x, y } => x < 16 && y < 16,
        Instr::And { x, y } => x < 16 && y < 16,
        Instr::Xor { x, y } => x < 16 && y < 16,
        Instr::AddReg { x, y } => x < 16 && y < 16,
        Instr::SubXY { x, y } => x < 16 && y < 16,
        Instr::ShiftRight { x, y } => x < 16 && y < 16,
        Instr::SubYX { x, y } => x < 16 && y < 16,
        Instr::ShiftLeft { x, y } => x < 16 && y < 16,
        Instr::SkipNeReg { x, y } => x < 16 && y < 16,
        Instr::SetIndex { nnn } => nnn < 4096,
        Instr::JumpOffset { x, nnn } => x < 16 && nnn < 4096,
        Instr::Random { x, nn } => x < 16,
        Instr::Draw { x, y, n } => x < 16 && y < 16 && n < 16,
        Instr::SkipKeyDown { x } => x < 16,
        Instr::SkipKeyUp { x } => x < 16,
        Instr::ReadDelay { x } => x < 16,
        Instr::WaitKey { x } => x < 16,
        Instr::SetDelay { x } => x < 16,
        Instr::SetSound { x } => x < 16,
        Instr::AddIndex { x } => x < 16,
        Instr::FontChar { x } => x < 16,
        Instr::StoreBcd { x } => x < 16,
        Instr::StoreRegs { x } => x < 16,
        Instr::LoadRegs { x } => x < 16,
    }
}

/// Whatever word is decoded, the instruction that comes out is well formed.
pub proof fn lemma_decoded_wf(w: u16)
    ensures
        spec_decode(w) matches Some(i) ==> instr_wf(i),
{
    assert((w >> 12u16) & 0xF < 16 && (w >> 8u16) & 0xF < 16 && (w >> 4u16) & 0xF < 16 && (w
        & 0xF) < 16 && (w & 0xFF) < 256 && (w & 0xFFF) < 4096) by (bit_vector);
}

/// The size invariants of the machine: fixed-size arenas.
pub open spec fn wf_state(s: State) -> bool {
    &&& s.memory.len() == 4096
    &&& s.regs.len() == 16
    &&& s.display.len() == 2048
    &&& s.keypad.len() == 16
}

/// The state after construction: everything zeroed, the program counter
/// at the start of program space.
pub open spec fn initial_state() -> State {
    State {
        memory: Seq::new(4096, |i: int| 0u8),
        pc: 0x200,
        index: 0,
        regs: Seq::new(16, |i: int| 0u8),
        stack: Seq::empty(),
        delay: 0,
        sound: 0,
        display: Seq::new(2048, |i: int| false),
        keypad: Seq::new(16, |i: int| false),
    }
}

/// Replace only the program counter.
pub open spec fn with_pc(s: State, pc: u16) -> State {
    State { pc, ..s }
}

/// Advance the program counter past one further instruction when `cond`
/// holds: the conditional-skip opcodes.
pub open spec fn skip_pc(s: State, cond: bool) -> State {
    if cond {
        with_pc(s, (s.pc + 2) as u16)
    } else {
        s
    }
}

/// Modular 8-bit addition.
pub open spec fn wrap_add8(a: u8, b: u8) -> u8 {
    if a + b < 256 {
        (a + b) as u8
    } else {
        (a + b - 256) as u8
    }
}

/// Modular 8-bit subtraction.
pub open spec fn wrap_sub8(a: u8, b: u8) -> u8 {
    if a >= b {
        (a - b) as u8
    } else {
        (a - b + 256) as u8
    }
}

/// The big-endian instruction word at the program counter.
pub open spec fn fetched_word(s: State) -> u16 {
    ((s.memory[s.pc as int] as u16) << 8u16) | (s.memory[s.pc as int + 1] as u16)
}

/// The lowest-indexed down key at or above index `i`, if any.
pub open spec fn first_key_down(kp: Seq<bool>, i: int) -> Option<int>
    decreases 16 - i,
{
    if i < 0 || i >= 16 {
        None
    } else if kp[i] {
        Some(i)
    } else {
        first_key_down(kp, i + 1)
    }
}

/// The `k`-th pixel of a sprite row, counted from the left: bit 7 of the
/// byte is the leftmost pixel.
pub open spec fn bit_at(byte: u8, k: int) -> bool {
    (byte >> ((7 - k) as u8)) & 1 == 1
}

/// One sprite row XORed onto the framebuffer: the first `bits` of `byte`
/// (highest bit first) land on row `yr` at columns `x0`, `x0 + 1`, ...,
/// clipped at the right edge. Returns the new framebuffer and whether any
/// pixel was turned from set to unset.
pub open spec fn draw_bits(disp: Seq<bool>, byte: u8, x0: int, yr: int, bits: int) -> (Seq<
    bool,
>, bool)
    decreases bits,
{
    if bits <= 0 {
        (disp, false)
    } else {
        let prev = draw_bits(disp, byte, x0, yr, bits - 1);
        let j = bits - 1;
        let col = x0 + j;
        if col >= 64 {
            prev
        } else {
            let on = bit_at(byte, j);
            let idx = yr * 64 + col;
            let was = prev.0[idx];
            (prev.0.update(idx, was != on), prev.1 || (on && was))
        }
    }
}

/// The first `rows` sprite rows XORed onto the framebuffer, top row first,
/// reading row bitmaps from `mem` starting at `base`.
pub open spec fn draw_sprite(disp: Seq<bool>, mem: Seq<u8>, base: int, x0: int, y0: int, rows: int) -> (Seq<
    bool,
>, bool)
    decreases rows,
{
    if rows <= 0 {
        (disp, false)
    } else {
        let prev = draw_sprite(disp, mem, base, x0, y0, rows - 1);
        let row = draw_bits(prev.0, mem[base + rows - 1], x0, y0 + rows - 1, 8);
        (row.0, prev.1 || row.1)
    }
}

/// The effect of the draw opcode `Dxyn`: sprite rows are read at the index
/// register and XORed in at `(Vx mod 64, Vy mod 32)`, clipped at the right
/// and bottom edges; VF reports whether any collision cleared a pixel.
pub open spec fn draw_step(s: State, pc0: u16, x: u8, y: u8, n: u8) -> (State, Option<Chip8Error>) {
    let x0 = (s.regs[x as int] as int) % 64;
    let y0 = (s.regs[y as int] as int) % 32;
    let rows = if n as int <= 32 - y0 {
        n as int
    } else {
        32 - y0
    };
    if rows > 0 && s.index as int + rows - 1 > 4095 {
        (with_pc(s, pc0), Some(Chip8Error::AddressOutOfRange { pc: pc0, addr: s.index }))
    } else {
        let drawn = draw_sprite(s.display, s.memory, s.index as int, x0, y0, rows);
        (
            State {
                display: drawn.0,
                regs: s.regs.update(
                    15,
                    if drawn.1 {
                        1u8
                    } else {
                        0u8
                    },
                ),
                ..s
            },
            None,
        )
    }
}

/// Memory after `Fx55`: registers `V0..Vx` inclusive written at `base`,
/// everything else untouched.
pub open spec fn store_regs_mem(mem: Seq<u8>, regs: Seq<u8>, base: int, x: int) -> Seq<u8> {
    Seq::new(
        mem.len(),
        |j: int|
            if base <= j && j <= base + x {
                regs[j - base]
            } else {
                mem[j]
            },
    )
}

/// Registers after `Fx65`: `V0..Vx` inclusive read from `base`, the
/// registers above `Vx` untouched.
pub open spec fn load_regs_from_mem(regs: Seq<u8>, mem: Seq<u8>, base: int, x: int) -> Seq<u8> {
    Seq::new(
        regs.len(),
        |j: int|
            if j <= x {
                mem[base + j]
            } else {
                regs[j]
            },
    )
}

/// The effect of `Fx55`: registers `V0..Vx` stored to memory at the index
/// register, refused when the last address would fall outside memory.
pub open spec fn store_step(s: State, pc0: u16, x: u8) -> (State, Option<Chip8Error>) {
    if s.index as int + x as int > 4095 {
        (with_pc(s, pc0), Some(Chip8Error::AddressOutOfRange { pc: pc0, addr: s.index }))
    } else {
        (State { memory: store_regs_mem(s.memory, s.regs, s.index as int, x as int), ..s }, None)
    }
}

/// The effect of `Fx65`: registers `V0..Vx` loaded from memory at the
/// index register, refused when the last address would fall outside memory.
pub open spec fn load_step(s: State, pc0: u16, x: u8) -> (State, Option<Chip8Error>) {
    if s.index as int + x as int > 4095 {
        (with_pc(s, pc0), Some(Chip8Error::AddressOutOfRange { pc: pc0, addr: s.index }))
    } else {
        (State { regs: load_regs_from_mem(s.regs, s.memory, s.index as int, x as int), ..s }, None)
    }
}

/// The effect of one decoded instruction. `s` is the state with the
/// program counter already advanced past the instruction; `pc0` is the
/// address the instruction was fetched from, used for error reports and
/// for the key-wait opcode, which undoes the advance. `r` is the byte the
/// random-number opcode consumes. On an error the machine is left exactly
/// as it was before the cycle.
pub open spec fn step_instr(s: State, pc0: u16, i: Instr, r: u8) -> (State, Option<Chip8Error>) {
    match i {
        Instr::ClearScreen => (
            State { display: Seq::new(s.display.len(), |i: int| false), ..s },
            None,
        ),
        Instr::Return => {
            if s.stack.len() == 0 {
                (with_pc(s, pc0), Some(Chip8Error::StackUnderflow { pc: pc0 }))
            } else {
                (State { pc: s.stack.last(), stack: s.stack.drop_last(), ..s }, None)
            }
        },
        Instr::Jump { nnn } => (with_pc(s, nnn), None),
        Instr::Call { nnn } => (State { pc: nnn, stack: s.stack.push(s.pc), ..s }, None),
        Instr::SkipEqImm { x, nn } => (skip_pc(s, s.regs[x as int] == nn), None),
        Instr::SkipNeImm { x, nn } => (skip_pc(s, s.regs[x as int] != nn), None),
        Instr::SkipEqReg { x, y } => (skip_pc(s, s.regs[x as int] == s.regs[y as int]), None),
        Instr::SetImm { x, nn } => (State { regs: s.regs.update(x as int, nn), ..s }, None),
        Instr::AddImm { x, nn } => (
            State { regs: s.regs.update(x as int, wrap_add8(s.regs[x as int], nn)), ..s },
            None,
        ),
        Instr::Assign { x, y } => (
            State { regs: s.regs.update(x as int, s.regs[y as int]), ..s },
            None,
        ),
        Instr::Or { x, y } => (
            State { regs: s.regs.update(x as int, s.regs[x as int] | s.regs[y as int]), ..s },
            None,
        ),
        Instr::And { x, y } => (
            State { regs: s.regs.update(x as int, s.regs[x as int] & s.regs[y as int]), ..s },
            None,
        ),
        Instr::Xor { x, y } => (
            State { regs: s.regs.update(x as int, s.regs[x as int] ^ s.regs[y as int]), ..s },
            None,
        ),
        Instr::AddReg { x, y } => {
            let sum = s.regs[x as int] + s.regs[y as int];
            let carry: u8 = if sum > 255 {
                1
            } else {
                0
            };
            (
                State {
                    regs: s.regs.update(
                        x as int,
                        wrap_add8(s.regs[x as int], s.regs[y as int]),
                    ).update(15, carry),
                    ..s
                },
                None,
            )
        },
        Instr::SubXY { x, y } => {
            let flag: u8 = if s.regs[x as int] >= s.regs[y as int] {
                1
            } else {
                0
            };
            (
                State {
                    regs: s.regs.update(
                        x as int,
                        wrap_sub8(s.regs[x as int], s.regs[y as int]),
                    ).update(15, flag),
                    ..s
                },
                None,
            )
        },
        Instr::SubYX { x, y } => {
            let flag: u8 = if s.regs[y as int] >= s.regs[x as int] {
                1
            } else {
                0
            };
            (
                State {
                    regs: s.regs.update(
                        x as int,
                        wrap_sub8(s.regs[y as int], s.regs[x as int]),
                    ).update(15, flag),
                    ..s
                },
                None,
            )
        },
        Instr::ShiftRight { x, y } => {
            let r1 = s.regs.update(x as int, s.regs[y as int]);
            let carry = r1[x as int] & 1;
            let r2 = r1.update(15, carry);
            (State { regs: r2.update(x as int, r2[x as int] >> 1u8), ..s }, None)
        },
        Instr::ShiftLeft { x, y } => {
            let r1 = s.regs.update(x as int, s.regs[y as int]);
            let carry = (r1[x as int] & 0x80) >> 7u8;
            let r2 = r1.update(15, carry);
            (State { regs: r2.update(x as int, r2[x as int] << 1u8), ..s }, None)
        },
        Instr::SkipNeReg { x, y } => (skip_pc(s, s.regs[x as int] != s.regs[y as int]), None),
        Instr::SetIndex { nnn } => (State { index: nnn, ..s }, None),
        Instr::JumpOffset { x, nnn } => (with_pc(s, (nnn + s.regs[x as int]) as u16), None),
        Instr::Random { x, nn } => (State { regs: s.regs.update(x as int, r & nn), ..s }, None),
        Instr::Draw { x, y, n } => draw_step(s, pc0, x, y, n),
        Instr::SkipKeyDown { x } => (
            skip_pc(s, s.keypad[(s.regs[x as int] & 0xF) as int]),
            None,
        ),
        Instr::SkipKeyUp { x } => (
            skip_pc(s, !s.keypad[(s.regs[x as int] & 0xF) as int]),
            None,
        ),
        Instr::ReadDelay { x } => (State { regs: s.regs.update(x as int, s.delay), ..s }, None),
        Instr::WaitKey { x } => {
            match first_key_down(s.keypad, 0) {
                Some(k) => (State { regs: s.regs.update(x as int, k as u8), ..s }, None),
                None => (with_pc(s, pc0), None),
            }
        },
        Instr::SetDelay { x } => (State { delay: s.regs[x as int], ..s }, None),
        Instr::SetSound { x } => (State { sound: s.regs[x as int], ..s }, None),
        Instr::AddIndex { x } => {
            let sum = s.index + s.regs[x as int];
            let regs2 = if sum > 0xFFF {
                s.regs.update(15, 1u8)
            } else {
                s.regs
            };
            (State { index: (sum % 0x10000) as u16, regs: regs2, ..s }, None)
        },
        Instr::FontChar { x } => (
            State { index: (0x50 + (s.regs[x as int] & 0xF) * 5) as u16, ..s },
            None,
        ),
        Instr::StoreBcd { x } => {
            if s.index as int + 2 > 4095 {
                (with_pc(s, pc0), Some(Chip8Error::AddressOutOfRange { pc: pc0, addr: s.index }))
            } else {
                let v = s.regs[x as int];
                (
                    State {
                        memory: s.memory.update(s.index as int, (v / 100) as u8).update(
                            s.index as int + 1,
                            ((v / 10) % 10) as u8,
                        ).update(s.index as int + 2, (v % 10) as u8),
                        ..s
                    },
                    None,
                )
            }
        },
        Instr::StoreRegs { x } => store_step(s, pc0, x),
        Instr::LoadRegs { x } => load_step(s, pc0, x),
    }
}

/// One whole fetch-decode-execute cycle: fetch the word at the program
/// counter (refused when it does not lie fully inside memory), decode it
/// (refused for an undocumented pattern), advance the counter by two and
/// execute. `r` is the byte the random-number opcode consumes; every other
/// instruction ignores it. On an error the state is returned unchanged.
pub open spec fn step_spec(s: State, r: u8) -> (State, Option<Chip8Error>) {
    if s.pc as int + 1 > 4095 {
        (s, Some(Chip8Error::AddressOutOfRange { pc: s.pc, addr: s.pc }))
    } else {
        let w = fetched_word(s);
        match spec_decode(w) {
            None => (s, Some(Chip8Error::UnknownOpcode { word: w, pc: s.pc })),
            Some(i) => step_instr(with_pc(s, (s.pc + 2) as u16), s.pc, i, r),
        }
    }
}

/// The cycle's outcome as the interpreter reports it: `Ok` for no error.
pub open spec fn step_result(e: Option<Chip8Error>) -> Result<(), Chip8Error> {
    match e {
        None => Ok(()),
        Some(err) => Err(err),
    }
}

/// One timer tick: both timers step down toward zero and stop there.
pub open spec fn tick_timers_spec(s: State) -> State {
    State {
        delay: if s.delay > 0 {
            (s.delay - 1) as u8
        } else {
            0
        },
        sound: if s.sound > 0 {
            (s.sound - 1) as u8
        } else {
            0
        },
        ..s
    }
}

/// A cycle preserves the size invariants, whatever it did.
pub proof fn lemma_step_spec_wf(s: State, r: u8)
    requires
        wf_state(s),
    ensures
        wf_state(step_spec(s, r).0),
{
    if s.pc as int + 1 <= 4095 {
        let w = fetched_word(s);
        lemma_decoded_wf(w);
        match spec_decode(w) {
            None => {},
            Some(i) => {
                lemma_step_instr_wf(with_pc(s, (s.pc + 2) as u16), s.pc, i, r);
            },
        }
    }
}

/// A down key found by the scan is a real key index.
pub proof fn lemma_first_key_down_range(kp: Seq<bool>, i: int)
    ensures
        first_key_down(kp, i) matches Some(k) ==> 0 <= k < 16 && kp[k],
    decreases 16 - i,
{
    if 0 <= i < 16 && !kp[i] {
        lemma_first_key_down_range(kp, i + 1);
    }
}

/// The key the scan finds is the lowest-indexed down key.
pub proof fn lemma_first_key_down_least(kp: Seq<bool>, i: int)
    requires
        0 <= i,
    ensures
        first_key_down(kp, i) matches Some(k) ==> i <= k < 16 && kp[k] && (forall|j: int|
            i <= j < k ==> !kp[j]),
        first_key_down(kp, i) is None ==> (forall|j: int| i <= j < 16 ==> !kp[j]),
    decreases 16 - i,
{
    if 0 <= i < 16 && !kp[i] {
        lemma_first_key_down_least(kp, i + 1);
    }
}

/// Row drawing on a well-formed framebuffer keeps its size.
pub proof fn lemma_draw_bits_len(disp: Seq<bool>, byte: u8, x0: int, yr: int, bits: int)
    requires
        disp.len() == 2048,
        0 <= x0,
        0 <= yr < 32,
    ensures
        draw_bits(disp, byte, x0, yr, bits).0.len() == disp.len(),
    decreases bits,
{
    if bits > 0 {
        lemma_draw_bits_len(disp, byte, x0, yr, bits - 1);
        let prev = draw_bits(disp, byte, x0, yr, bits - 1);
        let col = x0 + bits - 1;
        if col >= 64 {
            assert(draw_bits(disp, byte, x0, yr, bits) == prev);
        } else {
            assert(0 <= yr * 64 + col < 2048) by (nonlinear_arith)
                requires
                    0 <= yr < 32,
                    0 <= col < 64,
            ;
            assert(draw_bits(disp, byte, x0, yr, bits).0.len() == prev.0.len());
        }
    }
}

/// Sprite drawing on a well-formed framebuffer keeps its size.
pub proof fn lemma_draw_sprite_len(disp: Seq<bool>, mem: Seq<u8>, base: int, x0: int, y0: int, rows: int)
    requires
        disp.len() == 2048,
        0 <= x0,
        0 <= y0,
        y0 + rows <= 32,
    ensures
        draw_sprite(disp, mem, base, x0, y0, rows).0.len() == disp.len(),
    decreases rows,
{
    if rows > 0 {
        lemma_draw_sprite_len(disp, mem, base, x0, y0, rows - 1);
        lemma_draw_bits_len(
            draw_sprite(disp, mem, base, x0, y0, rows - 1).0,
            mem[base + rows - 1],
            x0,
            y0 + rows - 1,
            8,
        );
    }
}

/// Executing any decoded instruction preserves the size invariants.
pub proof fn lemma_step_instr_wf(s: State, pc0: u16, i: Instr, r: u8)
    requires
        wf_state(s),
        instr_wf(i),
    ensures
        wf_state(step_instr(s, pc0, i, r).0),
{
    match i {
        Instr::Draw { x, y, n } => {
            let x0 = (s.regs[x as int] as int) % 64;
            let y0 = (s.regs[y as int] as int) % 32;
            let rows = if n as int <= 32 - y0 {
                n as int
            } else {
                32 - y0
            };
            lemma_draw_sprite_len(s.display, s.memory, s.index as int, x0, y0, rows);
        },
        Instr::WaitKey { x } => {
            lemma_first_key_down_range(s.keypad, 0);
        },
        _ => {},
    }
}

} // verus!
