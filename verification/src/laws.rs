//! General laws of the interpreter, proved once for every machine state.
//!
//! Each law is stated over [`step_spec`], the specification that the
//! executable `tick` methods are proved against, so everything here holds
//! of the running interpreter too.

use vstd::prelude::*;

use crate::decode::{Instr, spec_decode};
use crate::semantics::{
    State, bit_at, draw_bits, draw_sprite, fetched_word, first_key_down, lemma_decoded_wf,
    lemma_draw_bits_len, lemma_first_key_down_least, load_regs_from_mem, step_spec,
    store_regs_mem, wf_state, with_pc, wrap_add8,
};

verus! {

/// A refused cycle is harmless: whenever a cycle reports an error — an
/// unknown opcode, a return on an empty stack, an access outside memory —
/// the machine state is exactly what it was before the cycle.
pub proof fn lemma_error_keeps_state(s: State, r: u8)
    requires
        wf_state(s),
    ensures
        step_spec(s, r).1 is Some ==> step_spec(s, r).0 == s,
{
    if s.pc as int + 1 <= 4095 {
        let w = fetched_word(s);
        match spec_decode(w) {
            None => {},
            Some(i) => {
                let sadv = with_pc(s, (s.pc + 2) as u16);
                if step_spec(s, r).1 is Some {
                    assert(with_pc(sadv, s.pc) =~= s);
                }
            },
        }
    }
}

/// After a clear-screen opcode the whole framebuffer reads false,
/// whatever was on it before, and the cycle reports no error.
pub proof fn lemma_clear_screen(s: State, r: u8)
    requires
        wf_state(s),
        s.pc as int + 1 <= 4095,
        spec_decode(fetched_word(s)) == Some(Instr::ClearScreen),
    ensures
        step_spec(s, r).1 is None,
        forall|p: int| 0 <= p < 2048 ==> !step_spec(s, r).0.display[p],
{
}

/// After `6xnn` the register `Vx` reads exactly `nn`, every other
/// register is untouched, and the cycle reports no error.
pub proof fn lemma_set_imm(s: State, r: u8, x: u8, nn: u8)
    requires
        wf_state(s),
        s.pc as int + 1 <= 4095,
        spec_decode(fetched_word(s)) == Some(Instr::SetImm { x, nn }),
    ensures
        step_spec(s, r).1 is None,
        step_spec(s, r).0.regs[x as int] == nn,
        forall|j: int| 0 <= j < 16 && j != x ==> step_spec(s, r).0.regs[j] == s.regs[j],
{
    lemma_decoded_wf(fetched_word(s));
}

/// `7xnn` adds with 8-bit wrap-around and, unlike the ALU add, never
/// touches the flag register: for `x != 0xF`, VF keeps its value.
pub proof fn lemma_add_imm_wraps(s: State, r: u8, x: u8, nn: u8)
    requires
        wf_state(s),
        s.pc as int + 1 <= 4095,
        spec_decode(fetched_word(s)) == Some(Instr::AddImm { x, nn }),
    ensures
        step_spec(s, r).1 is None,
        step_spec(s, r).0.regs[x as int] == wrap_add8(s.regs[x as int], nn),
        step_spec(s, r).0.regs[x as int] == ((s.regs[x as int] + nn) % 256) as u8,
        x != 0xF ==> step_spec(s, r).0.regs[15] == s.regs[15],
{
    lemma_decoded_wf(fetched_word(s));
    let a = s.regs[x as int];
    assert(wrap_add8(a, nn) == ((a + nn) % 256) as u8) by {
        if a + nn >= 256 {
            assert((a + nn) % 256 == a + nn - 256) by (nonlinear_arith)
                requires
                    256 <= a + nn < 512,
            ;
        }
    }
}

/// The random opcode `Cxnn` masks with `nn`: whatever byte the generator
/// hands back, the stored value never exceeds `nn`.
pub proof fn lemma_random_masked(s: State, r: u8, x: u8, nn: u8)
    requires
        wf_state(s),
        s.pc as int + 1 <= 4095,
        spec_decode(fetched_word(s)) == Some(Instr::Random { x, nn }),
    ensures
        step_spec(s, r).1 is None,
        step_spec(s, r).0.regs[x as int] == r & nn,
        step_spec(s, r).0.regs[x as int] <= nn,
{
    lemma_decoded_wf(fetched_word(s));
    assert(r & nn <= nn) by (bit_vector);
}

/// The key-wait opcode `Fx0A`: with no key down the whole machine state is
/// unchanged after the cycle, so the instruction runs again next cycle;
/// with keys down, the lowest-indexed down key lands in `Vx` and the
/// program counter advances normally.
pub proof fn lemma_wait_key(s: State, r: u8, x: u8)
    requires
        wf_state(s),
        s.pc as int + 1 <= 4095,
        spec_decode(fetched_word(s)) == Some(Instr::WaitKey { x }),
    ensures
        step_spec(s, r).1 is None,
        first_key_down(s.keypad, 0) is None ==> step_spec(s, r).0 == s,
        first_key_down(s.keypad, 0) matches Some(k) ==> s.keypad[k] && (forall|j: int|
            0 <= j < k ==> !s.keypad[j]) && step_spec(s, r).0.pc == (s.pc + 2) as u16
            && step_spec(s, r).0.regs == s.regs.update(x as int, k as u8),
{
    lemma_decoded_wf(fetched_word(s));
    lemma_first_key_down_least(s.keypad, 0);
    if first_key_down(s.keypad, 0) is None {
        assert(step_spec(s, r).0 =~= s);
    }
}

/// The `Fx55`/`Fx65` round trip: registers stored to memory and then
/// loaded back from the same base address — even into a cleared register
/// file — reproduce the original values of `V0..Vx`.
pub proof fn lemma_store_load_roundtrip(
    mem: Seq<u8>,
    regs: Seq<u8>,
    other: Seq<u8>,
    base: int,
    x: int,
)
    requires
        mem.len() == 4096,
        regs.len() == 16,
        other.len() == 16,
        0 <= base,
        0 <= x < 16,
        base + x <= 4095,
    ensures
        forall|j: int|
            0 <= j <= x ==> load_regs_from_mem(other, store_regs_mem(mem, regs, base, x), base, x)[j]
                == regs[j],
        forall|j: int|
            x < j < 16 ==> load_regs_from_mem(other, store_regs_mem(mem, regs, base, x), base, x)[j]
                == other[j],
{
}

/// Where each pixel of a partly drawn sprite row comes from: a position
/// under the drawn, unclipped span of the row is XORed with its sprite
/// bit; every other position keeps its value.
pub proof fn lemma_draw_bits_pixels(
    disp: Seq<bool>,
    byte: u8,
    x0: int,
    yr: int,
    bits: int,
    p: int,
)
    requires
        disp.len() == 2048,
        0 <= x0 < 64,
        0 <= yr < 32,
        0 <= bits <= 8,
        0 <= p < 2048,
    ensures
        (yr * 64 + x0 <= p < yr * 64 + x0 + bits && p < yr * 64 + 64) ==> draw_bits(
            disp,
            byte,
            x0,
            yr,
            bits,
        ).0[p] == (disp[p] != bit_at(byte, p - (yr * 64 + x0))),
        !(yr * 64 + x0 <= p < yr * 64 + x0 + bits && p < yr * 64 + 64) ==> draw_bits(
            disp,
            byte,
            x0,
            yr,
            bits,
        ).0[p] == disp[p],
    decreases bits,
{
    if bits > 0 {
        lemma_draw_bits_pixels(disp, byte, x0, yr, bits - 1, p);
        lemma_draw_bits_len(disp, byte, x0, yr, bits - 1);
    }
}

/// Which rows collide: a partly drawn sprite row reports a collision
/// exactly when some drawn, unclipped sprite bit is on over a pixel that
/// was already set.
pub proof fn lemma_draw_bits_collision(disp: Seq<bool>, byte: u8, x0: int, yr: int, bits: int)
    requires
        disp.len() == 2048,
        0 <= x0 < 64,
        0 <= yr < 32,
        0 <= bits <= 8,
    ensures
        draw_bits(disp, byte, x0, yr, bits).1 == exists|k: int|
            0 <= k < bits && x0 + k < 64 && bit_at(byte, k) && disp[yr * 64 + x0 + k],
    decreases bits,
{
    if bits > 0 {
        lemma_draw_bits_collision(disp, byte, x0, yr, bits - 1);
        lemma_draw_bits_len(disp, byte, x0, yr, bits - 1);
        let j = bits - 1;
        let col = x0 + j;
        if col < 64 {
            lemma_draw_bits_pixels(disp, byte, x0, yr, bits - 1, yr * 64 + col);
        }
        if draw_bits(disp, byte, x0, yr, bits).1 {
            if draw_bits(disp, byte, x0, yr, bits - 1).1 {
                let k = choose|k: int|
                    0 <= k < bits - 1 && x0 + k < 64 && bit_at(byte, k) && disp[yr * 64 + x0 + k];
                assert(0 <= k < bits && x0 + k < 64 && bit_at(byte, k) && disp[yr * 64 + x0 + k]);
            } else {
                assert(col < 64 && bit_at(byte, j) && disp[yr * 64 + col]);
                assert(0 <= j < bits && x0 + j < 64 && bit_at(byte, j) && disp[yr * 64 + x0 + j]);
            }
        }
        if exists|k: int| 0 <= k < bits && x0 + k < 64 && bit_at(byte, k) && disp[yr * 64 + x0
            + k] {
            let k = choose|k: int|
                0 <= k < bits && x0 + k < 64 && bit_at(byte, k) && disp[yr * 64 + x0 + k];
            if k < bits - 1 {
                assert(draw_bits(disp, byte, x0, yr, bits - 1).1);
            } else {
                assert(k == j && col < 64);
                assert(draw_bits(disp, byte, x0, yr, bits).1);
            }
        }
    }
}

/// The draw collision law for one sprite row: drawing the same row twice
/// at the same coordinates restores every pixel, and the second draw
/// reports a collision exactly when some drawn sprite bit had turned a
/// pixel on the first time — in particular, over an empty row a visible
/// sprite always collides with its own first image.
pub proof fn lemma_draw_row_twice(disp: Seq<bool>, byte: u8, x0: int, yr: int)
    requires
        disp.len() == 2048,
        0 <= x0 < 64,
        0 <= yr < 32,
    ensures
        draw_bits(draw_bits(disp, byte, x0, yr, 8).0, byte, x0, yr, 8).0 == disp,
        draw_bits(draw_bits(disp, byte, x0, yr, 8).0, byte, x0, yr, 8).1 == exists|k: int|
            0 <= k < 8 && x0 + k < 64 && bit_at(byte, k) && !disp[yr * 64 + x0 + k],
{
    let d1 = draw_bits(disp, byte, x0, yr, 8).0;
    lemma_draw_bits_len(disp, byte, x0, yr, 8);
    lemma_draw_bits_len(d1, byte, x0, yr, 8);
    assert forall|p: int| 0 <= p < 2048 implies draw_bits(d1, byte, x0, yr, 8).0[p] == disp[p] by {
        lemma_draw_bits_pixels(disp, byte, x0, yr, 8, p);
        lemma_draw_bits_pixels(d1, byte, x0, yr, 8, p);
    }
    assert(draw_bits(d1, byte, x0, yr, 8).0 =~= disp);
    lemma_draw_bits_collision(d1, byte, x0, yr, 8);
    assert forall|k: int|
        0 <= k < 8 && x0 + k < 64 implies d1[yr * 64 + x0 + k] == !disp[yr * 64 + x0 + k]
        || !bit_at(byte, k) by {
        lemma_draw_bits_pixels(disp, byte, x0, yr, 8, yr * 64 + x0 + k);
    }
    if draw_bits(d1, byte, x0, yr, 8).1 {
        let k = choose|k: int|
            0 <= k < 8 && x0 + k < 64 && bit_at(byte, k) && d1[yr * 64 + x0 + k];
        assert(0 <= k < 8 && x0 + k < 64 && bit_at(byte, k) && !disp[yr * 64 + x0 + k]);
    }
    if exists|k: int| 0 <= k < 8 && x0 + k < 64 && bit_at(byte, k) && !disp[yr * 64 + x0 + k] {
        let k = choose|k: int|
            0 <= k < 8 && x0 + k < 64 && bit_at(byte, k) && !disp[yr * 64 + x0 + k];
        assert(0 <= k < 8 && x0 + k < 64 && bit_at(byte, k) && d1[yr * 64 + x0 + k]);
    }
}

/// The draw collision law at the opcode level: a `Dxy1` sprite drawn
/// twice at the same coordinates over clear pixels turns its pixels on
/// and off again, and the second draw sets VF because previously-set
/// pixels were turned off. `x0`, `y0` and `byte` name the drawing
/// position and the sprite row the two cycles use.
pub proof fn lemma_draw_opcode_twice(
    s: State,
    r1: u8,
    r2: u8,
    x: u8,
    y: u8,
    x0: int,
    y0: int,
    byte: u8,
)
    requires
        wf_state(s),
        s.pc as int + 3 <= 4095,
        spec_decode(fetched_word(s)) == Some(Instr::Draw { x, y, n: 1 }),
        spec_decode(fetched_word(with_pc(s, (s.pc + 2) as u16))) == Some(
            Instr::Draw { x, y, n: 1 },
        ),
        x != 15,
        y != 15,
        s.index < 4096,
        x0 == (s.regs[x as int] as int) % 64,
        y0 == (s.regs[y as int] as int) % 32,
        byte == s.memory[s.index as int],
        exists|k: int| 0 <= k < 8 && x0 + k < 64 && bit_at(byte, k),
        forall|k: int|
            0 <= k < 8 && x0 + k < 64 && bit_at(byte, k) ==> !s.display[y0 * 64 + x0 + k],
    ensures
        step_spec(s, r1).1 is None,
        step_spec(step_spec(s, r1).0, r2).1 is None,
        step_spec(step_spec(s, r1).0, r2).0.display == s.display,
        step_spec(step_spec(s, r1).0, r2).0.regs[15] == 1,
{
    lemma_decoded_wf(fetched_word(s));
    let base = s.index as int;
    assert(draw_sprite(s.display, s.memory, base, x0, y0, 0) == (s.display, false));
    assert(draw_sprite(s.display, s.memory, base, x0, y0, 1) == draw_bits(
        s.display,
        byte,
        x0,
        y0,
        8,
    ));
    let row1 = draw_bits(s.display, byte, x0, y0, 8);
    let s1 = step_spec(s, r1).0;
    assert(step_spec(s, r1).1 is None);
    assert(s1.display == row1.0);
    assert(s1.memory == s.memory && s1.index == s.index && s1.pc == (s.pc + 2) as u16);
    assert(s1.regs[x as int] == s.regs[x as int] && s1.regs[y as int] == s.regs[y as int]);
    lemma_draw_bits_len(s.display, byte, x0, y0, 8);
    assert(wf_state(s1));
    assert(fetched_word(s1) == fetched_word(with_pc(s, (s.pc + 2) as u16)));
    assert(draw_sprite(s1.display, s1.memory, base, x0, y0, 0) == (s1.display, false));
    assert(draw_sprite(s1.display, s1.memory, base, x0, y0, 1) == draw_bits(
        s1.display,
        byte,
        x0,
        y0,
        8,
    ));
    lemma_draw_row_twice(s.display, byte, x0, y0);
    let k0 = choose|k: int| 0 <= k < 8 && x0 + k < 64 && bit_at(byte, k);
    assert(!s.display[y0 * 64 + x0 + k0]);
    assert(exists|k: int|
        0 <= k < 8 && x0 + k < 64 && bit_at(byte, k) && !s.display[y0 * 64 + x0 + k]);
    assert(draw_bits(s1.display, byte, x0, y0, 8).1);
    assert(step_spec(s1, r2).1 is None);
    assert(step_spec(s1, r2).0.display == s.display);
    assert(step_spec(s1, r2).0.regs == s1.regs.update(15, 1u8));
}

/// `2nnn` then `00EE`: a call followed by a return lands on the
/// instruction just after the call, with the call stack as it was.
pub proof fn lemma_call_return(s: State, r1: u8, r2: u8, nnn: u16)
    requires
        wf_state(s),
        s.pc as int + 1 <= 4095,
        spec_decode(fetched_word(s)) == Some(Instr::Call { nnn }),
        nnn as int + 1 <= 4095,
        spec_decode(
            ((s.memory[nnn as int] as u16) << 8u16) | (s.memory[nnn as int + 1] as u16),
        ) == Some(Instr::Return),
    ensures
        step_spec(s, r1).1 is None,
        step_spec(step_spec(s, r1).0, r2).1 is None,
        step_spec(step_spec(s, r1).0, r2).0.pc == (s.pc + 2) as u16,
        step_spec(step_spec(s, r1).0, r2).0.stack == s.stack,
{
    let s1 = step_spec(s, r1).0;
    assert(s1.pc == nnn);
    assert(s1.stack == s.stack.push((s.pc + 2) as u16));
    assert(s1.memory == s.memory);
    assert(fetched_word(s1) == ((s.memory[nnn as int] as u16) << 8u16) | (s.memory[nnn as int
        + 1] as u16));
    assert(s1.stack.len() == s.stack.len() + 1);
    let s2 = step_spec(s1, r2).0;
    assert(s2.pc == s1.stack.last());
    assert(s1.stack.last() == (s.pc + 2) as u16);
    assert(s2.stack =~= s.stack);
}

} // verus!
