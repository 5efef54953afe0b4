//! Instruction decoding: from a 16-bit word to a tagged instruction and back.

use vstd::prelude::*;

verus! {

/// One decoded CHIP-8 instruction. Register indices `x` and `y` are the
/// second and third nibbles of the word, `n` the lowest nibble, `nn` the low
/// byte and `nnn` the low twelve bits.
#[derive(Clone, Copy, Debug, PartialEq, Eq, Structural)]
pub enum Instr {
    /// `00E0`: clear the framebuffer.
    ClearScreen,
    /// `00EE`: return from a subroutine.
    Return,
    /// `1nnn`: jump to `nnn`.
    Jump { nnn: u16 },
    /// `2nnn`: call the subroutine at `nnn`.
    Call { nnn: u16 },
    /// `3xnn`: skip the next instruction if `Vx == nn`.
    SkipEqImm { x: u8, nn: u8 },
    /// `4xnn`: skip the next instruction if `Vx != nn`.
    SkipNeImm { x: u8, nn: u8 },
    /// `5xy0`: skip the next instruction if `Vx == Vy`.
    SkipEqReg { x: u8, y: u8 },
    /// `6xnn`: set `Vx := nn`.
    SetImm { x: u8, nn: u8 },
    /// `7xnn`: set `Vx := Vx + nn`, wrapping, VF untouched.
    AddImm { x: u8, nn: u8 },
    /// `8xy0`: set `Vx := Vy`.
    Assign { x: u8, y: u8 },
    /// `8xy1`: set `Vx := Vx | Vy`.
    Or { x: u8, y: u8 },
    /// `8xy2`: set `Vx := Vx & Vy`.
    And { x: u8, y: u8 },
    /// `8xy3`: set `Vx := Vx ^ Vy`.
    Xor { x: u8, y: u8 },
    /// `8xy4`: set `Vx := Vx + Vy`, wrapping, carry into VF.
    AddReg { x: u8, y: u8 },
    /// `8xy5`: set `Vx := Vx - Vy`, wrapping, not-borrow into VF.
    SubXY { x: u8, y: u8 },
    /// `8xy6`: copy `Vy` into `Vx`, shift right, old bit 0 into VF.
    ShiftRight { x: u8, y: u8 },
    /// `8xy7`: set `Vx := Vy - Vx`, wrapping, not-borrow into VF.
    SubYX { x: u8, y: u8 },
    /// `8xyE`: copy `Vy` into `Vx`, shift left, old bit 7 into VF.
    ShiftLeft { x: u8, y: u8 },
    /// `9xy0`: skip the next instruction if `Vx != Vy`.
    SkipNeReg { x: u8, y: u8 },
    /// `Annn`: set the index register to `nnn`.
    SetIndex { nnn: u16 },
    /// `Bxnn`: jump to `nnn + Vx` (modern variant).
    JumpOffset { x: u8, nnn: u16 },
    /// `Cxnn`: set `Vx :=` a random byte AND `nn`.
    Random { x: u8, nn: u8 },
    /// `Dxyn`: draw an `n`-row sprite at `(Vx mod 64, Vy mod 32)`.
    Draw { x: u8, y: u8, n: u8 },
    /// `Ex9E`: skip the next instruction if the key named by the low
    /// nibble of `Vx` is down.
    SkipKeyDown { x: u8 },
    /// `ExA1`: skip the next instruction if the key named by the low
    /// nibble of `Vx` is up.
    SkipKeyUp { x: u8 },
    /// `Fx07`: set `Vx :=` the delay timer.
    ReadDelay { x: u8 },
    /// `Fx0A`: wait for a key press, store the lowest down key in `Vx`.
    WaitKey { x: u8 },
    /// `Fx15`: set the delay timer to `Vx`.
    SetDelay { x: u8 },
    /// `Fx18`: set the sound timer to `Vx`.
    SetSound { x: u8 },
    /// `Fx1E`: add `Vx` to the index register, VF set on 12-bit overflow.
    AddIndex { x: u8 },
    /// `Fx29`: point the index register at the font glyph for `Vx`'s low nibble.
    FontChar { x: u8 },
    /// `Fx33`: store the decimal digits of `Vx` at the index register.
    StoreBcd { x: u8 },
    /// `Fx55`: store `V0..Vx` inclusive to memory at the index register.
    StoreRegs { x: u8 },
    /// `Fx65`: load `V0..Vx` inclusive from memory at the index register.
    LoadRegs { x: u8 },
}

/// The instruction denoted by the word `w`, or `None` for a nibble pattern
/// that maps to no documented opcode.
pub open spec fn spec_decode(w: u16) -> Option<Instr> {
    let n1 = (w >> 12u16) & 0xF;
    let x = ((w >> 8u16) & 0xF) as u8;
    let y = ((w >> 4u16) & 0xF) as u8;
    let n = (w & 0xF) as u8;
    let nn = (w & 0xFF) as u8;
    let nnn = w & 0xFFF;
    if n1 == 0x0 {
        if w == 0x00E0 {
            Some(Instr::ClearScreen)
        } else if w == 0x00EE {
            Some(Instr::Return)
        } else {
            None
        }
    } else if n1 == 0x1 {
        Some(Instr::Jump { nnn })
    } else if n1 == 0x2 {
        Some(Instr::Call { nnn })
    } else if n1 == 0x3 {
        Some(Instr::SkipEqImm { x, nn })
    } else if n1 == 0x4 {
        Some(Instr::SkipNeImm { x, nn })
    } else if n1 == 0x5 {
        if n == 0x0 {
            Some(Instr::SkipEqReg { x, y })
        } else {
            None
        }
    } else if n1 == 0x6 {
        Some(Instr::SetImm { x, nn })
    } else if n1 == 0x7 {
        Some(Instr::AddImm { x, nn })
    } else if n1 == 0x8 {
        if n == 0x0 {
            Some(Instr::Assign { x, y })
        } else if n == 0x1 {
            Some(Instr::Or { x, y })
        } else if n == 0x2 {
            Some(Instr::And { x, y })
        } else if n == 0x3 {
            Some(Instr::Xor { x, y })
        } else if n == 0x4 {
            Some(Instr::AddReg { x, y })
        } else if n == 0x5 {
            Some(Instr::SubXY { x, y })
        } else if n == 0x6 {
            Some(Instr::ShiftRight { x, y })
        } else if n == 0x7 {
            Some(Instr::SubYX { x, y })
        } else if n == 0xE {
            Some(Instr::ShiftLeft { x, y })
        } else {
            None
        }
    } else if n1 == 0x9 {
        if n == 0x0 {
            Some(Instr::SkipNeReg { x, y })
        } else {
            None
        }
    } else if n1 == 0xA {
        Some(Instr::SetIndex { nnn })
    } else if n1 == 0xB {
        Some(Instr::JumpOffset { x, nnn })
    } else if n1 == 0xC {
        Some(Instr::Random { x, nn })
    } else if n1 == 0xD {
        Some(Instr::Draw { x, y, n })
    } else if n1 == 0xE {
        if nn == 0x9E {
            Some(Instr::SkipKeyDown { x })
        } else if nn == 0xA1 {
            Some(Instr::SkipKeyUp { x })
        } else {
            None
        }
    } else {
        if nn == 0x07 {
            Some(Instr::ReadDelay { x })
        } else if nn == 0x0A {
            Some(Instr::WaitKey { x })
        } else if nn == 0x15 {
            Some(Instr::SetDelay { x })
        } else if nn == 0x18 {
            Some(Instr::SetSound { x })
        } else if nn == 0x1E {
            Some(Instr::AddIndex { x })
        } else if nn == 0x29 {
            Some(Instr::FontChar { x })
        } else if nn == 0x33 {
            Some(Instr::StoreBcd { x })
        } else if nn == 0x55 {
            Some(Instr::StoreRegs { x })
        } else if nn == 0x65 {
            Some(Instr::LoadRegs { x })
        } else {
            None
        }
    }
}

/// The word that denotes the instruction `i`.
pub open spec fn spec_encode(i: Instr) -> u16 {
    match i {
        Instr::ClearScreen => 0x00E0,
        Instr::Return => 0x00EE,
        Instr::Jump { nnn } => 0x1000 | nnn,
        Instr::Call { nnn } => 0x2000 | nnn,
        Instr::SkipEqImm { x, nn } => 0x3000 | (((x as u16) << 8u16) | (nn as u16)),
        Instr::SkipNeImm { x, nn } => 0x4000 | (((x as u16) << 8u16) | (nn as u16)),
        Instr::SkipEqReg { x, y } => 0x5000 | (((x as u16) << 8u16) | ((y as u16) << 4u16)),
        Instr::SetImm { x, nn } => 0x6000 | (((x as u16) << 8u16) | (nn as u16)),
        Instr::AddImm { x, nn } => 0x7000 | (((x as u16) << 8u16) | (nn as u16)),
        Instr::Assign { x, y } => 0x8000 | (((x as u16) << 8u16) | ((y as u16) << 4u16)),
        Instr::Or { x, y } => 0x8001 | (((x as u16) << 8u16) | ((y as u16) << 4u16)),
        Instr::And { x, y } => 0x8002 | (((x as u16) << 8u16) | ((y as u16) << 4u16)),
        Instr::Xor { x, y } => 0x8003 | (((x as u16) << 8u16) | ((y as u16) << 4u16)),
        Instr::AddReg { x, y } => 0x8004 | (((x as u16) << 8u16) | ((y as u16) << 4u16)),
        Instr::SubXY { x, y } => 0x8005 | (((x as u16) << 8u16) | ((y as u16) << 4u16)),
        Instr::ShiftRight { x, y } => 0x8006 | (((x as u16) << 8u16) | ((y as u16) << 4u16)),
        Instr::SubYX { x, y } => 0x8007 | (((x as u16) << 8u16) | ((y as u16) << 4u16)),
        Instr::ShiftLeft { x, y } => 0x800E | (((x as u16) << 8u16) | ((y as u16) << 4u16)),
        Instr::SkipNeReg { x, y } => 0x9000 | (((x as u16) << 8u16) | ((y as u16) << 4u16)),
        Instr::SetIndex { nnn } => 0xA000 | nnn,
        Instr::JumpOffset { x, nnn } => 0xB000 | nnn,
        Instr::Random { x, nn } => 0xC000 | (((x as u16) << 8u16) | (nn as u16)),
        Instr::Draw { x, y, n } => 0xD000 | (((x as u16) << 8u16) | (((y as u16) << 4u16) | (n as u16))),
        Instr::SkipKeyDown { x } => 0xE09E | ((x as u16) << 8u16),
        Instr::SkipKeyUp { x } => 0xE0A1 | ((x as u16) << 8u16),
        Instr::ReadDelay { x } => 0xF007 | ((x as u16) << 8u16),
        Instr::WaitKey { x } => 0xF00A | ((x as u16) << 8u16),
        Instr::SetDelay { x } => 0xF015 | ((x as u16) << 8u16),
        Instr::SetSound { x } => 0xF018 | ((x as u16) << 8u16),
        Instr::AddIndex { x } => 0xF01E | ((x as u16) << 8u16),
        Instr::FontChar { x } => 0xF029 | ((x as u16) << 8u16),
        Instr::StoreBcd { x } => 0xF033 | ((x as u16) << 8u16),
        Instr::StoreRegs { x } => 0xF055 | ((x as u16) << 8u16),
        Instr::LoadRegs { x } => 0xF065 | ((x as u16) << 8u16),
    }
}

/// Split a word into an instruction, exactly as [`spec_decode`] does.
pub fn decode(w: u16) -> (r: Option<Instr>)
    ensures
        r == spec_decode(w),
{
    proof {
        assert((w >> 12u16) & 0xF < 16 && (w >> 8u16) & 0xF < 16 && (w >> 4u16) & 0xF < 16 && (w
            & 0xF) < 16 && (w & 0xFF) < 256) by (bit_vector);
    }
    let n1 = ((w >> 12u16) & 0xF) as u8;
    let x = ((w >> 8u16) & 0xF) as u8;
    let y = ((w >> 4u16) & 0xF) as u8;
    let n = (w & 0xF) as u8;
    let nn = (w & 0xFF) as u8;
    let nnn = w & 0xFFF;
    if n1 == 0x0 {
        if w == 0x00E0 {
            Some(Instr::ClearScreen)
        } else if w == 0x00EE {
            Some(Instr::Return)
        } else {
            None
        }
    } else if n1 == 0x1 {
        Some(Instr::Jump { nnn })
    } else if n1 == 0x2 {
        Some(Instr::Call { nnn })
    } else if n1 == 0x3 {
        Some(Instr::SkipEqImm { x, nn })
    } else if n1 == 0x4 {
        Some(Instr::SkipNeImm { x, nn })
    } else if n1 == 0x5 {
        if n == 0x0 {
            Some(Instr::SkipEqReg { x, y })
        } else {
            None
        }
    } else if n1 == 0x6 {
        Some(Instr::SetImm { x, nn })
    } else if n1 == 0x7 {
        Some(Instr::AddImm { x, nn })
    } else if n1 == 0x8 {
        if n == 0x0 {
            Some(Instr::Assign { x, y })
        } else if n == 0x1 {
            Some(Instr::Or { x, y })
        } else if n == 0x2 {
            Some(Instr::And { x, y })
        } else if n == 0x3 {
            Some(Instr::Xor { x, y })
        } else if n == 0x4 {
            Some(Instr::AddReg { x, y })
        } else if n == 0x5 {
            Some(Instr::SubXY { x, y })
        } else if n == 0x6 {
            Some(Instr::ShiftRight { x, y })
        } else if n == 0x7 {
            Some(Instr::SubYX { x, y })
        } else if n == 0xE {
            Some(Instr::ShiftLeft { x, y })
        } else {
            None
        }
    } else if n1 == 0x9 {
        if n == 0x0 {
            Some(Instr::SkipNeReg { x, y })
        } else {
            None
        }
    } else if n1 == 0xA {
        Some(Instr::SetIndex { nnn })
    } else if n1 == 0xB {
        Some(Instr::JumpOffset { x, nnn })
    } else if n1 == 0xC {
        Some(Instr::Random { x, nn })
    } else if n1 == 0xD {
        Some(Instr::Draw { x, y, n })
    } else if n1 == 0xE {
        if nn == 0x9E {
            Some(Instr::SkipKeyDown { x })
        } else if nn == 0xA1 {
            Some(Instr::SkipKeyUp { x })
        } else {
            None
        }
    } else {
        if nn == 0x07 {
            Some(Instr::ReadDelay { x })
        } else if nn == 0x0A {
            Some(Instr::WaitKey { x })
        } else if nn == 0x15 {
            Some(Instr::SetDelay { x })
        } else if nn == 0x18 {
            Some(Instr::SetSound { x })
        } else if nn == 0x1E {
            Some(Instr::AddIndex { x })
        } else if nn == 0x29 {
            Some(Instr::FontChar { x })
        } else if nn == 0x33 {
            Some(Instr::StoreBcd { x })
        } else if nn == 0x55 {
            Some(Instr::StoreRegs { x })
        } else if nn == 0x65 {
            Some(Instr::LoadRegs { x })
        } else {
            None
        }
    }
}

/// Reassemble the word for an instruction, exactly as [`spec_encode`] does.
pub fn encode(i: Instr) -> (w: u16)
    ensures
        w == spec_encode(i),
{
    match i {
        Instr::ClearScreen => 0x00E0,
        Instr::Return => 0x00EE,
        Instr::Jump { nnn } => 0x1000 | nnn,
        Instr::Call { nnn } => 0x2000 | nnn,
        Instr::SkipEqImm { x, nn } => 0x3000 | (((x as u16) << 8u16) | (nn as u16)),
        Instr::SkipNeImm { x, nn } => 0x4000 | (((x as u16) << 8u16) | (nn as u16)),
        Instr::SkipEqReg { x, y } => 0x5000 | (((x as u16) << 8u16) | ((y as u16) << 4u16)),
        Instr::SetImm { x, nn } => 0x6000 | (((x as u16) << 8u16) | (nn as u16)),
        Instr::AddImm { x, nn } => 0x7000 | (((x as u16) << 8u16) | (nn as u16)),
        Instr::Assign { x, y } => 0x8000 | (((x as u16) << 8u16) | ((y as u16) << 4u16)),
        Instr::Or { x, y } => 0x8001 | (((x as u16) << 8u16) | ((y as u16) << 4u16)),
        Instr::And { x, y } => 0x8002 | (((x as u16) << 8u16) | ((y as u16) << 4u16)),
        Instr::Xor { x, y } => 0x8003 | (((x as u16) << 8u16) | ((y as u16) << 4u16)),
        Instr::AddReg { x, y } => 0x8004 | (((x as u16) << 8u16) | ((y as u16) << 4u16)),
        Instr::SubXY { x, y } => 0x8005 | (((x as u16) << 8u16) | ((y as u16) << 4u16)),
        Instr::ShiftRight { x, y } => 0x8006 | (((x as u16) << 8u16) | ((y as u16) << 4u16)),
        Instr::SubYX { x, y } => 0x8007 | (((x as u16) << 8u16) | ((y as u16) << 4u16)),
        Instr::ShiftLeft { x, y } => 0x800E | (((x as u16) << 8u16) | ((y as u16) << 4u16)),
        Instr::SkipNeReg { x, y } => 0x9000 | (((x as u16) << 8u16) | ((y as u16) << 4u16)),
        Instr::SetIndex { nnn } => 0xA000 | nnn,
        Instr::JumpOffset { x, nnn } => 0xB000 | nnn,
        Instr::Random { x, nn } => 0xC000 | (((x as u16) << 8u16) | (nn as u16)),
        Instr::Draw { x, y, n } => 0xD000 | (((x as u16) << 8u16) | (((y as u16) << 4u16) | (n as u16))),
        Instr::SkipKeyDown { x } => 0xE09E | ((x as u16) << 8u16),
        Instr::SkipKeyUp { x } => 0xE0A1 | ((x as u16) << 8u16),
        Instr::ReadDelay { x } => 0xF007 | ((x as u16) << 8u16),
        Instr::WaitKey { x } => 0xF00A | ((x as u16) << 8u16),
        Instr::SetDelay { x } => 0xF015 | ((x as u16) << 8u16),
        Instr::SetSound { x } => 0xF018 | ((x as u16) << 8u16),
        Instr::AddIndex { x } => 0xF01E | ((x as u16) << 8u16),
        Instr::FontChar { x } => 0xF029 | ((x as u16) << 8u16),
        Instr::StoreBcd { x } => 0xF033 | ((x as u16) << 8u16),
        Instr::StoreRegs { x } => 0xF055 | ((x as u16) << 8u16),
        Instr::LoadRegs { x } => 0xF065 | ((x as u16) << 8u16),
    }
}

/// Decoding is injective on words: re-encoding a decoded instruction
/// reconstructs the original instruction word.
pub proof fn lemma_decode_encode(w: u16)
    ensures
        spec_decode(w) matches Some(i) ==> spec_encode(i) == w,
{
    let n1 = (w >> 12u16) & 0xF;
    let x = ((w >> 8u16) & 0xF) as u8;
    let y = ((w >> 4u16) & 0xF) as u8;
    let n = (w & 0xF) as u8;
    let nn = (w & 0xFF) as u8;
    let nnn = w & 0xFFF;
    assert((w >> 12u16) & 0xF == 0x1 ==> 0x1000u16 | (w & 0xFFF) == w) by (bit_vector);
    assert((w >> 12u16) & 0xF == 0x2 ==> 0x2000u16 | (w & 0xFFF) == w) by (bit_vector);
    assert((w >> 12u16) & 0xF == 0x3 ==> 0x3000u16 | (((((w >> 8u16) & 0xF) as u8 as u16) << 8u16)
        | ((w & 0xFF) as u8 as u16)) == w) by (bit_vector);
    assert((w >> 12u16) & 0xF == 0x4 ==> 0x4000u16 | (((((w >> 8u16) & 0xF) as u8 as u16) << 8u16)
        | ((w & 0xFF) as u8 as u16)) == w) by (bit_vector);
    assert((w >> 12u16) & 0xF == 0x5 && (w & 0xF) as u8 == 0x0 ==> 0x5000u16 | (((((w >> 8u16)
        & 0xF) as u8 as u16) << 8u16) | ((((w >> 4u16) & 0xF) as u8 as u16) << 4u16)) == w)
        by (bit_vector);
    assert((w >> 12u16) & 0xF == 0x6 ==> 0x6000u16 | (((((w >> 8u16) & 0xF) as u8 as u16) << 8u16)
        | ((w & 0xFF) as u8 as u16)) == w) by (bit_vector);
    assert((w >> 12u16) & 0xF == 0x7 ==> 0x7000u16 | (((((w >> 8u16) & 0xF) as u8 as u16) << 8u16)
        | ((w & 0xFF) as u8 as u16)) == w) by (bit_vector);
    assert((w >> 12u16) & 0xF == 0x8 ==> (0x8000u16 | ((w & 0xF) as u8 as u16)) | (((((w >> 8u16)
        & 0xF) as u8 as u16) << 8u16) | ((((w >> 4u16) & 0xF) as u8 as u16) << 4u16)) == w)
        by (bit_vector);
    if n1 == 0x8 {
        let base = (0x8000u16 | (n as u16)) | (((x as u16) << 8u16) | ((y as u16) << 4u16));
        assert(base == w);
        if n == 0x0 {
            assert(0x8000u16 | 0u16 == 0x8000u16) by (bit_vector);
        } else if n == 0x1 {
            assert(0x8000u16 | 1u16 == 0x8001u16) by (bit_vector);
        } else if n == 0x2 {
            assert(0x8000u16 | 2u16 == 0x8002u16) by (bit_vector);
        } else if n == 0x3 {
            assert(0x8000u16 | 3u16 == 0x8003u16) by (bit_vector);
        } else if n == 0x4 {
            assert(0x8000u16 | 4u16 == 0x8004u16) by (bit_vector);
        } else if n == 0x5 {
            assert(0x8000u16 | 5u16 == 0x8005u16) by (bit_vector);
        } else if n == 0x6 {
            assert(0x8000u16 | 6u16 == 0x8006u16) by (bit_vector);
        } else if n == 0x7 {
            assert(0x8000u16 | 7u16 == 0x8007u16) by (bit_vector);
        } else if n == 0xE {
            assert(0x8000u16 | 0xEu16 == 0x800Eu16) by (bit_vector);
        }
    }
    assert((w >> 12u16) & 0xF == 0x9 && (w & 0xF) as u8 == 0x0 ==> 0x9000u16 | (((((w >> 8u16)
        & 0xF) as u8 as u16) << 8u16) | ((((w >> 4u16) & 0xF) as u8 as u16) << 4u16)) == w)
        by (bit_vector);
    assert((w >> 12u16) & 0xF == 0xA ==> 0xA000u16 | (w & 0xFFF) == w) by (bit_vector);
    assert((w >> 12u16) & 0xF == 0xB ==> 0xB000u16 | (w & 0xFFF) == w) by (bit_vector);
    assert((w >> 12u16) & 0xF == 0xC ==> 0xC000u16 | (((((w >> 8u16) & 0xF) as u8 as u16) << 8u16)
        | ((w & 0xFF) as u8 as u16)) == w) by (bit_vector);
    assert((w >> 12u16) & 0xF == 0xD ==> 0xD000u16 | (((((w >> 8u16) & 0xF) as u8 as u16) << 8u16)
        | ((((((w >> 4u16) & 0xF) as u8 as u16) << 4u16) | ((w & 0xF) as u8 as u16)))) == w)
        by (bit_vector);
    assert((w >> 12u16) & 0xF == 0xE && (w & 0xFF) as u8 == 0x9E ==> 0xE09Eu16 | ((((w >> 8u16)
        & 0xF) as u8 as u16) << 8u16) == w) by (bit_vector);
    assert((w >> 12u16) & 0xF == 0xE && (w & 0xFF) as u8 == 0xA1 ==> 0xE0A1u16 | ((((w >> 8u16)
        & 0xF) as u8 as u16) << 8u16) == w) by (bit_vector);
    assert(((w >> 12u16) & 0xF == 0xF && (w & 0xFF) as u8 == 0x07 ==> 0xF007u16 | ((((w >> 8u16)
        & 0xF) as u8 as u16) << 8u16) == w) && ((w >> 12u16) & 0xF == 0xF && (w & 0xFF) as u8
        == 0x0A ==> 0xF00Au16 | ((((w >> 8u16) & 0xF) as u8 as u16) << 8u16) == w) && ((w
        >> 12u16) & 0xF == 0xF && (w & 0xFF) as u8 == 0x15 ==> 0xF015u16 | ((((w >> 8u16)
        & 0xF) as u8 as u16) << 8u16) == w)) by (bit_vector);
    assert(((w >> 12u16) & 0xF == 0xF && (w & 0xFF) as u8 == 0x18 ==> 0xF018u16 | ((((w >> 8u16)
        & 0xF) as u8 as u16) << 8u16) == w) && ((w >> 12u16) & 0xF == 0xF && (w & 0xFF) as u8
        == 0x1E ==> 0xF01Eu16 | ((((w >> 8u16) & 0xF) as u8 as u16) << 8u16) == w) && ((w
        >> 12u16) & 0xF == 0xF && (w & 0xFF) as u8 == 0x29 ==> 0xF029u16 | ((((w >> 8u16)
        & 0xF) as u8 as u16) << 8u16) == w)) by (bit_vector);
    assert(((w >> 12u16) & 0xF == 0xF && (w & 0xFF) as u8 == 0x33 ==> 0xF033u16 | ((((w >> 8u16)
        & 0xF) as u8 as u16) << 8u16) == w) && ((w >> 12u16) & 0xF == 0xF && (w & 0xFF) as u8
        == 0x55 ==> 0xF055u16 | ((((w >> 8u16) & 0xF) as u8 as u16) << 8u16) == w) && ((w
        >> 12u16) & 0xF == 0xF && (w & 0xFF) as u8 == 0x65 ==> 0xF065u16 | ((((w >> 8u16)
        & 0xF) as u8 as u16) << 8u16) == w)) by (bit_vector);
    assert((w >> 12u16) & 0xF < 16 && (w >> 8u16) & 0xF < 16 && (w >> 4u16) & 0xF < 16 && (w
        & 0xF) < 16 && (w & 0xFF) < 256) by (bit_vector);
}

} // verus!
