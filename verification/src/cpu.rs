//! The executable CHIP-8 interpreter, verified against the model in
//! [`crate::semantics`].

use vstd::prelude::*;

use crate::decode::decode;
use crate::rng::random_byte;
use crate::decode::Instr;
use crate::semantics::{
    Chip8Error, State, draw_bits, draw_sprite, draw_step, fetched_word, first_key_down,
    initial_state, instr_wf, lemma_decoded_wf, load_regs_from_mem, load_step, step_instr,
    step_result, step_spec, store_regs_mem, store_step, tick_timers_spec, wf_state, with_pc,
};

verus! {

/// The CHIP-8 machine: memory, registers, call stack, timers, framebuffer
/// and keypad. The ghost view of a machine is a [`State`]; every method's
/// contract speaks of that view.
pub struct Chip8 {
    /// 4096 addressable bytes.
    pub memory: Vec<u8>,
    /// Program counter.
    pub pc: u16,
    /// Index register.
    pub index_reg: u16,
    /// The sixteen variable registers V0..VF.
    pub var_regs: Vec<u8>,
    /// Call stack of return addresses.
    pub stack: Vec<u16>,
    /// Delay timer.
    pub delay_timer: u8,
    /// Sound timer.
    pub sound_timer: u8,
    /// 64x32 framebuffer, row-major.
    pub display: Vec<bool>,
    /// Sixteen "key down" flags, written by the host between cycles.
    pub keypad: Vec<bool>,
}

impl View for Chip8 {
    type V = State;

    open spec fn view(&self) -> State {
        State {
            memory: self.memory@,
            pc: self.pc,
            index: self.index_reg,
            regs: self.var_regs@,
            stack: self.stack@,
            delay: self.delay_timer,
            sound: self.sound_timer,
            display: self.display@,
            keypad: self.keypad@,
        }
    }
}

/// The 80-byte font table: glyphs for the sixteen hexadecimal digits,
/// five bytes each, four pixels wide.
pub open spec fn font_seq() -> Seq<u8> {
    seq![
        0xF0u8, 0x90, 0x90, 0x90, 0xF0,  // 0
        0x20, 0x60, 0x20, 0x20, 0x70,  // 1
        0xF0, 0x10, 0xF0, 0x80, 0xF0,  // 2
        0xF0, 0x10, 0xF0, 0x10, 0xF0,  // 3
        0x90, 0x90, 0xF0, 0x10, 0x10,  // 4
        0xF0, 0x80, 0xF0, 0x10, 0xF0,  // 5
        0xF0, 0x80, 0xF0, 0x90, 0xF0,  // 6
        0xF0, 0x10, 0x20, 0x40, 0x40,  // 7
        0xF0, 0x90, 0xF0, 0x90, 0xF0,  // 8
        0xF0, 0x90, 0xF0, 0x10, 0xF0,  // 9
        0xF0, 0x90, 0xF0, 0x90, 0x90,  // A
        0xE0, 0x90, 0xE0, 0x90, 0xE0,  // B
        0xF0, 0x80, 0x80, 0x80, 0xF0,  // C
        0xE0, 0x90, 0x90, 0x90, 0xE0,  // D
        0xF0, 0x80, 0xF0, 0x80, 0xF0,  // E
        0xF0, 0x80, 0xF0, 0x80, 0x80,  // F
    ]
}

/// Memory with the font table written at 0x50..0xA0 and the rest kept.
pub open spec fn load_font_mem(mem: Seq<u8>) -> Seq<u8> {
    Seq::new(
        mem.len(),
        |j: int|
            if 0x50 <= j < 0xA0 {
                font_seq()[j - 0x50]
            } else {
                mem[j]
            },
    )
}

/// Memory with the ROM image written at 0x200 on and the rest kept; bytes
/// that would land past the end of memory are dropped.
pub open spec fn load_rom_mem(mem: Seq<u8>, rom: Seq<u8>) -> Seq<u8> {
    Seq::new(
        mem.len(),
        |j: int|
            if 0x200 <= j < 0x200 + rom.len() && j < 4096 {
                rom[j - 0x200]
            } else {
                mem[j]
            },
    )
}

/// A vector of `len` copies of `value`.
fn filled_bytes(len: usize, value: u8) -> (v: Vec<u8>)
    ensures
        v@ == Seq::new(len as nat, |i: int| value),
{
    let mut v: Vec<u8> = Vec::new();
    let mut i: usize = 0;
    while i < len
        invariant
            i <= len,
            v@.len() == i,
            forall|k: int| 0 <= k < i ==> v@[k] == value,
        decreases len - i,
    {
        v.push(value);
        i = i + 1;
    }
    proof {
        assert(v@ =~= Seq::new(len as nat, |i: int| value));
    }
    v
}

/// A vector of `len` copies of `value`.
fn filled_bools(len: usize, value: bool) -> (v: Vec<bool>)
    ensures
        v@ == Seq::new(len as nat, |i: int| value),
{
    let mut v: Vec<bool> = Vec::new();
    let mut i: usize = 0;
    while i < len
        invariant
            i <= len,
            v@.len() == i,
            forall|k: int| 0 <= k < i ==> v@[k] == value,
        decreases len - i,
    {
        v.push(value);
        i = i + 1;
    }
    proof {
        assert(v@ =~= Seq::new(len as nat, |i: int| value));
    }
    v
}

/// The font table as a vector, highest glyph last.
fn font_bytes() -> (v: Vec<u8>)
    ensures
        v@ == font_seq(),
{
    let mut v: Vec<u8> = Vec::new();
    v.push(0xF0);
    v.push(0x90);
    v.push(0x90);
    v.push(0x90);
    v.push(0xF0);
    v.push(0x20);
    v.push(0x60);
    v.push(0x20);
    v.push(0x20);
    v.push(0x70);
    v.push(0xF0);
    v.push(0x10);
    v.push(0xF0);
    v.push(0x80);
    v.push(0xF0);
    v.push(0xF0);
    v.push(0x10);
    v.push(0xF0);
    v.push(0x10);
    v.push(0xF0);
    v.push(0x90);
    v.push(0x90);
    v.push(0xF0);
    v.push(0x10);
    v.push(0x10);
    v.push(0xF0);
    v.push(0x80);
    v.push(0xF0);
    v.push(0x10);
    v.push(0xF0);
    v.push(0xF0);
    v.push(0x80);
    v.push(0xF0);
    v.push(0x90);
    v.push(0xF0);
    v.push(0xF0);
    v.push(0x10);
    v.push(0x20);
    v.push(0x40);
    v.push(0x40);
    v.push(0xF0);
    v.push(0x90);
    v.push(0xF0);
    v.push(0x90);
    v.push(0xF0);
    v.push(0xF0);
    v.push(0x90);
    v.push(0xF0);
    v.push(0x10);
    v.push(0xF0);
    v.push(0xF0);
    v.push(0x90);
    v.push(0xF0);
    v.push(0x90);
    v.push(0x90);
    v.push(0xE0);
    v.push(0x90);
    v.push(0xE0);
    v.push(0x90);
    v.push(0xE0);
    v.push(0xF0);
    v.push(0x80);
    v.push(0x80);
    v.push(0x80);
    v.push(0xF0);
    v.push(0xE0);
    v.push(0x90);
    v.push(0x90);
    v.push(0x90);
    v.push(0xE0);
    v.push(0xF0);
    v.push(0x80);
    v.push(0xF0);
    v.push(0x80);
    v.push(0xF0);
    v.push(0xF0);
    v.push(0x80);
    v.push(0xF0);
    v.push(0x80);
    v.push(0x80);
    proof {
        assert(v@ =~= font_seq());
    }
    v
}

impl Chip8 {
    /// The fixed-size arenas have their sizes.
    pub open spec fn wf(&self) -> bool {
        wf_state(self@)
    }

    /// A machine with zeroed state and the program counter at the start
    /// of program space. The font table is not yet loaded.
    pub fn new() -> (c: Self)
        ensures
            c.wf(),
            c@ == initial_state(),
    {
        let c = Chip8 {
            memory: filled_bytes(4096, 0),
            pc: 0x200,
            index_reg: 0,
            var_regs: filled_bytes(16, 0),
            stack: Vec::new(),
            delay_timer: 0,
            sound_timer: 0,
            display: filled_bools(2048, false),
            keypad: filled_bools(16, false),
        };
        proof {
            assert(c@ =~= initial_state());
        }
        c
    }

    /// Write the sixteen font glyphs to memory at 0x50..0xA0.
    pub fn load_font(&mut self)
        requires
            old(self).wf(),
        ensures
            final(self).wf(),
            final(self)@ == (State { memory: load_font_mem(old(self)@.memory), ..old(self)@ }),
    {
        let font = font_bytes();
        let mut i: usize = 0;
        while i < 80
            invariant
                i <= 80,
                font@ == font_seq(),
                self.memory@.len() == 4096,
                forall|k: int| 0 <= k < i ==> self.memory@[0x50 + k] == font_seq()[k],
                forall|j: int|
                    0 <= j < 4096 && !(0x50 <= j < 0x50 + i) ==> self.memory@[j] == old(
                        self,
                    )@.memory[j],
                self@ == (State { memory: self@.memory, ..old(self)@ }),
            decreases 80 - i,
        {
            let b = font[i];
            self.memory.set(0x50 + i, b);
            i = i + 1;
        }
        proof {
            assert(self@.memory =~= load_font_mem(old(self)@.memory));
            assert(self@ =~= (State { memory: load_font_mem(old(self)@.memory), ..old(self)@ }));
        }
    }

    /// Copy a ROM image into memory starting at 0x200; bytes that would
    /// land past the end of memory are silently dropped.
    pub fn load_rom(&mut self, rom: &Vec<u8>)
        requires
            old(self).wf(),
        ensures
            final(self).wf(),
            final(self)@ == (State {
                memory: load_rom_mem(old(self)@.memory, rom@),
                ..old(self)@
            }),
    {
        let mut i: usize = 0;
        while i < rom.len() && i < 3584
            invariant
                i <= rom@.len(),
                i <= 3584,
                self.memory@.len() == 4096,
                forall|k: int| 0 <= k < i ==> 0x200 + k < 4096 && self.memory@[0x200 + k] == rom@[k],
                forall|j: int|
                    0 <= j < 4096 && !(0x200 <= j < 0x200 + i) ==> self.memory@[j] == old(
                        self,
                    )@.memory[j],
                self@ == (State { memory: self@.memory, ..old(self)@ }),
            decreases rom@.len() - i,
        {
            let b = rom[i];
            self.memory.set(0x200 + i, b);
            i = i + 1;
        }
        proof {
            assert(self@.memory =~= load_rom_mem(old(self)@.memory, rom@));
            assert(self@ =~= (State {
                memory: load_rom_mem(old(self)@.memory, rom@),
                ..old(self)@
            }));
        }
    }

    /// One timer tick: both timers step down toward zero and stop there.
    pub fn update_timers(&mut self)
        requires
            old(self).wf(),
        ensures
            final(self).wf(),
            final(self)@ == tick_timers_spec(old(self)@),
    {
        if self.delay_timer > 0 {
            self.delay_timer = self.delay_timer - 1;
        }
        if self.sound_timer > 0 {
            self.sound_timer = self.sound_timer - 1;
        }
        proof {
            assert(self@ =~= tick_timers_spec(old(self)@));
        }
    }

    /// Record whether the key `key` is held down.
    pub fn set_key(&mut self, key: usize, down: bool)
        requires
            old(self).wf(),
            key < 16,
        ensures
            final(self).wf(),
            final(self)@ == (State {
                keypad: old(self)@.keypad.update(key as int, down),
                ..old(self)@
            }),
    {
        self.keypad.set(key, down);
        proof {
            assert(self@ =~= (State {
                keypad: old(self)@.keypad.update(key as int, down),
                ..old(self)@
            }));
        }
    }

    /// The draw opcode `Dxyn`, run after the program counter was advanced:
    /// XOR an `n`-row sprite onto the framebuffer, clipped at the edges,
    /// collision into VF; refused when a sprite row would be read outside
    /// memory, leaving the machine as it was before the cycle.
    fn op_draw(&mut self, x: u8, y: u8, n: u8, pc0: u16) -> (res: Option<Chip8Error>)
        requires
            old(self).wf(),
            x < 16,
            y < 16,
            n < 16,
        ensures
            final(self).wf(),
            final(self)@ == draw_step(old(self)@, pc0, x, y, n).0,
            res == draw_step(old(self)@, pc0, x, y, n).1,
    {
        let x0 = self.var_regs[x as usize] % 64;
        let y0 = self.var_regs[y as usize] % 32;
        let rows: u8 = if n <= 32 - y0 {
            n
        } else {
            32 - y0
        };
        if rows > 0 && (self.index_reg as usize) + (rows as usize) - 1 > 4095 {
            let e = Chip8Error::AddressOutOfRange { pc: pc0, addr: self.index_reg };
            self.pc = pc0;
            proof {
                assert(self@ =~= with_pc(old(self)@, pc0));
            }
            return Some(e);
        }
        let base = self.index_reg as usize;
        let mut collided = false;
        let ghost d0 = self@.display;
        let mut i: u8 = 0;
        while i < rows
            invariant
                i <= rows,
                x0 < 64,
                y0 < 32,
                rows <= 32 - y0,
                rows > 0 ==> base + rows <= 4096,
                base == old(self)@.index,
                wf_state(old(self)@),
                d0 == old(self)@.display,
                self@.display.len() == 2048,
                self@.display == draw_sprite(
                    d0,
                    old(self)@.memory,
                    base as int,
                    x0 as int,
                    y0 as int,
                    i as int,
                ).0,
                collided == draw_sprite(
                    d0,
                    old(self)@.memory,
                    base as int,
                    x0 as int,
                    y0 as int,
                    i as int,
                ).1,
                self@ == (State { display: self@.display, ..old(self)@ }),
            decreases rows - i,
        {
            let byte = self.memory[base + i as usize];
            let yr = y0 + i;
            let ghost drow = self@.display;
            let ghost crow = collided;
            let mut j: u8 = 0;
            while j < 8
                invariant
                    j <= 8,
                    x0 < 64,
                    yr < 32,
                    i < rows,
                    byte == old(self)@.memory[base as int + i as int],
                    drow.len() == 2048,
                    wf_state(old(self)@),
                    self@.display.len() == 2048,
                    self@.display == draw_bits(drow, byte, x0 as int, yr as int, j as int).0,
                    collided == (crow || draw_bits(drow, byte, x0 as int, yr as int, j as int).1),
                    self@ == (State { display: self@.display, ..old(self)@ }),
                decreases 8 - j,
            {
                let ghost before = self@.display;
                let col = x0 + j;
                if col < 64 {
                    let idx = (yr as usize) * 64 + (col as usize);
                    let px = self.display[idx];
                    let on = (byte >> (7 - j)) & 1 == 1;
                    if on && px {
                        collided = true;
                    }
                    self.display.set(idx, px != on);
                }
                proof {
                    assert(self@.display == draw_bits(
                        drow,
                        byte,
                        x0 as int,
                        yr as int,
                        j as int + 1,
                    ).0);
                }
                j = j + 1;
            }
            proof {
                assert(draw_sprite(
                    d0,
                    old(self)@.memory,
                    base as int,
                    x0 as int,
                    y0 as int,
                    i as int + 1,
                ).0 == self@.display);
            }
            i = i + 1;
        }
        let flag: u8 = if collided {
            1
        } else {
            0
        };
        self.var_regs.set(15, flag);
        proof {
            assert(self@ =~= draw_step(old(self)@, pc0, x, y, n).0);
        }
        None
    }

    /// The store opcode `Fx55`, run after the program counter was advanced.
    fn op_store_regs(&mut self, x: u8, pc0: u16) -> (res: Option<Chip8Error>)
        requires
            old(self).wf(),
            x < 16,
        ensures
            final(self).wf(),
            final(self)@ == store_step(old(self)@, pc0, x).0,
            res == store_step(old(self)@, pc0, x).1,
    {
        if (self.index_reg as usize) + (x as usize) > 4095 {
            let e = Chip8Error::AddressOutOfRange { pc: pc0, addr: self.index_reg };
            self.pc = pc0;
            proof {
                assert(self@ =~= with_pc(old(self)@, pc0));
            }
            return Some(e);
        }
        let base = self.index_reg as usize;
        let mut j: usize = 0;
        while j <= x as usize
            invariant
                j <= x as usize + 1,
                x < 16,
                base == old(self)@.index,
                base + x as usize <= 4095,
                wf_state(old(self)@),
                self.memory@.len() == 4096,
                forall|k: int| 0 <= k < j ==> self.memory@[base + k] == old(self)@.regs[k],
                forall|t: int|
                    0 <= t < 4096 && !(base <= t < base + j) ==> self.memory@[t] == old(
                        self,
                    )@.memory[t],
                self@ == (State { memory: self@.memory, ..old(self)@ }),
            decreases x as usize + 1 - j,
        {
            let b = self.var_regs[j];
            self.memory.set(base + j, b);
            j = j + 1;
        }
        proof {
            assert(self@.memory =~= store_regs_mem(
                old(self)@.memory,
                old(self)@.regs,
                base as int,
                x as int,
            ));
            assert(self@ =~= store_step(old(self)@, pc0, x).0);
        }
        None
    }

    /// The load opcode `Fx65`, run after the program counter was advanced.
    fn op_load_regs(&mut self, x: u8, pc0: u16) -> (res: Option<Chip8Error>)
        requires
            old(self).wf(),
            x < 16,
        ensures
            final(self).wf(),
            final(self)@ == load_step(old(self)@, pc0, x).0,
            res == load_step(old(self)@, pc0, x).1,
    {
        if (self.index_reg as usize) + (x as usize) > 4095 {
            let e = Chip8Error::AddressOutOfRange { pc: pc0, addr: self.index_reg };
            self.pc = pc0;
            proof {
                assert(self@ =~= with_pc(old(self)@, pc0));
            }
            return Some(e);
        }
        let base = self.index_reg as usize;
        let mut j: usize = 0;
        while j <= x as usize
            invariant
                j <= x as usize + 1,
                x < 16,
                base == old(self)@.index,
                base + x as usize <= 4095,
                wf_state(old(self)@),
                self.var_regs@.len() == 16,
                forall|k: int| 0 <= k < j ==> self.var_regs@[k] == old(self)@.memory[base + k],
                forall|t: int| j <= t < 16 ==> self.var_regs@[t] == old(self)@.regs[t],
                self@ == (State { regs: self@.regs, ..old(self)@ }),
            decreases x as usize + 1 - j,
        {
            let b = self.memory[base + j];
            self.var_regs.set(j, b);
            j = j + 1;
        }
        proof {
            assert(self@.regs =~= load_regs_from_mem(
                old(self)@.regs,
                old(self)@.memory,
                base as int,
                x as int,
            ));
            assert(self@ =~= load_step(old(self)@, pc0, x).0);
        }
        None
    }

    /// One fetch-decode-execute cycle with the random byte `r` supplied by
    /// the caller: the machine steps exactly as [`step_spec`] says. On an
    /// `Err` the machine is unchanged.
    pub fn tick_with_random(&mut self, r: u8) -> (res: Result<(), Chip8Error>)
        requires
            old(self).wf(),
        ensures
            final(self).wf(),
            final(self)@ == step_spec(old(self)@, r).0,
            res == step_result(step_spec(old(self)@, r).1),
    {
        let ghost pre = self@;
        if self.pc > 4094 {
            return Err(Chip8Error::AddressOutOfRange { pc: self.pc, addr: self.pc });
        }
        let pc0 = self.pc;
        let hi = self.memory[pc0 as usize];
        let lo = self.memory[pc0 as usize + 1];
        let w = ((hi as u16) << 8u16) | (lo as u16);
        proof {
            assert(w == fetched_word(pre));
            lemma_decoded_wf(w);
        }
        let iopt = decode(w);
        let i = match iopt {
            None => {
                return Err(Chip8Error::UnknownOpcode { word: w, pc: pc0 });
            },
            Some(ii) => ii,
        };
        self.pc = pc0 + 2;
        let ghost sadv = self@;
        proof {
            assert(instr_wf(i));
            assert(sadv == with_pc(pre, (pre.pc + 2) as u16));
        }
        let err: Option<Chip8Error> = match i {
            Instr::ClearScreen => {
                let mut d: usize = 0;
                while d < 2048
                    invariant
                        d <= 2048,
                        self@.display.len() == 2048,
                        forall|k: int| 0 <= k < d ==> self@.display[k] == false,
                        self@ == (State { display: self@.display, ..sadv }),
                    decreases 2048 - d,
                {
                    self.display.set(d, false);
                    d = d + 1;
                }
                proof {
                    assert(self@.display =~= Seq::new(sadv.display.len(), |k: int| false));
                    assert(self@ =~= step_instr(sadv, pc0, i, r).0);
                }
                None
            },
            Instr::Return => {
                if self.stack.len() == 0 {
                    self.pc = pc0;
                    proof {
                        assert(self@ =~= with_pc(sadv, pc0));
                    }
                    Some(Chip8Error::StackUnderflow { pc: pc0 })
                } else {
                    let ret = self.stack.pop().unwrap();
                    self.pc = ret;
                    proof {
                        assert(self@.stack =~= sadv.stack.drop_last());
                        assert(self@ =~= step_instr(sadv, pc0, i, r).0);
                    }
                    None
                }
            },
            Instr::Jump { nnn } => {
                self.pc = nnn;
                None
            },
            Instr::Call { nnn } => {
                self.stack.push(self.pc);
                self.pc = nnn;
                proof {
                    assert(self@ =~= step_instr(sadv, pc0, i, r).0);
                }
                None
            },
            Instr::SkipEqImm { x, nn } => {
                if self.var_regs[x as usize] == nn {
                    self.pc = self.pc + 2;
                }
                None
            },
            Instr::SkipNeImm { x, nn } => {
                if self.var_regs[x as usize] != nn {
                    self.pc = self.pc + 2;
                }
                None
            },
            Instr::SkipEqReg { x, y } => {
                if self.var_regs[x as usize] == self.var_regs[y as usize] {
                    self.pc = self.pc + 2;
                }
                None
            },
            Instr::SetImm { x, nn } => {
                self.var_regs.set(x as usize, nn);
                None
            },
            Instr::AddImm { x, nn } => {
                let vx = self.var_regs[x as usize];
                let sum = vx as u16 + nn as u16;
                let v: u8 = if sum < 256 {
                    sum as u8
                } else {
                    (sum - 256) as u8
                };
                self.var_regs.set(x as usize, v);
                None
            },
            Instr::Assign { x, y } => {
                let vy = self.var_regs[y as usize];
                self.var_regs.set(x as usize, vy);
                None
            },
            Instr::Or { x, y } => {
                let v = self.var_regs[x as usize] | self.var_regs[y as usize];
                self.var_regs.set(x as usize, v);
                None
            },
            Instr::And { x, y } => {
                let v = self.var_regs[x as usize] & self.var_regs[y as usize];
                self.var_regs.set(x as usize, v);
                None
            },
            Instr::Xor { x, y } => {
                let v = self.var_regs[x as usize] ^ self.var_regs[y as usize];
                self.var_regs.set(x as usize, v);
                None
            },
            Instr::AddReg { x, y } => {
                let vx = self.var_regs[x as usize];
                let vy = self.var_regs[y as usize];
                let sum = vx as u16 + vy as u16;
                let v: u8 = if sum < 256 {
                    sum as u8
                } else {
                    (sum - 256) as u8
                };
                let carry: u8 = if sum > 255 {
                    1
                } else {
                    0
                };
                self.var_regs.set(x as usize, v);
                self.var_regs.set(15, carry);
                None
            },
            Instr::SubXY { x, y } => {
                let vx = self.var_regs[x as usize];
                let vy = self.var_regs[y as usize];
                let flag: u8 = if vx >= vy {
                    1
                } else {
                    0
                };
                let v: u8 = if vx >= vy {
                    vx - vy
                } else {
                    (vx as u16 + 256 - vy as u16) as u8
                };
                self.var_regs.set(x as usize, v);
                self.var_regs.set(15, flag);
                None
            },
            Instr::SubYX { x, y } => {
                let vx = self.var_regs[x as usize];
                let vy = self.var_regs[y as usize];
                let flag: u8 = if vy >= vx {
                    1
                } else {
                    0
                };
                let v: u8 = if vy >= vx {
                    vy - vx
                } else {
                    (vy as u16 + 256 - vx as u16) as u8
                };
                self.var_regs.set(x as usize, v);
                self.var_regs.set(15, flag);
                None
            },
            Instr::ShiftRight { x, y } => {
                let vy = self.var_regs[y as usize];
                self.var_regs.set(x as usize, vy);
                let t = self.var_regs[x as usize];
                self.var_regs.set(15, t & 1);
                let t2 = self.var_regs[x as usize];
                self.var_regs.set(x as usize, t2 >> 1u8);
                None
            },
            Instr::ShiftLeft { x, y } => {
                let vy = self.var_regs[y as usize];
                self.var_regs.set(x as usize, vy);
                let t = self.var_regs[x as usize];
                self.var_regs.set(15, (t & 0x80) >> 7u8);
                let t2 = self.var_regs[x as usize];
                self.var_regs.set(x as usize, t2 << 1u8);
                None
            },
            Instr::SkipNeReg { x, y } => {
                if self.var_regs[x as usize] != self.var_regs[y as usize] {
                    self.pc = self.pc + 2;
                }
                None
            },
            Instr::SetIndex { nnn } => {
                self.index_reg = nnn;
                None
            },
            Instr::JumpOffset { x, nnn } => {
                self.pc = nnn + self.var_regs[x as usize] as u16;
                None
            },
            Instr::Random { x, nn } => {
                self.var_regs.set(x as usize, r & nn);
                None
            },
            Instr::Draw { x, y, n } => self.op_draw(x, y, n, pc0),
            Instr::SkipKeyDown { x } => {
                let vx = self.var_regs[x as usize];
                proof {
                    assert(vx & 0x0F < 16) by (bit_vector);
                }
                if self.keypad[(vx & 0x0F) as usize] {
                    self.pc = self.pc + 2;
                }
                None
            },
            Instr::SkipKeyUp { x } => {
                let vx = self.var_regs[x as usize];
                proof {
                    assert(vx & 0x0F < 16) by (bit_vector);
                }
                if !self.keypad[(vx & 0x0F) as usize] {
                    self.pc = self.pc + 2;
                }
                None
            },
            Instr::ReadDelay { x } => {
                let d = self.delay_timer;
                self.var_regs.set(x as usize, d);
                None
            },
            Instr::WaitKey { x } => {
                let mut sel: usize = 16;
                let mut k: usize = 0;
                while k < 16
                    invariant
                        k <= 16,
                        self@ == sadv,
                        self@.keypad.len() == 16,
                        sel == 16 || (sel < 16 && first_key_down(sadv.keypad, 0) == Some(
                            sel as int,
                        )),
                        sel == 16 ==> first_key_down(sadv.keypad, 0) == first_key_down(
                            sadv.keypad,
                            k as int,
                        ),
                    decreases 16 - k,
                {
                    if sel == 16 && self.keypad[k] {
                        sel = k;
                    }
                    k = k + 1;
                }
                if sel < 16 {
                    self.var_regs.set(x as usize, sel as u8);
                } else {
                    self.pc = pc0;
                }
                None
            },
            Instr::SetDelay { x } => {
                self.delay_timer = self.var_regs[x as usize];
                None
            },
            Instr::SetSound { x } => {
                self.sound_timer = self.var_regs[x as usize];
                None
            },
            Instr::AddIndex { x } => {
                let vx = self.var_regs[x as usize];
                let sum: u32 = self.index_reg as u32 + vx as u32;
                if sum > 0xFFF {
                    self.var_regs.set(15, 1);
                }
                self.index_reg = (sum % 0x10000) as u16;
                None
            },
            Instr::FontChar { x } => {
                let d = self.var_regs[x as usize] & 0x0F;
                self.index_reg = 0x50 + (d as u16) * 5;
                None
            },
            Instr::StoreBcd { x } => {
                if self.index_reg > 4093 {
                    let e = Chip8Error::AddressOutOfRange { pc: pc0, addr: self.index_reg };
                    self.pc = pc0;
                    proof {
                        assert(self@ =~= with_pc(sadv, pc0));
                    }
                    Some(e)
                } else {
                    let v = self.var_regs[x as usize];
                    let base = self.index_reg as usize;
                    self.memory.set(base, v / 100);
                    self.memory.set(base + 1, (v / 10) % 10);
                    self.memory.set(base + 2, v % 10);
                    None
                }
            },
            Instr::StoreRegs { x } => self.op_store_regs(x, pc0),
            Instr::LoadRegs { x } => self.op_load_regs(x, pc0),
        };
        proof {
            assert(self@ == step_instr(sadv, pc0, i, r).0);
            assert(err == step_instr(sadv, pc0, i, r).1);
            assert(step_spec(pre, r) == step_instr(sadv, pc0, i, r));
        }
        match err {
            None => Ok(()),
            Some(e) => Err(e),
        }
    }

    /// One fetch-decode-execute cycle: as [`tick_with_random`], with the
    /// random byte drawn from the host's generator. Whatever byte came
    /// back, the machine steps as [`step_spec`] says for that byte.
    pub fn tick(&mut self) -> (res: Result<(), Chip8Error>)
        requires
            old(self).wf(),
        ensures
            final(self).wf(),
            exists|r: u8|
                final(self)@ == step_spec(old(self)@, r).0 && res == step_result(
                    step_spec(old(self)@, r).1,
                ),
    {
        let r = random_byte();
        let res = self.tick_with_random(r);
        proof {
            assert(self@ == step_spec(old(self)@, r).0 && res == step_result(
                step_spec(old(self)@, r).1,
            ));
        }
        res
    }
}

} // verus!
