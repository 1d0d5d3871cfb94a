//! The fetch/decode/execute cycle and the timer unit, proved against the
//! instruction semantics in `step`.

use vstd::prelude::*;
use crate::state::{Emu, StateV, Chip8Error, spec_fetch};
use crate::step::{
    execute_outcome, spec_tick_timers, first_pressed, store_ram, load_regs,
};
use crate::rng::random_byte;
use crate::{RAM_SIZE, NUM_REGS, NUM_KEYS};

verus! {

/// The low nibble of a byte names one of the 16 keys or font glyphs.
proof fn lemma_low_nibble(b: u8)
    ensures
        b & 0xF < 16,
{
    assert(b & 0xF < 16) by (bit_vector);
}

impl Emu {
    /// Execute exactly one instruction: fetch the word at the program
    /// counter, decode it, and apply its action. A failed step reports a
    /// typed error; an unknown opcode, stack misuse, or out-of-bounds access
    /// leaves the machine exactly as the fetch left it, and a failed fetch
    /// leaves it untouched.
    pub fn tick(&mut self) -> (r: Result<(), Chip8Error>)
        requires
            old(self).wf(),
        ensures
            final(self).wf(),
            match spec_fetch(old(self)@) {
                Some((s1, op)) => exists|rnd: u8| execute_outcome(s1, op, rnd, final(self)@, r),
                None => r == Err::<(), Chip8Error>(Chip8Error::MemoryOutOfBounds)
                    && final(self)@ == old(self)@,
            },
    {
        let op = match self.fetch() {
            Ok(op) => op,
            Err(e) => {
                return Err(e);
            },
        };
        self.execute(op)
    }

    /// One timer step: each nonzero timer drops by 1 and clamps at 0. The
    /// returned beep signal is true exactly when this call took the sound
    /// timer from 1 to 0.
    pub fn tick_timers(&mut self) -> (beep: bool)
        ensures
            final(self).wf() == old(self).wf(),
            (final(self)@, beep) == spec_tick_timers(old(self)@),
    {
        if self.dt > 0 {
            self.dt = self.dt - 1;
        }
        let mut beep = false;
        if self.st > 0 {
            if self.st == 1 {
                beep = true;
            }
            self.st = self.st - 1;
        }
        beep
    }

    /// Decode and apply one instruction word from the post-fetch state, per
    /// `spec_execute`. The random byte for CXNN is drawn inside; the contract
    /// holds for every byte the source could supply.
    pub(crate) fn execute(&mut self, op: u16) -> (r: Result<(), Chip8Error>)
        requires
            old(self).wf(),
            2 <= old(self).pc,
            old(self).pc as int <= RAM_SIZE,
        ensures
            final(self).wf(),
            exists|rnd: u8| execute_outcome(old(self)@, op, rnd, final(self)@, r),
    {
        proof {
            assert(op >> 12 < 16 && (op >> 8) & 0xF < 16 && (op >> 4) & 0xF < 16 && op & 0xF < 16
                && op & 0xFF < 256 && op & 0xFFF < 4096) by (bit_vector);
        }
        let d1 = op >> 12;
        let d2 = (op >> 8) & 0xF;
        let d3 = (op >> 4) & 0xF;
        let d4 = op & 0xF;
        let x = d2 as usize;
        let y = d3 as usize;
        let nn = (op & 0xFF) as u8;
        let nnn = op & 0xFFF;
        match (d1, d2, d3, d4) {
            // 0000: no-op
            (0, 0, 0, 0) => {
                proof {
                    assert(execute_outcome(old(self)@, op, 0u8, self@, Ok::<(), Chip8Error>(())));
                }
                Ok(())
            },
            // 00E0: clear the framebuffer
            (0, 0, 0xE, 0) => {
                self.screen = [false; crate::SCREEN_SIZE];
                proof {
                    assert(self@.screen =~= Seq::new(crate::SCREEN_SIZE as nat, |p: int| false));
                    assert(self@ =~= (StateV {
                        screen: Seq::new(crate::SCREEN_SIZE as nat, |p: int| false),
                        ..old(self)@
                    }));
                    assert(execute_outcome(old(self)@, op, 0u8, self@, Ok::<(), Chip8Error>(())));
                }
                Ok(())
            },
            // 00EE: return from subroutine
            (0, 0, 0xE, 0xE) => {
                match self.pop() {
                    Ok(addr) => {
                        self.pc = addr;
                        proof {
                            assert(self@ =~= (StateV {
                                pc: old(self)@.stack.last(),
                                stack: old(self)@.stack.drop_last(),
                                ..old(self)@
                            }));
                            assert(execute_outcome(old(self)@, op, 0u8, self@, Ok::<(), Chip8Error>(())));
                        }
                        Ok(())
                    },
                    Err(e) => {
                        proof {
                            assert(execute_outcome(old(self)@, op, 0u8, self@, Err::<(), Chip8Error>(e)));
                        }
                        Err(e)
                    },
                }
            },
            // 1NNN: jump
            (1, _, _, _) => {
                self.pc = nnn;
                proof {
                    assert(execute_outcome(old(self)@, op, 0u8, self@, Ok::<(), Chip8Error>(())));
                }
                Ok(())
            },
            // 2NNN: call subroutine
            (2, _, _, _) => {
                let cur = self.pc;
                match self.push(cur) {
                    Ok(()) => {
                        self.pc = nnn;
                        proof {
                            assert(self@ =~= (StateV {
                                pc: crate::step::op_nnn(op),
                                stack: old(self)@.stack.push(old(self)@.pc),
                                ..old(self)@
                            }));
                            assert(execute_outcome(old(self)@, op, 0u8, self@, Ok::<(), Chip8Error>(())));
                        }
                        Ok(())
                    },
                    Err(e) => {
                        proof {
                            assert(execute_outcome(old(self)@, op, 0u8, self@, Err::<(), Chip8Error>(e)));
                        }
                        Err(e)
                    },
                }
            },
            // 3XNN: skip if VX == NN
            (3, _, _, _) => {
                if self.v_reg[x] == nn {
                    self.pc = self.pc + 2;
                }
                proof {
                    assert(execute_outcome(old(self)@, op, 0u8, self@, Ok::<(), Chip8Error>(())));
                }
                Ok(())
            },
            // 4XNN: skip if VX != NN
            (4, _, _, _) => {
                if self.v_reg[x] != nn {
                    self.pc = self.pc + 2;
                }
                proof {
                    assert(execute_outcome(old(self)@, op, 0u8, self@, Ok::<(), Chip8Error>(())));
                }
                Ok(())
            },
            // 5XY0: skip if VX == VY
            (5, _, _, 0) => {
                if self.v_reg[x] == self.v_reg[y] {
                    self.pc = self.pc + 2;
                }
                proof {
                    assert(execute_outcome(old(self)@, op, 0u8, self@, Ok::<(), Chip8Error>(())));
                }
                Ok(())
            },
            // 6XNN: VX = NN
            (6, _, _, _) => {
                self.v_reg[x] = nn;
                proof {
                    assert(execute_outcome(old(self)@, op, 0u8, self@, Ok::<(), Chip8Error>(())));
                }
                Ok(())
            },
            // 7XNN: VX += NN, wrapping, no flag effect
            (7, _, _, _) => {
                let sum = self.v_reg[x] as u16 + nn as u16;
                self.v_reg[x] = (sum % 256) as u8;
                proof {
                    assert(execute_outcome(old(self)@, op, 0u8, self@, Ok::<(), Chip8Error>(())));
                }
                Ok(())
            },
            // 8XY0: VX = VY
            (8, _, _, 0) => {
                self.v_reg[x] = self.v_reg[y];
                proof {
                    assert(execute_outcome(old(self)@, op, 0u8, self@, Ok::<(), Chip8Error>(())));
                }
                Ok(())
            },
            // 8XY1: VX |= VY
            (8, _, _, 1) => {
                self.v_reg[x] = self.v_reg[x] | self.v_reg[y];
                proof {
                    assert(execute_outcome(old(self)@, op, 0u8, self@, Ok::<(), Chip8Error>(())));
                }
                Ok(())
            },
            // 8XY2: VX &= VY
            (8, _, _, 2) => {
                self.v_reg[x] = self.v_reg[x] & self.v_reg[y];
                proof {
                    assert(execute_outcome(old(self)@, op, 0u8, self@, Ok::<(), Chip8Error>(())));
                }
                Ok(())
            },
            // 8XY3: VX ^= VY
            (8, _, _, 3) => {
                self.v_reg[x] = self.v_reg[x] ^ self.v_reg[y];
                proof {
                    assert(execute_outcome(old(self)@, op, 0u8, self@, Ok::<(), Chip8Error>(())));
                }
                Ok(())
            },
            // 8XY4: VX += VY; VF = carry
            (8, _, _, 4) => {
                let vx = self.v_reg[x];
                let vy = self.v_reg[y];
                let sum = vx as u16 + vy as u16;
                self.v_reg[x] = (sum % 256) as u8;
                self.v_reg[0xF] = if sum >= 256 { 1 } else { 0 };
                proof {
                    assert(execute_outcome(old(self)@, op, 0u8, self@, Ok::<(), Chip8Error>(())));
                }
                Ok(())
            },
            // 8XY5: VX -= VY; VF = 0 on borrow, else 1
            (8, _, _, 5) => {
                let vx = self.v_reg[x];
                let vy = self.v_reg[y];
                if vx >= vy {
                    self.v_reg[x] = vx - vy;
                    self.v_reg[0xF] = 1;
                } else {
                    self.v_reg[x] = (vx as u16 + 256 - vy as u16) as u8;
                    self.v_reg[0xF] = 0;
                }
                proof {
                    assert(execute_outcome(old(self)@, op, 0u8, self@, Ok::<(), Chip8Error>(())));
                }
                Ok(())
            },
            // 8XY6: VF = low bit of VX; VX >>= 1
            (8, _, _, 6) => {
                let vx = self.v_reg[x];
                self.v_reg[x] = vx >> 1u8;
                self.v_reg[0xF] = vx & 1;
                proof {
                    assert(execute_outcome(old(self)@, op, 0u8, self@, Ok::<(), Chip8Error>(())));
                }
                Ok(())
            },
            // 8XY7: VX = VY - VX; VF = 0 on borrow, else 1
            (8, _, _, 7) => {
                let vx = self.v_reg[x];
                let vy = self.v_reg[y];
                if vy >= vx {
                    self.v_reg[x] = vy - vx;
                    self.v_reg[0xF] = 1;
                } else {
                    self.v_reg[x] = (vy as u16 + 256 - vx as u16) as u8;
                    self.v_reg[0xF] = 0;
                }
                proof {
                    assert(execute_outcome(old(self)@, op, 0u8, self@, Ok::<(), Chip8Error>(())));
                }
                Ok(())
            },
            // 8XYE: VF = high bit of VX; VX <<= 1
            (8, _, _, 0xE) => {
                let vx = self.v_reg[x];
                self.v_reg[x] = vx << 1u8;
                self.v_reg[0xF] = (vx >> 7u8) & 1;
                proof {
                    assert(execute_outcome(old(self)@, op, 0u8, self@, Ok::<(), Chip8Error>(())));
                }
                Ok(())
            },
            // 9XY0: skip if VX != VY
            (9, _, _, 0) => {
                if self.v_reg[x] != self.v_reg[y] {
                    self.pc = self.pc + 2;
                }
                proof {
                    assert(execute_outcome(old(self)@, op, 0u8, self@, Ok::<(), Chip8Error>(())));
                }
                Ok(())
            },
            // ANNN: I = NNN
            (0xA, _, _, _) => {
                self.i_reg = nnn;
                proof {
                    assert(execute_outcome(old(self)@, op, 0u8, self@, Ok::<(), Chip8Error>(())));
                }
                Ok(())
            },
            // BNNN: pc = V0 + NNN
            (0xB, _, _, _) => {
                self.pc = self.v_reg[0] as u16 + nnn;
                proof {
                    assert(execute_outcome(old(self)@, op, 0u8, self@, Ok::<(), Chip8Error>(())));
                }
                Ok(())
            },
            // CXNN: VX = random byte AND NN
            (0xC, _, _, _) => {
                let rb = random_byte();
                self.v_reg[x] = rb & nn;
                proof {
                    assert(execute_outcome(old(self)@, op, rb, self@, Ok::<(), Chip8Error>(())));
                }
                Ok(())
            },
            // DXYN: draw an N-row sprite at (VX, VY)
            (0xD, _, _, _) => {
                let r = self.op_draw(x, y, d4);
                proof {
                    assert(execute_outcome(old(self)@, op, 0u8, self@, r));
                }
                r
            },
            // EX9E: skip if the key named by the low nibble of VX is pressed
            (0xE, _, 9, 0xE) => {
                let vx = self.v_reg[x];
                proof {
                    lemma_low_nibble(vx);
                }
                if self.keys[(vx & 0xF) as usize] {
                    self.pc = self.pc + 2;
                }
                proof {
                    assert(execute_outcome(old(self)@, op, 0u8, self@, Ok::<(), Chip8Error>(())));
                }
                Ok(())
            },
            // EXA1: skip if that key is not pressed
            (0xE, _, 0xA, 1) => {
                let vx = self.v_reg[x];
                proof {
                    lemma_low_nibble(vx);
                }
                if !self.keys[(vx & 0xF) as usize] {
                    self.pc = self.pc + 2;
                }
                proof {
                    assert(execute_outcome(old(self)@, op, 0u8, self@, Ok::<(), Chip8Error>(())));
                }
                Ok(())
            },
            // FX07: VX = delay timer
            (0xF, _, 0, 7) => {
                self.v_reg[x] = self.dt;
                proof {
                    assert(execute_outcome(old(self)@, op, 0u8, self@, Ok::<(), Chip8Error>(())));
                }
                Ok(())
            },
            // FX0A: wait for a key press
            (0xF, _, 0, 0xA) => {
                self.op_wait_key(x);
                proof {
                    assert(execute_outcome(old(self)@, op, 0u8, self@, Ok::<(), Chip8Error>(())));
                }
                Ok(())
            },
            // FX15: delay timer = VX
            (0xF, _, 1, 5) => {
                self.dt = self.v_reg[x];
                proof {
                    assert(execute_outcome(old(self)@, op, 0u8, self@, Ok::<(), Chip8Error>(())));
                }
                Ok(())
            },
            // FX18: sound timer = VX
            (0xF, _, 1, 8) => {
                self.st = self.v_reg[x];
                proof {
                    assert(execute_outcome(old(self)@, op, 0u8, self@, Ok::<(), Chip8Error>(())));
                }
                Ok(())
            },
            // FX1E: I += VX, wrapping
            (0xF, _, 1, 0xE) => {
                let sum = self.i_reg as u32 + self.v_reg[x] as u32;
                self.i_reg = (sum % 0x10000) as u16;
                proof {
                    assert(execute_outcome(old(self)@, op, 0u8, self@, Ok::<(), Chip8Error>(())));
                }
                Ok(())
            },
            // FX29: I = font glyph address for the low nibble of VX
            (0xF, _, 2, 9) => {
                let vx = self.v_reg[x];
                let g = vx & 0xF;
                proof {
                    lemma_low_nibble(vx);
                }
                self.i_reg = (g as u16) * 5;
                proof {
                    assert(execute_outcome(old(self)@, op, 0u8, self@, Ok::<(), Chip8Error>(())));
                }
                Ok(())
            },
            // FX33: write VX as three BCD digits at I, I+1, I+2
            (0xF, _, 3, 3) => {
                if self.i_reg as usize + 2 >= RAM_SIZE {
                    proof {
                        assert(execute_outcome(old(self)@, op, 0u8, self@,
                            Err::<(), Chip8Error>(Chip8Error::MemoryOutOfBounds)));
                    }
                    return Err(Chip8Error::MemoryOutOfBounds);
                }
                let vx = self.v_reg[x];
                let i = self.i_reg as usize;
                self.ram[i] = vx / 100;
                self.ram[i + 1] = (vx / 10) % 10;
                self.ram[i + 2] = vx % 10;
                proof {
                    assert(execute_outcome(old(self)@, op, 0u8, self@, Ok::<(), Chip8Error>(())));
                }
                Ok(())
            },
            // FX55: store V0..VX at I..I+X
            (0xF, _, 5, 5) => {
                let r = self.op_store_regs(x);
                proof {
                    assert(execute_outcome(old(self)@, op, 0u8, self@, r));
                }
                r
            },
            // FX65: load V0..VX from I..I+X
            (0xF, _, 6, 5) => {
                let r = self.op_load_regs(x);
                proof {
                    assert(execute_outcome(old(self)@, op, 0u8, self@, r));
                }
                r
            },
            // anything else: unknown opcode
            (_, _, _, _) => {
                proof {
                    assert(execute_outcome(old(self)@, op, 0u8, self@,
                        Err::<(), Chip8Error>(Chip8Error::UnknownOpcode(op))));
                }
                Err(Chip8Error::UnknownOpcode(op))
            },
        }
    }

    /// The wait-for-key instruction: complete with the lowest pressed key if
    /// one is down; otherwise step the program counter back onto this
    /// instruction and flag the machine as awaiting input.
    fn op_wait_key(&mut self, x: usize)
        requires
            old(self).wf(),
            x < NUM_REGS,
            2 <= old(self).pc,
        ensures
            final(self).wf(),
            final(self)@ == (match first_pressed(old(self)@.keys, 0) {
                Some(k) => StateV {
                    regs: old(self)@.regs.update(x as int, k as u8),
                    awaiting_key: false,
                    ..old(self)@
                },
                None => StateV {
                    pc: (old(self)@.pc - 2) as u16,
                    awaiting_key: true,
                    ..old(self)@
                },
            }),
    {
        let mut k: usize = 0;
        while k < NUM_KEYS
            invariant
                k <= NUM_KEYS,
                self.wf(),
                x < NUM_REGS,
                *self == *old(self),
                first_pressed(self@.keys, 0) == first_pressed(self@.keys, k as int),
            decreases NUM_KEYS - k,
        {
            if self.keys[k] {
                proof {
                    assert(first_pressed(self@.keys, k as int) == Some(k as int));
                }
                self.v_reg[x] = k as u8;
                self.awaiting_key = false;
                proof {
                    assert(self@ =~= (StateV {
                        regs: old(self)@.regs.update(x as int, k as u8),
                        awaiting_key: false,
                        ..old(self)@
                    }));
                }
                return;
            }
            k = k + 1;
        }
        proof {
            assert(first_pressed(self@.keys, 0) == None::<int>);
        }
        self.pc = self.pc - 2;
        self.awaiting_key = true;
        proof {
            assert(self@ =~= (StateV {
                pc: (old(self)@.pc - 2) as u16,
                awaiting_key: true,
                ..old(self)@
            }));
        }
    }

    /// The block store: registers V0..VX written to memory at I..I+X; fails
    /// without touching anything when the span leaves memory.
    fn op_store_regs(&mut self, x: usize) -> (r: Result<(), Chip8Error>)
        requires
            old(self).wf(),
            x < NUM_REGS,
        ensures
            final(self).wf(),
            old(self)@.i_reg + x >= RAM_SIZE ==> r == Err::<(), Chip8Error>(Chip8Error::MemoryOutOfBounds)
                && final(self)@ == old(self)@,
            old(self)@.i_reg + x < RAM_SIZE ==> r == Ok::<(), Chip8Error>(())
                && final(self)@ == (StateV {
                    ram: store_ram(old(self)@.ram, old(self)@.i_reg as int, old(self)@.regs, x as int),
                    ..old(self)@
                }),
    {
        if self.i_reg as usize + x >= RAM_SIZE {
            return Err(Chip8Error::MemoryOutOfBounds);
        }
        let ghost s0 = self@;
        let i = self.i_reg as usize;
        let mut j: usize = 0;
        while j <= x
            invariant
                j <= x + 1,
                x < NUM_REGS,
                self.wf(),
                s0 == old(self)@,
                i == s0.i_reg,
                i + x < RAM_SIZE,
                *self == (Emu { ram: self.ram, ..*old(self) }),
                forall|a: int| 0 <= a < RAM_SIZE ==>
                    self.ram@[a] == (if i <= a < i + j { s0.regs[a - i] } else { s0.ram[a] }),
            decreases x + 1 - j,
        {
            self.ram[i + j] = self.v_reg[j];
            j = j + 1;
        }
        proof {
            assert(self@.ram =~= store_ram(s0.ram, s0.i_reg as int, s0.regs, x as int));
            assert(self@ =~= (StateV {
                ram: store_ram(s0.ram, s0.i_reg as int, s0.regs, x as int),
                ..s0
            }));
        }
        Ok(())
    }

    /// The block load: registers V0..VX read from memory at I..I+X; fails
    /// without touching anything when the span leaves memory.
    fn op_load_regs(&mut self, x: usize) -> (r: Result<(), Chip8Error>)
        requires
            old(self).wf(),
            x < NUM_REGS,
        ensures
            final(self).wf(),
            old(self)@.i_reg + x >= RAM_SIZE ==> r == Err::<(), Chip8Error>(Chip8Error::MemoryOutOfBounds)
                && final(self)@ == old(self)@,
            old(self)@.i_reg + x < RAM_SIZE ==> r == Ok::<(), Chip8Error>(())
                && final(self)@ == (StateV {
                    regs: load_regs(old(self)@.regs, old(self)@.ram, old(self)@.i_reg as int, x as int),
                    ..old(self)@
                }),
    {
        if self.i_reg as usize + x >= RAM_SIZE {
            return Err(Chip8Error::MemoryOutOfBounds);
        }
        let ghost s0 = self@;
        let i = self.i_reg as usize;
        let mut j: usize = 0;
        while j <= x
            invariant
                j <= x + 1,
                x < NUM_REGS,
                self.wf(),
                s0 == old(self)@,
                i == s0.i_reg,
                i + x < RAM_SIZE,
                *self == (Emu { v_reg: self.v_reg, ..*old(self) }),
                forall|v: int| 0 <= v < NUM_REGS ==>
                    self.v_reg@[v] == (if 0 <= v < j { s0.ram[i + v] } else { s0.regs[v] }),
            decreases x + 1 - j,
        {
            self.v_reg[j] = self.ram[i + j];
            j = j + 1;
        }
        proof {
            assert(self@.regs =~= load_regs(s0.regs, s0.ram, s0.i_reg as int, x as int));
            assert(self@ =~= (StateV {
                regs: load_regs(s0.regs, s0.ram, s0.i_reg as int, x as int),
                ..s0
            }));
        }
        Ok(())
    }
}

} // verus!
