//! The instruction-set semantics: how a fetched 16-bit word is decoded into
//! four nibbles, and what each instruction pattern does to the machine state.
//! `spec_execute` is the mathematical meaning of the decoder/dispatcher;
//! the executable interpreter in `exec` is proved against it.

use vstd::prelude::*;
use crate::state::{StateV, Chip8Error};
use crate::{RAM_SIZE, SCREEN_SIZE, SCREEN_WIDTH, SCREEN_HEIGHT, NUM_REGS, STACK_SIZE, NUM_KEYS};

verus! {

/// Highest nibble of an instruction word.
pub open spec fn nib1(op: u16) -> u16 {
    op >> 12
}

/// Second nibble: the X register selector.
pub open spec fn nib2(op: u16) -> u16 {
    (op >> 8) & 0xF
}

/// Third nibble: the Y register selector.
pub open spec fn nib3(op: u16) -> u16 {
    (op >> 4) & 0xF
}

/// Lowest nibble.
pub open spec fn nib4(op: u16) -> u16 {
    op & 0xF
}

/// Low byte: the NN immediate.
pub open spec fn op_nn(op: u16) -> u8 {
    (op & 0xFF) as u8
}

/// Low 12 bits: the NNN address immediate.
pub open spec fn op_nnn(op: u16) -> u16 {
    op & 0xFFF
}

/// The four nibbles and the address immediate of any word are in range.
pub proof fn lemma_nibble_bounds(op: u16)
    ensures
        nib1(op) < 16,
        nib2(op) < 16,
        nib3(op) < 16,
        nib4(op) < 16,
        op_nnn(op) < 4096,
{
    assert(op >> 12 < 16 && (op >> 8) & 0xF < 16 && (op >> 4) & 0xF < 16 && op & 0xF < 16
        && op & 0xFFF < 4096) by (bit_vector);
}

/// The given state with the next instruction skipped.
pub open spec fn skip_next(s: StateV) -> StateV {
    StateV { pc: (s.pc + 2) as u16, ..s }
}

/// Index of the lowest pressed key at or above `k`, if any.
pub open spec fn first_pressed(keys: Seq<bool>, k: int) -> Option<int>
    decreases NUM_KEYS - k when 0 <= k <= NUM_KEYS
{
    if k >= NUM_KEYS {
        None
    } else if keys[k] {
        Some(k)
    } else {
        first_pressed(keys, k + 1)
    }
}

/// Whether sprite row byte `row` has its bit for column `c` set
/// (most significant bit first).
pub open spec fn sprite_row_bit(row: u8, c: int) -> bool {
    row & (0x80u8 >> (c as u8)) != 0
}

/// Framebuffer cell targeted by sprite row `r`, column `c` of a sprite drawn
/// at (`vx`, `vy`); each coordinate wraps independently.
pub open spec fn pixel_index(vx: u8, vy: u8, r: int, c: int) -> int {
    ((vy + r) % (SCREEN_HEIGHT as int)) * (SCREEN_WIDTH as int) + ((vx + c) % (SCREEN_WIDTH as int))
}

/// Whether some set sprite bit of the draw at (`vx`, `vy`) from
/// `s.ram[s.i_reg ..]` with `n` rows targets framebuffer cell `p`.
pub open spec fn draw_hits(s: StateV, vx: u8, vy: u8, n: int, p: int) -> bool {
    exists|r: int, c: int|
        0 <= r < n && 0 <= c < 8
        && sprite_row_bit(s.ram[s.i_reg + r], c)
        && pixel_index(vx, vy, r, c) == p
}

/// Whether the draw turns some previously set pixel off: a set sprite bit
/// whose target cell is already on.
pub open spec fn draw_collision(s: StateV, vx: u8, vy: u8, n: int) -> bool {
    exists|r: int, c: int|
        0 <= r < n && 0 <= c < 8
        && sprite_row_bit(s.ram[s.i_reg + r], c)
        && s.screen[pixel_index(vx, vy, r, c)]
}

/// The draw instruction: XOR the `n`-row sprite at `s.ram[s.i_reg ..]` onto
/// the framebuffer at (VX, VY), and set VF to 1 exactly when a set pixel was
/// turned off. Fails when a sprite row would be read past the end of memory.
pub open spec fn spec_draw(s: StateV, x: int, y: int, n: u16) -> Result<StateV, Chip8Error> {
    if s.i_reg + n > RAM_SIZE {
        Err(Chip8Error::MemoryOutOfBounds)
    } else {
        let vx = s.regs[x];
        let vy = s.regs[y];
        Ok(StateV {
            screen: Seq::new(SCREEN_SIZE as nat, |p: int| s.screen[p] ^ draw_hits(s, vx, vy, n as int, p)),
            regs: s.regs.update(0xF, if draw_collision(s, vx, vy, n as int) { 1u8 } else { 0u8 }),
            ..s
        })
    }
}

/// Memory after the BCD instruction: the hundreds, tens, and ones digits of
/// `vx` written at addresses `i`, `i + 1`, `i + 2`.
pub open spec fn bcd_ram(ram: Seq<u8>, i: int, vx: u8) -> Seq<u8> {
    ram.update(i, (vx / 100) as u8).update(i + 1, ((vx / 10) % 10) as u8).update(i + 2, (vx % 10) as u8)
}

/// Memory after the block store: registers V0..VX written at
/// addresses `i` .. `i + x`.
pub open spec fn store_ram(ram: Seq<u8>, i: int, regs: Seq<u8>, x: int) -> Seq<u8> {
    Seq::new(RAM_SIZE as nat, |a: int| if i <= a <= i + x { regs[a - i] } else { ram[a] })
}

/// Registers after the block load: V0..VX read from addresses `i` .. `i + x`,
/// the rest unchanged.
pub open spec fn load_regs(regs: Seq<u8>, ram: Seq<u8>, i: int, x: int) -> Seq<u8> {
    Seq::new(NUM_REGS as nat, |j: int| if 0 <= j <= x { ram[i + j] } else { regs[j] })
}

/// Executing one decoded instruction from the post-fetch state `s` (so `s.pc`
/// already points past the instruction word `op`). `rnd` is the byte the
/// random source supplied; only the CXNN instruction reads it. `Err` reports
/// an unknown opcode, stack misuse, or an out-of-bounds memory access, and
/// such a step leaves the machine as it was.
pub open spec fn spec_execute(s: StateV, op: u16, rnd: u8) -> Result<StateV, Chip8Error> {
    let n1 = nib1(op);
    let n2 = nib2(op);
    let n3 = nib3(op);
    let n4 = nib4(op);
    let x = nib2(op) as int;
    let y = nib3(op) as int;
    let nn = op_nn(op);
    let nnn = op_nnn(op);
    if n1 == 0 && n2 == 0 && n3 == 0 && n4 == 0 {
        // 0000: no-op
        Ok(s)
    } else if n1 == 0 && n2 == 0 && n3 == 0xE && n4 == 0 {
        // 00E0: clear the framebuffer
        Ok(StateV { screen: Seq::new(SCREEN_SIZE as nat, |p: int| false), ..s })
    } else if n1 == 0 && n2 == 0 && n3 == 0xE && n4 == 0xE {
        // 00EE: return from subroutine
        if s.stack.len() == 0 {
            Err(Chip8Error::StackUnderflow)
        } else {
            Ok(StateV { pc: s.stack.last(), stack: s.stack.drop_last(), ..s })
        }
    } else if n1 == 1 {
        // 1NNN: jump
        Ok(StateV { pc: nnn, ..s })
    } else if n1 == 2 {
        // 2NNN: call subroutine
        if s.stack.len() >= STACK_SIZE {
            Err(Chip8Error::StackOverflow)
        } else {
            Ok(StateV { pc: nnn, stack: s.stack.push(s.pc), ..s })
        }
    } else if n1 == 3 {
        // 3XNN: skip if VX == NN
        Ok(if s.regs[x] == nn { skip_next(s) } else { s })
    } else if n1 == 4 {
        // 4XNN: skip if VX != NN
        Ok(if s.regs[x] != nn { skip_next(s) } else { s })
    } else if n1 == 5 && n4 == 0 {
        // 5XY0: skip if VX == VY
        Ok(if s.regs[x] == s.regs[y] { skip_next(s) } else { s })
    } else if n1 == 6 {
        // 6XNN: VX = NN
        Ok(StateV { regs: s.regs.update(x, nn), ..s })
    } else if n1 == 7 {
        // 7XNN: VX += NN, wrapping, no flag effect
        Ok(StateV { regs: s.regs.update(x, ((s.regs[x] + nn) % 256) as u8), ..s })
    } else if n1 == 8 && n4 == 0 {
        // 8XY0: VX = VY
        Ok(StateV { regs: s.regs.update(x, s.regs[y]), ..s })
    } else if n1 == 8 && n4 == 1 {
        // 8XY1: VX |= VY
        Ok(StateV { regs: s.regs.update(x, s.regs[x] | s.regs[y]), ..s })
    } else if n1 == 8 && n4 == 2 {
        // 8XY2: VX &= VY
        Ok(StateV { regs: s.regs.update(x, s.regs[x] & s.regs[y]), ..s })
    } else if n1 == 8 && n4 == 3 {
        // 8XY3: VX ^= VY
        Ok(StateV { regs: s.regs.update(x, s.regs[x] ^ s.regs[y]), ..s })
    } else if n1 == 8 && n4 == 4 {
        // 8XY4: VX += VY; VF = carry
        Ok(StateV {
            regs: s.regs.update(x, ((s.regs[x] + s.regs[y]) % 256) as u8)
                .update(0xF, if s.regs[x] + s.regs[y] >= 256 { 1u8 } else { 0u8 }),
            ..s
        })
    } else if n1 == 8 && n4 == 5 {
        // 8XY5: VX -= VY; VF = 0 on borrow, else 1
        Ok(StateV {
            regs: s.regs.update(x,
                    if s.regs[x] >= s.regs[y] { (s.regs[x] - s.regs[y]) as u8 }
                    else { (s.regs[x] + 256 - s.regs[y]) as u8 })
                .update(0xF, if s.regs[x] < s.regs[y] { 0u8 } else { 1u8 }),
            ..s
        })
    } else if n1 == 8 && n4 == 6 {
        // 8XY6: VF = low bit of VX; VX >>= 1
        Ok(StateV {
            regs: s.regs.update(x, s.regs[x] >> 1u8).update(0xF, s.regs[x] & 1),
            ..s
        })
    } else if n1 == 8 && n4 == 7 {
        // 8XY7: VX = VY - VX; VF = 0 on borrow, else 1
        Ok(StateV {
            regs: s.regs.update(x,
                    if s.regs[y] >= s.regs[x] { (s.regs[y] - s.regs[x]) as u8 }
                    else { (s.regs[y] + 256 - s.regs[x]) as u8 })
                .update(0xF, if s.regs[y] < s.regs[x] { 0u8 } else { 1u8 }),
            ..s
        })
    } else if n1 == 8 && n4 == 0xE {
        // 8XYE: VF = high bit of VX; VX <<= 1
        Ok(StateV {
            regs: s.regs.update(x, s.regs[x] << 1u8).update(0xF, (s.regs[x] >> 7u8) & 1),
            ..s
        })
    } else if n1 == 9 && n4 == 0 {
        // 9XY0: skip if VX != VY
        Ok(if s.regs[x] != s.regs[y] { skip_next(s) } else { s })
    } else if n1 == 0xA {
        // ANNN: I = NNN
        Ok(StateV { i_reg: nnn, ..s })
    } else if n1 == 0xB {
        // BNNN: pc = V0 + NNN
        Ok(StateV { pc: (s.regs[0] + nnn) as u16, ..s })
    } else if n1 == 0xC {
        // CXNN: VX = random byte AND NN
        Ok(StateV { regs: s.regs.update(x, rnd & nn), ..s })
    } else if n1 == 0xD {
        // DXYN: draw an N-row sprite at (VX, VY)
        spec_draw(s, x, y, n4)
    } else if n1 == 0xE && n3 == 9 && n4 == 0xE {
        // EX9E: skip if the key named by the low nibble of VX is pressed
        Ok(if s.keys[(s.regs[x] & 0xF) as int] { skip_next(s) } else { s })
    } else if n1 == 0xE && n3 == 0xA && n4 == 1 {
        // EXA1: skip if that key is not pressed
        Ok(if !s.keys[(s.regs[x] & 0xF) as int] { skip_next(s) } else { s })
    } else if n1 == 0xF && n3 == 0 && n4 == 7 {
        // FX07: VX = delay timer
        Ok(StateV { regs: s.regs.update(x, s.dt), ..s })
    } else if n1 == 0xF && n3 == 0 && n4 == 0xA {
        // FX0A: wait for a key; block in place until one is pressed
        match first_pressed(s.keys, 0) {
            Some(k) => Ok(StateV { regs: s.regs.update(x, k as u8), awaiting_key: false, ..s }),
            None => Ok(StateV { pc: (s.pc - 2) as u16, awaiting_key: true, ..s }),
        }
    } else if n1 == 0xF && n3 == 1 && n4 == 5 {
        // FX15: delay timer = VX
        Ok(StateV { dt: s.regs[x], ..s })
    } else if n1 == 0xF && n3 == 1 && n4 == 8 {
        // FX18: sound timer = VX
        Ok(StateV { st: s.regs[x], ..s })
    } else if n1 == 0xF && n3 == 1 && n4 == 0xE {
        // FX1E: I += VX, wrapping
        Ok(StateV { i_reg: ((s.i_reg + s.regs[x]) % 0x10000) as u16, ..s })
    } else if n1 == 0xF && n3 == 2 && n4 == 9 {
        // FX29: I = font glyph address for the low nibble of VX
        Ok(StateV { i_reg: ((s.regs[x] & 0xF) * 5) as u16, ..s })
    } else if n1 == 0xF && n3 == 3 && n4 == 3 {
        // FX33: write VX as three BCD digits at I, I+1, I+2
        if s.i_reg + 2 >= RAM_SIZE {
            Err(Chip8Error::MemoryOutOfBounds)
        } else {
            Ok(StateV { ram: bcd_ram(s.ram, s.i_reg as int, s.regs[x]), ..s })
        }
    } else if n1 == 0xF && n3 == 5 && n4 == 5 {
        // FX55: store V0..VX at I..I+X
        if s.i_reg + n2 >= RAM_SIZE {
            Err(Chip8Error::MemoryOutOfBounds)
        } else {
            Ok(StateV { ram: store_ram(s.ram, s.i_reg as int, s.regs, x), ..s })
        }
    } else if n1 == 0xF && n3 == 6 && n4 == 5 {
        // FX65: load V0..VX from I..I+X
        if s.i_reg + n2 >= RAM_SIZE {
            Err(Chip8Error::MemoryOutOfBounds)
        } else {
            Ok(StateV { regs: load_regs(s.regs, s.ram, s.i_reg as int, x), ..s })
        }
    } else {
        Err(Chip8Error::UnknownOpcode(op))
    }
}

/// One timer step: each nonzero timer drops by 1 and clamps at 0; the beep
/// signal accompanies exactly the step that takes the sound timer from 1 to 0.
pub open spec fn spec_tick_timers(s: StateV) -> (StateV, bool) {
    (
        StateV {
            dt: if s.dt > 0 { (s.dt - 1) as u8 } else { 0u8 },
            st: if s.st > 0 { (s.st - 1) as u8 } else { 0u8 },
            ..s
        },
        s.st == 1,
    )
}

/// How one executed instruction relates the post-fetch state `pre` to the
/// machine state `post` and the reported result `r`: a successful step ends
/// in the state `spec_execute` gives, and a failed one reports its error and
/// leaves the machine as it was.
pub open spec fn execute_outcome(pre: StateV, op: u16, rnd: u8, post: StateV, r: Result<(), Chip8Error>) -> bool {
    match spec_execute(pre, op, rnd) {
        Ok(s2) => r == Ok::<(), Chip8Error>(()) && post == s2,
        Err(e) => r == Err::<(), Chip8Error>(e) && post == pre,
    }
}

} // verus!
