//! The draw instruction: XOR-compositing an 8-bit-wide sprite onto the
//! framebuffer with collision detection, proved against `spec_draw`.

use vstd::prelude::*;
use crate::state::{Emu, StateV, Chip8Error};
use crate::step::{spec_draw, draw_hits, draw_collision, sprite_row_bit, pixel_index};
use crate::{RAM_SIZE, SCREEN_SIZE, SCREEN_WIDTH, SCREEN_HEIGHT, NUM_REGS};

verus! {

/// `draw_hits` restricted to the first `k` sprite bits in row-major order:
/// bit (rr, cc) is counted once `8 * rr + cc < k`.
spec fn hits_upto(s0: StateV, vx: u8, vy: u8, n: int, k: int, p: int) -> bool {
    exists|rr: int, cc: int|
        0 <= rr < n && 0 <= cc < 8 && 8 * rr + cc < k
        && sprite_row_bit(s0.ram[s0.i_reg + rr], cc)
        && pixel_index(vx, vy, rr, cc) == p
}

/// `draw_collision` restricted to the first `k` sprite bits.
spec fn collision_upto(s0: StateV, vx: u8, vy: u8, n: int, k: int) -> bool {
    exists|rr: int, cc: int|
        0 <= rr < n && 0 <= cc < 8 && 8 * rr + cc < k
        && sprite_row_bit(s0.ram[s0.i_reg + rr], cc)
        && s0.screen[pixel_index(vx, vy, rr, cc)]
}

/// Distinct sprite bits of one draw land on distinct framebuffer cells:
/// 8 columns never wrap into each other on a 64-wide screen, nor do up to
/// 32 rows on a 32-high screen.
proof fn lemma_pixel_index_inj(vx: u8, vy: u8, r1: int, c1: int, r2: int, c2: int)
    requires
        0 <= r1 < 32,
        0 <= c1 < 8,
        0 <= r2 < 32,
        0 <= c2 < 8,
        !(r1 == r2 && c1 == c2),
    ensures
        pixel_index(vx, vy, r1, c1) != pixel_index(vx, vy, r2, c2),
{
    let q1 = (vy + r1) % 32;
    let m1 = (vx + c1) % 64;
    let q2 = (vy + r2) % 32;
    let m2 = (vx + c2) % 64;
    assert(0 <= q1 < 32 && 0 <= q2 < 32 && 0 <= m1 < 64 && 0 <= m2 < 64);
    if pixel_index(vx, vy, r1, c1) == pixel_index(vx, vy, r2, c2) {
        assert(q1 == q2 && m1 == m2);
        assert(r1 == r2) by {
            assert((vy + r1) - 32 * ((vy + r1) / 32) == (vy + r2) - 32 * ((vy + r2) / 32));
        };
        assert(c1 == c2) by {
            assert((vx + c1) - 64 * ((vx + c1) / 64) == (vx + c2) - 64 * ((vx + c2) / 64));
        };
        assert(false);
    }
}

/// Counting one more sprite bit extends the hit set by exactly that bit.
proof fn lemma_hits_step(s0: StateV, vx: u8, vy: u8, n: int, row: int, col: int, p: int)
    requires
        0 <= row,
        0 <= col < 8,
    ensures
        hits_upto(s0, vx, vy, n, 8 * row + col + 1, p) ==
            (hits_upto(s0, vx, vy, n, 8 * row + col, p)
             || (row < n
                 && sprite_row_bit(s0.ram[s0.i_reg + row], col)
                 && pixel_index(vx, vy, row, col) == p)),
{
    let k = 8 * row + col;
    if hits_upto(s0, vx, vy, n, k + 1, p) {
        let (rr, cc) = choose|rr: int, cc: int|
            0 <= rr < n && 0 <= cc < 8 && 8 * rr + cc < k + 1
            && sprite_row_bit(s0.ram[s0.i_reg + rr], cc)
            && pixel_index(vx, vy, rr, cc) == p;
        if 8 * rr + cc == k {
            assert(rr == row && cc == col);
        } else {
            assert(hits_upto(s0, vx, vy, n, k, p));
        }
    }
    if hits_upto(s0, vx, vy, n, k, p) {
        let (rr, cc) = choose|rr: int, cc: int|
            0 <= rr < n && 0 <= cc < 8 && 8 * rr + cc < k
            && sprite_row_bit(s0.ram[s0.i_reg + rr], cc)
            && pixel_index(vx, vy, rr, cc) == p;
        assert(hits_upto(s0, vx, vy, n, k + 1, p));
    }
    if row < n && sprite_row_bit(s0.ram[s0.i_reg + row], col) && pixel_index(vx, vy, row, col) == p {
        assert(hits_upto(s0, vx, vy, n, k + 1, p));
    }
}

/// Counting one more sprite bit extends the collision set by that bit's
/// contribution.
proof fn lemma_collision_step(s0: StateV, vx: u8, vy: u8, n: int, row: int, col: int)
    requires
        0 <= row,
        0 <= col < 8,
    ensures
        collision_upto(s0, vx, vy, n, 8 * row + col + 1) ==
            (collision_upto(s0, vx, vy, n, 8 * row + col)
             || (row < n
                 && sprite_row_bit(s0.ram[s0.i_reg + row], col)
                 && s0.screen[pixel_index(vx, vy, row, col)])),
{
    let k = 8 * row + col;
    if collision_upto(s0, vx, vy, n, k + 1) {
        let (rr, cc) = choose|rr: int, cc: int|
            0 <= rr < n && 0 <= cc < 8 && 8 * rr + cc < k + 1
            && sprite_row_bit(s0.ram[s0.i_reg + rr], cc)
            && s0.screen[pixel_index(vx, vy, rr, cc)];
        if 8 * rr + cc == k {
            assert(rr == row && cc == col);
        } else {
            assert(collision_upto(s0, vx, vy, n, k));
        }
    }
    if collision_upto(s0, vx, vy, n, k) {
        let (rr, cc) = choose|rr: int, cc: int|
            0 <= rr < n && 0 <= cc < 8 && 8 * rr + cc < k
            && sprite_row_bit(s0.ram[s0.i_reg + rr], cc)
            && s0.screen[pixel_index(vx, vy, rr, cc)];
        assert(collision_upto(s0, vx, vy, n, k + 1));
    }
    if row < n && sprite_row_bit(s0.ram[s0.i_reg + row], col) && s0.screen[pixel_index(vx, vy, row, col)] {
        assert(collision_upto(s0, vx, vy, n, k + 1));
    }
}

/// After all `8 * n` sprite bits, the restricted predicates are the full ones.
proof fn lemma_sweep_complete(s0: StateV, vx: u8, vy: u8, n: int, p: int)
    ensures
        hits_upto(s0, vx, vy, n, 8 * n, p) == draw_hits(s0, vx, vy, n, p),
        collision_upto(s0, vx, vy, n, 8 * n) == draw_collision(s0, vx, vy, n),
{
    if draw_hits(s0, vx, vy, n, p) {
        let (rr, cc) = choose|rr: int, cc: int|
            0 <= rr < n && 0 <= cc < 8
            && sprite_row_bit(s0.ram[s0.i_reg + rr], cc)
            && pixel_index(vx, vy, rr, cc) == p;
        assert(8 * rr + cc < 8 * n);
        assert(hits_upto(s0, vx, vy, n, 8 * n, p));
    }
    if draw_collision(s0, vx, vy, n) {
        let (rr, cc) = choose|rr: int, cc: int|
            0 <= rr < n && 0 <= cc < 8
            && sprite_row_bit(s0.ram[s0.i_reg + rr], cc)
            && s0.screen[pixel_index(vx, vy, rr, cc)];
        assert(8 * rr + cc < 8 * n);
        assert(collision_upto(s0, vx, vy, n, 8 * n));
    }
}

/// No sprite bit processed before `(row, col)` lands on the cell that bit
/// `(row, col)` itself targets.
proof fn lemma_no_earlier_hit(s0: StateV, vx: u8, vy: u8, n: int, row: int, col: int)
    requires
        0 <= row < n,
        0 <= col < 8,
        n <= 32,
    ensures
        !hits_upto(s0, vx, vy, n, 8 * row + col, pixel_index(vx, vy, row, col)),
{
    let p = pixel_index(vx, vy, row, col);
    if hits_upto(s0, vx, vy, n, 8 * row + col, p) {
        let (rr, cc) = choose|rr: int, cc: int|
            0 <= rr < n && 0 <= cc < 8 && 8 * rr + cc < 8 * row + col
            && sprite_row_bit(s0.ram[s0.i_reg + rr], cc)
            && pixel_index(vx, vy, rr, cc) == p;
        assert(!(rr == row && cc == col));
        lemma_pixel_index_inj(vx, vy, rr, cc, row, col);
        assert(false);
    }
}

impl Emu {
    /// Draw the `n`-row sprite at memory[I ..] to the screen position named
    /// by registers `x` and `y`, per `spec_draw`: pixels are XOR-toggled with
    /// per-axis wrapping, and VF reports whether any set pixel was turned off.
    pub(crate) fn op_draw(&mut self, x: usize, y: usize, n: u16) -> (r: Result<(), Chip8Error>)
        requires
            old(self).wf(),
            x < NUM_REGS,
            y < NUM_REGS,
            n < 16,
        ensures
            final(self).wf(),
            match spec_draw(old(self)@, x as int, y as int, n) {
                Ok(s2) => r == Ok::<(), Chip8Error>(()) && final(self)@ == s2,
                Err(e) => r == Err::<(), Chip8Error>(e) && final(self)@ == old(self)@,
            },
    {
        if self.i_reg as usize + n as usize > RAM_SIZE {
            return Err(Chip8Error::MemoryOutOfBounds);
        }
        let ghost s0 = self@;
        let vx = self.v_reg[x];
        let vy = self.v_reg[y];
        let ghost n_i = n as int;
        let mut flipped = false;
        let mut row: u16 = 0;
        while row < n
            invariant
                self.wf(),
                row <= n,
                n < 16,
                self.i_reg as int + n_i <= RAM_SIZE,
                n_i == n as int,
                vx == s0.regs[x as int],
                vy == s0.regs[y as int],
                self.pc == s0.pc,
                self.ram@ == s0.ram,
                self.v_reg@ == s0.regs,
                self.i_reg == s0.i_reg,
                self.stack@.take(self.sp as int) == s0.stack,
                self.keys@ == s0.keys,
                self.dt == s0.dt,
                self.st == s0.st,
                self.awaiting_key == s0.awaiting_key,
                forall|p: int| 0 <= p < SCREEN_SIZE ==>
                    self.screen@[p] == (s0.screen[p] ^ hits_upto(s0, vx, vy, n_i, 8 * row, p)),
                flipped == collision_upto(s0, vx, vy, n_i, 8 * row),
            decreases n - row,
        {
            let pixels = self.ram[self.i_reg as usize + row as usize];
            let mut col: u8 = 0;
            while col < 8
                invariant
                    self.wf(),
                    col <= 8,
                    row < n,
                    n < 16,
                    self.i_reg as int + n_i <= RAM_SIZE,
                    n_i == n as int,
                    vx == s0.regs[x as int],
                    vy == s0.regs[y as int],
                    pixels == s0.ram[s0.i_reg + row],
                    self.pc == s0.pc,
                    self.ram@ == s0.ram,
                    self.v_reg@ == s0.regs,
                    self.i_reg == s0.i_reg,
                    self.stack@.take(self.sp as int) == s0.stack,
                    self.keys@ == s0.keys,
                    self.dt == s0.dt,
                    self.st == s0.st,
                    self.awaiting_key == s0.awaiting_key,
                    forall|p: int| 0 <= p < SCREEN_SIZE ==>
                        self.screen@[p] == (s0.screen[p] ^ hits_upto(s0, vx, vy, n_i, 8 * row + col, p)),
                    flipped == collision_upto(s0, vx, vy, n_i, 8 * row + col),
                decreases 8 - col,
            {
                let ghost row_i = row as int;
                let ghost col_i = col as int;
                if pixels & (0x80u8 >> col) != 0 {
                    let px = (vx as usize + col as usize) % SCREEN_WIDTH;
                    let py = (vy as usize + row as usize) % SCREEN_HEIGHT;
                    let idx = py * SCREEN_WIDTH + px;
                    proof {
                        assert(idx == pixel_index(vx, vy, row_i, col_i));
                        lemma_no_earlier_hit(s0, vx, vy, n_i, row_i, col_i);
                        assert(self.screen@[idx as int] == s0.screen[idx as int]);
                    }
                    flipped = flipped || self.screen[idx];
                    self.screen[idx] = !self.screen[idx];
                    proof {
                        assert forall|p: int| 0 <= p < SCREEN_SIZE implies
                            self.screen@[p] == (s0.screen[p] ^ hits_upto(s0, vx, vy, n_i, 8 * row_i + col_i + 1, p)) by {
                            lemma_hits_step(s0, vx, vy, n_i, row_i, col_i, p);
                        }
                        lemma_collision_step(s0, vx, vy, n_i, row_i, col_i);
                    }
                } else {
                    proof {
                        assert(!sprite_row_bit(s0.ram[s0.i_reg + row_i], col_i));
                        assert forall|p: int| 0 <= p < SCREEN_SIZE implies
                            self.screen@[p] == (s0.screen[p] ^ hits_upto(s0, vx, vy, n_i, 8 * row_i + col_i + 1, p)) by {
                            lemma_hits_step(s0, vx, vy, n_i, row_i, col_i, p);
                        }
                        lemma_collision_step(s0, vx, vy, n_i, row_i, col_i);
                    }
                }
                col = col + 1;
            }
            row = row + 1;
        }
        self.v_reg[0xF] = if flipped { 1 } else { 0 };
        proof {
            assert forall|p: int| 0 <= p < SCREEN_SIZE implies
                self.screen@[p] == (s0.screen[p] ^ draw_hits(s0, vx, vy, n_i, p)) by {
                lemma_sweep_complete(s0, vx, vy, n_i, p);
            }
            lemma_sweep_complete(s0, vx, vy, n_i, 0);
            assert(self@.screen =~= Seq::new(SCREEN_SIZE as nat, |p: int|
                s0.screen[p] ^ draw_hits(s0, vx, vy, n_i, p)));
            assert(self@ =~= (StateV {
                screen: Seq::new(SCREEN_SIZE as nat, |p: int| s0.screen[p] ^ draw_hits(s0, vx, vy, n_i, p)),
                regs: s0.regs.update(0xF, if draw_collision(s0, vx, vy, n_i) { 1u8 } else { 0u8 }),
                ..s0
            }));
        }
        Ok(())
    }
}

} // verus!
