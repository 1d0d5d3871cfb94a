//! Laws of the instruction set: properties that hold of every machine state,
//! stated over the spec transition function and proved once and for all.

use vstd::prelude::*;
use crate::state::StateV;
use crate::step::{
    spec_execute, spec_tick_timers, nib1, nib2, nib3, nib4, op_nn, op_nnn,
    sprite_row_bit, pixel_index, draw_hits, draw_collision, lemma_nibble_bounds,
};
use crate::{RAM_SIZE, NUM_REGS, STACK_SIZE};

verus! {

/// Loading an immediate: after any 6XNN instruction, VX reads back exactly
/// NN, and every other register keeps its value.
pub proof fn lemma_load_immediate(s: StateV, op: u16, rnd: u8)
    requires
        s.wf(),
        nib1(op) == 6,
    ensures
        ({
            let r = spec_execute(s, op, rnd);
            let x = nib2(op) as int;
            &&& r matches Ok(s2)
            &&& (r matches Ok(s2) ==> s2.regs[x] == op_nn(op))
            &&& (r matches Ok(s2) ==> forall|j: int|
                    0 <= j < NUM_REGS && j != x ==> s2.regs[j] == s.regs[j])
        }),
{
    lemma_nibble_bounds(op);
}

/// Adding an immediate: any 7XNN instruction leaves VX holding
/// (VX + NN) mod 256 and touches no other register; in particular the flag
/// register is untouched whenever it is not the target itself.
pub proof fn lemma_add_immediate(s: StateV, op: u16, rnd: u8)
    requires
        s.wf(),
        nib1(op) == 7,
    ensures
        ({
            let r = spec_execute(s, op, rnd);
            let x = nib2(op) as int;
            &&& r matches Ok(s2)
            &&& (r matches Ok(s2) ==> s2.regs[x] == (s.regs[x] + op_nn(op)) % 256)
            &&& (r matches Ok(s2) ==> forall|j: int|
                    0 <= j < NUM_REGS && j != x ==> s2.regs[j] == s.regs[j])
        }),
{
    lemma_nibble_bounds(op);
}

/// Add with carry: after any 8XY4 instruction the flag register is 1 exactly
/// when VX + VY reached 256, and VX (when it is not the flag register itself)
/// holds the sum modulo 256.
pub proof fn lemma_add_with_carry(s: StateV, op: u16, rnd: u8)
    requires
        s.wf(),
        nib1(op) == 8,
        nib4(op) == 4,
    ensures
        ({
            let r = spec_execute(s, op, rnd);
            let x = nib2(op) as int;
            let y = nib3(op) as int;
            &&& r matches Ok(s2)
            &&& (r matches Ok(s2) ==> (s2.regs[0xF] == 1 <==> s.regs[x] + s.regs[y] >= 256))
            &&& (r matches Ok(s2) ==> (s2.regs[0xF] == 1 || s2.regs[0xF] == 0))
            &&& (r matches Ok(s2) && x != 0xF ==> s2.regs[x] == (s.regs[x] + s.regs[y]) % 256)
        }),
{
    lemma_nibble_bounds(op);
}

/// Subtract with borrow: after any 8XY5 instruction the flag register is 0
/// exactly when VX < VY before the step, and VX (when it is not the flag
/// register itself) holds (VX - VY) mod 256.
pub proof fn lemma_sub_with_borrow(s: StateV, op: u16, rnd: u8)
    requires
        s.wf(),
        nib1(op) == 8,
        nib4(op) == 5,
    ensures
        ({
            let r = spec_execute(s, op, rnd);
            let x = nib2(op) as int;
            let y = nib3(op) as int;
            &&& r matches Ok(s2)
            &&& (r matches Ok(s2) ==> (s2.regs[0xF] == 0 <==> s.regs[x] < s.regs[y]))
            &&& (r matches Ok(s2) ==> (s2.regs[0xF] == 1 || s2.regs[0xF] == 0))
            &&& (r matches Ok(s2) && x != 0xF ==> s2.regs[x] == (s.regs[x] - s.regs[y]) % 256)
        }),
{
    lemma_nibble_bounds(op);
}

/// Draw idempotence: drawing the same sprite at the same location twice in
/// succession restores the framebuffer, because XOR is self-inverse; and the
/// second draw reports a collision exactly when the first draw turned some
/// pixel on, that is, when some set sprite bit targets a cell that was clear
/// before the first draw. (The sprite coordinates must not live in the flag
/// register, which the first draw overwrites.)
pub proof fn lemma_draw_twice_restores(s: StateV, op: u16, rnd1: u8, rnd2: u8)
    requires
        s.wf(),
        nib1(op) == 0xD,
        nib2(op) != 0xF,
        nib3(op) != 0xF,
        s.i_reg + nib4(op) <= RAM_SIZE,
    ensures
        ({
            let x = nib2(op) as int;
            let y = nib3(op) as int;
            let n = nib4(op) as int;
            let vx = s.regs[x];
            let vy = s.regs[y];
            let r1 = spec_execute(s, op, rnd1);
            &&& r1 matches Ok(s1)
            &&& (r1 matches Ok(s1) ==> {
                let r2 = spec_execute(s1, op, rnd2);
                &&& r2 matches Ok(s2)
                &&& (r2 matches Ok(s2) ==> s2.screen == s.screen)
                &&& (r2 matches Ok(s2) ==> (s2.regs[0xF] == 1 <==> exists|rr: int, cc: int|
                        0 <= rr < n && 0 <= cc < 8
                        && sprite_row_bit(s.ram[s.i_reg + rr], cc)
                        && !s.screen[pixel_index(vx, vy, rr, cc)]))
            })
        }),
{
    lemma_nibble_bounds(op);
    let x = nib2(op) as int;
    let y = nib3(op) as int;
    let n = nib4(op) as int;
    let vx = s.regs[x];
    let vy = s.regs[y];
    let s1 = spec_execute(s, op, rnd1)->Ok_0;
    assert(s1.regs[x] == vx && s1.regs[y] == vy);
    assert(s1.ram == s.ram && s1.i_reg == s.i_reg);

    // The second draw sees the same sprite bits as the first.
    assert forall|p: int| draw_hits(s1, vx, vy, n, p) == draw_hits(s, vx, vy, n, p) by {
        if draw_hits(s1, vx, vy, n, p) {
            let (rr, cc) = choose|rr: int, cc: int|
                0 <= rr < n && 0 <= cc < 8
                && sprite_row_bit(s1.ram[s1.i_reg + rr], cc)
                && pixel_index(vx, vy, rr, cc) == p;
            assert(sprite_row_bit(s.ram[s.i_reg + rr], cc));
            assert(draw_hits(s, vx, vy, n, p));
        }
        if draw_hits(s, vx, vy, n, p) {
            let (rr, cc) = choose|rr: int, cc: int|
                0 <= rr < n && 0 <= cc < 8
                && sprite_row_bit(s.ram[s.i_reg + rr], cc)
                && pixel_index(vx, vy, rr, cc) == p;
            assert(sprite_row_bit(s1.ram[s1.i_reg + rr], cc));
            assert(draw_hits(s1, vx, vy, n, p));
        }
    }

    let s2 = spec_execute(s1, op, rnd2)->Ok_0;
    assert(s2.screen =~= s.screen);

    // A set sprite bit's target cell is toggled by the first draw, so the
    // second draw collides there exactly when the cell started out clear.
    assert(draw_collision(s1, vx, vy, n) == (exists|rr: int, cc: int|
        0 <= rr < n && 0 <= cc < 8
        && sprite_row_bit(s.ram[s.i_reg + rr], cc)
        && !s.screen[pixel_index(vx, vy, rr, cc)])) by {
        if draw_collision(s1, vx, vy, n) {
            let (rr, cc) = choose|rr: int, cc: int|
                0 <= rr < n && 0 <= cc < 8
                && sprite_row_bit(s1.ram[s1.i_reg + rr], cc)
                && s1.screen[pixel_index(vx, vy, rr, cc)];
            let p = pixel_index(vx, vy, rr, cc);
            assert(0 <= p < crate::SCREEN_SIZE);
            assert(sprite_row_bit(s.ram[s.i_reg + rr], cc));
            assert(draw_hits(s, vx, vy, n, p));
            assert(s1.screen[p] == (s.screen[p] ^ true));
            assert(!s.screen[p]);
        }
        if exists|rr: int, cc: int|
            0 <= rr < n && 0 <= cc < 8
            && sprite_row_bit(s.ram[s.i_reg + rr], cc)
            && !s.screen[pixel_index(vx, vy, rr, cc)] {
            let (rr, cc) = choose|rr: int, cc: int|
                0 <= rr < n && 0 <= cc < 8
                && sprite_row_bit(s.ram[s.i_reg + rr], cc)
                && !s.screen[pixel_index(vx, vy, rr, cc)];
            let p = pixel_index(vx, vy, rr, cc);
            assert(0 <= p < crate::SCREEN_SIZE);
            assert(draw_hits(s, vx, vy, n, p));
            assert(s1.screen[p]);
            assert(sprite_row_bit(s1.ram[s1.i_reg + rr], cc));
            assert(draw_collision(s1, vx, vy, n));
        }
    }
}

/// Sound timer beep trigger: from a sound timer of 1, the very next timer
/// step beeps and brings the timer to 0, and the step after that does not
/// beep; from a sound timer of 0, a step never beeps and the timer stays 0.
pub proof fn lemma_sound_timer_beep(s: StateV)
    ensures
        ({
            let (s1, b1) = spec_tick_timers(StateV { st: 1u8, ..s });
            let (s2, b2) = spec_tick_timers(s1);
            b1 && s1.st == 0 && !b2 && s2.st == 0
        }),
        ({
            let (s1, b1) = spec_tick_timers(StateV { st: 0u8, ..s });
            !b1 && s1.st == 0
        }),
{
}

/// Call/return round-trip: any 2NNN instruction (with stack room) moves the
/// program counter to NNN and pushes the post-fetch return address; the
/// matching 00EE pops it back, restoring the program counter and the stack,
/// with registers and memory untouched throughout.
pub proof fn lemma_call_return_round_trip(s: StateV, call_op: u16, rnd1: u8, rnd2: u8)
    requires
        s.wf(),
        nib1(call_op) == 2,
        s.stack.len() < STACK_SIZE,
    ensures
        ({
            let r1 = spec_execute(s, call_op, rnd1);
            &&& r1 matches Ok(s1)
            &&& (r1 matches Ok(s1) ==> s1.pc == op_nnn(call_op)
                && s1.stack == s.stack.push(s.pc)
                && {
                    let r2 = spec_execute(s1, 0x00EE, rnd2);
                    &&& r2 matches Ok(s2)
                    &&& (r2 matches Ok(s2) ==> s2.pc == s.pc && s2.stack == s.stack
                        && s2.regs == s.regs && s2.ram == s.ram && s2.screen == s.screen)
                })
        }),
{
    lemma_nibble_bounds(call_op);
    assert(nib1(0x00EEu16) == 0 && nib2(0x00EEu16) == 0 && nib3(0x00EEu16) == 0xE
        && nib4(0x00EEu16) == 0xE) by (bit_vector);
    assert(s.stack.push(s.pc).drop_last() =~= s.stack);
    assert(s.stack.push(s.pc).last() == s.pc);
}

} // verus!

