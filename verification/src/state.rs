//! Machine state: the `Emu` struct, its mathematical model `StateV`, and the
//! state-store operations (construction, reset, program loading, key events,
//! the call stack, and instruction fetch).

use vstd::prelude::*;
use crate::{RAM_SIZE, SCREEN_SIZE, NUM_REGS, STACK_SIZE, NUM_KEYS, START_ADDR, FONTSET_SIZE};

verus! {

/// The font sprite table: sixteen 5-byte glyphs for the hex digits 0..F,
/// held read-only at addresses [0, 80) after initialization.
pub const FONT: [u8; FONTSET_SIZE] = [
    0xF0, 0x90, 0x90, 0x90, 0xF0, // 0
    0x20, 0x60, 0x20, 0x20, 0x70, // 1
    0xF0, 0x10, 0xF0, 0x80, 0xF0, // 2
    0xF0, 0x10, 0xF0, 0x10, 0xF0, // 3
    0x90, 0x90, 0xF0, 0x10, 0x10, // 4
    0xF0, 0x80, 0xF0, 0x10, 0xF0, // 5
    0xF0, 0x80, 0xF0, 0x90, 0xF0, // 6
    0xF0, 0x10, 0x20, 0x40, 0x40, // 7
    0xF0, 0x90, 0xF0, 0x90, 0xF0, // 8
    0xF0, 0x90, 0xF0, 0x10, 0xF0, // 9
    0xF0, 0x90, 0xF0, 0x90, 0x90, // A
    0xE0, 0x90, 0xE0, 0x90, 0xE0, // B
    0xF0, 0x80, 0x80, 0x80, 0xF0, // C
    0xE0, 0x90, 0x90, 0x90, 0xE0, // D
    0xF0, 0x80, 0xF0, 0x80, 0xF0, // E
    0xF0, 0x80, 0xF0, 0x80, 0x80, // F
];

/// A failure of a single `tick`. The host decides whether to halt, reset,
/// or skip and continue; no error corrupts the machine state.
#[derive(Clone, Copy, Debug, PartialEq, Eq, Structural)]
pub enum Chip8Error {
    /// The fetched word matches no instruction pattern.
    UnknownOpcode(u16),
    /// A call was made with 16 return addresses already stacked.
    StackOverflow,
    /// A return was executed with an empty call stack.
    StackUnderflow,
    /// A fetch, draw, or block store/load referenced an address >= 4096.
    MemoryOutOfBounds,
}

/// The mathematical model of the machine: what every contract speaks of.
/// `stack` holds only the live entries, bottom first.
#[verifier::ext_equal]
pub ghost struct StateV {
    pub pc: u16,
    pub ram: Seq<u8>,
    pub screen: Seq<bool>,
    pub regs: Seq<u8>,
    pub i_reg: u16,
    pub stack: Seq<u16>,
    pub keys: Seq<bool>,
    pub dt: u8,
    pub st: u8,
    pub awaiting_key: bool,
}

impl StateV {
    /// Well-formedness: the fixed sizes of the state store, and the call
    /// stack within its capacity.
    pub open spec fn wf(self) -> bool {
        &&& self.ram.len() == RAM_SIZE
        &&& self.screen.len() == SCREEN_SIZE
        &&& self.regs.len() == NUM_REGS
        &&& self.keys.len() == NUM_KEYS
        &&& self.stack.len() <= STACK_SIZE
    }
}

/// The canonical power-on state: pc at the start address, the font table in
/// the first 80 bytes of memory, and everything else zeroed.
pub open spec fn initial_state() -> StateV {
    StateV {
        pc: START_ADDR,
        ram: Seq::new(RAM_SIZE as nat, |a: int| if 0 <= a < FONTSET_SIZE { FONT@[a] } else { 0u8 }),
        screen: Seq::new(SCREEN_SIZE as nat, |p: int| false),
        regs: Seq::new(NUM_REGS as nat, |x: int| 0u8),
        i_reg: 0,
        stack: Seq::empty(),
        keys: Seq::new(NUM_KEYS as nat, |k: int| false),
        dt: 0,
        st: 0,
        awaiting_key: false,
    }
}

/// The CHIP-8 virtual machine.
///
/// All fields are host-readable; the interpreter is their sole writer while
/// it runs. The model of a machine `e` is the ghost value `e@`.
pub struct Emu {
    pub pc: u16,
    pub ram: [u8; RAM_SIZE],
    pub screen: [bool; SCREEN_SIZE],
    pub v_reg: [u8; NUM_REGS],
    pub i_reg: u16,
    pub sp: u16,
    pub stack: [u16; STACK_SIZE],
    pub keys: [bool; NUM_KEYS],
    pub dt: u8,
    pub st: u8,
    pub awaiting_key: bool,
}

impl View for Emu {
    type V = StateV;

    open spec fn view(&self) -> StateV {
        StateV {
            pc: self.pc,
            ram: self.ram@,
            screen: self.screen@,
            regs: self.v_reg@,
            i_reg: self.i_reg,
            stack: self.stack@.take(self.sp as int),
            keys: self.keys@,
            dt: self.dt,
            st: self.st,
            awaiting_key: self.awaiting_key,
        }
    }
}

/// Fetching at `s.pc` when both instruction bytes are in memory: the
/// post-fetch state (pc advanced by 2) and the big-endian instruction word.
/// `None` when the fetch would read past the end of memory.
pub open spec fn spec_fetch(s: StateV) -> Option<(StateV, u16)> {
    if s.pc as int + 1 < RAM_SIZE {
        Some((
            StateV { pc: (s.pc + 2) as u16, ..s },
            ((s.ram[s.pc as int] as u16) << 8) | (s.ram[s.pc as int + 1] as u16),
        ))
    } else {
        None
    }
}

impl Emu {
    /// Well-formedness of the executable machine: the stack pointer stays
    /// within the stack's capacity.
    pub open spec fn wf(&self) -> bool {
        self.sp <= STACK_SIZE
    }

    /// A machine in the canonical power-on state.
    pub fn new() -> (r: Emu)
        ensures
            r.wf(),
            r@ == initial_state(),
    {
        let mut e = Emu {
            pc: START_ADDR,
            ram: [0u8; RAM_SIZE],
            screen: [false; SCREEN_SIZE],
            v_reg: [0u8; NUM_REGS],
            i_reg: 0,
            sp: 0,
            stack: [0u16; STACK_SIZE],
            keys: [false; NUM_KEYS],
            dt: 0,
            st: 0,
            awaiting_key: false,
        };
        let mut i: usize = 0;
        while i < FONTSET_SIZE
            invariant
                i <= FONTSET_SIZE,
                e.pc == START_ADDR,
                e.i_reg == 0,
                e.sp == 0,
                e.dt == 0,
                e.st == 0,
                !e.awaiting_key,
                forall|a: int| 0 <= a < i ==> e.ram@[a] == FONT@[a],
                forall|a: int| i <= a < RAM_SIZE ==> e.ram@[a] == 0u8,
                forall|p: int| 0 <= p < SCREEN_SIZE ==> !e.screen@[p],
                forall|x: int| 0 <= x < NUM_REGS ==> e.v_reg@[x] == 0u8,
                forall|k: int| 0 <= k < NUM_KEYS ==> !e.keys@[k],
            decreases FONTSET_SIZE - i,
        {
            e.ram[i] = FONT[i];
            i += 1;
        }
        proof {
            assert(e@ =~= initial_state());
        }
        e
    }

    /// Return the machine to the canonical power-on state in place. Program
    /// bytes are not preserved; the host reloads them afterwards.
    pub fn reset(&mut self)
        ensures
            final(self).wf(),
            final(self)@ == initial_state(),
    {
        let fresh = Emu::new();
        *self = fresh;
    }

    /// Copy a program into memory starting at the start address, leaving all
    /// other state alone. The caller guarantees the program fits.
    pub fn load(&mut self, data: &[u8])
        requires
            data@.len() <= RAM_SIZE - START_ADDR,
        ensures
            final(self).wf() == old(self).wf(),
            final(self)@ == (StateV {
                ram: Seq::new(RAM_SIZE as nat, |a: int|
                    if START_ADDR <= a < START_ADDR + data@.len() {
                        data@[a - START_ADDR]
                    } else {
                        old(self)@.ram[a]
                    }),
                ..old(self)@
            }),
    {
        let ghost pre = *self;
        let mut i: usize = 0;
        while i < data.len()
            invariant
                i <= data@.len(),
                data@.len() <= RAM_SIZE - START_ADDR,
                self.pc == pre.pc,
                self.screen == pre.screen,
                self.v_reg == pre.v_reg,
                self.i_reg == pre.i_reg,
                self.sp == pre.sp,
                self.stack == pre.stack,
                self.keys == pre.keys,
                self.dt == pre.dt,
                self.st == pre.st,
                self.awaiting_key == pre.awaiting_key,
                forall|a: int| 0 <= a < START_ADDR ==> self.ram@[a] == pre.ram@[a],
                forall|a: int| START_ADDR <= a < START_ADDR + i ==> self.ram@[a] == data@[a - START_ADDR],
                forall|a: int| START_ADDR + i <= a < RAM_SIZE ==> self.ram@[a] == pre.ram@[a],
            decreases data@.len() - i,
        {
            self.ram[START_ADDR as usize + i] = data[i];
            i += 1;
        }
        proof {
            assert(self@ =~= (StateV {
                ram: Seq::new(RAM_SIZE as nat, |a: int|
                    if START_ADDR <= a < START_ADDR + data@.len() {
                        data@[a - START_ADDR]
                    } else {
                        pre@.ram[a]
                    }),
                ..pre@
            }));
        }
    }

    /// Record a host key-down or key-up event for key `idx`.
    pub fn set_key(&mut self, idx: usize, pressed: bool)
        requires
            idx < NUM_KEYS,
        ensures
            final(self).wf() == old(self).wf(),
            final(self)@ == (StateV { keys: old(self)@.keys.update(idx as int, pressed), ..old(self)@ }),
    {
        self.keys[idx] = pressed;
        proof {
            assert(self@ =~= (StateV { keys: old(self)@.keys.update(idx as int, pressed), ..old(self)@ }));
        }
    }

    /// A read-only view of the 2048-cell framebuffer, row-major.
    pub fn get_display(&self) -> (r: &[bool; SCREEN_SIZE])
        ensures
            r@ == self@.screen,
    {
        &self.screen
    }

    /// Whether the machine is logically blocked on the wait-for-key
    /// instruction. While this holds and no key is pressed, `tick` leaves the
    /// program counter in place, so a host scheduler can avoid busy-looping.
    pub fn is_awaiting_key(&self) -> (r: bool)
        ensures
            r == self@.awaiting_key,
    {
        self.awaiting_key
    }

    /// Push a return address; fails once 16 addresses are stacked.
    pub(crate) fn push(&mut self, val: u16) -> (r: Result<(), Chip8Error>)
        requires
            old(self).wf(),
        ensures
            final(self).wf(),
            old(self)@.stack.len() < STACK_SIZE ==> r == Ok::<(), Chip8Error>(())
                && final(self)@ == (StateV { stack: old(self)@.stack.push(val), ..old(self)@ }),
            old(self)@.stack.len() >= STACK_SIZE ==> r == Err::<(), Chip8Error>(Chip8Error::StackOverflow)
                && final(self)@ == old(self)@,
    {
        if self.sp >= STACK_SIZE as u16 {
            return Err(Chip8Error::StackOverflow);
        }
        self.stack[self.sp as usize] = val;
        self.sp = self.sp + 1;
        proof {
            assert(self@.stack =~= old(self)@.stack.push(val));
            assert(self@ =~= (StateV { stack: old(self)@.stack.push(val), ..old(self)@ }));
        }
        Ok(())
    }

    /// Pop the most recent return address; fails on an empty stack.
    pub(crate) fn pop(&mut self) -> (r: Result<u16, Chip8Error>)
        requires
            old(self).wf(),
        ensures
            final(self).wf(),
            old(self)@.stack.len() > 0 ==> r == Ok::<u16, Chip8Error>(old(self)@.stack.last())
                && final(self)@ == (StateV { stack: old(self)@.stack.drop_last(), ..old(self)@ }),
            old(self)@.stack.len() == 0 ==> r == Err::<u16, Chip8Error>(Chip8Error::StackUnderflow)
                && final(self)@ == old(self)@,
    {
        if self.sp == 0 {
            return Err(Chip8Error::StackUnderflow);
        }
        self.sp = self.sp - 1;
        let val = self.stack[self.sp as usize];
        proof {
            assert(self@.stack =~= old(self)@.stack.drop_last());
            assert(self@ =~= (StateV { stack: old(self)@.stack.drop_last(), ..old(self)@ }));
        }
        Ok(val)
    }

    /// Read the two bytes at the program counter as a big-endian instruction
    /// word and advance the counter past them; fails when the counter points
    /// past the end of memory.
    pub(crate) fn fetch(&mut self) -> (r: Result<u16, Chip8Error>)
        requires
            old(self).wf(),
        ensures
            final(self).wf(),
            match spec_fetch(old(self)@) {
                Some((s1, op)) => r == Ok::<u16, Chip8Error>(op) && final(self)@ == s1,
                None => r == Err::<u16, Chip8Error>(Chip8Error::MemoryOutOfBounds) && final(self)@ == old(self)@,
            },
    {
        if self.pc as usize + 1 >= RAM_SIZE {
            return Err(Chip8Error::MemoryOutOfBounds);
        }
        let higher_byte = self.ram[self.pc as usize];
        let lower_byte = self.ram[self.pc as usize + 1];
        let op = ((higher_byte as u16) << 8) | (lower_byte as u16);
        self.pc = self.pc + 2;
        proof {
            assert(self@ =~= (StateV { pc: (old(self)@.pc + 2) as u16, ..old(self)@ }));
        }
        Ok(op)
    }
}

} // verus!
