//! The machine state of the interpreter: register file, memory, stack,
//! timers, input latches and framebuffer, together with its lifecycle
//! (creation, reset, program loading) and the state observers a host needs.

use vstd::prelude::*;

verus! {

/// Width of the framebuffer in pixels.
pub const SCREEN_WIDTH: usize = 64;

/// Height of the framebuffer in pixels.
pub const SCREEN_HEIGHT: usize = 32;

/// Number of cells in the framebuffer (row-major, 64 x 32).
pub const SCREEN_CELLS: usize = 2048;

/// Size of the interpreter's memory in bytes.
pub const RAM_SIZE: usize = 4096;

/// Number of general-purpose registers.
pub const NUM_REGS: usize = 16;

/// Capacity of the call stack.
pub const STACK_SIZE: usize = 16;

/// Number of keys on the input device.
pub const NUM_KEYS: usize = 16;

/// Address at which loaded programs begin; the program counter starts here.
pub const START_ADDR: u16 = 0x200;

/// Number of bytes occupied by the font glyph table (16 glyphs, 5 bytes each).
pub const FONTSET_SIZE: usize = 80;

/// An error surfaced by the interpreter; every error is terminal for the
/// current run, and the host decides whether to reset and reload.
#[derive(Clone, Copy, Debug, PartialEq, Eq, Structural)]
pub enum EmuError {
    /// A memory access (fetch, index-register relative access, or load)
    /// fell outside the 4096 bytes of memory, or a key index exceeded 15.
    MemoryFault,
    /// The fetched instruction word matches no opcode pattern.
    UnsupportedOpcode(u16),
    /// A call was made with the call stack already holding 16 return addresses.
    StackOverflow,
    /// A return was made with the call stack empty.
    StackUnderflow,
}

/// The mathematical model of a machine state: each concrete field of
/// [`Emu`] viewed as a sequence or plain integer.
#[verifier::ext_equal]
pub ghost struct MachineView {
    pub pc: u16,
    pub ram: Seq<u8>,
    pub screen: Seq<bool>,
    pub v: Seq<u8>,
    pub i: u16,
    pub sp: u16,
    pub stack: Seq<u16>,
    pub keys: Seq<bool>,
    pub dt: u8,
    pub st: u8,
}

impl MachineView {
    /// Well-formedness: every component has its fixed size and the stack
    /// pointer never exceeds the stack capacity.
    pub open spec fn wf(self) -> bool {
        &&& self.ram.len() == RAM_SIZE
        &&& self.screen.len() == SCREEN_CELLS
        &&& self.v.len() == NUM_REGS
        &&& self.stack.len() == STACK_SIZE
        &&& self.keys.len() == NUM_KEYS
        &&& self.sp <= STACK_SIZE
    }
}

/// The byte at offset `k` of the font glyph table: glyph `k / 5`
/// (the hexadecimal digits 0 through F), row `k % 5`.
pub open spec fn font_seq() -> Seq<u8> {
    seq![
        0xF0u8, 0x90, 0x90, 0x90, 0xF0, // 0
        0x20, 0x60, 0x20, 0x20, 0x70, // 1
        0xF0, 0x10, 0xF0, 0x80, 0xF0, // 2
        0xF0, 0x10, 0xF0, 0x10, 0xF0, // 3
        0x90, 0x90, 0xF0, 0x10, 0x10, // 4
        0xF0, 0x80, 0xF0, 0x10, 0xF0, // 5
        0xF0, 0x80, 0xF0, 0x90, 0xF0, // 6
        0xF0, 0x10, 0x20, 0x40, 0x40, // 7
        0xF0, 0x90, 0xF0, 0x90, 0xF0, // 8
        0xF0, 0x90, 0xF0, 0x10, 0xF0, // 9
        0xF0, 0x90, 0xF0, 0x90, 0x90, // A
        0xE0, 0x90, 0xE0, 0x90, 0xE0, // B
        0xF0, 0x80, 0x80, 0x80, 0xF0, // C
        0xE0, 0x90, 0x90, 0x90, 0xE0, // D
        0xF0, 0x80, 0xF0, 0x80, 0xF0, // E
        0xF0, 0x80, 0xF0, 0x80, 0x80, // F
    ]
}

/// Memory as it stands at creation and after a reset: the font glyph table
/// in the first 80 bytes, zeroes everywhere above.
pub open spec fn initial_ram() -> Seq<u8> {
    Seq::new(RAM_SIZE as nat, |a: int| if a < FONTSET_SIZE { font_seq()[a] } else { 0u8 })
}

/// The machine state at creation and after a reset: program counter at the
/// entry address, font installed, everything else zeroed.
pub open spec fn initial_machine() -> MachineView {
    MachineView {
        pc: START_ADDR,
        ram: initial_ram(),
        screen: Seq::new(SCREEN_CELLS as nat, |c: int| false),
        v: Seq::new(NUM_REGS as nat, |r: int| 0u8),
        i: 0,
        sp: 0,
        stack: Seq::new(STACK_SIZE as nat, |s: int| 0u16),
        keys: Seq::new(NUM_KEYS as nat, |k: int| false),
        dt: 0,
        st: 0,
    }
}

/// Memory after a program image is copied in verbatim at the entry address;
/// everything below the entry address and past the image is untouched.
pub open spec fn load_ram(ram: Seq<u8>, data: Seq<u8>) -> Seq<u8> {
    Seq::new(ram.len(), |a: int|
        if START_ADDR <= a < START_ADDR + data.len() { data[a - START_ADDR] } else { ram[a] })
}

/// One decrement of the two countdown timers: each goes down by one if
/// nonzero and never drops below zero.
pub open spec fn timers_step(pre: MachineView) -> MachineView {
    MachineView {
        dt: if pre.dt > 0 { (pre.dt - 1) as u8 } else { 0 },
        st: if pre.st > 0 { (pre.st - 1) as u8 } else { 0 },
        ..pre
    }
}

/// One interpreter instance: the whole machine state, mutated in place by
/// every interpreter operation.
pub struct Emu {
    pub pc: u16,
    pub ram: [u8; RAM_SIZE],
    pub screen: [bool; SCREEN_CELLS],
    pub v_reg: [u8; NUM_REGS],
    pub i_reg: u16,
    pub sp: u16,
    pub stack: [u16; STACK_SIZE],
    pub keys: [bool; NUM_KEYS],
    pub dt: u8,
    pub st: u8,
}

impl View for Emu {
    type V = MachineView;

    open spec fn view(&self) -> MachineView {
        MachineView {
            pc: self.pc,
            ram: self.ram@,
            screen: self.screen@,
            v: self.v_reg@,
            i: self.i_reg,
            sp: self.sp,
            stack: self.stack@,
            keys: self.keys@,
            dt: self.dt,
            st: self.st,
        }
    }
}

/// The font glyph table as concrete bytes, row for row equal to [`font_seq`].
fn fontset() -> (f: [u8; FONTSET_SIZE])
    ensures
        f@ == font_seq(),
{
    let f: [u8; FONTSET_SIZE] = [
        0xF0, 0x90, 0x90, 0x90, 0xF0, // 0
        0x20, 0x60, 0x20, 0x20, 0x70, // 1
        0xF0, 0x10, 0xF0, 0x80, 0xF0, // 2
        0xF0, 0x10, 0xF0, 0x10, 0xF0, // 3
        0x90, 0x90, 0xF0, 0x10, 0x10, // 4
        0xF0, 0x80, 0xF0, 0x10, 0xF0, // 5
        0xF0, 0x80, 0xF0, 0x90, 0xF0, // 6
        0xF0, 0x10, 0x20, 0x40, 0x40, // 7
        0xF0, 0x90, 0xF0, 0x90, 0xF0, // 8
        0xF0, 0x90, 0xF0, 0x10, 0xF0, // 9
        0xF0, 0x90, 0xF0, 0x90, 0x90, // A
        0xE0, 0x90, 0xE0, 0x90, 0xE0, // B
        0xF0, 0x80, 0x80, 0x80, 0xF0, // C
        0xE0, 0x90, 0x90, 0x90, 0xE0, // D
        0xF0, 0x80, 0xF0, 0x80, 0xF0, // E
        0xF0, 0x80, 0xF0, 0x80, 0x80, // F
    ];
    proof {
        assert(f@ =~= font_seq());
    }
    f
}

impl Emu {
    /// Creates a machine in its initial configuration: program counter at
    /// the entry address, font glyphs installed, all else zeroed.
    pub fn new() -> (emu: Self)
        ensures
            emu@ == initial_machine(),
            emu@.wf(),
    {
        let mut ram: [u8; RAM_SIZE] = [0; RAM_SIZE];
        let font = fontset();
        let mut k: usize = 0;
        while k < FONTSET_SIZE
            invariant
                k <= FONTSET_SIZE,
                forall|j: int| 0 <= j < k ==> ram@[j] == font_seq()[j],
                forall|j: int| k <= j < RAM_SIZE ==> ram@[j] == 0u8,
                font@ == font_seq(),
            decreases FONTSET_SIZE - k,
        {
            ram[k] = font[k];
            k += 1;
        }
        let emu = Emu {
            pc: START_ADDR,
            ram,
            screen: [false; SCREEN_CELLS],
            v_reg: [0; NUM_REGS],
            i_reg: 0,
            sp: 0,
            stack: [0; STACK_SIZE],
            keys: [false; NUM_KEYS],
            dt: 0,
            st: 0,
        };
        proof {
            assert(emu@.ram =~= initial_ram());
            assert(emu@.screen =~= initial_machine().screen);
            assert(emu@.v =~= initial_machine().v);
            assert(emu@.stack =~= initial_machine().stack);
            assert(emu@.keys =~= initial_machine().keys);
            assert(emu@ =~= initial_machine());
        }
        emu
    }

    /// Restores the full machine state to its initial configuration,
    /// including re-installing the font: the state after a reset equals the
    /// state immediately after creation.
    pub fn reset(&mut self)
        ensures
            final(self)@ == initial_machine(),
            final(self)@.wf(),
    {
        *self = Emu::new();
    }

    /// Copies a program image verbatim into memory starting at the entry
    /// address. An image larger than the memory above the entry address is
    /// rejected whole with a memory fault, leaving the state untouched.
    pub fn load(&mut self, data: &[u8]) -> (r: Result<(), EmuError>)
        ensures
            data@.len() <= RAM_SIZE - START_ADDR ==> r is Ok
                && final(self)@ == (MachineView { ram: load_ram(old(self)@.ram, data@), ..old(self)@ }),
            data@.len() > RAM_SIZE - START_ADDR ==> r == Err::<(), EmuError>(EmuError::MemoryFault)
                && final(self)@ == old(self)@,
    {
        if data.len() > RAM_SIZE - (START_ADDR as usize) {
            return Err(EmuError::MemoryFault);
        }
        let start = START_ADDR as usize;
        let mut idx: usize = 0;
        while idx < data.len()
            invariant
                idx <= data@.len(),
                data@.len() <= RAM_SIZE - START_ADDR,
                start == START_ADDR as usize,
                forall|a: int| START_ADDR <= a < START_ADDR + idx ==> self.ram@[a] == data@[a - START_ADDR],
                forall|a: int| 0 <= a < START_ADDR ==> self.ram@[a] == old(self).ram@[a],
                forall|a: int| START_ADDR + idx <= a < RAM_SIZE ==> self.ram@[a] == old(self).ram@[a],
                self.pc == old(self).pc,
                self.screen == old(self).screen,
                self.v_reg == old(self).v_reg,
                self.i_reg == old(self).i_reg,
                self.sp == old(self).sp,
                self.stack == old(self).stack,
                self.keys == old(self).keys,
                self.dt == old(self).dt,
                self.st == old(self).st,
            decreases data@.len() - idx,
        {
            self.ram[start + idx] = data[idx];
            idx += 1;
        }
        proof {
            assert(self@.ram =~= load_ram(old(self)@.ram, data@));
            assert(self@ =~= (MachineView { ram: load_ram(old(self)@.ram, data@), ..old(self)@ }));
        }
        Ok(())
    }

    /// Sets one latch in the key state; the host calls this on every key
    /// press or release, between interpreter cycles.
    pub fn keypress(&mut self, idx: usize, pressed: bool)
        requires
            idx < NUM_KEYS,
        ensures
            final(self)@ == (MachineView { keys: old(self)@.keys.update(idx as int, pressed), ..old(self)@ }),
    {
        self.keys[idx] = pressed;
        proof {
            assert(self@ =~= (MachineView { keys: old(self)@.keys.update(idx as int, pressed), ..old(self)@ }));
        }
    }

    /// Decrements each countdown timer by one if it is nonzero, never
    /// below zero. The host calls this once per rendered frame; the cue to
    /// start a tone is the sound timer standing at one as this is called.
    pub fn tick_timers(&mut self)
        ensures
            final(self)@ == timers_step(old(self)@),
    {
        if self.dt > 0 {
            self.dt = self.dt - 1;
        }
        if self.st > 0 {
            self.st = self.st - 1;
        }
        proof {
            assert(self@ =~= timers_step(old(self)@));
        }
    }

    /// The framebuffer, row-major: cell `y * 64 + x` is the pixel at
    /// column `x` of row `y`.
    pub fn get_display(&self) -> (screen: &[bool; SCREEN_CELLS])
        ensures
            screen@ == self@.screen,
    {
        &self.screen
    }

    /// The program counter.
    pub fn program_counter(&self) -> (pc: u16)
        ensures
            pc == self@.pc,
    {
        self.pc
    }

    /// The index register.
    pub fn index_register(&self) -> (i: u16)
        ensures
            i == self@.i,
    {
        self.i_reg
    }

    /// The stack pointer: the number of return addresses currently held.
    pub fn stack_pointer(&self) -> (sp: u16)
        ensures
            sp == self@.sp,
    {
        self.sp
    }

    /// The delay timer.
    pub fn delay_timer(&self) -> (dt: u8)
        ensures
            dt == self@.dt,
    {
        self.dt
    }

    /// The sound timer.
    pub fn sound_timer(&self) -> (st: u8)
        ensures
            st == self@.st,
    {
        self.st
    }

    /// One general-purpose register.
    pub fn get_register(&self, idx: usize) -> (val: u8)
        requires
            idx < NUM_REGS,
        ensures
            val == self@.v[idx as int],
    {
        self.v_reg[idx]
    }

    /// One byte of memory.
    pub fn read_ram(&self, addr: usize) -> (b: u8)
        requires
            addr < RAM_SIZE,
        ensures
            b == self@.ram[addr as int],
    {
        self.ram[addr]
    }

    /// One key latch.
    pub fn is_key_pressed(&self, idx: usize) -> (pressed: bool)
        requires
            idx < NUM_KEYS,
        ensures
            pressed == self@.keys[idx as int],
    {
        self.keys[idx]
    }

    /// Pushes a return address onto the call stack.
    pub(crate) fn push(&mut self, val: u16)
        requires
            old(self)@.sp < STACK_SIZE,
        ensures
            final(self)@ == (MachineView {
                stack: old(self)@.stack.update(old(self)@.sp as int, val),
                sp: (old(self)@.sp + 1) as u16,
                ..old(self)@
            }),
    {
        self.stack[self.sp as usize] = val;
        self.sp = self.sp + 1;
        proof {
            assert(self@ =~= (MachineView {
                stack: old(self)@.stack.update(old(self)@.sp as int, val),
                sp: (old(self)@.sp + 1) as u16,
                ..old(self)@
            }));
        }
    }

    /// Pops the most recently pushed return address off the call stack.
    pub(crate) fn pop(&mut self) -> (val: u16)
        requires
            old(self)@.sp > 0,
            old(self)@.sp <= STACK_SIZE,
        ensures
            val == old(self)@.stack[old(self)@.sp - 1],
            final(self)@ == (MachineView { sp: (old(self)@.sp - 1) as u16, ..old(self)@ }),
    {
        self.sp = self.sp - 1;
        let val = self.stack[self.sp as usize];
        proof {
            assert(self@ =~= (MachineView { sp: (old(self)@.sp - 1) as u16, ..old(self)@ }));
        }
        val
    }
}

} // verus!
