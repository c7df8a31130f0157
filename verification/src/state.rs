//! Machine state of the CHIP-8 core: the `Emulator` struct, its
//! mathematical view (`State`), the well-formedness invariant, and the
//! baseline (font-loaded) state that `new` and `reset_emulator` establish.

use vstd::prelude::*;

verus! {

/// Size of the virtual RAM in bytes.
pub const RAM_SIZE: usize = 4096;

/// Size of the packed framebuffer in bytes (64 x 32 pixels, 8 per byte).
pub const DISPLAY_SIZE: usize = 256;

/// Number of general-purpose registers.
pub const NUM_REGS: usize = 16;

/// Capacity of the call stack.
pub const STACK_SIZE: usize = 16;

/// Address at which programs are installed and execution starts.
pub const START_ADDR: u16 = 0x200;

/// Largest loadable program: the RAM that lies at or above `START_ADDR`.
pub const MAX_PROGRAM_SIZE: usize = 3584;

/// Every failure a core operation can report.
#[derive(Clone, Copy, Debug, PartialEq, Eq, Structural)]
pub enum Error {
    /// A fetch, sprite read, or bulk memory transfer would leave RAM.
    MemoryOutOfBounds,
    /// A subroutine call was made with the call stack full.
    StackOverflow,
    /// A subroutine return was made with the call stack empty.
    StackUnderflow,
    /// A program longer than the RAM after `START_ADDR` was loaded.
    ProgramTooLarge,
    /// Execution was started with no program loaded.
    ProgramSizeZero,
    /// The fetched instruction matches none of the opcode patterns.
    UnknownOpcode,
    /// An accessor was given an out-of-range register, stack, key,
    /// memory, or pixel index.
    IndexOutOfRange,
}

/// Execution status of the machine.
#[derive(Clone, Copy, Debug, PartialEq, Eq, Structural)]
pub enum Status {
    /// No program is loaded; `tick` refuses to run.
    Idle,
    /// A program is loaded and ticking normally.
    Running,
    /// A tick failed with the recorded error; ticking is stopped until
    /// `reset_emulator` or a new `load`.
    Halted(Error),
}

/// Mathematical view of the whole machine: the fixed-size arrays appear
/// as sequences, everything else as the plain value it is.
#[verifier::ext_equal]
pub ghost struct State {
    pub pc: u16,
    pub ram: Seq<u8>,
    pub display: Seq<u8>,
    pub virtual_registers: Seq<u8>,
    pub i_register: u16,
    pub sp: u16,
    pub stack: Seq<u16>,
    pub keys: u16,
    pub dt: u8,
    pub st: u8,
    pub program_size: usize,
    pub status: Status,
    pub awaiting_key: Option<u8>,
}

/// Well-formedness: the arrays have their fixed sizes, the stack pointer
/// counts at most `STACK_SIZE` entries, and a pending key wait names a
/// real register.
pub open spec fn wf(s: State) -> bool {
    &&& s.ram.len() == RAM_SIZE
    &&& s.display.len() == DISPLAY_SIZE
    &&& s.virtual_registers.len() == NUM_REGS
    &&& s.stack.len() == STACK_SIZE
    &&& s.sp <= STACK_SIZE
    &&& (s.awaiting_key matches Some(x) ==> x < 16)
}

/// The five rows of the glyph for hex digit `d`, packed big-endian into
/// the low 40 bits of a word (row 0 is the most significant packed byte).
pub open spec fn glyph_bits(d: int) -> u64 {
    if d == 0 {
        0xF0909090F0
    } else if d == 1 {
        0x2060202070
    } else if d == 2 {
        0xF010F080F0
    } else if d == 3 {
        0xF010F010F0
    } else if d == 4 {
        0x9090F01010
    } else if d == 5 {
        0xF080F010F0
    } else if d == 6 {
        0xF080F090F0
    } else if d == 7 {
        0xF010204040
    } else if d == 8 {
        0xF090F090F0
    } else if d == 9 {
        0xF090F010F0
    } else if d == 10 {
        0xF090F09090
    } else if d == 11 {
        0xE090E090E0
    } else if d == 12 {
        0xF0808080F0
    } else if d == 13 {
        0xE0909090E0
    } else if d == 14 {
        0xF080F080F0
    } else {
        0xF080F08080
    }
}

/// Byte `k` of the 80-byte font: row `k % 5` of the glyph for digit
/// `k / 5`.
pub open spec fn font_byte_spec(k: int) -> u8 {
    ((glyph_bits(k / 5) >> ((8 * (4 - k % 5)) as u64)) & 0xFF) as u8
}

/// RAM at genesis: the font in bytes `[0, 80)`, zero elsewhere.
pub open spec fn init_ram() -> Seq<u8> {
    Seq::new(RAM_SIZE as nat, |j: int| if j < 80 { font_byte_spec(j) } else { 0u8 })
}

/// An all-zero framebuffer.
pub open spec fn zero_display() -> Seq<u8> {
    Seq::new(DISPLAY_SIZE as nat, |j: int| 0u8)
}

/// The baseline state: font loaded, `pc` at `START_ADDR`, everything
/// else zeroed, no program, not awaiting a key.
pub open spec fn init_state() -> State {
    State {
        pc: START_ADDR,
        ram: init_ram(),
        display: zero_display(),
        virtual_registers: Seq::new(NUM_REGS as nat, |j: int| 0u8),
        i_register: 0,
        sp: 0,
        stack: Seq::new(STACK_SIZE as nat, |j: int| 0u16),
        keys: 0,
        dt: 0,
        st: 0,
        program_size: 0,
        status: Status::Idle,
        awaiting_key: None,
    }
}

/// The CHIP-8 machine. All mutation goes through the methods of this
/// type; the contracts speak of its view, a `State`.
#[derive(Debug)]
pub struct Emulator {
    /// 16-bit program counter.
    pub pc: u16,
    /// 4096 bytes of virtual RAM.
    pub ram: Vec<u8>,
    /// 64 x 32 monochrome framebuffer, packed 8 pixels per byte,
    /// row-major, most significant bit first.
    pub display: Vec<u8>,
    /// Sixteen 8-bit general-purpose registers V0 to VF.
    pub virtual_registers: Vec<u8>,
    /// The 16-bit memory address register I.
    pub i_register: u16,
    /// Number of return addresses currently on the stack.
    pub sp: u16,
    /// Call stack of up to sixteen 16-bit return addresses.
    pub stack: Vec<u16>,
    /// Keyboard state: bit `k` set iff key `k` is held.
    pub keys: u16,
    /// Delay timer, decremented toward zero once per tick.
    pub dt: u8,
    /// Sound timer, decremented toward zero once per tick.
    pub st: u8,
    /// Length in bytes of the loaded program; zero means none.
    pub program_size: usize,
    /// Execution status of the machine.
    pub status: Status,
    /// `Some(x)` while the `FX0A` opcode is waiting for a key press to
    /// store into register `x`.
    pub awaiting_key: Option<u8>,
}

impl View for Emulator {
    type V = State;

    open spec fn view(&self) -> State {
        State {
            pc: self.pc,
            ram: self.ram@,
            display: self.display@,
            virtual_registers: self.virtual_registers@,
            i_register: self.i_register,
            sp: self.sp,
            stack: self.stack@,
            keys: self.keys,
            dt: self.dt,
            st: self.st,
            program_size: self.program_size,
            status: self.status,
            awaiting_key: self.awaiting_key,
        }
    }
}

/// The packed glyph rows for digit `d`, as an executable value.
fn glyph_value(d: usize) -> (g: u64)
    requires
        d < 16,
    ensures
        g == glyph_bits(d as int),
{
    match d {
        0 => 0xF0909090F0,
        1 => 0x2060202070,
        2 => 0xF010F080F0,
        3 => 0xF010F010F0,
        4 => 0x9090F01010,
        5 => 0xF080F010F0,
        6 => 0xF080F090F0,
        7 => 0xF010204040,
        8 => 0xF090F090F0,
        9 => 0xF090F010F0,
        10 => 0xF090F09090,
        11 => 0xE090E090E0,
        12 => 0xF0808080F0,
        13 => 0xE0909090E0,
        14 => 0xF080F080F0,
        _ => 0xF080F08080,
    }
}

/// Byte `k` of the 80-byte font.
fn font_byte(k: usize) -> (r: u8)
    requires
        k < 80,
    ensures
        r == font_byte_spec(k as int),
{
    let g = glyph_value(k / 5);
    ((g >> ((8 * (4 - k % 5)) as u64)) & 0xFF) as u8
}

impl Emulator {
    /// Well-formedness of the machine behind this value.
    pub open spec fn wf(&self) -> bool {
        wf(self@)
    }

    /// Create a machine in the baseline state: font loaded, `pc` at
    /// `START_ADDR`, everything else zeroed.
    pub fn new() -> (r: Emulator)
        ensures
            r@ == init_state(),
            r.wf(),
    {
        let mut ram: Vec<u8> = vec![0u8; RAM_SIZE];
        let mut k: usize = 0;
        while k < 80
            invariant
                k <= 80,
                ram@.len() == RAM_SIZE,
                forall|j: int| 0 <= j < k ==> ram@[j] == font_byte_spec(j),
                forall|j: int| k <= j < RAM_SIZE ==> ram@[j] == 0u8,
            decreases 80 - k,
        {
            ram.set(k, font_byte(k));
            k += 1;
        }
        let r = Emulator {
            pc: START_ADDR,
            ram,
            display: vec![0u8; DISPLAY_SIZE],
            virtual_registers: vec![0u8; NUM_REGS],
            i_register: 0,
            sp: 0,
            stack: vec![0u16; STACK_SIZE],
            keys: 0,
            dt: 0,
            st: 0,
            program_size: 0,
            status: Status::Idle,
            awaiting_key: None,
        };
        proof {
            assert(r@.ram =~= init_ram());
            assert(r@.display =~= zero_display());
            assert(r@.virtual_registers =~= init_state().virtual_registers);
            assert(r@.stack =~= init_state().stack);
            assert(r@ =~= init_state());
        }
        r
    }

    /// Return the machine to the baseline state, discarding any loaded
    /// program, pending key wait, and recorded error.
    pub fn reset_emulator(&mut self)
        ensures
            final(self)@ == init_state(),
            final(self).wf(),
    {
        *self = Emulator::new();
    }
}

/// The state after a successful push: `val` written at `sp`, `sp`
/// raised by one.
pub open spec fn push_spec(s: State, val: u16) -> State {
    State { stack: s.stack.update(s.sp as int, val), sp: (s.sp + 1) as u16, ..s }
}

/// The state after a successful pop, and the value popped: `sp` lowered
/// by one, the entries themselves untouched.
pub open spec fn pop_spec(s: State) -> (State, u16) {
    (State { sp: (s.sp - 1) as u16, ..s }, s.stack[s.sp - 1])
}

/// The keyboard bitfield with key `k` set or cleared.
pub open spec fn set_key_spec(keys: u16, k: u8, pressed: bool) -> u16 {
    if pressed {
        keys | (1u16 << k)
    } else {
        keys & !(1u16 << k)
    }
}

/// The framebuffer with the pixel at linear index `p` forced to `v`.
pub open spec fn set_pixel_spec(d: Seq<u8>, p: int, v: bool) -> Seq<u8> {
    let j = p / 8;
    let mask = 1u8 << ((7 - p % 8) as u8);
    d.update(j, if v { d[j] | mask } else { d[j] & !mask })
}

/// RAM after a program of bytes `data` is installed at `START_ADDR`;
/// the font and all other memory are untouched.
pub open spec fn load_ram_spec(ram: Seq<u8>, data: Seq<u8>) -> Seq<u8> {
    Seq::new(
        RAM_SIZE as nat,
        |j: int|
            if START_ADDR <= j < START_ADDR + data.len() {
                data[j - START_ADDR]
            } else {
                ram[j]
            },
    )
}

/// The whole state after a successful `load`: the program installed,
/// its size recorded, the machine Running (or Idle for an empty
/// program); registers, `pc`, and everything else untouched.
pub open spec fn load_spec(s: State, data: Seq<u8>) -> State {
    State {
        ram: load_ram_spec(s.ram, data),
        program_size: data.len() as usize,
        status: if data.len() > 0 {
            Status::Running
        } else {
            Status::Idle
        },
        ..s
    }
}

impl Emulator {
    /// Push a return address. Fails with `StackOverflow`, changing
    /// nothing, iff the stack already holds `STACK_SIZE` entries.
    pub fn push(&mut self, val: u16) -> (r: Result<(), Error>)
        requires
            old(self).wf(),
        ensures
            final(self).wf(),
            old(self).sp < STACK_SIZE ==> r is Ok && final(self)@ == push_spec(old(self)@, val),
            old(self).sp >= STACK_SIZE ==> r == Err::<(), Error>(Error::StackOverflow) && final(self)@ == old(self)@,
    {
        if self.sp >= STACK_SIZE as u16 {
            return Err(Error::StackOverflow);
        }
        let sp = self.sp as usize;
        self.stack.set(sp, val);
        self.sp = self.sp + 1;
        Ok(())
    }

    /// Pop a return address. Fails with `StackUnderflow`, changing
    /// nothing, iff the stack is empty.
    pub fn pop(&mut self) -> (r: Result<u16, Error>)
        requires
            old(self).wf(),
        ensures
            final(self).wf(),
            old(self).sp > 0 ==> r == Ok::<u16, Error>(pop_spec(old(self)@).1) && final(self)@
                == pop_spec(old(self)@).0,
            old(self).sp == 0 ==> r == Err::<u16, Error>(Error::StackUnderflow) && final(self)@
                == old(self)@,
    {
        if self.sp == 0 {
            return Err(Error::StackUnderflow);
        }
        self.sp = self.sp - 1;
        Ok(self.stack[self.sp as usize])
    }

    /// Install a program at `START_ADDR` and record its size. Fails
    /// with `ProgramTooLarge`, changing nothing, iff the program does
    /// not fit in the RAM at or above `START_ADDR`.
    pub fn load(&mut self, data: &Vec<u8>) -> (r: Result<(), Error>)
        requires
            old(self).wf(),
        ensures
            final(self).wf(),
            data@.len() <= MAX_PROGRAM_SIZE ==> r is Ok && final(self)@ == load_spec(
                old(self)@,
                data@,
            ),
            data@.len() > MAX_PROGRAM_SIZE ==> r == Err::<(), Error>(Error::ProgramTooLarge)
                && final(self)@ == old(self)@,
    {
        if data.len() > MAX_PROGRAM_SIZE {
            return Err(Error::ProgramTooLarge);
        }
        let len = data.len();
        let mut k: usize = 0;
        while k < len
            invariant
                k <= len,
                len == data@.len() <= MAX_PROGRAM_SIZE,
                self.ram@.len() == RAM_SIZE,
                forall|j: int|
                    START_ADDR <= j < START_ADDR + k ==> self.ram@[j] == data@[j - START_ADDR],
                forall|j: int|
                    0 <= j < RAM_SIZE && !(START_ADDR <= j < START_ADDR + k) ==> self.ram@[j]
                        == old(self).ram@[j],
                self.pc == old(self).pc,
                self.display@ == old(self).display@,
                self.virtual_registers@ == old(self).virtual_registers@,
                self.i_register == old(self).i_register,
                self.sp == old(self).sp,
                self.stack@ == old(self).stack@,
                self.keys == old(self).keys,
                self.dt == old(self).dt,
                self.st == old(self).st,
                self.program_size == old(self).program_size,
                self.status == old(self).status,
                self.awaiting_key == old(self).awaiting_key,
            decreases len - k,
        {
            let addr = START_ADDR as usize + k;
            self.ram.set(addr, data[k]);
            k += 1;
        }
        self.program_size = len;
        self.status = if len > 0 {
            Status::Running
        } else {
            Status::Idle
        };
        proof {
            assert(self@.ram =~= load_ram_spec(old(self)@.ram, data@));
            assert(self@ =~= load_spec(old(self)@, data@));
        }
        Ok(())
    }

    /// The length in bytes of the loaded program; zero means none.
    pub fn get_program_size(&self) -> (r: usize)
        ensures
            r == self@.program_size,
    {
        self.program_size
    }

    /// A copy of the packed framebuffer.
    pub fn get_get_display(&self) -> (r: Vec<u8>)
        requires
            self.wf(),
        ensures
            r@ == self@.display,
    {
        let mut out: Vec<u8> = Vec::new();
        let mut k: usize = 0;
        while k < DISPLAY_SIZE
            invariant
                k <= DISPLAY_SIZE,
                self.display@.len() == DISPLAY_SIZE,
                out@.len() == k,
                forall|j: int| 0 <= j < k ==> out@[j] == self.display@[j],
            decreases DISPLAY_SIZE - k,
        {
            out.push(self.display[k]);
            k += 1;
        }
        proof {
            assert(out@ =~= self@.display);
        }
        out
    }

    /// The program counter.
    pub fn get_program_counter(&self) -> (r: u16)
        ensures
            r == self@.pc,
    {
        self.pc
    }

    /// The keyboard bitfield.
    pub fn get_keyboard_keys(&self) -> (r: u16)
        ensures
            r == self@.keys,
    {
        self.keys
    }

    /// The RAM byte at `index`, or `IndexOutOfRange`.
    pub fn get_ram_value_at(&self, index: u16) -> (r: Result<u8, Error>)
        requires
            self.wf(),
        ensures
            index < RAM_SIZE ==> r == Ok::<u8, Error>(self@.ram[index as int]),
            index >= RAM_SIZE ==> r == Err::<u8, Error>(Error::IndexOutOfRange),
    {
        if index < RAM_SIZE as u16 {
            Ok(self.ram[index as usize])
        } else {
            Err(Error::IndexOutOfRange)
        }
    }

    /// Register `index`, or `IndexOutOfRange`.
    pub fn get_vregister(&self, index: u8) -> (r: Result<u8, Error>)
        requires
            self.wf(),
        ensures
            index < NUM_REGS ==> r == Ok::<u8, Error>(self@.virtual_registers[index as int]),
            index >= NUM_REGS ==> r == Err::<u8, Error>(Error::IndexOutOfRange),
    {
        if index < NUM_REGS as u8 {
            Ok(self.virtual_registers[index as usize])
        } else {
            Err(Error::IndexOutOfRange)
        }
    }

    /// The index register I.
    pub fn get_iregister(&self) -> (r: u16)
        ensures
            r == self@.i_register,
    {
        self.i_register
    }

    /// The delay timer.
    pub fn get_delay_timer(&self) -> (r: u8)
        ensures
            r == self@.dt,
    {
        self.dt
    }

    /// The sound timer.
    pub fn get_sound_timer(&self) -> (r: u8)
        ensures
            r == self@.st,
    {
        self.st
    }

    /// The stack pointer: how many return addresses are pushed.
    pub fn get_stack_pointer(&self) -> (r: u16)
        ensures
            r == self@.sp,
    {
        self.sp
    }

    /// The stack slot at `index`, or `IndexOutOfRange`.
    pub fn get_stack_value(&self, index: u8) -> (r: Result<u16, Error>)
        requires
            self.wf(),
        ensures
            index < STACK_SIZE ==> r == Ok::<u16, Error>(self@.stack[index as int]),
            index >= STACK_SIZE ==> r == Err::<u16, Error>(Error::IndexOutOfRange),
    {
        if index < STACK_SIZE as u8 {
            Ok(self.stack[index as usize])
        } else {
            Err(Error::IndexOutOfRange)
        }
    }

    /// Write register `index`, or fail with `IndexOutOfRange` changing
    /// nothing.
    pub fn set_vregister(&mut self, index: u8, value: u8) -> (r: Result<(), Error>)
        requires
            old(self).wf(),
        ensures
            final(self).wf(),
            index < NUM_REGS ==> r is Ok && final(self)@ == (State {
                virtual_registers: old(self)@.virtual_registers.update(index as int, value),
                ..old(self)@
            }),
            index >= NUM_REGS ==> r == Err::<(), Error>(Error::IndexOutOfRange) && final(self)@
                == old(self)@,
    {
        if index < NUM_REGS as u8 {
            self.virtual_registers.set(index as usize, value);
            Ok(())
        } else {
            Err(Error::IndexOutOfRange)
        }
    }

    /// Write the index register I.
    pub fn set_iregister(&mut self, value: u16)
        requires
            old(self).wf(),
        ensures
            final(self).wf(),
            final(self)@ == (State { i_register: value, ..old(self)@ }),
    {
        self.i_register = value;
    }

    /// Write the RAM byte at `index`, or fail with `IndexOutOfRange`
    /// changing nothing.
    pub fn set_ram_value_at(&mut self, index: u16, value: u8) -> (r: Result<(), Error>)
        requires
            old(self).wf(),
        ensures
            final(self).wf(),
            index < RAM_SIZE ==> r is Ok && final(self)@ == (State {
                ram: old(self)@.ram.update(index as int, value),
                ..old(self)@
            }),
            index >= RAM_SIZE ==> r == Err::<(), Error>(Error::IndexOutOfRange) && final(self)@
                == old(self)@,
    {
        if index < RAM_SIZE as u16 {
            self.ram.set(index as usize, value);
            Ok(())
        } else {
            Err(Error::IndexOutOfRange)
        }
    }

    /// Write the delay timer.
    pub fn set_delay_timer(&mut self, value: u8)
        requires
            old(self).wf(),
        ensures
            final(self).wf(),
            final(self)@ == (State { dt: value, ..old(self)@ }),
    {
        self.dt = value;
    }

    /// Write the sound timer.
    pub fn set_sound_timer(&mut self, value: u8)
        requires
            old(self).wf(),
        ensures
            final(self).wf(),
            final(self)@ == (State { st: value, ..old(self)@ }),
    {
        self.st = value;
    }

    /// Write the stack slot at `index`, or fail with `IndexOutOfRange`
    /// changing nothing.
    pub fn set_stack_value(&mut self, index: u8, value: u16) -> (r: Result<(), Error>)
        requires
            old(self).wf(),
        ensures
            final(self).wf(),
            index < STACK_SIZE ==> r is Ok && final(self)@ == (State {
                stack: old(self)@.stack.update(index as int, value),
                ..old(self)@
            }),
            index >= STACK_SIZE ==> r == Err::<(), Error>(Error::IndexOutOfRange) && final(self)@
                == old(self)@,
    {
        if index < STACK_SIZE as u8 {
            self.stack.set(index as usize, value);
            Ok(())
        } else {
            Err(Error::IndexOutOfRange)
        }
    }

    /// Write the stack pointer, or fail with `IndexOutOfRange` changing
    /// nothing when the value exceeds the stack capacity.
    pub fn set_stack_pointer(&mut self, value: u16) -> (r: Result<(), Error>)
        requires
            old(self).wf(),
        ensures
            final(self).wf(),
            value <= STACK_SIZE ==> r is Ok && final(self)@ == (State {
                sp: value,
                ..old(self)@
            }),
            value > STACK_SIZE ==> r == Err::<(), Error>(Error::IndexOutOfRange) && final(self)@
                == old(self)@,
    {
        if value <= STACK_SIZE as u16 {
            self.sp = value;
            Ok(())
        } else {
            Err(Error::IndexOutOfRange)
        }
    }

    /// Set or clear key `index` of the keyboard bitfield, or fail with
    /// `IndexOutOfRange` changing nothing.
    pub fn keypress(&mut self, index: u8, pressed: bool) -> (r: Result<(), Error>)
        requires
            old(self).wf(),
        ensures
            final(self).wf(),
            index < 16 ==> r is Ok && final(self)@ == (State {
                keys: set_key_spec(old(self)@.keys, index, pressed),
                ..old(self)@
            }),
            index >= 16 ==> r == Err::<(), Error>(Error::IndexOutOfRange) && final(self)@ == old(self)@,
    {
        if index < 16 {
            if pressed {
                self.keys = self.keys | (1u16 << index);
            } else {
                self.keys = self.keys & !(1u16 << index);
            }
            Ok(())
        } else {
            Err(Error::IndexOutOfRange)
        }
    }

    /// Force the single pixel at linear index `index` (0..2048) on or
    /// off, or fail with `IndexOutOfRange` changing nothing.
    pub fn set_screen_pixel(&mut self, index: u16, value: bool) -> (r: Result<(), Error>)
        requires
            old(self).wf(),
        ensures
            final(self).wf(),
            index < 2048 ==> r is Ok && final(self)@ == (State {
                display: set_pixel_spec(old(self)@.display, index as int, value),
                ..old(self)@
            }),
            index >= 2048 ==> r == Err::<(), Error>(Error::IndexOutOfRange) && final(self)@ == old(self)@,
    {
        if index < 2048 {
            let j = (index / 8) as usize;
            let sh = (7 - (index % 8)) as u8;
            let mask: u8 = 1u8 << sh;
            let b = self.display[j];
            self.display.set(
                j,
                if value {
                    b | mask
                } else {
                    b & !mask
                },
            );
            Ok(())
        } else {
            Err(Error::IndexOutOfRange)
        }
    }

    /// Whether every byte of the framebuffer is zero.
    pub fn is_display_cleared(&self) -> (r: bool)
        requires
            self.wf(),
        ensures
            r == (forall|j: int| 0 <= j < DISPLAY_SIZE ==> self@.display[j] == 0u8),
    {
        let mut k: usize = 0;
        while k < DISPLAY_SIZE
            invariant
                k <= DISPLAY_SIZE,
                self.display@.len() == DISPLAY_SIZE,
                forall|j: int| 0 <= j < k ==> self.display@[j] == 0u8,
            decreases DISPLAY_SIZE - k,
        {
            if self.display[k] != 0 {
                proof {
                    assert(0 <= k < DISPLAY_SIZE && self@.display[k as int] != 0u8);
                }
                return false;
            }
            k += 1;
        }
        true
    }
}

impl Default for Emulator {
    /// The baseline machine, as `new` builds it.
    fn default() -> (r: Emulator)
        ensures
            r@ == init_state(),
            r.wf(),
    {
        Emulator::new()
    }
}

} // verus!
