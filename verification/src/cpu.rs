//! The interpreter: fetch, decode/execute, the timer advance, the tick
//! cycle, and a bounded run — each proved to follow the transition
//! semantics in `semantics` exactly.

use vstd::prelude::*;

use crate::semantics::{
    beep_edge, coll_upto, draw_pixel, draw_upto, exec_step, fetch_op, first_key,
    pc_plus2, pix, rand_at, run_from, sprite_bit, tick_full, timers_step,
};
use crate::state::{wf, Emulator, Error, State, Status, RAM_SIZE, STACK_SIZE};

verus! {

/// Testing a bit by mask is the same as shifting it down.
proof fn lemma_mask_test(v: u8, sh: u8)
    by (bit_vector)
    requires
        sh < 8,
    ensures
        (v & (1u8 << sh) != 0) == ((v >> sh) & 1 == 1),
{
}

/// Bounds of the nibble and byte fields of an opcode.
proof fn lemma_op_fields(op: u16)
    by (bit_vector)
    ensures
        (op >> 8) & 0xF < 16,
        (op >> 4) & 0xF < 16,
        op & 0xF < 16,
        op & 0xFF < 256,
        op & 0x0FFF < 4096,
        op >> 12 < 16,
{
}

/// The low nibble of a byte is below 16.
proof fn lemma_low_nibble(v: u8)
    by (bit_vector)
    ensures
        v & 0xF < 16,
{
}

/// A program counter advanced past one instruction, wrapping as the
/// 16-bit register does.
fn pc_add2(pc: u16) -> (r: u16)
    ensures
        r == pc_plus2(pc),
{
    (((pc as u32) + 2) % 0x10000) as u16
}

impl Emulator {
    /// Advance both timers one tick; the result reports the audible
    /// edge, the sound timer going from exactly 1 to 0.
    pub fn tick_timers(&mut self) -> (beep: bool)
        requires
            old(self).wf(),
        ensures
            final(self).wf(),
            final(self)@ == timers_step(old(self)@),
            beep == beep_edge(old(self)@),
    {
        let beep = self.st == 1;
        if self.dt > 0 {
            self.dt = self.dt - 1;
        }
        if self.st > 0 {
            self.st = self.st - 1;
        }
        beep
    }

    /// Fetch the instruction at `pc` (high byte first) and advance `pc`
    /// past it. Fails with `MemoryOutOfBounds`, leaving `pc` and
    /// everything else unchanged, iff `pc + 1` lies outside RAM.
    pub fn fetch(&mut self) -> (r: Result<u16, Error>)
        requires
            old(self).wf(),
        ensures
            final(self).wf(),
            old(self)@.pc as int + 1 < RAM_SIZE ==> r == Ok::<u16, Error>(fetch_op(old(self)@))
                && final(self)@ == (State { pc: (old(self)@.pc + 2) as u16, ..old(self)@ }),
            old(self)@.pc as int + 1 >= RAM_SIZE ==> r == Err::<u16, Error>(
                Error::MemoryOutOfBounds,
            ) && final(self)@ == old(self)@,
    {
        if self.pc >= (RAM_SIZE as u16) - 1 {
            return Err(Error::MemoryOutOfBounds);
        }
        let hi = self.ram[self.pc as usize];
        let lo = self.ram[self.pc as usize + 1];
        let op = ((hi as u16) << 8) | (lo as u16);
        self.pc = self.pc + 2;
        Ok(op)
    }
}

impl Emulator {
    /// The `8XYm` ALU group, as `alu_step` describes it.
    fn exec_alu(&mut self, x: usize, y: usize, m: usize) -> (r: Result<(), Error>)
        requires
            old(self).wf(),
            x < 16,
            y < 16,
        ensures
            final(self).wf(),
            match crate::semantics::alu_step(old(self)@, x as int, y as int, m as int) {
                Ok(s2) => r is Ok && final(self)@ == s2,
                Err(e) => r == Err::<(), Error>(e) && final(self)@ == old(self)@,
            },
    {
        let vx = self.virtual_registers[x];
        let vy = self.virtual_registers[y];
        match m {
            0 => {
                self.virtual_registers.set(x, vy);
                Ok(())
            },
            1 => {
                self.virtual_registers.set(x, vx | vy);
                Ok(())
            },
            2 => {
                self.virtual_registers.set(x, vx & vy);
                Ok(())
            },
            3 => {
                self.virtual_registers.set(x, vx ^ vy);
                Ok(())
            },
            4 => {
                let sum: u16 = vx as u16 + vy as u16;
                let cf: u8 = if sum >= 256 {
                    1
                } else {
                    0
                };
                self.virtual_registers.set(x, (sum % 256) as u8);
                self.virtual_registers.set(15, cf);
                Ok(())
            },
            5 => {
                let cf: u8 = if vx >= vy {
                    1
                } else {
                    0
                };
                self.virtual_registers.set(x, ((vx as u16 + 256 - vy as u16) % 256) as u8);
                self.virtual_registers.set(15, cf);
                Ok(())
            },
            6 => {
                let cf: u8 = vx % 2;
                self.virtual_registers.set(x, vx / 2);
                self.virtual_registers.set(15, cf);
                Ok(())
            },
            7 => {
                let cf: u8 = if vy >= vx {
                    1
                } else {
                    0
                };
                self.virtual_registers.set(x, ((vy as u16 + 256 - vx as u16) % 256) as u8);
                self.virtual_registers.set(15, cf);
                Ok(())
            },
            0xE => {
                let cf: u8 = vx / 128;
                self.virtual_registers.set(x, ((vx as u16 * 2) % 256) as u8);
                self.virtual_registers.set(15, cf);
                Ok(())
            },
            _ => Err(Error::UnknownOpcode),
        }
    }

    /// The `FXnn` group, as `f_step` describes it.
    fn exec_f(&mut self, op: u16) -> (r: Result<(), Error>)
        requires
            old(self).wf(),
        ensures
            final(self).wf(),
            match crate::semantics::f_step(old(self)@, op) {
                Ok(s2) => r is Ok && final(self)@ == s2,
                Err(e) => r == Err::<(), Error>(e) && final(self)@ == old(self)@,
            },
    {
        proof {
            lemma_op_fields(op);
        }
        let x = ((op >> 8) & 0xF) as usize;
        let nn = (op & 0xFF) as u8;
        let vx = self.virtual_registers[x];
        if nn == 0x07 {
            self.virtual_registers.set(x, self.dt);
            Ok(())
        } else if nn == 0x0A {
            self.awaiting_key = Some(x as u8);
            Ok(())
        } else if nn == 0x15 {
            self.dt = vx;
            Ok(())
        } else if nn == 0x18 {
            self.st = vx;
            Ok(())
        } else if nn == 0x1E {
            self.i_register = (((self.i_register as u32) + (vx as u32)) % 0x10000) as u16;
            Ok(())
        } else if nn == 0x29 {
            proof {
                lemma_low_nibble(vx);
            }
            self.i_register = ((vx & 0xF) as u16) * 5;
            Ok(())
        } else if nn == 0x33 {
            if self.i_register as usize + 3 > RAM_SIZE {
                return Err(Error::MemoryOutOfBounds);
            }
            let i = self.i_register as usize;
            self.ram.set(i, vx / 100);
            self.ram.set(i + 1, (vx / 10) % 10);
            self.ram.set(i + 2, vx % 10);
            Ok(())
        } else if nn == 0x55 {
            if self.i_register as usize + x + 1 > RAM_SIZE {
                return Err(Error::MemoryOutOfBounds);
            }
            let i = self.i_register as usize;
            let mut j: usize = 0;
            while j < x + 1
                invariant
                    wf(old(self)@),
                    j <= x + 1,
                    x < 16,
                    i + x + 1 <= RAM_SIZE,
                    i == old(self)@.i_register,
                    self@ == (State { ram: self@.ram, ..old(self)@ }),
                    self.ram@.len() == RAM_SIZE,
                    forall|jj: int|
                        i <= jj < i + j ==> self.ram@[jj] == old(self)@.virtual_registers[jj - i],
                    forall|jj: int|
                        0 <= jj < RAM_SIZE && !(i <= jj < i + j) ==> self.ram@[jj] == old(
                            self,
                        )@.ram[jj],
                decreases x + 1 - j,
            {
                self.ram.set(i + j, self.virtual_registers[j]);
                j += 1;
            }
            proof {
                assert(self@.ram =~= Seq::new(
                    RAM_SIZE as nat,
                    |jj: int|
                        if i <= jj <= i + x {
                            old(self)@.virtual_registers[jj - i]
                        } else {
                            old(self)@.ram[jj]
                        },
                ));
            }
            Ok(())
        } else if nn == 0x65 {
            if self.i_register as usize + x + 1 > RAM_SIZE {
                return Err(Error::MemoryOutOfBounds);
            }
            let i = self.i_register as usize;
            let mut j: usize = 0;
            while j < x + 1
                invariant
                    wf(old(self)@),
                    j <= x + 1,
                    x < 16,
                    i + x + 1 <= RAM_SIZE,
                    i == old(self)@.i_register,
                    self@ == (State { virtual_registers: self@.virtual_registers, ..old(self)@ }),
                    self.virtual_registers@.len() == 16,
                    forall|jj: int|
                        0 <= jj < j ==> self.virtual_registers@[jj] == old(self)@.ram[i + jj],
                    forall|jj: int|
                        j <= jj < 16 ==> self.virtual_registers@[jj] == old(
                            self,
                        )@.virtual_registers[jj],
                decreases x + 1 - j,
            {
                let v = self.ram[i + j];
                self.virtual_registers.set(j, v);
                j += 1;
            }
            proof {
                assert(self@.virtual_registers =~= Seq::new(
                    16,
                    |jj: int|
                        if jj <= x {
                            old(self)@.ram[i + jj]
                        } else {
                            old(self)@.virtual_registers[jj]
                        },
                ));
            }
            Ok(())
        } else {
            Err(Error::UnknownOpcode)
        }
    }

    /// The `DXYN` draw: XOR an `n`-row sprite read from `ram[I..I+n)`
    /// onto the framebuffer at `(VX, VY)` with wraparound, setting VF
    /// to 1 exactly when a lit pixel was hit.
    fn exec_draw(&mut self, x: usize, y: usize, n: usize) -> (r: Result<(), Error>)
        requires
            old(self).wf(),
            x < 16,
            y < 16,
            n < 16,
        ensures
            final(self).wf(),
            old(self)@.i_register as int + n > RAM_SIZE ==> r == Err::<(), Error>(
                Error::MemoryOutOfBounds,
            ) && final(self)@ == old(self)@,
            old(self)@.i_register as int + n <= RAM_SIZE ==> r is Ok && final(self)@ == (State {
                display: draw_upto(
                    old(self)@.display,
                    old(self)@.ram,
                    old(self)@.i_register as int,
                    old(self)@.virtual_registers[x as int] as int,
                    old(self)@.virtual_registers[y as int] as int,
                    (8 * n) as nat,
                ),
                virtual_registers: old(self)@.virtual_registers.update(
                    0xF,
                    if coll_upto(
                        old(self)@.display,
                        old(self)@.ram,
                        old(self)@.i_register as int,
                        old(self)@.virtual_registers[x as int] as int,
                        old(self)@.virtual_registers[y as int] as int,
                        (8 * n) as nat,
                    ) {
                        1u8
                    } else {
                        0u8
                    },
                ),
                ..old(self)@
            }),
    {
        if self.i_register as usize + n > RAM_SIZE {
            return Err(Error::MemoryOutOfBounds);
        }
        let i = self.i_register as usize;
        let vx = self.virtual_registers[x] as usize;
        let vy = self.virtual_registers[y] as usize;
        let ghost d0 = self@.display;
        let ghost ram0 = self@.ram;
        let mut vf: u8 = 0;
        let mut rr: usize = 0;
        while rr < n
            invariant
                wf(old(self)@),
                rr <= n,
                n < 16,
                i + n <= RAM_SIZE,
                vx < 256,
                vy < 256,
                i == old(self)@.i_register,
                vx == old(self)@.virtual_registers[x as int],
                vy == old(self)@.virtual_registers[y as int],
                d0 == old(self)@.display,
                ram0 == old(self)@.ram,
                self@ == (State { display: self@.display, ..old(self)@ }),
                self.display@.len() == 256,
                self@.display == draw_upto(d0, ram0, i as int, vx as int, vy as int, (8 * rr) as nat),
                vf == (if coll_upto(d0, ram0, i as int, vx as int, vy as int, (8 * rr) as nat) {
                    1u8
                } else {
                    0u8
                }),
            decreases n - rr,
        {
            let row_byte = self.ram[i + rr];
            let mut b: usize = 0;
            while b < 8
                invariant
                    wf(old(self)@),
                    b <= 8,
                    rr < n,
                    n < 16,
                    i + n <= RAM_SIZE,
                    vx < 256,
                    vy < 256,
                    i == old(self)@.i_register,
                    vx == old(self)@.virtual_registers[x as int],
                    vy == old(self)@.virtual_registers[y as int],
                    d0 == old(self)@.display,
                    ram0 == old(self)@.ram,
                    row_byte == ram0[i + rr],
                    self@ == (State { display: self@.display, ..old(self)@ }),
                    self.display@.len() == 256,
                    self@.display == draw_upto(
                        d0,
                        ram0,
                        i as int,
                        vx as int,
                        vy as int,
                        (8 * rr + b) as nat,
                    ),
                    vf == (if coll_upto(
                        d0,
                        ram0,
                        i as int,
                        vx as int,
                        vy as int,
                        (8 * rr + b) as nat,
                    ) {
                        1u8
                    } else {
                        0u8
                    }),
                decreases 8 - b,
            {
                let ghost k = (8 * rr + b) as nat;
                let ghost prev = self@.display;
                proof {
                    assert((8 * rr + b + 1 - 1) / 8 == rr && (8 * rr + b + 1 - 1) % 8 == b) by (nonlinear_arith)
                        requires
                            0 <= b < 8,
                            0 <= rr,
                    ;
                    assert(draw_upto(d0, ram0, i as int, vx as int, vy as int, (k + 1) as nat)
                        == draw_pixel(
                        prev,
                        (vy + rr) % 32,
                        (vx + b) % 64,
                        sprite_bit(ram0, i as int, rr as int, b as int),
                    ));
                    assert(coll_upto(d0, ram0, i as int, vx as int, vy as int, (k + 1) as nat)
                        == (coll_upto(d0, ram0, i as int, vx as int, vy as int, k) || (sprite_bit(
                        ram0,
                        i as int,
                        rr as int,
                        b as int,
                    ) && pix(prev, ((vy + rr) % 32) as int, ((vx + b) % 64) as int))));
                }
                let t = (vy + rr) % 32;
                let c = (vx + b) % 64;
                let sh8: u8 = (7 - b) as u8;
                let sbit = (row_byte >> sh8) & 1;
                proof {
                    assert((row_byte >> sh8) & 1 == 1 || (row_byte >> sh8) & 1 == 0) by (bit_vector);
                }
                if sbit == 1 {
                    let j = t * 8 + c / 8;
                    let shc: u8 = (7 - (c % 8)) as u8;
                    let mask: u8 = 1u8 << shc;
                    let cur = self.display[j];
                    proof {
                        lemma_mask_test(cur, shc);
                    }
                    if cur & mask != 0 {
                        vf = 1;
                    }
                    self.display.set(j, cur ^ mask);
                }
                b += 1;
            }
            rr += 1;
        }
        self.virtual_registers.set(15, vf);
        proof {
            assert(8 * n == (8 * (n as int)) as nat);
        }
        Ok(())
    }
}

impl Emulator {
    /// Decode and execute one opcode. `rand` is the injected random
    /// byte consumed by `CXNN`. On failure the state is exactly as it
    /// was; the caller decides whether the machine halts.
    pub fn execute(&mut self, op: u16, rand: u8) -> (r: Result<(), Error>)
        requires
            old(self).wf(),
        ensures
            final(self).wf(),
            match exec_step(old(self)@, op, rand) {
                Ok(s2) => r is Ok && final(self)@ == s2,
                Err(e) => r == Err::<(), Error>(e) && final(self)@ == old(self)@,
            },
    {
        proof {
            lemma_op_fields(op);
        }
        let top = op >> 12;
        let x = ((op >> 8) & 0xF) as usize;
        let y = ((op >> 4) & 0xF) as usize;
        let nn = (op & 0xFF) as u8;
        let nnn = op & 0x0FFF;
        let n = (op & 0xF) as usize;
        let vx = self.virtual_registers[x];
        let vy = self.virtual_registers[y];
        if op == 0x00E0 {
            let mut k: usize = 0;
            while k < 256
                invariant
                    wf(old(self)@),
                    k <= 256,
                    self@ == (State { display: self@.display, ..old(self)@ }),
                    self.display@.len() == 256,
                    forall|j: int| 0 <= j < k ==> self.display@[j] == 0u8,
                decreases 256 - k,
            {
                self.display.set(k, 0);
                k += 1;
            }
            proof {
                assert(self@.display =~= crate::state::zero_display());
            }
            Ok(())
        } else if op == 0x00EE {
            if self.sp == 0 {
                return Err(Error::StackUnderflow);
            }
            self.sp = self.sp - 1;
            self.pc = self.stack[self.sp as usize];
            Ok(())
        } else if top == 0x0 {
            Err(Error::UnknownOpcode)
        } else if top == 0x1 {
            self.pc = nnn;
            Ok(())
        } else if top == 0x2 {
            if self.sp >= STACK_SIZE as u16 {
                return Err(Error::StackOverflow);
            }
            let sp = self.sp as usize;
            self.stack.set(sp, self.pc);
            self.sp = self.sp + 1;
            self.pc = nnn;
            Ok(())
        } else if top == 0x3 {
            if vx == nn {
                self.pc = pc_add2(self.pc);
            }
            Ok(())
        } else if top == 0x4 {
            if vx != nn {
                self.pc = pc_add2(self.pc);
            }
            Ok(())
        } else if top == 0x5 {
            if n != 0 {
                return Err(Error::UnknownOpcode);
            }
            if vx == vy {
                self.pc = pc_add2(self.pc);
            }
            Ok(())
        } else if top == 0x6 {
            self.virtual_registers.set(x, nn);
            Ok(())
        } else if top == 0x7 {
            self.virtual_registers.set(x, ((vx as u16 + nn as u16) % 256) as u8);
            Ok(())
        } else if top == 0x8 {
            self.exec_alu(x, y, n)
        } else if top == 0x9 {
            if n != 0 {
                return Err(Error::UnknownOpcode);
            }
            if vx != vy {
                self.pc = pc_add2(self.pc);
            }
            Ok(())
        } else if top == 0xA {
            self.i_register = nnn;
            Ok(())
        } else if top == 0xB {
            self.pc = nnn + (self.virtual_registers[0] as u16);
            Ok(())
        } else if top == 0xC {
            self.virtual_registers.set(x, rand & nn);
            Ok(())
        } else if top == 0xD {
            self.exec_draw(x, y, n)
        } else if top == 0xE {
            proof {
                lemma_low_nibble(vx);
            }
            if nn == 0x9E {
                let key = (vx & 0xF) as u16;
                if (self.keys >> key) & 1 == 1 {
                    self.pc = pc_add2(self.pc);
                }
                Ok(())
            } else if nn == 0xA1 {
                let key = (vx & 0xF) as u16;
                if (self.keys >> key) & 1 != 1 {
                    self.pc = pc_add2(self.pc);
                }
                Ok(())
            } else {
                Err(Error::UnknownOpcode)
            }
        } else {
            self.exec_f(op)
        }
    }

    /// One CPU tick: one fetch, one decode/execute, one timer advance,
    /// as `tick_full` describes it. An Idle machine reports
    /// `ProgramSizeZero`; a Halted machine reports its recorded error;
    /// a Running machine that is awaiting a key polls the keyboard
    /// instead of fetching. Any fetch or execute failure halts the
    /// machine with that error.
    pub fn tick(&mut self, rand: u8) -> (r: Result<(), Error>)
        requires
            old(self).wf(),
        ensures
            final(self).wf(),
            final(self)@ == tick_full(old(self)@, rand).0,
            r == tick_full(old(self)@, rand).1,
    {
        match self.status {
            Status::Idle => Err(Error::ProgramSizeZero),
            Status::Halted(e) => Err(e),
            Status::Running => {
                match self.awaiting_key {
                    Some(x) => {
                        proof {
                            assert(x < 16);
                        }
                        let mut k: u16 = 0;
                        while k < 16
                            invariant
                                wf(old(self)@),
                                x < 16,
                                k <= 16,
                                self@ == old(self)@,
                                old(self)@.status == Status::Running,
                                old(self)@.awaiting_key == Some(x),
                                first_key(self.keys, 0) == first_key(self.keys, k as int),
                            decreases 16 - k,
                        {
                            if (self.keys >> k) & 1 == 1 {
                                proof {
                                    assert(first_key(self@.keys, k as int) == Some(k as u8));
                                }
                                let xi = x as usize;
                                self.virtual_registers.set(xi, k as u8);
                                self.awaiting_key = None;
                                let _beep = self.tick_timers();
                                return Ok(());
                            }
                            proof {
                                assert(first_key(self@.keys, k as int) == first_key(
                                    self@.keys,
                                    k as int + 1,
                                ));
                            }
                            k += 1;
                        }
                        proof {
                            assert(first_key(self@.keys, 16) is None);
                        }
                        let _beep = self.tick_timers();
                        Ok(())
                    },
                    None => {
                        match self.fetch() {
                            Err(e) => {
                                self.status = Status::Halted(e);
                                Err(e)
                            },
                            Ok(op) => {
                                match self.execute(op, rand) {
                                    Ok(()) => {
                                        let _beep = self.tick_timers();
                                        Ok(())
                                    },
                                    Err(e) => {
                                        self.status = Status::Halted(e);
                                        Err(e)
                                    },
                                }
                            },
                        }
                    },
                }
            },
        }
    }

    /// Run one tick per loaded program byte, stopping at the first tick
    /// that reports an error. `rand` supplies one random byte per tick
    /// (zero once exhausted). Fails with `ProgramSizeZero`, changing
    /// nothing, iff no program is loaded.
    pub fn run(&mut self, rand: &Vec<u8>) -> (r: Result<(), Error>)
        requires
            old(self).wf(),
        ensures
            final(self).wf(),
            old(self)@.program_size == 0 ==> r == Err::<(), Error>(Error::ProgramSizeZero) && final(self)@ == old(self)@,
            old(self)@.program_size > 0 ==> final(self)@ == run_from(
                old(self)@,
                rand@,
                0,
                old(self)@.program_size as nat,
            ).0 && r == run_from(old(self)@, rand@, 0, old(self)@.program_size as nat).1,
    {
        if self.program_size == 0 {
            return Err(Error::ProgramSizeZero);
        }
        let n = self.program_size;
        let mut k: usize = 0;
        while k < n
            invariant
                wf(self@),
                k <= n,
                n == old(self)@.program_size,
                run_from(old(self)@, rand@, 0, n as nat) == run_from(
                    self@,
                    rand@,
                    k as int,
                    (n - k) as nat,
                ),
            decreases n - k,
        {
            let rb = if k < rand.len() {
                rand[k]
            } else {
                0
            };
            proof {
                assert(rb == rand_at(rand@, k as int));
            }
            let ghost pre = self@;
            match self.tick(rb) {
                Err(e) => {
                    proof {
                        assert(run_from(pre, rand@, k as int, (n - k) as nat) == (self@, Err::<
                            (),
                            Error,
                        >(e)));
                    }
                    return Err(e);
                },
                Ok(()) => {
                    proof {
                        assert(run_from(pre, rand@, k as int, (n - k) as nat) == run_from(
                            self@,
                            rand@,
                            k as int + 1,
                            (n - k - 1) as nat,
                        ));
                    }
                },
            }
            k += 1;
        }
        Ok(())
    }
}

} // verus!
