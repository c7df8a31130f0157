//! The transition semantics of the core, as spec functions over `State`.
//!
//! `exec_step` gives the meaning of one decoded opcode, `tick_full` the
//! meaning of one whole tick (fetch, execute, timer advance, and the
//! Idle / Running / Halted bookkeeping), and `run_from` the meaning of a
//! bounded run. The executable functions in `cpu` are proved to follow
//! these definitions exactly.

use vstd::prelude::*;

use crate::state::{Error, State, Status, zero_display, DISPLAY_SIZE, RAM_SIZE, STACK_SIZE};

verus! {

/// The X nibble of an opcode: bits 8..12.
pub open spec fn op_x(op: u16) -> int {
    ((op >> 8) & 0xF) as int
}

/// The Y nibble of an opcode: bits 4..8.
pub open spec fn op_y(op: u16) -> int {
    ((op >> 4) & 0xF) as int
}

/// The low byte of an opcode.
pub open spec fn op_nn(op: u16) -> u8 {
    (op & 0xFF) as u8
}

/// The low 12 bits of an opcode, an address.
pub open spec fn op_nnn(op: u16) -> u16 {
    op & 0x0FFF
}

/// The low nibble of an opcode.
pub open spec fn op_n(op: u16) -> int {
    (op & 0xF) as int
}

/// A program counter advanced past one instruction, wrapping as the
/// 16-bit register does.
pub open spec fn pc_plus2(pc: u16) -> u16 {
    ((pc as int + 2) % 0x10000) as u16
}

/// 8-bit wrapping addition.
pub open spec fn wrap_add(a: u8, b: u8) -> u8 {
    ((a as int + b as int) % 256) as u8
}

/// 8-bit wrapping subtraction `a - b`.
pub open spec fn wrap_sub(a: u8, b: u8) -> u8 {
    ((a as int + 256 - b as int) % 256) as u8
}

/// Whether key `k` is held in the keyboard bitfield.
pub open spec fn key_pressed(keys: u16, k: int) -> bool {
    (keys >> (k as u16)) & 1 == 1
}

/// The lowest held key at or above index `k`, if any.
pub open spec fn first_key(keys: u16, k: int) -> Option<u8>
    decreases 16 - k,
{
    if k >= 16 {
        None
    } else if key_pressed(keys, k) {
        Some(k as u8)
    } else {
        first_key(keys, k + 1)
    }
}

/// Pixel at row `t`, column `c` of a packed framebuffer (`true` = lit).
pub open spec fn pix(d: Seq<u8>, t: int, c: int) -> bool {
    (d[t * 8 + c / 8] >> ((7 - c % 8) as u8)) & 1 == 1
}

/// Pixel at linear index `p` (row `p / 64`, column `p % 64`).
pub open spec fn pix_lin(d: Seq<u8>, p: int) -> bool {
    (d[p / 8] >> ((7 - p % 8) as u8)) & 1 == 1
}

/// Bit `b` (0 = leftmost) of sprite row `r` read from `ram[i + r]`.
pub open spec fn sprite_bit(ram: Seq<u8>, i: int, r: int, b: int) -> bool {
    (ram[i + r] >> ((7 - b) as u8)) & 1 == 1
}

/// XOR one sprite pixel onto the framebuffer: flip the pixel at row `t`,
/// column `c` when the sprite bit is on.
pub open spec fn draw_pixel(d: Seq<u8>, t: int, c: int, on: bool) -> Seq<u8> {
    if on {
        let j = t * 8 + c / 8;
        d.update(j, d[j] ^ (1u8 << ((7 - c % 8) as u8)))
    } else {
        d
    }
}

/// The framebuffer after the first `k` of the `8 * n` sprite-pixel steps
/// of a `DXYN` draw, taken in row-major order: step `m` handles sprite
/// row `m / 8`, bit `m % 8`, with wraparound at 64 x 32.
pub open spec fn draw_upto(d: Seq<u8>, ram: Seq<u8>, i: int, vx: int, vy: int, k: nat) -> Seq<u8>
    decreases k,
{
    if k == 0 {
        d
    } else {
        let k1 = (k - 1) as nat;
        let r = k1 as int / 8;
        let b = k1 as int % 8;
        let prev = draw_upto(d, ram, i, vx, vy, k1);
        draw_pixel(prev, (vy + r) % 32, (vx + b) % 64, sprite_bit(ram, i, r, b))
    }
}

/// Whether any of the first `k` sprite-pixel steps found its target
/// pixel already lit (the collision condition that sets VF).
pub open spec fn coll_upto(d: Seq<u8>, ram: Seq<u8>, i: int, vx: int, vy: int, k: nat) -> bool
    decreases k,
{
    if k == 0 {
        false
    } else {
        let k1 = (k - 1) as nat;
        let r = k1 as int / 8;
        let b = k1 as int % 8;
        let prev = draw_upto(d, ram, i, vx, vy, k1);
        coll_upto(d, ram, i, vx, vy, k1) || (sprite_bit(ram, i, r, b) && pix(
            prev,
            (vy + r) % 32,
            (vx + b) % 64,
        ))
    }
}

/// Meaning of the `8XYm` ALU group.
pub open spec fn alu_step(s: State, x: int, y: int, m: int) -> Result<State, Error> {
    let vx = s.virtual_registers[x];
    let vy = s.virtual_registers[y];
    let regs = s.virtual_registers;
    if m == 0 {
        Ok(State { virtual_registers: regs.update(x, vy), ..s })
    } else if m == 1 {
        Ok(State { virtual_registers: regs.update(x, vx | vy), ..s })
    } else if m == 2 {
        Ok(State { virtual_registers: regs.update(x, vx & vy), ..s })
    } else if m == 3 {
        Ok(State { virtual_registers: regs.update(x, vx ^ vy), ..s })
    } else if m == 4 {
        let cf: u8 = if vx as int + vy as int >= 256 { 1 } else { 0 };
        Ok(State { virtual_registers: regs.update(x, wrap_add(vx, vy)).update(0xF, cf), ..s })
    } else if m == 5 {
        let cf: u8 = if vx >= vy { 1 } else { 0 };
        Ok(State { virtual_registers: regs.update(x, wrap_sub(vx, vy)).update(0xF, cf), ..s })
    } else if m == 6 {
        let cf: u8 = (vx % 2) as u8;
        Ok(State { virtual_registers: regs.update(x, (vx / 2) as u8).update(0xF, cf), ..s })
    } else if m == 7 {
        let cf: u8 = if vy >= vx { 1 } else { 0 };
        Ok(State { virtual_registers: regs.update(x, wrap_sub(vy, vx)).update(0xF, cf), ..s })
    } else if m == 0xE {
        let cf: u8 = (vx / 128) as u8;
        Ok(
            State {
                virtual_registers: regs.update(x, ((vx as int * 2) % 256) as u8).update(0xF, cf),
                ..s
            },
        )
    } else {
        Err(Error::UnknownOpcode)
    }
}

/// Meaning of the `FXnn` group.
pub open spec fn f_step(s: State, op: u16) -> Result<State, Error> {
    let x = op_x(op);
    let nn = op_nn(op);
    let vx = s.virtual_registers[x];
    let i = s.i_register as int;
    if nn == 0x07 {
        Ok(State { virtual_registers: s.virtual_registers.update(x, s.dt), ..s })
    } else if nn == 0x0A {
        Ok(State { awaiting_key: Some(x as u8), ..s })
    } else if nn == 0x15 {
        Ok(State { dt: vx, ..s })
    } else if nn == 0x18 {
        Ok(State { st: vx, ..s })
    } else if nn == 0x1E {
        Ok(State { i_register: ((i + vx as int) % 0x10000) as u16, ..s })
    } else if nn == 0x29 {
        Ok(State { i_register: ((vx & 0xF) * 5) as u16, ..s })
    } else if nn == 0x33 {
        if i + 3 > RAM_SIZE {
            Err(Error::MemoryOutOfBounds)
        } else {
            Ok(
                State {
                    ram: s.ram.update(i, (vx / 100) as u8).update(i + 1, ((vx / 10) % 10) as u8)
                        .update(i + 2, (vx % 10) as u8),
                    ..s
                },
            )
        }
    } else if nn == 0x55 {
        if i + x + 1 > RAM_SIZE {
            Err(Error::MemoryOutOfBounds)
        } else {
            Ok(
                State {
                    ram: Seq::new(
                        RAM_SIZE as nat,
                        |j: int|
                            if i <= j <= i + x {
                                s.virtual_registers[j - i]
                            } else {
                                s.ram[j]
                            },
                    ),
                    ..s
                },
            )
        }
    } else if nn == 0x65 {
        if i + x + 1 > RAM_SIZE {
            Err(Error::MemoryOutOfBounds)
        } else {
            Ok(
                State {
                    virtual_registers: Seq::new(
                        16,
                        |j: int|
                            if j <= x {
                                s.ram[i + j]
                            } else {
                                s.virtual_registers[j]
                            },
                    ),
                    ..s
                },
            )
        }
    } else {
        Err(Error::UnknownOpcode)
    }
}

/// Meaning of one decoded opcode against state `s`. `rand` is the
/// injected random byte consumed by `CXNN`. An `Err` leaves the state
/// exactly as it was.
pub open spec fn exec_step(s: State, op: u16, rand: u8) -> Result<State, Error> {
    let top = op >> 12;
    let x = op_x(op);
    let y = op_y(op);
    let nn = op_nn(op);
    let nnn = op_nnn(op);
    let n = op_n(op);
    let vx = s.virtual_registers[x];
    let vy = s.virtual_registers[y];
    if op == 0x00E0 {
        Ok(State { display: zero_display(), ..s })
    } else if op == 0x00EE {
        if s.sp == 0 {
            Err(Error::StackUnderflow)
        } else {
            Ok(State { sp: (s.sp - 1) as u16, pc: s.stack[s.sp - 1], ..s })
        }
    } else if top == 0x0 {
        Err(Error::UnknownOpcode)
    } else if top == 0x1 {
        Ok(State { pc: nnn, ..s })
    } else if top == 0x2 {
        if s.sp >= STACK_SIZE {
            Err(Error::StackOverflow)
        } else {
            Ok(
                State {
                    stack: s.stack.update(s.sp as int, s.pc),
                    sp: (s.sp + 1) as u16,
                    pc: nnn,
                    ..s
                },
            )
        }
    } else if top == 0x3 {
        Ok(if vx == nn { State { pc: pc_plus2(s.pc), ..s } } else { s })
    } else if top == 0x4 {
        Ok(if vx != nn { State { pc: pc_plus2(s.pc), ..s } } else { s })
    } else if top == 0x5 {
        if n != 0 {
            Err(Error::UnknownOpcode)
        } else {
            Ok(if vx == vy { State { pc: pc_plus2(s.pc), ..s } } else { s })
        }
    } else if top == 0x6 {
        Ok(State { virtual_registers: s.virtual_registers.update(x, nn), ..s })
    } else if top == 0x7 {
        Ok(State { virtual_registers: s.virtual_registers.update(x, wrap_add(vx, nn)), ..s })
    } else if top == 0x8 {
        alu_step(s, x, y, n)
    } else if top == 0x9 {
        if n != 0 {
            Err(Error::UnknownOpcode)
        } else {
            Ok(if vx != vy { State { pc: pc_plus2(s.pc), ..s } } else { s })
        }
    } else if top == 0xA {
        Ok(State { i_register: nnn, ..s })
    } else if top == 0xB {
        Ok(State { pc: (nnn + s.virtual_registers[0] as u16) as u16, ..s })
    } else if top == 0xC {
        Ok(State { virtual_registers: s.virtual_registers.update(x, rand & nn), ..s })
    } else if top == 0xD {
        if s.i_register as int + n > RAM_SIZE {
            Err(Error::MemoryOutOfBounds)
        } else {
            let i = s.i_register as int;
            let vf: u8 = if coll_upto(s.display, s.ram, i, vx as int, vy as int, (8 * n) as nat) {
                1
            } else {
                0
            };
            Ok(
                State {
                    display: draw_upto(s.display, s.ram, i, vx as int, vy as int, (8 * n) as nat),
                    virtual_registers: s.virtual_registers.update(0xF, vf),
                    ..s
                },
            )
        }
    } else if top == 0xE {
        if nn == 0x9E {
            Ok(
                if key_pressed(s.keys, (vx & 0xF) as int) {
                    State { pc: pc_plus2(s.pc), ..s }
                } else {
                    s
                },
            )
        } else if nn == 0xA1 {
            Ok(
                if !key_pressed(s.keys, (vx & 0xF) as int) {
                    State { pc: pc_plus2(s.pc), ..s }
                } else {
                    s
                },
            )
        } else {
            Err(Error::UnknownOpcode)
        }
    } else {
        f_step(s, op)
    }
}

/// A timer decremented by one tick, never past zero.
pub open spec fn dec(t: u8) -> u8 {
    if t > 0 {
        (t - 1) as u8
    } else {
        0
    }
}

/// Both timers advanced by one tick.
pub open spec fn timers_step(s: State) -> State {
    State { dt: dec(s.dt), st: dec(s.st), ..s }
}

/// Whether this tick's timer advance is the audible edge: the sound
/// timer goes from exactly 1 to 0.
pub open spec fn beep_edge(s: State) -> bool {
    s.st == 1
}

/// The opcode a fetch at `s.pc` reads: high byte first.
pub open spec fn fetch_op(s: State) -> u16 {
    ((s.ram[s.pc as int] as u16) << 8) | (s.ram[s.pc as int + 1] as u16)
}

/// Meaning of one whole tick: the new state and what `tick` returns.
///
/// Idle and Halted states refuse to advance. A Running machine that is
/// awaiting a key polls the keyboard (timers still advance); otherwise
/// it fetches, executes, and advances the timers, and any failure halts
/// the machine with that error recorded.
pub open spec fn tick_full(s: State, rand: u8) -> (State, Result<(), Error>) {
    match s.status {
        Status::Idle => (s, Err(Error::ProgramSizeZero)),
        Status::Halted(e) => (s, Err(e)),
        Status::Running => match s.awaiting_key {
            Some(x) => match first_key(s.keys, 0) {
                Some(k) => (
                    timers_step(
                        State {
                            virtual_registers: s.virtual_registers.update(x as int, k),
                            awaiting_key: None,
                            ..s
                        },
                    ),
                    Ok(()),
                ),
                None => (timers_step(s), Ok(())),
            },
            None => {
                if s.pc as int + 1 >= RAM_SIZE {
                    (State { status: Status::Halted(Error::MemoryOutOfBounds), ..s }, Err(
                        Error::MemoryOutOfBounds,
                    ))
                } else {
                    let op = fetch_op(s);
                    let s1 = State { pc: (s.pc + 2) as u16, ..s };
                    match exec_step(s1, op, rand) {
                        Ok(s2) => (timers_step(s2), Ok(())),
                        Err(e) => (State { status: Status::Halted(e), ..s1 }, Err(e)),
                    }
                }
            },
        },
    }
}

/// The random byte a bounded run feeds to its `k`-th tick: the `k`-th
/// supplied byte, or zero once the supply is exhausted.
pub open spec fn rand_at(rands: Seq<u8>, k: int) -> u8 {
    if 0 <= k < rands.len() {
        rands[k]
    } else {
        0
    }
}

/// Meaning of `n` consecutive ticks starting at supply index `idx`,
/// stopping at the first tick that reports an error. (Once a tick has
/// failed the machine is halted and further ticks would change
/// nothing, so stopping early loses no state.)
pub open spec fn run_from(s: State, rands: Seq<u8>, idx: int, n: nat) -> (State, Result<(), Error>)
    decreases n,
{
    if n == 0 {
        (s, Ok(()))
    } else {
        let t = tick_full(s, rand_at(rands, idx));
        if t.1 is Err {
            t
        } else {
            run_from(t.0, rands, idx + 1, (n - 1) as nat)
        }
    }
}

} // verus!
