//! The semantics of the interpreter, as pure functions over the machine
//! model: instruction word decoding, the fetch step, and the effect of every
//! opcode. The executable cycle in [`crate::cpu`] is verified against these.

use vstd::prelude::*;

use crate::machine::EmuError;
use crate::machine::MachineView;
use crate::machine::NUM_KEYS;
use crate::machine::NUM_REGS;
use crate::machine::RAM_SIZE;
use crate::machine::SCREEN_CELLS;
use crate::machine::SCREEN_HEIGHT;
use crate::machine::SCREEN_WIDTH;
use crate::machine::STACK_SIZE;

verus! {

/// Highest nibble of an instruction word: selects the opcode family.
pub open spec fn nib1(op: u16) -> u16 {
    (op >> 12) & 0xF
}

/// Second nibble of an instruction word: the register index `x`.
pub open spec fn nib2(op: u16) -> u16 {
    (op >> 8) & 0xF
}

/// Third nibble of an instruction word: the register index `y`.
pub open spec fn nib3(op: u16) -> u16 {
    (op >> 4) & 0xF
}

/// Lowest nibble of an instruction word: the immediate `n`.
pub open spec fn nib4(op: u16) -> u16 {
    op & 0xF
}

/// Low byte of an instruction word: the immediate `nn`.
pub open spec fn low_byte(op: u16) -> u8 {
    (op & 0xFF) as u8
}

/// Lowest twelve bits of an instruction word: the address `nnn`.
pub open spec fn addr_of(op: u16) -> u16 {
    op & 0xFFF
}

/// Every nibble field lies below 16 and the address field below 4096.
pub proof fn lemma_field_bounds(op: u16)
    ensures
        nib1(op) < 16,
        nib2(op) < 16,
        nib3(op) < 16,
        nib4(op) < 16,
        addr_of(op) < 4096,
{
    assert(((op >> 12) & 0xF) < 16 && ((op >> 8) & 0xF) < 16 && ((op >> 4) & 0xF) < 16 && (op
        & 0xF) < 16 && (op & 0xFFF) < 4096) by (bit_vector);
}

/// Byte addition, wrapping modulo 256.
pub open spec fn wrap_add8(a: u8, b: u8) -> u8 {
    if a + b > 255 {
        (a + b - 256) as u8
    } else {
        (a + b) as u8
    }
}

/// Byte subtraction, wrapping modulo 256.
pub open spec fn wrap_sub8(a: u8, b: u8) -> u8 {
    if a - b < 0 {
        (a - b + 256) as u8
    } else {
        (a - b) as u8
    }
}

/// Sixteen-bit addition, wrapping modulo 65536.
pub open spec fn wrap_add16(a: u16, b: u16) -> u16 {
    if a + b > 0xFFFF {
        (a + b - 0x10000) as u16
    } else {
        (a + b) as u16
    }
}

/// The lowest-indexed pressed key at or above index `k`, if any.
pub open spec fn first_pressed_from(keys: Seq<bool>, k: int) -> Option<u8>
    decreases keys.len() - k,
    when 0 <= k <= keys.len()
{
    if k >= keys.len() {
        None
    } else if keys[k] {
        Some(k as u8)
    } else {
        first_pressed_from(keys, k + 1)
    }
}

/// Index of the framebuffer cell at column `x` of row `y` (row-major).
pub open spec fn cell_index(x: int, y: int) -> int {
    y * (SCREEN_WIDTH as int) + x
}

/// Bit `c` of a sprite row byte, counting the most significant bit as
/// column offset zero.
pub open spec fn sprite_bit(row: u8, c: int) -> bool {
    ((row >> ((7 - c) as u8)) & 1) == 1
}

/// Whether row `r`, column `c` of the sprite read from memory at `i` is a
/// set bit whose target, for origin `(x0, y0)`, is the framebuffer cell
/// `cell`. Coordinates wrap independently per axis, so a sprite drawn near
/// an edge continues on the opposite edge.
pub open spec fn covers_pair(
    ram: Seq<u8>,
    i: u16,
    x0: u8,
    y0: u8,
    r: int,
    c: int,
    cell: int,
) -> bool {
    sprite_bit(ram[i + r], c) && cell == cell_index(
        (x0 + c) % (SCREEN_WIDTH as int),
        (y0 + r) % (SCREEN_HEIGHT as int),
    )
}

/// Whether the sprite of `n` rows read from memory at `i`, drawn with
/// origin `(x0, y0)`, toggles the framebuffer cell `cell`.
pub open spec fn sprite_covers(ram: Seq<u8>, i: u16, n: u16, x0: u8, y0: u8, cell: int) -> bool {
    exists|r: int, c: int|
        0 <= r < n && 0 <= c < 8 && #[trigger] covers_pair(ram, i, x0, y0, r, c, cell)
}

/// The framebuffer after a sprite draw: every covered cell is toggled,
/// every other cell keeps its state.
pub open spec fn draw_screen(
    pre: Seq<bool>,
    ram: Seq<u8>,
    i: u16,
    n: u16,
    x0: u8,
    y0: u8,
) -> Seq<bool> {
    Seq::new(pre.len(), |cell: int| pre[cell] != sprite_covers(ram, i, n, x0, y0, cell))
}

/// Whether a sprite draw erases at least one lit cell: the canonical
/// collision signal, reported in the flag register.
pub open spec fn draw_collision(
    pre: Seq<bool>,
    ram: Seq<u8>,
    i: u16,
    n: u16,
    x0: u8,
    y0: u8,
) -> bool {
    exists|cell: int|
        0 <= cell < pre.len() && #[trigger] sprite_covers(ram, i, n, x0, y0, cell) && pre[cell]
}

/// The fetch step: reads the two bytes at the program counter, combines
/// them big-endian into one instruction word and advances the counter by
/// two. Fails with a memory fault when the counter is within one byte of
/// the end of memory.
pub open spec fn fetch_step(pre: MachineView) -> Result<(u16, MachineView), EmuError> {
    if pre.pc + 1 < RAM_SIZE {
        Ok(
            (
                (((pre.ram[pre.pc as int] as u16) << 8u16) | (pre.ram[pre.pc + 1] as u16)),
                MachineView { pc: (pre.pc + 2) as u16, ..pre },
            ),
        )
    } else {
        Err(EmuError::MemoryFault)
    }
}

/// The effect of executing one decoded instruction word `op` on the
/// machine state `pre`, whose program counter has already been advanced
/// past the instruction. `rnd` is the byte drawn by the host's random
/// source, read only by the random-mask opcode. Errors leave the state
/// untouched.
pub open spec fn execute_step(pre: MachineView, op: u16, rnd: u8) -> Result<
    MachineView,
    EmuError,
> {
    let x = nib2(op) as int;
    let y = nib3(op) as int;
    let n = nib4(op);
    let nn = low_byte(op);
    let nnn = addr_of(op);
    let vx = pre.v[x];
    let vy = pre.v[y];
    if op == 0x0000 {
        // no-op
        Ok(pre)
    } else if op == 0x00E0 {
        // clear framebuffer
        Ok(MachineView { screen: Seq::new(SCREEN_CELLS as nat, |c: int| false), ..pre })
    } else if op == 0x00EE {
        // pop return address into the program counter
        if pre.sp == 0 {
            Err(EmuError::StackUnderflow)
        } else {
            Ok(MachineView { pc: pre.stack[pre.sp - 1], sp: (pre.sp - 1) as u16, ..pre })
        }
    } else if nib1(op) == 0x1 {
        // jump
        Ok(MachineView { pc: nnn, ..pre })
    } else if nib1(op) == 0x2 {
        // call: push the current counter, jump
        if pre.sp >= STACK_SIZE {
            Err(EmuError::StackOverflow)
        } else {
            Ok(
                MachineView {
                    stack: pre.stack.update(pre.sp as int, pre.pc),
                    sp: (pre.sp + 1) as u16,
                    pc: nnn,
                    ..pre
                },
            )
        }
    } else if nib1(op) == 0x3 {
        // skip next instruction if register x equals nn
        Ok(if vx == nn { MachineView { pc: (pre.pc + 2) as u16, ..pre } } else { pre })
    } else if nib1(op) == 0x4 {
        // skip next instruction if register x differs from nn
        Ok(if vx != nn { MachineView { pc: (pre.pc + 2) as u16, ..pre } } else { pre })
    } else if nib1(op) == 0x5 && n == 0 {
        // skip next instruction if registers x and y are equal
        Ok(if vx == vy { MachineView { pc: (pre.pc + 2) as u16, ..pre } } else { pre })
    } else if nib1(op) == 0x6 {
        // register x := nn
        Ok(MachineView { v: pre.v.update(x, nn), ..pre })
    } else if nib1(op) == 0x7 {
        // register x += nn, wrapping, flag untouched
        Ok(MachineView { v: pre.v.update(x, wrap_add8(vx, nn)), ..pre })
    } else if nib1(op) == 0x8 && n == 0 {
        // register x := register y
        Ok(MachineView { v: pre.v.update(x, vy), ..pre })
    } else if nib1(op) == 0x8 && n == 1 {
        // register x |= register y
        Ok(MachineView { v: pre.v.update(x, vx | vy), ..pre })
    } else if nib1(op) == 0x8 && n == 2 {
        // register x &= register y
        Ok(MachineView { v: pre.v.update(x, vx & vy), ..pre })
    } else if nib1(op) == 0x8 && n == 3 {
        // register x ^= register y
        Ok(MachineView { v: pre.v.update(x, vx ^ vy), ..pre })
    } else if nib1(op) == 0x8 && n == 4 {
        // register x += register y wrapping; flag := 1 on carry, else 0
        Ok(
            MachineView {
                v: pre.v.update(x, wrap_add8(vx, vy)).update(
                    15,
                    if vx + vy > 255 {
                        1u8
                    } else {
                        0u8
                    },
                ),
                ..pre
            },
        )
    } else if nib1(op) == 0x8 && n == 5 {
        // register x -= register y wrapping; flag := 0 on borrow, else 1
        Ok(
            MachineView {
                v: pre.v.update(x, wrap_sub8(vx, vy)).update(
                    15,
                    if vx < vy {
                        0u8
                    } else {
                        1u8
                    },
                ),
                ..pre
            },
        )
    } else if nib1(op) == 0x8 && n == 6 {
        // flag := lowest bit of register x, then register x >>= 1
        Ok(MachineView { v: pre.v.update(x, vx >> 1u8).update(15, vx & 1), ..pre })
    } else if nib1(op) == 0x8 && n == 7 {
        // register x := register y - register x wrapping; flag := 0 on borrow
        Ok(
            MachineView {
                v: pre.v.update(x, wrap_sub8(vy, vx)).update(
                    15,
                    if vy < vx {
                        0u8
                    } else {
                        1u8
                    },
                ),
                ..pre
            },
        )
    } else if nib1(op) == 0x8 && n == 0xE {
        // flag := highest bit of register x, then register x <<= 1 wrapping
        Ok(MachineView { v: pre.v.update(x, vx << 1u8).update(15, (vx >> 7u8) & 1), ..pre })
    } else if nib1(op) == 0x9 && n == 0 {
        // skip next instruction if registers x and y differ
        Ok(if vx != vy { MachineView { pc: (pre.pc + 2) as u16, ..pre } } else { pre })
    } else if nib1(op) == 0xA {
        // index register := nnn
        Ok(MachineView { i: nnn, ..pre })
    } else if nib1(op) == 0xB {
        // jump to register 0 plus nnn
        Ok(MachineView { pc: (pre.v[0] + nnn) as u16, ..pre })
    } else if nib1(op) == 0xC {
        // register x := random byte masked by nn
        Ok(MachineView { v: pre.v.update(x, rnd & nn), ..pre })
    } else if nib1(op) == 0xD {
        // draw an n-row sprite read from memory at the index register
        if n > 0 && pre.i + n > RAM_SIZE {
            Err(EmuError::MemoryFault)
        } else {
            Ok(
                MachineView {
                    screen: draw_screen(pre.screen, pre.ram, pre.i, n, vx, vy),
                    v: pre.v.update(
                        15,
                        if draw_collision(pre.screen, pre.ram, pre.i, n, vx, vy) {
                            1u8
                        } else {
                            0u8
                        },
                    ),
                    ..pre
                },
            )
        }
    } else if nib1(op) == 0xE && nib3(op) == 0x9 && n == 0xE {
        // skip next instruction if the key numbered by register x is pressed
        if vx >= NUM_KEYS {
            Err(EmuError::MemoryFault)
        } else {
            Ok(
                if pre.keys[vx as int] {
                    MachineView { pc: (pre.pc + 2) as u16, ..pre }
                } else {
                    pre
                },
            )
        }
    } else if nib1(op) == 0xE && nib3(op) == 0xA && n == 1 {
        // skip next instruction if the key numbered by register x is released
        if vx >= NUM_KEYS {
            Err(EmuError::MemoryFault)
        } else {
            Ok(
                if !pre.keys[vx as int] {
                    MachineView { pc: (pre.pc + 2) as u16, ..pre }
                } else {
                    pre
                },
            )
        }
    } else if nib1(op) == 0xF && nib3(op) == 0x0 && n == 0x7 {
        // register x := delay timer
        Ok(MachineView { v: pre.v.update(x, pre.dt), ..pre })
    } else if nib1(op) == 0xF && nib3(op) == 0x0 && n == 0xA {
        // wait for a key: commit the lowest pressed key, or rewind the
        // counter by two so the instruction re-executes next cycle
        match first_pressed_from(pre.keys, 0) {
            Some(k) => Ok(MachineView { v: pre.v.update(x, k), ..pre }),
            None => Ok(MachineView { pc: (pre.pc - 2) as u16, ..pre }),
        }
    } else if nib1(op) == 0xF && nib3(op) == 0x1 && n == 0x5 {
        // delay timer := register x
        Ok(MachineView { dt: vx, ..pre })
    } else if nib1(op) == 0xF && nib3(op) == 0x1 && n == 0x8 {
        // sound timer := register x
        Ok(MachineView { st: vx, ..pre })
    } else if nib1(op) == 0xF && nib3(op) == 0x1 && n == 0xE {
        // index register += register x, wrapping
        Ok(MachineView { i: wrap_add16(pre.i, vx as u16), ..pre })
    } else if nib1(op) == 0xF && nib3(op) == 0x2 && n == 0x9 {
        // index register := address of the font glyph for register x
        Ok(MachineView { i: (vx * 5) as u16, ..pre })
    } else if nib1(op) == 0xF && nib3(op) == 0x3 && n == 0x3 {
        // store the decimal digits of register x at the index register
        if pre.i + 2 < RAM_SIZE {
            Ok(
                MachineView {
                    ram: pre.ram.update(pre.i as int, (vx / 100) as u8).update(
                        pre.i + 1,
                        ((vx / 10) % 10) as u8,
                    ).update(pre.i + 2, (vx % 10) as u8),
                    ..pre
                },
            )
        } else {
            Err(EmuError::MemoryFault)
        }
    } else if nib1(op) == 0xF && nib3(op) == 0x5 && n == 0x5 {
        // store registers 0 through x into memory at the index register
        if pre.i + x < RAM_SIZE {
            Ok(
                MachineView {
                    ram: Seq::new(
                        RAM_SIZE as nat,
                        |a: int|
                            if pre.i <= a <= pre.i + x {
                                pre.v[a - pre.i]
                            } else {
                                pre.ram[a]
                            },
                    ),
                    ..pre
                },
            )
        } else {
            Err(EmuError::MemoryFault)
        }
    } else if nib1(op) == 0xF && nib3(op) == 0x6 && n == 0x5 {
        // load registers 0 through x from memory at the index register
        if pre.i + x < RAM_SIZE {
            Ok(
                MachineView {
                    v: Seq::new(
                        NUM_REGS as nat,
                        |j: int|
                            if j <= x {
                                pre.ram[pre.i + j]
                            } else {
                                pre.v[j]
                            },
                    ),
                    ..pre
                },
            )
        } else {
            Err(EmuError::MemoryFault)
        }
    } else {
        Err(EmuError::UnsupportedOpcode(op))
    }
}

/// Relates one call of the executable instruction dispatch to [`execute_step`]:
/// on success the machine lands in the stepped state, on an error the state
/// is untouched and the error is surfaced.
pub open spec fn step_effect(
    pre: MachineView,
    op: u16,
    rnd: u8,
    r: Result<(), EmuError>,
    post: MachineView,
) -> bool {
    match execute_step(pre, op, rnd) {
        Ok(s) => r is Ok && post == s,
        Err(e) => r == Err::<(), EmuError>(e) && post == pre,
    }
}

/// Relates one whole interpreter cycle (fetch, then execute) to the
/// specification: a fetch fault leaves the state untouched; an execute
/// fault leaves the state as fetch left it, counter already advanced.
pub open spec fn tick_effect(
    pre: MachineView,
    rnd: u8,
    r: Result<(), EmuError>,
    post: MachineView,
) -> bool {
    match fetch_step(pre) {
        Ok((op, mid)) => step_effect(mid, op, rnd, r, post),
        Err(e) => r == Err::<(), EmuError>(e) && post == pre,
    }
}

} // verus!
