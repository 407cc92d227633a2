//! Laws of the instruction semantics, proved once and for all states:
//! the flag behaviour of the arithmetic opcodes, the self-inverse nature
//! of sprite drawing, call/return pairing, and the fact that only the
//! random-mask opcode depends on the random source.

use vstd::prelude::*;

use crate::machine::MachineView;
use crate::machine::RAM_SIZE;
use crate::machine::SCREEN_CELLS;
use crate::machine::STACK_SIZE;
use crate::step::execute_step;
use crate::step::nib1;
use crate::step::nib2;
use crate::step::nib3;
use crate::step::nib4;
use crate::step::sprite_covers;
use crate::step::wrap_add8;
use crate::step::wrap_sub8;

verus! {

/// An instruction word whose family nibble is nonzero is none of the
/// three system opcodes.
proof fn lemma_family_not_system(op: u16)
    requires
        nib1(op) != 0,
    ensures
        op != 0x0000,
        op != 0x00E0,
        op != 0x00EE,
{
    assert((op >> 12u16) & 0xF != 0 ==> op != 0x0000 && op != 0x00E0 && op != 0x00EE)
        by (bit_vector);
}

/// Only the random-mask opcode reads the random source: every other
/// instruction word has the same effect whatever byte was drawn.
pub proof fn lemma_step_independent_of_randomness(pre: MachineView, op: u16, r1: u8, r2: u8)
    requires
        nib1(op) != 0xC,
    ensures
        execute_step(pre, op, r1) == execute_step(pre, op, r2),
{
}

/// Register add (8xy4) leaves the flag register at one exactly when the
/// true sum of the two operands exceeds 255, and stores the wrapped sum.
pub proof fn lemma_add_sets_carry(pre: MachineView, op: u16, rnd: u8)
    requires
        pre.wf(),
        nib1(op) == 0x8,
        nib4(op) == 0x4,
    ensures
        execute_step(pre, op, rnd) is Ok,
        ({
            let a = pre.v[nib2(op) as int];
            let b = pre.v[nib3(op) as int];
            let post = execute_step(pre, op, rnd)->Ok_0;
            &&& post.v[15] == (if a + b > 255 {
                1u8
            } else {
                0u8
            })
            &&& nib2(op) != 15 ==> post.v[nib2(op) as int] == wrap_add8(a, b)
        }),
{
    lemma_family_not_system(op);
    crate::step::lemma_field_bounds(op);
}

/// Register subtract (8xy5) leaves the flag register at zero exactly when
/// the subtrahend exceeds the minuend (a borrow), else at one, and stores
/// the wrapped difference.
pub proof fn lemma_sub_sets_borrow(pre: MachineView, op: u16, rnd: u8)
    requires
        pre.wf(),
        nib1(op) == 0x8,
        nib4(op) == 0x5,
    ensures
        execute_step(pre, op, rnd) is Ok,
        ({
            let a = pre.v[nib2(op) as int];
            let b = pre.v[nib3(op) as int];
            let post = execute_step(pre, op, rnd)->Ok_0;
            &&& post.v[15] == (if a < b {
                0u8
            } else {
                1u8
            })
            &&& nib2(op) != 15 ==> post.v[nib2(op) as int] == wrap_sub8(a, b)
        }),
{
    lemma_family_not_system(op);
    crate::step::lemma_field_bounds(op);
}

/// Shift right (8xy6) captures the pre-shift lowest bit of the register in
/// the flag before halving the register.
pub proof fn lemma_shr_captures_lsb(pre: MachineView, op: u16, rnd: u8)
    requires
        pre.wf(),
        nib1(op) == 0x8,
        nib4(op) == 0x6,
    ensures
        execute_step(pre, op, rnd) is Ok,
        ({
            let a = pre.v[nib2(op) as int];
            let post = execute_step(pre, op, rnd)->Ok_0;
            &&& post.v[15] == a & 1
            &&& nib2(op) != 15 ==> post.v[nib2(op) as int] == a >> 1u8
        }),
{
    lemma_family_not_system(op);
    crate::step::lemma_field_bounds(op);
}

/// Shift left (8xyE) captures the pre-shift highest bit of the register in
/// the flag before doubling the register (wrapping).
pub proof fn lemma_shl_captures_msb(pre: MachineView, op: u16, rnd: u8)
    requires
        pre.wf(),
        nib1(op) == 0x8,
        nib4(op) == 0xE,
    ensures
        execute_step(pre, op, rnd) is Ok,
        ({
            let a = pre.v[nib2(op) as int];
            let post = execute_step(pre, op, rnd)->Ok_0;
            &&& post.v[15] == (a >> 7u8) & 1
            &&& nib2(op) != 15 ==> post.v[nib2(op) as int] == a << 1u8
        }),
{
    lemma_family_not_system(op);
    crate::step::lemma_field_bounds(op);
}

/// A call followed immediately by a return lands the program counter back
/// on the instruction after the call and leaves the stack pointer exactly
/// where it stood before the call, whatever the counter held in between.
pub proof fn lemma_call_then_ret(pre: MachineView, op: u16, mid_pc: u16, rnd: u8)
    requires
        pre.wf(),
        nib1(op) == 0x2,
        pre.sp < STACK_SIZE,
    ensures
        execute_step(pre, op, rnd) is Ok,
        ({
            let s1 = execute_step(pre, op, rnd)->Ok_0;
            let r2 = execute_step(MachineView { pc: mid_pc, ..s1 }, 0x00EE, rnd);
            &&& r2 is Ok
            &&& r2->Ok_0.pc == pre.pc
            &&& r2->Ok_0.sp == pre.sp
        }),
{
    lemma_family_not_system(op);
    crate::step::lemma_field_bounds(op);
}

/// Drawing the identical sprite at the identical location twice in
/// succession restores the framebuffer to its pre-draw state, and the
/// second draw reports a collision exactly when the first draw lit any
/// cell that was dark before it.
pub proof fn lemma_draw_twice_restores(pre: MachineView, op: u16, rnd: u8)
    requires
        pre.wf(),
        nib1(op) == 0xD,
        nib2(op) != 0xF,
        nib3(op) != 0xF,
        nib4(op) > 0 ==> pre.i + nib4(op) <= RAM_SIZE,
    ensures
        execute_step(pre, op, rnd) is Ok,
        ({
            let n = nib4(op);
            let x0 = pre.v[nib2(op) as int];
            let y0 = pre.v[nib3(op) as int];
            let s1 = execute_step(pre, op, rnd)->Ok_0;
            let r2 = execute_step(s1, op, rnd);
            &&& r2 is Ok
            &&& r2->Ok_0.screen == pre.screen
            &&& (r2->Ok_0.v[15] == 1 <==> (exists|cell: int|
                0 <= cell < SCREEN_CELLS && #[trigger] sprite_covers(
                    pre.ram,
                    pre.i,
                    n,
                    x0,
                    y0,
                    cell,
                ) && !pre.screen[cell]))
        }),
{
    lemma_family_not_system(op);
    crate::step::lemma_field_bounds(op);
    let n = nib4(op);
    let x0 = pre.v[nib2(op) as int];
    let y0 = pre.v[nib3(op) as int];
    let s1 = execute_step(pre, op, rnd)->Ok_0;
    let r2 = execute_step(s1, op, rnd);
    assert(s1.v[nib2(op) as int] == x0 && s1.v[nib3(op) as int] == y0);
    assert(r2 is Ok);
    let s2 = r2->Ok_0;
    assert forall|cell: int| 0 <= cell < SCREEN_CELLS implies s2.screen[cell]
        == pre.screen[cell] by {
        assert(s1.screen[cell] == (pre.screen[cell] != sprite_covers(
            pre.ram,
            pre.i,
            n,
            x0,
            y0,
            cell,
        )));
    }
    assert(s2.screen =~= pre.screen);
    // the second draw collides exactly on the cells the first draw lit
    if exists|cell: int|
        0 <= cell < SCREEN_CELLS && #[trigger] sprite_covers(pre.ram, pre.i, n, x0, y0, cell)
            && !pre.screen[cell] {
        let cell = choose|cell: int|
            0 <= cell < SCREEN_CELLS && #[trigger] sprite_covers(pre.ram, pre.i, n, x0, y0, cell)
                && !pre.screen[cell];
        assert(s1.screen[cell]);
        assert(s2.v[15] == 1);
    }
    if s2.v[15] == 1 {
        let cell = choose|cell: int|
            0 <= cell < s1.screen.len() && #[trigger] sprite_covers(
                s1.ram,
                s1.i,
                n,
                x0,
                y0,
                cell,
            ) && s1.screen[cell];
        assert(sprite_covers(pre.ram, pre.i, n, x0, y0, cell));
        assert(!pre.screen[cell]);
    }
}

} // verus!
