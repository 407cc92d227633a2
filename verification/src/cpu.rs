//! The fetch-decode-execute cycle, verified against the semantics in
//! [`crate::step`]: one instruction per call of [`Emu::tick`], with decode
//! and execute fused into a single dispatch over the four nibble fields.

use vstd::prelude::*;

use crate::machine::Emu;
use crate::machine::EmuError;
use crate::machine::MachineView;
use crate::machine::NUM_KEYS;
use crate::machine::NUM_REGS;
use crate::machine::RAM_SIZE;
use crate::machine::SCREEN_CELLS;
use crate::machine::SCREEN_HEIGHT;
use crate::machine::SCREEN_WIDTH;
use crate::machine::STACK_SIZE;
use crate::step::cell_index;
use crate::step::covers_pair;
use crate::step::draw_collision;
use crate::step::draw_screen;
use crate::step::fetch_step;
use crate::step::first_pressed_from;
use crate::step::lemma_field_bounds;
use crate::step::sprite_bit;
use crate::step::sprite_covers;
use crate::step::step_effect;
use crate::step::tick_effect;
use vstd::arithmetic::div_mod::lemma_fundamental_div_mod;
use vstd::arithmetic::div_mod::lemma_mod_bound;

verus! {

/// Relies on rand::random: draws one byte from the thread-local generator.
/// Nothing is promised of the value; every caller must hold for every byte.
#[verifier::external_body]
fn random_byte() -> u8 {
    rand::random::<u8>()
}

/// The part of a sprite draw already performed: every set bit in a row
/// before `rd`, or in row `rd` at a column before `cd`, whose target is
/// `cell`.
spec fn covers_upto(ram: Seq<u8>, i: u16, x0: u8, y0: u8, rd: int, cd: int, cell: int) -> bool {
    exists|r: int, c: int|
        0 <= r && 0 <= c < 8 && (r < rd || (r == rd && c < cd)) && #[trigger] covers_pair(
            ram,
            i,
            x0,
            y0,
            r,
            c,
            cell,
        )
}

/// Two distinct remainder classes: numbers less than one modulus apart
/// have distinct remainders.
proof fn lemma_mod_distinct(a: int, b: int, m: int)
    requires
        m > 0,
        0 <= a < b,
        b - a < m,
    ensures
        a % m != b % m,
{
    lemma_fundamental_div_mod(a, m);
    lemma_fundamental_div_mod(b, m);
    lemma_mod_bound(a, m);
    lemma_mod_bound(b, m);
    if a % m == b % m {
        let d = b / m - a / m;
        assert(b - a == m * d) by (nonlinear_arith)
            requires
                a == m * (a / m) + a % m,
                b == m * (b / m) + b % m,
                d == b / m - a / m,
                a % m == b % m,
        ;
        assert(!(0 < m * d && m * d < m)) by (nonlinear_arith)
            requires
                m > 0,
        ;
        assert(false);
    }
}

/// Distinct sprite bits land on distinct framebuffer cells: row offsets
/// stay below the screen height and column offsets below the width, so the
/// per-axis wrapping never folds two bits of one sprite together.
proof fn lemma_cell_distinct(x0: u8, y0: u8, r1: int, c1: int, r2: int, c2: int)
    requires
        0 <= r1 < 32,
        0 <= c1 < 8,
        0 <= r2 < 32,
        0 <= c2 < 8,
        !(r1 == r2 && c1 == c2),
    ensures
        cell_index((x0 + c1) % (SCREEN_WIDTH as int), (y0 + r1) % (SCREEN_HEIGHT as int))
            != cell_index((x0 + c2) % (SCREEN_WIDTH as int), (y0 + r2) % (SCREEN_HEIGHT as int)),
{
    let xa = (x0 + c1) % (SCREEN_WIDTH as int);
    let ya = (y0 + r1) % (SCREEN_HEIGHT as int);
    let xb = (x0 + c2) % (SCREEN_WIDTH as int);
    let yb = (y0 + r2) % (SCREEN_HEIGHT as int);
    lemma_mod_bound(x0 + c1, SCREEN_WIDTH as int);
    lemma_mod_bound(x0 + c2, SCREEN_WIDTH as int);
    lemma_mod_bound(y0 + r1, SCREEN_HEIGHT as int);
    lemma_mod_bound(y0 + r2, SCREEN_HEIGHT as int);
    if r1 != r2 {
        if r1 < r2 {
            lemma_mod_distinct(y0 + r1, y0 + r2, SCREEN_HEIGHT as int);
        } else {
            lemma_mod_distinct(y0 + r2, y0 + r1, SCREEN_HEIGHT as int);
        }
        assert(ya != yb);
    } else {
        if c1 < c2 {
            lemma_mod_distinct(x0 + c1, x0 + c2, SCREEN_WIDTH as int);
        } else {
            lemma_mod_distinct(x0 + c2, x0 + c1, SCREEN_WIDTH as int);
        }
        assert(xa != xb);
    }
}

/// What one bit of a sprite draw adds to the coverage so far: the cell a
/// set bit toggles was never toggled earlier in the same draw, and the
/// collision condition grows by exactly that cell's previous state.
proof fn lemma_collision_step(
    ram: Seq<u8>,
    i: u16,
    x0: u8,
    y0: u8,
    r: int,
    c: int,
    pre: Seq<bool>,
    t: int,
)
    requires
        0 <= r < 32,
        0 <= c < 8,
        pre.len() == SCREEN_CELLS,
        t == cell_index((x0 + c) % (SCREEN_WIDTH as int), (y0 + r) % (SCREEN_HEIGHT as int)),
    ensures
        0 <= t < SCREEN_CELLS,
        !covers_upto(ram, i, x0, y0, r, c, t),
        forall|cell: int|
            #[trigger] covers_upto(ram, i, x0, y0, r, c + 1, cell) <==> (covers_upto(
                ram,
                i,
                x0,
                y0,
                r,
                c,
                cell,
            ) || (sprite_bit(ram[i + r], c) && cell == t)),
        (exists|cell: int|
            0 <= cell < SCREEN_CELLS && #[trigger] covers_upto(ram, i, x0, y0, r, c + 1, cell)
                && pre[cell]) <==> ((exists|cell: int|
            0 <= cell < SCREEN_CELLS && #[trigger] covers_upto(ram, i, x0, y0, r, c, cell)
                && pre[cell]) || (sprite_bit(ram[i + r], c) && pre[t])),
{
    lemma_mod_bound(x0 + c, SCREEN_WIDTH as int);
    lemma_mod_bound(y0 + r, SCREEN_HEIGHT as int);
    assert(0 <= t < SCREEN_CELLS);
    // the cell of bit (r, c) is untouched by all earlier bits
    if covers_upto(ram, i, x0, y0, r, c, t) {
        let (rp, cp) = choose|rp: int, cp: int|
            0 <= rp && 0 <= cp < 8 && (rp < r || (rp == r && cp < c)) && #[trigger] covers_pair(
                ram,
                i,
                x0,
                y0,
                rp,
                cp,
                t,
            );
        lemma_cell_distinct(x0, y0, rp, cp, r, c);
        assert(false);
    }
    // one-bit unfolding of the coverage prefix
    assert forall|cell: int|
        #[trigger] covers_upto(ram, i, x0, y0, r, c + 1, cell) <==> (covers_upto(
            ram,
            i,
            x0,
            y0,
            r,
            c,
            cell,
        ) || (sprite_bit(ram[i + r], c) && cell == t)) by {
        if covers_upto(ram, i, x0, y0, r, c + 1, cell) {
            let (rp, cp) = choose|rp: int, cp: int|
                0 <= rp && 0 <= cp < 8 && (rp < r || (rp == r && cp < c + 1))
                    && #[trigger] covers_pair(ram, i, x0, y0, rp, cp, cell);
            if rp < r || (rp == r && cp < c) {
                assert(covers_upto(ram, i, x0, y0, r, c, cell));
            } else {
                assert(rp == r && cp == c);
                assert(sprite_bit(ram[i + r], c) && cell == t);
            }
        }
        if covers_upto(ram, i, x0, y0, r, c, cell) {
            let (rp, cp) = choose|rp: int, cp: int|
                0 <= rp && 0 <= cp < 8 && (rp < r || (rp == r && cp < c)) && #[trigger] covers_pair(
                    ram,
                    i,
                    x0,
                    y0,
                    rp,
                    cp,
                    cell,
                );
            assert(covers_pair(ram, i, x0, y0, rp, cp, cell));
            assert(covers_upto(ram, i, x0, y0, r, c + 1, cell));
        }
        if sprite_bit(ram[i + r], c) && cell == t {
            assert(covers_pair(ram, i, x0, y0, r, c, cell));
            assert(covers_upto(ram, i, x0, y0, r, c + 1, cell));
        }
    }
    // the collision condition grows by the state of that one cell
    let ex_new = exists|cell: int|
        0 <= cell < SCREEN_CELLS && #[trigger] covers_upto(ram, i, x0, y0, r, c + 1, cell)
            && pre[cell];
    let ex_old = exists|cell: int|
        0 <= cell < SCREEN_CELLS && #[trigger] covers_upto(ram, i, x0, y0, r, c, cell) && pre[cell];
    if ex_new {
        let cell = choose|cell: int|
            0 <= cell < SCREEN_CELLS && #[trigger] covers_upto(ram, i, x0, y0, r, c + 1, cell)
                && pre[cell];
        if covers_upto(ram, i, x0, y0, r, c, cell) {
            assert(ex_old);
        } else {
            assert(sprite_bit(ram[i + r], c) && cell == t);
        }
    }
    if ex_old {
        let cell = choose|cell: int|
            0 <= cell < SCREEN_CELLS && #[trigger] covers_upto(ram, i, x0, y0, r, c, cell)
                && pre[cell];
        assert(covers_upto(ram, i, x0, y0, r, c + 1, cell));
        assert(ex_new);
    }
    if sprite_bit(ram[i + r], c) && pre[t] {
        assert(covers_upto(ram, i, x0, y0, r, c + 1, t));
        assert(ex_new);
    }
}

/// Finishing a sprite row: coverage up to column eight of row `r` is
/// coverage up to column zero of row `r + 1`.
proof fn lemma_row_advance(ram: Seq<u8>, i: u16, x0: u8, y0: u8, r: int, pre: Seq<bool>)
    ensures
        forall|cell: int|
            #[trigger] covers_upto(ram, i, x0, y0, r, 8, cell) <==> covers_upto(
                ram,
                i,
                x0,
                y0,
                r + 1,
                0,
                cell,
            ),
        (exists|cell: int|
            0 <= cell < SCREEN_CELLS && #[trigger] covers_upto(ram, i, x0, y0, r, 8, cell)
                && pre[cell]) <==> (exists|cell: int|
            0 <= cell < SCREEN_CELLS && #[trigger] covers_upto(ram, i, x0, y0, r + 1, 0, cell)
                && pre[cell]),
{
    assert forall|cell: int|
        #[trigger] covers_upto(ram, i, x0, y0, r, 8, cell) <==> covers_upto(
            ram,
            i,
            x0,
            y0,
            r + 1,
            0,
            cell,
        ) by {
        if covers_upto(ram, i, x0, y0, r, 8, cell) {
            let (rp, cp) = choose|rp: int, cp: int|
                0 <= rp && 0 <= cp < 8 && (rp < r || (rp == r && cp < 8)) && #[trigger] covers_pair(
                    ram,
                    i,
                    x0,
                    y0,
                    rp,
                    cp,
                    cell,
                );
            assert(rp < r + 1);
            assert(covers_upto(ram, i, x0, y0, r + 1, 0, cell));
        }
        if covers_upto(ram, i, x0, y0, r + 1, 0, cell) {
            let (rp, cp) = choose|rp: int, cp: int|
                0 <= rp && 0 <= cp < 8 && (rp < r + 1) && #[trigger] covers_pair(
                    ram,
                    i,
                    x0,
                    y0,
                    rp,
                    cp,
                    cell,
                );
            assert(rp < r || (rp == r && cp < 8));
            assert(covers_upto(ram, i, x0, y0, r, 8, cell));
        }
    }
    if exists|cell: int|
        0 <= cell < SCREEN_CELLS && #[trigger] covers_upto(ram, i, x0, y0, r, 8, cell)
            && pre[cell] {
        let cell = choose|cell: int|
            0 <= cell < SCREEN_CELLS && #[trigger] covers_upto(ram, i, x0, y0, r, 8, cell)
                && pre[cell];
        assert(covers_upto(ram, i, x0, y0, r + 1, 0, cell));
    }
    if exists|cell: int|
        0 <= cell < SCREEN_CELLS && #[trigger] covers_upto(ram, i, x0, y0, r + 1, 0, cell)
            && pre[cell] {
        let cell = choose|cell: int|
            0 <= cell < SCREEN_CELLS && #[trigger] covers_upto(ram, i, x0, y0, r + 1, 0, cell)
                && pre[cell];
        assert(covers_upto(ram, i, x0, y0, r, 8, cell));
    }
}

/// A finished draw: coverage up to column zero of row `n` is exactly the
/// sprite coverage, and the accumulated collision condition is exactly the
/// collision the draw reports.
proof fn lemma_covers_complete(ram: Seq<u8>, i: u16, n: u16, x0: u8, y0: u8, pre: Seq<bool>)
    requires
        pre.len() == SCREEN_CELLS,
    ensures
        forall|cell: int|
            #[trigger] covers_upto(ram, i, x0, y0, n as int, 0, cell) <==> sprite_covers(
                ram,
                i,
                n,
                x0,
                y0,
                cell,
            ),
        (exists|cell: int|
            0 <= cell < SCREEN_CELLS && #[trigger] covers_upto(ram, i, x0, y0, n as int, 0, cell)
                && pre[cell]) <==> draw_collision(pre, ram, i, n, x0, y0),
{
    assert forall|cell: int|
        #[trigger] covers_upto(ram, i, x0, y0, n as int, 0, cell) <==> sprite_covers(
            ram,
            i,
            n,
            x0,
            y0,
            cell,
        ) by {
        if covers_upto(ram, i, x0, y0, n as int, 0, cell) {
            let (rp, cp) = choose|rp: int, cp: int|
                0 <= rp && 0 <= cp < 8 && (rp < n as int) && #[trigger] covers_pair(
                    ram,
                    i,
                    x0,
                    y0,
                    rp,
                    cp,
                    cell,
                );
            assert(sprite_covers(ram, i, n, x0, y0, cell));
        }
        if sprite_covers(ram, i, n, x0, y0, cell) {
            let (rp, cp) = choose|rp: int, cp: int|
                0 <= rp < n && 0 <= cp < 8 && #[trigger] covers_pair(ram, i, x0, y0, rp, cp, cell);
            assert(covers_upto(ram, i, x0, y0, n as int, 0, cell));
        }
    }
    if exists|cell: int|
        0 <= cell < SCREEN_CELLS && #[trigger] covers_upto(ram, i, x0, y0, n as int, 0, cell)
            && pre[cell] {
        let cell = choose|cell: int|
            0 <= cell < SCREEN_CELLS && #[trigger] covers_upto(ram, i, x0, y0, n as int, 0, cell)
                && pre[cell];
        assert(sprite_covers(ram, i, n, x0, y0, cell) && pre[cell]);
        assert(draw_collision(pre, ram, i, n, x0, y0));
    }
    if draw_collision(pre, ram, i, n, x0, y0) {
        let cell = choose|cell: int|
            0 <= cell < pre.len() && #[trigger] sprite_covers(ram, i, n, x0, y0, cell) && pre[cell];
        assert(covers_upto(ram, i, x0, y0, n as int, 0, cell));
    }
}

impl Emu {
    /// Draws the `n`-row sprite read from memory at the index register with
    /// origin `(x0, y0)`: every set bit toggles its (wrapped) target cell,
    /// and the returned collision signal says whether any lit cell went out.
    fn draw_sprite(&mut self, x0: u8, y0: u8, n: u16) -> (collision: bool)
        requires
            n <= 15,
            n > 0 ==> old(self)@.i + n <= RAM_SIZE,
        ensures
            final(self)@ == (MachineView {
                screen: draw_screen(
                    old(self)@.screen,
                    old(self)@.ram,
                    old(self)@.i,
                    n,
                    x0,
                    y0,
                ),
                ..old(self)@
            }),
            collision == draw_collision(
                old(self)@.screen,
                old(self)@.ram,
                old(self)@.i,
                n,
                x0,
                y0,
            ),
    {
        let i: usize = self.i_reg as usize;
        let rows: usize = n as usize;
        let mut flipped: bool = false;
        let mut r: usize = 0;
        while r < rows
            invariant
                r <= rows,
                rows == n,
                rows <= 15,
                i == old(self)@.i,
                rows > 0 ==> i + rows <= RAM_SIZE,
                self.ram == old(self).ram,
                self.v_reg == old(self).v_reg,
                self.pc == old(self).pc,
                self.i_reg == old(self).i_reg,
                self.sp == old(self).sp,
                self.stack == old(self).stack,
                self.keys == old(self).keys,
                self.dt == old(self).dt,
                self.st == old(self).st,
                forall|cell: int|
                    0 <= cell < SCREEN_CELLS ==> self.screen@[cell] == (old(self)@.screen[cell]
                        != covers_upto(
                        old(self)@.ram,
                        old(self)@.i,
                        x0,
                        y0,
                        r as int,
                        0,
                        cell,
                    )),
                flipped == (exists|cell: int|
                    0 <= cell < SCREEN_CELLS && #[trigger] covers_upto(
                        old(self)@.ram,
                        old(self)@.i,
                        x0,
                        y0,
                        r as int,
                        0,
                        cell,
                    ) && old(self)@.screen[cell]),
            decreases rows - r,
        {
            let row_byte: u8 = self.ram[i + r];
            let mut c: usize = 0;
            while c < 8
                invariant
                    c <= 8,
                    r < rows,
                    rows == n,
                    rows <= 15,
                    i == old(self)@.i,
                    rows > 0 ==> i + rows <= RAM_SIZE,
                    row_byte == old(self)@.ram[i + r],
                    self.ram == old(self).ram,
                    self.v_reg == old(self).v_reg,
                    self.pc == old(self).pc,
                    self.i_reg == old(self).i_reg,
                    self.sp == old(self).sp,
                    self.stack == old(self).stack,
                    self.keys == old(self).keys,
                    self.dt == old(self).dt,
                    self.st == old(self).st,
                    forall|cell: int|
                        0 <= cell < SCREEN_CELLS ==> self.screen@[cell] == (old(self)@.screen[cell]
                            != covers_upto(
                            old(self)@.ram,
                            old(self)@.i,
                            x0,
                            y0,
                            r as int,
                            c as int,
                            cell,
                        )),
                    flipped == (exists|cell: int|
                        0 <= cell < SCREEN_CELLS && #[trigger] covers_upto(
                            old(self)@.ram,
                            old(self)@.i,
                            x0,
                            y0,
                            r as int,
                            c as int,
                            cell,
                        ) && old(self)@.screen[cell]),
                decreases 8 - c,
            {
                let ghost t = cell_index(
                    (x0 + c) % (SCREEN_WIDTH as int),
                    (y0 + r) % (SCREEN_HEIGHT as int),
                );
                proof {
                    lemma_collision_step(
                        old(self)@.ram,
                        old(self)@.i,
                        x0,
                        y0,
                        r as int,
                        c as int,
                        old(self)@.screen,
                        t,
                    );
                }
                if (row_byte >> ((7 - c) as u8)) & 1 == 1 {
                    let xi: usize = (x0 as usize + c) % SCREEN_WIDTH;
                    let yi: usize = (y0 as usize + r) % SCREEN_HEIGHT;
                    let idx: usize = yi * SCREEN_WIDTH + xi;
                    proof {
                        assert(idx == t);
                        assert(sprite_bit(old(self)@.ram[i + r], c as int));
                        assert(self.screen@[t] == old(self)@.screen[t]);
                    }
                    let cur: bool = self.screen[idx];
                    flipped = flipped || cur;
                    self.screen[idx] = !cur;
                } else {
                    proof {
                        assert(!sprite_bit(old(self)@.ram[i + r], c as int));
                    }
                }
                c += 1;
            }
            proof {
                lemma_row_advance(
                    old(self)@.ram,
                    old(self)@.i,
                    x0,
                    y0,
                    r as int,
                    old(self)@.screen,
                );
            }
            r += 1;
        }
        proof {
            lemma_covers_complete(
                old(self)@.ram,
                old(self)@.i,
                n,
                x0,
                y0,
                old(self)@.screen,
            );
            assert(self@.screen =~= draw_screen(
                old(self)@.screen,
                old(self)@.ram,
                old(self)@.i,
                n,
                x0,
                y0,
            ));
            assert(self@ =~= (MachineView {
                screen: draw_screen(old(self)@.screen, old(self)@.ram, old(self)@.i, n, x0, y0),
                ..old(self)@
            }));
        }
        flipped
    }

    /// The lowest-indexed key currently pressed, if any.
    fn find_first_key(&self) -> (r: Option<u8>)
        ensures
            r == first_pressed_from(self@.keys, 0),
    {
        let mut k: usize = 0;
        while k < NUM_KEYS
            invariant
                k <= NUM_KEYS,
                first_pressed_from(self@.keys, 0) == first_pressed_from(self@.keys, k as int),
            decreases NUM_KEYS - k,
        {
            if self.keys[k] {
                return Some(k as u8);
            }
            k += 1;
        }
        None
    }

    /// Stores registers 0 through `x` into memory starting at the index
    /// register.
    fn store_regs(&mut self, x: usize)
        requires
            x < NUM_REGS,
            old(self)@.i + x < RAM_SIZE,
        ensures
            final(self)@ == (MachineView {
                ram: Seq::new(
                    RAM_SIZE as nat,
                    |a: int|
                        if old(self)@.i <= a <= old(self)@.i + x {
                            old(self)@.v[a - old(self)@.i]
                        } else {
                            old(self)@.ram[a]
                        },
                ),
                ..old(self)@
            }),
    {
        let i: usize = self.i_reg as usize;
        let mut idx: usize = 0;
        while idx <= x
            invariant
                idx <= x + 1,
                x < NUM_REGS,
                i == old(self)@.i,
                i + x < RAM_SIZE,
                self.v_reg == old(self).v_reg,
                self.pc == old(self).pc,
                self.screen == old(self).screen,
                self.i_reg == old(self).i_reg,
                self.sp == old(self).sp,
                self.stack == old(self).stack,
                self.keys == old(self).keys,
                self.dt == old(self).dt,
                self.st == old(self).st,
                forall|a: int| i <= a < i + idx ==> self.ram@[a] == old(self)@.v[a - i],
                forall|a: int| 0 <= a < i ==> self.ram@[a] == old(self)@.ram[a],
                forall|a: int| i + idx <= a < RAM_SIZE ==> self.ram@[a] == old(self)@.ram[a],
            decreases x + 1 - idx,
        {
            self.ram[i + idx] = self.v_reg[idx];
            idx += 1;
        }
        proof {
            assert(self@.ram =~= Seq::new(
                RAM_SIZE as nat,
                |a: int|
                    if old(self)@.i <= a <= old(self)@.i + x {
                        old(self)@.v[a - old(self)@.i]
                    } else {
                        old(self)@.ram[a]
                    },
            ));
            assert(self@ =~= (MachineView {
                ram: Seq::new(
                    RAM_SIZE as nat,
                    |a: int|
                        if old(self)@.i <= a <= old(self)@.i + x {
                            old(self)@.v[a - old(self)@.i]
                        } else {
                            old(self)@.ram[a]
                        },
                ),
                ..old(self)@
            }));
        }
    }

    /// Loads registers 0 through `x` from memory starting at the index
    /// register.
    fn load_regs(&mut self, x: usize)
        requires
            x < NUM_REGS,
            old(self)@.i + x < RAM_SIZE,
        ensures
            final(self)@ == (MachineView {
                v: Seq::new(
                    NUM_REGS as nat,
                    |j: int|
                        if j <= x {
                            old(self)@.ram[old(self)@.i + j]
                        } else {
                            old(self)@.v[j]
                        },
                ),
                ..old(self)@
            }),
    {
        let i: usize = self.i_reg as usize;
        let mut idx: usize = 0;
        while idx <= x
            invariant
                idx <= x + 1,
                x < NUM_REGS,
                i == old(self)@.i,
                i + x < RAM_SIZE,
                self.ram == old(self).ram,
                self.pc == old(self).pc,
                self.screen == old(self).screen,
                self.i_reg == old(self).i_reg,
                self.sp == old(self).sp,
                self.stack == old(self).stack,
                self.keys == old(self).keys,
                self.dt == old(self).dt,
                self.st == old(self).st,
                forall|j: int| 0 <= j < idx ==> self.v_reg@[j] == old(self)@.ram[i + j],
                forall|j: int| idx <= j < NUM_REGS ==> self.v_reg@[j] == old(self)@.v[j],
            decreases x + 1 - idx,
        {
            self.v_reg[idx] = self.ram[i + idx];
            idx += 1;
        }
        proof {
            assert(self@.v =~= Seq::new(
                NUM_REGS as nat,
                |j: int|
                    if j <= x {
                        old(self)@.ram[old(self)@.i + j]
                    } else {
                        old(self)@.v[j]
                    },
            ));
            assert(self@ =~= (MachineView {
                v: Seq::new(
                    NUM_REGS as nat,
                    |j: int|
                        if j <= x {
                            old(self)@.ram[old(self)@.i + j]
                        } else {
                            old(self)@.v[j]
                        },
                ),
                ..old(self)@
            }));
        }
    }

    /// Fetches the instruction word at the program counter: two bytes
    /// combined big-endian, with the counter advanced by two. Within one
    /// byte of the end of memory the fetch fails and nothing changes.
    fn fetch(&mut self) -> (r: Result<u16, EmuError>)
        ensures
            match fetch_step(old(self)@) {
                Ok((op, mid)) => r == Ok::<u16, EmuError>(op) && final(self)@ == mid,
                Err(e) => r == Err::<u16, EmuError>(e) && final(self)@ == old(self)@,
            },
    {
        if (self.pc as usize) + 1 < RAM_SIZE {
            let hi: u16 = self.ram[self.pc as usize] as u16;
            let lo: u16 = self.ram[self.pc as usize + 1] as u16;
            let op: u16 = (hi << 8u16) | lo;
            self.pc = self.pc + 2;
            proof {
                assert(self@ =~= (MachineView { pc: (old(self)@.pc + 2) as u16, ..old(self)@ }));
            }
            Ok(op)
        } else {
            Err(EmuError::MemoryFault)
        }
    }

    /// Executes one decoded instruction word against the machine state,
    /// with `rnd` standing for the byte the random-mask opcode consumes.
    fn execute_with(&mut self, op: u16, rnd: u8) -> (r: Result<(), EmuError>)
        requires
            old(self)@.wf(),
            2 <= old(self)@.pc,
            old(self)@.pc <= RAM_SIZE,
        ensures
            final(self)@.wf(),
            step_effect(old(self)@, op, rnd, r, final(self)@),
    {
        proof {
            lemma_field_bounds(op);
        }
        let x: usize = ((op >> 8u16) & 0xF) as usize;
        let y: usize = ((op >> 4u16) & 0xF) as usize;
        let d4: u16 = op & 0xF;
        let nn: u8 = (op & 0xFF) as u8;
        let nnn: u16 = op & 0xFFF;
        if op == 0x0000 {
            // no-op
            Ok(())
        } else if op == 0x00E0 {
            // clear framebuffer
            self.screen = [false; SCREEN_CELLS];
            proof {
                assert(self@.screen =~= Seq::new(SCREEN_CELLS as nat, |c: int| false));
                assert(self@ =~= (MachineView {
                    screen: Seq::new(SCREEN_CELLS as nat, |c: int| false),
                    ..old(self)@
                }));
            }
            Ok(())
        } else if op == 0x00EE {
            // return: pop into the program counter
            if self.sp == 0 {
                return Err(EmuError::StackUnderflow);
            }
            let ret: u16 = self.pop();
            self.pc = ret;
            Ok(())
        } else if (op >> 12u16) & 0xF == 0x1 {
            // jump
            self.pc = nnn;
            Ok(())
        } else if (op >> 12u16) & 0xF == 0x2 {
            // call: push the current counter, jump
            if self.sp as usize >= STACK_SIZE {
                return Err(EmuError::StackOverflow);
            }
            let here: u16 = self.pc;
            self.push(here);
            self.pc = nnn;
            Ok(())
        } else if (op >> 12u16) & 0xF == 0x3 {
            // skip if register x equals nn
            if self.v_reg[x] == nn {
                self.pc = self.pc + 2;
            }
            Ok(())
        } else if (op >> 12u16) & 0xF == 0x4 {
            // skip if register x differs from nn
            if self.v_reg[x] != nn {
                self.pc = self.pc + 2;
            }
            Ok(())
        } else if (op >> 12u16) & 0xF == 0x5 && d4 == 0 {
            // skip if registers x and y are equal
            if self.v_reg[x] == self.v_reg[y] {
                self.pc = self.pc + 2;
            }
            Ok(())
        } else if (op >> 12u16) & 0xF == 0x6 {
            // register x := nn
            self.v_reg[x] = nn;
            Ok(())
        } else if (op >> 12u16) & 0xF == 0x7 {
            // register x += nn, wrapping, flag untouched
            self.v_reg[x] = self.v_reg[x].wrapping_add(nn);
            Ok(())
        } else if (op >> 12u16) & 0xF == 0x8 && d4 == 0 {
            // register x := register y
            self.v_reg[x] = self.v_reg[y];
            Ok(())
        } else if (op >> 12u16) & 0xF == 0x8 && d4 == 1 {
            // register x |= register y
            self.v_reg[x] = self.v_reg[x] | self.v_reg[y];
            Ok(())
        } else if (op >> 12u16) & 0xF == 0x8 && d4 == 2 {
            // register x &= register y
            self.v_reg[x] = self.v_reg[x] & self.v_reg[y];
            Ok(())
        } else if (op >> 12u16) & 0xF == 0x8 && d4 == 3 {
            // register x ^= register y
            self.v_reg[x] = self.v_reg[x] ^ self.v_reg[y];
            Ok(())
        } else if (op >> 12u16) & 0xF == 0x8 && d4 == 4 {
            // register x += register y wrapping; flag := 1 on carry
            let vx: u8 = self.v_reg[x];
            let vy: u8 = self.v_reg[y];
            let flag: u8 = if (vx as u16) + (vy as u16) > 255 {
                1
            } else {
                0
            };
            self.v_reg[x] = vx.wrapping_add(vy);
            self.v_reg[15] = flag;
            Ok(())
        } else if (op >> 12u16) & 0xF == 0x8 && d4 == 5 {
            // register x -= register y wrapping; flag := 0 on borrow
            let vx: u8 = self.v_reg[x];
            let vy: u8 = self.v_reg[y];
            let flag: u8 = if vx < vy {
                0
            } else {
                1
            };
            self.v_reg[x] = vx.wrapping_sub(vy);
            self.v_reg[15] = flag;
            Ok(())
        } else if (op >> 12u16) & 0xF == 0x8 && d4 == 6 {
            // flag := lowest bit of register x, then register x >>= 1
            let vx: u8 = self.v_reg[x];
            self.v_reg[x] = vx >> 1u8;
            self.v_reg[15] = vx & 1;
            Ok(())
        } else if (op >> 12u16) & 0xF == 0x8 && d4 == 7 {
            // register x := register y - register x wrapping; flag := 0 on borrow
            let vx: u8 = self.v_reg[x];
            let vy: u8 = self.v_reg[y];
            let flag: u8 = if vy < vx {
                0
            } else {
                1
            };
            self.v_reg[x] = vy.wrapping_sub(vx);
            self.v_reg[15] = flag;
            Ok(())
        } else if (op >> 12u16) & 0xF == 0x8 && d4 == 0xE {
            // flag := highest bit of register x, then register x <<= 1
            let vx: u8 = self.v_reg[x];
            self.v_reg[x] = vx << 1u8;
            self.v_reg[15] = (vx >> 7u8) & 1;
            Ok(())
        } else if (op >> 12u16) & 0xF == 0x9 && d4 == 0 {
            // skip if registers x and y differ
            if self.v_reg[x] != self.v_reg[y] {
                self.pc = self.pc + 2;
            }
            Ok(())
        } else if (op >> 12u16) & 0xF == 0xA {
            // index register := nnn
            self.i_reg = nnn;
            Ok(())
        } else if (op >> 12u16) & 0xF == 0xB {
            // jump to register 0 plus nnn
            self.pc = (self.v_reg[0] as u16) + nnn;
            Ok(())
        } else if (op >> 12u16) & 0xF == 0xC {
            // register x := random byte masked by nn
            self.v_reg[x] = rnd & nn;
            Ok(())
        } else if (op >> 12u16) & 0xF == 0xD {
            // draw an n-row sprite read from memory at the index register
            if d4 > 0 && (self.i_reg as usize) + (d4 as usize) > RAM_SIZE {
                return Err(EmuError::MemoryFault);
            }
            let x0: u8 = self.v_reg[x];
            let y0: u8 = self.v_reg[y];
            let collision: bool = self.draw_sprite(x0, y0, d4);
            self.v_reg[15] = if collision {
                1
            } else {
                0
            };
            Ok(())
        } else if (op >> 12u16) & 0xF == 0xE && (op >> 4u16) & 0xF == 0x9 && d4 == 0xE {
            // skip if the key numbered by register x is pressed
            let vx: u8 = self.v_reg[x];
            if vx as usize >= NUM_KEYS {
                return Err(EmuError::MemoryFault);
            }
            if self.keys[vx as usize] {
                self.pc = self.pc + 2;
            }
            Ok(())
        } else if (op >> 12u16) & 0xF == 0xE && (op >> 4u16) & 0xF == 0xA && d4 == 1 {
            // skip if the key numbered by register x is released
            let vx: u8 = self.v_reg[x];
            if vx as usize >= NUM_KEYS {
                return Err(EmuError::MemoryFault);
            }
            if !self.keys[vx as usize] {
                self.pc = self.pc + 2;
            }
            Ok(())
        } else if (op >> 12u16) & 0xF == 0xF && (op >> 4u16) & 0xF == 0x0 && d4 == 0x7 {
            // register x := delay timer
            self.v_reg[x] = self.dt;
            Ok(())
        } else if (op >> 12u16) & 0xF == 0xF && (op >> 4u16) & 0xF == 0x0 && d4 == 0xA {
            // wait for a key: commit the lowest pressed key, or rewind the
            // counter so the instruction re-executes next cycle
            match self.find_first_key() {
                Some(k) => {
                    self.v_reg[x] = k;
                },
                None => {
                    self.pc = self.pc - 2;
                },
            }
            Ok(())
        } else if (op >> 12u16) & 0xF == 0xF && (op >> 4u16) & 0xF == 0x1 && d4 == 0x5 {
            // delay timer := register x
            self.dt = self.v_reg[x];
            Ok(())
        } else if (op >> 12u16) & 0xF == 0xF && (op >> 4u16) & 0xF == 0x1 && d4 == 0x8 {
            // sound timer := register x
            self.st = self.v_reg[x];
            Ok(())
        } else if (op >> 12u16) & 0xF == 0xF && (op >> 4u16) & 0xF == 0x1 && d4 == 0xE {
            // index register += register x, wrapping
            self.i_reg = self.i_reg.wrapping_add(self.v_reg[x] as u16);
            Ok(())
        } else if (op >> 12u16) & 0xF == 0xF && (op >> 4u16) & 0xF == 0x2 && d4 == 0x9 {
            // index register := address of the font glyph for register x
            self.i_reg = (self.v_reg[x] as u16) * 5;
            Ok(())
        } else if (op >> 12u16) & 0xF == 0xF && (op >> 4u16) & 0xF == 0x3 && d4 == 0x3 {
            // store the decimal digits of register x at the index register
            if (self.i_reg as usize) + 2 >= RAM_SIZE {
                return Err(EmuError::MemoryFault);
            }
            let i: usize = self.i_reg as usize;
            let vx: u8 = self.v_reg[x];
            self.ram[i] = vx / 100;
            self.ram[i + 1] = (vx / 10) % 10;
            self.ram[i + 2] = vx % 10;
            Ok(())
        } else if (op >> 12u16) & 0xF == 0xF && (op >> 4u16) & 0xF == 0x5 && d4 == 0x5 {
            // store registers 0 through x into memory at the index register
            if (self.i_reg as usize) + x >= RAM_SIZE {
                return Err(EmuError::MemoryFault);
            }
            self.store_regs(x);
            Ok(())
        } else if (op >> 12u16) & 0xF == 0xF && (op >> 4u16) & 0xF == 0x6 && d4 == 0x5 {
            // load registers 0 through x from memory at the index register
            if (self.i_reg as usize) + x >= RAM_SIZE {
                return Err(EmuError::MemoryFault);
            }
            self.load_regs(x);
            Ok(())
        } else {
            Err(EmuError::UnsupportedOpcode(op))
        }
    }

    /// Executes one decoded instruction word, drawing the random byte for
    /// the random-mask opcode from the host's random source. Whatever byte
    /// comes back, the machine lands in the state [`crate::step::execute_step`] gives
    /// for that byte.
    fn execute(&mut self, op: u16) -> (r: Result<(), EmuError>)
        requires
            old(self)@.wf(),
            2 <= old(self)@.pc,
            old(self)@.pc <= RAM_SIZE,
        ensures
            final(self)@.wf(),
            exists|rnd: u8| step_effect(old(self)@, op, rnd, r, final(self)@),
    {
        let rnd: u8 = if (op >> 12u16) & 0xF == 0xC {
            random_byte()
        } else {
            0
        };
        let r = self.execute_with(op, rnd);
        proof {
            assert(step_effect(old(self)@, op, rnd, r, self@));
        }
        r
    }

    /// Runs one interpreter cycle: fetch the instruction word at the
    /// program counter, then execute it. Every opcode's effect, and the
    /// exact condition for every error, is fixed by [`tick_effect`].
    pub fn tick(&mut self) -> (r: Result<(), EmuError>)
        requires
            old(self)@.wf(),
        ensures
            final(self)@.wf(),
            exists|rnd: u8| tick_effect(old(self)@, rnd, r, final(self)@),
    {
        let op: u16 = match self.fetch() {
            Ok(op) => op,
            Err(e) => {
                proof {
                    assert(tick_effect(old(self)@, 0u8, Err::<(), EmuError>(e), self@));
                }
                return Err(e);
            },
        };
        let ghost mid = self@;
        let r = self.execute(op);
        proof {
            let rnd = choose|rnd: u8| step_effect(mid, op, rnd, r, self@);
            assert(tick_effect(old(self)@, rnd, r, self@));
        }
        r
    }
}

} // verus!
