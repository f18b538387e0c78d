//! The 64x32 monochrome display.
//!
//! Pixels are held row-major as bytes that are always 0 or 1, and are
//! mutated only by a full clear or by XOR sprite blits. A sprite row is
//! one byte, most significant bit leftmost; each of its eight bits lands
//! at a column wrapped modulo 64, on a row wrapped modulo 32, and the
//! wrap is applied per pixel, so a sprite can straddle the screen edge.
//! A blit reports a collision when any pixel goes from 1 to 0.
use vstd::prelude::*;

verus! {

use vstd::pervasive::VecAdditionalExecFns;
use vstd::arithmetic::div_mod::{
    lemma_add_mod_noop,
    lemma_add_mod_noop_right,
    lemma_mod_add_multiples_vanish,
    lemma_mod_bound,
    lemma_mod_self_0,
    lemma_mod_sub_multiples_vanish,
    lemma_mod_twice,
    lemma_small_mod,
    lemma_fundamental_div_mod_converse_div,
    lemma_fundamental_div_mod_converse_mod,
};
use crate::bits::{lemma_bit01, lemma_xor_bits};
use crate::{DISPLAY_WIDTH, DISPLAY_HEIGHT};

/// A well-formed pixel grid: 64 * 32 cells, each 0 or 1.
pub open spec fn pix_wf(p: Seq<u8>) -> bool {
    &&& p.len() == 2048
    &&& forall|k: int| 0 <= k < p.len() ==> p[k] <= 1
}

/// The flat index of screen position `(x, y)`, wrapped onto the grid.
pub open spec fn pix_index(x: int, y: int) -> int {
    (y % 32) * 64 + (x % 64)
}

/// Bit `c` (leftmost first) of a sprite row byte.
pub open spec fn sprite_bit(row: u8, c: int) -> u8 {
    (row >> ((7 - c) as u8)) & 1
}

/// How far column `k % 64` lies to the right of column `x % 64`,
/// wrapping around the right edge.
pub open spec fn col_offset(x: int, k: int) -> int {
    ((k % 64) - (x % 64) + 64) % 64
}

/// The grid after the first `n` bits of a sprite row are XORed in at
/// `(x + 0 .. x + n, y)`.
pub open spec fn row_blit_upto(p: Seq<u8>, x: int, y: int, row: u8, n: int) -> Seq<u8> {
    Seq::new(
        p.len(),
        |k: int|
            if k / 64 == y % 32 && col_offset(x, k) < n {
                p[k] ^ sprite_bit(row, col_offset(x, k))
            } else {
                p[k]
            },
    )
}

/// The grid after one whole sprite row is XORed in at `(x, y)`.
pub open spec fn row_blit(p: Seq<u8>, x: int, y: int, row: u8) -> Seq<u8> {
    row_blit_upto(p, x, y, row, 8)
}

/// Whether one of the first `n` bits of the row erases a set pixel.
pub open spec fn row_collides_upto(p: Seq<u8>, x: int, y: int, row: u8, n: int) -> bool {
    exists|c: int| 0 <= c < n && sprite_bit(row, c) == 1 && p[pix_index(x + c, y)] == 1
}

/// Whether blitting the row at `(x, y)` erases a set pixel.
pub open spec fn row_collides(p: Seq<u8>, x: int, y: int, row: u8) -> bool {
    row_collides_upto(p, x, y, row, 8)
}

/// The grid after the sprite rows `s` are blitted at `(x, y)`, row `r`
/// of the sprite landing on screen row `(y + r) % 32`.
pub open spec fn sprite_blit(p: Seq<u8>, x: int, y: int, s: Seq<u8>) -> Seq<u8>
    decreases s.len(),
{
    if s.len() == 0 {
        p
    } else {
        sprite_blit(row_blit(p, x, y, s[0]), x, y + 1, s.drop_first())
    }
}

/// Whether blitting the sprite `s` at `(x, y)` erases a set pixel at
/// any point of the blit.
pub open spec fn sprite_collides(p: Seq<u8>, x: int, y: int, s: Seq<u8>) -> bool
    decreases s.len(),
{
    if s.len() == 0 {
        false
    } else {
        row_collides(p, x, y, s[0]) || sprite_collides(
            row_blit(p, x, y, s[0]),
            x,
            y + 1,
            s.drop_first(),
        )
    }
}

/// The pixel hit by bit `i` of a row blitted at `(x, y)` lies on screen
/// row `y % 32`, at wrapped column offset exactly `i`.
pub proof fn lemma_offset_of_index(x: int, y: int, i: int)
    requires
        0 <= x,
        0 <= y,
        0 <= i < 64,
    ensures
        0 <= pix_index(x + i, y) < 2048,
        pix_index(x + i, y) / 64 == y % 32,
        pix_index(x + i, y) % 64 == (x + i) % 64,
        col_offset(x, pix_index(x + i, y)) == i,
{
    let ym = y % 32;
    let xm = x % 64;
    let t = (x + i) % 64;
    lemma_mod_bound(y, 32);
    lemma_mod_bound(x, 64);
    lemma_mod_bound(x + i, 64);
    let k = ym * 64 + t;
    lemma_fundamental_div_mod_converse_div(k, 64, ym, t);
    lemma_fundamental_div_mod_converse_mod(k, 64, ym, t);
    lemma_add_mod_noop(x, i, 64);
    lemma_small_mod(i as nat, 64);
    assert(t == (xm + i) % 64);
    if xm + i < 64 {
        lemma_small_mod((xm + i) as nat, 64);
        assert(t == xm + i);
        lemma_mod_add_multiples_vanish(i, 64);
        assert(col_offset(x, k) == (i + 64) % 64);
        lemma_small_mod(i as nat, 64);
    } else {
        lemma_mod_sub_multiples_vanish(xm + i, 64);
        lemma_small_mod((xm + i - 64) as nat, 64);
        assert(t == xm + i - 64);
        lemma_small_mod(i as nat, 64);
        assert(col_offset(x, k) == i % 64);
    }
}

/// Conversely, a cell on screen row `y % 32` is the target of exactly
/// the bit at its own wrapped column offset.
pub proof fn lemma_index_of_offset(x: int, y: int, k: int)
    requires
        0 <= x,
        0 <= y,
        0 <= k < 2048,
        k / 64 == y % 32,
    ensures
        0 <= col_offset(x, k) < 64,
        pix_index(x + col_offset(x, k), y) == k,
{
    let u = k % 64;
    let xm = x % 64;
    lemma_mod_bound(k, 64);
    lemma_mod_bound(x, 64);
    let c = col_offset(x, k);
    lemma_mod_bound(u - xm + 64, 64);
    lemma_add_mod_noop(x, c, 64);
    lemma_small_mod(c as nat, 64);
    assert((x + c) % 64 == (xm + c) % 64);
    if u - xm + 64 < 64 {
        lemma_small_mod((u - xm + 64) as nat, 64);
        assert(c == u - xm + 64);
        lemma_mod_add_multiples_vanish(u, 64);
        lemma_small_mod(u as nat, 64);
        assert((xm + c) % 64 == u);
    } else {
        lemma_mod_sub_multiples_vanish(u - xm + 64, 64);
        lemma_small_mod((u - xm) as nat, 64);
        assert(c == u - xm);
        lemma_small_mod(u as nat, 64);
        assert((xm + c) % 64 == u);
    }
    assert(k == (k / 64) * 64 + k % 64) by {
        vstd::arithmetic::div_mod::lemma_fundamental_div_mod(k, 64);
    };
}

/// Blitting one more bit of a row updates exactly the one cell that
/// bit lands on.
pub proof fn lemma_row_blit_step(p: Seq<u8>, x: int, y: int, row: u8, i: int)
    requires
        p.len() == 2048,
        0 <= x,
        0 <= y,
        0 <= i < 8,
    ensures
        row_blit_upto(p, x, y, row, i + 1) == row_blit_upto(p, x, y, row, i).update(
            pix_index(x + i, y),
            p[pix_index(x + i, y)] ^ sprite_bit(row, i),
        ),
{
    lemma_offset_of_index(x, y, i);
    let k0 = pix_index(x + i, y);
    let a = row_blit_upto(p, x, y, row, i + 1);
    let b = row_blit_upto(p, x, y, row, i).update(k0, p[k0] ^ sprite_bit(row, i));
    assert forall|k: int| 0 <= k < 2048 implies a[k] == b[k] by {
        if k != k0 && k / 64 == y % 32 && col_offset(x, k) < i + 1 {
            lemma_index_of_offset(x, y, k);
            assert(col_offset(x, k) != i);
        }
    };
    assert(a =~= b);
}

/// A partial row blit keeps the grid well formed.
pub proof fn lemma_row_blit_upto_wf(p: Seq<u8>, x: int, y: int, row: u8, n: int)
    requires
        pix_wf(p),
    ensures
        pix_wf(row_blit_upto(p, x, y, row, n)),
{
    let q = row_blit_upto(p, x, y, row, n);
    assert forall|k: int| 0 <= k < q.len() implies q[k] <= 1 by {
        if k / 64 == y % 32 && col_offset(x, k) < n {
            lemma_bit01(row, (7 - col_offset(x, k)) as u8);
            lemma_xor_bits(p[k], sprite_bit(row, col_offset(x, k)));
        }
    };
}

/// Blitting a row at a wrapped screen row is the same blit.
pub proof fn lemma_row_blit_mod_y(p: Seq<u8>, x: int, y: int, row: u8)
    requires
        0 <= y,
    ensures
        row_blit(p, x, y % 32, row) == row_blit(p, x, y, row),
        row_collides(p, x, y % 32, row) == row_collides(p, x, y, row),
{
    lemma_mod_twice(y, 32);
    assert(row_blit(p, x, y % 32, row) =~= row_blit(p, x, y, row));
    if row_collides(p, x, y % 32, row) {
        let c = choose|c: int|
            0 <= c < 8 && sprite_bit(row, c) == 1 && p[pix_index(x + c, y % 32)] == 1;
        assert(sprite_bit(row, c) == 1 && p[pix_index(x + c, y)] == 1);
    }
    if row_collides(p, x, y, row) {
        let c = choose|c: int| 0 <= c < 8 && sprite_bit(row, c) == 1 && p[pix_index(x + c, y)] == 1;
        assert(sprite_bit(row, c) == 1 && p[pix_index(x + c, y % 32)] == 1);
    }
}

/// Unfolds a sprite blit at its last row.
pub proof fn lemma_sprite_blit_snoc(p: Seq<u8>, x: int, y: int, s: Seq<u8>, row: u8)
    ensures
        sprite_blit(p, x, y, s.push(row)) == row_blit(
            sprite_blit(p, x, y, s),
            x,
            y + s.len(),
            row,
        ),
        sprite_collides(p, x, y, s.push(row)) == (sprite_collides(p, x, y, s) || row_collides(
            sprite_blit(p, x, y, s),
            x,
            y + s.len(),
            row,
        )),
    decreases s.len(),
{
    let t = s.push(row);
    if s.len() == 0 {
        assert(t[0] == row);
        assert(t.drop_first() =~= Seq::<u8>::empty());
        assert(sprite_blit(p, x, y, t) == sprite_blit(
            row_blit(p, x, y, row),
            x,
            y + 1,
            Seq::<u8>::empty(),
        ));
        assert(sprite_blit(row_blit(p, x, y, row), x, y + 1, Seq::<u8>::empty()) == row_blit(
            p,
            x,
            y,
            row,
        ));
        assert(sprite_blit(p, x, y, s) == p);
        assert(sprite_collides(p, x, y, s) == false);
        assert(sprite_collides(row_blit(p, x, y, row), x, y + 1, Seq::<u8>::empty()) == false);
        assert(sprite_collides(p, x, y, t) == row_collides(p, x, y, row));
    } else {
        let q = row_blit(p, x, y, s[0]);
        assert(t[0] == s[0]);
        assert(t.drop_first() =~= s.drop_first().push(row));
        assert(sprite_blit(p, x, y, t) == sprite_blit(q, x, y + 1, s.drop_first().push(row)));
        lemma_sprite_blit_snoc(q, x, y + 1, s.drop_first(), row);
        assert(s.drop_first().len() == s.len() - 1);
        assert(sprite_blit(q, x, y + 1, s.drop_first().push(row)) == row_blit(
            sprite_blit(q, x, y + 1, s.drop_first()),
            x,
            y + s.len(),
            row,
        ));
        assert(sprite_blit(p, x, y, s) == sprite_blit(q, x, y + 1, s.drop_first()));
        assert(sprite_collides(p, x, y, t) == (row_collides(p, x, y, s[0]) || sprite_collides(
            q,
            x,
            y + 1,
            s.drop_first().push(row),
        )));
        assert(sprite_collides(p, x, y, s) == (row_collides(p, x, y, s[0]) || sprite_collides(
            q,
            x,
            y + 1,
            s.drop_first(),
        )));
    }
}

/// How far screen row `k / 64` lies below screen row `y % 32`,
/// wrapping around the bottom edge.
pub open spec fn row_offset(y: int, k: int) -> int {
    ((k / 64) - (y % 32) + 32) % 32
}

/// The cell hit by row `r` of a sprite blitted at vertical position
/// `y` lies at wrapped row offset exactly `r`.
pub proof fn lemma_row_offset_of(y: int, r: int, k: int)
    requires
        0 <= y,
        0 <= r < 32,
        0 <= k < 2048,
        k / 64 == (y + r) % 32,
    ensures
        row_offset(y, k) == r,
{
    let ym = y % 32;
    lemma_mod_bound(y, 32);
    lemma_add_mod_noop(y, r, 32);
    lemma_small_mod(r as nat, 32);
    assert(k / 64 == (ym + r) % 32);
    if ym + r < 32 {
        lemma_small_mod((ym + r) as nat, 32);
        lemma_mod_add_multiples_vanish(r, 32);
        lemma_small_mod(r as nat, 32);
    } else {
        lemma_mod_sub_multiples_vanish(ym + r, 32);
        lemma_small_mod((ym + r - 32) as nat, 32);
        lemma_small_mod(r as nat, 32);
    }
}

/// A cell has row offset zero exactly when it lies on screen row
/// `y % 32`.
pub proof fn lemma_row_offset_zero(y: int, k: int)
    requires
        0 <= y,
        0 <= k < 2048,
    ensures
        0 <= row_offset(y, k) < 32,
        row_offset(y, k) == 0 <==> k / 64 == y % 32,
{
    let u = k / 64;
    let ym = y % 32;
    lemma_mod_bound(y, 32);
    assert(0 <= u < 32);
    let d = u - ym + 32;
    lemma_mod_bound(d, 32);
    if u == ym {
        lemma_mod_self_0(32);
        assert(d % 32 == 0);
    } else if d < 32 {
        lemma_small_mod(d as nat, 32);
    } else {
        lemma_mod_sub_multiples_vanish(d, 32);
        lemma_small_mod((d - 32) as nat, 32);
    }
}

/// Moving the blit origin one row down moves every wrapped row offset
/// one step back, the origin row wrapping to offset 31.
pub proof fn lemma_row_offset_succ(y: int, k: int)
    requires
        0 <= y,
        0 <= k < 2048,
    ensures
        row_offset(y + 1, k) == if row_offset(y, k) == 0 {
            31int
        } else {
            row_offset(y, k) - 1
        },
{
    let u = k / 64;
    let ym = y % 32;
    lemma_mod_bound(y, 32);
    assert(0 <= u < 32);
    let d = u - ym + 32;
    lemma_add_mod_noop(y, 1, 32);
    lemma_small_mod(1nat, 32);
    assert((y + 1) % 32 == (ym + 1) % 32);
    lemma_row_offset_zero(y, k);
    if ym < 31 {
        lemma_small_mod((ym + 1) as nat, 32);
        assert((y + 1) % 32 == ym + 1);
        if d == 32 {
            lemma_mod_sub_multiples_vanish(d - 1, 32);
            lemma_small_mod(31nat, 32);
        } else if d < 32 {
            lemma_small_mod(d as nat, 32);
            lemma_small_mod((d - 1) as nat, 32);
        } else {
            lemma_mod_sub_multiples_vanish(d, 32);
            lemma_small_mod((d - 32) as nat, 32);
            lemma_mod_sub_multiples_vanish(d - 1, 32);
            lemma_small_mod((d - 1 - 32) as nat, 32);
        }
    } else {
        assert(ym == 31);
        lemma_mod_self_0(32);
        assert((y + 1) % 32 == 0);
        lemma_mod_add_multiples_vanish(u, 32);
        lemma_small_mod(u as nat, 32);
        assert(row_offset(y + 1, k) == u);
        if u == 31 {
            assert(d == 32);
        } else {
            assert(d == u + 1);
            lemma_small_mod(d as nat, 32);
        }
    }
}

/// What a whole sprite blit does to each single cell: a cell within
/// eight wrapped columns of `x` and within `s.len()` wrapped rows of
/// `y` is XORed with its one sprite bit; every other cell is untouched.
/// At most 32 rows fit the screen, so no cell is hit twice.
pub proof fn lemma_sprite_blit_char(p: Seq<u8>, x: int, y: int, s: Seq<u8>)
    requires
        p.len() == 2048,
        0 <= x,
        0 <= y,
        s.len() <= 32,
    ensures
        sprite_blit(p, x, y, s).len() == 2048,
        forall|k: int|
            0 <= k < 2048 ==> #[trigger] sprite_blit(p, x, y, s)[k] == (
            if row_offset(y, k) < s.len() && col_offset(x, k) < 8 {
                p[k] ^ sprite_bit(s[row_offset(y, k)], col_offset(x, k))
            } else {
                p[k]
            }),
    decreases s.len(),
{
    if s.len() == 0 {
        assert forall|k: int| 0 <= k < 2048 implies !(row_offset(y, k) < s.len()) by {
            lemma_row_offset_zero(y, k);
        };
    } else {
        let q = row_blit(p, x, y, s[0]);
        let s2 = s.drop_first();
        lemma_sprite_blit_char(q, x, y + 1, s2);
        assert(sprite_blit(p, x, y, s) == sprite_blit(q, x, y + 1, s2));
        assert forall|k: int|
            0 <= k < 2048 implies #[trigger] sprite_blit(p, x, y, s)[k] == (
        if row_offset(y, k) < s.len() && col_offset(x, k) < 8 {
            p[k] ^ sprite_bit(s[row_offset(y, k)], col_offset(x, k))
        } else {
            p[k]
        }) by {
            lemma_row_offset_zero(y, k);
            lemma_row_offset_succ(y, k);
            let ro = row_offset(y, k);
            if ro == 0 {
                assert(row_offset(y + 1, k) == 31);
                assert(!(row_offset(y + 1, k) < s2.len()));
                assert(sprite_blit(p, x, y, s)[k] == q[k]);
            } else {
                assert(q[k] == p[k]);
                assert(row_offset(y + 1, k) == ro - 1);
                if ro < s.len() && col_offset(x, k) < 8 {
                    assert(s2[ro - 1] == s[ro]);
                }
            }
        };
    }
}

/// Blitting the same sprite twice at the same coordinates restores the
/// display to its pre-draw state: each hit cell is XORed twice with the
/// same bit.
pub proof fn lemma_sprite_blit_self_inverse(p: Seq<u8>, x: int, y: int, s: Seq<u8>)
    requires
        p.len() == 2048,
        0 <= x,
        0 <= y,
        s.len() <= 32,
    ensures
        sprite_blit(sprite_blit(p, x, y, s), x, y, s) == p,
{
    let q1 = sprite_blit(p, x, y, s);
    let q2 = sprite_blit(q1, x, y, s);
    lemma_sprite_blit_char(p, x, y, s);
    lemma_sprite_blit_char(q1, x, y, s);
    assert forall|k: int| 0 <= k < 2048 implies q2[k] == p[k] by {
        if row_offset(y, k) < s.len() && col_offset(x, k) < 8 {
            lemma_xor_bits(p[k], sprite_bit(s[row_offset(y, k)], col_offset(x, k)));
        }
    };
    assert(q2 =~= p);
}

/// A collision seen while blitting row `r` onto the state the earlier
/// rows left behind is a collision of the whole blit.
pub proof fn lemma_collides_at_row(p: Seq<u8>, x: int, y: int, s: Seq<u8>, r: int)
    requires
        0 <= r < s.len(),
        row_collides(sprite_blit(p, x, y, s.take(r)), x, y + r, s[r]),
    ensures
        sprite_collides(p, x, y, s),
    decreases r,
{
    if r == 0 {
        assert(s.take(0) =~= Seq::<u8>::empty());
        assert(sprite_blit(p, x, y, s.take(0)) == p);
    } else {
        let q = row_blit(p, x, y, s[0]);
        let s2 = s.drop_first();
        assert(s.take(r)[0] == s[0]);
        assert(s.take(r).drop_first() =~= s2.take(r - 1));
        assert(sprite_blit(p, x, y, s.take(r)) == sprite_blit(q, x, y + 1, s2.take(r - 1)));
        assert(s2[r - 1] == s[r]);
        lemma_collides_at_row(q, x, y + 1, s2, r - 1);
    }
}

/// Where the first of two identical blits turned some pixel on — bit
/// `c` of sprite row `r` landing on a clear cell — the second blit
/// erases that pixel again and so reports a collision. (A blit whose
/// set bits all land on already-set pixels turns them off, and the
/// second blit then reports none.)
pub proof fn lemma_second_blit_collides(p: Seq<u8>, x: int, y: int, s: Seq<u8>, r: int, c: int)
    requires
        pix_wf(p),
        0 <= x,
        0 <= y,
        s.len() <= 32,
        0 <= r < s.len(),
        0 <= c < 8,
        sprite_bit(s[r], c) == 1,
        p[pix_index(x + c, y + r)] == 0,
    ensures
        sprite_collides(sprite_blit(p, x, y, s), x, y, s),
{
    let q1 = sprite_blit(p, x, y, s);
    let k = pix_index(x + c, y + r);
    lemma_offset_of_index(x, y + r, c);
    lemma_row_offset_of(y, r, k);
    lemma_sprite_blit_char(p, x, y, s);
    lemma_xor_bits(p[k], sprite_bit(s[r], c));
    assert(q1[k] == 1);
    let mid = sprite_blit(q1, x, y, s.take(r));
    lemma_sprite_blit_char(q1, x, y, s.take(r));
    assert(mid[k] == q1[k]);
    assert(0 <= c < 8 && sprite_bit(s[r], c) == 1 && mid[pix_index(x + c, y + r)] == 1);
    assert(row_collides(mid, x, y + r, s[r]));
    lemma_collides_at_row(q1, x, y, s, r);
}

/// The display: a flat, row-major grid of one-bit pixels.
pub struct Display {
    pub pixels: Vec<u8>,
}

impl View for Display {
    type V = Seq<u8>;

    open spec fn view(&self) -> Seq<u8> {
        self.pixels@
    }
}

impl Display {
    /// The grid has its fixed size and holds only 0 or 1.
    pub open spec fn wf(&self) -> bool {
        pix_wf(self@)
    }

    /// Creates a blank display.
    pub fn new() -> (r: Display)
        ensures
            r.wf(),
            forall|k: int| 0 <= k < r@.len() ==> r@[k] == 0,
    {
        let mut pixels: Vec<u8> = Vec::new();
        let mut n: usize = 0;
        while n < 2048
            invariant
                n <= 2048,
                pixels@.len() == n,
                forall|k: int| 0 <= k < n ==> pixels@[k] == 0,
            decreases 2048 - n,
        {
            pixels.push(0);
            n = n + 1;
        }
        Display { pixels }
    }

    /// Sets every pixel to 0.
    pub fn clear(&mut self)
        requires
            old(self).wf(),
        ensures
            final(self).wf(),
            forall|k: int| 0 <= k < final(self)@.len() ==> final(self)@[k] == 0,
    {
        let mut k: usize = 0;
        while k < 2048
            invariant
                k <= 2048,
                self@.len() == 2048,
                forall|j: int| 0 <= j < k ==> self@[j] == 0,
                forall|j: int| 0 <= j < self@.len() ==> self@[j] <= 1,
            decreases 2048 - k,
        {
            self.pixels.set(k, 0);
            k = k + 1;
        }
    }

    /// XORs the eight bits of one sprite row into the grid at `(x, y)`,
    /// columns wrapping modulo 64 and the row wrapping modulo 32.
    /// Returns whether any pixel was erased.
    pub fn draw_row(&mut self, x: u8, y: u8, row: u8) -> (erased: bool)
        requires
            old(self).wf(),
        ensures
            final(self).wf(),
            final(self)@ == row_blit(old(self)@, x as int, y as int, row),
            erased == row_collides(old(self)@, x as int, y as int, row),
    {
        let mut erased = false;
        let mut i: usize = 0;
        while i < 8
            invariant
                i <= 8,
                old(self).wf(),
                self@ == row_blit_upto(old(self)@, x as int, y as int, row, i as int),
                erased == row_collides_upto(old(self)@, x as int, y as int, row, i as int),
            decreases 8 - i,
        {
            proof {
                lemma_offset_of_index(x as int, y as int, i as int);
                lemma_row_blit_upto_wf(old(self)@, x as int, y as int, row, i as int);
            }
            let x_idx = ((x as usize) + i) % DISPLAY_WIDTH;
            let y_idx = (y as usize) % DISPLAY_HEIGHT;
            let k = y_idx * DISPLAY_WIDTH + x_idx;
            assert(k == pix_index(x as int + i, y as int));
            let sh: u8 = (7 - i) as u8;
            let bit: u8 = (row >> sh) & 1;
            assert(bit == sprite_bit(row, i as int));
            let old_px = self.pixels[k];
            assert(old_px == old(self)@[k as int]);
            if old_px == 1 && bit == 1 {
                erased = true;
            }
            proof {
                if !(old_px == 1 && bit == 1) {
                    assert forall|c: int|
                        0 <= c < i + 1 && sprite_bit(row, c) == 1 && old(self)@[pix_index(
                            x as int + c,
                            y as int,
                        )] == 1 implies c < i by {};
                }
                lemma_row_blit_step(old(self)@, x as int, y as int, row, i as int);
            }
            self.pixels.set(k, old_px ^ bit);
            i = i + 1;
        }
        proof {
            lemma_row_blit_upto_wf(old(self)@, x as int, y as int, row, 8);
        }
        erased
    }

    /// Blits a whole sprite at `(x, y)`, one row byte per screen row,
    /// wrapping per pixel. Returns 1 if any pixel was erased, else 0.
    pub fn draw_sprite(&mut self, x: u8, y: u8, sprite_vec: Vec<u8>) -> (pixel_erased: u8)
        requires
            old(self).wf(),
        ensures
            final(self).wf(),
            final(self)@ == sprite_blit(old(self)@, x as int, y as int, sprite_vec@),
            pixel_erased == if sprite_collides(old(self)@, x as int, y as int, sprite_vec@) {
                1u8
            } else {
                0u8
            },
    {
        let mut pixel_erased: u8 = 0;
        let mut r: usize = 0;
        proof {
            assert(sprite_vec@.take(0) =~= Seq::<u8>::empty());
        }
        while r < sprite_vec.len()
            invariant
                r <= sprite_vec@.len(),
                old(self).wf(),
                self.wf(),
                self@ == sprite_blit(old(self)@, x as int, y as int, sprite_vec@.take(r as int)),
                pixel_erased == if sprite_collides(
                    old(self)@,
                    x as int,
                    y as int,
                    sprite_vec@.take(r as int),
                ) {
                    1u8
                } else {
                    0u8
                },
            decreases sprite_vec@.len() - r,
        {
            let yy: u8 = (((y as usize) + (r % DISPLAY_HEIGHT)) % DISPLAY_HEIGHT) as u8;
            proof {
                lemma_add_mod_noop_right(y as int, r as int, 32);
                assert(yy as int == (y as int + r as int) % 32);
            }
            let ghost pre = self@;
            let row = sprite_vec[r];
            let row_erased = self.draw_row(x, yy, row);
            if row_erased {
                pixel_erased = 1;
            }
            proof {
                lemma_row_blit_mod_y(pre, x as int, y as int + r as int, row);
                lemma_sprite_blit_snoc(
                    old(self)@,
                    x as int,
                    y as int,
                    sprite_vec@.take(r as int),
                    row,
                );
                assert(sprite_vec@.take(r as int).push(row) =~= sprite_vec@.take(r as int + 1));
            }
            r = r + 1;
        }
        proof {
            assert(sprite_vec@.take(sprite_vec@.len() as int) =~= sprite_vec@);
        }
        pixel_erased
    }

    /// Expands the grid into an RGBA frame, one four-byte pixel per
    /// cell: opaque white where the cell is set, opaque black where it
    /// is not.
    pub fn update_display(&self, frame: &mut Vec<u8>)
        requires
            self.wf(),
            old(frame).len() == 8192,
        ensures
            final(frame)@.len() == 8192,
            forall|i: int|
                #![trigger self@[i]]
                0 <= i < 2048 ==> {
                    let lum: u8 = if self@[i] == 1 {
                        0xFF
                    } else {
                        0
                    };
                    &&& final(frame)@[4 * i] == lum
                    &&& final(frame)@[4 * i + 1] == lum
                    &&& final(frame)@[4 * i + 2] == lum
                    &&& final(frame)@[4 * i + 3] == 0xFF
                },
    {
        let mut i: usize = 0;
        while i < 2048
            invariant
                i <= 2048,
                self.wf(),
                frame@.len() == 8192,
                forall|j: int|
                    #![trigger self@[j]]
                    0 <= j < i ==> {
                        let lum: u8 = if self@[j] == 1 {
                            0xFF
                        } else {
                            0
                        };
                        &&& frame@[4 * j] == lum
                        &&& frame@[4 * j + 1] == lum
                        &&& frame@[4 * j + 2] == lum
                        &&& frame@[4 * j + 3] == 0xFF
                    },
            decreases 2048 - i,
        {
            let lum: u8 = if self.pixels[i] == 1 {
                0xFF
            } else {
                0
            };
            frame.set(4 * i, lum);
            frame.set(4 * i + 1, lum);
            frame.set(4 * i + 2, lum);
            frame.set(4 * i + 3, 0xFF);
            i = i + 1;
        }
    }
}

} // verus!
