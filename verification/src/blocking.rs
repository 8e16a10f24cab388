//! Cache blocking of `C = A * B` (row-major `A: m x k`, `B: k x n`,
//! `C: m x n`): the output is cut into macro tiles that can be worked on in
//! parallel, and each macro tile into micro tiles, one micro-kernel call each.

use vstd::prelude::*;
use crate::arith::{ceil_div, min_int, lemma_ceil_div_from_floor, lemma_ceil_div_le,
    lemma_lt_ceil_div, lemma_le_floor_div, lemma_quotient_of_block};

verus! {

/// Block sizes: `mc x nc` output cells per macro tile, `kc` depth per
/// pass, `mr x nr` output cells per micro-kernel call.
#[derive(Debug, Clone, Copy, PartialEq, Eq, Structural)]
pub struct Blocking {
    pub mc: usize,
    pub kc: usize,
    pub nc: usize,
    pub mr: usize,
    pub nr: usize,
}

impl Blocking {
    /// Every block size is positive.
    pub open spec fn wf(&self) -> bool {
        &&& self.mc > 0
        &&& self.kc > 0
        &&& self.nc > 0
        &&& self.mr > 0
        &&& self.nr > 0
    }
}

/// A rectangle of output cells: rows `row .. row + rows`, columns
/// `col .. col + cols`.
#[derive(Debug, Clone, Copy, PartialEq, Eq, Structural)]
pub struct MacroTile {
    pub row: usize,
    pub col: usize,
    pub rows: usize,
    pub cols: usize,
}

impl MacroTile {
    /// The tile holds output cell `(r, c)`.
    pub open spec fn contains(&self, r: int, c: int) -> bool {
        &&& self.row <= r < self.row + self.rows
        &&& self.col <= c < self.col + self.cols
    }
}

/// The number of macro tiles of an `m x n` output.
pub open spec fn num_macro_tiles(m: int, n: int, blk: Blocking) -> int {
    ceil_div(m, blk.mc as int) * ceil_div(n, blk.nc as int)
}

/// Macro tile number `t`: tiles go row-block by row-block, and within a
/// row-block column-block by column-block; edge tiles are cut short.
pub open spec fn macro_tile_at(m: int, n: int, blk: Blocking, t: int) -> MacroTile {
    let nt = ceil_div(n, blk.nc as int);
    let row = (t / nt) * blk.mc;
    let col = (t % nt) * blk.nc;
    MacroTile {
        row: row as usize,
        col: col as usize,
        rows: min_int(m - row, blk.mc as int) as usize,
        cols: min_int(n - col, blk.nc as int) as usize,
    }
}

/// `x` divided by `d`, rounded up.
pub fn div_ceil(x: usize, d: usize) -> (r: usize)
    requires
        d > 0,
    ensures
        r == ceil_div(x as int, d as int),
{
    proof {
        lemma_ceil_div_from_floor(x as int, d as int);
        lemma_ceil_div_le(x as int, d as int);
    }
    if x % d == 0 {
        x / d
    } else {
        x / d + 1
    }
}

/// The number of macro tiles of an `m x n` output.
pub fn macro_tile_count(m: usize, n: usize, blk: &Blocking) -> (count: usize)
    requires
        blk.wf(),
        num_macro_tiles(m as int, n as int, *blk) <= usize::MAX,
    ensures
        count == num_macro_tiles(m as int, n as int, *blk),
{
    let mt = div_ceil(m, blk.mc);
    let nt = div_ceil(n, blk.nc);
    mt * nt
}

proof fn lemma_macro_tile_shape(m: int, n: int, blk: Blocking, t: int)
    requires
        blk.wf(),
        0 <= m <= usize::MAX,
        0 <= n <= usize::MAX,
        0 <= t < num_macro_tiles(m, n, blk),
    ensures
        ({
            let nt = ceil_div(n, blk.nc as int);
            let tile = macro_tile_at(m, n, blk, t);
            &&& nt > 0
            &&& 0 <= t / nt < ceil_div(m, blk.mc as int)
            &&& 0 <= t % nt < nt
            &&& 0 <= (t / nt) * blk.mc < m
            &&& 0 <= (t % nt) * blk.nc < n
            &&& tile.row == (t / nt) * blk.mc
            &&& tile.col == (t % nt) * blk.nc
            &&& 1 <= tile.rows <= blk.mc
            &&& 1 <= tile.cols <= blk.nc
            &&& tile.row + tile.rows <= m
            &&& tile.col + tile.cols <= n
        }),
{
    let mt = ceil_div(m, blk.mc as int);
    let nt = ceil_div(n, blk.nc as int);
    lemma_ceil_div_le(m as int, blk.mc as int);
    lemma_ceil_div_le(n as int, blk.nc as int);
    assert(nt > 0) by (nonlinear_arith)
        requires
            mt * nt > t,
            t >= 0,
            nt >= 0,
            mt >= 0,
    ;
    lemma_le_floor_div(mt, t, nt);
    lemma_le_floor_div(0, t, nt);
    assert(mt * nt == nt * mt) by (nonlinear_arith);
    vstd::arithmetic::div_mod::lemma_mod_bound(t, nt);
    lemma_lt_ceil_div(t / nt, m, blk.mc as int);
    lemma_lt_ceil_div(t % nt, n, blk.nc as int);
    assert(0 <= (t / nt) * blk.mc) by (nonlinear_arith)
        requires
            t / nt >= 0,
            blk.mc > 0,
    ;
    assert(0 <= (t % nt) * blk.nc) by (nonlinear_arith)
        requires
            t % nt >= 0,
            blk.nc > 0,
    ;
}

/// Macro tile number `t` of an `m x n` output.
pub fn macro_tile(m: usize, n: usize, blk: &Blocking, t: usize) -> (tile: MacroTile)
    requires
        blk.wf(),
        t < num_macro_tiles(m as int, n as int, *blk),
    ensures
        tile == macro_tile_at(m as int, n as int, *blk, t as int),
        1 <= tile.rows <= blk.mc,
        1 <= tile.cols <= blk.nc,
        tile.row + tile.rows <= m,
        tile.col + tile.cols <= n,
{
    proof {
        lemma_macro_tile_shape(m as int, n as int, *blk, t as int);
    }
    let nt = div_ceil(n, blk.nc);
    let row = (t / nt) * blk.mc;
    let col = (t % nt) * blk.nc;
    let rows = if m - row < blk.mc {
        m - row
    } else {
        blk.mc
    };
    let cols = if n - col < blk.nc {
        n - col
    } else {
        blk.nc
    };
    MacroTile { row, col, rows, cols }
}

/// Every macro tile of an `m x n` output lies inside it and is not empty.
pub proof fn lemma_macro_tile_in_bounds(m: int, n: int, blk: Blocking, t: int)
    requires
        blk.wf(),
        0 <= m <= usize::MAX,
        0 <= n <= usize::MAX,
        0 <= t < num_macro_tiles(m, n, blk),
    ensures
        ({
            let tile = macro_tile_at(m, n, blk, t);
            &&& 1 <= tile.rows <= blk.mc
            &&& 1 <= tile.cols <= blk.nc
            &&& tile.row + tile.rows <= m
            &&& tile.col + tile.cols <= n
        }),
{
    lemma_macro_tile_shape(m, n, blk, t);
}

/// The macro tiles partition the output: each cell of an `m x n` output
/// lies in exactly one of them, the one numbered
/// `(r / mc) * ceil(n / nc) + c / nc`.
pub proof fn lemma_macro_tiles_partition(m: int, n: int, blk: Blocking, r: int, c: int)
    requires
        blk.wf(),
        0 <= r < m <= usize::MAX,
        0 <= c < n <= usize::MAX,
    ensures
        ({
            let nt = ceil_div(n, blk.nc as int);
            let t = (r / blk.mc as int) * nt + c / blk.nc as int;
            &&& 0 <= t < num_macro_tiles(m, n, blk)
            &&& macro_tile_at(m, n, blk, t).contains(r, c)
            &&& forall|t2: int|
                0 <= t2 < num_macro_tiles(m, n, blk) && #[trigger] macro_tile_at(m, n, blk, t2).contains(
                    r,
                    c,
                ) ==> t2 == t
        }),
{
    let mc = blk.mc as int;
    let nc = blk.nc as int;
    let mt = ceil_div(m, mc);
    let nt = ceil_div(n, nc);
    let i = r / mc;
    let j = c / nc;
    let t = i * nt + j;
    lemma_le_floor_div(0, r, mc);
    lemma_le_floor_div(0, c, nc);
    lemma_le_floor_div(i + 1, r, mc);
    lemma_le_floor_div(j + 1, c, nc);
    lemma_le_floor_div(i, r, mc);
    lemma_le_floor_div(j, c, nc);
    // i * mc <= r < (i + 1) * mc, and likewise for j
    assert((i + 1) * mc == i * mc + mc) by (nonlinear_arith);
    assert((j + 1) * nc == j * nc + nc) by (nonlinear_arith);
    lemma_lt_ceil_div(i, m, mc);
    lemma_lt_ceil_div(j, n, nc);
    assert(0 <= t < mt * nt) by (nonlinear_arith)
        requires
            0 <= i < mt,
            0 <= j < nt,
            t == i * nt + j,
    ;
    lemma_quotient_of_block(t, nt, i);
    lemma_macro_tile_shape(m, n, blk, t);
    assert forall|t2: int|
        0 <= t2 < num_macro_tiles(m, n, blk) && #[trigger] macro_tile_at(m, n, blk, t2).contains(
            r,
            c,
        ) implies t2 == t by {
        lemma_macro_tile_shape(m, n, blk, t2);
        let i2 = t2 / nt;
        let j2 = t2 % nt;
        // r lies in [i2 * mc, i2 * mc + mc), so r / mc == i2
        lemma_quotient_of_block(r, mc, i2);
        lemma_quotient_of_block(c, nc, j2);
        vstd::arithmetic::div_mod::lemma_fundamental_div_mod(t2, nt);
        assert(t2 == i2 * nt + j2) by (nonlinear_arith)
            requires
                t2 == nt * (t2 / nt) + t2 % nt,
                i2 == t2 / nt,
                j2 == t2 % nt,
        ;
    }
}


/// One micro-kernel call: output rows `row .. row + rows`, columns
/// `col .. col + cols`, summing over depth `depth .. depth + depth_len`.
/// `a_start`, `b_start` and `c_start` are where the call's corner lies in
/// the row-major `A` (`m x k`), `B` (`k x n`) and `C` (`m x n`).
/// `accumulate` tells the call to add to `C` rather than overwrite it;
/// `full` marks a call of the full `mr x nr` size.
#[derive(Debug, Clone, Copy, PartialEq, Eq, Structural)]
pub struct MicroTile {
    pub row: usize,
    pub col: usize,
    pub depth: usize,
    pub rows: usize,
    pub cols: usize,
    pub depth_len: usize,
    pub a_start: usize,
    pub b_start: usize,
    pub c_start: usize,
    pub accumulate: bool,
    pub full: bool,
}

impl MicroTile {
    /// The call adds the product term `A[r][p] * B[p][c]` into `C[r][c]`.
    pub open spec fn covers(&self, r: int, c: int, p: int) -> bool {
        &&& self.row <= r < self.row + self.rows
        &&& self.col <= c < self.col + self.cols
        &&& self.depth <= p < self.depth + self.depth_len
    }

    /// The call writes output cell `(r, c)`.
    pub open spec fn covers_cell(&self, r: int, c: int) -> bool {
        &&& self.row <= r < self.row + self.rows
        &&& self.col <= c < self.col + self.cols
    }
}

/// The micro tile for depth block `pi`, row block `ii` and column block
/// `ji` of macro tile `tile`, with depth `k` and `n` output columns.
pub open spec fn micro_tile_at(
    n: int,
    k: int,
    blk: Blocking,
    tile: MacroTile,
    pi: int,
    ii: int,
    ji: int,
) -> MicroTile {
    let depth = pi * blk.kc;
    let row = tile.row + ii * blk.mr;
    let col = tile.col + ji * blk.nr;
    let rows = min_int(tile.rows - ii * blk.mr, blk.mr as int);
    let cols = min_int(tile.cols - ji * blk.nr, blk.nr as int);
    MicroTile {
        row: row as usize,
        col: col as usize,
        depth: depth as usize,
        rows: rows as usize,
        cols: cols as usize,
        depth_len: min_int(k - depth, blk.kc as int) as usize,
        a_start: (row * k + depth) as usize,
        b_start: (depth * n + col) as usize,
        c_start: (row * n + col) as usize,
        accumulate: depth != 0,
        full: rows == blk.mr && cols == blk.nr,
    }
}

/// Number of depth blocks.
pub open spec fn depth_blocks(k: int, blk: Blocking) -> int {
    ceil_div(k, blk.kc as int)
}

/// Number of row blocks of a macro tile.
pub open spec fn row_blocks(tile: MacroTile, blk: Blocking) -> int {
    ceil_div(tile.rows as int, blk.mr as int)
}

/// Number of column blocks of a macro tile.
pub open spec fn col_blocks(tile: MacroTile, blk: Blocking) -> int {
    ceil_div(tile.cols as int, blk.nr as int)
}

/// The micro tile in position `u` of the schedule: depth block outermost,
/// then row block, then column block.
pub open spec fn micro_slot(n: int, k: int, blk: Blocking, tile: MacroTile, u: int) -> MicroTile {
    let ib = row_blocks(tile, blk);
    let jb = col_blocks(tile, blk);
    micro_tile_at(n, k, blk, tile, u / (ib * jb), (u / jb) % ib, u % jb)
}

/// The micro-kernel calls of a macro tile, in the order they run.
pub open spec fn micro_schedule(n: int, k: int, blk: Blocking, tile: MacroTile) -> Seq<MicroTile> {
    let total = depth_blocks(k, blk) * row_blocks(tile, blk) * col_blocks(tile, blk);
    Seq::new(total as nat, |u: int| micro_slot(n, k, blk, tile, u))
}

proof fn lemma_slot_index(pi: int, ii: int, ji: int, ib: int, jb: int)
    requires
        pi >= 0,
        0 <= ii < ib,
        0 <= ji < jb,
    ensures
        ({
            let u = (pi * ib + ii) * jb + ji;
            &&& u / (ib * jb) == pi
            &&& (u / jb) % ib == ii
            &&& u % jb == ji
            &&& u / jb == pi * ib + ii
        }),
{
    let u = (pi * ib + ii) * jb + ji;
    lemma_quotient_of_block(u, jb, pi * ib + ii);
    assert((pi * ib) <= pi * ib + ii < (pi * ib) + ib);
    lemma_quotient_of_block(pi * ib + ii, ib, pi);
    assert(pi * (ib * jb) <= u < pi * (ib * jb) + ib * jb) by (nonlinear_arith)
        requires
            u == (pi * ib + ii) * jb + ji,
            pi >= 0,
            0 <= ii < ib,
            0 <= ji < jb,
    ;
    assert(ib * jb > 0) by (nonlinear_arith)
        requires
            ib > 0,
            jb > 0,
    ;
    lemma_quotient_of_block(u, ib * jb, pi);
}

proof fn lemma_offset_below(x: int, y: int, xs: int, ys: int)
    requires
        0 <= x < xs,
        0 <= y < ys,
    ensures
        0 <= x * ys + y < xs * ys,
{
    assert(0 <= x * ys + y < xs * ys) by (nonlinear_arith)
        requires
            0 <= x < xs,
            0 <= y < ys,
    ;
}

/// The micro-kernel calls of macro tile `tile` of `C = A * B`, with depth
/// `k` and `n` output columns, in the order they must run.
#[verifier::rlimit(40)]
pub fn micro_tiles(m: usize, n: usize, k: usize, blk: &Blocking, tile: &MacroTile) -> (out: Vec<
    MicroTile,
>)
    requires
        blk.wf(),
        tile.row + tile.rows <= m,
        tile.col + tile.cols <= n,
        m * k <= usize::MAX,
        k * n <= usize::MAX,
        m * n <= usize::MAX,
    ensures
        out@ == micro_schedule(n as int, k as int, *blk, *tile),
{
    let ghost kb = depth_blocks(k as int, *blk);
    let ghost ib = row_blocks(*tile, *blk);
    let ghost jb = col_blocks(*tile, *blk);
    proof {
        lemma_ceil_div_le(k as int, blk.kc as int);
        lemma_ceil_div_le(tile.rows as int, blk.mr as int);
        lemma_ceil_div_le(tile.cols as int, blk.nr as int);
    }
    let mut out: Vec<MicroTile> = Vec::new();
    let mut p0: usize = 0;
    let ghost mut pi: int = 0;
    while p0 < k
        invariant
            blk.wf(),
            tile.row + tile.rows <= m,
            tile.col + tile.cols <= n,
            m * k <= usize::MAX,
            k * n <= usize::MAX,
            m * n <= usize::MAX,
            kb == depth_blocks(k as int, *blk),
            ib == row_blocks(*tile, *blk),
            jb == col_blocks(*tile, *blk),
            kb >= 0,
            ib >= 0,
            jb >= 0,
            0 <= pi <= kb,
            p0 == min_int(pi * blk.kc, k as int),
            out@.len() == pi * ib * jb,
            forall|w: int|
                0 <= w < out@.len() ==> out@[w] == micro_slot(n as int, k as int, *blk, *tile, w),
        decreases k - p0,
    {
        proof {
            lemma_lt_ceil_div(pi, k as int, blk.kc as int);
        }
        let kc = if k - p0 < blk.kc {
            k - p0
        } else {
            blk.kc
        };
        let mut i: usize = 0;
        let ghost mut ii: int = 0;
        while i < tile.rows
            invariant
                blk.wf(),
                tile.row + tile.rows <= m,
                tile.col + tile.cols <= n,
                m * k <= usize::MAX,
                k * n <= usize::MAX,
                m * n <= usize::MAX,
                kb == depth_blocks(k as int, *blk),
                ib == row_blocks(*tile, *blk),
                jb == col_blocks(*tile, *blk),
                ib >= 0,
                jb >= 0,
                0 <= pi < kb,
                p0 == pi * blk.kc,
                p0 < k,
                kc == min_int(k - p0, blk.kc as int),
                0 <= ii <= ib,
                i == min_int(ii * blk.mr, tile.rows as int),
                out@.len() == (pi * ib + ii) * jb,
                forall|w: int|
                    0 <= w < out@.len() ==> out@[w] == micro_slot(
                        n as int,
                        k as int,
                        *blk,
                        *tile,
                        w,
                    ),
            decreases tile.rows - i,
        {
            proof {
                lemma_lt_ceil_div(ii, tile.rows as int, blk.mr as int);
            }
            let mr = if tile.rows - i < blk.mr {
                tile.rows - i
            } else {
                blk.mr
            };
            let row = tile.row + i;
            let mut j: usize = 0;
            let ghost mut ji: int = 0;
            while j < tile.cols
                invariant
                    blk.wf(),
                    tile.row + tile.rows <= m,
                    tile.col + tile.cols <= n,
                    m * k <= usize::MAX,
                    k * n <= usize::MAX,
                    m * n <= usize::MAX,
                    ib == row_blocks(*tile, *blk),
                    jb == col_blocks(*tile, *blk),
                    jb >= 0,
                    pi >= 0,
                    p0 == pi * blk.kc,
                    p0 < k,
                    kc == min_int(k - p0, blk.kc as int),
                    0 <= ii < ib,
                    i == ii * blk.mr,
                    i < tile.rows,
                    mr == min_int(tile.rows - i, blk.mr as int),
                    row == tile.row + i,
                    0 <= ji <= jb,
                    j == min_int(ji * blk.nr, tile.cols as int),
                    out@.len() == (pi * ib + ii) * jb + ji,
                    forall|w: int|
                        0 <= w < out@.len() ==> out@[w] == micro_slot(
                            n as int,
                            k as int,
                            *blk,
                            *tile,
                            w,
                        ),
                decreases tile.cols - j,
            {
                proof {
                    lemma_lt_ceil_div(ji, tile.cols as int, blk.nr as int);
                    lemma_slot_index(pi, ii, ji, ib, jb);
                    lemma_offset_below(row as int, p0 as int, m as int, k as int);
                    lemma_offset_below(p0 as int, (tile.col + j) as int, k as int, n as int);
                    lemma_offset_below(row as int, (tile.col + j) as int, m as int, n as int);
                }
                let nr = if tile.cols - j < blk.nr {
                    tile.cols - j
                } else {
                    blk.nr
                };
                let col = tile.col + j;
                let call = MicroTile {
                    row,
                    col,
                    depth: p0,
                    rows: mr,
                    cols: nr,
                    depth_len: kc,
                    a_start: row * k + p0,
                    b_start: p0 * n + col,
                    c_start: row * n + col,
                    accumulate: p0 != 0,
                    full: mr == blk.mr && nr == blk.nr,
                };
                proof {
                    assert(call == micro_tile_at(n as int, k as int, *blk, *tile, pi, ii, ji));
                }
                out.push(call);
                j = j + nr;
                proof {
                    assert((ji + 1) * blk.nr == ji * blk.nr + blk.nr) by (nonlinear_arith);
                    ji = ji + 1;
                }
            }
            proof {
                lemma_lt_ceil_div(ji, tile.cols as int, blk.nr as int);
                assert(ji == jb);
                assert((pi * ib + ii) * jb + jb == (pi * ib + (ii + 1)) * jb) by (nonlinear_arith);
                assert((ii + 1) * blk.mr == ii * blk.mr + blk.mr) by (nonlinear_arith);
            }
            i = i + mr;
            proof {
                ii = ii + 1;
            }
        }
        proof {
            lemma_lt_ceil_div(ii, tile.rows as int, blk.mr as int);
            assert(ii == ib);
            assert((pi * ib + ib) * jb == (pi + 1) * ib * jb) by (nonlinear_arith);
            assert((pi + 1) * blk.kc == pi * blk.kc + blk.kc) by (nonlinear_arith);
        }
        p0 = p0 + kc;
        proof {
            pi = pi + 1;
        }
    }
    proof {
        lemma_lt_ceil_div(pi, k as int, blk.kc as int);
        assert(pi == kb);
        assert(out@ =~= micro_schedule(n as int, k as int, *blk, *tile));
    }
    out
}


impl MicroTile {
    /// Where the call reads `A[row + i][depth + p]`, `A` having `lda` columns.
    pub open spec fn a_index(&self, lda: int, i: int, p: int) -> int {
        self.a_start + i * lda + p
    }

    /// Where the call reads `B[depth + p][col + j]`, `B` having `ldb` columns.
    pub open spec fn b_index(&self, ldb: int, p: int, j: int) -> int {
        self.b_start + p * ldb + j
    }

    /// Where the call writes `C[row + i][col + j]`, `C` having `ldc` columns.
    pub open spec fn c_index(&self, ldc: int, i: int, j: int) -> int {
        self.c_start + i * ldc + j
    }
}

proof fn lemma_slot_decode(u: int, kb: int, ib: int, jb: int)
    requires
        ib > 0,
        jb > 0,
        0 <= u < kb * ib * jb,
    ensures
        ({
            let pi = u / (ib * jb);
            let ii = (u / jb) % ib;
            let ji = u % jb;
            &&& 0 <= pi < kb
            &&& 0 <= ii < ib
            &&& 0 <= ji < jb
            &&& u == (pi * ib + ii) * jb + ji
        }),
{
    let q = u / jb;
    let ji = u % jb;
    vstd::arithmetic::div_mod::lemma_fundamental_div_mod(u, jb);
    vstd::arithmetic::div_mod::lemma_mod_bound(u, jb);
    lemma_le_floor_div(0, u, jb);
    vstd::arithmetic::div_mod::lemma_div_denominator(u, jb, ib);
    assert(jb * ib == ib * jb) by (nonlinear_arith);
    let pi = q / ib;
    let ii = q % ib;
    vstd::arithmetic::div_mod::lemma_fundamental_div_mod(q, ib);
    vstd::arithmetic::div_mod::lemma_mod_bound(q, ib);
    lemma_le_floor_div(0, q, ib);
    assert(u == (pi * ib + ii) * jb + ji) by (nonlinear_arith)
        requires
            u == jb * q + ji,
            q == ib * pi + ii,
    ;
    assert(pi < kb) by (nonlinear_arith)
        requires
            u == (pi * ib + ii) * jb + ji,
            0 <= ii,
            0 <= ji,
            ib > 0,
            jb > 0,
            u < kb * ib * jb,
    ;
}

proof fn lemma_slot_shape(n: int, k: int, blk: Blocking, tile: MacroTile, u: int)
    requires
        blk.wf(),
        0 <= k <= usize::MAX,
        tile.row + tile.rows <= usize::MAX,
        tile.col + tile.cols <= usize::MAX,
        0 <= u < micro_schedule(n, k, blk, tile).len(),
    ensures
        ({
            let ib = row_blocks(tile, blk);
            let jb = col_blocks(tile, blk);
            let pi = u / (ib * jb);
            let ii = (u / jb) % ib;
            let ji = u % jb;
            let t = micro_schedule(n, k, blk, tile)[u];
            &&& ib > 0
            &&& jb > 0
            &&& 0 <= pi < depth_blocks(k, blk)
            &&& 0 <= ii < ib
            &&& 0 <= ji < jb
            &&& u == (pi * ib + ii) * jb + ji
            &&& t == micro_tile_at(n, k, blk, tile, pi, ii, ji)
            &&& t.depth == pi * blk.kc
            &&& t.row == tile.row + ii * blk.mr
            &&& t.col == tile.col + ji * blk.nr
            &&& t.rows == min_int(tile.rows - ii * blk.mr, blk.mr as int)
            &&& t.cols == min_int(tile.cols - ji * blk.nr, blk.nr as int)
            &&& t.depth_len == min_int(k - pi * blk.kc, blk.kc as int)
            &&& 1 <= t.rows <= blk.mr
            &&& 1 <= t.cols <= blk.nr
            &&& 1 <= t.depth_len <= blk.kc
            &&& tile.row <= t.row
            &&& t.row + t.rows <= tile.row + tile.rows
            &&& tile.col <= t.col
            &&& t.col + t.cols <= tile.col + tile.cols
            &&& t.depth + t.depth_len <= k
        }),
{
    let kb = depth_blocks(k, blk);
    let ib = row_blocks(tile, blk);
    let jb = col_blocks(tile, blk);
    lemma_ceil_div_le(k, blk.kc as int);
    lemma_ceil_div_le(tile.rows as int, blk.mr as int);
    lemma_ceil_div_le(tile.cols as int, blk.nr as int);
    assert(ib > 0 && jb > 0) by (nonlinear_arith)
        requires
            0 <= u < kb * ib * jb,
            kb >= 0,
            ib >= 0,
            jb >= 0,
    ;
    lemma_slot_decode(u, kb, ib, jb);
    let pi = u / (ib * jb);
    let ii = (u / jb) % ib;
    let ji = u % jb;
    lemma_lt_ceil_div(pi, k, blk.kc as int);
    lemma_lt_ceil_div(ii, tile.rows as int, blk.mr as int);
    lemma_lt_ceil_div(ji, tile.cols as int, blk.nr as int);
    assert(0 <= pi * blk.kc) by (nonlinear_arith)
        requires
            pi >= 0,
            blk.kc > 0,
    ;
    assert(0 <= ii * blk.mr) by (nonlinear_arith)
        requires
            ii >= 0,
            blk.mr > 0,
    ;
    assert(0 <= ji * blk.nr) by (nonlinear_arith)
        requires
            ji >= 0,
            blk.nr > 0,
    ;
}

/// Each product term `A[r][p] * B[p][c]` of a macro tile is added by
/// exactly one micro-kernel call of its schedule.
pub proof fn lemma_micro_schedule_covers_each_term_once(
    n: int,
    k: int,
    blk: Blocking,
    tile: MacroTile,
    r: int,
    c: int,
    p: int,
)
    requires
        blk.wf(),
        0 <= k <= usize::MAX,
        tile.row + tile.rows <= usize::MAX,
        tile.col + tile.cols <= usize::MAX,
        tile.contains(r, c),
        0 <= p < k,
    ensures
        ({
            let s = micro_schedule(n, k, blk, tile);
            &&& exists|u: int| 0 <= u < s.len() && (#[trigger] s[u]).covers(r, c, p)
            &&& forall|u1: int, u2: int|
                0 <= u1 < s.len() && 0 <= u2 < s.len() && (#[trigger] s[u1]).covers(r, c, p)
                    && (#[trigger] s[u2]).covers(r, c, p) ==> u1 == u2
        }),
{
    let s = micro_schedule(n, k, blk, tile);
    let kb = depth_blocks(k, blk);
    let ib = row_blocks(tile, blk);
    let jb = col_blocks(tile, blk);
    let kc = blk.kc as int;
    let mr = blk.mr as int;
    let nr = blk.nr as int;
    let pi = p / kc;
    let ii = (r - tile.row) / mr;
    let ji = (c - tile.col) / nr;
    lemma_le_floor_div(0, p, kc);
    lemma_le_floor_div(0, r - tile.row, mr);
    lemma_le_floor_div(0, c - tile.col, nr);
    lemma_le_floor_div(pi, p, kc);
    lemma_le_floor_div(ii, r - tile.row, mr);
    lemma_le_floor_div(ji, c - tile.col, nr);
    lemma_le_floor_div(pi + 1, p, kc);
    lemma_le_floor_div(ii + 1, r - tile.row, mr);
    lemma_le_floor_div(ji + 1, c - tile.col, nr);
    assert((pi + 1) * kc == pi * kc + kc) by (nonlinear_arith);
    assert((ii + 1) * mr == ii * mr + mr) by (nonlinear_arith);
    assert((ji + 1) * nr == ji * nr + nr) by (nonlinear_arith);
    lemma_lt_ceil_div(pi, k, kc);
    lemma_lt_ceil_div(ii, tile.rows as int, mr);
    lemma_lt_ceil_div(ji, tile.cols as int, nr);
    lemma_ceil_div_le(k, kc);
    let u = (pi * ib + ii) * jb + ji;
    assert(0 <= u < kb * ib * jb) by (nonlinear_arith)
        requires
            0 <= pi < kb,
            0 <= ii < ib,
            0 <= ji < jb,
            u == (pi * ib + ii) * jb + ji,
    ;
    lemma_slot_index(pi, ii, ji, ib, jb);
    lemma_slot_shape(n, k, blk, tile, u);
    assert(s[u].covers(r, c, p));
    assert forall|u1: int, u2: int|
        0 <= u1 < s.len() && 0 <= u2 < s.len() && (#[trigger] s[u1]).covers(r, c, p)
            && (#[trigger] s[u2]).covers(r, c, p) implies u1 == u2 by {
        lemma_slot_shape(n, k, blk, tile, u1);
        lemma_slot_shape(n, k, blk, tile, u2);
        let pi1 = u1 / (ib * jb);
        let ii1 = (u1 / jb) % ib;
        let ji1 = u1 % jb;
        let pi2 = u2 / (ib * jb);
        let ii2 = (u2 / jb) % ib;
        let ji2 = u2 % jb;
        lemma_quotient_of_block(p, kc, pi1);
        lemma_quotient_of_block(p, kc, pi2);
        lemma_quotient_of_block(r - tile.row, mr, ii1);
        lemma_quotient_of_block(r - tile.row, mr, ii2);
        lemma_quotient_of_block(c - tile.col, nr, ji1);
        lemma_quotient_of_block(c - tile.col, nr, ji2);
    }
}

/// Among the calls of a schedule that write a given output cell, those
/// that run earlier work on a smaller depth.
pub proof fn lemma_micro_schedule_depth_order(
    n: int,
    k: int,
    blk: Blocking,
    tile: MacroTile,
    r: int,
    c: int,
    u1: int,
    u2: int,
)
    requires
        blk.wf(),
        0 <= k <= usize::MAX,
        tile.row + tile.rows <= usize::MAX,
        tile.col + tile.cols <= usize::MAX,
        0 <= u1 < u2 < micro_schedule(n, k, blk, tile).len(),
        micro_schedule(n, k, blk, tile)[u1].covers_cell(r, c),
        micro_schedule(n, k, blk, tile)[u2].covers_cell(r, c),
    ensures
        micro_schedule(n, k, blk, tile)[u1].depth < micro_schedule(n, k, blk, tile)[u2].depth,
{
    let ib = row_blocks(tile, blk);
    let jb = col_blocks(tile, blk);
    let mr = blk.mr as int;
    let nr = blk.nr as int;
    lemma_slot_shape(n, k, blk, tile, u1);
    lemma_slot_shape(n, k, blk, tile, u2);
    let pi1 = u1 / (ib * jb);
    let ii1 = (u1 / jb) % ib;
    let ji1 = u1 % jb;
    let pi2 = u2 / (ib * jb);
    let ii2 = (u2 / jb) % ib;
    let ji2 = u2 % jb;
    lemma_quotient_of_block(r - tile.row, mr, ii1);
    lemma_quotient_of_block(r - tile.row, mr, ii2);
    lemma_quotient_of_block(c - tile.col, nr, ji1);
    lemma_quotient_of_block(c - tile.col, nr, ji2);
    assert(pi1 < pi2) by (nonlinear_arith)
        requires
            u1 == (pi1 * ib + ii1) * jb + ji1,
            u2 == (pi2 * ib + ii1) * jb + ji1,
            u1 < u2,
            ib > 0,
            jb > 0,
    ;
    assert(pi1 * blk.kc < pi2 * blk.kc) by (nonlinear_arith)
        requires
            pi1 < pi2,
            blk.kc > 0,
    ;
}

/// A call overwrites its output cells exactly when no earlier call of the
/// schedule wrote them, and adds to them otherwise: the first pass over the
/// depth stores, every later pass accumulates.
pub proof fn lemma_micro_schedule_first_write_stores(
    n: int,
    k: int,
    blk: Blocking,
    tile: MacroTile,
    r: int,
    c: int,
    u: int,
)
    requires
        blk.wf(),
        0 <= k <= usize::MAX,
        tile.row + tile.rows <= usize::MAX,
        tile.col + tile.cols <= usize::MAX,
        0 <= u < micro_schedule(n, k, blk, tile).len(),
        micro_schedule(n, k, blk, tile)[u].covers_cell(r, c),
    ensures
        micro_schedule(n, k, blk, tile)[u].accumulate <==> exists|u0: int|
            0 <= u0 < u && (#[trigger] micro_schedule(n, k, blk, tile)[u0]).covers_cell(r, c),
{
    let s = micro_schedule(n, k, blk, tile);
    let kb = depth_blocks(k, blk);
    let ib = row_blocks(tile, blk);
    let jb = col_blocks(tile, blk);
    lemma_slot_shape(n, k, blk, tile, u);
    let pi = u / (ib * jb);
    let ii = (u / jb) % ib;
    let ji = u % jb;
    assert(pi == 0 ==> pi * blk.kc == 0) by (nonlinear_arith);
    if s[u].accumulate {
        assert(pi != 0);
        let u0 = (0 * ib + ii) * jb + ji;
        lemma_slot_index(0, ii, ji, ib, jb);
        assert(u0 < u) by (nonlinear_arith)
            requires
                u == (pi * ib + ii) * jb + ji,
                u0 == (0 * ib + ii) * jb + ji,
                pi > 0,
                ib > 0,
                jb > 0,
        ;
        lemma_slot_shape(n, k, blk, tile, u0);
        assert(s[u0].covers_cell(r, c));
    } else {
        assert(s[u].depth == 0);
        assert forall|u0: int| 0 <= u0 < u implies !(#[trigger] s[u0]).covers_cell(r, c) by {
            if s[u0].covers_cell(r, c) {
                lemma_micro_schedule_depth_order(n, k, blk, tile, r, c, u0, u);
                lemma_slot_shape(n, k, blk, tile, u0);
            }
        }
    }
}

/// Every call of the schedule of a macro tile inside an `m x n` output reads
/// and writes only inside `A` (`m x k`), `B` (`k x n`) and `C` (`m x n`),
/// and at the places its rectangle names; it writes only inside its macro
/// tile, and it is a full-size call exactly when its rectangle is `mr x nr`.
pub proof fn lemma_micro_schedule_in_bounds(
    m: int,
    n: int,
    k: int,
    blk: Blocking,
    tile: MacroTile,
    u: int,
)
    requires
        blk.wf(),
        0 <= k <= usize::MAX,
        tile.row + tile.rows <= m <= usize::MAX,
        tile.col + tile.cols <= n <= usize::MAX,
        m * k <= usize::MAX,
        k * n <= usize::MAX,
        m * n <= usize::MAX,
        0 <= u < micro_schedule(n, k, blk, tile).len(),
    ensures
        ({
            let t = micro_schedule(n, k, blk, tile)[u];
            &&& 1 <= t.rows <= blk.mr
            &&& 1 <= t.cols <= blk.nr
            &&& 1 <= t.depth_len <= blk.kc
            &&& tile.row <= t.row
            &&& t.row + t.rows <= tile.row + tile.rows
            &&& tile.col <= t.col
            &&& t.col + t.cols <= tile.col + tile.cols
            &&& t.depth + t.depth_len <= k
            &&& t.full <==> (t.rows == blk.mr && t.cols == blk.nr)
            &&& t.accumulate <==> t.depth != 0
            &&& forall|i: int, p: int|
                0 <= i < t.rows && 0 <= p < t.depth_len ==> #[trigger] t.a_index(k, i, p) == (t.row
                    + i) * k + (t.depth + p) && 0 <= t.a_index(k, i, p) < m * k
            &&& forall|p: int, j: int|
                0 <= p < t.depth_len && 0 <= j < t.cols ==> #[trigger] t.b_index(n, p, j) == (
                t.depth + p) * n + (t.col + j) && 0 <= t.b_index(n, p, j) < k * n
            &&& forall|i: int, j: int|
                0 <= i < t.rows && 0 <= j < t.cols ==> #[trigger] t.c_index(n, i, j) == (t.row + i)
                    * n + (t.col + j) && 0 <= t.c_index(n, i, j) < m * n
        }),
{
    lemma_slot_shape(n, k, blk, tile, u);
    let t = micro_schedule(n, k, blk, tile)[u];
    let row = t.row as int;
    let col = t.col as int;
    let depth = t.depth as int;
    lemma_offset_below(row, depth, m, k);
    lemma_offset_below(depth, col, k, n);
    lemma_offset_below(row, col, m, n);
    assert(t.a_start == row * k + depth);
    assert(t.b_start == depth * n + col);
    assert(t.c_start == row * n + col);
    assert forall|i: int, p: int| 0 <= i < t.rows && 0 <= p < t.depth_len implies #[trigger] t.a_index(
        k,
        i,
        p,
    ) == (t.row + i) * k + (t.depth + p) && 0 <= t.a_index(k, i, p) < m * k by {
        assert((row + i) * k == row * k + i * k) by (nonlinear_arith);
        lemma_offset_below(row + i, depth + p, m, k);
    }
    assert forall|p: int, j: int| 0 <= p < t.depth_len && 0 <= j < t.cols implies #[trigger] t.b_index(
        n,
        p,
        j,
    ) == (t.depth + p) * n + (t.col + j) && 0 <= t.b_index(n, p, j) < k * n by {
        assert((depth + p) * n == depth * n + p * n) by (nonlinear_arith);
        lemma_offset_below(depth + p, col + j, k, n);
    }
    assert forall|i: int, j: int| 0 <= i < t.rows && 0 <= j < t.cols implies #[trigger] t.c_index(
        n,
        i,
        j,
    ) == (t.row + i) * n + (t.col + j) && 0 <= t.c_index(n, i, j) < m * n by {
        assert((row + i) * n == row * n + i * n) by (nonlinear_arith);
        lemma_offset_below(row + i, col + j, m, n);
    }
}


/// Call number `u` of the schedule of macro tile number `t`, for
/// `C (m x n) = A (m x k) * B (k x n)`.
pub open spec fn gemm_call(m: int, n: int, k: int, blk: Blocking, t: int, u: int) -> MicroTile {
    micro_schedule(n, k, blk, macro_tile_at(m, n, blk, t))[u]
}

/// Call `u` of macro tile `t` exists.
pub open spec fn is_gemm_call(m: int, n: int, k: int, blk: Blocking, t: int, u: int) -> bool {
    &&& 0 <= t < num_macro_tiles(m, n, blk)
    &&& 0 <= u < micro_schedule(n, k, blk, macro_tile_at(m, n, blk, t)).len()
}

/// Over the whole product, every term `A[r][p] * B[p][c]` is added by
/// exactly one micro-kernel call of exactly one macro tile.
pub proof fn lemma_gemm_covers_each_term_once(
    m: int,
    n: int,
    k: int,
    blk: Blocking,
    r: int,
    c: int,
    p: int,
)
    requires
        blk.wf(),
        0 <= r < m <= usize::MAX,
        0 <= c < n <= usize::MAX,
        0 <= p < k <= usize::MAX,
    ensures
        exists|t: int, u: int|
            is_gemm_call(m, n, k, blk, t, u) && (#[trigger] gemm_call(m, n, k, blk, t, u)).covers(
                r,
                c,
                p,
            ),
        forall|t1: int, u1: int, t2: int, u2: int|
            is_gemm_call(m, n, k, blk, t1, u1) && is_gemm_call(m, n, k, blk, t2, u2) && (
            #[trigger] gemm_call(m, n, k, blk, t1, u1)).covers(r, c, p) && (#[trigger] gemm_call(
                m,
                n,
                k,
                blk,
                t2,
                u2,
            )).covers(r, c, p) ==> t1 == t2 && u1 == u2,
{
    lemma_macro_tiles_partition(m, n, blk, r, c);
    let nt = ceil_div(n, blk.nc as int);
    let t = (r / blk.mc as int) * nt + c / blk.nc as int;
    let tile = macro_tile_at(m, n, blk, t);
    lemma_macro_tile_in_bounds(m, n, blk, t);
    lemma_micro_schedule_covers_each_term_once(n, k, blk, tile, r, c, p);
    let s = micro_schedule(n, k, blk, tile);
    let u = choose|u: int| 0 <= u < s.len() && (#[trigger] s[u]).covers(r, c, p);
    assert(is_gemm_call(m, n, k, blk, t, u) && gemm_call(m, n, k, blk, t, u).covers(r, c, p));
    assert forall|t1: int, u1: int, t2: int, u2: int|
        is_gemm_call(m, n, k, blk, t1, u1) && is_gemm_call(m, n, k, blk, t2, u2) && (
        #[trigger] gemm_call(m, n, k, blk, t1, u1)).covers(r, c, p) && (#[trigger] gemm_call(
            m,
            n,
            k,
            blk,
            t2,
            u2,
        )).covers(r, c, p) implies t1 == t2 && u1 == u2 by {
        let tile1 = macro_tile_at(m, n, blk, t1);
        let tile2 = macro_tile_at(m, n, blk, t2);
        lemma_macro_tile_in_bounds(m, n, blk, t1);
        lemma_macro_tile_in_bounds(m, n, blk, t2);
        lemma_slot_shape(n, k, blk, tile1, u1);
        lemma_slot_shape(n, k, blk, tile2, u2);
        assert(macro_tile_at(m, n, blk, t1).contains(r, c));
        assert(macro_tile_at(m, n, blk, t2).contains(r, c));
        assert(t1 == t);
        assert(t2 == t);
        lemma_micro_schedule_covers_each_term_once(n, k, blk, tile, r, c, p);
        let s1 = micro_schedule(n, k, blk, tile);
        assert(s1[u1].covers(r, c, p));
        assert(s1[u2].covers(r, c, p));
    }
}


/// Calls of different macro tiles never write the same output cell, so the
/// macro tiles can run in parallel.
pub proof fn lemma_macro_tiles_write_disjoint(
    m: int,
    n: int,
    k: int,
    blk: Blocking,
    t1: int,
    u1: int,
    t2: int,
    u2: int,
    r: int,
    c: int,
)
    requires
        blk.wf(),
        0 <= m <= usize::MAX,
        0 <= n <= usize::MAX,
        0 <= k <= usize::MAX,
        is_gemm_call(m, n, k, blk, t1, u1),
        is_gemm_call(m, n, k, blk, t2, u2),
        gemm_call(m, n, k, blk, t1, u1).covers_cell(r, c),
        gemm_call(m, n, k, blk, t2, u2).covers_cell(r, c),
    ensures
        t1 == t2,
{
    let tile1 = macro_tile_at(m, n, blk, t1);
    let tile2 = macro_tile_at(m, n, blk, t2);
    lemma_macro_tile_in_bounds(m, n, blk, t1);
    lemma_macro_tile_in_bounds(m, n, blk, t2);
    lemma_slot_shape(n, k, blk, tile1, u1);
    lemma_slot_shape(n, k, blk, tile2, u2);
    assert(tile1.contains(r, c));
    assert(tile2.contains(r, c));
    lemma_macro_tiles_partition(m, n, blk, r, c);
}

} // verus!
