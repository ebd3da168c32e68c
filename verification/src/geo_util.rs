//! Which tiles a map shows, and at which zoom its points fit.

use vstd::arithmetic::div_mod::*;
use vstd::arithmetic::mul::*;
use vstd::arithmetic::power2::*;
use vstd::bits::*;
use vstd::prelude::*;

verus! {

/// The part of the world that a map shows: its zoom, its size in pixels, and
/// the columns and rows of the tiles under its corners. Columns left of the
/// antimeridian are negative, and columns right of it go on past the last.
#[derive(Clone, Copy, Debug, PartialEq, Eq, Structural)]
pub struct Viewport {
    pub zoom: u8,
    pub width: u32,
    pub height: u32,
    /// The first and the last tile column.
    pub x0: i64,
    pub x1: i64,
    /// The first and the last tile row.
    pub y0: i64,
    pub y1: i64,
}

/// The lesser of two numbers.
pub open spec fn least(a: int, b: int) -> int {
    if a < b {
        a
    } else {
        b
    }
}

/// The greater of two numbers.
pub open spec fn greatest(a: int, b: int) -> int {
    if a < b {
        b
    } else {
        a
    }
}

impl Viewport {
    /// How many tiles span the world in each direction.
    pub open spec fn tiles_per_axis(self) -> int {
        pow2(self.zoom as nat) as int
    }

    /// How many tile columns are drawn: those of the viewport, but no more
    /// than the world has, so that no tile is drawn twice.
    pub open spec fn columns(self) -> int {
        greatest(0, least(self.x1 - self.x0 + 1, self.tiles_per_axis()))
    }

    /// The first tile row of the viewport that exists.
    pub open spec fn top(self) -> int {
        greatest(self.y0 as int, 0)
    }

    /// How many tile rows of the viewport exist.
    pub open spec fn rows(self) -> int {
        greatest(0, least(self.y1 as int, self.tiles_per_axis() - 1) - self.top() + 1)
    }

    /// The tile in a row and a column of the viewport. Columns wrap around the
    /// antimeridian.
    pub open spec fn tile(self, row: int, column: int) -> (u8, u32, u32) {
        (
            self.zoom,
            ((self.x0 + column) % self.tiles_per_axis() % 0x1_0000_0000) as u32,
            ((self.top() + row) % 0x1_0000_0000) as u32,
        )
    }

    /// The tiles that cover the viewport, row by row. A zoom of 63 or more,
    /// whose tile count does not fit in 63 bits, has none.
    pub open spec fn covering(self) -> Seq<(u8, u32, u32)> {
        if self.zoom >= 63 {
            Seq::empty()
        } else {
            Seq::new(
                (self.rows() * self.columns()) as nat,
                |k: int| self.tile(k / self.columns(), k % self.columns()),
            )
        }
    }

    /// The `(z, x, y)` coordinates of the tiles that cover the viewport.
    pub fn covering_tiles(&self) -> (r: Vec<(u8, u32, u32)>)
        requires
            self.zoom < 64,
            i64::MIN <= self.x1 - self.x0 < i64::MAX,
        ensures
            r@ == self.covering(),
    {
        let mut tiles: Vec<(u8, u32, u32)> = Vec::new();
        if self.zoom >= 63 {
            return tiles;
        }
        let n: i64 = world(self.zoom);
        let span: i64 = if self.x1 < self.x0 { 0 } else { self.x1 - self.x0 + 1 };
        let columns: i64 = if span < n { span } else { n };
        let top: i64 = if self.y0 > 0 { self.y0 } else { 0 };
        let bottom: i64 = if self.y1 < n - 1 { self.y1 } else { n - 1 };
        let ghost c = self.columns();
        assert(columns == c);
        let mut y: i64 = top;
        assert(0 * c == 0) by (nonlinear_arith);
        while y <= bottom
            invariant
                0 <= top <= y,
                y <= bottom + 1 || y == top,
                bottom < n,
                n == self.tiles_per_axis(),
                1 <= n,
                n <= 0x4000_0000_0000_0000,
                self.zoom < 63,
                top == self.top(),
                c == self.columns(),
                columns == c,
                tiles@.len() == (y - top) * c,
                forall|k: int|
                    0 <= k < tiles@.len() ==> #[trigger] tiles@[k] == self.tile(k / c, k % c),
            decreases bottom + 1 - y,
        {
            let mut i: i64 = 0;
            let ghost row = y - top;
            while i < columns
                invariant
                    0 <= i <= columns,
                    0 <= top <= y <= bottom,
                    bottom < n,
                    n == self.tiles_per_axis(),
                    1 <= n,
                    n <= 0x4000_0000_0000_0000,
                    top == self.top(),
                    c == self.columns(),
                    columns == c,
                    row == y - top,
                    tiles@.len() == row * c + i,
                    forall|k: int|
                        0 <= k < tiles@.len() ==> #[trigger] tiles@[k] == self.tile(k / c, k % c),
                decreases columns - i,
            {
                assert(self.x0 + i <= self.x1);
                let tx: i64 = self.x0 + i;
                let wrapped: i64 = match tx.checked_rem_euclid(n) {
                    Some(w) => w,
                    None => 0,
                };
                assert(wrapped == tx as int % n as int);
                let ghost k = tiles@.len() as int;
                tiles.push(
                    (
                        self.zoom,
                        (wrapped % 0x1_0000_0000) as u32,
                        (y % 0x1_0000_0000) as u32,
                    ),
                );
                assert(k / c == row && k % c == i) by {
                    lemma_fundamental_div_mod_converse(k, c, row, i as int);
                }
                assert(tiles@[k] == self.tile(row, i as int));
                i += 1;
            }
            assert((row + 1) * c == row * c + c) by (nonlinear_arith);
            y += 1;
        }
        assert(y - top == self.rows());
        assert(tiles@ =~= self.covering());
        tiles
    }
}

/// How many tiles span the world in each direction at a zoom.
fn world(zoom: u8) -> (r: i64)
    requires
        zoom < 63,
    ensures
        r == pow2(zoom as nat),
        1 <= r <= 0x4000_0000_0000_0000,
{
    proof {
        lemma_pow2_pos(zoom as nat);
        lemma2_to64();
        lemma2_to64_rest();
        if zoom < 62 {
            lemma_pow2_strictly_increases(zoom as nat, 62);
        }
        lemma_u64_shl_is_mul(1, zoom as u64);
    }
    (1u64 << (zoom as u64)) as i64
}

proof fn world_fits(zoom: u8)
    requires
        zoom <= 32,
    ensures
        1 <= pow2(zoom as nat) <= 0x1_0000_0000,
{
    lemma_pow2_pos(zoom as nat);
    lemma2_to64();
    if zoom < 32 {
        lemma_pow2_strictly_increases(zoom as nat, 32);
    }
}

/// Every tile that covers a viewport exists: at most 32 zoom levels deep, its
/// column and its row are less than the number of tiles per axis.
pub proof fn covering_tiles_exist(v: Viewport, k: int)
    requires
        v.zoom <= 32,
        0 <= k < v.covering().len(),
    ensures
        v.covering()[k].0 == v.zoom,
        v.covering()[k].1 < v.tiles_per_axis(),
        v.covering()[k].2 < v.tiles_per_axis(),
{
    let n = v.tiles_per_axis();
    let c = v.columns();
    world_fits(v.zoom);
    lemma_nonzero_product(v.rows(), c);
    let (row, column) = (k / c, k % c);
    row_and_column(k, v.rows(), c);
    lemma_mod_bound(v.x0 + column, n);
    lemma_small_mod(((v.x0 + column) % n) as nat, 0x1_0000_0000);
    lemma_small_mod((v.top() + row) as nat, 0x1_0000_0000);
}

proof fn lemma_nonzero_product(a: int, b: int)
    requires
        a >= 0,
        b >= 0,
    ensures
        a * b >= 0,
        a * b > 0 ==> a > 0 && b > 0,
{
    assert(a * b >= 0) by (nonlinear_arith)
        requires
            a >= 0,
            b >= 0,
    ;
    assert(a * b > 0 ==> a > 0 && b > 0) by (nonlinear_arith)
        requires
            a >= 0,
            b >= 0,
    ;
}

/// The row and the column of the `k`-th cell of a grid.
proof fn row_and_column(k: int, rows: int, columns: int)
    requires
        0 <= k < rows * columns,
        columns > 0,
    ensures
        0 <= k / columns < rows,
        0 <= k % columns < columns,
        k == (k / columns) * columns + k % columns,
{
    lemma_fundamental_div_mod(k, columns);
    lemma_mod_bound(k, columns);
    lemma_mul_is_commutative(k / columns, columns);
    assert(0 <= k / columns < rows) by (nonlinear_arith)
        requires
            0 <= k < rows * columns,
            columns > 0,
            k == columns * (k / columns) + k % columns,
            0 <= k % columns < columns,
    ;
}

/// No tile covers a viewport twice, however wide the viewport is.
pub proof fn covering_tiles_distinct(v: Viewport)
    requires
        v.zoom <= 32,
    ensures
        v.covering().no_duplicates(),
{
    let n = v.tiles_per_axis();
    let c = v.columns();
    let tiles = v.covering();
    world_fits(v.zoom);
    assert forall|i: int, j: int|
        0 <= i < tiles.len() && 0 <= j < tiles.len() && i != j implies tiles[i] != tiles[j] by {
        lemma_nonzero_product(v.rows(), c);
        row_and_column(i, v.rows(), c);
        row_and_column(j, v.rows(), c);
        let (ri, ci) = (i / c, i % c);
        let (rj, cj) = (j / c, j % c);
        lemma_small_mod((v.top() + ri) as nat, 0x1_0000_0000);
        lemma_small_mod((v.top() + rj) as nat, 0x1_0000_0000);
        lemma_mod_bound(v.x0 + ci, n);
        lemma_mod_bound(v.x0 + cj, n);
        lemma_small_mod(((v.x0 + ci) % n) as nat, 0x1_0000_0000);
        lemma_small_mod(((v.x0 + cj) % n) as nat, 0x1_0000_0000);
        if tiles[i] == tiles[j] {
            assert(ri == rj);
            assert((v.x0 + ci) % n == (v.x0 + cj) % n);
            lemma_fundamental_div_mod(v.x0 + ci, n);
            lemma_fundamental_div_mod(v.x0 + cj, n);
            let (qi, qj) = ((v.x0 + ci) / n, (v.x0 + cj) / n);
            assert(ci == cj) by (nonlinear_arith)
                requires
                    v.x0 + ci == n * qi + (v.x0 + ci) % n,
                    v.x0 + cj == n * qj + (v.x0 + cj) % n,
                    (v.x0 + ci) % n == (v.x0 + cj) % n,
                    0 <= ci < n,
                    0 <= cj < n,
            ;
        }
    }
}

/// The tiles leave nothing of the viewport uncovered: every tile column and
/// every existing tile row of it is among them.
pub proof fn covering_tiles_complete(v: Viewport, x: int, y: int)
    requires
        v.zoom <= 32,
        v.x0 <= x <= v.x1,
        v.y0 <= y <= v.y1,
        0 <= y < v.tiles_per_axis(),
    ensures
        v.covering().contains((v.zoom, (x % v.tiles_per_axis()) as u32, y as u32)),
{
    let n = v.tiles_per_axis();
    let c = v.columns();
    world_fits(v.zoom);
    let row = y - v.top();
    let column = (x - v.x0) % n;
    lemma_mod_bound(x - v.x0, n);
    if x - v.x0 < n {
        lemma_small_mod((x - v.x0) as nat, n as nat);
    }
    let k = row * c + column;
    assert(0 <= k < v.rows() * c) by (nonlinear_arith)
        requires
            0 <= row < v.rows(),
            0 <= column < c,
            k == row * c + column,
    ;
    lemma_fundamental_div_mod_converse(k, c, row, column);
    assert((v.x0 + column) % n == x % n) by {
        lemma_add_mod_noop_right(v.x0 as int, x - v.x0, n);
    }
    lemma_mod_bound(x, n);
    lemma_small_mod((x % n) as nat, 0x1_0000_0000);
    lemma_small_mod(y as nat, 0x1_0000_0000);
    assert(v.covering()[k] == (v.zoom, (x % n) as u32, y as u32));
}

/// The greatest zoom that is tried when points are fit into a viewport.
pub const MAX_FIT_ZOOM: u8 = 17;

/// Whether points fit at a zoom.
pub open spec fn fits_at(fits: Seq<bool>, zoom: int) -> bool {
    0 <= zoom < fits.len() && fits[zoom]
}

/// Picks the zoom at which to show points, given for each zoom whether they
/// fit: the greatest from 1 to [`MAX_FIT_ZOOM`] at which they do, or 0.
pub fn pick_zoom(fits: &[bool]) -> (r: u8)
    ensures
        r <= MAX_FIT_ZOOM,
        r > 0 ==> fits_at(fits@, r as int),
        forall|z: int| r < z <= MAX_FIT_ZOOM ==> !#[trigger] fits_at(fits@, z),
{
    let mut zoom: u8 = MAX_FIT_ZOOM;
    while zoom > 0
        invariant
            zoom <= MAX_FIT_ZOOM,
            forall|z: int| zoom < z <= MAX_FIT_ZOOM ==> !#[trigger] fits_at(fits@, z),
        decreases zoom,
    {
        let i: usize = zoom as usize;
        if i < fits.len() && fits[i] {
            assert(fits_at(fits@, zoom as int));
            return zoom;
        }
        zoom -= 1;
    }
    zoom
}

/// A tile covers a viewport only where the viewport needs it: its column, around
/// the world, and its row are among those of the viewport.
pub proof fn covering_tiles_needed(v: Viewport, k: int)
    requires
        v.zoom <= 32,
        0 <= k < v.covering().len(),
    ensures
        exists|x: int, y: int|
            {
                &&& v.x0 <= x <= v.x1
                &&& v.y0 <= y <= v.y1
                &&& 0 <= y < pow2(v.zoom as nat)
                &&& v.covering()[k] == (
                    v.zoom,
                    #[trigger] (x % pow2(v.zoom as nat) as int) as u32,
                    #[trigger] (y as u32),
                )
            },
{
    let n = v.tiles_per_axis();
    let c = v.columns();
    world_fits(v.zoom);
    lemma_nonzero_product(v.rows(), c);
    row_and_column(k, v.rows(), c);
    let (row, column) = (k / c, k % c);
    let (x, y) = (v.x0 + column, v.top() + row);
    lemma_mod_bound(x, n);
    lemma_small_mod((x % n) as nat, 0x1_0000_0000);
    lemma_small_mod(y as nat, 0x1_0000_0000);
    assert(v.covering()[k] == (v.zoom, (x % n) as u32, y as u32));
}

/// The tiles come row by row, the upper row first, and in a row from the west
/// to the east, around the world.
pub proof fn covering_tiles_in_order(v: Viewport, k: int)
    requires
        v.zoom <= 32,
        0 <= k,
        k + 1 < v.covering().len(),
    ensures
        ({
            let (a, b) = (v.covering()[k], v.covering()[k + 1]);
            ||| a.2 == b.2 && b.1 == (a.1 + 1) % pow2(v.zoom as nat) as int
            ||| b.2 == a.2 + 1 && b.1 == v.covering()[0].1
        }),
        v.covering()[0].1 == v.x0 as int % pow2(v.zoom as nat) as int,
        v.covering()[0].2 == v.top(),
{
    let n = v.tiles_per_axis();
    let c = v.columns();
    world_fits(v.zoom);
    lemma_nonzero_product(v.rows(), c);
    row_and_column(k, v.rows(), c);
    row_and_column(k + 1, v.rows(), c);
    row_and_column(0, v.rows(), c);
    let (r, s) = (k / c, k % c);
    if s + 1 < c {
        lemma_fundamental_div_mod_converse(k + 1, c, r, s + 1);
    } else {
        assert(k + 1 == (r + 1) * c) by (nonlinear_arith)
            requires
                k == r * c + s,
                s + 1 == c,
        ;
        lemma_fundamental_div_mod_converse(k + 1, c, r + 1, 0);
    }
    lemma_fundamental_div_mod_converse(0, c, 0, 0);
    lemma_mod_bound(v.x0 + s, n);
    lemma_mod_bound(v.x0 + s + 1, n);
    lemma_mod_bound(v.x0 as int, n);
    lemma_small_mod(((v.x0 + s) % n) as nat, 0x1_0000_0000);
    lemma_small_mod(((v.x0 + s + 1) % n) as nat, 0x1_0000_0000);
    lemma_small_mod((v.x0 as int % n) as nat, 0x1_0000_0000);
    lemma_small_mod((v.top() + r) as nat, 0x1_0000_0000);
    lemma_small_mod(v.top() as nat, 0x1_0000_0000);
    lemma_small_mod((v.top() + (k + 1) / c) as nat, 0x1_0000_0000);
    lemma_add_mod_noop(v.x0 + s, 1, n);
    lemma_add_mod_noop_right(1, v.x0 + s, n);
    assert(v.covering()[k] == v.tile(r, s));
    assert(v.covering()[k + 1] == v.tile((k + 1) / c, (k + 1) % c));
    assert(v.covering()[0] == v.tile(0, 0));
}

/// A viewport that shows no row of the world needs no tile, and neither does a
/// zoom of 63 or more.
pub proof fn nothing_to_cover(v: Viewport)
    requires
        v.zoom >= 63 || v.y1 < 0 || v.x1 < v.x0 || v.y1 < v.y0 || v.y0 >= pow2(v.zoom as nat),
    ensures
        v.covering().len() == 0,
{
    assert(v.zoom < 63 ==> v.rows() == 0 || v.columns() == 0);
    assert(v.rows() == 0 || v.columns() == 0 ==> v.rows() * v.columns() == 0) by (nonlinear_arith);
}

} // verus!
