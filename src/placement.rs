//! Randomised, non-overlapping placement of new objects on a grid laid over
//! the arena.

use crate::random::sample_distinct_below;
use crate::units::{Arena, Position, MAX_SIDE, SCALE};
use grid::Grid;
use vstd::prelude::*;

verus! {

#[verifier::external_type_specification]
#[verifier::external_body]
#[verifier::reject_recursive_types(T)]
pub struct ExGrid<T>(Grid<T>);

/// The cells of a grid of flags, read row by row.
pub uninterp spec fn grid_cells(g: Grid<bool>) -> Seq<bool>;

/// The number of columns of a grid of flags.
pub uninterp spec fn grid_cols(g: Grid<bool>) -> nat;

/// Relies on `grid::Grid::new`: `rows` by `cols` cells holding `bool`'s
/// default, `false`; it panics only when `rows * cols` overflows.
#[verifier::external_body]
fn new_flag_grid(rows: usize, cols: usize) -> (g: Grid<bool>)
    requires
        rows > 0,
        cols > 0,
        rows * cols <= usize::MAX,
    ensures
        grid_cells(g) == Seq::new((rows * cols) as nat, |_i: int| false),
        grid_cols(g) == cols,
{
    Grid::new(rows, cols)
}

/// Relies on `IndexMut<(usize, usize)>` of `grid::Grid`: sets the cell in
/// `row` and `col`, both within the grid.
#[verifier::external_body]
fn mark_cell(g: &mut Grid<bool>, row: usize, col: usize)
    requires
        col < grid_cols(*old(g)),
        row * grid_cols(*old(g)) + col < grid_cells(*old(g)).len(),
    ensures
        grid_cols(*final(g)) == grid_cols(*old(g)),
        grid_cells(*final(g)) == grid_cells(*old(g)).update(row * grid_cols(*old(g)) + col, true),
{
    g[(row, col)] = true;
}

/// Relies on `grid::Grid::iter_rows`: the rows in order, each from its first
/// column to its last.
#[verifier::external_body]
fn flag_rows(g: &Grid<bool>) -> (r: Vec<bool>)
    ensures
        r@ == grid_cells(*g),
{
    g.iter_rows().flatten().copied().collect()
}

/// The placement grid has cells of one object's size; objects are at most
/// half the arena in each direction.
pub open spec fn fits(arena: Arena, object_width: usize, object_height: usize) -> bool {
    &&& arena.wf()
    &&& 0 < object_width <= arena.width / 2
    &&& 0 < object_height <= arena.height / 2
}

/// Whether objects of the given size can be placed on a grid over `arena`.
pub fn can_place(arena: Arena, object_width: usize, object_height: usize) -> (r: bool)
    ensures
        r == fits(arena, object_width, object_height),
{
    0 < arena.width && arena.width <= MAX_SIDE && 0 < arena.height && arena.height <= MAX_SIDE
        && 0 < object_width && object_width <= arena.width / 2 && 0 < object_height
        && object_height <= arena.height / 2
}

pub open spec fn grid_columns(arena: Arena, object_width: usize) -> int {
    arena.width as int / object_width as int
}

pub open spec fn grid_rows(arena: Arena, object_height: usize) -> int {
    arena.height as int / object_height as int
}

/// The cell, along one axis of `n` cells of `size` units, that a coordinate
/// `t` falls in, counted from the arena's low edge at `-half` and clamped
/// into the grid.
pub open spec fn cell_along(half: int, size: int, n: int, t: int) -> int {
    let v = half + t;
    let c = if v < 0 {
        0
    } else {
        v / (size * SCALE)
    };
    if c > n - 1 {
        n - 1
    } else {
        c
    }
}

/// The row-major index of the cell an object at `p` occupies.
pub open spec fn cell_index(arena: Arena, object_width: usize, object_height: usize, p: Position) -> int {
    cell_along(arena.half_height(), object_height as int, grid_rows(arena, object_height), p.y as int)
        * grid_columns(arena, object_width) + cell_along(
        arena.half_width(),
        object_width as int,
        grid_columns(arena, object_width),
        p.x as int,
    )
}

/// One of the first `k` objects occupies cell `i`.
pub open spec fn marked_by(
    arena: Arena,
    object_width: usize,
    object_height: usize,
    ts: Seq<Position>,
    k: int,
    i: int,
) -> bool {
    exists|j: int| 0 <= j < k && #[trigger] cell_index(arena, object_width, object_height, ts[j]) == i
}

/// Which cells the objects at `ts` occupy.
pub open spec fn occupancy(arena: Arena, object_width: usize, object_height: usize, ts: Seq<Position>) -> Seq<bool> {
    Seq::new(
        (grid_rows(arena, object_height) * grid_columns(arena, object_width)) as nat,
        |i: int| marked_by(arena, object_width, object_height, ts, ts.len() as int, i),
    )
}

/// The indices of the unset cells among the first `n`, in increasing order.
pub open spec fn free_upto(cells: Seq<bool>, n: int) -> Seq<usize>
    decreases n,
{
    if n <= 0 {
        Seq::empty()
    } else if cells[n - 1] {
        free_upto(cells, n - 1)
    } else {
        free_upto(cells, n - 1).push((n - 1) as usize)
    }
}

/// The cells no object at `ts` occupies, in increasing order.
pub open spec fn free_of(arena: Arena, object_width: usize, object_height: usize, ts: Seq<Position>) -> Seq<usize> {
    let cells = occupancy(arena, object_width, object_height, ts);
    free_upto(cells, cells.len() as int)
}

/// Where an object placed in cell `idx` stands: the centre of the cell, so
/// that distinct cells give distinct spots.
pub open spec fn cell_position(arena: Arena, object_width: usize, object_height: usize, idx: int) -> Position {
    let cols = grid_columns(arena, object_width);
    let col = idx % cols;
    let row = idx / cols;
    Position {
        x: (col * object_width * SCALE + object_width * SCALE / 2 - arena.half_width()) as i64,
        y: (row * object_height * SCALE + object_height * SCALE / 2 - arena.half_height()) as i64,
    }
}

/// `r` is made of the free cells at the distinct positions `picks` of `free`.
pub open spec fn placed_from(
    arena: Arena,
    object_width: usize,
    object_height: usize,
    free: Seq<usize>,
    picks: Seq<usize>,
    r: Seq<Position>,
) -> bool {
    &&& picks.len() == r.len()
    &&& forall|i: int| 0 <= i < picks.len() ==> #[trigger] picks[i] < free.len()
    &&& forall|i: int|
        0 <= i < r.len() ==> #[trigger] r[i] == cell_position(
            arena,
            object_width,
            object_height,
            free[picks[i] as int] as int,
        )
    &&& forall|i: int, j: int| 0 <= i < j < picks.len() ==> picks[i] != picks[j]
}

fn cell_along_exec(half: i64, size: usize, n: usize, t: i64) -> (r: usize)
    requires
        0 <= half <= 100_000_000_000,
        0 < size <= 100_000,
        0 < n,
    ensures
        r == cell_along(half as int, size as int, n as int, t as int),
{
    let v: i128 = half as i128 + t as i128;
    let cell_len: i128 = size as i128 * 1000;
    assert(cell_len == size * SCALE);
    let c: i128 = if v < 0 {
        0
    } else {
        v / cell_len
    };
    if c > (n - 1) as i128 {
        n - 1
    } else {
        c as usize
    }
}

/// The indices of the cells that no object at `occupied_by` occupies, in
/// increasing order.
pub fn free_cells(arena: Arena, object_width: usize, object_height: usize, occupied_by: &Vec<Position>) -> (r:
    Vec<usize>)
    requires
        fits(arena, object_width, object_height),
    ensures
        r@ == free_of(arena, object_width, object_height, occupied_by@),
{
    let rows = arena.height / object_height;
    let cols = arena.width / object_width;
    proof {
        lemma_grid_dims(arena, object_width, object_height);
    }
    let n = rows * cols;
    let half_w = (arena.width / 2) as i64 * SCALE;
    let half_h = (arena.height / 2) as i64 * SCALE;
    let mut grid = new_flag_grid(rows, cols);
    let mut k: usize = 0;
    while k < occupied_by.len()
        invariant
            fits(arena, object_width, object_height),
            rows == grid_rows(arena, object_height),
            cols == grid_columns(arena, object_width),
            rows >= 1,
            cols >= 1,
            n == rows * cols,
            half_w == arena.half_width(),
            half_h == arena.half_height(),
            k <= occupied_by@.len(),
            grid_cols(grid) == cols,
            grid_cells(grid).len() == n,
            forall|i: int|
                0 <= i < n ==> #[trigger] grid_cells(grid)[i] == marked_by(
                    arena,
                    object_width,
                    object_height,
                    occupied_by@,
                    k as int,
                    i,
                ),
        decreases occupied_by@.len() - k,
    {
        let t = occupied_by[k];
        let col = cell_along_exec(half_w, object_width, cols, t.x);
        let row = cell_along_exec(half_h, object_height, rows, t.y);
        assert(row * cols + col < n) by (nonlinear_arith)
            requires
                row < rows,
                col < cols,
                n == rows * cols,
        ;
        let ghost idx = row * cols + col;
        assert(idx == cell_index(arena, object_width, object_height, occupied_by@[k as int]));
        mark_cell(&mut grid, row, col);
        proof {
            assert forall|i: int| 0 <= i < n implies #[trigger] grid_cells(grid)[i] == marked_by(
                arena,
                object_width,
                object_height,
                occupied_by@,
                k + 1,
                i,
            ) by {
                if i == idx {
                    assert(cell_index(arena, object_width, object_height, occupied_by@[k as int]) == i);
                } else {
                    if marked_by(arena, object_width, object_height, occupied_by@, k + 1, i) {
                        let j = choose|j: int|
                            0 <= j < k + 1 && #[trigger] cell_index(
                                arena,
                                object_width,
                                object_height,
                                occupied_by@[j],
                            ) == i;
                        assert(j < k);
                    }
                }
            }
        }
        k = k + 1;
    }
    let cells = flag_rows(&grid);
    let ghost occ = occupancy(arena, object_width, object_height, occupied_by@);
    assert(cells@ == occ);
    let mut free: Vec<usize> = Vec::new();
    let mut i: usize = 0;
    while i < n
        invariant
            i <= n,
            cells@ == occ,
            occ.len() == n,
            free@ == free_upto(occ, i as int),
        decreases n - i,
    {
        if !cells[i] {
            free.push(i);
        }
        i = i + 1;
    }
    free
}

/// Where an object placed in cell `idx` stands.
pub fn cell_spot(arena: Arena, object_width: usize, object_height: usize, idx: usize) -> (r: Position)
    requires
        fits(arena, object_width, object_height),
        idx < grid_rows(arena, object_height) * grid_columns(arena, object_width),
    ensures
        r == cell_position(arena, object_width, object_height, idx as int),
{
    let cols = arena.width / object_width;
    let rows = arena.height / object_height;
    proof {
        lemma_grid_dims(arena, object_width, object_height);
    }
    let col = idx % cols;
    let row = idx / cols;
    assert(row < rows) by (nonlinear_arith)
        requires
            idx < rows * cols,
            row == idx / cols,
            cols > 0,
    ;
    assert(col * object_width <= arena.width) by (nonlinear_arith)
        requires
            col < cols,
            cols == arena.width / object_width,
            object_width > 0,
    ;
    assert(row * object_height <= arena.height) by (nonlinear_arith)
        requires
            row < rows,
            rows == arena.height / object_height,
            object_height > 0,
    ;
    let half_w = (arena.width / 2) as i64 * SCALE;
    let half_h = (arena.height / 2) as i64 * SCALE;
    let x = (col * object_width) as i64 * SCALE + object_width as i64 * SCALE / 2 - half_w;
    let y = (row * object_height) as i64 * SCALE + object_height as i64 * SCALE / 2 - half_h;
    Position { x, y }
}

/// An object placed in a cell stands in that cell.
pub proof fn lemma_spot_in_cell(arena: Arena, object_width: usize, object_height: usize, idx: int)
    requires
        fits(arena, object_width, object_height),
        0 <= idx < grid_rows(arena, object_height) * grid_columns(arena, object_width),
    ensures
        cell_index(arena, object_width, object_height, cell_position(arena, object_width, object_height, idx))
            == idx,
{
    lemma_grid_dims(arena, object_width, object_height);
    let cols = grid_columns(arena, object_width);
    let rows = grid_rows(arena, object_height);
    let col = idx % cols;
    let row = idx / cols;
    assert(0 <= col < cols && 0 <= row < rows && idx == row * cols + col) by (nonlinear_arith)
        requires
            0 <= idx < rows * cols,
            cols >= 1,
            col == idx % cols,
            row == idx / cols,
    ;
    assert(col * object_width <= arena.width && row * object_height <= arena.height) by (nonlinear_arith)
        requires
            0 <= col < cols,
            0 <= row < rows,
            cols == arena.width as int / object_width as int,
            rows == arena.height as int / object_height as int,
            object_width > 0,
            object_height > 0,
    ;
    let w = object_width * SCALE;
    let h = object_height * SCALE;
    let vx = col * object_width * SCALE + w / 2;
    let vy = row * object_height * SCALE + h / 2;
    assert(vx / w == col) by (nonlinear_arith)
        requires
            vx == col * object_width * SCALE + w / 2,
            w == object_width * SCALE,
            object_width > 0,
            col >= 0,
    ;
    assert(vy / h == row) by (nonlinear_arith)
        requires
            vy == row * object_height * SCALE + h / 2,
            h == object_height * SCALE,
            object_height > 0,
            row >= 0,
    ;
    let p = cell_position(arena, object_width, object_height, idx);
    assert(arena.half_width() + p.x == vx);
    assert(arena.half_height() + p.y == vy);
}

/// The indices listed as free are strictly increasing.
pub proof fn lemma_free_increasing(cells: Seq<bool>, n: int)
    requires
        0 <= n <= cells.len() <= usize::MAX,
    ensures
        forall|a: int, b: int|
            0 <= a < b < free_upto(cells, n).len() ==> free_upto(cells, n)[a] < free_upto(cells, n)[b],
    decreases n,
{
    if n > 0 {
        lemma_free_increasing(cells, n - 1);
        lemma_free_below(cells, n - 1);
        let prev = free_upto(cells, n - 1);
        if !cells[n - 1] {
            assert(free_upto(cells, n) == prev.push((n - 1) as usize));
            assert forall|a: int, b: int|
                0 <= a < b < free_upto(cells, n).len() implies free_upto(cells, n)[a] < free_upto(
                cells,
                n,
            )[b] by {
                if b == prev.len() {
                    assert(prev[a] < n - 1);
                } else {
                    assert(free_upto(cells, n)[a] == prev[a]);
                    assert(free_upto(cells, n)[b] == prev[b]);
                }
            }
        }
    }
}

/// Places `count` objects of the given size on distinct free cells, chosen
/// uniformly without replacement; fewer when fewer cells are free.
pub fn calculate_random_objects(
    arena: Arena,
    object_width: usize,
    object_height: usize,
    count: usize,
    occupied_by: &Vec<Position>,
) -> (r: Vec<Position>)
    requires
        fits(arena, object_width, object_height),
    ensures
        ({
            let free = free_of(arena, object_width, object_height, occupied_by@);
            &&& r@.len() == if count < free.len() {
                count as int
            } else {
                free.len() as int
            }
            &&& exists|picks: Seq<usize>|
                #[trigger] placed_from(arena, object_width, object_height, free, picks, r@)
        }),
        forall|i: int, j: int|
            0 <= i < r@.len() && 0 <= j < occupied_by@.len() ==> cell_index(
                arena,
                object_width,
                object_height,
                #[trigger] r@[i],
            ) != cell_index(arena, object_width, object_height, #[trigger] occupied_by@[j]),
        forall|i: int, k: int|
            0 <= i < k < r@.len() ==> cell_index(arena, object_width, object_height, #[trigger] r@[i])
                != cell_index(arena, object_width, object_height, #[trigger] r@[k]),
{
    let free = free_cells(arena, object_width, object_height, occupied_by);
    let wanted = if count < free.len() {
        count
    } else {
        free.len()
    };
    let picks = sample_distinct_below(free.len(), wanted);
    let mut r: Vec<Position> = Vec::new();
    let mut i: usize = 0;
    while i < picks.len()
        invariant
            fits(arena, object_width, object_height),
            free@ == free_of(arena, object_width, object_height, occupied_by@),
            i <= picks@.len(),
            r@.len() == i,
            forall|k: int| 0 <= k < picks@.len() ==> picks@[k] < free@.len(),
            forall|k: int|
                0 <= k < i ==> #[trigger] r@[k] == cell_position(
                    arena,
                    object_width,
                    object_height,
                    free@[picks@[k] as int] as int,
                ),
        decreases picks@.len() - i,
    {
        let idx = free[picks[i]];
        proof {
            lemma_grid_dims(arena, object_width, object_height);
            lemma_free_below(
                occupancy(arena, object_width, object_height, occupied_by@),
                occupancy(arena, object_width, object_height, occupied_by@).len() as int,
            );
        }
        r.push(cell_spot(arena, object_width, object_height, idx));
        i = i + 1;
    }
    assert(placed_from(arena, object_width, object_height, free@, picks@, r@));
    proof {
        let cells = occupancy(arena, object_width, object_height, occupied_by@);
        lemma_grid_dims(arena, object_width, object_height);
        lemma_free_below(cells, cells.len() as int);
        lemma_free_increasing(cells, cells.len() as int);
        assert forall|i: int| 0 <= i < r@.len() implies cell_index(
            arena,
            object_width,
            object_height,
            #[trigger] r@[i],
        ) == free@[picks@[i] as int] by {
            lemma_spot_in_cell(arena, object_width, object_height, free@[picks@[i] as int] as int);
        }
        assert forall|i: int, j: int|
            0 <= i < r@.len() && 0 <= j < occupied_by@.len() implies cell_index(
            arena,
            object_width,
            object_height,
            #[trigger] r@[i],
        ) != cell_index(arena, object_width, object_height, #[trigger] occupied_by@[j]) by {
            let c = free@[picks@[i] as int] as int;
            assert(!cells[c]);
            assert(cell_index(arena, object_width, object_height, r@[i]) == c);
            if cell_index(arena, object_width, object_height, occupied_by@[j]) == c {
                assert(marked_by(arena, object_width, object_height, occupied_by@, occupied_by@.len() as int, c));
            }
        }
        assert forall|i: int, k: int| 0 <= i < k < r@.len() implies cell_index(
            arena,
            object_width,
            object_height,
            #[trigger] r@[i],
        ) != cell_index(arena, object_width, object_height, #[trigger] r@[k]) by {
            assert(cell_index(arena, object_width, object_height, r@[i]) == free@[picks@[i] as int]);
            assert(cell_index(arena, object_width, object_height, r@[k]) == free@[picks@[k] as int]);
            let (a, b) = if picks@[i] < picks@[k] {
                (picks@[i] as int, picks@[k] as int)
            } else {
                (picks@[k] as int, picks@[i] as int)
            };
            assert(free@[a] < free@[b]);
        }
    }
    r
}

/// Every index listed as free is a cell, and unset.
pub proof fn lemma_free_below(cells: Seq<bool>, n: int)
    requires
        0 <= n <= cells.len() <= usize::MAX,
    ensures
        forall|k: int|
            0 <= k < free_upto(cells, n).len() ==> {
                &&& #[trigger] free_upto(cells, n)[k] < n
                &&& !cells[free_upto(cells, n)[k] as int]
            },
    decreases n,
{
    if n > 0 {
        lemma_free_below(cells, n - 1);
        let prev = free_upto(cells, n - 1);
        assert forall|k: int| 0 <= k < free_upto(cells, n).len() implies {
            &&& #[trigger] free_upto(cells, n)[k] < n
            &&& !cells[free_upto(cells, n)[k] as int]
        } by {
            if cells[n - 1] {
                assert(free_upto(cells, n) == prev);
                assert(prev[k] < n - 1);
            } else {
                assert(free_upto(cells, n) == prev.push((n - 1) as usize));
                if k < prev.len() {
                    assert(prev[k] < n - 1);
                }
            }
        }
    }
}

/// The placement grid over an arena has at least one cell along each axis,
/// and no more cells in all than `usize` can count.
pub proof fn lemma_grid_dims(arena: Arena, object_width: usize, object_height: usize)
    requires
        fits(arena, object_width, object_height),
    ensures
        1 <= grid_columns(arena, object_width) <= 60000,
        1 <= grid_rows(arena, object_height) <= 60000,
        grid_rows(arena, object_height) * grid_columns(arena, object_width) <= 3_600_000_000,
{
    let cols = grid_columns(arena, object_width);
    let rows = grid_rows(arena, object_height);
    assert(1 <= cols <= 60000) by (nonlinear_arith)
        requires
            0 < object_width <= arena.width / 2,
            arena.width <= 60000,
            cols == arena.width as int / object_width as int,
    ;
    assert(1 <= rows <= 60000) by (nonlinear_arith)
        requires
            0 < object_height <= arena.height / 2,
            arena.height <= 60000,
            rows == arena.height as int / object_height as int,
    ;
    assert(rows * cols <= 3_600_000_000) by (nonlinear_arith)
        requires
            1 <= cols <= 60000,
            1 <= rows <= 60000,
    ;
}

} // verus!
