use vstd::prelude::*;
use vstd::arithmetic::div_mod::{
    lemma_fundamental_div_mod_converse,
    lemma_mod_add_multiples_vanish,
    lemma_mod_self_0,
    lemma_small_mod,
};

verus! {

/// A direction in which the snake's head can move.
#[derive(Clone, Copy, PartialEq, Eq, Structural, Debug)]
pub enum Direction {
    Up,
    Right,
    Down,
    Left,
}

/// The cell that a head at `head` enters when it moves one step in direction `d`
/// on a `width` x `width` board, cells numbered row by row, whose edges wrap around.
pub open spec fn next_cell(head: int, width: int, d: Direction) -> int {
    let row = head / width;
    match d {
        Direction::Right => if head + 1 == (row + 1) * width { row * width } else { head + 1 },
        Direction::Left => if head == row * width { (row + 1) * width - 1 } else { head - 1 },
        Direction::Up => if row == 0 { head + width * width - width } else { head - width },
        Direction::Down => if row == width - 1 { head - (width - 1) * width } else { head + width },
    }
}

/// The same step seen on the torus: on a row-and-column pair, the head moves one column
/// (left or right) or one row (up or down), modulo `width`, and the other coordinate stays.
pub open spec fn torus_step(row: int, col: int, width: int, d: Direction) -> (int, int) {
    match d {
        Direction::Right => (row, (col + 1) % width),
        Direction::Left => (row, (col + width - 1) % width),
        Direction::Up => ((row + width - 1) % width, col),
        Direction::Down => ((row + 1) % width, col),
    }
}

/// A step leaves the board only where it wraps: the cell at `row`, `col` moves to the cell
/// at the coordinates that `torus_step` gives.
pub proof fn lemma_next_cell_on_torus(row: int, col: int, width: int, d: Direction)
    requires
        0 <= row < width,
        0 <= col < width,
    ensures
        ({
            let (r2, c2) = torus_step(row, col, width, d);
            &&& 0 <= r2 < width
            &&& 0 <= c2 < width
            &&& next_cell(row * width + col, width, d) == r2 * width + c2
        }),
{
    let head = row * width + col;
    lemma_fundamental_div_mod_converse(head, width, row, col);
    assert((row + 1) * width == row * width + width) by (nonlinear_arith);
    assert((row - 1) * width == row * width - width) by (nonlinear_arith);
    assert((width - 1) * width == width * width - width) by (nonlinear_arith);
    lemma_mod_self_0(width);
    match d {
        Direction::Right => {
            if col + 1 < width {
                lemma_small_mod((col + 1) as nat, width as nat);
                assert(torus_step(row, col, width, d) == (row, col + 1));
            } else {
                assert((col + 1) % width == 0);
                assert(torus_step(row, col, width, d) == (row, 0int));
            }
        },
        Direction::Left => {
            if col > 0 {
                lemma_mod_add_multiples_vanish(col - 1, width);
                lemma_small_mod((col - 1) as nat, width as nat);
            } else {
                lemma_small_mod((width - 1) as nat, width as nat);
            }
        },
        Direction::Up => {
            if row > 0 {
                lemma_mod_add_multiples_vanish(row - 1, width);
                lemma_small_mod((row - 1) as nat, width as nat);
            } else {
                lemma_small_mod((width - 1) as nat, width as nat);
            }
        },
        Direction::Down => {
            if row + 1 < width {
                lemma_small_mod((row + 1) as nat, width as nat);
            } else {
                assert(row + 1 == width);
                assert((row + 1) % width == 0);
            }
        },
    }
}

/// A cell of a `width` x `width` board is `row * width + col` for a row and a column of it.
pub proof fn lemma_cell_coordinates(head: int, width: int)
    requires
        0 < width,
        0 <= head < width * width,
    ensures
        0 <= head / width < width,
        0 <= head % width < width,
        head == (head / width) * width + head % width,
{
    let row = head / width;
    let col = head % width;
    assert(head == row * width + col && 0 <= col < width) by (nonlinear_arith)
        requires row == head / width, col == head % width, 0 < width;
    assert(0 <= row < width) by (nonlinear_arith)
        requires head == row * width + col, 0 <= col < width, 0 <= head < width * width;
}

/// Every step from a cell of the board lands on a cell of the board.
pub proof fn lemma_next_cell_in_board(head: int, width: int, d: Direction)
    requires
        0 < width,
        0 <= head < width * width,
    ensures
        0 <= next_cell(head, width, d) < width * width,
{
    lemma_cell_coordinates(head, width);
    let row = head / width;
    let col = head % width;
    lemma_next_cell_on_torus(row, col, width, d);
    let (r2, c2) = torus_step(row, col, width, d);
    assert(0 <= r2 * width + c2 < width * width) by (nonlinear_arith)
        requires 0 <= r2 < width, 0 <= c2 < width;
}

/// Computes `next_cell` for a head on a board of `size == width * width` cells.
pub fn step_from(head: usize, width: usize, size: usize, d: Direction) -> (r: usize)
    requires
        0 < width,
        size == width * width,
        head < size,
    ensures
        r == next_cell(head as int, width as int, d),
        r < size,
{
    proof {
        lemma_next_cell_in_board(head as int, width as int, d);
        lemma_cell_coordinates(head as int, width as int);
    }
    let row = head / width;
    proof {
        let (h, w, rw) = (head as int, width as int, row as int);
        assert(rw * w <= h < (rw + 1) * w) by (nonlinear_arith)
            requires rw == h / w, 0 < w;
        assert((rw + 1) * w <= w * w) by (nonlinear_arith)
            requires rw < w, 0 < w;
        assert((w - 1) * w == w * w - w) by (nonlinear_arith);
        assert((rw + 1) * w == rw * w + w) by (nonlinear_arith);
    }
    match d {
        Direction::Right => {
            let threshold = (row + 1) * width;
            if head + 1 == threshold { threshold - width } else { head + 1 }
        },
        Direction::Left => {
            let start = row * width;
            if head == start { start + width - 1 } else { head - 1 }
        },
        Direction::Up => {
            if row == 0 { head + (size - width) } else { head - width }
        },
        Direction::Down => {
            if row == width - 1 { head - (size - width) } else { head + width }
        },
    }
}

} // verus!
