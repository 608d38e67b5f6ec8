//! Row-major grid addressing: neighbor enumeration and the life rule,
//! stated over mathematical integers.

use vstd::prelude::*;

verus! {

/// The cell at index `i` sits on the left border of a grid with `c` columns.
pub open spec fn on_left_edge(c: int, i: int) -> bool {
    i % c == 0
}

/// The cell at index `i` sits on the right border of a grid with `c` columns.
pub open spec fn on_right_edge(c: int, i: int) -> bool {
    (i + 1) % c == 0
}

/// The cell at index `i` sits in the first row.
pub open spec fn on_top_edge(c: int, i: int) -> bool {
    i < c
}

/// The cell at index `i` sits in the last row of a `c` by `r` grid.
pub open spec fn on_bottom_edge(c: int, r: int, i: int) -> bool {
    i >= c * r - c
}

/// The neighbors of cell `i` in a `c` by `r` grid, in enumeration order:
/// left, right, then the row above (middle, left, right), then the row
/// below (middle, left, right), each present unless an edge excludes it.
pub open spec fn neighbor_seq(c: int, r: int, i: int) -> Seq<int> {
    let l = on_left_edge(c, i);
    let rt = on_right_edge(c, i);
    let horizontal = (if !l { seq![i - 1] } else { Seq::<int>::empty() })
        + (if !rt { seq![i + 1] } else { Seq::<int>::empty() });
    let above = if !on_top_edge(c, i) {
        seq![i - c] + (if !l { seq![i - c - 1] } else { Seq::<int>::empty() })
            + (if !rt { seq![i - c + 1] } else { Seq::<int>::empty() })
    } else {
        Seq::<int>::empty()
    };
    let below = if !on_bottom_edge(c, r, i) {
        seq![i + c] + (if !l { seq![i + c - 1] } else { Seq::<int>::empty() })
            + (if !rt { seq![i + c + 1] } else { Seq::<int>::empty() })
    } else {
        Seq::<int>::empty()
    };
    horizontal + above + below
}

/// How many of the indices in `idx` name a cell of `cells` that is alive;
/// indices outside the grid count as dead.
pub open spec fn live_count(cells: Seq<bool>, idx: Seq<int>) -> nat
    decreases idx.len(),
{
    if idx.len() == 0 {
        0
    } else {
        let j = idx.last();
        live_count(cells, idx.drop_last()) + (if 0 <= j < cells.len() && cells[j] {
            1nat
        } else {
            0nat
        })
    }
}

/// The life rule: a live cell survives with two or three live neighbors,
/// a dead cell is born with exactly three.
pub open spec fn next_state(alive: bool, n: nat) -> bool {
    if alive {
        n == 2 || n == 3
    } else {
        n == 3
    }
}

/// The generation that follows `cells` on a `c` by `r` grid, every cell
/// computed from the previous generation only.
pub open spec fn next_generation(c: int, r: int, cells: Seq<bool>) -> Seq<bool> {
    Seq::new(
        cells.len(),
        |i: int| next_state(cells[i], live_count(cells, neighbor_seq(c, r, i))),
    )
}

/// Every cell of a grid with at least one row and one column has at most
/// eight neighbors, each of them a cell of the grid other than itself.
pub proof fn lemma_neighbors_in_bounds(columns: int, rows: int, index: int)
    requires
        columns >= 1,
        rows >= 1,
        0 <= index < columns * rows,
    ensures
        neighbor_seq(columns, rows, index).len() <= 8,
        forall|k: int|
            0 <= k < neighbor_seq(columns, rows, index).len() ==> {
                let j = #[trigger] neighbor_seq(columns, rows, index)[k];
                0 <= j < columns * rows && j != index
            },
{
    let c = columns;
    let i = index;
    let total = columns * rows;
    assert(total % c == 0) by {
        vstd::arithmetic::div_mod::lemma_mod_multiples_basic(rows, c);
    }
    assert(i >= c ==> (i - c) % c == i % c) by {
        if i >= c {
            vstd::arithmetic::div_mod::lemma_mod_sub_multiples_vanish(i, c);
        }
    }
    assert(i + c + 1 == total ==> (i + 1) % c == 0) by {
        if i + c + 1 == total {
            assert(i + 1 == c * (rows - 1)) by (nonlinear_arith)
                requires i + c + 1 == c * rows;
            vstd::arithmetic::div_mod::lemma_mod_multiples_basic(rows - 1, c);
        }
    }
    assert(i + 1 == total ==> (i + 1) % c == 0);
    assert(c == 1 ==> i % c == 0 && (i + 1) % c == 0);
    assert(0int % c == 0);
    let s = neighbor_seq(columns, rows, index);
    let ok = |j: int| 0 <= j < total && j != i;
    let e = Seq::<int>::empty();
    let l = on_left_edge(c, i);
    let rt = on_right_edge(c, i);
    let h1 = if !l { seq![i - 1] } else { e };
    let h2 = if !rt { seq![i + 1] } else { e };
    let a1 = if !l { seq![i - c - 1] } else { e };
    let a2 = if !rt { seq![i - c + 1] } else { e };
    let b1 = if !l { seq![i + c - 1] } else { e };
    let b2 = if !rt { seq![i + c + 1] } else { e };
    let above = if !on_top_edge(c, i) { seq![i - c] + a1 + a2 } else { e };
    let below = if !on_bottom_edge(c, rows, i) { seq![i + c] + b1 + b2 } else { e };
    assert(s == h1 + h2 + above + below);
    assert(forall|k: int| 0 <= k < h1.len() ==> ok(#[trigger] h1[k]));
    assert(forall|k: int| 0 <= k < h2.len() ==> ok(#[trigger] h2[k]));
    assert(forall|k: int| 0 <= k < above.len() ==> ok(#[trigger] above[k]));
    assert(forall|k: int| 0 <= k < below.len() ==> ok(#[trigger] below[k]));
    let h = h1 + h2;
    assert(forall|k: int| 0 <= k < h.len() ==> ok(#[trigger] h[k]));
    let ha = h + above;
    assert(forall|k: int| 0 <= k < ha.len() ==> ok(#[trigger] ha[k]));
    assert(forall|k: int| 0 <= k < s.len() ==> ok(#[trigger] s[k]));
}

/// Row-major index of cell `(x, y)` in a grid with `c` columns.
pub open spec fn cell_index(c: int, x: int, y: int) -> int {
    y * c + x
}

/// A cell of a `c` by `r` grid has an index on the board.
pub proof fn lemma_cell_index_bounds(c: int, r: int, x: int, y: int)
    requires
        0 <= x < c,
        0 <= y < r,
    ensures
        0 <= cell_index(c, x, y) < c * r,
{
    assert(0 <= y * c + x < c * r) by (nonlinear_arith)
        requires
            0 <= x < c,
            0 <= y < r;
}

/// Distinct cells have distinct indices.
pub proof fn lemma_cell_index_unique(c: int, x1: int, y1: int, x2: int, y2: int)
    requires
        0 <= x1 < c,
        0 <= x2 < c,
        0 <= y1,
        0 <= y2,
        cell_index(c, x1, y1) == cell_index(c, x2, y2),
    ensures
        x1 == x2,
        y1 == y2,
{
    if y1 < y2 {
        assert(y1 * c + x1 < y2 * c + x2) by (nonlinear_arith)
            requires
                0 <= x1 < c,
                0 <= x2,
                y1 < y2;
    } else if y2 < y1 {
        assert(y2 * c + x2 < y1 * c + x1) by (nonlinear_arith)
            requires
                0 <= x2 < c,
                0 <= x1,
                y2 < y1;
    }
}

/// Cells `(x1, y1)` and `(x2, y2)` are distinct and touch, orthogonally or
/// diagonally.
pub open spec fn adjacent(x1: int, y1: int, x2: int, y2: int) -> bool {
    &&& (x1, y1) != (x2, y2)
    &&& -1 <= x1 - x2 <= 1
    &&& -1 <= y1 - y2 <= 1
}

/// The enumerated neighbors of a cell are exactly the cells of the grid
/// adjacent to it: the edge tests exclude precisely the positions that
/// would fall off the board, with no wraparound.
pub proof fn lemma_neighbors_are_adjacent(c: int, r: int, x: int, y: int, x2: int, y2: int)
    requires
        0 <= x < c,
        0 <= y < r,
        0 <= x2 < c,
        0 <= y2 < r,
    ensures
        neighbor_seq(c, r, cell_index(c, x, y)).contains(cell_index(c, x2, y2))
            <==> adjacent(x, y, x2, y2),
{
    broadcast use vstd::seq_lib::lemma_seq_concat_contains_all_elements,
        vstd::seq_lib::lemma_seq_contains_after_push,
        vstd::seq_lib::lemma_seq_empty_contains_nothing;

    let i = cell_index(c, x, y);
    let j = cell_index(c, x2, y2);
    vstd::arithmetic::div_mod::lemma_fundamental_div_mod_converse(i, c, y, x);
    if x + 1 < c {
        vstd::arithmetic::div_mod::lemma_fundamental_div_mod_converse(i + 1, c, y, x + 1);
    } else {
        assert(i + 1 == (y + 1) * c + 0) by (nonlinear_arith)
            requires
                i == y * c + x,
                x + 1 == c;
        vstd::arithmetic::div_mod::lemma_fundamental_div_mod_converse(i + 1, c, y + 1, 0);
    }
    assert(on_left_edge(c, i) <==> x == 0);
    assert(on_right_edge(c, i) <==> x == c - 1);
    assert(on_top_edge(c, i) <==> y == 0) by (nonlinear_arith)
        requires
            i == y * c + x,
            0 <= x < c,
            0 <= y;
    assert(on_bottom_edge(c, r, i) <==> y == r - 1) by (nonlinear_arith)
        requires
            i == y * c + x,
            0 <= x < c,
            0 <= y < r;
    // every listed candidate is the index of the cell at the matching offset
    assert(forall|dx: int, dy: int|
        -1 <= dx <= 1 && -1 <= dy <= 1 ==> #[trigger] cell_index(c, x + dx, y + dy) == i + dy * c + dx)
        by (nonlinear_arith)
        requires
            i == y * c + x;
    assert(cell_index(c, x - 1, y) == i - 1);
    assert(cell_index(c, x + 1, y) == i + 1);
    assert(cell_index(c, x, y - 1) == i - c) by (nonlinear_arith)
        requires
            i == y * c + x;
    assert(cell_index(c, x - 1, y - 1) == i - c - 1);
    assert(cell_index(c, x + 1, y - 1) == i - c + 1);
    assert(cell_index(c, x, y + 1) == i + c) by (nonlinear_arith)
        requires
            i == y * c + x;
    assert(cell_index(c, x - 1, y + 1) == i + c - 1);
    assert(cell_index(c, x + 1, y + 1) == i + c + 1);
    assert forall|dx: int, dy: int|
        -1 <= dx <= 1 && -1 <= dy <= 1 && 0 <= x + dx < c && 0 <= y + dy
        implies (#[trigger] cell_index(c, x + dx, y + dy) == j <==> (x2 == x + dx && y2 == y + dy)) by {
        if cell_index(c, x + dx, y + dy) == j {
            lemma_cell_index_unique(c, x + dx, y + dy, x2, y2);
        }
    }
    let e = Seq::<int>::empty();
    let l = on_left_edge(c, i);
    let rt = on_right_edge(c, i);
    let h1 = if !l { seq![i - 1] } else { e };
    let h2 = if !rt { seq![i + 1] } else { e };
    let a1 = if !l { seq![i - c - 1] } else { e };
    let a2 = if !rt { seq![i - c + 1] } else { e };
    let b1 = if !l { seq![i + c - 1] } else { e };
    let b2 = if !rt { seq![i + c + 1] } else { e };
    let above = if !on_top_edge(c, i) { seq![i - c] + a1 + a2 } else { e };
    let below = if !on_bottom_edge(c, r, i) { seq![i + c] + b1 + b2 } else { e };
    let s = neighbor_seq(c, r, i);
    assert(s == h1 + h2 + above + below);
    assert(s.contains(j) <==> (h1.contains(j) || h2.contains(j) || above.contains(j)
        || below.contains(j)));
    assert(h1.contains(j) <==> (x != 0 && j == i - 1));
    assert(h2.contains(j) <==> (x != c - 1 && j == i + 1));
    assert(above.contains(j) <==> (y != 0 && (j == i - c || (x != 0 && j == i - c - 1) || (x
        != c - 1 && j == i - c + 1))));
    assert(below.contains(j) <==> (y != r - 1 && (j == i + c || (x != 0 && j == i + c - 1) || (
    x != c - 1 && j == i + c + 1))));
    if x != 0 {
        assert(cell_index(c, x + -1, y + 0) == j <==> (x2 == x - 1 && y2 == y));
    }
    if x != c - 1 {
        assert(cell_index(c, x + 1, y + 0) == j <==> (x2 == x + 1 && y2 == y));
    }
    if y != 0 {
        assert(cell_index(c, x + 0, y + -1) == j <==> (x2 == x && y2 == y - 1));
        if x != 0 {
            assert(cell_index(c, x + -1, y + -1) == j <==> (x2 == x - 1 && y2 == y - 1));
        }
        if x != c - 1 {
            assert(cell_index(c, x + 1, y + -1) == j <==> (x2 == x + 1 && y2 == y - 1));
        }
    }
    assert(cell_index(c, x + 0, y + 1) == j <==> (x2 == x && y2 == y + 1));
    if x != 0 {
        assert(cell_index(c, x + -1, y + 1) == j <==> (x2 == x - 1 && y2 == y + 1));
    }
    if x != c - 1 {
        assert(cell_index(c, x + 1, y + 1) == j <==> (x2 == x + 1 && y2 == y + 1));
    }
}

} // verus!
