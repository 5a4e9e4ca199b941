use vstd::prelude::*;
use crate::cell::{Cell, CellType, is_mine, safe_type};

verus! {

/// Every row of `g` holds `w` cells.
pub open spec fn shaped(g: Seq<Vec<Cell>>, w: nat) -> bool {
    forall|y: int| 0 <= y < g.len() ==> (#[trigger] g[y])@.len() == w
}

pub open spec fn in_grid(g: Seq<Vec<Cell>>, x: int, y: int) -> bool {
    0 <= y < g.len() && 0 <= x < g[y]@.len()
}

/// The cell in column `x` of row `y`.
pub open spec fn cell(g: Seq<Vec<Cell>>, x: int, y: int) -> Cell {
    g[y]@[x]
}

/// Position `(x, y)` lies in the grid and holds a mine.
pub open spec fn mine_at(g: Seq<Vec<Cell>>, x: int, y: int) -> bool {
    in_grid(g, x, y) && is_mine(cell(g, x, y))
}

pub open spec fn mine_count_at(g: Seq<Vec<Cell>>, x: int, y: int) -> nat {
    if mine_at(g, x, y) {
        1
    } else {
        0
    }
}

/// Mines among columns `x - 1 ..= x + 1` of row `y`, clipped at the edges.
pub open spec fn row_mines_near(g: Seq<Vec<Cell>>, x: int, y: int) -> nat {
    mine_count_at(g, x - 1, y) + mine_count_at(g, x, y) + mine_count_at(g, x + 1, y)
}

/// Mines in the 3x3 block centred on `(x, y)`, clipped at the edges.
#[verifier::opaque]
pub open spec fn neighbor_mines(g: Seq<Vec<Cell>>, x: int, y: int) -> nat {
    row_mines_near(g, x, y - 1) + row_mines_near(g, x, y) + row_mines_near(g, x, y + 1)
}

/// Every safe cell's type agrees with the mines around it.
pub open spec fn counts_consistent(g: Seq<Vec<Cell>>) -> bool {
    forall|x: int, y: int|
        in_grid(g, x, y) && !is_mine(#[trigger] cell(g, x, y)) ==> cell(g, x, y).cell_type
            == safe_type(neighbor_mines(g, x, y))
}

/// `(a, b)` lies in the 3x3 block centred on `(x, y)`.
pub open spec fn adjacent(x: int, y: int, a: int, b: int) -> bool {
    x - 1 <= a <= x + 1 && y - 1 <= b <= y + 1
}

pub open spec fn is_flagged_mine(c: Cell) -> bool {
    c.flag && is_mine(c)
}

/// Number of flagged mines in a row.
pub open spec fn row_flagged_mines(r: Seq<Cell>) -> nat
    decreases r.len(),
{
    if r.len() == 0 {
        0
    } else {
        row_flagged_mines(r.drop_last()) + if is_flagged_mine(r.last()) {
            1nat
        } else {
            0nat
        }
    }
}

/// Number of flagged mines in a grid.
pub open spec fn flagged_mines(g: Seq<Vec<Cell>>) -> nat
    decreases g.len(),
{
    if g.len() == 0 {
        0
    } else {
        flagged_mines(g.drop_last()) + row_flagged_mines(g.last()@)
    }
}


/// `c2` is `c1`, or `c1` was a hidden, unflagged safe cell and `c2` is it shown.
pub open spec fn only_revealed(c1: Cell, c2: Cell) -> bool {
    c2 == c1 || (!c1.visible && !c1.flag && !is_mine(c1) && c2 == (Cell { visible: true, ..c1 }))
}

/// Both grids have the same rows of the same lengths.
pub open spec fn same_shape(g1: Seq<Vec<Cell>>, g2: Seq<Vec<Cell>>) -> bool {
    g1.len() == g2.len() && forall|y: int| 0 <= y < g1.len() ==> (#[trigger] g1[y])@.len() == g2[y]@.len()
}

/// `(x, y)` was hidden in `g1` and is visible in `g2`.
pub open spec fn revealed(g1: Seq<Vec<Cell>>, g2: Seq<Vec<Cell>>, x: int, y: int) -> bool {
    in_grid(g1, x, y) && !cell(g1, x, y).visible && cell(g2, x, y).visible
}

/// `(a, b)` is `(x, y)`, or ends a path of at most `k` steps from `(x, y)`
/// between adjacent cells, each but the last an empty cell that turned visible
/// between `g1` and `g2`.
pub open spec fn linked(g1: Seq<Vec<Cell>>, g2: Seq<Vec<Cell>>, x: int, y: int, a: int, b: int, k: nat) -> bool
    decreases k,
{
    (a == x && b == y) || (k > 0 && exists|c: int, d: int|
        adjacent(c, d, a, b) && #[trigger] revealed(g1, g2, c, d) && cell(g1, c, d).cell_type
            == CellType::Empty && linked(g1, g2, x, y, c, d, (k - 1) as nat))
}

pub proof fn lemma_linked_mono(
    g1: Seq<Vec<Cell>>,
    g2: Seq<Vec<Cell>>,
    h1: Seq<Vec<Cell>>,
    h2: Seq<Vec<Cell>>,
    x: int,
    y: int,
    a: int,
    b: int,
    k: nat,
)
    requires
        linked(g1, g2, x, y, a, b, k),
        forall|c: int, d: int|
            #[trigger] revealed(g1, g2, c, d) ==> revealed(h1, h2, c, d) && cell(h1, c, d).cell_type
                == cell(g1, c, d).cell_type,
    ensures
        linked(h1, h2, x, y, a, b, k),
    decreases k,
{
    if !(a == x && b == y) {
        let (c, d) = choose|c: int, d: int|
            adjacent(c, d, a, b) && #[trigger] revealed(g1, g2, c, d) && cell(g1, c, d).cell_type
                == CellType::Empty && linked(g1, g2, x, y, c, d, (k - 1) as nat);
        lemma_linked_mono(g1, g2, h1, h2, x, y, c, d, (k - 1) as nat);
        assert(revealed(h1, h2, c, d));
    }
}

/// A path from a neighbour `(nx, ny)` of an empty, newly shown `(x, y)`
/// extends to a path from `(x, y)` one step longer.
pub proof fn lemma_linked_extend(
    g1: Seq<Vec<Cell>>,
    g2: Seq<Vec<Cell>>,
    x: int,
    y: int,
    nx: int,
    ny: int,
    a: int,
    b: int,
    k: nat,
)
    requires
        linked(g1, g2, nx, ny, a, b, k),
        adjacent(x, y, nx, ny),
        revealed(g1, g2, x, y),
        cell(g1, x, y).cell_type == CellType::Empty,
    ensures
        linked(g1, g2, x, y, a, b, k + 1),
    decreases k,
{
    if a == nx && b == ny {
        assert(linked(g1, g2, x, y, x, y, k));
        assert(adjacent(x, y, a, b));
    } else {
        let (c, d) = choose|c: int, d: int|
            adjacent(c, d, a, b) && #[trigger] revealed(g1, g2, c, d) && cell(g1, c, d).cell_type
                == CellType::Empty && linked(g1, g2, nx, ny, c, d, (k - 1) as nat);
        lemma_linked_extend(g1, g2, x, y, nx, ny, c, d, (k - 1) as nat);
        assert(revealed(g1, g2, c, d));
    }
}

/// Some `i < n` has `p[i] == (x, y)`.
pub open spec fn placed(p: Seq<(usize, usize)>, n: int, x: int, y: int) -> bool {
    exists|i: int| 0 <= i < n && (#[trigger] p[i]).0 == x && p[i].1 == y
}

pub proof fn lemma_neighbors_same_mines(g1: Seq<Vec<Cell>>, g2: Seq<Vec<Cell>>, x: int, y: int)
    requires
        forall|a: int, b: int| mine_at(g1, a, b) == #[trigger] mine_at(g2, a, b),
    ensures
        neighbor_mines(g1, x, y) == neighbor_mines(g2, x, y),
{
    reveal(neighbor_mines);
    assert(mine_at(g1, x - 1, y - 1) == mine_at(g2, x - 1, y - 1));
    assert(mine_at(g1, x, y - 1) == mine_at(g2, x, y - 1));
    assert(mine_at(g1, x + 1, y - 1) == mine_at(g2, x + 1, y - 1));
    assert(mine_at(g1, x - 1, y) == mine_at(g2, x - 1, y));
    assert(mine_at(g1, x, y) == mine_at(g2, x, y));
    assert(mine_at(g1, x + 1, y) == mine_at(g2, x + 1, y));
    assert(mine_at(g1, x - 1, y + 1) == mine_at(g2, x - 1, y + 1));
    assert(mine_at(g1, x, y + 1) == mine_at(g2, x, y + 1));
    assert(mine_at(g1, x + 1, y + 1) == mine_at(g2, x + 1, y + 1));
}

/// No mine lies next to an empty cell.
pub proof fn lemma_empty_has_no_mine_near(g: Seq<Vec<Cell>>, x: int, y: int, a: int, b: int)
    requires
        counts_consistent(g),
        in_grid(g, x, y),
        cell(g, x, y).cell_type == CellType::Empty,
        adjacent(x, y, a, b),
    ensures
        !mine_at(g, a, b),
{
    assert(!is_mine(cell(g, x, y)));
    assert(neighbor_mines(g, x, y) == 0);
    lemma_no_mine_near(g, x, y, a, b);
}

proof fn lemma_no_mine_near(g: Seq<Vec<Cell>>, x: int, y: int, a: int, b: int)
    requires
        neighbor_mines(g, x, y) == 0,
        adjacent(x, y, a, b),
    ensures
        !mine_at(g, a, b),
{
    reveal(neighbor_mines);
}

/// A grid whose cells keep their types keeps the shape and the counts.
pub proof fn lemma_same_types(s: Seq<Vec<Cell>>, g: Seq<Vec<Cell>>, w: nat)
    requires
        shaped(s, w),
        counts_consistent(s),
        same_shape(s, g),
        forall|a: int, b: int|
            in_grid(s, a, b) ==> (#[trigger] cell(g, a, b)).cell_type == cell(s, a, b).cell_type,
    ensures
        shaped(g, w),
        counts_consistent(g),
        forall|a: int, b: int| mine_at(g, a, b) == #[trigger] mine_at(s, a, b),
{
    assert forall|b: int| 0 <= b < g.len() implies (#[trigger] g[b])@.len() == w by {
        assert(s[b]@.len() == w);
    }
    assert forall|a: int, b: int| mine_at(g, a, b) == #[trigger] mine_at(s, a, b) by {
        if in_grid(s, a, b) {
            assert(cell(g, a, b).cell_type == cell(s, a, b).cell_type);
        }
    }
    assert forall|a: int, b: int| in_grid(g, a, b) && !is_mine(#[trigger] cell(g, a, b)) implies cell(
        g,
        a,
        b,
    ).cell_type == safe_type(neighbor_mines(g, a, b)) by {
        assert(in_grid(s, a, b));
        assert(cell(g, a, b).cell_type == cell(s, a, b).cell_type);
        lemma_neighbors_same_mines(g, s, a, b);
    }
}

pub open spec fn flag_weight(c: Cell) -> int {
    if is_flagged_mine(c) {
        1
    } else {
        0
    }
}

pub proof fn lemma_row_update(r: Seq<Cell>, i: int, c: Cell)
    requires
        0 <= i < r.len(),
    ensures
        row_flagged_mines(r.update(i, c)) + flag_weight(r[i]) == row_flagged_mines(r) + flag_weight(c),
    decreases r.len(),
{
    let r2 = r.update(i, c);
    if i == r.len() - 1 {
        assert(r2.drop_last() =~= r.drop_last());
    } else {
        lemma_row_update(r.drop_last(), i, c);
        assert(r2.drop_last() =~= r.drop_last().update(i, c));
    }
}

pub proof fn lemma_row_same(r1: Seq<Cell>, r2: Seq<Cell>)
    requires
        r1.len() == r2.len(),
        forall|i: int| 0 <= i < r1.len() ==> is_flagged_mine(#[trigger] r1[i]) == is_flagged_mine(r2[i]),
    ensures
        row_flagged_mines(r1) == row_flagged_mines(r2),
    decreases r1.len(),
{
    if r1.len() > 0 {
        lemma_row_same(r1.drop_last(), r2.drop_last());
    }
}

pub proof fn lemma_row_bound(r: Seq<Cell>)
    ensures
        row_flagged_mines(r) <= r.len(),
    decreases r.len(),
{
    if r.len() > 0 {
        lemma_row_bound(r.drop_last());
    }
}

pub proof fn lemma_grid_update(g: Seq<Vec<Cell>>, y: int, row: Vec<Cell>)
    requires
        0 <= y < g.len(),
    ensures
        flagged_mines(g.update(y, row)) + row_flagged_mines(g[y]@) == flagged_mines(g)
            + row_flagged_mines(row@),
    decreases g.len(),
{
    let g2 = g.update(y, row);
    if y == g.len() - 1 {
        assert(g2.drop_last() =~= g.drop_last());
    } else {
        lemma_grid_update(g.drop_last(), y, row);
        assert(g2.drop_last() =~= g.drop_last().update(y, row));
    }
}

/// Two grids whose cells agree on being flagged mines hold as many of them.
pub proof fn lemma_grid_same(g1: Seq<Vec<Cell>>, g2: Seq<Vec<Cell>>)
    requires
        g1.len() == g2.len(),
        forall|y: int| 0 <= y < g1.len() ==> (#[trigger] g1[y])@.len() == g2[y]@.len(),
        forall|x: int, y: int|
            in_grid(g1, x, y) ==> is_flagged_mine(#[trigger] cell(g1, x, y)) == is_flagged_mine(
                cell(g2, x, y),
            ),
    ensures
        flagged_mines(g1) == flagged_mines(g2),
    decreases g1.len(),
{
    if g1.len() > 0 {
        let y = g1.len() - 1;
        assert forall|i: int| 0 <= i < g1[y]@.len() implies is_flagged_mine(#[trigger] g1[y]@[i])
            == is_flagged_mine(g2[y]@[i]) by {
            assert(in_grid(g1, i, y));
            assert(cell(g1, i, y) == g1[y]@[i]);
        }
        lemma_row_same(g1[y]@, g2[y]@);
        let h1 = g1.drop_last();
        let h2 = g2.drop_last();
        assert forall|x: int, b: int| in_grid(h1, x, b) implies is_flagged_mine(
            #[trigger] cell(h1, x, b),
        ) == is_flagged_mine(cell(h2, x, b)) by {
            assert(in_grid(g1, x, b));
            assert(h1[b] == g1[b] && h2[b] == g2[b]);
            assert(is_flagged_mine(cell(g1, x, b)) == is_flagged_mine(cell(g2, x, b)));
        }
        lemma_grid_same(h1, h2);
    }
}

pub proof fn lemma_grid_none(g: Seq<Vec<Cell>>)
    requires
        forall|x: int, y: int| in_grid(g, x, y) ==> !(#[trigger] cell(g, x, y)).flag,
    ensures
        flagged_mines(g) == 0,
    decreases g.len(),
{
    if g.len() > 0 {
        let y = g.len() - 1;
        let r = g[y]@;
        let z = Seq::new(r.len(), |i: int| Cell { cell_type: CellType::Empty, visible: false, flag: false, incorrect: false });
        assert forall|i: int| 0 <= i < r.len() implies is_flagged_mine(#[trigger] r[i])
            == is_flagged_mine(z[i]) by {
            assert(in_grid(g, i, y));
            assert(cell(g, i, y) == r[i]);
        }
        lemma_row_same(r, z);
        lemma_row_zero(z);
        let h = g.drop_last();
        assert forall|x: int, b: int| in_grid(h, x, b) implies !(#[trigger] cell(h, x, b)).flag by {
            assert(in_grid(g, x, b));
            assert(h[b] == g[b]);
            assert(!cell(g, x, b).flag);
        }
        lemma_grid_none(h);
    }
}

proof fn lemma_row_zero(r: Seq<Cell>)
    requires
        forall|i: int| 0 <= i < r.len() ==> !(#[trigger] r[i]).flag,
    ensures
        row_flagged_mines(r) == 0,
    decreases r.len(),
{
    if r.len() > 0 {
        lemma_row_zero(r.drop_last());
    }
}

pub proof fn lemma_grid_bound(g: Seq<Vec<Cell>>, w: nat)
    requires
        shaped(g, w),
    ensures
        flagged_mines(g) <= g.len() * w,
    decreases g.len(),
{
    if g.len() > 0 {
        lemma_grid_bound(g.drop_last(), w);
        lemma_row_bound(g.last()@);
        assert(g.last() == g[g.len() - 1]);
        assert((g.len() - 1) * w + w == g.len() * w) by (nonlinear_arith);
    }
}

} // verus!
