use vstd::prelude::*;
use rand::Rng;
use crate::cell::{Cell, CellType, is_mine, is_fresh, safe_type};
use crate::grid::{
    adjacent, cell, counts_consistent, flagged_mines, in_grid, is_flagged_mine, mine_at, neighbor_mines,
    only_revealed, placed, revealed, row_mines_near, same_shape, shaped, lemma_empty_has_no_mine_near,
    lemma_grid_bound, lemma_grid_none, lemma_grid_same, lemma_grid_update, lemma_neighbors_same_mines,
    lemma_row_update, lemma_same_types, linked, lemma_linked_mono, lemma_linked_extend,
};

verus! {

/// How deep a reveal goes on cascading into neighbours.
pub const MAX_SEARCH_DEPTH: usize = 5;

/// How many steps a cascade started at `depth` may take from its start.
pub open spec fn cascade_steps(depth: usize) -> nat {
    if depth <= MAX_SEARCH_DEPTH {
        (MAX_SEARCH_DEPTH + 1 - depth) as nat
    } else {
        0
    }
}

/// Mines among columns `x - 1 ..= x + 1` of row `y`, clipped at the edges.
fn mines_in_row(field: &Vec<Vec<Cell>>, x: usize, y: usize) -> (r: usize)
    ensures
        r == row_mines_near(field@, x as int, y as int),
{
    if y >= field.len() {
        return 0;
    }
    let row = &field[y];
    let mut r: usize = 0;
    if x > 0 && x - 1 < row.len() && matches!(row[x - 1].cell_type, CellType::Mine) {
        r += 1;
    }
    if x < row.len() && matches!(row[x].cell_type, CellType::Mine) {
        r += 1;
    }
    if row.len() > 0 && x < row.len() - 1 && matches!(row[x + 1].cell_type, CellType::Mine) {
        r += 1;
    }
    r
}

/// Relies on rand's `thread_rng().gen_range(0..n)`: a value below `n`. It
/// panics on an empty range, which `n > 0` rules out.
#[verifier::external_body]
fn random_below(n: usize) -> (r: usize)
    requires
        n > 0,
    ensures
        r < n,
{
    rand::thread_rng().gen_range(0..n)
}

#[derive(Clone, Debug)]
pub struct MineSweeper {
    field: Vec<Vec<Cell>>,
    width: usize,
    correct_flags: usize,
}

impl MineSweeper {
    /// The rows of the field, each of `spec_width()` cells.
    pub closed spec fn cells(&self) -> Seq<Vec<Cell>> {
        self.field@
    }

    pub closed spec fn spec_width(&self) -> nat {
        self.width as nat
    }

    pub closed spec fn spec_height(&self) -> nat {
        self.field@.len()
    }

    /// The field is rectangular, every safe cell holds the number of mines
    /// around it, and the running count of flagged mines is exact.
    pub closed spec fn wf(&self) -> bool {
        &&& shaped(self.field@, self.width as nat)
        &&& self.field@.len() * self.width <= usize::MAX
        &&& counts_consistent(self.field@)
        &&& self.correct_flags == flagged_mines(self.field@)
    }

    /// A field of `width` x `height` hidden cells with a mine at each of `mines`
    /// and every other cell typed by the number of mines around it. A position
    /// given twice holds one mine.
    pub fn with_mines(width: usize, height: usize, mines: &Vec<(usize, usize)>) -> (r: Self)
        requires
            width > 0,
            height > 0,
            width * height <= usize::MAX,
            forall|i: int| 0 <= i < mines@.len() ==> (#[trigger] mines@[i]).0 < width && mines@[i].1 < height,
        ensures
            r.wf(),
            r.spec_width() == width,
            r.spec_height() == height,
            r.cells().len() == height,
            shaped(r.cells(), width as nat),
            forall|x: int, y: int|
                in_grid(r.cells(), x, y) ==> (is_mine(#[trigger] cell(r.cells(), x, y)) <==> placed(
                    mines@,
                    mines@.len() as int,
                    x,
                    y,
                )),
            counts_consistent(r.cells()),
            forall|x: int, y: int|
                in_grid(r.cells(), x, y) ==> {
                    let c = #[trigger] cell(r.cells(), x, y);
                    !c.visible && !c.flag && !c.incorrect
                },
            flagged_mines(r.cells()) == 0,
    {
        let mut field: Vec<Vec<Cell>> = Vec::new();
        let mut y: usize = 0;
        while y < height
            invariant
                y <= height,
                field@.len() == y,
                shaped(field@, width as nat),
                forall|a: int, b: int| in_grid(field@, a, b) ==> is_fresh(#[trigger] cell(field@, a, b)),
            decreases height - y,
        {
            let mut row: Vec<Cell> = Vec::new();
            let mut x: usize = 0;
            while x < width
                invariant
                    x <= width,
                    row@.len() == x,
                    forall|a: int| 0 <= a < x ==> is_fresh(#[trigger] row@[a]),
                    y < height,
                    field@.len() == y,
                    shaped(field@, width as nat),
                    forall|a: int, b: int| in_grid(field@, a, b) ==> is_fresh(#[trigger] cell(field@, a, b)),
                decreases width - x,
            {
                row.push(Cell::new());
                x += 1;
            }
            let ghost before = field@;
            field.push(row);
            assert forall|a: int, b: int| in_grid(field@, a, b) implies is_fresh(#[trigger] cell(field@, a, b)) by {
                if b < y {
                    assert(field@[b] == before[b]);
                    assert(in_grid(before, a, b));
                    assert(is_fresh(cell(before, a, b)));
                    assert(cell(field@, a, b) == cell(before, a, b));
                } else {
                    assert(cell(field@, a, b) == row@[a]);
                }
            }
            y += 1;
        }
        let n = mines.len();
        let mut k: usize = 0;
        while k < n
            invariant
                n == mines@.len(),
                k <= n,
                field@.len() == height,
                shaped(field@, width as nat),
                forall|i: int| 0 <= i < mines@.len() ==> (#[trigger] mines@[i]).0 < width && mines@[i].1 < height,
                forall|a: int, b: int|
                    in_grid(field@, a, b) ==> {
                        let c = #[trigger] cell(field@, a, b);
                        &&& !c.visible && !c.flag && !c.incorrect
                        &&& is_mine(c) <==> placed(mines@, k as int, a, b)
                        &&& !is_mine(c) ==> c.cell_type == CellType::Empty
                    },
            decreases n - k,
        {
            let (px, py) = mines[k];
            let ghost before = field@;
            field[py][px].cell_type = CellType::Mine;
            assert forall|a: int, b: int| in_grid(field@, a, b) implies {
                let c = #[trigger] cell(field@, a, b);
                &&& !c.visible && !c.flag && !c.incorrect
                &&& is_mine(c) <==> placed(mines@, k + 1, a, b)
                &&& !is_mine(c) ==> c.cell_type == CellType::Empty
            } by {
                assert(in_grid(before, a, b));
                if a == px && b == py {
                    assert(mines@[k as int].0 == a && mines@[k as int].1 == b);
                } else {
                    assert(cell(field@, a, b) == cell(before, a, b));
                    if placed(mines@, k + 1, a, b) {
                        let i = choose|i: int| 0 <= i < k + 1 && (#[trigger] mines@[i]).0 == a && mines@[i].1 == b;
                        assert(i < k);
                    }
                }
            }
            k += 1;
        }
        let ghost placed_mines = field@;
        let mut y: usize = 0;
        while y < height
            invariant
                y <= height,
                field@.len() == height,
                shaped(field@, width as nat),
                width * height <= usize::MAX,
                forall|a: int, b: int| mine_at(field@, a, b) == #[trigger] mine_at(placed_mines, a, b),
                forall|a: int, b: int|
                    in_grid(field@, a, b) ==> {
                        let c = #[trigger] cell(field@, a, b);
                        &&& !c.visible && !c.flag && !c.incorrect
                        &&& is_mine(c) <==> placed(mines@, n as int, a, b)
                        &&& !is_mine(c) && b < y ==> c.cell_type == safe_type(neighbor_mines(field@, a, b))
                        &&& !is_mine(c) && b >= y ==> c.cell_type == CellType::Empty
                    },
            decreases height - y,
        {
            let mut x: usize = 0;
            while x < width
                invariant
                    x <= width,
                    y < height,
                    field@.len() == height,
                    shaped(field@, width as nat),
                    forall|a: int, b: int| mine_at(field@, a, b) == #[trigger] mine_at(placed_mines, a, b),
                    forall|a: int, b: int|
                        in_grid(field@, a, b) ==> {
                            let c = #[trigger] cell(field@, a, b);
                            &&& !c.visible && !c.flag && !c.incorrect
                            &&& is_mine(c) <==> placed(mines@, n as int, a, b)
                            &&& !is_mine(c) && (b < y || (b == y && a < x)) ==> c.cell_type == safe_type(
                                neighbor_mines(field@, a, b),
                            )
                            &&& !is_mine(c) && (b > y || (b == y && a >= x)) ==> c.cell_type == CellType::Empty
                        },
                decreases width - x,
            {
                if !matches!(field[y][x].cell_type, CellType::Mine) {
                    let count = Self::count_mines(&field, x, y);
                    let ghost before = field@;
                    field[y][x].cell_type = if count == 0 {
                        CellType::Empty
                    } else {
                        CellType::Safe(count)
                    };
                    assert forall|a: int, b: int| mine_at(field@, a, b) == #[trigger] mine_at(before, a, b) by {
                        if in_grid(field@, a, b) && !(a == x && b == y) {
                            assert(cell(field@, a, b) == cell(before, a, b));
                        }
                    }
                    assert forall|a: int, b: int| in_grid(field@, a, b) implies {
                        let c = #[trigger] cell(field@, a, b);
                        &&& !c.visible && !c.flag && !c.incorrect
                        &&& is_mine(c) <==> placed(mines@, n as int, a, b)
                        &&& !is_mine(c) && (b < y || (b == y && a < x + 1)) ==> c.cell_type == safe_type(
                            neighbor_mines(field@, a, b),
                        )
                        &&& !is_mine(c) && (b > y || (b == y && a >= x + 1)) ==> c.cell_type == CellType::Empty
                    } by {
                        assert(in_grid(before, a, b));
                        lemma_neighbors_same_mines(field@, before, a, b);
                        if !(a == x && b == y) {
                            assert(cell(field@, a, b) == cell(before, a, b));
                        }
                    }
                }
                x += 1;
            }
            y += 1;
        }
        proof {
            assert forall|a: int, b: int| in_grid(field@, a, b) implies !(#[trigger] cell(field@, a, b)).flag by {}
            lemma_grid_none(field@);
            assert forall|a: int, b: int| in_grid(field@, a, b) && !is_mine(#[trigger] cell(field@, a, b)) implies cell(field@, a, b).cell_type
                == safe_type(neighbor_mines(field@, a, b)) by {}
            assert(field@.len() * width == width * height) by (nonlinear_arith)
                requires field@.len() == height;
        }
        MineSweeper { field, width, correct_flags: 0 }
    }

    /// A `width` x `height` field with `mines` mines placed at random
    /// positions; a position drawn twice holds one mine.
    pub fn new(width: usize, height: usize, mines: usize) -> (r: Self)
        requires
            width > 0,
            height > 0,
            width * height <= usize::MAX,
        ensures
            r.wf(),
            r.spec_width() == width,
            r.spec_height() == height,
            r.cells().len() == height,
            shaped(r.cells(), width as nat),
            counts_consistent(r.cells()),
            forall|x: int, y: int|
                in_grid(r.cells(), x, y) ==> {
                    let c = #[trigger] cell(r.cells(), x, y);
                    !c.visible && !c.flag && !c.incorrect
                },
            flagged_mines(r.cells()) == 0,
            mines == 0 ==> forall|x: int, y: int|
                in_grid(r.cells(), x, y) ==> !is_mine(#[trigger] cell(r.cells(), x, y)),
            mines > 0 ==> exists|x: int, y: int|
                in_grid(r.cells(), x, y) && is_mine(#[trigger] cell(r.cells(), x, y)),
            exists|p: Seq<(usize, usize)>|
                #[trigger] p.len() == mines && (forall|i: int|
                    0 <= i < mines ==> (#[trigger] p[i]).0 < width && p[i].1 < height) && (forall|x: int, y: int|
                    in_grid(r.cells(), x, y) ==> (is_mine(#[trigger] cell(r.cells(), x, y)) <==> placed(
                        p,
                        mines as int,
                        x,
                        y,
                    ))),
    {
        let mut positions: Vec<(usize, usize)> = Vec::new();
        let mut k: usize = 0;
        while k < mines
            invariant
                k <= mines,
                width > 0,
                height > 0,
                positions@.len() == k,
                forall|i: int|
                    0 <= i < positions@.len() ==> (#[trigger] positions@[i]).0 < width && positions@[i].1
                        < height,
            decreases mines - k,
        {
            let x = random_below(width);
            let y = random_below(height);
            positions.push((x, y));
            k += 1;
        }
        let r = Self::with_mines(width, height, &positions);
        proof {
            if mines > 0 {
                let (px, py) = positions@[0];
                assert(in_grid(r.cells(), px as int, py as int));
                assert(placed(positions@, positions@.len() as int, px as int, py as int));
                assert(is_mine(cell(r.cells(), px as int, py as int)));
            }
        }
        r
    }

    pub fn width(&self) -> (r: usize)
        ensures
            r == self.spec_width(),
    {
        self.width
    }

    pub fn height(&self) -> (r: usize)
        ensures
            r == self.spec_height(),
    {
        self.field.len()
    }

    /// Number of flagged cells that hold a mine.
    pub fn correct_flags(&self) -> (r: usize)
        requires
            self.wf(),
        ensures
            r == flagged_mines(self.cells()),
    {
        self.correct_flags
    }

    /// The cell at `(x, y)`, or `None` out of the grid.
    pub fn cell_at(&self, x: usize, y: usize) -> (r: Option<Cell>)
        ensures
            r == if in_grid(self.cells(), x as int, y as int) {
                Some(cell(self.cells(), x as int, y as int))
            } else {
                None
            },
    {
        if y < self.field.len() && x < self.field[y].len() {
            Some(self.field[y][x])
        } else {
            None
        }
    }

    /// Reveals `(x, y)` and returns whether it holds a mine. Out of the grid,
    /// on a flagged cell or on a visible one nothing changes. A safe cell with
    /// no mine around it, reached at a `depth` of at most `MAX_SEARCH_DEPTH`,
    /// goes on to reveal its neighbours at `depth + 1`.
    #[verifier::rlimit(60)]
    pub fn reveal_cell(&mut self, x: usize, y: usize, depth: usize) -> (r: bool)
        requires
            old(self).wf(),
        ensures
            final(self).wf(),
            final(self).spec_width() == old(self).spec_width(),
            counts_consistent(final(self).cells()),
            same_shape(old(self).cells(), final(self).cells()),
            r == (in_grid(old(self).cells(), x as int, y as int) && {
                let c = cell(old(self).cells(), x as int, y as int);
                !c.flag && !c.visible && is_mine(c)
            }),
            flagged_mines(final(self).cells()) == flagged_mines(old(self).cells()),
            !(in_grid(old(self).cells(), x as int, y as int) && {
                let c = cell(old(self).cells(), x as int, y as int);
                !c.flag && !c.visible
            }) ==> final(self).cells() == old(self).cells(),
            in_grid(old(self).cells(), x as int, y as int) && {
                let c = cell(old(self).cells(), x as int, y as int);
                !c.flag && !c.visible
            } ==> {
                let c = cell(old(self).cells(), x as int, y as int);
                cell(final(self).cells(), x as int, y as int) == (Cell {
                    visible: true,
                    incorrect: c.incorrect || is_mine(c),
                    ..c
                })
            },
            forall|a: int, b: int|
                in_grid(old(self).cells(), a, b) && !(a == x && b == y) ==> only_revealed(
                    cell(old(self).cells(), a, b),
                    #[trigger] cell(final(self).cells(), a, b),
                ),
            in_grid(old(self).cells(), x as int, y as int) && depth <= MAX_SEARCH_DEPTH && {
                let c = cell(old(self).cells(), x as int, y as int);
                !c.flag && !c.visible && c.cell_type == CellType::Empty
            } ==> forall|a: int, b: int|
                adjacent(x as int, y as int, a, b) && in_grid(old(self).cells(), a, b) && !cell(
                    old(self).cells(),
                    a,
                    b,
                ).flag ==> (#[trigger] cell(final(self).cells(), a, b)).visible,
            in_grid(old(self).cells(), x as int, y as int) && {
                let c = cell(old(self).cells(), x as int, y as int);
                !c.flag && !c.visible && (is_mine(c) || c.cell_type != CellType::Empty || depth
                    > MAX_SEARCH_DEPTH)
            } ==> forall|a: int, b: int|
                in_grid(old(self).cells(), a, b) && !(a == x && b == y) ==> #[trigger] cell(
                    final(self).cells(),
                    a,
                    b,
                ) == cell(old(self).cells(), a, b),
            forall|a: int, b: int|
                #[trigger] revealed(old(self).cells(), final(self).cells(), a, b) ==> linked(
                    old(self).cells(),
                    final(self).cells(),
                    x as int,
                    y as int,
                    a,
                    b,
                    cascade_steps(depth),
                ),
        decreases
            if depth <= MAX_SEARCH_DEPTH { MAX_SEARCH_DEPTH + 1 - depth } else { 0 },
    {
        if y >= self.field.len() || x >= self.field[y].len() {
            return false;
        }
        let c = self.field[y][x];
        if c.flag || c.visible {
            return false;
        }
        let ghost s = self.cells();
        if matches!(c.cell_type, CellType::Mine) {
            self.field[y][x].visible = true;
            self.field[y][x].incorrect = true;
            proof {
                self.lemma_keeps_wf(s);
            }
            return true;
        }
        self.field[y][x].visible = true;
        proof {
            self.lemma_keeps_wf(s);
        }
        if depth > MAX_SEARCH_DEPTH || !matches!(c.cell_type, CellType::Empty) {
            return false;
        }
        let ghost s0 = self.cells();
        let ghost w0 = self.width;
        let height = self.field.len();
        let width = self.width;
        let mut dy: usize = 0;
        while dy < 3
            invariant
                dy <= 3,
                self.wf(),
                self.width == w0,
                height == s0.len(),
                width == w0,
                x < width,
                y < height,
                depth <= MAX_SEARCH_DEPTH,
                same_shape(s0, self.cells()),
                in_grid(s0, x as int, y as int),
                cell(s0, x as int, y as int).cell_type == CellType::Empty,
                cell(self.cells(), x as int, y as int).visible,
                forall|a: int, b: int|
                    in_grid(s0, a, b) ==> only_revealed(cell(s0, a, b), #[trigger] cell(self.cells(), a, b)),
                same_shape(s, s0),
                flagged_mines(self.cells()) == flagged_mines(s),
                !cell(s, x as int, y as int).visible,
                cell(s, x as int, y as int).cell_type == CellType::Empty,
                forall|a: int, b: int|
                    in_grid(s, a, b) && !(a == x && b == y) ==> #[trigger] cell(s0, a, b) == cell(s, a, b),
                forall|a: int, b: int|
                    #[trigger] revealed(s, self.cells(), a, b) ==> linked(s, self.cells(), x as int, y as int, a, b, cascade_steps(depth)),
                forall|a: int, b: int|
                    adjacent(x as int, y as int, a, b) && in_grid(s0, a, b) && !cell(s0, a, b).flag && b
                        < y + dy - 1 ==> (#[trigger] cell(self.cells(), a, b)).visible,
            decreases 3 - dy,
        {
            let mut dx: usize = 0;
            while dx < 3
                invariant
                    dy < 3,
                    dx <= 3,
                    self.wf(),
                    self.width == w0,
                    height == s0.len(),
                    width == w0,
                    x < width,
                    y < height,
                    depth <= MAX_SEARCH_DEPTH,
                    same_shape(s0, self.cells()),
                    in_grid(s0, x as int, y as int),
                    cell(s0, x as int, y as int).cell_type == CellType::Empty,
                    cell(self.cells(), x as int, y as int).visible,
                    forall|a: int, b: int|
                        in_grid(s0, a, b) ==> only_revealed(cell(s0, a, b), #[trigger] cell(self.cells(), a, b)),
                    same_shape(s, s0),
                    flagged_mines(self.cells()) == flagged_mines(s),
                    !cell(s, x as int, y as int).visible,
                    cell(s, x as int, y as int).cell_type == CellType::Empty,
                    forall|a: int, b: int|
                        in_grid(s, a, b) && !(a == x && b == y) ==> #[trigger] cell(s0, a, b) == cell(s, a, b),
                    forall|a: int, b: int|
                        #[trigger] revealed(s, self.cells(), a, b) ==> linked(s, self.cells(), x as int, y as int, a, b, cascade_steps(depth)),
                    forall|a: int, b: int|
                        adjacent(x as int, y as int, a, b) && in_grid(s0, a, b) && !cell(s0, a, b).flag && (b
                            < y + dy - 1 || (b == y + dy - 1 && a < x + dx - 1)) ==> (#[trigger] cell(
                            self.cells(),
                            a,
                            b,
                        )).visible,
                decreases 3 - dx,
            {
                if (dy > 0 || y > 0) && (dx > 0 || x > 0) && (dy < 2 || y < height - 1) && (dx < 2 || x
                    < width - 1) {
                    let ny = y + dy - 1;
                    let nx = x + dx - 1;
                    let ghost cur = self.cells();
                    proof {
                        assert(in_grid(cur, nx as int, ny as int));
                        assert(cell(cur, x as int, y as int).cell_type == CellType::Empty);
                        lemma_empty_has_no_mine_near(cur, x as int, y as int, nx as int, ny as int);
                    }
                    self.reveal_cell(nx, ny, depth + 1);
                    proof {
                        let t = self.cells();
                        assert forall|a: int, b: int| in_grid(s0, a, b) implies only_revealed(
                            cell(s0, a, b),
                            #[trigger] cell(t, a, b),
                        ) by {
                            assert(only_revealed(cell(s0, a, b), cell(cur, a, b)));
                            assert(in_grid(cur, a, b));
                        }
                        assert forall|c: int, d: int| in_grid(cur, c, d) && (#[trigger] cell(cur, c, d)).visible implies cell(
                            t,
                            c,
                            d,
                        ) == cell(cur, c, d) by {}
                        assert forall|c: int, d: int| #[trigger] revealed(s, cur, c, d) implies revealed(s, t, c, d)
                            && cell(s, c, d).cell_type == cell(s, c, d).cell_type by {
                            assert(in_grid(cur, c, d));
                        }
                        assert forall|c: int, d: int| #[trigger] revealed(cur, t, c, d) implies revealed(s, t, c, d)
                            && cell(s, c, d).cell_type == cell(cur, c, d).cell_type by {
                            assert(in_grid(s0, c, d));
                            assert(only_revealed(cell(s0, c, d), cell(cur, c, d)));
                            if c == x && d == y {
                                assert(cell(cur, c, d).visible);
                            }
                        }
                        assert forall|a: int, b: int| #[trigger] revealed(s, t, a, b) implies linked(
                            s,
                            t,
                            x as int,
                            y as int,
                            a,
                            b,
                            cascade_steps(depth),
                        ) by {
                            assert(in_grid(s0, a, b));
                            assert(in_grid(cur, a, b));
                            if revealed(s, cur, a, b) {
                                lemma_linked_mono(s, cur, s, t, x as int, y as int, a, b, cascade_steps(depth));
                            } else {
                                assert(revealed(cur, t, a, b));
                                lemma_linked_mono(
                                    cur,
                                    t,
                                    s,
                                    t,
                                    nx as int,
                                    ny as int,
                                    a,
                                    b,
                                    cascade_steps((depth + 1) as usize),
                                );
                                assert(revealed(s, t, x as int, y as int));
                                lemma_linked_extend(
                                    s,
                                    t,
                                    x as int,
                                    y as int,
                                    nx as int,
                                    ny as int,
                                    a,
                                    b,
                                    cascade_steps((depth + 1) as usize),
                                );
                            }
                        }
                    }
                }
                dx += 1;
            }
            dy += 1;
        }
        false
    }

    /// The new field differs from `s` only in which cells are visible or
    /// marked incorrect; it is then well formed as `s` was.
    proof fn lemma_keeps_wf(&self, s: Seq<Vec<Cell>>)
        requires
            shaped(s, self.width as nat),
            s.len() * self.width <= usize::MAX,
            counts_consistent(s),
            self.correct_flags == flagged_mines(s),
            same_shape(s, self.field@),
            forall|a: int, b: int|
                in_grid(s, a, b) ==> {
                    let c1 = cell(s, a, b);
                    let c2 = #[trigger] cell(self.field@, a, b);
                    c2.cell_type == c1.cell_type && c2.flag == c1.flag
                },
        ensures
            self.wf(),
    {
        let g = self.field@;
        lemma_same_types(s, g, self.width as nat);
        assert forall|a: int, b: int| in_grid(s, a, b) implies is_flagged_mine(#[trigger] cell(s, a, b))
            == is_flagged_mine(cell(g, a, b)) by {}
        lemma_grid_same(s, g);
    }

    /// Toggles the flag on a hidden cell; out of the grid or on a visible
    /// cell nothing changes.
    pub fn flag(&mut self, x: usize, y: usize)
        requires
            old(self).wf(),
        ensures
            final(self).wf(),
            final(self).spec_width() == old(self).spec_width(),
            counts_consistent(final(self).cells()),
            same_shape(old(self).cells(), final(self).cells()),
            !(in_grid(old(self).cells(), x as int, y as int) && !cell(
                old(self).cells(),
                x as int,
                y as int,
            ).visible) ==> final(self).cells() == old(self).cells(),
            in_grid(old(self).cells(), x as int, y as int) && !cell(
                old(self).cells(),
                x as int,
                y as int,
            ).visible ==> {
                let c = cell(old(self).cells(), x as int, y as int);
                cell(final(self).cells(), x as int, y as int) == (Cell { flag: !c.flag, ..c })
            },
            flagged_mines(final(self).cells()) as int == if in_grid(old(self).cells(), x as int, y as int) && {
                let c = cell(old(self).cells(), x as int, y as int);
                !c.visible && is_mine(c)
            } {
                if cell(old(self).cells(), x as int, y as int).flag {
                    flagged_mines(old(self).cells()) - 1int
                } else {
                    flagged_mines(old(self).cells()) + 1int
                }
            } else {
                flagged_mines(old(self).cells()) as int
            },
            forall|a: int, b: int|
                in_grid(old(self).cells(), a, b) && !(a == x && b == y) ==> #[trigger] cell(
                    final(self).cells(),
                    a,
                    b,
                ) == cell(old(self).cells(), a, b),
    {
        if y >= self.field.len() || x >= self.field[y].len() {
            return;
        }
        let c = self.field[y][x];
        if c.visible {
            return;
        }
        let ghost s = self.cells();
        self.field[y][x].flag = !c.flag;
        proof {
            let g = self.field@;
            lemma_same_types(s, g, self.width as nat);
            lemma_row_update(s[y as int]@, x as int, g[y as int]@[x as int]);
            assert(g[y as int]@ =~= s[y as int]@.update(x as int, g[y as int]@[x as int]));
            lemma_grid_update(s, y as int, g[y as int]);
            assert(g =~= s.update(y as int, g[y as int]));
            lemma_grid_bound(g, self.width as nat);
        }
        if matches!(c.cell_type, CellType::Mine) {
            if !c.flag {
                self.correct_flags += 1;
            } else {
                self.correct_flags -= 1;
            }
        }
    }

    /// Shows every cell and marks each flagged cell that holds no mine as
    /// incorrect.
    pub fn reveal_all(&mut self)
        requires
            old(self).wf(),
        ensures
            final(self).wf(),
            flagged_mines(final(self).cells()) == flagged_mines(old(self).cells()),
            final(self).spec_width() == old(self).spec_width(),
            counts_consistent(final(self).cells()),
            same_shape(old(self).cells(), final(self).cells()),
            forall|a: int, b: int|
                in_grid(old(self).cells(), a, b) ==> {
                    let c = cell(old(self).cells(), a, b);
                    #[trigger] cell(final(self).cells(), a, b) == (Cell {
                        visible: true,
                        incorrect: c.incorrect || (c.flag && !is_mine(c)),
                        ..c
                    })
                },
    {
        let ghost s = self.cells();
        let ghost w0 = self.width;
        let height = self.field.len();
        let mut y: usize = 0;
        while y < height
            invariant
                y <= height,
                height == s.len(),
                self.width == w0,
                shaped(s, self.width as nat),
                same_shape(s, self.field@),
                s.len() * self.width <= usize::MAX,
                counts_consistent(s),
                self.correct_flags == flagged_mines(s),
                forall|a: int, b: int|
                    in_grid(s, a, b) ==> {
                        let c = cell(s, a, b);
                        #[trigger] cell(self.field@, a, b) == if b < y {
                            Cell { visible: true, incorrect: c.incorrect || (c.flag && !is_mine(c)), ..c }
                        } else {
                            c
                        }
                    },
            decreases height - y,
        {
            let width = self.field[y].len();
            let mut x: usize = 0;
            while x < width
                invariant
                    x <= width,
                    y < height,
                    width == s[y as int]@.len(),
                    height == s.len(),
                    self.width == w0,
                    shaped(s, self.width as nat),
                    same_shape(s, self.field@),
                    s.len() * self.width <= usize::MAX,
                    counts_consistent(s),
                    self.correct_flags == flagged_mines(s),
                    forall|a: int, b: int|
                        in_grid(s, a, b) ==> {
                            let c = cell(s, a, b);
                            #[trigger] cell(self.field@, a, b) == if b < y || (b == y && a < x) {
                                Cell { visible: true, incorrect: c.incorrect || (c.flag && !is_mine(c)), ..c }
                            } else {
                                c
                            }
                        },
                decreases width - x,
            {
                let ghost before = self.field@;
                let c = self.field[y][x];
                self.field[y][x].visible = true;
                if c.flag && !matches!(c.cell_type, CellType::Mine) {
                    self.field[y][x].incorrect = true;
                }
                proof {
                    assert forall|a: int, b: int| in_grid(s, a, b) implies {
                        let c = cell(s, a, b);
                        #[trigger] cell(self.field@, a, b) == if b < y || (b == y && a < x + 1) {
                            Cell { visible: true, incorrect: c.incorrect || (c.flag && !is_mine(c)), ..c }
                        } else {
                            c
                        }
                    } by {
                        assert(in_grid(before, a, b));
                        if !(a == x && b == y) {
                            assert(cell(self.field@, a, b) == cell(before, a, b));
                        }
                    }
                }
                x += 1;
            }
            y += 1;
        }
        proof {
            self.lemma_keeps_wf(s);
        }
    }

    /// Whether the flagged mines number `total_mines`.
    pub fn is_win(&self, total_mines: usize) -> (r: bool)
        requires
            self.wf(),
        ensures
            r == (flagged_mines(self.cells()) == total_mines),
    {
        self.correct_flags == total_mines
    }

    /// Number of mines in the clipped 3x3 block around `(x, y)`.
    pub fn count_mines(field: &Vec<Vec<Cell>>, x: usize, y: usize) -> (r: usize)
        ensures
            r == neighbor_mines(field@, x as int, y as int),
    {
        proof {
            reveal(neighbor_mines);
        }
        let mut r = mines_in_row(field, x, y);
        if y > 0 {
            r = r + mines_in_row(field, x, y - 1);
        }
        if field.len() > 0 && y < field.len() - 1 {
            r = r + mines_in_row(field, x, y + 1);
        }
        r
    }
}

} // verus!
