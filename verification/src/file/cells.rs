//! The dual cell-set model: a sparse list of alive-cell offsets
//! (`CellList`) and a dense bounded grid (`CellTable`), with the
//! conversions between them.

use vstd::prelude::*;
use crate::CellState;

verus! {

/// Largest table dimension the conversions handle; keeps all index
/// arithmetic inside `isize`/`usize` on every machine.
pub open spec fn dim_limit() -> int {
    0x1000_0000
}

/// The x coordinates of a cell sequence, as mathematical integers.
pub open spec fn xs(cells: Seq<(isize, isize)>) -> Seq<int> {
    cells.map_values(|c: (isize, isize)| c.0 as int)
}

/// The y coordinates of a cell sequence, as mathematical integers.
pub open spec fn ys(cells: Seq<(isize, isize)>) -> Seq<int> {
    cells.map_values(|c: (isize, isize)| c.1 as int)
}

/// A sparse pattern: the alive cells only, stored as offsets from `origin`.
pub struct CellList {
    pub cells: Vec<(isize, isize)>,
    pub origin: (isize, isize),
}

/// A dense pattern: every cell of a `width` by `height` grid, alive or
/// dead, with row `y` of `cells` holding the cell at `(x, y)` at index `x`.
pub struct CellTable {
    pub cells: Vec<Vec<CellState>>,
    pub width: usize,
    pub height: usize,
}

/// A pattern's cell data in whichever representation was cheapest to
/// produce; consumers normalise through `into_cell_list` or
/// `into_cell_table`.
pub enum Cells {
    List(CellList),
    Table(CellTable),
}

impl CellList {
    /// The bounding box of the offsets fits a table whose dimensions the
    /// conversions can allocate and index.
    pub open spec fn dims_ok(self) -> bool {
        self.cells@.len() == 0 || {
            &&& xs(self.cells@).max() - xs(self.cells@).min() + 1 <= dim_limit()
            &&& ys(self.cells@).max() - ys(self.cells@).min() + 1 <= dim_limit()
        }
    }

    /// Append one alive cell.
    pub fn push(&mut self, value: (isize, isize))
        ensures
            final(self).cells@ == old(self).cells@.push(value),
            final(self).origin == old(self).origin,
    {
        self.cells.push(value)
    }
}

impl Default for CellList {
    /// An empty list with the origin at `(0, 0)`.
    fn default() -> (r: CellList)
        ensures
            r.cells@.len() == 0,
            r.origin == ((0isize, 0isize)),
    {
        CellList { cells: Vec::new(), origin: (0, 0) }
    }
}

impl CellTable {
    /// The grid is rectangular with the stated dimensions, and those
    /// dimensions are small enough for safe index arithmetic.
    pub open spec fn wf(self) -> bool {
        &&& self.cells@.len() == self.height
        &&& forall|y: int| 0 <= y < self.height ==> self.cells@[y]@.len() == self.width
        &&& self.width <= dim_limit()
        &&& self.height <= dim_limit()
    }

    /// The state of the cell at `(x, y)`.
    pub open spec fn cell(self, x: int, y: int) -> CellState {
        self.cells@[y]@[x]
    }
}

impl Default for CellTable {
    /// The zero-area table.
    fn default() -> (r: CellTable)
        ensures
            r.wf(),
            r.width == 0,
            r.height == 0,
    {
        CellTable { cells: Vec::new(), width: 0, height: 0 }
    }
}

impl Default for Cells {
    /// The zero-area table.
    fn default() -> (r: Cells)
        ensures
            r is Table,
            r->Table_0.wf(),
            r->Table_0.width == 0,
            r->Table_0.height == 0,
    {
        Cells::Table(CellTable::default())
    }
}

/// `table` is the dense form of the offsets in `list`: its dimensions are
/// the offsets' bounding box, and a cell is alive exactly when the
/// corresponding offset occurs in the list.  An empty list gives the
/// zero-area table.
pub open spec fn table_of(list: CellList, table: CellTable) -> bool {
    &&& table.wf()
    &&& if list.cells@.len() == 0 {
        table.width == 0 && table.height == 0
    } else {
        &&& table.width == xs(list.cells@).max() - xs(list.cells@).min() + 1
        &&& table.height == ys(list.cells@).max() - ys(list.cells@).min() + 1
        &&& forall|x: int, y: int|
            0 <= x < table.width && 0 <= y < table.height ==> (table.cell(x, y)
                == CellState::Alive <==> list.cells@.contains(
                (
                    (x + xs(list.cells@).min()) as isize,
                    (y + ys(list.cells@).min()) as isize,
                ),
            ))
    }
}

/// The alive cells of a table as offsets from its centre, in row-major
/// order starting at position `(x, y)`.
pub open spec fn table_cells_rm(t: CellTable, x: int, y: int) -> Seq<(isize, isize)>
    decreases t.height - y, t.width - x,
{
    if y < 0 || y >= t.height || x < 0 {
        Seq::empty()
    } else if x >= t.width {
        table_cells_rm(t, 0, y + 1)
    } else if t.cell(x, y) == CellState::Alive {
        seq![(((x - t.width / 2) as isize), ((y - t.height / 2) as isize))] + table_cells_rm(
            t,
            x + 1,
            y,
        )
    } else {
        table_cells_rm(t, x + 1, y)
    }
}

/// `list` is the sparse form of `table`: the origin is the table's
/// centre, and the offsets are exactly the alive cells of the table,
/// shifted by that origin, without duplicates.
pub open spec fn list_of(table: CellTable, list: CellList) -> bool {
    &&& list.origin == (((table.width / 2) as isize, (table.height / 2) as isize))
    &&& list.cells@.no_duplicates()
    &&& forall|p: (isize, isize)|
        #[trigger] list.cells@.contains(p) <==> {
            &&& 0 <= p.0 + table.width / 2 < table.width
            &&& 0 <= p.1 + table.height / 2 < table.height
            &&& table.cell(p.0 + table.width / 2, p.1 + table.height / 2) == CellState::Alive
        }
}

impl Cells {
    /// Whether the held representation is well formed.
    pub open spec fn wf(self) -> bool {
        match self {
            Cells::List(_) => true,
            Cells::Table(t) => t.wf(),
        }
    }

    /// Whether the dense form of the held cells can be allocated.
    pub open spec fn dims_ok(self) -> bool {
        match self {
            Cells::List(l) => l.dims_ok(),
            Cells::Table(t) => t.wf(),
        }
    }

    /// Normalise to the sparse form.
    pub fn into_cell_list(self) -> (r: CellList)
        requires
            self.wf(),
        ensures
            self is List ==> r == self->List_0,
            self is Table ==> list_of(self->Table_0, r) && r.cells@ == table_cells_rm(
                self->Table_0,
                0,
                0,
            ),
    {
        match self {
            Cells::List(list) => list,
            Cells::Table(table) => cell_list_of_table(&table),
        }
    }

    /// Normalise to the dense form.
    pub fn into_cell_table(self) -> (r: CellTable)
        requires
            self.wf(),
            self.dims_ok(),
        ensures
            self is Table ==> r == self->Table_0,
            self is List ==> table_of(self->List_0, r),
    {
        match self {
            Cells::List(list) => cell_table_of_list(&list),
            Cells::Table(table) => table,
        }
    }
}

/// Compute the dense form of a sparse cell list.
pub fn cell_table_of_list(list: &CellList) -> (r: CellTable)
    requires
        list.dims_ok(),
    ensures
        table_of(*list, r),
{
    let cs = &list.cells;
    if cs.len() == 0 {
        return CellTable { cells: Vec::new(), width: 0, height: 0 };
    }
    let ghost cseq = cs@;
    // Bounding box.
    let first = cs[0];
    let mut min_x: isize = first.0;
    let mut max_x: isize = first.0;
    let mut min_y: isize = first.1;
    let mut max_y: isize = first.1;
    let mut i: usize = 1;
    while i < cs.len()
        invariant
            1 <= i <= cseq.len(),
            cseq == cs@,
            forall|k: int|
                0 <= k < i ==> min_x <= #[trigger] cseq[k].0 && cseq[k].0 <= max_x && min_y
                    <= cseq[k].1 && cseq[k].1 <= max_y,
            exists|k: int| 0 <= k < i && #[trigger] cseq[k].0 == min_x,
            exists|k: int| 0 <= k < i && #[trigger] cseq[k].0 == max_x,
            exists|k: int| 0 <= k < i && #[trigger] cseq[k].1 == min_y,
            exists|k: int| 0 <= k < i && #[trigger] cseq[k].1 == max_y,
        decreases cs.len() - i,
    {
        let c = cs[i];
        if c.0 < min_x {
            min_x = c.0;
        }
        if c.0 > max_x {
            max_x = c.0;
        }
        if c.1 < min_y {
            min_y = c.1;
        }
        if c.1 > max_y {
            max_y = c.1;
        }
        i = i + 1;
    }
    proof {
        lemma_extrema(cseq, min_x as int, max_x as int, min_y as int, max_y as int);
    }
    // Allocate the all-dead grid.
    let width: usize = ((max_x - min_x) as usize) + 1;
    let height: usize = ((max_y - min_y) as usize) + 1;
    let mut grid: Vec<Vec<CellState>> = Vec::new();
    let mut y: usize = 0;
    while y < height
        invariant
            y <= height,
            grid@.len() == y,
            forall|b: int| 0 <= b < y ==> grid@[b]@.len() == width,
            forall|b: int, a: int|
                0 <= b < y && 0 <= a < width ==> grid@[b]@[a] == CellState::Dead,
        decreases height - y,
    {
        let mut row: Vec<CellState> = Vec::new();
        let mut x: usize = 0;
        while x < width
            invariant
                x <= width,
                row@.len() == x,
                forall|a: int| 0 <= a < x ==> row@[a] == CellState::Dead,
            decreases width - x,
        {
            row.push(CellState::Dead);
            x = x + 1;
        }
        grid.push(row);
        y = y + 1;
    }
    // Mark the alive cells.
    let mut i: usize = 0;
    while i < cs.len()
        invariant
            i <= cseq.len(),
            cseq == cs@,
            cseq.len() > 0,
            min_x as int == xs(cseq).min(),
            max_x as int == xs(cseq).max(),
            min_y as int == ys(cseq).min(),
            max_y as int == ys(cseq).max(),
            width == max_x - min_x + 1,
            height == max_y - min_y + 1,
            width <= dim_limit(),
            height <= dim_limit(),
            forall|k: int|
                0 <= k < cseq.len() ==> min_x <= #[trigger] cseq[k].0 <= max_x && min_y
                    <= cseq[k].1 <= max_y,
            grid@.len() == height,
            forall|b: int| 0 <= b < height ==> grid@[b]@.len() == width,
            forall|b: int, a: int|
                0 <= b < height && 0 <= a < width ==> (grid@[b]@[a] == CellState::Alive
                    <==> cseq.subrange(0, i as int).contains(
                    (((a + min_x) as isize), ((b + min_y) as isize)),
                )),
        decreases cs.len() - i,
    {
        let c = cs[i];
        let tx: usize = (c.0 - min_x) as usize;
        let ty: usize = (c.1 - min_y) as usize;
        let ghost old_grid = grid@;
        grid[ty][tx] = CellState::Alive;
        proof {
            assert(grid@[ty as int]@ =~= old_grid[ty as int]@.update(tx as int, CellState::Alive));
        }
        proof {
            let pre = cseq.subrange(0, i as int);
            let post = cseq.subrange(0, i + 1);
            assert(post.drop_last() =~= pre);
            assert(post.last() == cseq[i as int]);
            assert forall|b: int, a: int|
                0 <= b < height && 0 <= a < width implies (grid@[b]@[a] == CellState::Alive
                <==> post.contains((((a + min_x) as isize), ((b + min_y) as isize)))) by {
                let p = (((a + min_x) as isize), ((b + min_y) as isize));
                if b == ty as int && a == tx as int {
                    assert(p == cseq[i as int]);
                    assert(post[i as int] == p);
                    assert(post.contains(p));
                } else {
                    assert(grid@[b]@[a] == old_grid[b]@[a]);
                    if post.contains(p) {
                        let k = choose|k: int| 0 <= k < post.len() && post[k] == p;
                        if k == i as int {
                            assert(false);
                        } else {
                            assert(pre[k] == p);
                            assert(pre.contains(p));
                        }
                    }
                    if pre.contains(p) {
                        let k = choose|k: int| 0 <= k < pre.len() && pre[k] == p;
                        assert(post[k] == p);
                    }
                }
            }
        }
        i = i + 1;
    }
    proof {
        assert(cseq.subrange(0, cseq.len() as int) =~= cseq);
    }
    CellTable { cells: grid, width, height }
}

/// Extrema computed by scanning equal the sequence extrema.
proof fn lemma_extrema(cseq: Seq<(isize, isize)>, min_x: int, max_x: int, min_y: int, max_y: int)
    requires
        cseq.len() > 0,
        forall|k: int|
            0 <= k < cseq.len() ==> min_x <= #[trigger] cseq[k].0 && cseq[k].0 <= max_x && min_y
                <= cseq[k].1 && cseq[k].1 <= max_y,
        exists|k: int| 0 <= k < cseq.len() && #[trigger] cseq[k].0 == min_x,
        exists|k: int| 0 <= k < cseq.len() && #[trigger] cseq[k].0 == max_x,
        exists|k: int| 0 <= k < cseq.len() && #[trigger] cseq[k].1 == min_y,
        exists|k: int| 0 <= k < cseq.len() && #[trigger] cseq[k].1 == max_y,
    ensures
        xs(cseq).min() == min_x,
        xs(cseq).max() == max_x,
        ys(cseq).min() == min_y,
        ys(cseq).max() == max_y,
{
    let xseq = xs(cseq);
    let yseq = ys(cseq);
    xseq.min_ensures();
    xseq.max_ensures();
    yseq.min_ensures();
    yseq.max_ensures();
    assert(xseq.len() == cseq.len());
    assert(forall|k: int| 0 <= k < cseq.len() ==> xseq[k] == #[trigger] cseq[k].0 as int);
    assert(forall|k: int| 0 <= k < cseq.len() ==> yseq[k] == #[trigger] cseq[k].1 as int);
    // min_x is attained and is a lower bound, so it is the minimum.
    let kx = choose|k: int| 0 <= k < cseq.len() && #[trigger] cseq[k].0 == min_x;
    assert(xseq[kx] == min_x);
    let kminx = choose|k: int| 0 <= k < xseq.len() && xseq[k] == xseq.min();
    assert(xseq.contains(xseq.min()));
    assert(cseq[kminx].0 >= min_x);
    let kx2 = choose|k: int| 0 <= k < cseq.len() && #[trigger] cseq[k].0 == max_x;
    assert(xseq[kx2] == max_x);
    let kmaxx = choose|k: int| 0 <= k < xseq.len() && xseq[k] == xseq.max();
    assert(xseq.contains(xseq.max()));
    assert(cseq[kmaxx].0 <= max_x);
    let ky = choose|k: int| 0 <= k < cseq.len() && #[trigger] cseq[k].1 == min_y;
    assert(yseq[ky] == min_y);
    let kminy = choose|k: int| 0 <= k < yseq.len() && yseq[k] == yseq.min();
    assert(yseq.contains(yseq.min()));
    assert(min_x <= cseq[kminy].0);
    assert(cseq[kminy].1 >= min_y);
    let ky2 = choose|k: int| 0 <= k < cseq.len() && #[trigger] cseq[k].1 == max_y;
    assert(yseq[ky2] == max_y);
    let kmaxy = choose|k: int| 0 <= k < yseq.len() && yseq[k] == yseq.max();
    assert(yseq.contains(yseq.max()));
    assert(min_x <= cseq[kmaxy].0);
    assert(cseq[kmaxy].1 <= max_y);
}

/// Compute the sparse form of a dense table, the origin at the table's
/// centre.
pub fn cell_list_of_table(table: &CellTable) -> (r: CellList)
    requires
        table.wf(),
    ensures
        list_of(*table, r),
        r.cells@ == table_cells_rm(*table, 0, 0),
{
    let ox: isize = (table.width / 2) as isize;
    let oy: isize = (table.height / 2) as isize;
    let mut cells: Vec<(isize, isize)> = Vec::new();
    let mut y: usize = 0;
    while y < table.height
        invariant
            table.wf(),
            y <= table.height,
            ox as int == table.width / 2,
            oy as int == table.height / 2,
            cells@.no_duplicates(),
            forall|k: int|
                0 <= k < cells@.len() ==> {
                    let p = #[trigger] cells@[k];
                    &&& 0 <= p.0 + ox < table.width
                    &&& 0 <= p.1 + oy < y
                    &&& table.cell(p.0 + ox, p.1 + oy) == CellState::Alive
                },
            forall|a: int, b: int|
                0 <= a < table.width && 0 <= b < y && table.cell(a, b) == CellState::Alive
                    ==> cells@.contains((((a - ox) as isize), ((b - oy) as isize))),
            table_cells_rm(*table, 0, 0) == cells@ + table_cells_rm(*table, 0, y as int),
        decreases table.height - y,
    {
        let row = &table.cells[y];
        let mut x: usize = 0;
        while x < table.width
            invariant
                table.wf(),
                y < table.height,
                x <= table.width,
                row == &table.cells[y as int],
                ox as int == table.width / 2,
                oy as int == table.height / 2,
                cells@.no_duplicates(),
                forall|k: int|
                    0 <= k < cells@.len() ==> {
                        let p = #[trigger] cells@[k];
                        &&& 0 <= p.0 + ox < table.width
                        &&& (p.1 + oy < y || (p.1 + oy == y && p.0 + ox < x))
                        &&& 0 <= p.1 + oy
                        &&& table.cell(p.0 + ox, p.1 + oy) == CellState::Alive
                    },
                forall|a: int, b: int|
                    0 <= a < table.width && 0 <= b < y && table.cell(a, b) == CellState::Alive
                        ==> cells@.contains((((a - ox) as isize), ((b - oy) as isize))),
                forall|a: int|
                    0 <= a < x && table.cell(a, y as int) == CellState::Alive ==> cells@.contains(
                        (((a - ox) as isize), ((y - oy) as isize)),
                    ),
                table_cells_rm(*table, 0, 0) == cells@ + table_cells_rm(
                    *table,
                    x as int,
                    y as int,
                ),
            decreases table.width - x,
        {
            if row[x] == CellState::Alive {
                let p: (isize, isize) = (x as isize - ox, y as isize - oy);
                let ghost old_cells = cells@;
                cells.push(p);
                proof {
                    assert(cells@ =~= old_cells.push(p));
                    assert(p.0 + ox == x as int && p.1 + oy == y as int);
                    assert(p == ((((x - table.width / 2) as int) as isize), (((
                    y - table.height / 2) as int) as isize)));
                    assert(table_cells_rm(*table, x as int, y as int) == seq![p]
                        + table_cells_rm(*table, x + 1, y as int));
                    assert(cells@ + table_cells_rm(*table, x + 1, y as int) =~= old_cells
                        + table_cells_rm(*table, x as int, y as int));
                    // The new offset is not yet present: all earlier ones
                    // come from earlier grid positions.
                    assert forall|k: int| 0 <= k < old_cells.len() implies old_cells[k] != p by {
                        let q = old_cells[k];
                        assert(q.1 + oy < y || (q.1 + oy == y && q.0 + ox < x));
                    }
                    assert(cells@.no_duplicates());
                    assert forall|a: int|
                        0 <= a < x + 1 && table.cell(a, y as int) == CellState::Alive
                        implies cells@.contains((((a - ox) as isize), ((y - oy) as isize))) by {
                        if a < x {
                            assert(old_cells.contains((((a - ox) as isize), ((y - oy) as isize))));
                            let k = choose|k: int|
                                0 <= k < old_cells.len() && old_cells[k] == (
                                ((a - ox) as isize),
                                ((y - oy) as isize),
                            );
                            assert(cells@[k] == old_cells[k]);
                        } else {
                            assert(cells@[old_cells.len() as int] == p);
                        }
                    }
                    // Offsets recorded for earlier rows stay present.
                    assert forall|a: int, b: int|
                        0 <= a < table.width && 0 <= b < y && table.cell(a, b) == CellState::Alive
                        implies cells@.contains((((a - ox) as isize), ((b - oy) as isize))) by {
                        assert(old_cells.contains((((a - ox) as isize), ((b - oy) as isize))));
                        let k = choose|k: int|
                            0 <= k < old_cells.len() && old_cells[k] == (
                            ((a - ox) as isize),
                            ((b - oy) as isize),
                        );
                        assert(cells@[k] == old_cells[k]);
                    }
                }
            }
            x = x + 1;
        }
        proof {
            assert forall|a: int, b: int|
                0 <= a < table.width && 0 <= b < y + 1 && table.cell(a, b) == CellState::Alive
                implies cells@.contains((((a - ox) as isize), ((b - oy) as isize))) by {
                if b == y as int {
                    assert(cells@.contains((((a - ox) as isize), ((y - oy) as isize))));
                }
            }
            assert(table_cells_rm(*table, table.width as int, y as int) == table_cells_rm(
                *table,
                0,
                y + 1,
            ));
        }
        y = y + 1;
    }
    proof {
        assert(table_cells_rm(*table, 0, table.height as int) =~= Seq::<(isize, isize)>::empty());
        assert(cells@ =~= table_cells_rm(*table, 0, 0));
        assert forall|p: (isize, isize)| #[trigger]
            cells@.contains(p) <==> {
                &&& 0 <= p.0 + table.width / 2 < table.width
                &&& 0 <= p.1 + table.height / 2 < table.height
                &&& table.cell(p.0 + table.width / 2, p.1 + table.height / 2) == CellState::Alive
            } by {
            if cells@.contains(p) {
                let k = choose|k: int| 0 <= k < cells@.len() && cells@[k] == p;
            } else {
                if 0 <= p.0 + table.width / 2 < table.width && 0 <= p.1 + table.height / 2
                    < table.height && table.cell(p.0 + table.width / 2, p.1 + table.height / 2)
                    == CellState::Alive {
                    let a = p.0 + table.width / 2;
                    let b = p.1 + table.height / 2;
                    assert(cells@.contains((((a - ox) as isize), ((b - oy) as isize))));
                    assert(p == (((a - ox) as isize), ((b - oy) as isize)));
                    assert(false);
                }
            }
        }
    }
    CellList { cells, origin: (ox, oy) }
}

/// The width of the dense form of the held cells.
pub open spec fn cells_width(c: Cells) -> int {
    match c {
        Cells::Table(t) => t.width as int,
        Cells::List(l) => if l.cells@.len() == 0 {
            0
        } else {
            xs(l.cells@).max() - xs(l.cells@).min() + 1
        },
    }
}

/// The height of the dense form of the held cells.
pub open spec fn cells_height(c: Cells) -> int {
    match c {
        Cells::Table(t) => t.height as int,
        Cells::List(l) => if l.cells@.len() == 0 {
            0
        } else {
            ys(l.cells@).max() - ys(l.cells@).min() + 1
        },
    }
}

/// The state at position `(x, y)` of the dense form of the held cells.
pub open spec fn cells_at(c: Cells, x: int, y: int) -> CellState {
    match c {
        Cells::Table(t) => t.cell(x, y),
        Cells::List(l) => if l.cells@.contains(
            (((x + xs(l.cells@).min()) as isize), ((y + ys(l.cells@).min()) as isize)),
        ) {
            CellState::Alive
        } else {
            CellState::Dead
        },
    }
}

/// The table `into_cell_table` yields is exactly the dense form that
/// `cells_width`, `cells_height` and `cells_at` describe.
pub proof fn lemma_into_table_form(c: Cells, t: CellTable)
    requires
        c.wf(),
        c is Table ==> t == c->Table_0,
        c is List ==> table_of(c->List_0, t),
    ensures
        t.width == cells_width(c),
        t.height == cells_height(c),
        forall|x: int, y: int|
            0 <= x < t.width && 0 <= y < t.height ==> t.cell(x, y) == cells_at(c, x, y),
{
    match c {
        Cells::Table(_) => {
        },
        Cells::List(l) => {
            if l.cells@.len() == 0 {
            } else {
                assert forall|x: int, y: int|
                    0 <= x < t.width && 0 <= y < t.height implies t.cell(x, y) == cells_at(
                    c,
                    x,
                    y,
                ) by {
                    assert(t.cell(x, y) == CellState::Alive <==> l.cells@.contains(
                        (
                            ((x + xs(l.cells@).min()) as isize),
                            ((y + ys(l.cells@).min()) as isize),
                        ),
                    ));
                }
            }
        },
    }
}

/// The cells a pattern serialises or places: a sparse list as it
/// stands, a dense table in row-major order of its alive cells.
pub open spec fn serialised_list(cells: Cells) -> Seq<(isize, isize)> {
    match cells {
        Cells::List(l) => l.cells@,
        Cells::Table(t) => table_cells_rm(t, 0, 0),
    }
}

/// The cell sequence holds the coordinate pair `(a, b)`.
pub open spec fn contains_cell(cells: Seq<(isize, isize)>, a: int, b: int) -> bool {
    exists|k: int| 0 <= k < cells.len() && cells[k].0 == a && cells[k].1 == b
}

/// Round-trip law of the cell-set model: converting a sparse list to the
/// dense table and back yields exactly the original set of alive cells,
/// shifted by one uniform translation (the translation re-centres the
/// offsets on the table's geometric centre).
pub proof fn lemma_cell_list_round_trip(l: CellList, t: CellTable, l2: CellList)
    requires
        l.dims_ok(),
        table_of(l, t),
        list_of(t, l2),
    ensures
        forall|a: int, b: int|
            contains_cell(l2.cells@, a, b) <==> contains_cell(
                l.cells@,
                a + xs(l.cells@).min() + t.width / 2,
                b + ys(l.cells@).min() + t.height / 2,
            ),
{
    let cl = l.cells@;
    let w = t.width as int;
    let h = t.height as int;
    if cl.len() == 0 {
        assert forall|a: int, b: int|
            contains_cell(l2.cells@, a, b) <==> contains_cell(
                cl,
                a + xs(cl).min() + t.width / 2,
                b + ys(cl).min() + t.height / 2,
            ) by {
            if contains_cell(l2.cells@, a, b) {
                let k = choose|k: int|
                    0 <= k < l2.cells@.len() && l2.cells@[k].0 == a && l2.cells@[k].1 == b;
                let p = l2.cells@[k];
                assert(l2.cells@.contains(p));
                assert(false);
            }
        }
    } else {
        let minx = xs(cl).min();
        let miny = ys(cl).min();
        let maxx = xs(cl).max();
        let maxy = ys(cl).max();
        xs(cl).min_ensures();
        xs(cl).max_ensures();
        ys(cl).min_ensures();
        ys(cl).max_ensures();
        assert(xs(cl).len() == cl.len());
        assert(forall|i: int| 0 <= i < cl.len() ==> xs(cl)[i] == #[trigger] cl[i].0 as int);
        assert(forall|i: int| 0 <= i < cl.len() ==> ys(cl)[i] == #[trigger] cl[i].1 as int);
        // The extrema are attained, so they are isize values.
        let ixmin = choose|i: int| 0 <= i < xs(cl).len() && xs(cl)[i] == minx;
        assert(xs(cl).contains(minx));
        let iymin = choose|i: int| 0 <= i < ys(cl).len() && ys(cl)[i] == miny;
        assert(ys(cl).contains(miny));
        assert(cl[ixmin].0 == minx);
        assert(cl[iymin].1 == miny);
        assert forall|a: int, b: int|
            contains_cell(l2.cells@, a, b) <==> contains_cell(
                cl,
                a + minx + t.width / 2,
                b + miny + t.height / 2,
            ) by {
            if contains_cell(l2.cells@, a, b) {
                let k = choose|k: int|
                    0 <= k < l2.cells@.len() && l2.cells@[k].0 == a && l2.cells@[k].1 == b;
                let p = l2.cells@[k];
                assert(l2.cells@.contains(p));
                let x = p.0 + w / 2;
                let y = p.1 + h / 2;
                assert(0 <= x < w && 0 <= y < h);
                assert(t.cell(x, y) == CellState::Alive);
                assert(cl.contains((((x + minx) as isize), ((y + miny) as isize))));
                let i = choose|i: int|
                    0 <= i < cl.len() && cl[i] == (((x + minx) as isize), ((y + miny) as isize));
                assert(minx <= cl[i].0 <= maxx);
                assert(cl[i].0 == x + minx);
                assert(cl[i].1 == y + miny);
                assert(contains_cell(cl, a + minx + w / 2, b + miny + h / 2));
            }
            if contains_cell(cl, a + minx + w / 2, b + miny + h / 2) {
                let i = choose|i: int|
                    0 <= i < cl.len() && cl[i].0 == a + minx + w / 2 && cl[i].1 == b + miny + h
                        / 2;
                let q = cl[i];
                assert(minx <= q.0 <= maxx && miny <= q.1 <= maxy);
                let x = q.0 - minx;
                let y = q.1 - miny;
                assert(0 <= x < w && 0 <= y < h);
                assert(cl.contains(q));
                assert(q == (((x + minx) as isize), ((y + miny) as isize)));
                assert(t.cell(x, y) == CellState::Alive);
                let p = (((a) as isize), ((b) as isize));
                assert(a == x - w / 2 && b == y - h / 2);
                assert(0 <= p.0 + w / 2 < w && 0 <= p.1 + h / 2 < h);
                assert(t.cell(p.0 + w / 2, p.1 + h / 2) == CellState::Alive);
                assert(l2.cells@.contains(p));
                let k = choose|k: int| 0 <= k < l2.cells@.len() && l2.cells@[k] == p;
                assert(contains_cell(l2.cells@, a, b));
            }
        }
    }
}

/// Composed round-trip law: taking a list to its table, back to a list
/// and to a table once more reproduces the first table exactly — the
/// uniform translation of the offsets disappears once the cells are
/// normalised to their bounding box.
pub proof fn lemma_cell_table_round_trip(l: CellList, t: CellTable, l2: CellList, t2: CellTable)
    requires
        l.dims_ok(),
        table_of(l, t),
        list_of(t, l2),
        table_of(l2, t2),
    ensures
        t2.width == t.width,
        t2.height == t.height,
        forall|x: int, y: int|
            0 <= x < t.width && 0 <= y < t.height ==> t2.cell(x, y) == t.cell(x, y),
{
    let cl = l.cells@;
    let w = t.width as int;
    let h = t.height as int;
    if cl.len() == 0 {
        // The zero-area table comes back as itself.
        if l2.cells@.len() > 0 {
            let p = l2.cells@[0];
            assert(l2.cells@.contains(p));
            assert(false);
        }
    } else {
        let minx = xs(cl).min();
        let miny = ys(cl).min();
        let maxx = xs(cl).max();
        let maxy = ys(cl).max();
        xs(cl).min_ensures();
        xs(cl).max_ensures();
        ys(cl).min_ensures();
        ys(cl).max_ensures();
        assert(forall|i: int| 0 <= i < cl.len() ==> xs(cl)[i] == #[trigger] cl[i].0 as int);
        assert(forall|i: int| 0 <= i < cl.len() ==> ys(cl)[i] == #[trigger] cl[i].1 as int);
        // Every extremum is attained, so the table has an alive cell in
        // its first and last row and column.
        let ixmin = choose|i: int| 0 <= i < xs(cl).len() && xs(cl)[i] == minx;
        assert(xs(cl).contains(minx));
        let ixmax = choose|i: int| 0 <= i < xs(cl).len() && xs(cl)[i] == maxx;
        assert(xs(cl).contains(maxx));
        let iymin = choose|i: int| 0 <= i < ys(cl).len() && ys(cl)[i] == miny;
        assert(ys(cl).contains(miny));
        let iymax = choose|i: int| 0 <= i < ys(cl).len() && ys(cl)[i] == maxy;
        assert(ys(cl).contains(maxy));
        // The offset list of t: bounds and attained extrema.
        let os = l2.cells@;
        // A witness offset in the leftmost column.
        let cx = cl[ixmin];
        let px = ((0 - w / 2) as isize, ((cx.1 - miny) - h / 2) as isize);
        assert(t.cell(0, cx.1 - miny) == CellState::Alive) by {
            assert(miny <= cx.1 <= maxy);
            assert(cl.contains((((0 + minx) as isize), (((cx.1 - miny) + miny) as isize))))
                by {
                assert(cl[ixmin] == (((0 + minx) as isize), (((cx.1 - miny) + miny) as isize)));
            }
        }
        assert(os.contains(px)) by {
            assert(0 <= px.0 + w / 2 < w);
            assert(0 <= px.1 + h / 2 < h) by {
                assert(miny <= cx.1 <= maxy);
            }
            assert(t.cell(px.0 + w / 2, px.1 + h / 2) == CellState::Alive);
        }
        // A witness offset in the rightmost column.
        let dx = cl[ixmax];
        let qx = (((w - 1) - w / 2) as isize, ((dx.1 - miny) - h / 2) as isize);
        assert(t.cell(w - 1, dx.1 - miny) == CellState::Alive) by {
            assert(miny <= dx.1 <= maxy);
            assert(cl.contains(((((w - 1) + minx) as isize), (((dx.1 - miny) + miny) as isize))))
                by {
                assert(cl[ixmax] == ((((w - 1) + minx) as isize), (((dx.1 - miny) + miny)
                    as isize)));
            }
        }
        assert(os.contains(qx)) by {
            assert(0 <= qx.0 + w / 2 < w);
            assert(0 <= qx.1 + h / 2 < h) by {
                assert(miny <= dx.1 <= maxy);
            }
            assert(t.cell(qx.0 + w / 2, qx.1 + h / 2) == CellState::Alive);
        }
        // A witness offset in the top row.
        let cy = cl[iymin];
        let py = ((cy.0 - minx) - w / 2, 0 - h / 2);
        let pyt = ((py.0) as isize, (py.1) as isize);
        assert(t.cell(cy.0 - minx, 0) == CellState::Alive) by {
            assert(minx <= cy.0 <= maxx);
            assert(cl.contains(((((cy.0 - minx) + minx) as isize), ((0 + miny) as isize)))) by {
                assert(cl[iymin] == ((((cy.0 - minx) + minx) as isize), ((0 + miny) as isize)));
            }
        }
        assert(os.contains(pyt)) by {
            assert(0 <= pyt.0 + w / 2 < w) by {
                assert(minx <= cy.0 <= maxx);
            }
            assert(0 <= pyt.1 + h / 2 < h);
            assert(t.cell(pyt.0 + w / 2, pyt.1 + h / 2) == CellState::Alive);
        }
        // A witness offset in the bottom row.
        let dy = cl[iymax];
        let qyt = (((dy.0 - minx) - w / 2) as isize, ((h - 1) - h / 2) as isize);
        assert(t.cell(dy.0 - minx, h - 1) == CellState::Alive) by {
            assert(minx <= dy.0 <= maxx);
            assert(cl.contains(((((dy.0 - minx) + minx) as isize), ((((h - 1)) + miny)
                as isize)))) by {
                assert(cl[iymax] == ((((dy.0 - minx) + minx) as isize), ((((h - 1)) + miny)
                    as isize)));
            }
        }
        assert(os.contains(qyt)) by {
            assert(0 <= qyt.0 + w / 2 < w) by {
                assert(minx <= dy.0 <= maxx);
            }
            assert(0 <= qyt.1 + h / 2 < h);
            assert(t.cell(qyt.0 + w / 2, qyt.1 + h / 2) == CellState::Alive);
        }
        assert(os.len() > 0) by {
            let k = choose|k: int| 0 <= k < os.len() && os[k] == px;
        }
        // Extrema of the offset list.
        xs(os).min_ensures();
        xs(os).max_ensures();
        ys(os).min_ensures();
        ys(os).max_ensures();
        assert(forall|i: int| 0 <= i < os.len() ==> xs(os)[i] == #[trigger] os[i].0 as int);
        assert(forall|i: int| 0 <= i < os.len() ==> ys(os)[i] == #[trigger] os[i].1 as int);
        assert forall|i: int| 0 <= i < os.len() implies -(w / 2) <= (#[trigger] os[i]).0 < w - w
            / 2 && -(h / 2) <= os[i].1 < h - h / 2 by {
            assert(os.contains(os[i]));
        }
        assert(xs(os).min() == -(w / 2)) by {
            let k = choose|k: int| 0 <= k < os.len() && os[k] == px;
            assert(xs(os)[k] == -(w / 2));
            let km = choose|k: int| 0 <= k < xs(os).len() && xs(os)[k] == xs(os).min();
            assert(xs(os).contains(xs(os).min()));
            assert(os[km].0 >= -(w / 2));
        }
        assert(xs(os).max() == (w - 1) - w / 2) by {
            let k = choose|k: int| 0 <= k < os.len() && os[k] == qx;
            assert(xs(os)[k] == (w - 1) - w / 2);
            let km = choose|k: int| 0 <= k < xs(os).len() && xs(os)[k] == xs(os).max();
            assert(xs(os).contains(xs(os).max()));
            assert(os[km].0 < w - w / 2);
        }
        assert(ys(os).min() == -(h / 2)) by {
            let k = choose|k: int| 0 <= k < os.len() && os[k] == pyt;
            assert(ys(os)[k] == -(h / 2));
            let km = choose|k: int| 0 <= k < ys(os).len() && ys(os)[k] == ys(os).min();
            assert(ys(os).contains(ys(os).min()));
            assert(os[km].1 >= -(h / 2));
        }
        assert(ys(os).max() == (h - 1) - h / 2) by {
            let k = choose|k: int| 0 <= k < os.len() && os[k] == qyt;
            assert(ys(os)[k] == (h - 1) - h / 2);
            let km = choose|k: int| 0 <= k < ys(os).len() && ys(os)[k] == ys(os).max();
            assert(ys(os).contains(ys(os).max()));
            assert(os[km].1 < h - h / 2);
        }
        assert(t2.width == w);
        assert(t2.height == h);
        assert forall|x: int, y: int| 0 <= x < w && 0 <= y < h implies t2.cell(x, y) == t.cell(
            x,
            y,
        ) by {
            let p = (((x - w / 2) as isize), ((y - h / 2) as isize));
            assert(t2.cell(x, y) == CellState::Alive <==> os.contains(p)) by {
                assert(x + xs(os).min() == x - w / 2);
                assert(y + ys(os).min() == y - h / 2);
            }
            assert(os.contains(p) <==> t.cell(x, y) == CellState::Alive) by {
                assert(p.0 + w / 2 == x && p.1 + h / 2 == y);
            }
            if t2.cell(x, y) != t.cell(x, y) {
                assert(t2.cell(x, y) == CellState::Alive <==> t.cell(x, y) == CellState::Alive);
                if t2.cell(x, y) == CellState::Alive {
                    assert(false);
                } else {
                    assert(t.cell(x, y) != CellState::Alive);
                    assert(t2.cell(x, y) == CellState::Dead || t2.cell(x, y)
                        == CellState::Alive) by {
                        assert((t2.cell(x, y)) is Dead || (t2.cell(x, y)) is Alive);
                    }
                    assert(false);
                }
            }
        }
    }
}

} // verus!
