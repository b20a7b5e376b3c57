//! The simulation engine: a fixed-size board of cells, initialisation
//! (empty, random, or from a parsed pattern) and the synchronous
//! generation step.

use vstd::prelude::*;
use crate::CellState;
use crate::file::cells::{dim_limit, serialised_list};
use crate::file::pattern::{parse_contents_rel, ParseError, Pattern};

verus! {

/// The live board: created once at a fixed size and mutated in place by
/// the generation step; never resized after creation.
pub struct GameOfLife {
    pub board: Vec<Vec<CellState>>,
    pub width: usize,
    pub height: usize,
    pub name: Option<String>,
}

impl GameOfLife {
    /// The board is rectangular with the stated dimensions, which are
    /// small enough for safe index arithmetic.
    pub open spec fn wf(self) -> bool {
        &&& self.board@.len() == self.height
        &&& forall|y: int| 0 <= y < self.height ==> self.board@[y]@.len() == self.width
        &&& self.width <= dim_limit()
        &&& self.height <= dim_limit()
    }

    /// The state of the cell at `(x, y)`.
    pub open spec fn cell(self, x: int, y: int) -> CellState {
        self.board@[y]@[x]
    }

    /// 1 when the cell at `(x, y)` is alive, 0 when it is dead.
    pub open spec fn live(self, x: int, y: int) -> int {
        if self.cell(x, y) == CellState::Alive {
            1
        } else {
            0
        }
    }

    /// The number of alive cells among the eight neighbours of `(x, y)`.
    pub open spec fn neighbours(self, x: int, y: int) -> int {
        self.live(x - 1, y - 1) + self.live(x, y - 1) + self.live(x + 1, y - 1) + self.live(
            x - 1,
            y,
        ) + self.live(x + 1, y) + self.live(x - 1, y + 1) + self.live(x, y + 1) + self.live(
            x + 1,
            y + 1,
        )
    }

    /// The next state of the interior cell at `(x, y)` under the classic
    /// rule: a living cell survives on 2 or 3 neighbours, a dead cell is
    /// born on exactly 3, all counted on the pre-update snapshot.
    pub open spec fn next_cell(self, x: int, y: int) -> CellState {
        let n = self.neighbours(x, y);
        if self.cell(x, y) == CellState::Alive {
            if n < 2 || n > 3 {
                CellState::Dead
            } else {
                CellState::Alive
            }
        } else {
            if n == 3 {
                CellState::Alive
            } else {
                CellState::Dead
            }
        }
    }

    /// `(x, y)` lies on the outermost ring of the board.
    pub open spec fn on_border(self, x: int, y: int) -> bool {
        x == 0 || y == 0 || x == self.width - 1 || y == self.height - 1
    }

    /// Return a new board of the given size with every cell dead.
    pub fn new(width: usize, height: usize) -> (r: GameOfLife)
        requires
            width <= dim_limit(),
            height <= dim_limit(),
        ensures
            r.wf(),
            r.width == width,
            r.height == height,
            r.name is None,
            forall|x: int, y: int| 0 <= x < width && 0 <= y < height ==> r.cell(x, y)
                == CellState::Dead,
    {
        let board = dead_grid(width, height);
        GameOfLife { board, width, height, name: None }
    }

    /// Kill every cell, keeping the dimensions and the name.
    pub fn init_empty(&mut self)
        requires
            old(self).width <= dim_limit(),
            old(self).height <= dim_limit(),
        ensures
            final(self).wf(),
            final(self).width == old(self).width,
            final(self).height == old(self).height,
            final(self).name == old(self).name,
            forall|x: int, y: int|
                0 <= x < old(self).width && 0 <= y < old(self).height ==> final(self).cell(x, y)
                    == CellState::Dead,
    {
        self.board = dead_grid(self.width, self.height);
    }

    /// Randomly initialise the board: every interior cell is set from one
    /// uniformly random byte (alive when `byte % 100 <= chance`, so a
    /// higher `chance` gives a higher alive probability), and the border
    /// ring is forced dead whatever was drawn.  A chance of 99 or more
    /// admits every draw, so the whole interior comes out alive.
    pub fn init_randomly(&mut self, chance: u8)
        requires
            old(self).width <= dim_limit(),
            old(self).height <= dim_limit(),
        ensures
            final(self).wf(),
            final(self).width == old(self).width,
            final(self).height == old(self).height,
            final(self).name == old(self).name,
            forall|x: int, y: int|
                0 <= x < old(self).width && 0 <= y < old(self).height && final(self).on_border(
                    x,
                    y,
                ) ==> final(self).cell(x, y) == CellState::Dead,
            chance >= 99 ==> forall|x: int, y: int|
                1 <= x < old(self).width - 1 && 1 <= y < old(self).height - 1
                    ==> final(self).cell(x, y) == CellState::Alive,
    {
        self.init_empty();
        if self.width <= 2 || self.height <= 2 {
            // Everything is border; the board stays empty.
            return;
        }
        let mut y: usize = 1;
        while y < self.height - 1
            invariant
                old(self).width > 2,
                old(self).height > 2,
                1 <= y <= old(self).height - 1,
                self.wf(),
                self.width == old(self).width,
                self.height == old(self).height,
                self.name == old(self).name,
                forall|a: int, b: int|
                    0 <= a < self.width && 0 <= b < self.height && self.on_border(a, b)
                        ==> self.cell(a, b) == CellState::Dead,
                chance >= 99 ==> forall|a: int, b: int|
                    1 <= a < self.width - 1 && 1 <= b < y ==> self.cell(a, b)
                        == CellState::Alive,
            decreases self.height - y,
        {
            let mut x: usize = 1;
            while x < self.width - 1
                invariant
                    old(self).width > 2,
                    old(self).height > 2,
                    1 <= y < old(self).height - 1,
                    1 <= x <= old(self).width - 1,
                    self.wf(),
                    self.width == old(self).width,
                    self.height == old(self).height,
                    self.name == old(self).name,
                    forall|a: int, b: int|
                        0 <= a < self.width && 0 <= b < self.height && self.on_border(a, b)
                            ==> self.cell(a, b) == CellState::Dead,
                    chance >= 99 ==> forall|a: int, b: int|
                        1 <= a < self.width - 1 && 1 <= b < y ==> self.cell(a, b)
                            == CellState::Alive,
                    chance >= 99 ==> forall|a: int|
                        1 <= a < x ==> self.cell(a, y as int) == CellState::Alive,
                decreases self.width - x,
            {
                let byte = random_byte();
                let state = if byte % 100 <= chance {
                    CellState::Alive
                } else {
                    CellState::Dead
                };
                let ghost old_board = self.board@;
                let ghost old_self = *self;
                self.board[y][x] = state;
                proof {
                    assert(self.board@[y as int]@ =~= old_board[y as int]@.update(
                        x as int,
                        state,
                    ));
                    assert forall|a: int, b: int|
                        0 <= a < self.width && 0 <= b < self.height && self.on_border(a, b)
                        implies self.cell(a, b) == CellState::Dead by {
                        if b == y as int {
                            assert(a != x as int);
                            assert(self.board@[b]@[a] == old_board[b]@[a]);
                            assert(old_self.cell(a, b) == CellState::Dead);
                        } else {
                            assert(self.board@[b] == old_board[b]);
                            assert(old_self.cell(a, b) == CellState::Dead);
                        }
                    }
                    if chance >= 99 {
                        // Every byte satisfies byte % 100 <= 99 <= chance.
                        assert(state == CellState::Alive);
                        assert forall|a: int, b: int|
                            1 <= a < self.width - 1 && 1 <= b < y implies self.cell(a, b)
                            == CellState::Alive by {
                            assert(self.board@[b] == old_board[b]);
                            assert(old_self.cell(a, b) == CellState::Alive);
                        }
                        assert forall|a: int|
                            1 <= a < x + 1 implies self.cell(a, y as int)
                            == CellState::Alive by {
                            if a != x {
                                assert(self.board@[y as int]@[a] == old_board[y as int]@[a]);
                                assert(old_self.cell(a, y as int) == CellState::Alive);
                            }
                        }
                    }
                }
                x = x + 1;
            }
            proof {
                if chance >= 99 {
                    assert forall|a: int, b: int|
                        1 <= a < self.width - 1 && 1 <= b < y + 1 implies self.cell(a, b)
                        == CellState::Alive by {
                        if b == y as int {
                            assert(self.cell(a, y as int) == CellState::Alive);
                        }
                    }
                }
            }
            y = y + 1;
        }
    }

    /// The board `new` is `old` re-initialised from the pattern `p`:
    /// dimensions kept, the name taken from the pattern when it has one,
    /// and exactly the pattern's cells alive, each offset translated by
    /// the board's centre, with cells falling outside discarded.
    pub open spec fn placed_from(old: GameOfLife, new: GameOfLife, p: Pattern) -> bool {
        &&& new.wf()
        &&& new.width == old.width
        &&& new.height == old.height
        &&& new.name == (if p.metadata.name is Some {
            p.metadata.name
        } else {
            old.name
        })
        &&& forall|x: int, y: int|
            0 <= x < old.width && 0 <= y < old.height ==> (new.cell(x, y) == CellState::Alive
                <==> serialised_list(p.cells).contains(
                (((x - old.width / 2) as isize), ((y - old.height / 2) as isize)),
            ))
    }

    /// Re-initialise the board from a parsed pattern: clear it, then
    /// place the pattern's cells centred at the board's centre,
    /// discarding any cell that falls outside the board.
    pub fn init_with_pattern(&mut self, pattern: Pattern)
        requires
            old(self).wf(),
            pattern.cells.wf(),
        ensures
            GameOfLife::placed_from(*old(self), *final(self), pattern),
    {
        let Pattern { cells: pcells, metadata: pmeta } = pattern;
        let ghost gp = pattern;
        let list = pcells.into_cell_list();
        let ghost cs = list.cells@;
        proof {
            assert(cs == serialised_list(gp.cells));
        }
        self.init_empty();
        let ghost cleared = *self;
        match pmeta.name {
            Some(n) => {
                self.name = Some(n);
            },
            None => {
            },
        }
        proof {
            assert(self.board == cleared.board);
        }
        let w = self.width;
        let h = self.height;
        let ox: isize = (w / 2) as isize;
        let oy: isize = (h / 2) as isize;
        let wi: isize = w as isize;
        let hi: isize = h as isize;
        let mut i: usize = 0;
        proof {
            assert(cs.subrange(0, 0) =~= Seq::<(isize, isize)>::empty());
            assert forall|x: int, y: int|
                0 <= x < w && 0 <= y < h implies (self.cell(x, y) == CellState::Alive
                <==> cs.subrange(0, 0).contains(
                (((x - w / 2) as isize), ((y - h / 2) as isize)),
            )) by {
                assert(cleared.cell(x, y) == CellState::Dead);
                assert(self.cell(x, y) == cleared.cell(x, y));
                assert(cs.subrange(0, 0).len() == 0);
            }
        }
        while i < list.cells.len()
            invariant
                i <= cs.len(),
                cs == list.cells@,
                self.wf(),
                w == self.width,
                h == self.height,
                self.width == old(self).width,
                self.height == old(self).height,
                ox as int == w / 2,
                oy as int == h / 2,
                wi as int == w,
                hi as int == h,
                self.name == (if gp.metadata.name is Some {
                    gp.metadata.name
                } else {
                    old(self).name
                }),
                forall|x: int, y: int|
                    0 <= x < w && 0 <= y < h ==> (self.cell(x, y) == CellState::Alive
                        <==> cs.subrange(0, i as int).contains(
                        (((x - w / 2) as isize), ((y - h / 2) as isize)),
                    )),
            decreases list.cells.len() - i,
        {
            let c = list.cells[i];
            let ghost prev = *self;
            let placed: bool = c.0 >= -ox && c.0 < wi - ox && c.1 >= -oy && c.1 < hi - oy;
            if placed {
                let px: usize = (c.0 + ox) as usize;
                let py: usize = (c.1 + oy) as usize;
                let ghost old_board = self.board@;
                self.board[py][px] = CellState::Alive;
                proof {
                    assert(self.board@[py as int]@ =~= old_board[py as int]@.update(
                        px as int,
                        CellState::Alive,
                    ));
                }
            }
            proof {
                let pre = cs.subrange(0, i as int);
                let post = cs.subrange(0, i + 1);
                assert(post.drop_last() =~= pre);
                assert(post.last() == cs[i as int]);
                assert forall|x: int, y: int|
                    0 <= x < w && 0 <= y < h implies (self.cell(x, y) == CellState::Alive
                    <==> post.contains((((x - w / 2) as isize), ((y - h / 2) as isize)))) by {
                    let q = (((x - w / 2) as isize), ((y - h / 2) as isize));
                    assert(q.0 as int == x - w / 2 && q.1 as int == y - h / 2);
                    if placed && x == c.0 + w / 2 && y == c.1 + h / 2 {
                        assert(q == c);
                        assert(post[i as int] == c);
                        assert(post.contains(q));
                        assert(self.cell(x, y) == CellState::Alive);
                    } else {
                        // This position is untouched by the iteration.
                        if placed {
                            let px = c.0 + w / 2;
                            let py = c.1 + h / 2;
                            if y == py {
                                assert(x != px);
                                assert(self.board@[y]@[x] == prev.board@[y]@[x]);
                            } else {
                                assert(self.board@[y] == prev.board@[y]);
                            }
                        }
                        assert(self.cell(x, y) == prev.cell(x, y));
                        if post.contains(q) {
                            let k = choose|k: int| 0 <= k < post.len() && post[k] == q;
                            if k == i as int {
                                assert(q == c);
                                assert(c.0 as int == x - w / 2);
                                assert(false);
                            } else {
                                assert(pre[k] == q);
                                assert(pre.contains(q));
                            }
                        }
                        if pre.contains(q) {
                            let k = choose|k: int| 0 <= k < pre.len() && pre[k] == q;
                            assert(post[k] == q);
                        }
                    }
                }
            }
            i = i + 1;
        }
        proof {
            assert(cs.subrange(0, cs.len() as int) =~= cs);
        }
    }

    /// Initialise the board from a pattern file's text: parse it, then
    /// place the pattern centred on the board.  On a parse error the
    /// board is left exactly as it was and the error is returned.
    pub fn init_with_file(&mut self, file: &str) -> (r: Result<(), ParseError>)
        requires
            old(self).wf(),
            file@.len() <= isize::MAX,
        ensures
            r is Err ==> *final(self) == *old(self) && parse_contents_rel(
                file@,
                Err::<Pattern, ParseError>(r->Err_0),
            ),
            r is Ok ==> exists|p: Pattern|
                #[trigger] parse_contents_rel(file@, Ok(p)) && GameOfLife::placed_from(
                    *old(self),
                    *final(self),
                    p,
                ),
    {
        match Pattern::parse_contents(file) {
            Err(e) => Err(e),
            Ok(pattern) => {
                let ghost gp = pattern;
                self.init_with_pattern(pattern);
                proof {
                    assert(parse_contents_rel(file@, Ok(gp)) && GameOfLife::placed_from(
                        *old(self),
                        *self,
                        gp,
                    ));
                }
                Ok(())
            },
        }
    }

    /// One generation: every interior cell takes its next state, computed
    /// from the pre-update snapshot; the border ring is left untouched.
    /// The new grid is built apart from the old one, so no write is
    /// visible to any neighbour count of the same step.
    #[verifier::rlimit(60)]
    pub fn update(&mut self)
        requires
            old(self).wf(),
        ensures
            final(self).wf(),
            final(self).width == old(self).width,
            final(self).height == old(self).height,
            final(self).name == old(self).name,
            forall|x: int, y: int|
                0 <= x < old(self).width && 0 <= y < old(self).height ==> final(self).cell(x, y)
                    == (if old(self).on_border(x, y) {
                    old(self).cell(x, y)
                } else {
                    old(self).next_cell(x, y)
                }),
    {
        let width = self.width;
        let height = self.height;
        let mut new_board: Vec<Vec<CellState>> = Vec::new();
        let mut y: usize = 0;
        while y < height
            invariant
                self == old(self),
                self.wf(),
                width == self.width,
                height == self.height,
                y <= height,
                new_board@.len() == y,
                forall|b: int| 0 <= b < y ==> new_board@[b]@.len() == width,
                forall|a: int, b: int|
                    0 <= a < width && 0 <= b < y ==> new_board@[b]@[a] == (if self.on_border(
                        a,
                        b,
                    ) {
                        self.cell(a, b)
                    } else {
                        self.next_cell(a, b)
                    }),
            decreases height - y,
        {
            let mut row: Vec<CellState> = Vec::new();
            let mut x: usize = 0;
            while x < width
                invariant
                    self == old(self),
                    self.wf(),
                    width == self.width,
                    height == self.height,
                    y < height,
                    x <= width,
                    row@.len() == x,
                    forall|a: int|
                        0 <= a < x ==> row@[a] == (if self.on_border(a, y as int) {
                            self.cell(a, y as int)
                        } else {
                            self.next_cell(a, y as int)
                        }),
                decreases width - x,
            {
                if x == 0 || y == 0 || x == width - 1 || y == height - 1 {
                    row.push(self.board[y][x]);
                } else {
                    let n = self.count_neighbours(x, y);
                    let cur = self.board[y][x];
                    let next = if cur == CellState::Alive {
                        if n < 2 || n > 3 {
                            CellState::Dead
                        } else {
                            CellState::Alive
                        }
                    } else {
                        if n == 3 {
                            CellState::Alive
                        } else {
                            CellState::Dead
                        }
                    };
                    row.push(next);
                }
                x = x + 1;
            }
            new_board.push(row);
            y = y + 1;
        }
        self.board = new_board;
    }

    /// 1 when the cell at `(x, y)` is alive, 0 when it is dead.
    fn live_exec(&self, x: usize, y: usize) -> (r: u8)
        requires
            self.wf(),
            x < self.width,
            y < self.height,
        ensures
            r as int == self.live(x as int, y as int),
    {
        if self.board[y][x] == CellState::Alive {
            1
        } else {
            0
        }
    }

    /// Count the alive cells among the eight neighbours of the interior
    /// cell `(x, y)`.
    fn count_neighbours(&self, x: usize, y: usize) -> (r: u8)
        requires
            self.wf(),
            1 <= x < self.width - 1,
            1 <= y < self.height - 1,
        ensures
            r as int == self.neighbours(x as int, y as int),
    {
        let mut n: u8 = 0;
        n = n + self.live_exec(x - 1, y - 1);
        n = n + self.live_exec(x, y - 1);
        n = n + self.live_exec(x + 1, y - 1);
        n = n + self.live_exec(x - 1, y);
        n = n + self.live_exec(x + 1, y);
        n = n + self.live_exec(x - 1, y + 1);
        n = n + self.live_exec(x, y + 1);
        n = n + self.live_exec(x + 1, y + 1);
        n
    }

    /// The rows of the board as text: one character per cell — `alive`
    /// for a living cell, a space for a dead one — and a newline after
    /// every row.
    pub open spec fn render_from(self, alive: char, y: int) -> Seq<char>
        decreases self.height - y,
    {
        if y < 0 || y >= self.height {
            Seq::empty()
        } else {
            render_row(self.board@[y]@, alive) + self.render_from(alive, y + 1)
        }
    }

    /// Convert the board to a string, using `alive` for living cells and
    /// a space for dead ones, one line per row.
    #[verifier::rlimit(60)]
    pub fn to_string_with_alive(&self, alive: char) -> (r: String)
        requires
            self.wf(),
        ensures
            r@ == self.render_from(alive, 0),
    {
        let mut out: Vec<char> = Vec::new();
        let mut y: usize = 0;
        proof {
            assert(out@ + self.render_from(alive, 0) =~= self.render_from(alive, 0));
        }
        while y < self.height
            invariant
                self.wf(),
                y <= self.height,
                self.render_from(alive, 0) == out@ + self.render_from(alive, y as int),
            decreases self.height - y,
        {
            let ghost row_seq = self.board@[y as int]@;
            let ghost entry = out@;
            let row = &self.board[y];
            let mut x: usize = 0;
            while x < row.len()
                invariant
                    self.wf(),
                    y < self.height,
                    x <= row@.len(),
                    row == &self.board@[y as int],
                    row_seq == row@,
                    out@ == entry + Seq::new(x as nat, |i: int| render_cell(row_seq[i], alive)),
                decreases row.len() - x,
            {
                let c = if row[x] == CellState::Alive {
                    alive
                } else {
                    ' '
                };
                out.push(c);
                proof {
                    assert(out@ =~= entry + Seq::new(
                        (x + 1) as nat,
                        |i: int| render_cell(row_seq[i], alive),
                    ));
                }
                x = x + 1;
            }
            out.push('\n');
            proof {
                assert(out@ =~= entry + render_row(row_seq, alive));
                assert(self.render_from(alive, y as int) == render_row(row_seq, alive)
                    + self.render_from(alive, y + 1));
                assert(out@ + self.render_from(alive, y + 1) =~= entry + self.render_from(
                    alive,
                    y as int,
                ));
            }
            y = y + 1;
        }
        proof {
            assert(out@ =~= self.render_from(alive, 0));
        }
        crate::text::string_from_chars(out.as_slice())
    }
}

/// Underpopulation law: a living cell with fewer than two living
/// neighbours dies in the next generation.
pub proof fn lemma_lonely_cell_dies(g: GameOfLife, x: int, y: int)
    requires
        g.cell(x, y) == CellState::Alive,
        g.neighbours(x, y) <= 1,
    ensures
        g.next_cell(x, y) == CellState::Dead,
{
}

/// Birth law: a dead cell with exactly three living neighbours becomes
/// alive in the next generation.
pub proof fn lemma_birth_on_three(g: GameOfLife, x: int, y: int)
    requires
        g.cell(x, y) == CellState::Dead,
        g.neighbours(x, y) == 3,
    ensures
        g.next_cell(x, y) == CellState::Alive,
{
}

/// Survival law: a living cell with two or three living neighbours is
/// unchanged by the next generation.
pub proof fn lemma_survival(g: GameOfLife, x: int, y: int)
    requires
        g.cell(x, y) == CellState::Alive,
        2 <= g.neighbours(x, y) <= 3,
    ensures
        g.next_cell(x, y) == CellState::Alive,
{
}

/// The character a cell is rendered as.
pub open spec fn render_cell(c: CellState, alive: char) -> char {
    if c == CellState::Alive {
        alive
    } else {
        ' '
    }
}

/// One rendered row: a character per cell, then a newline.
pub open spec fn render_row(row: Seq<CellState>, alive: char) -> Seq<char> {
    Seq::new(row.len(), |i: int| render_cell(row[i], alive)).push('\n')
}

/// An all-dead rectangular grid.
fn dead_grid(width: usize, height: usize) -> (r: Vec<Vec<CellState>>)
    ensures
        r@.len() == height,
        forall|y: int| 0 <= y < height ==> r@[y]@.len() == width,
        forall|x: int, y: int| 0 <= x < width && 0 <= y < height ==> r@[y]@[x] == CellState::Dead,
{
    let mut grid: Vec<Vec<CellState>> = Vec::new();
    let mut y: usize = 0;
    while y < height
        invariant
            y <= height,
            grid@.len() == y,
            forall|b: int| 0 <= b < y ==> grid@[b]@.len() == width,
            forall|a: int, b: int| 0 <= a < width && 0 <= b < y ==> grid@[b]@[a] == CellState::Dead,
        decreases height - y,
    {
        let mut row: Vec<CellState> = Vec::new();
        let mut x: usize = 0;
        while x < width
            invariant
                x <= width,
                row@.len() == x,
                forall|a: int| 0 <= a < x ==> row@[a] == CellState::Dead,
            decreases width - x,
        {
            row.push(CellState::Dead);
            x = x + 1;
        }
        grid.push(row);
        y = y + 1;
    }
    grid
}

/// Relies on `rand::random`: one uniformly distributed random byte.
/// Nothing is assumed of its value.
#[verifier::external_body]
fn random_byte() -> u8 {
    rand::random::<u8>()
}

} // verus!
