//! One ant: its position, its facing and the grid of cells it has toggled.

use vstd::prelude::*;
use vstd::arithmetic::div_mod::lemma_fundamental_div_mod_converse;
use vstd::set_lib::{lemma_int_range, lemma_len_subset, lemma_map_size_bound, set_int_range};
use crate::direction::Direction;
use crate::random::index_below;

verus! {

/// The mathematical value of an ant: the rows of its grid (`grid[y][x]` is
/// the cell in row `y`, column `x`), its column `x`, its row `y` and its
/// facing.
pub struct AntState {
    pub grid: Seq<Seq<bool>>,
    pub x: int,
    pub y: int,
    pub direction: Direction,
}

/// A coordinate after an attempted move by `delta` on an axis of length
/// `size`: the move is made if it stays on the axis, and dropped otherwise.
pub open spec fn clamped_move(pos: int, delta: int, size: int) -> int {
    if 0 <= pos + delta < size {
        pos + delta
    } else {
        pos
    }
}

impl AntState {
    /// Side length of the grid.
    pub open spec fn size(self) -> int {
        self.grid.len() as int
    }

    /// The grid is square and not empty, and the ant stands on one of its
    /// cells.
    pub open spec fn wf(self) -> bool {
        &&& self.size() > 0
        &&& forall|r: int| 0 <= r < self.size() ==> (#[trigger] self.grid[r]).len() == self.size()
        &&& 0 <= self.x < self.size()
        &&& 0 <= self.y < self.size()
    }

    /// Whether `(x, y)` names a cell of the grid.
    pub open spec fn in_grid(self, x: int, y: int) -> bool {
        0 <= x < self.size() && 0 <= y < self.size()
    }

    /// Colour of the cell in column `x`, row `y`.
    pub open spec fn cell(self, x: int, y: int) -> bool {
        self.grid[y][x]
    }

    /// The cells of the grid that are "on", as `(x, y)` pairs.
    pub open spec fn on_cells(self) -> Set<(int, int)> {
        Set::new(|c: (int, int)| self.in_grid(c.0, c.1) && self.cell(c.0, c.1))
    }

    /// No cell is "on".
    pub open spec fn all_off(self) -> bool {
        forall|x: int, y: int| self.in_grid(x, y) ==> !#[trigger] self.cell(x, y)
    }

    /// The grid with the colour of the ant's own cell inverted.
    pub open spec fn toggled_grid(self) -> Seq<Seq<bool>> {
        self.grid.update(self.y, self.grid[self.y].update(self.x, !self.cell(self.x, self.y)))
    }

    /// The state after one tick: the ant's cell is toggled, the ant turns by
    /// the new colour of that cell, and then moves one cell in its new facing
    /// unless that would take it off the grid.
    pub open spec fn step(self) -> AntState {
        let direction = self.direction.turned(!self.cell(self.x, self.y));
        AntState {
            grid: self.toggled_grid(),
            x: clamped_move(self.x, direction.dx(), self.size()),
            y: clamped_move(self.y, direction.dy(), self.size()),
            direction,
        }
    }

    /// A newly made ant on a grid of side `size`: every cell is off and the
    /// ant faces up from some cell of the grid.
    pub open spec fn fresh(self, size: int) -> bool {
        &&& self.wf()
        &&& self.size() == size
        &&& self.all_off()
        &&& self.direction == Direction::Up
    }

    /// The state after `ticks` ticks.
    pub open spec fn steps(self, ticks: nat) -> AntState
        decreases ticks,
    {
        if ticks == 0 {
            self
        } else {
            self.steps((ticks - 1) as nat).step()
        }
    }

    /// A tick keeps the grid square and of the same side, and keeps the ant
    /// on the grid.
    pub proof fn lemma_step_preserves_wf(self)
        requires
            self.wf(),
        ensures
            self.step().wf(),
            self.step().size() == self.size(),
    {
        let next = self.step();
        assert forall|r: int| 0 <= r < next.size() implies (#[trigger] next.grid[r]).len() == next.size() by {
            assert(self.grid[r].len() == self.size());
        }
    }

    /// Every state reached from a valid one is valid: after any number of
    /// ticks the grid still has its side length and the ant's column and row
    /// lie in `0..size`.
    pub proof fn lemma_steps_preserve_wf(self, ticks: nat)
        requires
            self.wf(),
        ensures
            self.steps(ticks).wf(),
            self.steps(ticks).size() == self.size(),
            0 <= self.steps(ticks).x < self.size(),
            0 <= self.steps(ticks).y < self.size(),
        decreases ticks,
    {
        if ticks > 0 {
            self.lemma_steps_preserve_wf((ticks - 1) as nat);
            self.steps((ticks - 1) as nat).lemma_step_preserves_wf();
        }
    }

    /// A tick changes the colour of exactly one cell, the one the ant stood
    /// on: that cell joins the set of "on" cells if it was off and leaves it
    /// if it was on, and every other cell keeps its colour.
    pub proof fn lemma_step_toggles_one_cell(self)
        requires
            self.wf(),
        ensures
            self.step().cell(self.x, self.y) == !self.cell(self.x, self.y),
            forall|x: int, y: int|
                self.in_grid(x, y) && (x, y) != (self.x, self.y) ==> #[trigger] self.step().cell(x, y)
                    == self.cell(x, y),
            self.step().on_cells() == if self.cell(self.x, self.y) {
                self.on_cells().remove((self.x, self.y))
            } else {
                self.on_cells().insert((self.x, self.y))
            },
    {
        let next = self.step();
        let here = (self.x, self.y);
        let expected = if self.cell(self.x, self.y) {
            self.on_cells().remove(here)
        } else {
            self.on_cells().insert(here)
        };
        assert(self.grid[self.y].len() == self.size());
        assert forall|c: (int, int)| next.on_cells().contains(c) == expected.contains(c) by {
            if self.in_grid(c.0, c.1) {
                assert(self.grid[c.1].len() == self.size());
            }
        }
        assert(next.on_cells() =~= expected);
    }

    /// The "on" cells of a valid state are finitely many, at most as many as
    /// the grid has cells.
    pub proof fn lemma_on_cells_finite(self)
        requires
            self.wf(),
        ensures
            self.on_cells().finite(),
            self.on_cells().len() <= self.size() * self.size(),
    {
        let n = self.size();
        let indices = set_int_range(0, n * n);
        let place = |i: int| (i % n, i / n);
        let cells = indices.map(place);
        assert(0 <= n * n) by (nonlinear_arith)
            requires
                n > 0,
        ;
        lemma_int_range(0, n * n);
        lemma_map_size_bound(indices, cells, place);
        assert forall|c: (int, int)| self.on_cells().contains(c) implies cells.contains(c) by {
            let i = c.1 * n + c.0;
            assert(0 <= i < n * n) by (nonlinear_arith)
                requires
                    i == c.1 * n + c.0,
                    0 <= c.0 < n,
                    0 <= c.1 < n,
            ;
            lemma_fundamental_div_mod_converse(i, n, c.1, c.0);
            assert(indices.contains(i) && c == place(i));
        }
        lemma_len_subset(self.on_cells(), cells);
    }

    /// A tick changes the number of "on" cells by exactly one: up by one if
    /// the ant stood on an "off" cell, down by one if it stood on an "on"
    /// cell.
    pub proof fn lemma_step_changes_on_count(self)
        requires
            self.wf(),
        ensures
            self.step().on_cells().len() == self.on_cells().len() + if self.cell(self.x, self.y) {
                -1int
            } else {
                1int
            },
    {
        self.lemma_on_cells_finite();
        self.lemma_step_toggles_one_cell();
        assert(self.on_cells().contains((self.x, self.y)) == self.cell(self.x, self.y));
    }

    /// From an all-off grid, `ticks` ticks leave at most `ticks` cells "on".
    pub proof fn lemma_on_count_bounded_by_ticks(self, ticks: nat)
        requires
            self.wf(),
            self.all_off(),
        ensures
            self.steps(ticks).on_cells().len() <= ticks,
        decreases ticks,
    {
        if ticks == 0 {
            assert(self.on_cells() =~= Set::<(int, int)>::empty());
        } else {
            let before = self.steps((ticks - 1) as nat);
            self.lemma_on_count_bounded_by_ticks((ticks - 1) as nat);
            self.lemma_steps_preserve_wf((ticks - 1) as nat);
            before.lemma_step_changes_on_count();
        }
    }

    /// A tick moves the ant by at most one cell along one axis, and leaves it
    /// in place exactly when the cell ahead in its new facing is off the
    /// grid.
    pub proof fn lemma_step_clamps_at_edge(self)
        requires
            self.wf(),
        ensures
            ({
                let next = self.step();
                let ahead_x = self.x + next.direction.dx();
                let ahead_y = self.y + next.direction.dy();
                if self.in_grid(ahead_x, ahead_y) {
                    next.x == ahead_x && next.y == ahead_y
                } else {
                    next.x == self.x && next.y == self.y
                }
            }),
    {
    }

    /// Two ticks on the same cell restore its colour: if the first tick left
    /// the ant in place, the second one undoes the toggle and the grid is as
    /// it was.
    pub proof fn lemma_double_toggle_restores_grid(self)
        requires
            self.wf(),
            self.step().x == self.x,
            self.step().y == self.y,
        ensures
            self.step().step().grid == self.grid,
    {
        assert(self.grid[self.y].len() == self.size());
        assert(self.step().step().grid[self.y] =~= self.grid[self.y]);
        assert(self.step().step().grid =~= self.grid);
    }
}

/// The rows of a grid as sequences of colours.
pub open spec fn rows_of(grid: Seq<Vec<bool>>) -> Seq<Seq<bool>> {
    Seq::new(grid.len(), |r: int| grid[r]@)
}

/// The state made of the given rows, position and facing.
pub open spec fn state_of(grid: Seq<Vec<bool>>, x: int, y: int, direction: Direction) -> AntState {
    AntState { grid: rows_of(grid), x, y, direction }
}

/// Whether `grid` has `size` rows of `size` cells each.
pub open spec fn is_square(grid: Seq<Vec<bool>>, size: int) -> bool {
    &&& grid.len() == size
    &&& forall|r: int| 0 <= r < size ==> (#[trigger] grid[r])@.len() == size
}

/// An ant on its own square grid.
///
/// Every value of this type has a square, non-empty grid and a position
/// inside it; its view is the [`AntState`] it stands for.
pub struct LangtonsAnt {
    grid: Vec<Vec<bool>>,
    x: usize,
    y: usize,
    direction: Direction,
}

impl View for LangtonsAnt {
    type V = AntState;

    closed spec fn view(&self) -> AntState {
        AntState {
            grid: rows_of(self.grid@),
            x: self.x as int,
            y: self.y as int,
            direction: self.direction,
        }
    }
}

impl LangtonsAnt {
    /// What holds of every ant: its grid is square and not empty, and its
    /// position is a cell of the grid.
    #[verifier::type_invariant]
    closed spec fn inv(&self) -> bool {
        &&& self.grid@.len() > 0
        &&& is_square(self.grid@, self.grid@.len() as int)
        &&& self.x < self.grid@.len()
        &&& self.y < self.grid@.len()
    }

    /// An ant facing up at column `x`, row `y` of an all-off grid of side
    /// `grid_size`.
    pub fn at(grid_size: usize, x: usize, y: usize) -> (ant: LangtonsAnt)
        requires
            x < grid_size,
            y < grid_size,
        ensures
            ant@.fresh(grid_size as int),
            ant@.x == x,
            ant@.y == y,
    {
        let grid = vec![vec![false; grid_size]; grid_size];
        let ant = LangtonsAnt { grid, x, y, direction: Direction::Up };
        assert forall|cx: int, cy: int| ant@.in_grid(cx, cy) implies !#[trigger] ant@.cell(cx, cy) by {
            assert(ant@.grid[cy] == grid@[cy]@);
        }
        ant
    }

    /// An ant facing up from the middle cell `(grid_size / 2, grid_size / 2)`
    /// of an all-off grid.
    pub fn centered(grid_size: usize) -> (ant: LangtonsAnt)
        requires
            grid_size > 0,
        ensures
            ant@.fresh(grid_size as int),
            ant@.x == grid_size / 2,
            ant@.y == grid_size / 2,
    {
        Self::at(grid_size, grid_size / 2, grid_size / 2)
    }

    /// An ant facing up from a cell of an all-off grid of side `grid_size`,
    /// the column and the row each drawn at random from `0..grid_size`.
    pub fn new(grid_size: usize) -> (ant: LangtonsAnt)
        requires
            grid_size > 0,
        ensures
            ant@.fresh(grid_size as int),
    {
        let mut rng = rand::thread_rng();
        let x = index_below(&mut rng, grid_size);
        let y = index_below(&mut rng, grid_size);
        Self::at(grid_size, x, y)
    }

    /// An ant with the given grid, position and facing, if they make a
    /// valid state: the grid is square and not empty, and `(x, y)` is one of
    /// its cells.
    pub fn from_parts(grid: Vec<Vec<bool>>, x: usize, y: usize, direction: Direction) -> (made: Option<LangtonsAnt>)
        ensures
            made is Some <==> state_of(grid@, x as int, y as int, direction).wf(),
            made matches Some(ant) ==> ant@ == state_of(grid@, x as int, y as int, direction),
    {
        let size = grid.len();
        let ghost state = state_of(grid@, x as int, y as int, direction);
        if x >= size || y >= size {
            return None;
        }
        let mut r: usize = 0;
        while r < size
            invariant
                r <= size,
                size == grid@.len(),
                state == state_of(grid@, x as int, y as int, direction),
                forall|k: int| 0 <= k < r ==> (#[trigger] grid@[k])@.len() == size,
            decreases size - r,
        {
            if grid[r].len() != size {
                assert(state.grid[r as int] == grid@[r as int]@);
                return None;
            }
            r += 1;
        }
        assert forall|k: int| 0 <= k < state.size() implies (#[trigger] state.grid[k]).len() == state.size() by {
            assert(state.grid[k] == grid@[k]@);
        }
        Some(LangtonsAnt { grid, x, y, direction })
    }

    /// Side length of the grid.
    pub fn grid_size(&self) -> (size: usize)
        ensures
            size == self@.size(),
            self@.wf(),
    {
        proof {
            use_type_invariant(self);
            self.lemma_view_wf();
        }
        self.grid.len()
    }

    /// Column of the ant.
    pub fn x(&self) -> (x: usize)
        ensures
            x == self@.x,
            self@.wf(),
    {
        proof {
            use_type_invariant(self);
            self.lemma_view_wf();
        }
        self.x
    }

    /// Row of the ant.
    pub fn y(&self) -> (y: usize)
        ensures
            y == self@.y,
            self@.wf(),
    {
        proof {
            use_type_invariant(self);
            self.lemma_view_wf();
        }
        self.y
    }

    /// Facing of the ant.
    pub fn direction(&self) -> (direction: Direction)
        ensures
            direction == self@.direction,
    {
        self.direction
    }

    /// Colour of the cell in column `x`, row `y`.
    pub fn cell(&self, x: usize, y: usize) -> (on: bool)
        requires
            self@.in_grid(x as int, y as int),
        ensures
            on == self@.cell(x as int, y as int),
    {
        proof {
            use_type_invariant(self);
            self.lemma_view_wf();
        }
        assert(self@.grid[y as int] == self.grid@[y as int]@);
        self.grid[y][x]
    }

    /// Advances the ant by one tick: toggles the cell under it, turns by the
    /// new colour of that cell, and moves one cell in the new facing unless
    /// the edge of the grid is in the way.
    pub fn step(&mut self)
        ensures
            final(self)@ == old(self)@.step(),
            final(self)@.wf(),
            final(self)@.size() == old(self)@.size(),
    {
        proof {
            use_type_invariant(&*self);
            self.lemma_view_wf();
        }
        let ghost before = self@;
        assert(before.grid[self.y as int] == self.grid@[self.y as int]@);
        let on = toggle(&mut self.grid, self.x, self.y);
        assert(self@.grid =~= before.toggled_grid());
        self.direction = self.direction.turn(on);
        match self.direction {
            Direction::Up => {
                if self.y > 0 {
                    self.y -= 1;
                }
            },
            Direction::Right => {
                if self.x < self.grid[0].len() - 1 {
                    self.x += 1;
                }
            },
            Direction::Down => {
                if self.y < self.grid.len() - 1 {
                    self.y += 1;
                }
            },
            Direction::Left => {
                if self.x > 0 {
                    self.x -= 1;
                }
            },
        }
        proof {
            use_type_invariant(&*self);
            self.lemma_view_wf();
        }
    }

    /// The invariant of the type, read through the view.
    proof fn lemma_view_wf(&self)
        requires
            self.inv(),
        ensures
            self@.wf(),
    {
        assert forall|r: int| 0 <= r < self@.size() implies (#[trigger] self@.grid[r]).len() == self@.size() by {
            assert(self@.grid[r] == self.grid@[r]@);
        }
    }
}

/// Inverts the cell in column `x`, row `y` and returns its new colour.
fn toggle(grid: &mut Vec<Vec<bool>>, x: usize, y: usize) -> (on: bool)
    requires
        y < old(grid)@.len(),
        x < old(grid)@[y as int]@.len(),
    ensures
        final(grid)@.len() == old(grid)@.len(),
        forall|r: int| 0 <= r < old(grid)@.len() && r != y ==> #[trigger] final(grid)@[r] == old(grid)@[r],
        final(grid)@[y as int]@ == old(grid)@[y as int]@.update(x as int, on),
        on == !old(grid)@[y as int]@[x as int],
    no_unwind
{
    grid[y][x] = !grid[y][x];
    grid[y][x]
}

} // verus!
