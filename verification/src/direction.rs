//! The four cardinal facings and the two quarter turns between them.

use vstd::prelude::*;

verus! {

/// A cardinal facing. `Up` decreases the row, `Down` increases it, `Left`
/// decreases the column and `Right` increases it.
#[derive(Clone, Copy, PartialEq, Eq, Debug, Structural)]
pub enum Direction {
    Up,
    Right,
    Down,
    Left,
}

impl Direction {
    /// Position of the facing in clockwise order, starting from `Up`.
    pub open spec fn index(self) -> int {
        match self {
            Direction::Up => 0,
            Direction::Right => 1,
            Direction::Down => 2,
            Direction::Left => 3,
        }
    }

    /// The facing at a given position of the clockwise order.
    pub open spec fn from_index(i: int) -> Direction {
        if i == 0 {
            Direction::Up
        } else if i == 1 {
            Direction::Right
        } else if i == 2 {
            Direction::Down
        } else {
            Direction::Left
        }
    }

    /// The facing after a quarter turn clockwise.
    pub open spec fn clockwise(self) -> Direction {
        Self::from_index((self.index() + 1) % 4)
    }

    /// The facing after a quarter turn counterclockwise.
    pub open spec fn counterclockwise(self) -> Direction {
        Self::from_index((self.index() + 3) % 4)
    }

    /// The facing an ant takes on a cell whose colour, after the toggle, is
    /// `on`: clockwise on an "on" cell, counterclockwise on an "off" cell.
    pub open spec fn turned(self, on: bool) -> Direction {
        if on {
            self.clockwise()
        } else {
            self.counterclockwise()
        }
    }

    /// Change of the column made by one move in this facing.
    pub open spec fn dx(self) -> int {
        match self {
            Direction::Right => 1,
            Direction::Left => -1,
            _ => 0,
        }
    }

    /// Change of the row made by one move in this facing.
    pub open spec fn dy(self) -> int {
        match self {
            Direction::Down => 1,
            Direction::Up => -1,
            _ => 0,
        }
    }

    /// The turning rule, entry by entry: on an "on" cell up turns right,
    /// right turns down, down turns left and left turns up; on an "off" cell
    /// up turns left, right turns up, down turns right and left turns down.
    pub proof fn lemma_turning_table()
        ensures
            Direction::Up.turned(true) == Direction::Right,
            Direction::Up.turned(false) == Direction::Left,
            Direction::Right.turned(true) == Direction::Down,
            Direction::Right.turned(false) == Direction::Up,
            Direction::Down.turned(true) == Direction::Left,
            Direction::Down.turned(false) == Direction::Right,
            Direction::Left.turned(true) == Direction::Up,
            Direction::Left.turned(false) == Direction::Down,
    {
    }

    /// The two quarter turns undo each other, and four quarter turns the same
    /// way come back to the facing they started from.
    pub proof fn lemma_turns_compose(self)
        ensures
            self.clockwise().counterclockwise() == self,
            self.counterclockwise().clockwise() == self,
            self.clockwise().clockwise().clockwise().clockwise() == self,
            self.counterclockwise().counterclockwise().counterclockwise().counterclockwise() == self,
    {
    }

    /// Turns according to the colour of the cell after its toggle.
    pub fn turn(self, on: bool) -> (next: Direction)
        ensures
            next == self.turned(on),
    {
        match (self, on) {
            (Direction::Up, true) => Direction::Right,
            (Direction::Up, false) => Direction::Left,
            (Direction::Right, true) => Direction::Down,
            (Direction::Right, false) => Direction::Up,
            (Direction::Down, true) => Direction::Left,
            (Direction::Down, false) => Direction::Right,
            (Direction::Left, true) => Direction::Up,
            (Direction::Left, false) => Direction::Down,
        }
    }
}

} // verus!
