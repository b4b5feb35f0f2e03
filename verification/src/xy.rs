//! Grid coordinates and the four directions a snake can face.

use vstd::prelude::*;

verus! {

/// Used for coordinates and grid size. (0, 0) is top left.
#[derive(PartialEq, Eq, Structural, Clone, Copy, Debug)]
pub struct XY {
    pub x: u8,
    pub y: u8,
}

/// One of the four directions of the grid.
#[derive(PartialEq, Eq, Structural, Clone, Copy, Debug)]
pub enum Direction {
    Up,
    Down,
    Left,
    Right,
}

impl Direction {
    /// The direction that points the other way along the same axis.
    pub open spec fn inverse(self) -> Direction {
        match self {
            Direction::Up => Direction::Down,
            Direction::Down => Direction::Up,
            Direction::Left => Direction::Right,
            Direction::Right => Direction::Left,
        }
    }

    /// Whether `self` and `other` point opposite ways along the same axis.
    pub open spec fn opposes(self, other: Direction) -> bool {
        other == self.inverse()
    }

    /// Whether `self` is the inverse of `other`: up and down are inverses of
    /// each other, and so are left and right.
    pub fn is_inverse_of(self, other: Direction) -> (r: bool)
        ensures
            r == self.opposes(other),
    {
        let inverse = match self {
            Direction::Up => Direction::Down,
            Direction::Down => Direction::Up,
            Direction::Left => Direction::Right,
            Direction::Right => Direction::Left,
        };
        other == inverse
    }
}

impl XY {
    /// The coordinate with the given column and row.
    pub fn new(x: u8, y: u8) -> (r: XY)
        ensures
            r == (XY { x, y }),
    {
        XY { x, y }
    }

    /// The cell one unit from `self` towards `direction`, where the
    /// coordinate type can hold it: there is none above row 0, left of
    /// column 0, or beyond row or column 255.
    pub open spec fn shifted(self, direction: Direction) -> Option<XY> {
        match direction {
            Direction::Up => if self.y > 0 {
                Some(XY { x: self.x, y: (self.y - 1) as u8 })
            } else {
                None
            },
            Direction::Down => if self.y < u8::MAX {
                Some(XY { x: self.x, y: (self.y + 1) as u8 })
            } else {
                None
            },
            Direction::Left => if self.x > 0 {
                Some(XY { x: (self.x - 1) as u8, y: self.y })
            } else {
                None
            },
            Direction::Right => if self.x < u8::MAX {
                Some(XY { x: (self.x + 1) as u8, y: self.y })
            } else {
                None
            },
        }
    }

    /// Whether `self` and `other` are neighbours: one unit apart along
    /// exactly one axis.
    pub open spec fn touches(self, other: XY) -> bool {
        ||| self.x == other.x && (self.y == other.y + 1 || other.y == self.y + 1)
        ||| self.y == other.y && (self.x == other.x + 1 || other.x == self.x + 1)
    }

    /// Whether `self` is a cell of a grid of size `grid`.
    pub open spec fn within(self, grid: XY) -> bool {
        self.x < grid.x && self.y < grid.y
    }

    /// Whether `self` comes before `other` when the cells of a grid are
    /// walked column by column, each column from the top down.
    pub open spec fn precedes(self, other: XY) -> bool {
        self.x < other.x || (self.x == other.x && self.y < other.y)
    }

    /// Shifts a position by 1 in `direction`. This is checked: stepping off
    /// the top or left edge, or past what a coordinate can hold, gives `None`
    /// instead of staying in place.
    pub fn shift(&self, direction: Direction) -> (r: Option<XY>)
        ensures
            r == self.shifted(direction),
    {
        match direction {
            Direction::Up => match self.y.checked_sub(1) {
                Some(y) => Some(XY::new(self.x, y)),
                None => None,
            },
            Direction::Down => match self.y.checked_add(1) {
                Some(y) => Some(XY::new(self.x, y)),
                None => None,
            },
            Direction::Left => match self.x.checked_sub(1) {
                Some(x) => Some(XY::new(x, self.y)),
                None => None,
            },
            Direction::Right => match self.x.checked_add(1) {
                Some(x) => Some(XY::new(x, self.y)),
                None => None,
            },
        }
    }
}

/// A shift that stays on the grid moves exactly one unit along the axis of
/// its direction and leaves the other axis alone, and shifting back in the
/// inverse direction returns to the start.
pub proof fn lemma_shift_round_trip(c: XY, d: Direction)
    requires
        c.shifted(d) is Some,
    ensures
        ({
            let s = c.shifted(d).unwrap();
            match d {
                Direction::Up => s.x == c.x && s.y == c.y - 1,
                Direction::Down => s.x == c.x && s.y == c.y + 1,
                Direction::Left => s.x == c.x - 1 && s.y == c.y,
                Direction::Right => s.x == c.x + 1 && s.y == c.y,
            }
        }),
        c.shifted(d).unwrap().touches(c),
        c.shifted(d).unwrap().shifted(d.inverse()) == Some(c),
{
}

/// A shift fails exactly at the boundary towards its direction.
pub proof fn lemma_shift_fails_at_boundary(c: XY, d: Direction)
    ensures
        c.shifted(d) is None <==> match d {
            Direction::Up => c.y == 0,
            Direction::Down => c.y == u8::MAX,
            Direction::Left => c.x == 0,
            Direction::Right => c.x == u8::MAX,
        },
{
}

/// Being inverse is symmetric, no direction is its own inverse, and the
/// inverse of the inverse is the direction itself.
pub proof fn lemma_inverse_symmetric(a: Direction, b: Direction)
    ensures
        a.opposes(b) == b.opposes(a),
        !a.opposes(a),
        a.inverse() != a,
        a.inverse().inverse() == a,
{
}

} // verus!
