//! Coordinates and the four compass directions.

use vstd::prelude::*;

verus! {

/// One of the four directions in which a cell can have a neighbour.
///
/// North is towards smaller `y`, West towards smaller `x`.
#[derive(Debug, Copy, Clone, PartialEq, Eq, Structural)]
pub enum Dir {
    North,
    South,
    East,
    West,
}

/// The position of a cell: column `x`, row `y`, both counted from zero.
#[derive(Debug, Copy, Clone, PartialEq, Eq, Structural)]
pub struct Point {
    pub x: usize,
    pub y: usize,
}

impl Dir {
    /// The direction that leads back.
    pub open spec fn opposite(self) -> Dir {
        match self {
            Dir::North => Dir::South,
            Dir::South => Dir::North,
            Dir::East => Dir::West,
            Dir::West => Dir::East,
        }
    }

    /// Change of `x` on one step in this direction.
    pub open spec fn dx(self) -> int {
        match self {
            Dir::East => 1,
            Dir::West => -1,
            _ => 0,
        }
    }

    /// Change of `y` on one step in this direction.
    pub open spec fn dy(self) -> int {
        match self {
            Dir::South => 1,
            Dir::North => -1,
            _ => 0,
        }
    }
}

impl Point {
    /// The point one step away in direction `dir`, if both of its
    /// coordinates are representable: a step never wraps around.
    pub open spec fn spec_translate(&self, dir: Dir) -> Option<Point> {
        let x = self.x + dir.dx();
        let y = self.y + dir.dy();
        if 0 <= x <= usize::MAX && 0 <= y <= usize::MAX {
            Some(Point { x: x as usize, y: y as usize })
        } else {
            None
        }
    }

    /// Moves one step in direction `dir`.
    ///
    /// Yields nothing where the step would leave the range of coordinates:
    /// north of row 0, west of column 0, or past the largest `usize`.
    #[verifier::when_used_as_spec(spec_translate)]
    pub fn translate(&self, dir: Dir) -> (r: Option<Point>)
        ensures
            r == self.spec_translate(dir),
    {
        match dir {
            Dir::North => match self.y.checked_sub(1) {
                Some(y) => Some(Point { x: self.x, y }),
                None => None,
            },
            Dir::South => match self.y.checked_add(1) {
                Some(y) => Some(Point { x: self.x, y }),
                None => None,
            },
            Dir::East => match self.x.checked_add(1) {
                Some(x) => Some(Point { x, y: self.y }),
                None => None,
            },
            Dir::West => match self.x.checked_sub(1) {
                Some(x) => Some(Point { x, y: self.y }),
                None => None,
            },
        }
    }
}

} // verus!
