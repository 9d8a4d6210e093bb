//! The maze itself: wall storage and the queries on it.

use vstd::prelude::*;
use crate::grid::{Cell, Grid};
use crate::point::{Dir, Point};

verus! {

/// The request has no meaning on this grid: a dimension of zero, or a wall
/// that does not exist.
#[derive(Debug, Copy, Clone, PartialEq, Eq, Structural)]
pub struct BoundsError;

/// A rectangular maze of fixed dimensions.
#[derive(Debug)]
pub struct Maze {
    width: usize,
    height: usize,
    east_walls: Vec<bool>,
    south_walls: Vec<bool>,
}

impl View for Maze {
    type V = Grid;

    closed spec fn view(&self) -> Grid {
        Grid {
            width: self.width as nat,
            height: self.height as nat,
            east_walls: self.east_walls@,
            south_walls: self.south_walls@,
        }
    }
}

impl Maze {
    /// Every maze that exists is well formed.
    #[verifier::type_invariant]
    pub open spec fn wf(&self) -> bool {
        self@.wf()
    }

    /// A maze of the given dimensions with every wall standing.
    ///
    /// Fails exactly when a dimension is zero. The number of cells has to
    /// be representable.
    pub fn new(width: usize, height: usize) -> (r: Result<Maze, BoundsError>)
        requires
            width * height <= usize::MAX,
        ensures
            r is Err <==> width == 0 || height == 0,
            r matches Ok(m) ==> m@ == Grid::closed(width as nat, height as nat),
    {
        if width > 0 && height > 0 {
            assert(height * (width - 1) <= width * height) by (nonlinear_arith)
                requires
                    width > 0,
                    height > 0,
            ;
            assert(width * (height - 1) <= width * height) by (nonlinear_arith)
                requires
                    width > 0,
                    height > 0,
            ;
            let east_walls = vec![true; height * (width - 1)];
            let south_walls = vec![true; width * (height - 1)];
            let m = Maze { width, height, east_walls, south_walls };
            assert(m@.east_walls =~= Grid::closed(width as nat, height as nat).east_walls);
            assert(m@.south_walls =~= Grid::closed(width as nat, height as nat).south_walls);
            Ok(m)
        } else {
            Err(BoundsError)
        }
    }

    /// The number of columns.
    pub fn width(&self) -> (w: usize)
        ensures
            w == self@.width,
    {
        self.width
    }

    /// The number of rows.
    pub fn height(&self) -> (h: usize)
        ensures
            h == self@.height,
    {
        self.height
    }

    /// Whether `point` names a cell of the maze.
    pub fn valid(&self, point: Point) -> (r: bool)
        ensures
            r == self@.valid(point),
    {
        point.x < self.width && point.y < self.height
    }

    /// Whether `point` is a cell on the outer ring of the maze.
    pub fn edge(&self, point: Point) -> (r: bool)
        ensures
            r == self@.edge(point),
    {
        proof {
            use_type_invariant(self);
        }
        self.valid(point) && (point.x == 0 || point.y == 0 || point.x == self.width - 1
            || point.y == self.height - 1)
    }

    /// Whether `point` lies in a first or last column and in a first or
    /// last row. Nothing here tests that `point` is a cell, but only a
    /// cell on the outer ring can pass.
    pub fn corner(&self, point: Point) -> (r: bool)
        ensures
            r == self@.corner(point),
            r ==> self@.edge(point),
    {
        proof {
            use_type_invariant(self);
        }
        (point.x == 0 || point.x == self.width - 1)
            && (point.y == 0 || point.y == self.height - 1)
    }

    /// The cell one step from `point` in direction `dir`, if there is one.
    pub fn neighbor(&self, point: Point, dir: Dir) -> (r: Option<Point>)
        ensures
            r == self@.neighbor(point, dir),
    {
        match point.translate(dir) {
            Some(n) => if self.valid(n) {
                Some(n)
            } else {
                None
            },
            None => None,
        }
    }

    /// The cell with linear index `n`, counting row by row; nothing from
    /// the number of cells on.
    pub fn nth_point(&self, n: usize) -> (r: Option<Point>)
        ensures
            r == self@.nth_point(n as nat),
            r is Some <==> n < self@.width * self@.height,
    {
        proof {
            use_type_invariant(self);
            self@.lemma_nth_point(n as nat);
        }
        let pt = Point { x: n % self.width, y: n / self.width };
        if self.valid(pt) {
            Some(pt)
        } else {
            None
        }
    }

    /// A walk over all cells of the maze, row by row, from the start.
    pub fn iter(&self) -> (it: MazeIterator<'_>)
        ensures
            it@ == self@.cells(),
            it.grid() == self@,
    {
        proof {
            use_type_invariant(self);
        }
        MazeIterator { maze: self, n: 0 }
    }

    /// The place in `east_walls` of the wall east of `point`.
    fn east_slot(&self, point: Point) -> (i: usize)
        requires
            point.x + 1 < self@.width,
            point.y < self@.height,
        ensures
            i == self@.east_index(point),
            i < self.east_walls.len(),
    {
        proof {
            use_type_invariant(self);
            self@.lemma_east_index_bound(point);
        }
        point.x + (self.width - 1) * point.y
    }

    /// The place in `south_walls` of the wall south of `point`.
    fn south_slot(&self, point: Point) -> (i: usize)
        requires
            point.x < self@.width,
            point.y + 1 < self@.height,
        ensures
            i == self@.south_index(point),
            i < self.south_walls.len(),
    {
        proof {
            use_type_invariant(self);
            self@.lemma_south_index_bound(point);
        }
        point.x + self.width * point.y
    }

    /// Whether one can pass from `point` to its neighbour in direction
    /// `dir`. There is no passage out of the maze, nor from outside it.
    pub fn passage(&self, point: Point, dir: Dir) -> (r: bool)
        ensures
            r == self@.passage(point, dir),
    {
        if !self.valid(point) {
            return false;
        }
        match self.neighbor(point, dir) {
            Some(n) => match dir {
                Dir::North => !self.south_walls[self.south_slot(n)],
                Dir::South => !self.south_walls[self.south_slot(point)],
                Dir::East => !self.east_walls[self.east_slot(point)],
                Dir::West => !self.east_walls[self.east_slot(n)],
            },
            None => false,
        }
    }

    /// The four passage states of `point`.
    pub fn cell(&self, point: Point) -> (r: Cell)
        ensures
            r == self@.cell(point),
    {
        Cell {
            north: self.passage(point, Dir::North),
            south: self.passage(point, Dir::South),
            east: self.passage(point, Dir::East),
            west: self.passage(point, Dir::West),
        }
    }

    /// Removes the wall between `point` and its neighbour in direction
    /// `dir`. Carving a wall that is already gone changes nothing.
    ///
    /// Fails, and leaves the maze as it was, exactly when there is no such
    /// wall: `point` is no cell, or it has no neighbour in that direction.
    pub fn carve(&mut self, point: Point, dir: Dir) -> (r: Result<(), BoundsError>)
        ensures
            r is Ok <==> old(self)@.has_wall(point, dir),
            final(self)@ == old(self)@.carve(point, dir),
    {
        proof {
            use_type_invariant(&*self);
        }
        if !self.valid(point) {
            return Err(BoundsError);
        }
        match self.neighbor(point, dir) {
            Some(n) => {
                match dir {
                    Dir::North => {
                        let i = self.south_slot(n);
                        self.south_walls[i] = false;
                    },
                    Dir::South => {
                        let i = self.south_slot(point);
                        self.south_walls[i] = false;
                    },
                    Dir::East => {
                        let i = self.east_slot(point);
                        self.east_walls[i] = false;
                    },
                    Dir::West => {
                        let i = self.east_slot(n);
                        self.east_walls[i] = false;
                    },
                }
                Ok(())
            },
            None => Err(BoundsError),
        }
    }
}

/// A walk over the cells of a maze, row by row. Its view is the cells
/// still to come.
pub struct MazeIterator<'a> {
    maze: &'a Maze,
    n: usize,
}

impl<'a> View for MazeIterator<'a> {
    type V = Seq<Point>;

    closed spec fn view(&self) -> Seq<Point> {
        self.maze@.cells().skip(self.n as int)
    }
}

impl<'a> MazeIterator<'a> {
    /// The walk never runs past the last cell.
    #[verifier::type_invariant]
    closed spec fn inv(&self) -> bool {
        self.maze@.wf() && self.n <= self.maze@.width * self.maze@.height
    }

    /// The grid whose cells are walked.
    pub closed spec fn grid(&self) -> Grid {
        self.maze@
    }

    /// The next cell, if any is left. Once the walk has ended it stays
    /// ended.
    pub fn next(&mut self) -> (r: Option<Point>)
        ensures
            final(self).grid() == old(self).grid(),
            old(self)@.len() == 0 ==> r is None && final(self)@ == old(self)@,
            old(self)@.len() > 0 ==> r == Some(old(self)@[0]) && final(self)@ == old(self)@.skip(
                1,
            ),
    {
        proof {
            use_type_invariant(&*self);
            self.maze@.lemma_nth_point(self.n as nat);
        }
        let pt = self.maze.nth_point(self.n);
        if pt.is_some() {
            assert(self.maze@.cells().skip(self.n as int).skip(1) =~= self.maze@.cells().skip(
                self.n + 1,
            ));
            self.n += 1;
        }
        pt
    }
}

} // verus!
