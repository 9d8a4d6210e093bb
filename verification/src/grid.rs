//! The mathematical model of a maze.

use vstd::prelude::*;
use vstd::arithmetic::div_mod::{lemma_fundamental_div_mod, lemma_fundamental_div_mod_converse};
use crate::point::{Dir, Point};

verus! {

/// The four passage states of one cell.
#[derive(Debug, Copy, Clone, PartialEq, Eq, Structural)]
pub struct Cell {
    pub north: bool,
    pub east: bool,
    pub south: bool,
    pub west: bool,
}

/// A maze as a mathematical value: its dimensions and one flag for every
/// wall between two cells, `true` while the wall stands.
///
/// The wall between `(x, y)` and `(x + 1, y)` is `east_walls[x + (width - 1) * y]`;
/// the wall between `(x, y)` and `(x, y + 1)` is `south_walls[x + width * y]`.
/// The outer boundary has no flags: nothing lies beyond it.
pub struct Grid {
    pub width: nat,
    pub height: nat,
    pub east_walls: Seq<bool>,
    pub south_walls: Seq<bool>,
}

impl Grid {
    /// Both dimensions are positive, the number of cells is representable,
    /// and there is exactly one flag for every inner wall.
    pub open spec fn wf(self) -> bool {
        &&& self.width > 0
        &&& self.height > 0
        &&& self.width * self.height <= usize::MAX
        &&& self.east_walls.len() == self.height * (self.width - 1)
        &&& self.south_walls.len() == self.width * (self.height - 1)
    }

    /// The grid of the given dimensions in which every wall stands.
    pub open spec fn closed(width: nat, height: nat) -> Grid {
        Grid {
            width,
            height,
            east_walls: Seq::new((height * (width - 1)) as nat, |i: int| true),
            south_walls: Seq::new((width * (height - 1)) as nat, |i: int| true),
        }
    }

    /// Whether every wall of the grid stands.
    pub open spec fn is_closed(self) -> bool {
        &&& forall|i: int| 0 <= i < self.east_walls.len() ==> self.east_walls[i]
        &&& forall|i: int| 0 <= i < self.south_walls.len() ==> self.south_walls[i]
    }

    /// Whether `p` names a cell of the grid.
    pub open spec fn valid(self, p: Point) -> bool {
        p.x < self.width && p.y < self.height
    }

    /// Whether `p` is a cell on the outer ring of the grid.
    pub open spec fn edge(self, p: Point) -> bool {
        &&& self.valid(p)
        &&& p.x == 0 || p.y == 0 || p.x == self.width - 1 || p.y == self.height - 1
    }

    /// Whether `p` lies in a first or last column and in a first or last
    /// row. Unlike [`Grid::edge`] this does not ask that `p` is a cell; see
    /// [`Grid::lemma_corner_is_edge`].
    pub open spec fn corner(self, p: Point) -> bool {
        (p.x == 0 || p.x == self.width - 1) && (p.y == 0 || p.y == self.height - 1)
    }

    /// The cell one step from `p` in direction `d`, if there is one.
    pub open spec fn neighbor(self, p: Point, d: Dir) -> Option<Point> {
        match p.spec_translate(d) {
            Some(q) => if self.valid(q) {
                Some(q)
            } else {
                None
            },
            None => None,
        }
    }

    /// Where the flag of the wall on the east side of `p` is kept.
    pub open spec fn east_index(self, p: Point) -> int {
        p.x + (self.width - 1) * p.y
    }

    /// Where the flag of the wall on the south side of `p` is kept.
    pub open spec fn south_index(self, p: Point) -> int {
        p.x + self.width * p.y
    }

    /// Whether there is a wall, standing or carved, on side `d` of `p`:
    /// `p` is a cell and has a neighbour there.
    pub open spec fn has_wall(self, p: Point, d: Dir) -> bool {
        self.valid(p) && self.neighbor(p, d) is Some
    }

    /// Whether one can pass from cell `p` to its neighbour in direction `d`.
    ///
    /// Going south or east reads the cell's own flag; going north or west
    /// reads the south or east flag of the neighbour.
    pub open spec fn passage(self, p: Point, d: Dir) -> bool {
        self.valid(p) && match self.neighbor(p, d) {
            Some(q) => match d {
                Dir::North => !self.south_walls[self.south_index(q)],
                Dir::South => !self.south_walls[self.south_index(p)],
                Dir::East => !self.east_walls[self.east_index(p)],
                Dir::West => !self.east_walls[self.east_index(q)],
            },
            None => false,
        }
    }

    /// The four passage states of `p`.
    pub open spec fn cell(self, p: Point) -> Cell {
        Cell {
            north: self.passage(p, Dir::North),
            east: self.passage(p, Dir::East),
            south: self.passage(p, Dir::South),
            west: self.passage(p, Dir::West),
        }
    }

    /// The grid with the wall on side `d` of `p` removed; the grid itself
    /// where there is no such wall.
    pub open spec fn carve(self, p: Point, d: Dir) -> Grid {
        if self.valid(p) {
            match self.neighbor(p, d) {
                Some(q) => match d {
                    Dir::North => Grid {
                        south_walls: self.south_walls.update(self.south_index(q), false),
                        ..self
                    },
                    Dir::South => Grid {
                        south_walls: self.south_walls.update(self.south_index(p), false),
                        ..self
                    },
                    Dir::East => Grid {
                        east_walls: self.east_walls.update(self.east_index(p), false),
                        ..self
                    },
                    Dir::West => Grid {
                        east_walls: self.east_walls.update(self.east_index(q), false),
                        ..self
                    },
                },
                None => self,
            }
        } else {
            self
        }
    }

    /// The cell with linear index `n`, counting row by row.
    pub open spec fn nth_point(self, n: nat) -> Option<Point> {
        let x = n % self.width;
        let y = n / self.width;
        if x < self.width && y < self.height {
            Some(Point { x: x as usize, y: y as usize })
        } else {
            None
        }
    }

    /// The linear index of `p`, counting row by row.
    pub open spec fn index_of(self, p: Point) -> int {
        p.x + self.width * p.y
    }

    /// All cells of the grid, row by row.
    pub open spec fn cells(self) -> Seq<Point> {
        Seq::new(
            self.width * self.height,
            |i: int|
                Point { x: (i % self.width as int) as usize, y: (i / self.width as int) as usize },
        )
    }

    /// The grid in which every wall stands is well formed, and is the only
    /// one of its dimensions in which every wall stands.
    pub proof fn lemma_closed(width: nat, height: nat)
        requires
            width > 0,
            height > 0,
            width * height <= usize::MAX,
        ensures
            Grid::closed(width, height).wf(),
            Grid::closed(width, height).is_closed(),
            forall|g: Grid|
                g.wf() && #[trigger] g.is_closed() && g.width == width && g.height == height
                    ==> g == Grid::closed(width, height),
    {
        assert(height * (width - 1) >= 0 && width * (height - 1) >= 0) by (nonlinear_arith)
            requires
                width > 0,
                height > 0,
        ;
        assert forall|g: Grid|
            g.wf() && #[trigger] g.is_closed() && g.width == width && g.height
                == height implies g == Grid::closed(width, height) by {
            let c = Grid::closed(width, height);
            assert(g.east_walls =~= c.east_walls);
            assert(g.south_walls =~= c.south_walls);
        }
    }

    /// A corner is a cell, and lies on the outer ring: the test that
    /// [`Grid::corner`] leaves out would change nothing in a well-formed
    /// grid.
    pub proof fn lemma_corner_is_edge(self, p: Point)
        requires
            self.wf(),
            self.corner(p),
        ensures
            self.valid(p),
            self.edge(p),
    {
    }

    /// Counting row by row numbers the cells from 0 to the number of cells:
    /// below it `n` names the cell `cells()[n]`, whose index is `n`; from
    /// there on it names nothing.
    pub proof fn lemma_nth_point(self, n: nat)
        requires
            self.wf(),
        ensures
            n < self.width * self.height ==> {
                &&& self.nth_point(n) == Some(self.cells()[n as int])
                &&& self.valid(self.cells()[n as int])
                &&& self.index_of(self.cells()[n as int]) == n
            },
            n >= self.width * self.height ==> self.nth_point(n) is None,
    {
        let w = self.width as int;
        let h = self.height as int;
        let x = n as int % w;
        let y = n as int / w;
        lemma_fundamental_div_mod(n as int, w);
        assert(w <= w * h) by (nonlinear_arith)
            requires
                w > 0,
                h > 0,
        ;
        assert((y < h) <==> (w * y + x < w * h)) by (nonlinear_arith)
            requires
                0 <= x < w,
        ;
        assert(0 <= y) by (nonlinear_arith)
            requires
                0 <= x < w,
                0 <= w * y + x,
        ;
        assert(h <= w * h) by (nonlinear_arith)
            requires
                w > 0,
                h > 0,
        ;
    }

    /// A cell is the one that its row-by-row index names.
    pub proof fn lemma_index_of(self, p: Point)
        requires
            self.wf(),
            self.valid(p),
        ensures
            0 <= self.index_of(p) < self.width * self.height,
            self.nth_point(self.index_of(p) as nat) == Some(p),
            self.cells()[self.index_of(p)] == p,
    {
        let w = self.width as int;
        let h = self.height as int;
        let x = p.x as int;
        let y = p.y as int;
        assert(0 <= x + w * y < w * h && x + w * y == y * w + x) by (nonlinear_arith)
            requires
                0 <= x < w,
                0 <= y < h,
        ;
        lemma_fundamental_div_mod_converse(x + w * y, w, y, x);
    }

    /// The row-by-row listing holds every cell of the grid exactly once,
    /// and nothing else: rows from the first to the last, and each row
    /// from west to east.
    pub proof fn lemma_cells_enumerate(self)
        requires
            self.wf(),
        ensures
            self.cells().len() == self.width * self.height,
            forall|i: int| 0 <= i < self.cells().len() ==> self.valid(#[trigger] self.cells()[i]),
            forall|p: Point|
                self.valid(p) ==> 0 <= #[trigger] self.index_of(p) < self.cells().len()
                    && self.cells()[self.index_of(p)] == p,
            forall|i: int, j: int|
                0 <= i < j < self.cells().len() ==> {
                    let p = #[trigger] self.cells()[i];
                    let q = #[trigger] self.cells()[j];
                    p.y < q.y || (p.y == q.y && p.x < q.x)
                },
            forall|i: int, j: int|
                0 <= i < j < self.cells().len() ==> #[trigger] self.cells()[i]
                    != #[trigger] self.cells()[j],
    {
        assert forall|i: int| 0 <= i < self.cells().len() implies self.valid(
            #[trigger] self.cells()[i],
        ) by {
            self.lemma_nth_point(i as nat);
        }
        assert forall|p: Point| self.valid(p) implies 0 <= #[trigger] self.index_of(p)
            < self.cells().len() && self.cells()[self.index_of(p)] == p by {
            self.lemma_index_of(p);
        }
        assert forall|i: int, j: int| 0 <= i < j < self.cells().len() implies ({
            let p = #[trigger] self.cells()[i];
            let q = #[trigger] self.cells()[j];
            p.y < q.y || (p.y == q.y && p.x < q.x)
        }) by {
            self.lemma_nth_point(i as nat);
            self.lemma_nth_point(j as nat);
            let w = self.width as int;
            let p = self.cells()[i];
            let q = self.cells()[j];
            assert(p.y <= q.y) by (nonlinear_arith)
                requires
                    p.x + w * p.y < q.x + w * q.y,
                    0 <= p.x < w,
                    0 <= q.x < w,
            ;
        }
    }

    /// The flag of the wall east of a cell that has an eastern neighbour
    /// lies inside `east_walls`.
    pub proof fn lemma_east_index_bound(self, p: Point)
        requires
            self.wf(),
            p.x + 1 < self.width,
            p.y < self.height,
        ensures
            0 <= self.east_index(p) < self.east_walls.len(),
            self.east_walls.len() <= usize::MAX,
    {
        let w = self.width as int;
        let h = self.height as int;
        let x = p.x as int;
        let y = p.y as int;
        assert(x + (w - 1) * y < h * (w - 1) && 0 <= (w - 1) * y && h * (w - 1) <= w * h)
            by (nonlinear_arith)
            requires
                0 <= x,
                x + 1 < w,
                0 <= y < h,
        ;
    }

    /// The flag of the wall south of a cell that has a southern neighbour
    /// lies inside `south_walls`.
    pub proof fn lemma_south_index_bound(self, p: Point)
        requires
            self.wf(),
            p.x < self.width,
            p.y + 1 < self.height,
        ensures
            0 <= self.south_index(p) < self.south_walls.len(),
            self.south_walls.len() <= usize::MAX,
    {
        let w = self.width as int;
        let h = self.height as int;
        let x = p.x as int;
        let y = p.y as int;
        assert(x + w * y < w * (h - 1) && 0 <= w * y && w * (h - 1) <= w * h)
            by (nonlinear_arith)
            requires
                0 <= x < w,
                0 <= y,
                y + 1 < h,
        ;
    }

    /// Two cells with an eastern neighbour keep the flags of their east
    /// walls in different places.
    pub proof fn lemma_east_index_injective(self, p: Point, q: Point)
        requires
            self.wf(),
            p.x + 1 < self.width,
            q.x + 1 < self.width,
            self.east_index(p) == self.east_index(q),
        ensures
            p == q,
    {
        let w = self.width as int;
        assert(p.y == q.y && p.x == q.x) by (nonlinear_arith)
            requires
                0 <= p.x < w - 1,
                0 <= q.x < w - 1,
                0 <= p.y,
                0 <= q.y,
                p.x + (w - 1) * p.y == q.x + (w - 1) * q.y,
        ;
    }

    /// Two cells keep the flags of their south walls in different places.
    pub proof fn lemma_south_index_injective(self, p: Point, q: Point)
        requires
            self.wf(),
            p.x < self.width,
            q.x < self.width,
            self.south_index(p) == self.south_index(q),
        ensures
            p == q,
    {
        let w = self.width as int;
        assert(p.y == q.y && p.x == q.x) by (nonlinear_arith)
            requires
                0 <= p.x < w,
                0 <= q.x < w,
                0 <= p.y,
                0 <= q.y,
                p.x + w * p.y == q.x + w * q.y,
        ;
    }

    /// Carving keeps the grid well formed and its dimensions.
    pub proof fn lemma_carve_wf(self, p: Point, d: Dir)
        requires
            self.wf(),
        ensures
            self.carve(p, d).wf(),
            self.carve(p, d).width == self.width,
            self.carve(p, d).height == self.height,
    {
        if self.has_wall(p, d) {
            let q = self.neighbor(p, d).unwrap();
            match d {
                Dir::North => self.lemma_south_index_bound(q),
                Dir::South => self.lemma_south_index_bound(p),
                Dir::East => self.lemma_east_index_bound(p),
                Dir::West => self.lemma_east_index_bound(q),
            }
        }
    }
}

} // verus!
