//! Laws of passages: a wall belongs to the two cells that it separates,
//! and carving removes exactly one wall.

use vstd::prelude::*;
use crate::grid::Grid;
use crate::point::{Dir, Point};

verus! {

impl Grid {
    /// The cell that keeps the flag of the wall on side `d` of `p`: the
    /// northern cell of a pair of rows, the western cell of a pair of
    /// columns.
    pub open spec fn keeper(self, p: Point, d: Dir) -> Point {
        match d {
            Dir::North => Point { x: p.x, y: (p.y - 1) as usize },
            Dir::West => Point { x: (p.x - 1) as usize, y: p.y },
            _ => p,
        }
    }

    /// A passage leads both ways: the step back from a neighbour ends
    /// where the step to it began, and seen from either cell the wall
    /// between the two is the same.
    pub proof fn lemma_passage_symmetric(self, p: Point, d: Dir)
        requires
            self.valid(p),
        ensures
            self.neighbor(p, d) matches Some(q) ==> {
                &&& self.neighbor(q, d.opposite()) == Some(p)
                &&& self.passage(p, d) == self.passage(q, d.opposite())
            },
    {
    }

    /// Carving opens the wall between a cell and its neighbour, seen from
    /// both sides, and leaves every other wall as it was.
    pub proof fn lemma_carve_passage(self, p: Point, d: Dir, cell: Point, side: Dir)
        requires
            self.wf(),
            self.has_wall(p, d),
        ensures
            self.carve(p, d).passage(cell, side) <==> {
                ||| self.passage(cell, side)
                ||| cell == p && side == d
                ||| Some(cell) == self.neighbor(p, d) && side == d.opposite()
            },
    {
        let k = self.keeper(p, d);
        if self.has_wall(cell, side) {
            let other = self.keeper(cell, side);
            match d {
                Dir::North | Dir::South => {
                    self.lemma_south_index_bound(k);
                    match side {
                        Dir::North | Dir::South => {
                            self.lemma_south_index_bound(other);
                            if self.south_index(k) == self.south_index(other) {
                                self.lemma_south_index_injective(k, other);
                            }
                        },
                        _ => {},
                    }
                },
                Dir::East | Dir::West => {
                    self.lemma_east_index_bound(k);
                    match side {
                        Dir::East | Dir::West => {
                            self.lemma_east_index_bound(other);
                            if self.east_index(k) == self.east_index(other) {
                                self.lemma_east_index_injective(k, other);
                            }
                        },
                        _ => {},
                    }
                },
            }
        }
    }

    /// Carving a wall a second time succeeds and changes nothing: the
    /// passage stays open.
    pub proof fn lemma_carve_twice(self, p: Point, d: Dir)
        requires
            self.wf(),
            self.has_wall(p, d),
        ensures
            self.carve(p, d).has_wall(p, d),
            self.carve(p, d).passage(p, d),
            self.carve(p, d).carve(p, d) == self.carve(p, d),
    {
        let k = self.keeper(p, d);
        let once = self.carve(p, d);
        match d {
            Dir::North | Dir::South => {
                self.lemma_south_index_bound(k);
                assert(once.carve(p, d).south_walls =~= once.south_walls);
            },
            Dir::East | Dir::West => {
                self.lemma_east_index_bound(k);
                assert(once.carve(p, d).east_walls =~= once.east_walls);
            },
        }
    }
}

} // verus!
