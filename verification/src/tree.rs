//! What the generator builds: on a grid whose walls all stand, a spanning
//! tree of passages.

use vstd::prelude::*;
use crate::grid::Grid;
use crate::point::{Dir, Point};

verus! {

/// The number of walls in `s` that are gone.
pub open spec fn count_open(s: Seq<bool>) -> nat
    decreases s.len(),
{
    if s.len() == 0 {
        0
    } else {
        count_open(s.drop_last()) + if s.last() {
            0nat
        } else {
            1nat
        }
    }
}

/// Where every wall stands, none is gone.
pub proof fn lemma_count_open_none(s: Seq<bool>)
    requires
        forall|i: int| 0 <= i < s.len() ==> s[i],
    ensures
        count_open(s) == 0,
    decreases s.len(),
{
    if s.len() > 0 {
        lemma_count_open_none(s.drop_last());
    }
}

/// Removing a wall that stands makes one more that is gone.
pub proof fn lemma_count_open_update(s: Seq<bool>, i: int)
    requires
        0 <= i < s.len(),
        s[i],
    ensures
        count_open(s.update(i, false)) == count_open(s) + 1,
    decreases s.len(),
{
    let t = s.update(i, false);
    if i == s.len() - 1 {
        assert(t.drop_last() =~= s.drop_last());
    } else {
        lemma_count_open_update(s.drop_last(), i);
        assert(t.drop_last() =~= s.drop_last().update(i, false));
    }
}

impl Grid {
    /// The number of passages: of walls between two cells that are gone.
    pub open spec fn passages(self) -> nat {
        count_open(self.east_walls) + count_open(self.south_walls)
    }

    /// Whether `p` and `q` are neighbouring cells with a passage between
    /// them.
    pub open spec fn linked(self, p: Point, q: Point) -> bool {
        exists|d: Dir| #[trigger] self.passage(p, d) && self.neighbor(p, d) == Some(q)
    }

    /// Whether `path` is a walk through the maze: a cell, and then each
    /// time a cell that a passage leads to.
    pub open spec fn is_path(self, path: Seq<Point>) -> bool {
        &&& path.len() > 0
        &&& self.valid(path[0])
        &&& forall|i: int| 0 <= i < path.len() - 1 ==> self.linked(#[trigger] path[i], path[i + 1])
    }

    /// Whether a walk leads from `p` to `q`.
    pub open spec fn reachable(self, p: Point, q: Point) -> bool {
        exists|path: Seq<Point>| #[trigger] self.is_path(path) && path[0] == p && path.last() == q
    }

    /// Whether every cell can be reached from every other.
    pub open spec fn connected(self) -> bool {
        forall|p: Point, q: Point|
            self.valid(p) && self.valid(q) ==> #[trigger] self.reachable(p, q)
    }

    /// Whether `cycle` is a round trip: three or more cells, all
    /// different, with a passage from each to the next and from the last
    /// back to the first.
    pub open spec fn is_cycle(self, cycle: Seq<Point>) -> bool {
        &&& cycle.len() >= 3
        &&& forall|i: int, j: int|
            0 <= i < j < cycle.len() ==> #[trigger] cycle[i] != #[trigger] cycle[j]
        &&& forall|i: int|
            0 <= i < cycle.len() - 1 ==> self.linked(#[trigger] cycle[i], cycle[i + 1])
        &&& self.linked(cycle.last(), cycle[0])
    }

    /// Whether the maze has no round trip.
    pub open spec fn acyclic(self) -> bool {
        forall|cycle: Seq<Point>| !#[trigger] self.is_cycle(cycle)
    }

    /// Whether the passages form a spanning tree of the cells: all cells
    /// hang together, there is no round trip, and there is one passage
    /// less than there are cells.
    pub open spec fn is_spanning_tree(self) -> bool {
        &&& self.connected()
        &&& self.acyclic()
        &&& self.passages() == self.width * self.height - 1
    }

    /// The north-east corner, where the generator carves nothing.
    pub open spec fn root(self) -> Point {
        Point { x: (self.width - 1) as usize, y: 0 }
    }

    /// The number of steps from `p` to the north-east corner.
    pub open spec fn rank(self, p: Point) -> int {
        (self.width - 1 - p.x) + p.y
    }

    /// Whether the generator has handled the first `n` cells with `coins`
    /// and no others: of the walls to the north and to the east of the
    /// cells, those are gone that the rule picks for one of the first `n`.
    pub open spec fn grown(self, coins: Seq<bool>, n: nat) -> bool {
        forall|p: Point, d: Dir|
            self.valid(p) && (d == Dir::North || d == Dir::East) ==> (#[trigger] self.passage(p, d)
                <==> self.index_of(p) < n && self.tree_choice(p, coins[self.index_of(p)]) == Some(
                d,
            ))
    }

    /// Whether the maze has the shape that the generator gives it: every
    /// cell but the north-east corner has a passage to the north or to the
    /// east, and no cell has both.
    pub open spec fn tree_shaped(self) -> bool {
        forall|p: Point| #[trigger]
            self.valid(p) ==> {
                let north = self.passage(p, Dir::North);
                let east = self.passage(p, Dir::East);
                !(north && east) && (north || east || p == self.root())
            }
    }

    /// The north-east corner is the last cell of the first row.
    pub proof fn lemma_root(self)
        requires
            self.wf(),
        ensures
            self.width <= self.width * self.height,
            self.valid(self.root()),
            self.index_of(self.root()) == self.width - 1,
            self.cells()[self.width - 1] == self.root(),
            self.rank(self.root()) == 0,
    {
        assert(self.width <= self.width * self.height) by (nonlinear_arith)
            requires
                self.width > 0,
                self.height > 0,
        ;
        self.lemma_index_of(self.root());
    }

    /// Carving a wall that stands makes one passage more.
    pub proof fn lemma_carve_opens_one(self, p: Point, d: Dir)
        requires
            self.wf(),
            self.has_wall(p, d),
            !self.passage(p, d),
        ensures
            self.carve(p, d).passages() == self.passages() + 1,
    {
        let k = self.keeper(p, d);
        match d {
            Dir::North | Dir::South => {
                self.lemma_south_index_bound(k);
                lemma_count_open_update(self.south_walls, self.south_index(k));
            },
            Dir::East | Dir::West => {
                self.lemma_east_index_bound(k);
                lemma_count_open_update(self.east_walls, self.east_index(k));
            },
        }
    }

    /// A grid whose walls all stand has no passage.
    pub proof fn lemma_closed_no_passage(self)
        requires
            self.wf(),
            self.is_closed(),
        ensures
            forall|p: Point, d: Dir| !#[trigger] self.passage(p, d),
            self.passages() == 0,
    {
        assert forall|p: Point, d: Dir| !#[trigger] self.passage(p, d) by {
            if self.has_wall(p, d) {
                let k = self.keeper(p, d);
                match d {
                    Dir::North | Dir::South => self.lemma_south_index_bound(k),
                    Dir::East | Dir::West => self.lemma_east_index_bound(k),
                }
            }
        }
        lemma_count_open_none(self.east_walls);
        lemma_count_open_none(self.south_walls);
    }

    /// Handling the next cell keeps the generator's account: the cell
    /// gets the passage that the rule picks for it, which makes one
    /// passage more, except in the north-east corner.
    pub proof fn lemma_step_grown(self, coins: Seq<bool>, n: nat)
        requires
            self.wf(),
            self.grown(coins, n),
            n < self.width * self.height,
        ensures
            self.tree_step(self.cells()[n as int], coins[n as int]).grown(coins, n + 1),
            self.tree_step(self.cells()[n as int], coins[n as int]).passages() == self.passages()
                + if n == self.width - 1 {
                0nat
            } else {
                1nat
            },
    {
        let c = self.cells()[n as int];
        let after = self.tree_step(c, coins[n as int]);
        self.lemma_nth_point(n);
        self.lemma_root();
        self.lemma_tree_step_wf(c, coins[n as int]);
        match self.tree_choice(c, coins[n as int]) {
            Some(dc) => {
                assert(!self.passage(c, dc));
                self.lemma_carve_opens_one(c, dc);
                assert forall|p: Point, d: Dir|
                    after.valid(p) && (d == Dir::North || d == Dir::East) implies (
                #[trigger] after.passage(p, d) <==> after.index_of(p) < n + 1 && after.tree_choice(
                    p,
                    coins[after.index_of(p)],
                ) == Some(d)) by {
                    self.lemma_carve_passage(c, dc, p, d);
                    self.lemma_index_of(p);
                    assert(self.passage(p, d) <==> self.index_of(p) < n && self.tree_choice(
                        p,
                        coins[self.index_of(p)],
                    ) == Some(d));
                }
            },
            None => {
                assert(c == self.root());
                assert forall|p: Point, d: Dir|
                    after.valid(p) && (d == Dir::North || d == Dir::East) implies (
                #[trigger] after.passage(p, d) <==> after.index_of(p) < n + 1 && after.tree_choice(
                    p,
                    coins[after.index_of(p)],
                ) == Some(d)) by {
                    self.lemma_index_of(p);
                    assert(self.passage(p, d) <==> self.index_of(p) < n && self.tree_choice(
                        p,
                        coins[self.index_of(p)],
                    ) == Some(d));
                }
            },
        }
    }

    /// On a grid whose walls all stood, after the generator has handled
    /// the first `n` cells, each of them has the one passage that the rule
    /// gave it, and the other cells have none to the north or east.
    pub proof fn lemma_grow_shape(self, coins: Seq<bool>, n: nat)
        requires
            self.wf(),
            self.is_closed(),
            n <= self.width * self.height,
        ensures
            self.grow(coins, n).grown(coins, n),
            self.grow(coins, n).passages() == if n < self.width {
                n
            } else {
                (n - 1) as nat
            },
        decreases n,
    {
        if n == 0 {
            self.lemma_closed_no_passage();
        } else {
            let m = (n - 1) as nat;
            let before = self.grow(coins, m);
            self.lemma_grow_shape(coins, m);
            self.lemma_grow_wf(coins, m);
            before.lemma_nth_point(m);
            before.lemma_step_grown(coins, m);
        }
    }

    /// On a grid whose walls all stood, the generator leaves a maze of its
    /// shape with one passage less than there are cells.
    pub proof fn lemma_binary_tree_shape(self, coins: Seq<bool>)
        requires
            self.wf(),
            self.is_closed(),
        ensures
            self.binary_tree(coins).wf(),
            self.binary_tree(coins).tree_shaped(),
            self.binary_tree(coins).passages() == self.width * self.height - 1,
    {
        let n = self.width * self.height;
        let tree = self.binary_tree(coins);
        self.lemma_grow_shape(coins, n);
        self.lemma_grow_wf(coins, n);
        self.lemma_root();
        assert forall|p: Point| #[trigger] tree.valid(p) implies ({
            let north = tree.passage(p, Dir::North);
            let east = tree.passage(p, Dir::East);
            !(north && east) && (north || east || p == tree.root())
        }) by {
            tree.lemma_index_of(p);
            let choice = tree.tree_choice(p, coins[tree.index_of(p)]);
            assert(tree.passage(p, Dir::North) <==> choice == Some(Dir::North));
            assert(tree.passage(p, Dir::East) <==> choice == Some(Dir::East));
        }
    }

    /// A passage is a link in both directions, between two cells.
    pub proof fn lemma_linked_symmetric(self, p: Point, q: Point)
        requires
            self.linked(p, q),
        ensures
            self.linked(q, p),
            self.valid(p),
            self.valid(q),
    {
        let d = choose|d: Dir| #[trigger] self.passage(p, d) && self.neighbor(p, d) == Some(q);
        self.lemma_passage_symmetric(p, d);
        assert(self.passage(q, d.opposite()) && self.neighbor(q, d.opposite()) == Some(p));
    }

    /// A walk can be walked backwards.
    pub proof fn lemma_reachable_symmetric(self, p: Point, q: Point)
        requires
            self.reachable(p, q),
        ensures
            self.reachable(q, p),
    {
        let path = choose|path: Seq<Point>| #[trigger]
            self.is_path(path) && path[0] == p && path.last() == q;
        let n = path.len() as int;
        let back = Seq::new(path.len(), |i: int| path[n - 1 - i]);
        assert forall|i: int| 0 <= i < back.len() - 1 implies self.linked(
            #[trigger] back[i],
            back[i + 1],
        ) by {
            self.lemma_linked_symmetric(path[n - 2 - i], path[n - 2 - i + 1]);
        }
        if n > 1 {
            self.lemma_linked_symmetric(path[n - 2], path[n - 2 + 1]);
        }
        assert(self.is_path(back) && back[0] == q && back.last() == p);
    }

    /// A walk can be continued by a walk that begins where it ends.
    pub proof fn lemma_reachable_transitive(self, p: Point, q: Point, r: Point)
        requires
            self.reachable(p, q),
            self.reachable(q, r),
        ensures
            self.reachable(p, r),
    {
        let first = choose|path: Seq<Point>| #[trigger]
            self.is_path(path) && path[0] == p && path.last() == q;
        let second = choose|path: Seq<Point>| #[trigger]
            self.is_path(path) && path[0] == q && path.last() == r;
        let n = first.len() as int;
        let path = first + second.drop_first();
        assert forall|i: int| 0 <= i < path.len() - 1 implies self.linked(
            #[trigger] path[i],
            path[i + 1],
        ) by {
            if i < n - 1 {
                assert(self.linked(first[i], first[i + 1]));
            } else {
                assert(self.linked(second[i - n + 1], second[i - n + 1 + 1]));
            }
        }
        assert(self.is_path(path) && path[0] == p && path.last() == r);
    }

    /// In a maze of the generator's shape a walk leads from every cell to
    /// the north-east corner: each step north or east comes nearer to it.
    pub proof fn lemma_reaches_root(self, p: Point)
        requires
            self.wf(),
            self.tree_shaped(),
            self.valid(p),
        ensures
            self.reachable(p, self.root()),
        decreases self.rank(p),
    {
        self.lemma_root();
        if p == self.root() {
            let path = seq![p];
            assert(self.is_path(path) && path[0] == p && path.last() == self.root());
        } else {
            let d = if self.passage(p, Dir::North) {
                Dir::North
            } else {
                Dir::East
            };
            let q = self.neighbor(p, d).unwrap();
            assert(self.linked(p, q));
            assert(self.rank(q) == self.rank(p) - 1);
            self.lemma_reaches_root(q);
            let rest = choose|path: Seq<Point>| #[trigger]
                self.is_path(path) && path[0] == q && path.last() == self.root();
            let path = seq![p] + rest;
            assert forall|i: int| 0 <= i < path.len() - 1 implies self.linked(
                #[trigger] path[i],
                path[i + 1],
            ) by {
                if i > 0 {
                    assert(self.linked(rest[i - 1], rest[i - 1 + 1]));
                }
            }
            assert(self.is_path(path) && path[0] == p && path.last() == self.root());
        }
    }

    /// In a maze of the generator's shape every cell can be reached from
    /// every other, by way of the north-east corner.
    pub proof fn lemma_tree_shaped_connected(self)
        requires
            self.wf(),
            self.tree_shaped(),
        ensures
            self.connected(),
    {
        assert forall|p: Point, q: Point| self.valid(p) && self.valid(q) implies #[trigger]
            self.reachable(p, q) by {
            self.lemma_reaches_root(p);
            self.lemma_reaches_root(q);
            self.lemma_reachable_symmetric(q, self.root());
            self.lemma_reachable_transitive(p, self.root(), q);
        }
    }

    /// A passage to a cell that is no farther from the north-east corner
    /// leads north or east.
    pub proof fn lemma_link_up(self, p: Point, q: Point)
        requires
            self.linked(p, q),
            self.rank(q) <= self.rank(p),
        ensures
            (self.passage(p, Dir::North) && self.neighbor(p, Dir::North) == Some(q)) || (
            self.passage(p, Dir::East) && self.neighbor(p, Dir::East) == Some(q)),
    {
        let d = choose|d: Dir| #[trigger] self.passage(p, d) && self.neighbor(p, d) == Some(q);
        assert(self.rank(q) == self.rank(p) + d.dy() - d.dx());
    }

    /// The place in `cycle`, among its first `n` cells, of one that is
    /// farthest from the north-east corner.
    pub open spec fn farthest(self, cycle: Seq<Point>, n: nat) -> int
        decreases n,
    {
        if n <= 1 {
            0
        } else {
            let k = self.farthest(cycle, (n - 1) as nat);
            if self.rank(cycle[n - 1]) > self.rank(cycle[k]) {
                n - 1
            } else {
                k
            }
        }
    }

    /// `farthest` names one of the first `n` cells, and none of them is
    /// farther from the north-east corner.
    pub proof fn lemma_farthest(self, cycle: Seq<Point>, n: nat)
        requires
            1 <= n <= cycle.len(),
        ensures
            0 <= self.farthest(cycle, n) < n,
            forall|i: int|
                0 <= i < n ==> self.rank(#[trigger] cycle[i]) <= self.rank(
                    cycle[self.farthest(cycle, n)],
                ),
        decreases n,
    {
        if n > 1 {
            self.lemma_farthest(cycle, (n - 1) as nat);
        }
    }

    /// A maze of the generator's shape has no round trip: the cell of a
    /// round trip that is farthest from the north-east corner would have a
    /// passage both to the north and to the east.
    pub proof fn lemma_tree_shaped_acyclic(self)
        requires
            self.wf(),
            self.tree_shaped(),
        ensures
            self.acyclic(),
    {
        assert forall|cycle: Seq<Point>| !#[trigger] self.is_cycle(cycle) by {
            if self.is_cycle(cycle) {
                let n = cycle.len() as int;
                let k = self.farthest(cycle, cycle.len());
                self.lemma_farthest(cycle, cycle.len());
                let i_before = if k == 0 {
                    n - 1
                } else {
                    k - 1
                };
                let i_after = if k == n - 1 {
                    0
                } else {
                    k + 1
                };
                let at = cycle[k];
                let before = cycle[i_before];
                let after = cycle[i_after];
                assert(self.linked(before, at) && self.linked(at, after));
                assert(before != after);
                self.lemma_linked_symmetric(before, at);
                self.lemma_link_up(at, before);
                self.lemma_link_up(at, after);
                assert(self.passage(at, Dir::North) && self.passage(at, Dir::East));
                assert(self.valid(at));
            }
        }
    }

    /// On a grid whose walls all stood, the generator leaves a spanning
    /// tree, whatever the coins show: every cell can be reached from every
    /// other, no walk leads round in a circle, and the number of passages
    /// is the number of cells less one.
    pub proof fn lemma_binary_tree_spanning(self, coins: Seq<bool>)
        requires
            self.wf(),
            self.is_closed(),
        ensures
            self.binary_tree(coins).width == self.width,
            self.binary_tree(coins).height == self.height,
            self.binary_tree(coins).is_spanning_tree(),
    {
        let tree = self.binary_tree(coins);
        self.lemma_grow_wf(coins, self.width * self.height);
        self.lemma_binary_tree_shape(coins);
        tree.lemma_tree_shaped_connected();
        tree.lemma_tree_shaped_acyclic();
    }
}

} // verus!
