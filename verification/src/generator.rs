//! The binary-tree generator: every cell gets a passage to the north or to
//! the east, whichever exists, and a coin decides where both do.

use vstd::prelude::*;
use crate::grid::Grid;
use crate::maze::{BoundsError, Maze};
use crate::point::{Dir, Point};

verus! {

impl Grid {
    /// The side of `p` on which the generator removes the wall: north or
    /// east, whichever has a neighbour; the side that `coin` picks where
    /// both have one (north on `true`); none in the north-east corner.
    pub open spec fn tree_choice(self, p: Point, coin: bool) -> Option<Dir> {
        let north = self.neighbor(p, Dir::North) is Some;
        let east = self.neighbor(p, Dir::East) is Some;
        if north && east {
            if coin {
                Some(Dir::North)
            } else {
                Some(Dir::East)
            }
        } else if north {
            Some(Dir::North)
        } else if east {
            Some(Dir::East)
        } else {
            None
        }
    }

    /// The grid after the generator has handled cell `p` with `coin`.
    pub open spec fn tree_step(self, p: Point, coin: bool) -> Grid {
        match self.tree_choice(p, coin) {
            Some(d) => self.carve(p, d),
            None => self,
        }
    }

    /// The grid after the generator has handled the first `n` cells, row
    /// by row, cell `i` with `coins[i]`.
    pub open spec fn grow(self, coins: Seq<bool>, n: nat) -> Grid
        decreases n,
    {
        if n == 0 {
            self
        } else {
            let g = self.grow(coins, (n - 1) as nat);
            match g.nth_point((n - 1) as nat) {
                Some(p) => g.tree_step(p, coins[n - 1]),
                None => g,
            }
        }
    }

    /// The grid after the generator has handled every cell.
    pub open spec fn binary_tree(self, coins: Seq<bool>) -> Grid {
        self.grow(coins, self.width * self.height)
    }

    /// Handling a cell keeps the grid well formed and its dimensions.
    pub proof fn lemma_tree_step_wf(self, p: Point, coin: bool)
        requires
            self.wf(),
        ensures
            self.tree_step(p, coin).wf(),
            self.tree_step(p, coin).width == self.width,
            self.tree_step(p, coin).height == self.height,
    {
        match self.tree_choice(p, coin) {
            Some(d) => self.lemma_carve_wf(p, d),
            None => {},
        }
    }

    /// Growing keeps the grid well formed and its dimensions.
    pub proof fn lemma_grow_wf(self, coins: Seq<bool>, n: nat)
        requires
            self.wf(),
        ensures
            self.grow(coins, n).wf(),
            self.grow(coins, n).width == self.width,
            self.grow(coins, n).height == self.height,
        decreases n,
    {
        if n > 0 {
            self.lemma_grow_wf(coins, (n - 1) as nat);
            let g = self.grow(coins, (n - 1) as nat);
            match g.nth_point((n - 1) as nat) {
                Some(p) => g.lemma_tree_step_wf(p, coins[n - 1]),
                None => {},
            }
        }
    }

    /// The first `n` cells are handled with the first `n` coins alone.
    pub proof fn lemma_grow_coins(self, a: Seq<bool>, b: Seq<bool>, n: nat)
        requires
            forall|i: int| 0 <= i < n ==> a[i] == b[i],
        ensures
            self.grow(a, n) == self.grow(b, n),
        decreases n,
    {
        if n > 0 {
            self.lemma_grow_coins(a, b, (n - 1) as nat);
        }
    }
}

/// One toss of a fair coin, by `rand::random::<bool>()`, which draws from
/// the generator of the calling thread. Nothing is claimed of the outcome;
/// the call itself fails only where the operating system has no randomness
/// to seed that generator with.
#[verifier::external_body]
fn coin_flip() -> (coin: bool) {
    rand::random()
}

impl Maze {
    /// Handles one cell as the generator does, with the given coin: removes
    /// the wall to the north or to the east of `pt`, whichever exists, and
    /// where both exist the northern one if `coin` is `true`, else the
    /// eastern one. The north-east corner keeps its walls.
    ///
    /// Fails, and changes nothing, exactly when `pt` is no cell.
    pub fn binary_tree_cell(&mut self, pt: Point, coin: bool) -> (r: Result<(), BoundsError>)
        ensures
            r is Ok <==> old(self)@.valid(pt),
            final(self)@ == old(self)@.tree_step(pt, coin),
    {
        if !self.valid(pt) {
            return Err(BoundsError);
        }
        let n = self.neighbor(pt, Dir::North).is_some();
        let e = self.neighbor(pt, Dir::East).is_some();
        if n && !e {
            self.carve(pt, Dir::North)
        } else if e && !n {
            self.carve(pt, Dir::East)
        } else if n && e {
            if coin {
                self.carve(pt, Dir::North)
            } else {
                self.carve(pt, Dir::East)
            }
        } else {
            Ok(())
        }
    }

    /// Runs the generator over the whole maze: handles every cell, row by
    /// row, and tosses a coin for each cell that has a neighbour both to
    /// the north and to the east.
    ///
    /// Whatever the coins show, a maze whose walls all stood becomes a
    /// spanning tree. On any other maze the generator removes the same
    /// walls, where they still stand, and promises no tree.
    pub fn binary_tree(&mut self)
        ensures
            exists|coins: Seq<bool>|
                coins.len() == old(self)@.width * old(self)@.height && final(self)@ == old(
                    self,
                )@.binary_tree(coins),
            final(self)@.width == old(self)@.width,
            final(self)@.height == old(self)@.height,
            old(self)@.is_closed() ==> final(self)@.is_spanning_tree(),
    {
        proof {
            use_type_invariant(&*self);
        }
        let ghost start = self@;
        let ghost mut coins: Seq<bool> = Seq::empty();
        let cells = self.width() * self.height();
        for i in 0..cells
            invariant
                start.wf(),
                cells == start.width * start.height,
                coins.len() == i,
                self@ == start.grow(coins, i as nat),
        {
            proof {
                start.lemma_grow_wf(coins, i as nat);
                self@.lemma_nth_point(i as nat);
            }
            let mut coin = false;
            if let Some(pt) = self.nth_point(i) {
                let n = self.neighbor(pt, Dir::North).is_some();
                let e = self.neighbor(pt, Dir::East).is_some();
                if n && e {
                    coin = coin_flip();
                }
                let done = self.binary_tree_cell(pt, coin);
                assert(done is Ok);
            }
            proof {
                start.lemma_grow_coins(coins, coins.push(coin), i as nat);
                coins = coins.push(coin);
            }
        }
        proof {
            start.lemma_grow_wf(coins, cells as nat);
            if start.is_closed() {
                start.lemma_binary_tree_spanning(coins);
            }
        }
    }
}

} // verus!
