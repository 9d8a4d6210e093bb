//! A picture of the maze in plain text: `+` at the corners of the cells,
//! `-` and `|` for the walls that stand, blanks for cells and passages.

use vstd::prelude::*;
use vstd::string::StringExecFns;
use crate::grid::Grid;
use crate::maze::Maze;
use crate::point::{Dir, Point};

verus! {

impl Grid {
    /// The character that shows side `d` of cell `p`: a blank for a
    /// passage, else `-` for a side to the north or south and `|` for one
    /// to the east or west.
    pub open spec fn glyph(self, p: Point, d: Dir) -> char {
        if self.passage(p, d) {
            ' '
        } else {
            match d {
                Dir::North | Dir::South => '-',
                Dir::East | Dir::West => '|',
            }
        }
    }

    /// A line of walls: for each cell of row `y` a `+` and its side `d`,
    /// and a last `+`.
    pub open spec fn wall_line(self, y: usize, d: Dir) -> Seq<char> {
        Seq::new(
            2 * self.width + 1,
            |i: int|
                if i % 2 == 0 {
                    '+'
                } else {
                    self.glyph(Point { x: (i / 2) as usize, y }, d)
                },
        )
    }

    /// A line of cells: the west side of the first cell of row `y`, and
    /// for each cell a blank and its east side.
    pub open spec fn cell_line(self, y: usize) -> Seq<char> {
        Seq::new(
            2 * self.width + 1,
            |i: int|
                if i == 0 {
                    self.glyph(Point { x: 0, y }, Dir::West)
                } else if i % 2 == 1 {
                    ' '
                } else {
                    self.glyph(Point { x: (i / 2 - 1) as usize, y }, Dir::East)
                },
        )
    }

    /// The picture, line by line: the north sides of the first row, and
    /// for each row its line of cells and the line of its south sides.
    pub open spec fn picture(self) -> Seq<Seq<char>> {
        Seq::new(
            2 * self.height + 1,
            |l: int|
                if l == 0 {
                    self.wall_line(0, Dir::North)
                } else if l % 2 == 1 {
                    self.cell_line(((l - 1) / 2) as usize)
                } else {
                    self.wall_line((l / 2 - 1) as usize, Dir::South)
                },
        )
    }
}

impl Maze {
    /// The character that shows side `dir` of `point`, as a string of
    /// length one.
    pub fn char(&self, point: Point, dir: Dir) -> (s: &'static str)
        ensures
            s@ == seq![self@.glyph(point, dir)],
    {
        proof {
            reveal_strlit(" ");
            reveal_strlit("-");
            reveal_strlit("|");
        }
        if self.passage(point, dir) {
            " "
        } else {
            match dir {
                Dir::North | Dir::South => "-",
                Dir::East | Dir::West => "|",
            }
        }
    }

    /// The line that shows side `dir` of every cell of row `y`.
    fn wall_line(&self, y: usize, dir: Dir) -> (line: String)
        ensures
            line@ == self@.wall_line(y, dir),
    {
        let mut line = String::new();
        let width = self.width();
        for x in 0..width
            invariant
                width == self@.width,
                line@ == self@.wall_line(y, dir).take(2 * x),
        {
            line.append("+");
            line.append(self.char(Point { x, y }, dir));
            proof {
                reveal_strlit("+");
            }
        }
        line.append("+");
        proof {
            reveal_strlit("+");
        }
        line
    }

    /// The line that shows the cells of row `y` and the walls between
    /// them.
    fn cell_line(&self, y: usize) -> (line: String)
        ensures
            line@ == self@.cell_line(y),
    {
        let mut line = String::new();
        line.append(self.char(Point { x: 0, y }, Dir::West));
        let width = self.width();
        for x in 0..width
            invariant
                width == self@.width,
                line@ == self@.cell_line(y).take(2 * x + 1),
        {
            line.append(" ");
            line.append(self.char(Point { x, y }, Dir::East));
            proof {
                reveal_strlit(" ");
            }
        }
        line
    }

    /// The picture of the maze, line by line and without line ends.
    pub fn render(&self) -> (lines: Vec<String>)
        ensures
            lines.deep_view() == self@.picture(),
    {
        let mut lines: Vec<String> = Vec::new();
        lines.push(self.wall_line(0, Dir::North));
        let height = self.height();
        for y in 0..height
            invariant
                height == self@.height,
                lines@.len() == 2 * y + 1,
                forall|l: int|
                    0 <= l < lines@.len() ==> (#[trigger] lines@[l])@ == self@.picture()[l],
        {
            lines.push(self.cell_line(y));
            lines.push(self.wall_line(y, Dir::South));
        }
        lines
    }
}

} // verus!
