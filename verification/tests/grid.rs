use maze::{BoundsError, Cell, Dir, Maze, Point};

const DIRS: [Dir; 4] = [Dir::North, Dir::South, Dir::East, Dir::West];

fn opposite(dir: Dir) -> Dir {
    match dir {
        Dir::North => Dir::South,
        Dir::South => Dir::North,
        Dir::East => Dir::West,
        Dir::West => Dir::East,
    }
}

fn cells(m: &Maze) -> Vec<Point> {
    let mut all = Vec::new();
    let mut it = m.iter();
    while let Some(p) = it.next() {
        all.push(p);
    }
    all
}

#[test]
fn maze_point_tests() {
    let m = Maze::new(5, 5).expect("");
    assert!(m.valid(Point { x: 2, y: 3 }));
    assert!(!m.valid(Point { x: 2, y: 20 }));
    assert!(m.valid(Point { x: 2, y: 4 }));
    assert!(!m.valid(Point { x: 2, y: 5 }));

    assert!(m.edge(Point { x: 0, y: 3 }));
    assert!(m.edge(Point { x: 2, y: 0 }));
    assert!(m.edge(Point { x: 4, y: 2 }));
    assert!(m.edge(Point { x: 3, y: 4 }));
    assert!(!m.edge(Point { x: 3, y: 2 }));

    assert!(m.corner(Point { x: 0, y: 0 }));
    assert!(!m.corner(Point { x: 3, y: 2 }));
    assert!(m.corner(Point { x: 4, y: 0 }));
    assert!(m.corner(Point { x: 0, y: 4 }));
}

#[test]
fn point_translate_test() {
    let p = Point { x: 1, y: 1 };

    assert_eq!(p.translate(Dir::North), Some(Point { x: 1, y: 0 }));
    assert_eq!(p.translate(Dir::South), Some(Point { x: 1, y: 2 }));
    assert_eq!(p.translate(Dir::East), Some(Point { x: 2, y: 1 }));
    assert_eq!(p.translate(Dir::West), Some(Point { x: 0, y: 1 }));

    let origin = Point { x: 0, y: 0 };
    assert_eq!(origin.translate(Dir::North), None);
}

#[test]
fn maze_neighbor_test() {
    let m = Maze::new(5, 5).expect("");
    let p = Point { x: 0, y: 0 };

    assert_eq!(m.neighbor(p, Dir::North), None);
    assert_eq!(m.neighbor(p, Dir::East), Some(Point { x: 1, y: 0 }));
}

#[test]
fn maze_iterator_test() {
    let m = Maze::new(5, 3).expect("");
    assert_eq!(cells(&m).into_iter().count(), 15);
    assert_eq!(cells(&m).into_iter().filter(|p| m.corner(*p)).count(), 4);
    assert_eq!(cells(&m).into_iter().filter(|p| m.edge(*p)).count(), 12)
}

#[test]
fn maze_carve_passage_test() {
    let mut m = Maze::new(2, 2).expect("");
    m.carve(Point { x: 0, y: 0 }, Dir::South).expect("");
    m.carve(Point { x: 0, y: 1 }, Dir::East).expect("");
    assert!(m.passage(Point { x: 0, y: 0 }, Dir::South));
    assert!(m.passage(Point { x: 0, y: 1 }, Dir::North));
    assert!(m.passage(Point { x: 0, y: 1 }, Dir::East));
    assert!(!m.passage(Point { x: 0, y: 0 }, Dir::East));
    assert!(!m.passage(Point { x: 0, y: 0 }, Dir::West));

    let mut m = Maze::new(2, 2).expect("");
    m.carve(Point { x: 0, y: 1 }, Dir::North).expect("");
    m.carve(Point { x: 1, y: 0 }, Dir::West).expect("");
    assert!(m.passage(Point { x: 0, y: 0 }, Dir::South));
    assert!(m.passage(Point { x: 0, y: 1 }, Dir::North));
    assert!(m.passage(Point { x: 0, y: 0 }, Dir::East));
    assert!(m.passage(Point { x: 1, y: 0 }, Dir::West));
}

#[test]
fn maze_cell_test() {
    let mut m = Maze::new(2, 2).expect("");
    m.carve(Point { x: 0, y: 1 }, Dir::North).expect("");
    m.carve(Point { x: 1, y: 0 }, Dir::West).expect("");
    assert_eq!(
        m.cell(Point { x: 0, y: 0 }),
        Cell { north: false, east: true, south: true, west: false }
    );
    assert_eq!(
        m.cell(Point { x: 0, y: 1 }),
        Cell { north: true, east: false, south: false, west: false }
    );
    assert_eq!(
        m.cell(Point { x: 1, y: 1 }),
        Cell { north: false, east: false, south: false, west: false }
    );
}

#[test]
fn new_rejects_a_dimension_of_zero() {
    assert!(matches!(Maze::new(0, 5), Err(BoundsError)));
    assert!(matches!(Maze::new(5, 0), Err(BoundsError)));
    assert!(matches!(Maze::new(0, 0), Err(BoundsError)));
    assert!(Maze::new(1, 1).is_ok());
}

#[test]
fn new_keeps_the_dimensions() {
    let m = Maze::new(7, 3).expect("");
    assert_eq!(m.width(), 7);
    assert_eq!(m.height(), 3);
}

#[test]
fn new_maze_has_no_passage() {
    let m = Maze::new(4, 3).expect("");
    for p in cells(&m) {
        for d in DIRS {
            assert!(!m.passage(p, d));
        }
        assert_eq!(
            m.cell(p),
            Cell { north: false, east: false, south: false, west: false }
        );
    }
}

#[test]
fn iteration_is_row_by_row() {
    let m = Maze::new(3, 2).expect("");
    assert_eq!(
        cells(&m),
        vec![
            Point { x: 0, y: 0 },
            Point { x: 1, y: 0 },
            Point { x: 2, y: 0 },
            Point { x: 0, y: 1 },
            Point { x: 1, y: 1 },
            Point { x: 2, y: 1 },
        ]
    );
}

#[test]
fn iteration_yields_every_cell_once() {
    let m = Maze::new(5, 3).expect("");
    let all = cells(&m);
    assert_eq!(all.len(), 15);
    for (i, p) in all.iter().enumerate() {
        assert!(m.valid(*p));
        assert_eq!(m.nth_point(i), Some(*p));
        for q in &all[i + 1..] {
            assert_ne!(p, q);
        }
    }
}

#[test]
fn iteration_stays_ended_and_starts_afresh() {
    let m = Maze::new(2, 1).expect("");
    let mut it = m.iter();
    assert_eq!(it.next(), Some(Point { x: 0, y: 0 }));
    assert_eq!(it.next(), Some(Point { x: 1, y: 0 }));
    assert_eq!(it.next(), None);
    assert_eq!(it.next(), None);
    let mut again = m.iter();
    assert_eq!(again.next(), Some(Point { x: 0, y: 0 }));
}

#[test]
fn nth_point_counts_row_by_row() {
    let m = Maze::new(5, 3).expect("");
    assert_eq!(m.nth_point(0), Some(Point { x: 0, y: 0 }));
    assert_eq!(m.nth_point(4), Some(Point { x: 4, y: 0 }));
    assert_eq!(m.nth_point(7), Some(Point { x: 2, y: 1 }));
    assert_eq!(m.nth_point(14), Some(Point { x: 4, y: 2 }));
    assert_eq!(m.nth_point(15), None);
    assert_eq!(m.nth_point(usize::MAX), None);
}

#[test]
fn corners_and_edges_of_five_by_five() {
    let m = Maze::new(5, 5).expect("");
    let corners: Vec<Point> = cells(&m).into_iter().filter(|p| m.corner(*p)).collect();
    assert_eq!(
        corners,
        vec![
            Point { x: 0, y: 0 },
            Point { x: 4, y: 0 },
            Point { x: 0, y: 4 },
            Point { x: 4, y: 4 },
        ]
    );
    let edges = cells(&m).into_iter().filter(|p| m.edge(*p)).count();
    assert_eq!(edges, 16);
    let edges_only = cells(&m)
        .into_iter()
        .filter(|p| m.edge(*p) && !m.corner(*p))
        .count();
    assert_eq!(edges_only, 12);
}

#[test]
fn single_cell_is_edge_and_corner() {
    let m = Maze::new(1, 1).expect("");
    let p = Point { x: 0, y: 0 };
    assert!(m.valid(p));
    assert!(m.edge(p));
    assert!(m.corner(p));
    for d in DIRS {
        assert_eq!(m.neighbor(p, d), None);
        assert!(!m.passage(p, d));
    }
}

#[test]
fn points_outside_are_neither_edge_nor_corner() {
    let m = Maze::new(5, 5).expect("");
    for p in [
        Point { x: 5, y: 0 },
        Point { x: 0, y: 5 },
        Point { x: 5, y: 5 },
        Point { x: 4, y: 9 },
        Point { x: usize::MAX, y: 0 },
    ] {
        assert!(!m.valid(p));
        assert!(!m.edge(p));
        assert!(!m.corner(p));
    }
}

#[test]
fn neighbors_of_the_first_cell() {
    let m = Maze::new(5, 5).expect("");
    let p = Point { x: 0, y: 0 };
    assert_eq!(m.neighbor(p, Dir::North), None);
    assert_eq!(m.neighbor(p, Dir::West), None);
    assert_eq!(m.neighbor(p, Dir::East), Some(Point { x: 1, y: 0 }));
    assert_eq!(m.neighbor(p, Dir::South), Some(Point { x: 0, y: 1 }));
}

#[test]
fn neighbors_at_the_far_sides() {
    let m = Maze::new(5, 3).expect("");
    let p = Point { x: 4, y: 2 };
    assert_eq!(m.neighbor(p, Dir::East), None);
    assert_eq!(m.neighbor(p, Dir::South), None);
    assert_eq!(m.neighbor(p, Dir::North), Some(Point { x: 4, y: 1 }));
    assert_eq!(m.neighbor(p, Dir::West), Some(Point { x: 3, y: 2 }));
    assert_eq!(
        m.neighbor(Point { x: 0, y: 3 }, Dir::North),
        Some(Point { x: 0, y: 2 })
    );
}

#[test]
fn translate_never_wraps() {
    let zero = Point { x: 0, y: 0 };
    assert_eq!(zero.translate(Dir::West), None);
    assert_eq!(zero.translate(Dir::North), None);
    let far = Point { x: usize::MAX, y: usize::MAX };
    assert_eq!(far.translate(Dir::East), None);
    assert_eq!(far.translate(Dir::South), None);
    assert_eq!(
        far.translate(Dir::West),
        Some(Point { x: usize::MAX - 1, y: usize::MAX })
    );
    assert_eq!(
        far.translate(Dir::North),
        Some(Point { x: usize::MAX, y: usize::MAX - 1 })
    );
    let m = Maze::new(3, 3).expect("");
    assert_eq!(m.neighbor(far, Dir::South), None);
    assert_eq!(m.neighbor(far, Dir::East), None);
}

#[test]
fn carve_round_trip() {
    let mut m = Maze::new(2, 2).expect("");
    m.carve(Point { x: 0, y: 0 }, Dir::South).expect("");
    assert!(m.passage(Point { x: 0, y: 0 }, Dir::South));
    assert!(m.passage(Point { x: 0, y: 1 }, Dir::North));
    assert!(!m.passage(Point { x: 0, y: 0 }, Dir::East));
    assert!(!m.passage(Point { x: 0, y: 0 }, Dir::West));
}

#[test]
fn carve_without_neighbor_fails() {
    let mut m = Maze::new(2, 2).expect("");
    assert_eq!(m.carve(Point { x: 0, y: 0 }, Dir::North), Err(BoundsError));
    assert_eq!(m.carve(Point { x: 0, y: 0 }, Dir::West), Err(BoundsError));
    assert_eq!(m.carve(Point { x: 1, y: 1 }, Dir::South), Err(BoundsError));
    assert_eq!(m.carve(Point { x: 1, y: 1 }, Dir::East), Err(BoundsError));
    for p in cells(&m) {
        for d in DIRS {
            assert!(!m.passage(p, d));
        }
    }
}

#[test]
fn carve_from_outside_fails_and_changes_nothing() {
    let mut m = Maze::new(3, 3).expect("");
    assert_eq!(m.carve(Point { x: 0, y: 3 }, Dir::North), Err(BoundsError));
    assert_eq!(m.carve(Point { x: 3, y: 0 }, Dir::West), Err(BoundsError));
    assert_eq!(m.carve(Point { x: 3, y: 2 }, Dir::West), Err(BoundsError));
    assert_eq!(m.carve(Point { x: 7, y: 7 }, Dir::East), Err(BoundsError));
    for p in cells(&m) {
        for d in DIRS {
            assert!(!m.passage(p, d));
        }
    }
}

#[test]
fn no_passage_from_outside() {
    let mut m = Maze::new(3, 3).expect("");
    for p in cells(&m) {
        for d in DIRS {
            let _ = m.carve(p, d);
        }
    }
    assert!(!m.passage(Point { x: 0, y: 3 }, Dir::North));
    assert!(!m.passage(Point { x: 3, y: 0 }, Dir::West));
    assert!(!m.passage(Point { x: 3, y: 1 }, Dir::West));
    assert_eq!(
        m.cell(Point { x: 3, y: 1 }),
        Cell { north: false, east: false, south: false, west: false }
    );
    assert!(!m.passage(Point { x: 0, y: 0 }, Dir::North));
    assert!(!m.passage(Point { x: 2, y: 2 }, Dir::East));
}

#[test]
fn carve_twice_keeps_the_passage() {
    let mut m = Maze::new(3, 2).expect("");
    let p = Point { x: 1, y: 0 };
    assert_eq!(m.carve(p, Dir::East), Ok(()));
    let once: Vec<Cell> = cells(&m).into_iter().map(|q| m.cell(q)).collect();
    assert_eq!(m.carve(p, Dir::East), Ok(()));
    assert!(m.passage(p, Dir::East));
    let twice: Vec<Cell> = cells(&m).into_iter().map(|q| m.cell(q)).collect();
    assert_eq!(once, twice);
}

#[test]
fn carve_opens_one_wall_seen_from_both_sides() {
    for (w, h) in [(3, 4), (4, 3), (1, 5), (5, 1), (2, 2)] {
        let fresh = Maze::new(w, h).expect("");
        for p in cells(&fresh) {
            for d in DIRS {
                let mut m = Maze::new(w, h).expect("");
                match m.neighbor(p, d) {
                    None => assert_eq!(m.carve(p, d), Err(BoundsError)),
                    Some(q) => {
                        assert_eq!(m.carve(p, d), Ok(()));
                        for cell in cells(&m) {
                            for side in DIRS {
                                let open = (cell == p && side == d)
                                    || (cell == q && side == opposite(d));
                                assert_eq!(m.passage(cell, side), open);
                            }
                        }
                    }
                }
            }
        }
    }
}

#[test]
fn passages_are_symmetric() {
    let mut m = Maze::new(4, 3).expect("");
    m.carve(Point { x: 0, y: 0 }, Dir::East).expect("");
    m.carve(Point { x: 1, y: 1 }, Dir::North).expect("");
    m.carve(Point { x: 3, y: 2 }, Dir::West).expect("");
    m.carve(Point { x: 2, y: 1 }, Dir::South).expect("");
    for p in cells(&m) {
        for d in DIRS {
            if let Some(q) = m.neighbor(p, d) {
                assert_eq!(m.passage(p, d), m.passage(q, opposite(d)));
            }
        }
    }
    assert!(m.passage(Point { x: 1, y: 0 }, Dir::West));
    assert!(m.passage(Point { x: 1, y: 0 }, Dir::South));
    assert!(m.passage(Point { x: 2, y: 2 }, Dir::East));
    assert!(m.passage(Point { x: 2, y: 2 }, Dir::North));
}
