use maze_generator::ellers_algorithm::EllersGenerator;
use maze_generator::growing_tree::GrowingTreeSelectionMethod;
use maze_generator::growing_tree::GtGenerator;
use maze_generator::prelude::Coordinates;
use maze_generator::prelude::Direction;
use maze_generator::prelude::FieldType;
use maze_generator::prelude::GenerationError;
use maze_generator::prelude::Maze;
use maze_generator::prims_algorithm::PrimsGenerator;
use maze_generator::recursive_backtracking::RbGenerator;

fn all_mazes(seed: [u8; 32], w: i32, h: i32) -> Vec<Maze> {
    vec![
        RbGenerator::new(Some(seed)).generate(w, h).unwrap(),
        PrimsGenerator::new(Some(seed)).generate(w, h).unwrap(),
        EllersGenerator::new(Some(seed)).generate(w, h).unwrap(),
        GtGenerator::new(Some(seed), GrowingTreeSelectionMethod::Newest)
            .generate(w, h)
            .unwrap(),
        GtGenerator::new(Some(seed), GrowingTreeSelectionMethod::Random)
            .generate(w, h)
            .unwrap(),
        GtGenerator::new(Some(seed), GrowingTreeSelectionMethod::Mix(50))
            .generate(w, h)
            .unwrap(),
    ]
}

/// The open passages of every cell, row-major, as a comparable signature.
fn passage_signature(maze: &Maze) -> Vec<Vec<Direction>> {
    let mut sig = Vec::new();
    let (w, h) = maze.size;
    for y in 0..h {
        for x in 0..w {
            let field = maze.get_field(&Coordinates::new(x, y)).unwrap();
            let mut dirs = Vec::new();
            for d in [
                Direction::North,
                Direction::East,
                Direction::South,
                Direction::West,
            ] {
                if field.has_passage(&d) {
                    dirs.push(d);
                }
            }
            sig.push(dirs);
        }
    }
    sig
}

#[test]
fn spanning_tree_counts_all_algorithms() {
    for (w, h) in [(1, 1), (1, 7), (5, 1), (4, 5), (7, 3)] {
        for maze in all_mazes([7; 32], w, h) {
            let cells = (w * h) as usize;
            assert_eq!(maze.node_count(), cells);
            assert_eq!(maze.edge_count(), cells - 1);
            let graph = maze.into_graph();
            assert_eq!(petgraph::algo::connected_components(&graph), 1);
        }
    }
}

#[test]
fn edges_join_adjacent_cells_only() {
    for maze in all_mazes([3; 32], 5, 4) {
        let (w, h) = maze.size;
        for y in 0..h {
            for x in 0..w {
                let field = maze.get_field(&Coordinates::new(x, y)).unwrap();
                if field.has_passage(&Direction::North) {
                    assert!(y > 0);
                }
                if field.has_passage(&Direction::West) {
                    assert!(x > 0);
                }
                if field.has_passage(&Direction::South) {
                    assert!(y < h - 1);
                }
                if field.has_passage(&Direction::East) {
                    assert!(x < w - 1);
                }
            }
        }
    }
}

#[test]
fn passages_are_symmetric() {
    for maze in all_mazes([9; 32], 6, 5) {
        let (w, h) = maze.size;
        for y in 0..h {
            for x in 0..w {
                let field = maze.get_field(&Coordinates::new(x, y)).unwrap();
                if field.has_passage(&Direction::East) {
                    let right = maze.get_field(&Coordinates::new(x + 1, y)).unwrap();
                    assert!(right.has_passage(&Direction::West));
                }
                if field.has_passage(&Direction::South) {
                    let below = maze.get_field(&Coordinates::new(x, y + 1)).unwrap();
                    assert!(below.has_passage(&Direction::North));
                }
            }
        }
    }
}

#[test]
fn same_seed_gives_identical_mazes() {
    let first = all_mazes([42; 32], 6, 6);
    let second = all_mazes([42; 32], 6, 6);
    for (a, b) in first.iter().zip(second.iter()) {
        assert_eq!(passage_signature(a), passage_signature(b));
        assert_eq!(a.start, b.start);
        assert_eq!(a.goal, b.goal);
        assert_eq!(a.size, b.size);
    }
}

fn expect_invalid(r: Result<Maze, GenerationError>) {
    match r {
        Err(e) => assert_eq!(e, GenerationError::InvalidSize),
        Ok(_) => panic!("expected InvalidSize"),
    }
}

#[test]
fn invalid_size_is_rejected_by_every_algorithm() {
    for (w, h) in [(0, 3), (3, 0), (0, 0), (-1, 3), (3, -5)] {
        expect_invalid(RbGenerator::new(Some([1; 32])).generate(w, h));
        expect_invalid(PrimsGenerator::new(Some([1; 32])).generate(w, h));
        expect_invalid(EllersGenerator::new(Some([1; 32])).generate(w, h));
        expect_invalid(
            GtGenerator::new(Some([1; 32]), GrowingTreeSelectionMethod::Random).generate(w, h),
        );
    }
}

#[test]
fn get_field_out_of_bounds_is_none() {
    let maze = RbGenerator::new(Some([5; 32])).generate(3, 3).unwrap();
    assert!(maze.get_field(&Coordinates::new(-1, 0)).is_none());
    assert!(maze.get_field(&Coordinates::new(0, -1)).is_none());
    assert!(maze.get_field(&Coordinates::new(3, 0)).is_none());
    assert!(maze.get_field(&Coordinates::new(0, 3)).is_none());
    assert!(maze.get_field(&Coordinates::new(100, 100)).is_none());
    let field = maze.get_field(&Coordinates::new(1, 2)).unwrap();
    assert_eq!(field.coordinates, Coordinates::new(1, 2));
}

#[test]
fn start_and_goal_fields() {
    let maze = RbGenerator::new(Some([5; 32])).generate(4, 3).unwrap();
    assert_eq!(maze.start, Coordinates::new(0, 0));
    assert_eq!(maze.goal, Coordinates::new(0, 2));
    assert_eq!(
        maze.get_field(&maze.start).unwrap().field_type,
        FieldType::Start
    );
    assert_eq!(
        maze.get_field(&maze.goal).unwrap().field_type,
        FieldType::Goal
    );
    assert_eq!(
        maze.get_field(&Coordinates::new(2, 1)).unwrap().field_type,
        FieldType::Normal
    );
    let prims = PrimsGenerator::new(Some([5; 32])).generate(4, 3).unwrap();
    assert_eq!(prims.start, Coordinates::new(0, 0));
    assert_eq!(prims.goal, Coordinates::new(3, 2));
    let ellers = EllersGenerator::new(Some([5; 32])).generate(4, 3).unwrap();
    assert_eq!(ellers.start, Coordinates::new(0, 0));
    assert_eq!(ellers.goal, Coordinates::new(3, 2));
}

#[test]
fn different_seeds_give_different_mazes() {
    let a = RbGenerator::new(Some([1; 32])).generate(8, 8).unwrap();
    let b = RbGenerator::new(Some([2; 32])).generate(8, 8).unwrap();
    assert!(a != b);
    let c = RbGenerator::new(Some([1; 32])).generate(8, 8).unwrap();
    assert!(a == c);
}

#[test]
fn maze_equality_is_isomorphism_based() {
    let a = PrimsGenerator::new(Some([8; 32])).generate(5, 5).unwrap();
    let b = a.clone();
    assert!(a == b);
}

#[test]
fn ellers_final_row_leaves_one_component() {
    for seed in [[0u8; 32], [13; 32], [200; 32]] {
        for (w, h) in [(1, 1), (6, 4), (3, 9)] {
            let maze = EllersGenerator::new(Some(seed)).generate(w, h).unwrap();
            let cells = (w * h) as usize;
            assert_eq!(maze.node_count(), cells);
            let graph = maze.into_graph();
            assert_eq!(petgraph::algo::connected_components(&graph), 1);
        }
    }
}

#[test]
fn different_seeds_rarely_isomorphic() {
    let a = GtGenerator::new(Some([11; 32]), GrowingTreeSelectionMethod::Random)
        .generate(7, 7)
        .unwrap();
    let b = GtGenerator::new(Some([23; 32]), GrowingTreeSelectionMethod::Random)
        .generate(7, 7)
        .unwrap();
    let ga = a.into_graph().into_graph::<u32>();
    let gb = b.into_graph().into_graph::<u32>();
    assert!(!petgraph::algo::is_isomorphic(&ga, &gb));
}
