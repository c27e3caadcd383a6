use maze_generator::prelude::Coordinates;
use maze_generator::prelude::Direction;
use maze_generator::recursive_backtracking::RbGenerator;

#[test]
fn coordinates_next_moves_one_cell() {
    let c = Coordinates::new(3, 5);
    assert_eq!(c.next(&Direction::North), Coordinates::new(3, 4));
    assert_eq!(c.next(&Direction::East), Coordinates::new(4, 5));
    assert_eq!(c.next(&Direction::South), Coordinates::new(3, 6));
    assert_eq!(c.next(&Direction::West), Coordinates::new(2, 5));
}

#[test]
fn direction_all_is_in_fixed_order() {
    assert_eq!(
        Direction::all(),
        vec![
            Direction::North,
            Direction::East,
            Direction::South,
            Direction::West
        ]
    );
}

#[test]
fn direction_opposites_and_mirrors() {
    assert_eq!(Direction::North.opposite(), Direction::South);
    assert_eq!(Direction::South.opposite(), Direction::North);
    assert_eq!(Direction::East.opposite(), Direction::West);
    assert_eq!(Direction::West.opposite(), Direction::East);
    assert_eq!(Direction::East.mirror_horizontal(), Direction::West);
    assert_eq!(Direction::North.mirror_horizontal(), Direction::North);
    assert_eq!(Direction::North.mirror_vertical(), Direction::South);
    assert_eq!(Direction::East.mirror_vertical(), Direction::East);
}

#[test]
fn rb_seed_of_42s_3x3_renders_fixed_diagram() {
    let mut generator = RbGenerator::new(Some([42; 32]));
    let maze = generator.generate(3, 3).unwrap();
    assert_eq!(
        maze.to_text(),
        "·-·-·-·\n\
         |S|   |\n\
         · · · ·\n\
         |   | |\n\
         ·-·-· ·\n\
         |G    |\n\
         ·-·-·-·\n"
    );
}

#[test]
fn text_rendering_shape() {
    let maze = RbGenerator::new(Some([6; 32])).generate(4, 2).unwrap();
    let text = maze.to_text();
    let lines: Vec<&str> = text.lines().collect();
    assert_eq!(lines.len(), 2 * 2 + 1);
    for line in lines {
        assert_eq!(line.chars().count(), 2 * 4 + 1);
    }
    assert_eq!(text.matches('S').count(), 1);
    assert_eq!(text.matches('G').count(), 1);
}

#[test]
fn unseeded_generators_produce_valid_mazes() {
    let maze = RbGenerator::new(None).generate(4, 4).unwrap();
    assert_eq!(maze.node_count(), 16);
    assert_eq!(maze.edge_count(), 15);
}

#[test]
fn passages_listed_in_fixed_order_without_duplicates() {
    let maze = RbGenerator::new(Some([17; 32])).generate(5, 5).unwrap();
    let order = [
        Direction::North,
        Direction::East,
        Direction::South,
        Direction::West,
    ];
    for y in 0..5 {
        for x in 0..5 {
            let field = maze.get_field(&Coordinates::new(x, y)).unwrap();
            assert!(field.passages.len() <= 4);
            let positions: Vec<usize> = field
                .passages
                .iter()
                .map(|d| order.iter().position(|o| o == d).unwrap())
                .collect();
            for pair in positions.windows(2) {
                assert!(pair[0] < pair[1]);
            }
        }
    }
}

#[test]
fn start_and_goal_getters_match_fields() {
    let maze = RbGenerator::new(Some([21; 32])).generate(4, 6).unwrap();
    assert_eq!(maze.start_coordinates(), maze.start);
    assert_eq!(maze.goal_coordinates(), maze.goal);
}
