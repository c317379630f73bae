use particle_arena::arena::Arena;
use particle_arena::board::{point_to_board_coord, render};
use particle_arena::geometry::Point;
use particle_arena::motion::{Direction, Velocity};
use particle_arena::particles::Node;

fn field(width: i32, height: i32) -> Arena {
    match Arena::new(width, height) {
        Ok(made) => made,
        Err(e) => panic!("no arena: {:?}", e),
    }
}

fn frame(rows: &str) -> String {
    format!("\u{1b}[2J{}\n", rows)
}

fn resting(position: Point) -> Node {
    Node { position, velocity: Velocity { direction: Direction { cos: 0, sin: 0 }, distance: 0 } }
}

#[test]
fn cell_is_position_over_extent_times_cells_floored() {
    let arena = field(200_000, 1_000_000);
    assert_eq!(point_to_board_coord((105_000, 555_555), (20, 100), &arena), (10, 55));
    assert_eq!(point_to_board_coord((0, 0), (20, 100), &arena), (0, 0));
    assert_eq!(point_to_board_coord((9_999, 9_999), (20, 100), &arena), (0, 0));
    assert_eq!(point_to_board_coord((10_000, 10_000), (20, 100), &arena), (1, 1));
    assert_eq!(point_to_board_coord((199_999, 999_999), (20, 100), &arena), (19, 99));
    assert_eq!(point_to_board_coord((105_000, 555_555), (3, 7), &arena), (1, 3));
}

#[test]
fn position_on_a_far_wall_falls_beyond_the_last_cell() {
    let arena = field(200_000, 1_000_000);
    assert_eq!(point_to_board_coord((200_000, 500_000), (20, 100), &arena), (20, 50));
    assert_eq!(point_to_board_coord((100_000, 1_000_000), (20, 100), &arena), (10, 100));
}

#[test]
fn position_before_the_origin_falls_into_the_first_cell() {
    let arena = field(200_000, 1_000_000);
    assert_eq!(point_to_board_coord((-5, -1), (20, 100), &arena), (0, 0));
    assert_eq!(point_to_board_coord((i32::MIN, 500_000), (20, 100), &arena), (0, 50));
}

#[test]
fn cell_index_is_held_to_the_range_of_an_index() {
    let arena = field(1, 1);
    assert_eq!(
        point_to_board_coord((i32::MAX, 0), (usize::MAX, usize::MAX), &arena),
        (usize::MAX, 0)
    );
    assert_eq!(point_to_board_coord((3, 2), (0, 5), &arena), (0, 10));
}

#[test]
fn frame_starts_with_the_clear_sequence_and_ends_with_a_line_feed() {
    let arena = field(10, 10);
    let nodes: Vec<Node> = vec![resting((5, 5))];
    let text = render(&nodes, (1, 1), &arena);
    let mut expected = String::new();
    expected.push(27 as char);
    expected.push_str("[2J");
    expected.push('O');
    expected.push('\n');
    assert_eq!(text, expected);
}

#[test]
fn empty_board_is_all_dots() {
    let arena = field(10, 10);
    let nodes: Vec<Node> = Vec::new();
    assert_eq!(render(&nodes, (3, 2), &arena), frame("...\n..."));
    assert_eq!(render(&nodes, (1, 1), &arena), frame("."));
    assert_eq!(render(&nodes, (2, 3), &arena), frame("..\n..\n.."));
}

#[test]
fn board_without_cells_is_empty_text() {
    let arena = field(10, 10);
    let nodes: Vec<Node> = Vec::new();
    assert_eq!(render(&nodes, (3, 0), &arena), frame(""));
    assert_eq!(render(&nodes, (0, 0), &arena), frame(""));
    assert_eq!(render(&nodes, (0, 3), &arena), frame("\n\n"));
}

#[test]
fn columns_run_along_x_and_lines_along_y() {
    let arena = field(40, 30);
    let nodes: Vec<Node> = vec![resting((35, 5)), resting((0, 29)), resting((12, 12))];
    assert_eq!(render(&nodes, (4, 3), &arena), frame("...O\n.O..\nO..."));
}

#[test]
fn particles_in_one_cell_show_as_one_mark() {
    let arena = field(40, 30);
    let nodes: Vec<Node> =
        vec![resting((10, 10)), resting((19, 19)), resting((15, 12)), resting((39, 29))];
    assert_eq!(render(&nodes, (4, 3), &arena), frame("....\n.O..\n...O"));
}

#[test]
fn board_of_the_default_size() {
    let arena = field(200_000, 1_000_000);
    let nodes: Vec<Node> = vec![resting((105_000, 555_555)), resting((0, 0))];
    let text = render(&nodes, (20, 100), &arena);
    assert!(text.starts_with("\u{1b}[2J"));
    assert!(text.ends_with('\n'));
    assert_eq!(text.len(), 4 + 100 * 21);
    let lines: Vec<&str> = text[4..text.len() - 1].split('\n').collect();
    assert_eq!(lines.len(), 100);
    let mut row: usize = 0;
    while row < 100 {
        let expected: String = if row == 0 {
            format!("O{}", ".".repeat(19))
        } else if row == 55 {
            format!("{}O{}", ".".repeat(10), ".".repeat(9))
        } else {
            ".".repeat(20)
        };
        assert_eq!(lines[row], expected, "row {}", row);
        row += 1;
    }
}
