use magic_set::cursor::{move_cursor, Direction};
use magic_set::rules::{check_all_distinct, check_all_same, check_match, check_values};
use magic_set::tiles::{texture_index, Color, Position, Shape, TileBundle};

fn tile(color: Color, shape: Shape) -> TileBundle {
    TileBundle { position: Position { x: 0, y: 0 }, color, shape, visible: true }
}

const COLORS: [Color; 3] = [Color::Blue, Color::Red, Color::Yellow];
const SHAPES: [Shape; 3] = [Shape::Diamond, Shape::Circle, Shape::Triangle];

#[test]
fn all_different_colors_and_shapes_match() {
    let tiles = vec![
        tile(Color::Blue, Shape::Diamond),
        tile(Color::Red, Shape::Circle),
        tile(Color::Yellow, Shape::Triangle),
    ];
    assert!(check_match(&tiles));
}

#[test]
fn two_of_one_color_do_not_match() {
    let tiles = vec![
        tile(Color::Blue, Shape::Diamond),
        tile(Color::Blue, Shape::Circle),
        tile(Color::Red, Shape::Triangle),
    ];
    assert!(!check_match(&tiles));
}

#[test]
fn same_shape_different_colors_match() {
    let tiles = vec![
        tile(Color::Blue, Shape::Diamond),
        tile(Color::Red, Shape::Diamond),
        tile(Color::Yellow, Shape::Diamond),
    ];
    assert!(check_match(&tiles));
}

#[test]
fn identical_tiles_match() {
    let tiles = vec![
        tile(Color::Red, Shape::Circle),
        tile(Color::Red, Shape::Circle),
        tile(Color::Red, Shape::Circle),
    ];
    assert!(check_match(&tiles));
}

#[test]
fn two_of_one_shape_do_not_match() {
    let tiles = vec![
        tile(Color::Red, Shape::Circle),
        tile(Color::Red, Shape::Circle),
        tile(Color::Red, Shape::Triangle),
    ];
    assert!(!check_match(&tiles));
}

#[test]
fn every_triple_follows_the_rule() {
    let mut all = Vec::new();
    for c in COLORS {
        for s in SHAPES {
            all.push(tile(c, s));
        }
    }
    let mut matches = 0;
    for a in &all {
        for b in &all {
            for c in &all {
                let colors = (a.color == b.color && b.color == c.color)
                    || (a.color != b.color && b.color != c.color && a.color != c.color);
                let shapes = (a.shape == b.shape && b.shape == c.shape)
                    || (a.shape != b.shape && b.shape != c.shape && a.shape != c.shape);
                let got = check_match(&vec![*a, *b, *c]);
                assert_eq!(got, colors && shapes);
                if got {
                    matches += 1;
                }
            }
        }
    }
    assert_eq!(matches, 81);
}

#[test]
fn value_rule_on_plain_numbers() {
    assert!(check_all_same(&vec![1, 1, 1]));
    assert!(!check_all_same(&vec![1, 1, 2]));
    assert!(check_all_distinct(&vec![0, 1, 2]));
    assert!(!check_all_distinct(&vec![0, 1, 0]));
    assert!(check_values(&vec![2, 2, 2]));
    assert!(check_values(&vec![2, 0, 1]));
    assert!(!check_values(&vec![2, 0, 2]));
    assert!(!check_values(&vec![0, 0, 1]));
}

#[test]
fn value_rule_on_short_and_long_runs() {
    assert!(check_values(&vec![]));
    assert!(check_values(&vec![1]));
    assert!(check_values(&vec![1, 2]));
    assert!(check_values(&vec![1, 1]));
    assert!(check_values(&vec![0, 0, 0, 0]));
    assert!(!check_values(&vec![0, 1, 2, 0]));
    assert!(check_match(&vec![]));
}

#[test]
fn draws_become_colors_and_shapes() {
    assert_eq!(Color::from_draw(0), Color::Blue);
    assert_eq!(Color::from_draw(1), Color::Red);
    assert_eq!(Color::from_draw(2), Color::Yellow);
    assert_eq!(Color::from_draw(200), Color::Yellow);
    assert_eq!(Shape::from_draw(0), Shape::Diamond);
    assert_eq!(Shape::from_draw(1), Shape::Circle);
    assert_eq!(Shape::from_draw(2), Shape::Triangle);
    assert_eq!(Shape::from_draw(3), Shape::Triangle);
    for c in COLORS {
        assert_eq!(Color::from_draw(c.index()), c);
    }
    for s in SHAPES {
        assert_eq!(Shape::from_draw(s.index()), s);
    }
}

#[test]
fn colors_and_shapes_are_ordered() {
    assert!(Color::Blue < Color::Red && Color::Red < Color::Yellow);
    assert!(Shape::Diamond < Shape::Circle && Shape::Circle < Shape::Triangle);
    assert_eq!(Color::Yellow.index(), 2);
    assert_eq!(Shape::Circle.index(), 1);
}

#[test]
fn texture_index_is_color_plus_three_times_shape() {
    assert_eq!(texture_index(Color::Blue, Shape::Diamond), 0);
    assert_eq!(texture_index(Color::Red, Shape::Diamond), 1);
    assert_eq!(texture_index(Color::Yellow, Shape::Diamond), 2);
    assert_eq!(texture_index(Color::Blue, Shape::Circle), 3);
    assert_eq!(texture_index(Color::Red, Shape::Circle), 4);
    assert_eq!(texture_index(Color::Yellow, Shape::Circle), 5);
    assert_eq!(texture_index(Color::Blue, Shape::Triangle), 6);
    assert_eq!(texture_index(Color::Red, Shape::Triangle), 7);
    assert_eq!(texture_index(Color::Yellow, Shape::Triangle), 8);
}

#[test]
fn cursor_wraps_at_every_edge() {
    let (w, h) = (12, 6);
    assert_eq!(move_cursor(Position { x: w - 1, y: 3 }, w, h, Direction::Right), Position { x: 0, y: 3 });
    assert_eq!(move_cursor(Position { x: 0, y: 3 }, w, h, Direction::Left), Position { x: w - 1, y: 3 });
    assert_eq!(move_cursor(Position { x: 5, y: h - 1 }, w, h, Direction::Up), Position { x: 5, y: 0 });
    assert_eq!(move_cursor(Position { x: 5, y: 0 }, w, h, Direction::Down), Position { x: 5, y: h - 1 });
}

#[test]
fn cursor_steps_inside_the_board() {
    let (w, h) = (4, 8);
    let at = Position { x: 1, y: 2 };
    assert_eq!(move_cursor(at, w, h, Direction::Right), Position { x: 2, y: 2 });
    assert_eq!(move_cursor(at, w, h, Direction::Left), Position { x: 0, y: 2 });
    assert_eq!(move_cursor(at, w, h, Direction::Up), Position { x: 1, y: 3 });
    assert_eq!(move_cursor(at, w, h, Direction::Down), Position { x: 1, y: 1 });
}

#[test]
fn cursor_on_a_single_cell_stays() {
    let at = Position { x: 0, y: 0 };
    for dir in [Direction::Up, Direction::Down, Direction::Left, Direction::Right] {
        assert_eq!(move_cursor(at, 1, 1, dir), at);
    }
}

#[test]
fn opposite_steps_cancel_everywhere() {
    let (w, h) = (3, 2);
    for x in 0..w {
        for y in 0..h {
            let at = Position { x, y };
            let there = move_cursor(at, w, h, Direction::Up);
            assert_eq!(move_cursor(there, w, h, Direction::Down), at);
            let there = move_cursor(at, w, h, Direction::Left);
            assert_eq!(move_cursor(there, w, h, Direction::Right), at);
        }
    }
}
