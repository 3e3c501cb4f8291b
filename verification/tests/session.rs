use magic_set::session::Session;
use magic_set::state::{Intent, Notification, Phase, RemoveEvent};
use magic_set::tiles::{Color, Position, Shape, TileBundle};

fn at(x: u32, y: u32) -> Position {
    Position { x, y }
}

fn row_of_diamonds() -> Session {
    let mut session = Session::new(3, 1, 3).unwrap();
    assert_eq!(session.spawn_tile(at(0, 0), Color::Blue, Shape::Diamond), Some(0));
    assert_eq!(session.spawn_tile(at(1, 0), Color::Red, Shape::Diamond), Some(1));
    assert_eq!(session.spawn_tile(at(2, 0), Color::Yellow, Shape::Diamond), Some(2));
    session
}

fn tiles_on_board(session: &Session) -> Vec<(Position, u64)> {
    let (w, h) = session.bounds();
    let mut found = Vec::new();
    for x in 0..w {
        for y in 0..h {
            if let Some(id) = session.occupant(at(x, y)) {
                found.push((at(x, y), id));
            }
        }
    }
    found
}

fn assert_consistent(session: &Session) {
    for (pos, id) in tiles_on_board(session) {
        let record = session.attributes(id).unwrap();
        assert_eq!(record.position, pos);
    }
}

#[test]
fn new_session_is_idle_and_empty() {
    let session = Session::new(12, 6, 3).unwrap();
    assert_eq!(session.phase(), Phase::Idle);
    assert_eq!(session.cursor(), at(0, 0));
    assert_eq!(session.arity(), 3);
    assert_eq!(session.bounds(), (12, 6));
    assert!(session.marks().is_empty());
    assert!(session.pending().is_empty());
    assert!(tiles_on_board(&session).is_empty());
    assert!(!session.select_condition());
}

#[test]
fn sizes_without_cells_or_marks_are_refused() {
    assert!(Session::new(0, 6, 3).is_none());
    assert!(Session::new(12, 0, 3).is_none());
    assert!(Session::new(12, 6, 0).is_none());
    assert!(Session::new(65536, 65536, 3).is_none());
    assert!(Session::new(1, 1, 1).is_some());
    assert!(Session::new(20, 8, 3).is_some());
}

#[test]
fn spawn_tile_refuses_taken_and_outside_cells() {
    let mut session = Session::new(2, 2, 3).unwrap();
    assert_eq!(session.spawn_tile(at(1, 1), Color::Red, Shape::Circle), Some(0));
    assert_eq!(session.spawn_tile(at(1, 1), Color::Blue, Shape::Circle), None);
    assert_eq!(session.spawn_tile(at(2, 0), Color::Blue, Shape::Circle), None);
    assert_eq!(session.spawn_tile(at(0, 2), Color::Blue, Shape::Circle), None);
    assert_eq!(session.spawn_tile(at(0, 0), Color::Blue, Shape::Triangle), Some(1));
    assert_eq!(
        session.attributes(0),
        Some(TileBundle { position: at(1, 1), color: Color::Red, shape: Shape::Circle, visible: true })
    );
    assert_eq!(
        session.attributes(1),
        Some(TileBundle { position: at(0, 0), color: Color::Blue, shape: Shape::Triangle, visible: true })
    );
    assert_eq!(tiles_on_board(&session), vec![(at(0, 0), 1), (at(1, 1), 0)]);
}

#[test]
fn three_diamonds_of_different_colors_are_removed() {
    let mut session = row_of_diamonds();
    assert_eq!(session.handle(Intent::Confirm), vec![Notification::TileMarked(at(0, 0))]);
    assert_eq!(session.handle(Intent::MoveRight), vec![Notification::CursorMoved(at(1, 0))]);
    assert_eq!(session.handle(Intent::Confirm), vec![Notification::TileMarked(at(1, 0))]);
    assert_eq!(session.handle(Intent::MoveRight), vec![Notification::CursorMoved(at(2, 0))]);
    assert_eq!(session.phase(), Phase::Idle);
    assert_eq!(
        session.handle(Intent::Confirm),
        vec![Notification::TileMarked(at(2, 0)), Notification::PhaseChanged(Phase::Resolving)]
    );
    assert_eq!(session.phase(), Phase::Resolving);
    assert!(session.select_condition());
    assert_eq!(session.marks(), vec![0, 1, 2]);
    assert_eq!(
        session.pending(),
        vec![
            RemoveEvent { tile: 0, position: at(0, 0) },
            RemoveEvent { tile: 1, position: at(1, 0) },
            RemoveEvent { tile: 2, position: at(2, 0) },
        ]
    );
    assert_eq!(
        session.resolve(),
        vec![
            Notification::TileRemoved(at(0, 0)),
            Notification::TileRemoved(at(1, 0)),
            Notification::TileRemoved(at(2, 0)),
            Notification::MarksCleared,
            Notification::PhaseChanged(Phase::Idle),
        ]
    );
    assert_eq!(session.phase(), Phase::Idle);
    assert!(session.marks().is_empty());
    assert!(session.pending().is_empty());
    assert!(tiles_on_board(&session).is_empty());
    for id in 0..3 {
        assert_eq!(session.attributes(id), None);
    }
}

#[test]
fn failed_match_clears_marks_and_keeps_tiles() {
    let mut session = Session::new(3, 1, 3).unwrap();
    session.spawn_tile(at(0, 0), Color::Blue, Shape::Diamond);
    session.spawn_tile(at(1, 0), Color::Blue, Shape::Circle);
    session.spawn_tile(at(2, 0), Color::Red, Shape::Triangle);
    session.handle(Intent::Confirm);
    session.handle(Intent::MoveRight);
    session.handle(Intent::Confirm);
    session.handle(Intent::MoveRight);
    assert_eq!(
        session.handle(Intent::Confirm),
        vec![Notification::TileMarked(at(2, 0)), Notification::PhaseChanged(Phase::Resolving)]
    );
    assert_eq!(session.phase(), Phase::Resolving);
    assert!(session.pending().is_empty());
    assert_eq!(
        session.resolve(),
        vec![Notification::MarksCleared, Notification::PhaseChanged(Phase::Idle)]
    );
    assert_eq!(session.phase(), Phase::Idle);
    assert!(session.marks().is_empty());
    assert_eq!(tiles_on_board(&session), vec![(at(0, 0), 0), (at(1, 0), 1), (at(2, 0), 2)]);
}

#[test]
fn marks_never_exceed_the_arity() {
    let mut session = Session::new(4, 1, 3).unwrap();
    for x in 0..4 {
        session.spawn_tile(at(x, 0), Color::Blue, Shape::Diamond);
    }
    for _ in 0..4 {
        session.handle(Intent::Confirm);
        assert!(session.marks().len() <= 3);
        session.handle(Intent::MoveRight);
    }
    assert_eq!(session.marks(), vec![0, 1, 2]);
    assert_eq!(session.phase(), Phase::Resolving);
    assert_eq!(session.cursor(), at(2, 0));
    assert_eq!(session.handle(Intent::Confirm), vec![]);
    assert_eq!(session.marks(), vec![0, 1, 2]);
}

#[test]
fn marking_twice_or_marking_nothing_does_nothing() {
    let mut session = Session::new(2, 1, 3).unwrap();
    session.spawn_tile(at(0, 0), Color::Blue, Shape::Diamond);
    assert_eq!(session.handle(Intent::Confirm), vec![Notification::TileMarked(at(0, 0))]);
    assert_eq!(session.handle(Intent::Confirm), vec![]);
    assert_eq!(session.marks(), vec![0]);
    session.handle(Intent::MoveRight);
    assert_eq!(session.handle(Intent::Confirm), vec![]);
    assert_eq!(session.marks(), vec![0]);
    assert_eq!(session.phase(), Phase::Idle);
}

#[test]
fn resolving_phase_drops_every_intent() {
    let mut session = row_of_diamonds();
    session.handle(Intent::Confirm);
    session.handle(Intent::MoveRight);
    session.handle(Intent::Confirm);
    session.handle(Intent::MoveRight);
    session.handle(Intent::Confirm);
    assert_eq!(session.phase(), Phase::Resolving);
    let cursor = session.cursor();
    let marks = session.marks();
    let pending = session.pending();
    let board = tiles_on_board(&session);
    for intent in [
        Intent::MoveUp,
        Intent::MoveDown,
        Intent::MoveLeft,
        Intent::MoveRight,
        Intent::Confirm,
    ] {
        assert_eq!(session.handle(intent), vec![]);
        assert_eq!(session.phase(), Phase::Resolving);
        assert_eq!(session.cursor(), cursor);
        assert_eq!(session.marks(), marks);
        assert_eq!(session.pending(), pending);
        assert_eq!(tiles_on_board(&session), board);
    }
}

#[test]
fn resolve_outside_resolving_does_nothing() {
    let mut session = row_of_diamonds();
    session.handle(Intent::Confirm);
    assert_eq!(session.resolve(), vec![]);
    assert_eq!(session.marks(), vec![0]);
    assert_eq!(session.phase(), Phase::Idle);
    assert_eq!(tiles_on_board(&session).len(), 3);
}

#[test]
fn session_cursor_wraps() {
    let mut session = Session::new(4, 8, 3).unwrap();
    assert_eq!(session.handle(Intent::MoveLeft), vec![Notification::CursorMoved(at(3, 0))]);
    assert_eq!(session.handle(Intent::MoveRight), vec![Notification::CursorMoved(at(0, 0))]);
    assert_eq!(session.handle(Intent::MoveDown), vec![Notification::CursorMoved(at(0, 7))]);
    assert_eq!(session.handle(Intent::MoveUp), vec![Notification::CursorMoved(at(0, 0))]);
    assert_eq!(session.handle(Intent::MoveUp), vec![Notification::CursorMoved(at(0, 1))]);
    assert_eq!(session.cursor(), at(0, 1));
}

#[test]
fn one_pass_closes_the_lowest_gap_only() {
    let mut session = Session::new(1, 5, 3).unwrap();
    let a = session.spawn_tile(at(0, 1), Color::Blue, Shape::Diamond).unwrap();
    let b = session.spawn_tile(at(0, 3), Color::Red, Shape::Circle).unwrap();
    let c = session.spawn_tile(at(0, 4), Color::Yellow, Shape::Circle).unwrap();
    assert_eq!(
        session.gravity(),
        vec![
            Notification::TileRelocated(at(0, 1), at(0, 0)),
            Notification::TileRelocated(at(0, 3), at(0, 2)),
            Notification::TileRelocated(at(0, 4), at(0, 3)),
        ]
    );
    assert_eq!(tiles_on_board(&session), vec![(at(0, 0), a), (at(0, 2), b), (at(0, 3), c)]);
    assert_consistent(&session);
    assert_eq!(
        session.gravity(),
        vec![
            Notification::TileRelocated(at(0, 2), at(0, 1)),
            Notification::TileRelocated(at(0, 3), at(0, 2)),
        ]
    );
    assert_eq!(tiles_on_board(&session), vec![(at(0, 0), a), (at(0, 1), b), (at(0, 2), c)]);
    assert_consistent(&session);
    assert_eq!(session.gravity(), vec![]);
    assert_eq!(tiles_on_board(&session), vec![(at(0, 0), a), (at(0, 1), b), (at(0, 2), c)]);
    assert_eq!(session.attributes(b).unwrap().color, Color::Red);
    assert_eq!(session.attributes(c).unwrap().shape, Shape::Circle);
}

#[test]
fn settling_packs_each_column_in_order() {
    let mut session = Session::new(3, 6, 3).unwrap();
    let mut expected: Vec<Vec<u64>> = vec![Vec::new(), Vec::new(), Vec::new()];
    for (x, rows) in [(0u32, vec![5u32]), (1, vec![0, 2, 5]), (2, vec![1, 2, 4])] {
        for y in rows {
            let id = session.spawn_tile(at(x, y), Color::Blue, Shape::Diamond).unwrap();
            expected[x as usize].push(id);
        }
    }
    let mut passes = 0;
    while !session.gravity().is_empty() {
        passes += 1;
        assert!(passes <= 6);
        assert_consistent(&session);
    }
    assert_eq!(passes, 5);
    for x in 0..3u32 {
        let column = &expected[x as usize];
        for y in 0..6u32 {
            let want = column.get(y as usize).copied();
            assert_eq!(session.occupant(at(x, y)), want);
        }
    }
}

#[test]
fn full_and_empty_columns_do_not_move() {
    let mut session = Session::new(2, 3, 3).unwrap();
    for y in 0..3 {
        session.spawn_tile(at(1, y), Color::Red, Shape::Circle);
    }
    assert_eq!(session.gravity(), vec![]);
    assert_eq!(tiles_on_board(&session), vec![(at(1, 0), 0), (at(1, 1), 1), (at(1, 2), 2)]);
}

#[test]
fn removal_leaves_other_tiles_where_they_are() {
    let mut session = Session::new(3, 2, 3).unwrap();
    for x in 0..3 {
        session.spawn_tile(at(x, 0), Color::from_draw(x as u8), Shape::Circle);
    }
    for x in 0..3 {
        session.spawn_tile(at(x, 1), Color::Blue, Shape::from_draw(x as u8));
    }
    for _ in 0..3 {
        session.handle(Intent::Confirm);
        session.handle(Intent::MoveRight);
    }
    assert_eq!(session.phase(), Phase::Resolving);
    assert_eq!(
        session.remove_tiles(),
        vec![
            Notification::TileRemoved(at(0, 0)),
            Notification::TileRemoved(at(1, 0)),
            Notification::TileRemoved(at(2, 0)),
        ]
    );
    for id in 0..3 {
        assert_eq!(session.attributes(id), None);
    }
    assert_eq!(tiles_on_board(&session), vec![(at(0, 1), 3), (at(1, 1), 4), (at(2, 1), 5)]);
    assert_consistent(&session);
    assert!(session.pending().is_empty());
    assert_eq!(session.remove_tiles(), vec![]);
    assert_eq!(session.remove_mark(), vec![Notification::MarksCleared]);
    assert!(session.marks().is_empty());
}

#[test]
fn resolution_removes_then_lets_tiles_fall() {
    let mut session = Session::new(3, 2, 3).unwrap();
    for x in 0..3 {
        session.spawn_tile(at(x, 0), Color::from_draw(x as u8), Shape::Circle);
    }
    for x in 0..3 {
        session.spawn_tile(at(x, 1), Color::Blue, Shape::from_draw(x as u8));
    }
    for _ in 0..3 {
        session.handle(Intent::Confirm);
        session.handle(Intent::MoveRight);
    }
    assert_eq!(
        session.resolve(),
        vec![
            Notification::TileRemoved(at(0, 0)),
            Notification::TileRemoved(at(1, 0)),
            Notification::TileRemoved(at(2, 0)),
            Notification::MarksCleared,
            Notification::TileRelocated(at(0, 1), at(0, 0)),
            Notification::TileRelocated(at(1, 1), at(1, 0)),
            Notification::TileRelocated(at(2, 1), at(2, 0)),
            Notification::PhaseChanged(Phase::Idle),
        ]
    );
    assert_eq!(tiles_on_board(&session), vec![(at(0, 0), 3), (at(1, 0), 4), (at(2, 0), 5)]);
    assert_consistent(&session);
    assert_eq!(session.attributes(4).unwrap().position, at(1, 0));
    assert_eq!(session.attributes(4).unwrap().shape, Shape::Circle);
    assert_eq!(session.phase(), Phase::Idle);
    assert_eq!(session.cursor(), at(2, 0));
    assert_eq!(session.handle(Intent::Confirm), vec![Notification::TileMarked(at(2, 0))]);
    assert_eq!(session.marks(), vec![5]);
}

#[test]
fn arity_of_one_resolves_at_the_first_mark() {
    let mut session = Session::new(1, 1, 1).unwrap();
    session.spawn_tile(at(0, 0), Color::Red, Shape::Triangle);
    assert_eq!(
        session.handle(Intent::Confirm),
        vec![Notification::TileMarked(at(0, 0)), Notification::PhaseChanged(Phase::Resolving)]
    );
    assert_eq!(
        session.resolve(),
        vec![
            Notification::TileRemoved(at(0, 0)),
            Notification::MarksCleared,
            Notification::PhaseChanged(Phase::Idle),
        ]
    );
    assert!(tiles_on_board(&session).is_empty());
}

#[test]
fn populate_fills_every_cell() {
    let mut session = Session::new(12, 6, 3).unwrap();
    session.populate(7);
    let found = tiles_on_board(&session);
    assert_eq!(found.len(), 72);
    let mut ids: Vec<u64> = found.iter().map(|(_, id)| *id).collect();
    ids.sort();
    ids.dedup();
    assert_eq!(ids.len(), 72);
    assert_consistent(&session);
    for (_, id) in found {
        assert!(session.attributes(id).unwrap().visible);
    }
    assert_eq!(session.phase(), Phase::Idle);
    assert_eq!(session.cursor(), at(0, 0));
}

#[test]
fn populate_draws_more_than_one_color_and_shape() {
    let mut session = Session::new(20, 8, 3).unwrap();
    session.populate(2024);
    let mut colors = [0usize; 3];
    let mut shapes = [0usize; 3];
    for (_, id) in tiles_on_board(&session) {
        let record = session.attributes(id).unwrap();
        colors[record.color.index() as usize] += 1;
        shapes[record.shape.index() as usize] += 1;
    }
    assert_eq!(colors.iter().sum::<usize>(), 160);
    assert!(colors.iter().all(|n| *n > 0));
    assert!(shapes.iter().all(|n| *n > 0));
}

#[test]
fn populate_keeps_tiles_already_there() {
    let mut session = Session::new(2, 2, 3).unwrap();
    let first = session.spawn_tile(at(1, 0), Color::Red, Shape::Circle).unwrap();
    session.populate(1);
    assert_eq!(session.occupant(at(1, 0)), Some(first));
    assert_eq!(
        session.attributes(first),
        Some(TileBundle { position: at(1, 0), color: Color::Red, shape: Shape::Circle, visible: true })
    );
    assert_eq!(tiles_on_board(&session).len(), 4);
    assert_consistent(&session);
}
