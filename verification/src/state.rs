//! The mathematical model of a game session and of its steps.

use crate::cursor::{on_board, step_from, Direction};
use crate::gravity::{first_gap, settle_once};
use crate::rules::is_match;
use crate::tiles::{Color, Position, Shape, TileBundle};
use vstd::prelude::*;

verus! {

/// The stage of the select, evaluate, resolve cycle.
#[derive(Clone, Copy, Debug, PartialEq, Eq, Structural)]
pub enum Phase {
    /// The cursor is free to move and to mark.
    Idle,
    /// Enough tiles are marked; removal and cascade are due and input is ignored.
    Resolving,
}

/// What the player asks for.
#[derive(Clone, Copy, Debug, PartialEq, Eq, Structural)]
pub enum Intent {
    MoveUp,
    MoveDown,
    MoveLeft,
    MoveRight,
    Confirm,
}

/// What the engine tells whoever draws the game.
#[derive(Clone, Copy, Debug, PartialEq, Eq, Structural)]
pub enum Notification {
    CursorMoved(Position),
    TileMarked(Position),
    MarksCleared,
    TileRemoved(Position),
    TileRelocated(Position, Position),
    PhaseChanged(Phase),
}

/// A request to remove one tile from the cell it was seen in.
#[derive(Clone, Copy, Debug, PartialEq, Eq, Structural)]
pub struct RemoveEvent {
    pub tile: u64,
    pub position: Position,
}

/// A session as a mathematical value.
pub struct State {
    pub width: u32,
    pub height: u32,
    /// The occupied cells, as `(x, y)`, each with the handle it holds.
    pub cells: Map<(u32, u32), u64>,
    /// The live tiles, each under its handle.
    pub tiles: Map<u64, TileBundle>,
    /// How many handles have been given out.
    pub issued: nat,
    /// The marked tiles in the order they were marked.
    pub marks: Seq<u64>,
    /// The removal requests not yet carried out, oldest first.
    pub pending: Seq<RemoveEvent>,
    pub cursor: Position,
    pub phase: Phase,
    /// How many marks make a set to be judged.
    pub arity: nat,
}

/// The direction an intent moves the cursor in, if it is a move.
pub open spec fn direction_of(intent: Intent) -> Option<Direction> {
    match intent {
        Intent::MoveUp => Some(Direction::Up),
        Intent::MoveDown => Some(Direction::Down),
        Intent::MoveLeft => Some(Direction::Left),
        Intent::MoveRight => Some(Direction::Right),
        Intent::Confirm => None,
    }
}

/// The records of the given tiles, in the same order.
pub open spec fn records_of(tiles: Map<u64, TileBundle>, ids: Seq<u64>) -> Seq<TileBundle> {
    Seq::new(ids.len(), |i: int| tiles[ids[i]])
}

/// One removal request for each of the given tiles, at the cell its record names.
pub open spec fn removals_of(tiles: Map<u64, TileBundle>, ids: Seq<u64>) -> Seq<RemoveEvent> {
    Seq::new(ids.len(), |i: int| RemoveEvent { tile: ids[i], position: tiles[ids[i]].position })
}

/// A removal request is carried out only for a live tile that is recorded
/// at the cell the request names.
pub open spec fn honoured(tiles: Map<u64, TileBundle>, event: RemoveEvent) -> bool {
    tiles.contains_key(event.tile) && tiles[event.tile].position == event.position
}

/// The tiles that the requests remove.
pub open spec fn doomed(tiles: Map<u64, TileBundle>, events: Seq<RemoveEvent>) -> Set<u64>
    decreases events.len(),
{
    if events.len() == 0 {
        Set::empty()
    } else if honoured(tiles, events.last()) {
        doomed(tiles, events.drop_last()).insert(events.last().tile)
    } else {
        doomed(tiles, events.drop_last())
    }
}

/// One notice for each tile that the requests remove, in the order of the
/// requests; a request for a tile that an earlier one removed gives none.
pub open spec fn removal_notes(tiles: Map<u64, TileBundle>, events: Seq<RemoveEvent>) -> Seq<
    Notification,
>
    decreases events.len(),
{
    if events.len() == 0 {
        Seq::empty()
    } else {
        let earlier = events.drop_last();
        let event = events.last();
        if honoured(tiles, event) && !doomed(tiles, earlier).contains(event.tile) {
            removal_notes(tiles, earlier).push(Notification::TileRemoved(event.position))
        } else {
            removal_notes(tiles, earlier)
        }
    }
}

/// The moves of one pass in the lowest `rows` rows of column `x`, from the
/// bottom up: each tile above the column's lowest gap falls by one row.
pub open spec fn column_moves(col: Seq<Option<u64>>, x: u32, rows: nat) -> Seq<Notification>
    decreases rows,
{
    if rows == 0 {
        Seq::empty()
    } else {
        let y = (rows - 1) as nat;
        let lower = column_moves(col, x, y);
        if y < col.len() && col[y as int] is Some && first_gap(col) < y {
            lower.push(
                Notification::TileRelocated(
                    Position { x, y: y as u32 },
                    Position { x, y: (y - 1) as u32 },
                ),
            )
        } else {
            lower
        }
    }
}

/// What filling the board leaves as it was, and what it adds: tiles that
/// were there keep their cells and records, new tiles are visible and have
/// new handles, and every cell left of column `x`, and below row `y` in
/// column `x`, is occupied.
pub open spec fn filled_up_to(before: State, after: State, x: u32, y: u32) -> bool {
    &&& after.width == before.width
    &&& after.height == before.height
    &&& after.marks == before.marks
    &&& after.pending == before.pending
    &&& after.cursor == before.cursor
    &&& after.phase == before.phase
    &&& after.arity == before.arity
    &&& before.issued <= after.issued
    &&& forall|pos: Position|
        on_board(pos, before.width, before.height) && (pos.x < x || (pos.x == x && pos.y < y))
            ==> (#[trigger] after.tile_at(pos)) is Some
    &&& forall|pos: Position|
        (#[trigger] before.tile_at(pos)) is Some ==> after.tile_at(pos) == before.tile_at(pos)
    &&& forall|id: u64| #[trigger]
        before.tiles.contains_key(id) ==> after.tiles.contains_key(id) && after.tiles[id]
            == before.tiles[id]
    &&& forall|id: u64| #[trigger]
        after.tiles.contains_key(id) && !before.tiles.contains_key(id) ==> before.issued <= id
            && after.tiles[id].visible
}

/// The board has been filled: as `filled_up_to`, with every cell of the
/// board occupied.
pub open spec fn filled(before: State, after: State) -> bool {
    filled_up_to(before, after, before.width, 0)
}

impl State {
    /// A new session: an empty board, the cursor in the bottom left cell.
    pub open spec fn fresh(width: u32, height: u32, arity: nat) -> State {
        State {
            width,
            height,
            cells: Map::empty(),
            tiles: Map::empty(),
            issued: 0,
            marks: Seq::empty(),
            pending: Seq::empty(),
            cursor: Position { x: 0, y: 0 },
            phase: Phase::Idle,
            arity,
        }
    }

    /// The session with a new visible tile in the empty cell at `pos`; the
    /// tile's handle is the number of handles given out before.
    pub open spec fn placed(self, pos: Position, color: Color, shape: Shape) -> State {
        State {
            cells: self.cells.insert((pos.x, pos.y), self.issued as u64),
            tiles: self.tiles.insert(
                self.issued as u64,
                TileBundle { position: pos, color, shape, visible: true },
            ),
            issued: self.issued + 1,
            ..self
        }
    }

    /// What the cell at `pos` holds.
    pub open spec fn tile_at(self, pos: Position) -> Option<u64> {
        if self.cells.contains_key((pos.x, pos.y)) {
            Some(self.cells[(pos.x, pos.y)])
        } else {
            None
        }
    }

    /// Column `x` from the bottom row up.
    pub open spec fn column(self, x: u32) -> Seq<Option<u64>> {
        Seq::new(self.height as nat, |y: int| self.tile_at(Position { x, y: y as u32 }))
    }

    /// Board and registry agree: every occupied cell lies on the board and
    /// holds a live tile recorded at that cell, and every live tile sits in
    /// the cell its record names.
    pub open spec fn consistent(self) -> bool {
        &&& forall|x: u32, y: u32| #[trigger]
            self.cells.contains_key((x, y)) ==> {
                &&& x < self.width
                &&& y < self.height
                &&& self.tiles.contains_key(self.cells[(x, y)])
                &&& self.tiles[self.cells[(x, y)]].position == (Position { x, y })
            }
        &&& forall|id: u64| #[trigger]
            self.tiles.contains_key(id) ==> {
                &&& id < self.issued
                &&& self.cells.contains_key((self.tiles[id].position.x, self.tiles[id].position.y))
                &&& self.cells[(self.tiles[id].position.x, self.tiles[id].position.y)] == id
            }
    }

    /// What holds of every session between two steps.
    pub open spec fn inv(self) -> bool {
        &&& self.width >= 1
        &&& self.height >= 1
        &&& self.arity >= 1
        &&& on_board(self.cursor, self.width, self.height)
        &&& self.consistent()
        &&& self.marks.no_duplicates()
        &&& self.marks.len() <= self.arity
        &&& self.phase is Idle ==> {
            &&& self.marks.len() < self.arity
            &&& self.pending.len() == 0
            &&& forall|i: int|
                0 <= i < self.marks.len() ==> self.tiles.contains_key(#[trigger] self.marks[i])
        }
    }

    /// The session after a cursor step.
    pub open spec fn moved(self, dir: Direction) -> State {
        State { cursor: step_from(self.cursor, self.width, self.height, dir), ..self }
    }

    /// Whether a confirm marks the tile under the cursor: there is one, it
    /// is not marked yet, and the marks are not complete.
    pub open spec fn can_mark(self) -> bool {
        &&& self.tile_at(self.cursor) is Some
        &&& !self.marks.contains(self.tile_at(self.cursor)->0)
        &&& self.marks.len() < self.arity
    }

    /// The session after a confirm. A new mark is added; when that
    /// completes the marks they are judged, a match files one removal
    /// request per marked tile, and the phase advances either way.
    pub open spec fn confirmed(self) -> State {
        if self.can_mark() {
            let marks = self.marks.push(self.tile_at(self.cursor)->0);
            if marks.len() < self.arity {
                State { marks, ..self }
            } else {
                State {
                    marks,
                    phase: Phase::Resolving,
                    pending: if is_match(records_of(self.tiles, marks)) {
                        self.pending + removals_of(self.tiles, marks)
                    } else {
                        self.pending
                    },
                    ..self
                }
            }
        } else {
            self
        }
    }

    /// The session after an intent. While resolving, intents are dropped.
    pub open spec fn after(self, intent: Intent) -> State {
        if self.phase is Resolving {
            self
        } else {
            match direction_of(intent) {
                Some(dir) => self.moved(dir),
                None => self.confirmed(),
            }
        }
    }

    /// The notices that an intent gives rise to.
    pub open spec fn notes_for(self, intent: Intent) -> Seq<Notification> {
        if self.phase is Resolving {
            Seq::empty()
        } else {
            match direction_of(intent) {
                Some(dir) => seq![Notification::CursorMoved(self.moved(dir).cursor)],
                None => if !self.can_mark() {
                    Seq::empty()
                } else if self.marks.len() + 1 < self.arity {
                    seq![Notification::TileMarked(self.cursor)]
                } else {
                    seq![
                        Notification::TileMarked(self.cursor),
                        Notification::PhaseChanged(Phase::Resolving),
                    ]
                },
            }
        }
    }

    /// The session after a run of intents.
    pub open spec fn after_all(self, intents: Seq<Intent>) -> State
        decreases intents.len(),
    {
        if intents.len() == 0 {
            self
        } else {
            self.after_all(intents.drop_last()).after(intents.last())
        }
    }

    /// The session once the pending removals are carried out: the doomed
    /// tiles are gone from registry and board, nothing else has changed.
    pub open spec fn purged(self) -> State {
        let gone = doomed(self.tiles, self.pending);
        State {
            tiles: self.tiles.remove_keys(gone),
            cells: Map::new(
                |cell: (u32, u32)| self.cells.contains_key(cell) && !gone.contains(self.cells[cell]),
                |cell: (u32, u32)| self.cells[cell],
            ),
            pending: Seq::empty(),
            ..self
        }
    }

    /// The session with no tile marked.
    pub open spec fn unmarked(self) -> State {
        State { marks: Seq::empty(), ..self }
    }

    /// Where a tile recorded at `pos` is after one pass of the cascade.
    pub open spec fn landing(self, pos: Position) -> Position {
        if first_gap(self.column(pos.x)) < pos.y {
            Position { x: pos.x, y: (pos.y - 1) as u32 }
        } else {
            pos
        }
    }

    /// The session after one pass of the cascade: every column has settled
    /// once, and each tile's record names the cell it is in now.
    pub open spec fn fallen(self) -> State {
        State {
            cells: Map::new(
                |cell: (u32, u32)|
                    cell.0 < self.width && cell.1 < self.height && settle_once(
                        self.column(cell.0),
                    )[cell.1 as int] is Some,
                |cell: (u32, u32)| settle_once(self.column(cell.0))[cell.1 as int]->0,
            ),
            tiles: Map::new(
                |id: u64| self.tiles.contains_key(id),
                |id: u64|
                    TileBundle { position: self.landing(self.tiles[id].position), ..self.tiles[id] },
            ),
            ..self
        }
    }

    /// The session after `passes` passes of the cascade.
    pub open spec fn fallen_times(self, passes: nat) -> State
        decreases passes,
    {
        if passes == 0 {
            self
        } else {
            self.fallen_times((passes - 1) as nat).fallen()
        }
    }

    /// The moves of one pass in the columns left of `columns`, column by
    /// column and in each from the bottom up.
    pub open spec fn moves_before(self, columns: nat) -> Seq<Notification>
        decreases columns,
    {
        if columns == 0 {
            Seq::empty()
        } else {
            let x = (columns - 1) as nat;
            self.moves_before(x) + column_moves(self.column(x as u32), x as u32, self.height as nat)
        }
    }

    /// The moves of one pass over the whole board.
    pub open spec fn relocations(self) -> Seq<Notification> {
        self.moves_before(self.width as nat)
    }

    /// The session after resolution: removals carried out, marks cleared,
    /// one pass of the cascade made, and the phase back to idle. Outside
    /// the resolving phase nothing happens.
    pub open spec fn resolved(self) -> State {
        if self.phase is Resolving {
            State { phase: Phase::Idle, ..self.purged().unmarked().fallen() }
        } else {
            self
        }
    }

    /// The notices of a resolution, in the order of its steps.
    pub open spec fn resolution_notes(self) -> Seq<Notification> {
        if self.phase is Resolving {
            removal_notes(self.tiles, self.pending) + seq![Notification::MarksCleared]
                + self.purged().unmarked().relocations() + seq![
                Notification::PhaseChanged(Phase::Idle),
            ]
        } else {
            Seq::empty()
        }
    }
}

} // verus!
