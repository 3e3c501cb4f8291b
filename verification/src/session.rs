//! A game session: board, registry, marks, cursor and phase, and the steps
//! that change them.

use crate::board::Board;
use crate::cursor::{move_cursor, on_board, Direction};
use crate::gravity::{first_gap, lemma_first_gap, settle_once};
use crate::random::{draw_up_to, seeded};
use crate::registry::Registry;
use crate::rules::check_match;
use crate::state::{
    column_moves, direction_of, doomed, filled, filled_up_to, records_of, removal_notes,
    removals_of, Intent, Notification, Phase, RemoveEvent, State,
};
use crate::tiles::{Color, Position, Shape, TileBundle};
use vstd::prelude::*;

verus! {

/// One game in progress. The session alone changes its board and registry.
pub struct Session {
    board: Board,
    registry: Registry,
    marks: Vec<u64>,
    pending: Vec<RemoveEvent>,
    cursor: Position,
    phase: Phase,
    arity: usize,
}

/// The sizes and the arity from which a session can be made: at least one
/// column, one row and one mark, and a cell count that fits in `u32`.
pub open spec fn valid_config(width: u32, height: u32, arity: usize) -> bool {
    width >= 1 && height >= 1 && arity >= 1 && width * height <= u32::MAX
}

/// What the cell at `pos` holds while a pass is under way: the columns
/// left of `x` and the rows below `y` of column `x` are done.
spec fn mid_pass(start: State, x: u32, y: u32, pos: Position) -> Option<u64> {
    let col = start.column(pos.x);
    if pos.x < x {
        settle_once(col)[pos.y as int]
    } else if pos.x > x || pos.y >= y {
        start.tile_at(pos)
    } else if pos.y < first_gap(col) {
        start.tile_at(pos)
    } else if pos.y + 1 < y {
        start.tile_at(Position { x: pos.x, y: (pos.y + 1) as u32 })
    } else {
        None
    }
}

/// What a pass keeps of the session while under way: everything but the
/// cells and the cells that the records name.
spec fn same_but_cells(now: State, start: State) -> bool {
    &&& now.width == start.width
    &&& now.height == start.height
    &&& now.issued == start.issued
    &&& now.marks == start.marks
    &&& now.pending == start.pending
    &&& now.cursor == start.cursor
    &&& now.phase == start.phase
    &&& now.arity == start.arity
    &&& forall|id: u64| #[trigger] now.tiles.contains_key(id) == start.tiles.contains_key(id)
    &&& forall|id: u64| #[trigger]
        now.tiles.contains_key(id) ==> {
            &&& now.tiles[id].color == start.tiles[id].color
            &&& now.tiles[id].shape == start.tiles[id].shape
            &&& now.tiles[id].visible == start.tiles[id].visible
        }
}

/// A pass of the cascade moves the tile.
spec fn falls(start: State, id: u64) -> bool {
    start.tiles.contains_key(id) && start.landing(start.tiles[id].position)
        != start.tiles[id].position
}

impl Session {
    /// The session as a mathematical value.
    pub closed spec fn view(&self) -> State {
        State {
            width: self.board.width(),
            height: self.board.height(),
            cells: self.board.cells(),
            tiles: self.registry.tiles(),
            issued: self.registry.issued(),
            marks: self.marks@,
            pending: self.pending@,
            cursor: self.cursor,
            phase: self.phase,
            arity: self.arity as nat,
        }
    }

    /// The parts of the session fit together.
    pub closed spec fn sound(&self) -> bool {
        self.board.wf()
    }

    /// The session is in order.
    pub open spec fn wf(&self) -> bool {
        self.sound() && self@.inv()
    }

    /// Starts a session on an empty board, or gives `None` for sizes from
    /// which none can be made.
    pub fn new(width: u32, height: u32, arity: usize) -> (session: Option<Session>)
        ensures
            session is Some == valid_config(width, height, arity),
            session matches Some(s) ==> s.wf() && s@ == State::fresh(width, height, arity as nat),
    {
        if width == 0 || height == 0 || arity == 0 {
            return None;
        }
        match width.checked_mul(height) {
            None => None,
            Some(_) => {
                let s = Session {
                    board: Board::create(width, height),
                    registry: Registry::new(),
                    marks: Vec::new(),
                    pending: Vec::new(),
                    cursor: Position { x: 0, y: 0 },
                    phase: Phase::Idle,
                    arity,
                };
                assert(s@.marks =~= Seq::empty());
                assert(s@.pending =~= Seq::empty());
                assert(s@ == State::fresh(width, height, arity as nat));
                Some(s)
            },
        }
    }

    /// The current phase.
    pub fn phase(&self) -> (phase: Phase)
        ensures
            phase == self@.phase,
    {
        self.phase
    }

    /// Where the cursor is.
    pub fn cursor(&self) -> (cursor: Position)
        ensures
            cursor == self@.cursor,
    {
        self.cursor
    }

    /// How many marks make a set to be judged.
    pub fn arity(&self) -> (arity: usize)
        ensures
            arity == self@.arity,
    {
        self.arity
    }

    /// Width and height of the board.
    pub fn bounds(&self) -> (size: (u32, u32))
        ensures
            size == (self@.width, self@.height),
    {
        self.board.bounds()
    }

    /// Tells whether the marks are complete, so that they are due to be judged.
    pub fn select_condition(&self) -> (complete: bool)
        ensures
            complete == (self@.marks.len() >= self@.arity),
    {
        self.marks.len() >= self.arity
    }

    /// The marked tiles in the order they were marked.
    pub fn marks(&self) -> (marks: Vec<u64>)
        ensures
            marks@ == self@.marks,
    {
        self.marks.clone()
    }

    /// The removal requests not yet carried out, oldest first.
    pub fn pending(&self) -> (pending: Vec<RemoveEvent>)
        ensures
            pending@ == self@.pending,
    {
        let mut copy: Vec<RemoveEvent> = Vec::new();
        let mut i: usize = 0;
        while i < self.pending.len()
            invariant
                i <= self.pending.len(),
                copy@ == self.pending@.take(i as int),
            decreases self.pending.len() - i,
        {
            copy.push(self.pending[i]);
            i += 1;
        }
        assert(self.pending@.take(i as int) == self.pending@);
        copy
    }

    /// The tile in the cell at `pos`, if there is one.
    pub fn occupant(&self, pos: Position) -> (tile: Option<u64>)
        requires
            self.wf(),
            on_board(pos, self@.width, self@.height),
        ensures
            tile == self@.tile_at(pos),
    {
        self.board.occupant(pos)
    }

    /// The record of a tile, if the tile is live.
    pub fn attributes(&self, id: u64) -> (tile: Option<TileBundle>)
        ensures
            tile == (if self@.tiles.contains_key(id) {
                Some(self@.tiles[id])
            } else {
                None
            }),
    {
        self.registry.attributes(id)
    }

    /// Creates a visible tile of the given colour and shape in the cell at
    /// `pos` and returns its handle; does nothing and returns `None` when
    /// the cell is off the board or occupied.
    pub fn spawn_tile(&mut self, pos: Position, color: Color, shape: Shape) -> (tile: Option<u64>)
        requires
            old(self).wf(),
        ensures
            final(self).wf(),
            tile is Some == (on_board(pos, old(self)@.width, old(self)@.height) && old(
                self,
            )@.tile_at(pos) is None),
            tile is Some ==> tile->0 == old(self)@.issued && final(self)@ == old(self)@.placed(
                pos,
                color,
                shape,
            ),
            tile is None ==> final(self)@ == old(self)@,
    {
        let (width, height) = self.board.bounds();
        if pos.x >= width || pos.y >= height {
            return None;
        }
        if self.board.occupant(pos).is_some() {
            return None;
        }
        let id = self.registry.spawn(TileBundle { position: pos, color, shape, visible: true });
        self.board.set(pos, Some(id));
        proof {
            let before = old(self)@;
            let now = self@;
            assert(now == before.placed(pos, color, shape));
            assert forall|x: u32, y: u32| #[trigger] now.cells.contains_key((x, y)) implies {
                &&& x < now.width
                &&& y < now.height
                &&& now.tiles.contains_key(now.cells[(x, y)])
                &&& now.tiles[now.cells[(x, y)]].position == (Position { x, y })
            } by {
                if (x, y) != (pos.x, pos.y) {
                    assert(before.cells.contains_key((x, y)));
                    assert(before.tiles.contains_key(before.cells[(x, y)]));
                }
            }
            assert forall|other: u64| #[trigger] now.tiles.contains_key(other) implies {
                &&& other < now.issued
                &&& now.cells.contains_key(
                    (now.tiles[other].position.x, now.tiles[other].position.y),
                )
                &&& now.cells[(now.tiles[other].position.x, now.tiles[other].position.y)] == other
            } by {
                if other != id {
                    assert(before.tiles.contains_key(other));
                }
            }
            if before.phase is Idle {
                assert forall|i: int| 0 <= i < now.marks.len() implies now.tiles.contains_key(
                    #[trigger] now.marks[i],
                ) by {
                    assert(before.tiles.contains_key(before.marks[i]));
                }
            }
        }
        Some(id)
    }

    /// Tells whether a tile is marked.
    fn is_marked(&self, id: u64) -> (found: bool)
        ensures
            found == self@.marks.contains(id),
    {
        let mut i: usize = 0;
        while i < self.marks.len()
            invariant
                i <= self.marks.len(),
                forall|k: int| 0 <= k < i ==> self.marks@[k] != id,
            decreases self.marks.len() - i,
        {
            if self.marks[i] == id {
                return true;
            }
            i += 1;
        }
        false
    }

    /// The records of the marked tiles, in the order of the marks.
    fn marked_records(&self) -> (records: Vec<TileBundle>)
        requires
            forall|i: int| 0 <= i < self@.marks.len() ==> self@.tiles.contains_key(#[trigger] self@.marks[i]),
        ensures
            records@ == records_of(self@.tiles, self@.marks),
    {
        let mut records: Vec<TileBundle> = Vec::new();
        let mut i: usize = 0;
        while i < self.marks.len()
            invariant
                i <= self.marks.len(),
                forall|k: int| 0 <= k < self@.marks.len() ==> self@.tiles.contains_key(#[trigger] self@.marks[k]),
                records@ == records_of(self@.tiles, self@.marks.take(i as int)),
            decreases self.marks.len() - i,
        {
            let found = self.registry.attributes(self.marks[i]);
            assert(self@.tiles.contains_key(self@.marks[i as int]));
            if let Some(record) = found {
                records.push(record);
            }
            assert(records@ =~= records_of(self@.tiles, self@.marks.take(i + 1)));
            i += 1;
        }
        assert(self@.marks.take(i as int) == self@.marks);
        records
    }

    /// Files one removal request for each marked tile, behind those
    /// already waiting.
    fn file_removals(&mut self, records: &Vec<TileBundle>)
        requires
            records@ == records_of(old(self)@.tiles, old(self)@.marks),
        ensures
            final(self)@ == (State {
                pending: old(self)@.pending + removals_of(old(self)@.tiles, old(self)@.marks),
                ..old(self)@
            }),
            final(self).sound() == old(self).sound(),
    {
        let mut i: usize = 0;
        while i < self.marks.len()
            invariant
                i <= self.marks.len(),
                records@ == records_of(old(self)@.tiles, old(self)@.marks),
                self.marks@ == old(self).marks@,
                self.board == old(self).board,
                self.registry == old(self).registry,
                self.cursor == old(self).cursor,
                self.phase == old(self).phase,
                self.arity == old(self).arity,
                self.pending@ == old(self)@.pending + removals_of(
                    old(self)@.tiles,
                    old(self)@.marks.take(i as int),
                ),
            decreases self.marks.len() - i,
        {
            self.pending.push(RemoveEvent { tile: self.marks[i], position: records[i].position });
            assert(self.pending@ =~= old(self)@.pending + removals_of(
                old(self)@.tiles,
                old(self)@.marks.take(i + 1),
            ));
            i += 1;
        }
        assert(old(self)@.marks.take(i as int) == old(self)@.marks);
    }

    /// Marks the tile under the cursor, if a confirm may mark it; judges
    /// the marks once they are complete.
    fn confirm(&mut self) -> (notes: Vec<Notification>)
        requires
            old(self).wf(),
            old(self)@.phase is Idle,
        ensures
            final(self).wf(),
            final(self)@ == old(self)@.confirmed(),
            notes@ == old(self)@.notes_for(Intent::Confirm),
    {
        let mut notes: Vec<Notification> = Vec::new();
        let tile = self.board.occupant(self.cursor);
        if let Some(id) = tile {
            if !self.is_marked(id) && self.marks.len() < self.arity {
                self.marks.push(id);
                notes.push(Notification::TileMarked(self.cursor));
                assert(self@.tiles.contains_key(id));
                assert(self@.marks.no_duplicates());
                if self.marks.len() >= self.arity {
                    let records = self.marked_records();
                    if check_match(&records) {
                        self.file_removals(&records);
                    }
                    self.phase = Phase::Resolving;
                    notes.push(Notification::PhaseChanged(Phase::Resolving));
                }
                assert(self@ == old(self)@.confirmed());
                assert(notes@ =~= old(self)@.notes_for(Intent::Confirm));
                return notes;
            }
        }
        assert(!old(self)@.can_mark());
        assert(notes@ =~= old(self)@.notes_for(Intent::Confirm));
        notes
    }

    /// Takes one intent of the player. While resolving, the intent is
    /// dropped: nothing changes and nothing is notified.
    pub fn handle(&mut self, intent: Intent) -> (notes: Vec<Notification>)
        requires
            old(self).wf(),
        ensures
            final(self).wf(),
            final(self)@ == old(self)@.after(intent),
            notes@ == old(self)@.notes_for(intent),
            old(self)@.phase is Resolving ==> final(self)@ == old(self)@ && notes@.len() == 0,
    {
        match self.phase {
            Phase::Resolving => Vec::new(),
            Phase::Idle => {
                let dir = match intent {
                    Intent::MoveUp => Direction::Up,
                    Intent::MoveDown => Direction::Down,
                    Intent::MoveLeft => Direction::Left,
                    Intent::MoveRight => Direction::Right,
                    Intent::Confirm => {
                        return self.confirm();
                    },
                };
                assert(direction_of(intent) == Some(dir));
                let (width, height) = self.board.bounds();
                self.cursor = move_cursor(self.cursor, width, height, dir);
                let mut notes: Vec<Notification> = Vec::new();
                notes.push(Notification::CursorMoved(self.cursor));
                assert(notes@ =~= old(self)@.notes_for(intent));
                notes
            },
        }
    }

    /// Carries out the pending removal requests, oldest first. A tile
    /// leaves registry and board together. A request for a tile that is
    /// gone, or that is not recorded at the cell the request names, does
    /// nothing.
    pub fn remove_tiles(&mut self) -> (notes: Vec<Notification>)
        requires
            old(self).wf(),
        ensures
            final(self).wf(),
            final(self)@ == old(self)@.purged(),
            notes@ == removal_notes(old(self)@.tiles, old(self)@.pending),
    {
        let ghost before = self@;
        let mut notes: Vec<Notification> = Vec::new();
        let mut i: usize = 0;
        while i < self.pending.len()
            invariant
                i <= self.pending.len(),
                before == old(self)@,
                before.inv(),
                self.sound(),
                self.pending@ == before.pending,
                self.marks@ == before.marks,
                self.cursor == before.cursor,
                self.phase == before.phase,
                self.arity == before.arity,
                self@.width == before.width,
                self@.height == before.height,
                self@.issued == before.issued,
                self@.tiles == before.tiles.remove_keys(
                    doomed(before.tiles, before.pending.take(i as int)),
                ),
                self@.cells == Map::new(
                    |cell: (u32, u32)|
                        before.cells.contains_key(cell) && !doomed(
                            before.tiles,
                            before.pending.take(i as int),
                        ).contains(before.cells[cell]),
                    |cell: (u32, u32)| before.cells[cell],
                ),
                notes@ == removal_notes(before.tiles, before.pending.take(i as int)),
            decreases self.pending.len() - i,
        {
            let event = self.pending[i];
            let ghost gone = doomed(before.tiles, before.pending.take(i as int));
            let ghost next = doomed(before.tiles, before.pending.take(i + 1));
            proof {
                assert(before.pending.take(i + 1).drop_last() == before.pending.take(i as int));
                assert(before.pending.take(i + 1).last() == event);
            }
            let mut removed = false;
            if let Some(record) = self.registry.attributes(event.tile) {
                if record.position == event.position {
                    assert(before.tiles.contains_key(event.tile));
                    assert(before.cells.contains_key((event.position.x, event.position.y)));
                    self.registry.despawn(event.tile);
                    self.board.set(event.position, None);
                    notes.push(Notification::TileRemoved(event.position));
                    removed = true;
                }
            }
            proof {
                if removed {
                    assert(next == gone.insert(event.tile));
                } else {
                    assert(next =~= gone);
                }
                assert(self@.tiles =~= before.tiles.remove_keys(next));
                assert forall|cell: (u32, u32)| #[trigger]
                    self@.cells.contains_key(cell) == (before.cells.contains_key(cell)
                        && !next.contains(before.cells[cell])) by {
                    if before.cells.contains_key(cell) {
                        assert(before.cells.contains_key((cell.0, cell.1)));
                    }
                }
                assert(self@.cells =~= Map::new(
                    |cell: (u32, u32)|
                        before.cells.contains_key(cell) && !next.contains(before.cells[cell]),
                    |cell: (u32, u32)| before.cells[cell],
                ));
            }
            i += 1;
        }
        assert(before.pending.take(i as int) == before.pending);
        self.pending = Vec::new();
        proof {
            assert(self@.pending =~= Seq::empty());
            assert(self@ == before.purged());
            before.lemma_purged(0);
        }
        notes
    }

    /// Clears the marks.
    pub fn remove_mark(&mut self) -> (notes: Vec<Notification>)
        requires
            old(self).wf(),
        ensures
            final(self).wf(),
            final(self)@ == old(self)@.unmarked(),
            notes@ == seq![Notification::MarksCleared],
    {
        self.marks = Vec::new();
        let mut notes: Vec<Notification> = Vec::new();
        notes.push(Notification::MarksCleared);
        assert(self@.marks =~= Seq::empty());
        assert(self@ == old(self)@.unmarked());
        assert(notes@ =~= seq![Notification::MarksCleared]);
        notes
    }

    /// One pass of the cascade. Column by column, from the bottom row up,
    /// a tile with an empty cell directly below it moves down one row; its
    /// handle stays and its record follows it.
    pub fn gravity(&mut self) -> (notes: Vec<Notification>)
        requires
            old(self).wf(),
        ensures
            final(self).wf(),
            final(self)@ == old(self)@.fallen(),
            notes@ == old(self)@.relocations(),
            (notes@.len() == 0) == (final(self)@ == old(self)@),
    {
        let ghost start = self@;
        let mut notes: Vec<Notification> = Vec::new();
        let (width, height) = self.board.bounds();
        let mut x: u32 = 0;
        while x < width
            invariant
                x <= width,
                width == start.width,
                height == start.height,
                start.inv(),
                self.sound(),
                self@.consistent(),
                same_but_cells(self@, start),
                forall|pos: Position|
                    on_board(pos, width, height) ==> #[trigger] self@.tile_at(pos) == mid_pass(
                        start,
                        x,
                        0,
                        pos,
                    ),
                notes@ == start.moves_before(x as nat),
                notes@.len() == 0 ==> self@ == start,
                notes@.len() > 0 ==> exists|id: u64| falls(start, id),
            decreases width - x,
        {
            let ghost col = start.column(x);
            proof {
                lemma_first_gap(col);
            }
            let mut y: u32 = 0;
            while y < height
                invariant
                    x < width,
                    y <= height,
                    width == start.width,
                    height == start.height,
                    col == start.column(x),
                    start.inv(),
                    self.sound(),
                    self@.consistent(),
                    same_but_cells(self@, start),
                    forall|pos: Position|
                        on_board(pos, width, height) ==> #[trigger] self@.tile_at(pos)
                            == mid_pass(start, x, y, pos),
                    notes@ == start.moves_before(x as nat) + column_moves(col, x, y as nat),
                    notes@.len() == 0 ==> self@ == start,
                    notes@.len() > 0 ==> exists|id: u64| falls(start, id),
                decreases height - y,
            {
                let pos = Position { x, y };
                let ghost prior = self@;
                let mut moved = false;
                proof {
                    lemma_first_gap(col);
                    assert(prior.tile_at(pos) == mid_pass(start, x, y, pos));
                    assert(col[y as int] == start.tile_at(pos));
                }
                if let Some(below_pos) = self.board.move_down_one(pos) {
                    assert(prior.tile_at(below_pos) == mid_pass(start, x, y, below_pos));
                    if self.board.occupant(below_pos).is_none() {
                        if let Some(tile) = self.board.occupant(pos) {
                            assert(prior.cells.contains_key((x, y)));
                            if let Some(record) = self.registry.attributes(tile) {
                                self.board.set(below_pos, Some(tile));
                                self.board.set(pos, None);
                                self.registry.set_attributes(
                                    tile,
                                    TileBundle {
                                        position: below_pos,
                                        color: record.color,
                                        shape: record.shape,
                                        visible: record.visible,
                                    },
                                );
                                notes.push(Notification::TileRelocated(pos, below_pos));
                                moved = true;
                                proof {
                                    let now = self@;
                                    assert(start.cells.contains_key((x, y)));
                                    assert(falls(start, tile));
                                    assert forall|a: u32, b: u32| #[trigger]
                                        now.cells.contains_key((a, b)) implies {
                                        &&& a < now.width
                                        &&& b < now.height
                                        &&& now.tiles.contains_key(now.cells[(a, b)])
                                        &&& now.tiles[now.cells[(a, b)]].position == (Position {
                                            x: a,
                                            y: b,
                                        })
                                    } by {
                                        if (a, b) != (below_pos.x, below_pos.y) {
                                            assert(prior.cells.contains_key((a, b)));
                                        }
                                    }
                                    assert forall|id: u64| #[trigger]
                                        now.tiles.contains_key(id) implies {
                                        &&& id < now.issued
                                        &&& now.cells.contains_key(
                                            (now.tiles[id].position.x, now.tiles[id].position.y),
                                        )
                                        &&& now.cells[(
                                            now.tiles[id].position.x,
                                            now.tiles[id].position.y,
                                        )] == id
                                    } by {
                                        assert(prior.tiles.contains_key(id));
                                    }
                                    assert forall|id: u64| #[trigger]
                                        now.tiles.contains_key(id) == start.tiles.contains_key(
                                            id,
                                        ) by {
                                        assert(prior.tiles.contains_key(id)
                                            == start.tiles.contains_key(id));
                                    }
                                    assert forall|id: u64| #[trigger]
                                        now.tiles.contains_key(id) implies {
                                        &&& now.tiles[id].color == start.tiles[id].color
                                        &&& now.tiles[id].shape == start.tiles[id].shape
                                        &&& now.tiles[id].visible == start.tiles[id].visible
                                    } by {
                                        assert(prior.tiles.contains_key(id));
                                    }
                                }
                            }
                        }
                    }
                }
                proof {
                    let now = self@;
                    assert(moved == (col[y as int] is Some && first_gap(col) < y));
                    assert forall|other: Position|
                        on_board(other, width, height) implies #[trigger] now.tile_at(other)
                        == mid_pass(start, x, (y + 1) as u32, other) by {
                        assert(prior.tile_at(other) == mid_pass(start, x, y, other));
                    }
                    assert(notes@ =~= start.moves_before(x as nat) + column_moves(
                        col,
                        x,
                        (y + 1) as nat,
                    ));
                }
                y += 1;
            }
            proof {
                assert forall|pos: Position|
                    on_board(pos, width, height) implies #[trigger] self@.tile_at(pos)
                    == mid_pass(start, (x + 1) as u32, 0, pos) by {
                    assert(self@.tile_at(pos) == mid_pass(start, x, height, pos));
                }
                assert(start.moves_before((x + 1) as nat) == start.moves_before(x as nat)
                    + column_moves(start.column(x), x, start.height as nat));
            }
            x += 1;
        }
        proof {
            let now = self@;
            let goal = start.fallen();
            assert forall|cell: (u32, u32)| #[trigger]
                now.cells.contains_key(cell) == goal.cells.contains_key(cell) by {
                let pos = Position { x: cell.0, y: cell.1 };
                if now.cells.contains_key(cell) {
                    assert(now.cells.contains_key((cell.0, cell.1)));
                }
                if on_board(pos, width, height) {
                    assert(now.tile_at(pos) == mid_pass(start, width, 0, pos));
                }
            }
            assert forall|cell: (u32, u32)| #[trigger]
                now.cells.contains_key(cell) implies now.cells[cell] == goal.cells[cell] by {
                let pos = Position { x: cell.0, y: cell.1 };
                assert(now.cells.contains_key((cell.0, cell.1)));
                assert(now.tile_at(pos) == mid_pass(start, width, 0, pos));
            }
            assert(now.cells =~= goal.cells);
            assert forall|id: u64| #[trigger]
                now.tiles.contains_key(id) implies now.tiles[id] == goal.tiles[id] by {
                assert(start.tiles.contains_key(id));
                let from = start.tiles[id].position;
                let to = start.landing(from);
                let col = start.column(from.x);
                lemma_first_gap(col);
                assert(start.cells.contains_key((from.x, from.y)));
                assert(col[from.y as int] == Some(id));
                assert(on_board(to, width, height));
                assert(now.tile_at(to) == mid_pass(start, width, 0, to));
                assert(now.cells.contains_key((to.x, to.y)));
            }
            assert(now.tiles =~= goal.tiles);
            assert(now == goal);
            if notes@.len() > 0 {
                let id = choose|id: u64| falls(start, id);
                assert(now.tiles[id].position != start.tiles[id].position);
            }
        }
        notes
    }

    /// Resolves the marks once they are complete: carries out the pending
    /// removals, clears the marks, makes one pass of the cascade and
    /// returns to the idle phase. Outside the resolving phase it does
    /// nothing.
    pub fn resolve(&mut self) -> (notes: Vec<Notification>)
        requires
            old(self).wf(),
        ensures
            final(self).wf(),
            final(self)@ == old(self)@.resolved(),
            notes@ == old(self)@.resolution_notes(),
    {
        match self.phase {
            Phase::Idle => Vec::new(),
            Phase::Resolving => {
                let mut notes = self.remove_tiles();
                let mut cleared = self.remove_mark();
                notes.append(&mut cleared);
                let mut moves = self.gravity();
                notes.append(&mut moves);
                self.phase = Phase::Idle;
                notes.push(Notification::PhaseChanged(Phase::Idle));
                proof {
                    assert(self@ == old(self)@.resolved());
                    assert(notes@ =~= old(self)@.resolution_notes());
                }
                notes
            },
        }
    }

    /// Fills the board: every empty cell, column by column and in each
    /// from the bottom up, gets a new tile whose shape and colour are
    /// drawn from a generator started from `seed`. Tiles already on the
    /// board stay.
    pub fn populate(&mut self, seed: u64)
        requires
            old(self).wf(),
        ensures
            final(self).wf(),
            filled(old(self)@, final(self)@),
    {
        let ghost before = self@;
        let mut rng = seeded(seed);
        let (width, height) = self.board.bounds();
        let mut x: u32 = 0;
        while x < width
            invariant
                x <= width,
                width == before.width,
                height == before.height,
                before.inv(),
                self.wf(),
                filled_up_to(before, self@, x, 0),
            decreases width - x,
        {
            let mut y: u32 = 0;
            while y < height
                invariant
                    x < width,
                    y <= height,
                    width == before.width,
                    height == before.height,
                    before.inv(),
                    self.wf(),
                    filled_up_to(before, self@, x, y),
                decreases height - y,
            {
                let pos = Position { x, y };
                let ghost prior = self@;
                let shape = Shape::from_draw(draw_up_to(&mut rng, 2));
                let color = Color::from_draw(draw_up_to(&mut rng, 2));
                let made = self.spawn_tile(pos, color, shape);
                proof {
                    let now = self@;
                    assert(now.tile_at(pos) is Some);
                    assert forall|other: Position|
                        on_board(other, before.width, before.height) && (other.x < x || (other.x
                            == x && other.y < y + 1)) implies (#[trigger] now.tile_at(
                        other,
                    )) is Some by {
                        if other != pos {
                            assert(prior.tile_at(other) is Some);
                        }
                    }
                    assert forall|other: Position|
                        (#[trigger] before.tile_at(other)) is Some implies now.tile_at(other)
                        == before.tile_at(other) by {
                        assert(prior.tile_at(other) == before.tile_at(other));
                    }
                    assert forall|id: u64| #[trigger]
                        before.tiles.contains_key(id) implies now.tiles.contains_key(id)
                        && now.tiles[id] == before.tiles[id] by {
                        assert(prior.tiles.contains_key(id));
                        assert(id < prior.issued);
                    }
                    assert forall|id: u64| #[trigger]
                        now.tiles.contains_key(id) && !before.tiles.contains_key(
                            id,
                        ) implies before.issued <= id && now.tiles[id].visible by {
                        if prior.tiles.contains_key(id) {
                            assert(id < prior.issued);
                        } else {
                            assert(made is Some);
                            assert(id == prior.issued);
                        }
                    }
                }
                y += 1;
            }
            x += 1;
        }
    }
}

} // verus!
