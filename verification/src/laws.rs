//! What holds of every session, proved over its model.

use crate::gravity::{
    first_gap, lemma_first_gap, lemma_settling_stacks, settle_once, settle_times, stacked,
    tiles_of,
};
use crate::state::{doomed, Intent, Notification, State};
use crate::tiles::Position;
use vstd::prelude::*;

verus! {

impl State {
    /// Removal is all or nothing: a removed tile is gone from registry and
    /// board alike, every other tile keeps its record and its cell, and
    /// board and registry still agree.
    pub proof fn lemma_purged(self, id: u64)
        requires
            self.inv(),
        ensures
            self.purged().inv(),
            doomed(self.tiles, self.pending).contains(id) ==> {
                &&& !self.purged().tiles.contains_key(id)
                &&& forall|pos: Position| self.purged().tile_at(pos) != Some(id)
            },
            self.tiles.contains_key(id) && !doomed(self.tiles, self.pending).contains(id) ==> {
                &&& self.purged().tiles.contains_key(id)
                &&& self.purged().tiles[id] == self.tiles[id]
                &&& self.purged().tile_at(self.tiles[id].position) == Some(id)
            },
    {
        let after = self.purged();
        let gone = doomed(self.tiles, self.pending);
        assert forall|x: u32, y: u32| #[trigger] after.cells.contains_key((x, y)) implies {
            &&& x < after.width
            &&& y < after.height
            &&& after.tiles.contains_key(after.cells[(x, y)])
            &&& after.tiles[after.cells[(x, y)]].position == (Position { x, y })
        } by {
            assert(self.cells.contains_key((x, y)));
        }
        assert forall|other: u64| #[trigger] after.tiles.contains_key(other) implies {
            &&& other < after.issued
            &&& after.cells.contains_key(
                (after.tiles[other].position.x, after.tiles[other].position.y),
            )
            &&& after.cells[(after.tiles[other].position.x, after.tiles[other].position.y)]
                == other
        } by {
            assert(self.tiles.contains_key(other));
        }
        if self.phase is Idle {
            assert(self.pending =~= Seq::empty());
            assert(gone =~= Set::empty());
            assert(after.tiles =~= self.tiles);
        }
        if gone.contains(id) {
            assert forall|pos: Position| after.tile_at(pos) != Some(id) by {
                if after.cells.contains_key((pos.x, pos.y)) {
                    assert(self.cells.contains_key((pos.x, pos.y)));
                }
            }
        }
        if self.tiles.contains_key(id) && !gone.contains(id) {
            assert(after.tiles.contains_key(id));
            assert(self.cells.contains_key((self.tiles[id].position.x, self.tiles[id].position.y)));
        }
    }

    /// While resolving, an intent changes nothing and notifies nothing.
    pub proof fn lemma_resolving_drops_intents(self, intent: Intent)
        requires
            self.phase is Resolving,
        ensures
            self.after(intent) == self,
            self.notes_for(intent) == Seq::<Notification>::empty(),
    {
    }

    /// An intent leaves a session that is in order in order.
    pub proof fn lemma_after_keeps_inv(self, intent: Intent)
        requires
            self.inv(),
        ensures
            self.after(intent).inv(),
            self.after(intent).arity == self.arity,
    {
        let next = self.after(intent);
        if self.phase is Idle && intent == Intent::Confirm && self.can_mark() {
            let id = self.tile_at(self.cursor)->0;
            assert(self.cells.contains_key((self.cursor.x, self.cursor.y)));
            assert(next.marks == self.marks.push(id));
            assert(next.marks.no_duplicates());
            assert forall|i: int| 0 <= i < next.marks.len() implies next.tiles.contains_key(
                #[trigger] next.marks[i],
            ) by {
                if i < self.marks.len() {
                    assert(self.tiles.contains_key(self.marks[i]));
                }
            }
        }
    }

    /// However many intents come in, the marks never exceed the arity.
    pub proof fn lemma_marks_bounded(self, intents: Seq<Intent>)
        requires
            self.inv(),
        ensures
            self.after_all(intents).inv(),
            self.after_all(intents).arity == self.arity,
            self.after_all(intents).marks.len() <= self.arity,
        decreases intents.len(),
    {
        if intents.len() > 0 {
            self.lemma_marks_bounded(intents.drop_last());
            self.after_all(intents.drop_last()).lemma_after_keeps_inv(intents.last());
        }
    }

    /// Once the marks are complete, a further confirm is ignored.
    pub proof fn lemma_complete_marks_ignore_confirm(self)
        requires
            self.marks.len() >= self.arity,
        ensures
            self.after(Intent::Confirm) == self,
            self.notes_for(Intent::Confirm) == Seq::<Notification>::empty(),
    {
    }

    /// One pass of the cascade settles each column once and leaves the
    /// session in order.
    pub proof fn lemma_fallen(self, x: u32)
        requires
            self.inv(),
        ensures
            self.fallen().inv(),
            x < self.width ==> self.fallen().column(x) == settle_once(self.column(x)),
    {
        let after = self.fallen();
        if x < self.width {
            assert(after.column(x) =~= settle_once(self.column(x)));
        }
        assert forall|a: u32, b: u32| #[trigger] after.cells.contains_key((a, b)) implies {
            &&& a < after.width
            &&& b < after.height
            &&& after.tiles.contains_key(after.cells[(a, b)])
            &&& after.tiles[after.cells[(a, b)]].position == (Position { x: a, y: b })
        } by {
            let col = self.column(a);
            lemma_first_gap(col);
            if b < first_gap(col) {
                assert(col[b as int] == self.tile_at(Position { x: a, y: b }));
                assert(self.cells.contains_key((a, b)));
            } else {
                let up = (b + 1) as u32;
                assert(col[b + 1] == self.tile_at(Position { x: a, y: up }));
                assert(self.cells.contains_key((a, up)));
            }
        }
        assert forall|id: u64| #[trigger] after.tiles.contains_key(id) implies {
            &&& id < after.issued
            &&& after.cells.contains_key(
                (after.tiles[id].position.x, after.tiles[id].position.y),
            )
            &&& after.cells[(after.tiles[id].position.x, after.tiles[id].position.y)] == id
        } by {
            assert(self.tiles.contains_key(id));
            let from = self.tiles[id].position;
            let col = self.column(from.x);
            lemma_first_gap(col);
            assert(self.cells.contains_key((from.x, from.y)));
            assert(col[from.y as int] == Some(id));
        }
        if self.phase is Idle {
            assert forall|i: int| 0 <= i < after.marks.len() implies after.tiles.contains_key(
                #[trigger] after.marks[i],
            ) by {
                assert(self.tiles.contains_key(self.marks[i]));
            }
        }
    }

    /// Clearing the marks leaves the session in order.
    pub proof fn lemma_unmarked(self)
        requires
            self.inv(),
        ensures
            self.unmarked().inv(),
    {
    }

    /// A resolution leaves the session in order and idle, with no marks
    /// and no removals pending. A removed tile is gone from registry and
    /// board alike; every other tile is still live with the colour, shape
    /// and visibility it had, and has moved only as the cascade moves it.
    pub proof fn lemma_resolved(self, id: u64)
        requires
            self.inv(),
            self.phase is Resolving,
        ensures
            self.resolved().inv(),
            self.resolved().phase is Idle,
            self.resolved().marks.len() == 0,
            self.resolved().pending.len() == 0,
            doomed(self.tiles, self.pending).contains(id) ==> {
                &&& !self.resolved().tiles.contains_key(id)
                &&& forall|pos: Position| self.resolved().tile_at(pos) != Some(id)
            },
            self.tiles.contains_key(id) && !doomed(self.tiles, self.pending).contains(id) ==> {
                &&& self.resolved().tiles.contains_key(id)
                &&& self.resolved().tiles[id].color == self.tiles[id].color
                &&& self.resolved().tiles[id].shape == self.tiles[id].shape
                &&& self.resolved().tiles[id].visible == self.tiles[id].visible
                &&& self.resolved().tiles[id].position == self.purged().landing(
                    self.tiles[id].position,
                )
                &&& self.resolved().tile_at(self.resolved().tiles[id].position) == Some(id)
            },
    {
        let cleared = self.purged().unmarked();
        let end = self.resolved();
        self.lemma_purged(id);
        self.purged().lemma_unmarked();
        cleared.lemma_fallen(0);
        assert(cleared.fallen().inv());
        assert(end.consistent());
        if doomed(self.tiles, self.pending).contains(id) {
            assert forall|pos: Position| end.tile_at(pos) != Some(id) by {
                if end.cells.contains_key((pos.x, pos.y)) {
                    assert(end.tiles.contains_key(end.cells[(pos.x, pos.y)]));
                }
            }
        }
        if self.tiles.contains_key(id) && !doomed(self.tiles, self.pending).contains(id) {
            assert(end.tiles.contains_key(id));
            assert(forall|x: u32| cleared.column(x) == self.purged().column(x));
        }
    }

    /// Passes of the cascade over the board are passes over each of its
    /// columns, and leave the session in order.
    pub proof fn lemma_fallen_times(self, passes: nat, x: u32)
        requires
            self.inv(),
        ensures
            self.fallen_times(passes).inv(),
            self.fallen_times(passes).width == self.width,
            self.fallen_times(passes).height == self.height,
            x < self.width ==> self.fallen_times(passes).column(x) == settle_times(
                self.column(x),
                passes,
            ),
        decreases passes,
    {
        if passes > 0 {
            self.lemma_fallen_times((passes - 1) as nat, x);
            self.fallen_times((passes - 1) as nat).lemma_fallen(x);
        }
    }

    /// Once a pass of the cascade changes nothing, every column holds the
    /// tiles it had at the start in its lowest rows, in the order they had
    /// from the bottom up, and nothing above them.
    pub proof fn lemma_settled_board(self, passes: nat, x: u32)
        requires
            self.inv(),
            x < self.width,
            self.fallen_times(passes).fallen() == self.fallen_times(passes),
        ensures
            self.fallen_times(passes).column(x) == stacked(
                tiles_of(self.column(x)),
                self.height as nat,
            ),
    {
        self.lemma_fallen_times(passes, x);
        self.fallen_times(passes).lemma_fallen(x);
        lemma_settling_stacks(self.column(x), passes);
    }
}

} // verus!
