//! How one column settles under gravity.
//!
//! A column is read from the bottom row up. One pass of the cascade lets
//! every tile that has an empty cell somewhere below it fall by one row,
//! which closes the lowest gap of the column.

use vstd::prelude::*;

verus! {

/// The lowest empty row at or above `from`; the column's height if every
/// row from there on is occupied.
pub open spec fn gap_from(col: Seq<Option<u64>>, from: int) -> int
    decreases col.len() - from,
{
    if from < 0 || from >= col.len() {
        col.len() as int
    } else if col[from] is None {
        from
    } else {
        gap_from(col, from + 1)
    }
}

/// The lowest empty row of the column, or its height if it is full.
pub open spec fn first_gap(col: Seq<Option<u64>>) -> int {
    gap_from(col, 0)
}

/// The column after one pass: the rows below the lowest gap stay, the rows
/// above it move down by one, and the top row is left empty.
pub open spec fn settle_once(col: Seq<Option<u64>>) -> Seq<Option<u64>> {
    Seq::new(
        col.len(),
        |y: int|
            if y < first_gap(col) {
                col[y]
            } else if y + 1 < col.len() {
                col[y + 1]
            } else {
                None
            },
    )
}

/// The column after `passes` passes.
pub open spec fn settle_times(col: Seq<Option<u64>>, passes: nat) -> Seq<Option<u64>>
    decreases passes,
{
    if passes == 0 {
        col
    } else {
        settle_once(settle_times(col, (passes - 1) as nat))
    }
}

/// The tiles of the column from the bottom up, empty rows left out.
pub open spec fn tiles_of(col: Seq<Option<u64>>) -> Seq<u64>
    decreases col.len(),
{
    if col.len() == 0 {
        Seq::empty()
    } else {
        match col.last() {
            Some(tile) => tiles_of(col.drop_last()).push(tile),
            None => tiles_of(col.drop_last()),
        }
    }
}

/// No tile has an empty row below it.
pub open spec fn packed(col: Seq<Option<u64>>) -> bool {
    forall|i: int, j: int| 0 <= i < j < col.len() && col[i] is None ==> col[j] is None
}

/// The column of the given height that holds `tiles` in its lowest rows,
/// in that order, and nothing above.
pub open spec fn stacked(tiles: Seq<u64>, height: nat) -> Seq<Option<u64>> {
    Seq::new(
        height,
        |y: int|
            if y < tiles.len() {
                Some(tiles[y])
            } else {
                None
            },
    )
}

/// Where the search for a gap ends: at an empty row with only tiles
/// between the start and it, or at the top.
pub proof fn lemma_gap_from(col: Seq<Option<u64>>, from: int)
    requires
        0 <= from <= col.len(),
    ensures
        from <= gap_from(col, from) <= col.len(),
        forall|j: int| from <= j < gap_from(col, from) ==> (#[trigger] col[j]) is Some,
        gap_from(col, from) < col.len() ==> col[gap_from(col, from)] is None,
    decreases col.len() - from,
{
    if from < col.len() && col[from] is Some {
        lemma_gap_from(col, from + 1);
    }
}

/// The lowest gap has only tiles below it.
pub proof fn lemma_first_gap(col: Seq<Option<u64>>)
    ensures
        0 <= first_gap(col) <= col.len(),
        forall|j: int| 0 <= j < first_gap(col) ==> (#[trigger] col[j]) is Some,
        first_gap(col) < col.len() ==> col[first_gap(col)] is None,
{
    lemma_gap_from(col, 0);
}

/// The tiles of two columns stacked on each other are the tiles of the
/// lower one followed by those of the upper one.
pub proof fn lemma_tiles_of_concat(lower: Seq<Option<u64>>, upper: Seq<Option<u64>>)
    ensures
        tiles_of(lower + upper) == tiles_of(lower) + tiles_of(upper),
    decreases upper.len(),
{
    if upper.len() == 0 {
        assert(lower + upper =~= lower);
        assert(tiles_of(lower) + tiles_of(upper) =~= tiles_of(lower));
    } else {
        assert((lower + upper).drop_last() =~= lower + upper.drop_last());
        assert((lower + upper).last() == upper.last());
        lemma_tiles_of_concat(lower, upper.drop_last());
        match upper.last() {
            Some(tile) => {
                assert((tiles_of(lower) + tiles_of(upper.drop_last())).push(tile) =~= tiles_of(
                    lower,
                ) + tiles_of(upper.drop_last()).push(tile));
            },
            None => {},
        }
    }
}

/// A column has at most as many tiles as rows.
pub proof fn lemma_tiles_of_len(col: Seq<Option<u64>>)
    ensures
        tiles_of(col).len() <= col.len(),
    decreases col.len(),
{
    if col.len() > 0 {
        lemma_tiles_of_len(col.drop_last());
    }
}

/// A pass keeps the tiles of a column and their order from the bottom up.
pub proof fn lemma_settle_keeps_tiles(col: Seq<Option<u64>>)
    ensures
        settle_once(col).len() == col.len(),
        tiles_of(settle_once(col)) == tiles_of(col),
{
    lemma_first_gap(col);
    let gap = first_gap(col);
    let n = col.len() as int;
    if gap == n {
        assert(settle_once(col) =~= col);
    } else {
        let low = col.subrange(0, gap);
        let high = col.subrange(gap + 1, n);
        let hole: Seq<Option<u64>> = seq![None];
        assert(hole.drop_last() =~= Seq::<Option<u64>>::empty());
        assert(tiles_of(hole.drop_last()) =~= Seq::<u64>::empty());
        assert(tiles_of(hole) =~= Seq::<u64>::empty());
        assert(col =~= (low + hole) + high);
        assert(settle_once(col) =~= (low + high) + hole);
        lemma_tiles_of_concat(low, hole);
        lemma_tiles_of_concat(low + hole, high);
        lemma_tiles_of_concat(low, high);
        lemma_tiles_of_concat(low + high, hole);
        assert(tiles_of(low) + tiles_of(hole) =~= tiles_of(low));
        assert(tiles_of(low + high) + tiles_of(hole) =~= tiles_of(low + high));
    }
}

/// In a column that a pass leaves as it is, every row from `y` up is empty
/// once `y` is at or above the lowest gap.
proof fn lemma_unmoved_tail_empty(col: Seq<Option<u64>>, y: int)
    requires
        settle_once(col) == col,
        first_gap(col) <= y < col.len(),
    ensures
        col[y] is None,
    decreases col.len() - y,
{
    lemma_first_gap(col);
    if y + 1 < col.len() {
        lemma_unmoved_tail_empty(col, y + 1);
    }
    assert(settle_once(col)[y] is None);
}

/// A pass moves nothing exactly when the column is packed.
pub proof fn lemma_unmoved_iff_packed(col: Seq<Option<u64>>)
    ensures
        (settle_once(col) == col) == packed(col),
{
    lemma_first_gap(col);
    let gap = first_gap(col);
    if settle_once(col) == col {
        assert forall|i: int, j: int| 0 <= i < j < col.len() && col[i] is None implies col[j] is None by {
            assert(gap <= i);
            lemma_unmoved_tail_empty(col, j);
        }
    }
    if packed(col) {
        assert forall|y: int| 0 <= y < col.len() implies settle_once(col)[y] == col[y] by {
            if y >= gap {
                if y > gap {
                    assert(col[gap] is None);
                }
                assert(col[y] is None);
            }
        }
        assert(settle_once(col) =~= col);
    }
}

/// A packed column holds its tiles in its lowest rows, in order, and
/// nothing above them.
pub proof fn lemma_packed_is_stacked(col: Seq<Option<u64>>)
    requires
        packed(col),
    ensures
        col == stacked(tiles_of(col), col.len()),
    decreases col.len(),
{
    lemma_tiles_of_len(col);
    if col.len() > 0 {
        let rest = col.drop_last();
        let top = col.len() - 1;
        assert forall|i: int, j: int| 0 <= i < j < rest.len() && rest[i] is None implies rest[j] is None by {
            assert(col[i] is None);
            assert(col[j] is None);
        }
        lemma_packed_is_stacked(rest);
        lemma_tiles_of_len(rest);
        let low = tiles_of(rest);
        let goal = stacked(tiles_of(col), col.len());
        assert forall|y: int| 0 <= y < top implies col[y] == stacked(low, rest.len())[y] by {
            assert(col[y] == rest[y]);
        }
        match col.last() {
            Some(tile) => {
                if low.len() < rest.len() {
                    let hole = low.len() as int;
                    assert(stacked(low, rest.len())[hole] is None);
                    assert(col[hole] is None);
                    assert(col[top] is None);
                }
                assert(tiles_of(col) == low.push(tile));
                assert forall|y: int| 0 <= y < col.len() implies col[y] == goal[y] by {
                    if y < top {
                        assert(col[y] == stacked(low, rest.len())[y]);
                    }
                }
                assert(col =~= goal);
            },
            None => {
                assert(tiles_of(col) == low);
                assert forall|y: int| 0 <= y < col.len() implies col[y] == goal[y] by {
                    if y < top {
                        assert(col[y] == stacked(low, rest.len())[y]);
                    } else {
                        assert(col[top] is None);
                        if low.len() > top {
                        }
                    }
                }
                assert(col =~= goal);
            },
        }
    } else {
        assert(col =~= stacked(tiles_of(col), col.len()));
    }
}

/// Any number of passes keeps the height, the tiles and their order.
pub proof fn lemma_settle_times_keeps_tiles(col: Seq<Option<u64>>, passes: nat)
    ensures
        settle_times(col, passes).len() == col.len(),
        tiles_of(settle_times(col, passes)) == tiles_of(col),
    decreases passes,
{
    if passes > 0 {
        lemma_settle_times_keeps_tiles(col, (passes - 1) as nat);
        lemma_settle_keeps_tiles(settle_times(col, (passes - 1) as nat));
    }
}

/// Passes repeated until one moves nothing leave the column's tiles in its
/// lowest rows, in the order they had from the bottom up.
pub proof fn lemma_settling_stacks(col: Seq<Option<u64>>, passes: nat)
    requires
        settle_once(settle_times(col, passes)) == settle_times(col, passes),
    ensures
        settle_times(col, passes) == stacked(tiles_of(col), col.len()),
{
    let end = settle_times(col, passes);
    lemma_settle_times_keeps_tiles(col, passes);
    lemma_unmoved_iff_packed(end);
    lemma_packed_is_stacked(end);
}

/// The number of rows up to and including the highest tile; 0 for a column
/// without tiles.
pub open spec fn top(col: Seq<Option<u64>>) -> int
    decreases col.len(),
{
    if col.len() == 0 {
        0
    } else if col.last() is Some {
        col.len() as int
    } else {
        top(col.drop_last())
    }
}

/// `top` is the one row count above which the column is empty and just
/// below which it has a tile.
pub proof fn lemma_top(col: Seq<Option<u64>>, rows: int)
    ensures
        0 <= top(col) <= col.len(),
        forall|j: int| top(col) <= j < col.len() ==> (#[trigger] col[j]) is None,
        top(col) > 0 ==> col[top(col) - 1] is Some,
        (0 <= rows <= col.len() && (forall|j: int| rows <= j < col.len() ==> (#[trigger] col[j]) is None)
            && (rows > 0 ==> col[rows - 1] is Some)) ==> top(col) == rows,
    decreases col.len(),
{
    if col.len() > 0 {
        let rest = col.drop_last();
        lemma_top(rest, rows);
        if col.last() is None {
            assert forall|j: int| top(col) <= j < col.len() implies (#[trigger] col[j]) is None by {
                if j < rest.len() {
                    assert(rest[j] is None);
                }
            }
            if 0 <= rows <= col.len() && (forall|j: int|
                rows <= j < col.len() ==> (#[trigger] col[j]) is None) && (rows > 0 ==> col[rows
                - 1] is Some) {
                assert(rows < col.len());
                assert forall|j: int| rows <= j < rest.len() implies (#[trigger] rest[j]) is None by {
                    assert(col[j] is None);
                }
                if rows > 0 {
                    assert(rest[rows - 1] == col[rows - 1]);
                }
            }
        } else {
            if 0 <= rows < col.len() && (forall|j: int|
                rows <= j < col.len() ==> (#[trigger] col[j]) is None) {
                assert(col[col.len() - 1] is None);
            }
        }
    }
}

/// A column is packed exactly when its lowest gap lies above all its tiles.
pub proof fn lemma_packed_iff_gap_at_top(col: Seq<Option<u64>>)
    ensures
        packed(col) == (first_gap(col) >= top(col)),
{
    lemma_first_gap(col);
    lemma_top(col, 0);
    let gap = first_gap(col);
    let t = top(col);
    if gap >= t {
        assert forall|i: int, j: int| 0 <= i < j < col.len() && col[i] is None implies col[j] is None by {
            assert(i >= gap);
        }
    }
    if packed(col) && gap < t {
        assert(col[gap] is None);
        assert(col[t - 1] is Some);
    }
}

/// A pass over a column that is not packed lowers its highest tile by
/// exactly one row.
pub proof fn lemma_pass_lowers_top(col: Seq<Option<u64>>)
    requires
        !packed(col),
    ensures
        top(settle_once(col)) == top(col) - 1,
{
    lemma_first_gap(col);
    lemma_top(col, 0);
    lemma_packed_iff_gap_at_top(col);
    let gap = first_gap(col);
    let t = top(col);
    let after = settle_once(col);
    assert(col[gap] is None);
    assert(col[t - 1] is Some);
    assert(gap < t - 1);
    assert(after[t - 2] == col[t - 1]);
    assert forall|j: int| t - 1 <= j < after.len() implies (#[trigger] after[j]) is None by {
        if j + 1 < col.len() {
            assert(col[j + 1] is None);
        }
    }
    lemma_top(after, t - 1);
}

/// After `passes` passes a column is packed, or its highest tile has come
/// down by `passes` rows.
pub proof fn lemma_settle_times_progress(col: Seq<Option<u64>>, passes: nat)
    ensures
        packed(settle_times(col, passes)) || top(settle_times(col, passes)) + passes == top(col),
    decreases passes,
{
    if passes > 0 {
        let before = settle_times(col, (passes - 1) as nat);
        lemma_settle_times_progress(col, (passes - 1) as nat);
        if packed(before) {
            lemma_unmoved_iff_packed(before);
        } else {
            lemma_pass_lowers_top(before);
        }
    }
}

/// As many passes as the column has rows always settle it: the tiles end
/// up in the lowest rows in their order, and a further pass moves nothing.
pub proof fn lemma_settles_within_height(col: Seq<Option<u64>>)
    ensures
        settle_times(col, col.len()) == stacked(tiles_of(col), col.len()),
        settle_once(settle_times(col, col.len())) == settle_times(col, col.len()),
{
    let end = settle_times(col, col.len());
    lemma_settle_times_progress(col, col.len());
    lemma_settle_times_keeps_tiles(col, col.len());
    lemma_top(col, 0);
    lemma_top(end, 0);
    lemma_first_gap(end);
    lemma_packed_iff_gap_at_top(end);
    lemma_unmoved_iff_packed(end);
    lemma_settling_stacks(col, col.len());
}

} // verus!
