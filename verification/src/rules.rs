//! The match rule: which sets of marked tiles count as a match.

use crate::tiles::{Color, Shape, TileBundle};
use vstd::prelude::*;

verus! {

/// Every value of the sequence is the same.
pub open spec fn all_same(values: Seq<u8>) -> bool {
    forall|i: int, j: int| 0 <= i < values.len() && 0 <= j < values.len() ==> values[i] == values[j]
}

/// No value occurs twice in the sequence.
pub open spec fn all_distinct(values: Seq<u8>) -> bool {
    forall|i: int, j: int| 0 <= i < j < values.len() ==> values[i] != values[j]
}

/// The rule for one attribute: the values are all the same or all different.
pub open spec fn values_match(values: Seq<u8>) -> bool {
    all_same(values) || all_distinct(values)
}

/// The colours of the tiles, each as its rank.
pub open spec fn color_ranks(tiles: Seq<TileBundle>) -> Seq<u8> {
    Seq::new(tiles.len(), |i: int| tiles[i].color.rank() as u8)
}

/// The shapes of the tiles, each as its rank.
pub open spec fn shape_ranks(tiles: Seq<TileBundle>) -> Seq<u8> {
    Seq::new(tiles.len(), |i: int| tiles[i].shape.rank() as u8)
}

/// The tiles form a match: the rule holds of their colours and, on its own,
/// of their shapes.
pub open spec fn is_match(tiles: Seq<TileBundle>) -> bool {
    values_match(color_ranks(tiles)) && values_match(shape_ranks(tiles))
}

/// Tells whether all the values are the same.
pub fn check_all_same(values: &Vec<u8>) -> (same: bool)
    ensures
        same == all_same(values@),
{
    let n = values.len();
    let mut i: usize = 1;
    while i < n
        invariant
            n == values.len(),
            1 <= i,
            forall|k: int| 0 <= k < i && k < n ==> #[trigger] values@[k] == values@[0],
        decreases n - i,
    {
        if values[i] != values[0] {
            return false;
        }
        i += 1;
    }
    true
}

/// Tells whether no value occurs twice.
pub fn check_all_distinct(values: &Vec<u8>) -> (distinct: bool)
    ensures
        distinct == all_distinct(values@),
{
    let n = values.len();
    let mut j: usize = 0;
    while j < n
        invariant
            n == values.len(),
            j <= n,
            forall|a: int, b: int| 0 <= a < b < j ==> values@[a] != values@[b],
        decreases n - j,
    {
        let mut i: usize = 0;
        while i < j
            invariant
                n == values.len(),
                i <= j < n,
                forall|a: int| 0 <= a < i ==> #[trigger] values@[a] != values@[j as int],
            decreases j - i,
        {
            if values[i] == values[j] {
                return false;
            }
            i += 1;
        }
        j += 1;
    }
    true
}

/// Applies the rule for one attribute to its values.
pub fn check_values(values: &Vec<u8>) -> (ok: bool)
    ensures
        ok == values_match(values@),
{
    check_all_same(values) || check_all_distinct(values)
}

/// Decides whether the marked tiles form a match.
pub fn check_match(tiles: &Vec<TileBundle>) -> (matched: bool)
    ensures
        matched == is_match(tiles@),
{
    let mut colors: Vec<u8> = Vec::new();
    let mut shapes: Vec<u8> = Vec::new();
    let mut i: usize = 0;
    while i < tiles.len()
        invariant
            i <= tiles.len(),
            colors@ == color_ranks(tiles@.take(i as int)),
            shapes@ == shape_ranks(tiles@.take(i as int)),
        decreases tiles.len() - i,
    {
        colors.push(tiles[i].color.index());
        shapes.push(tiles[i].shape.index());
        i += 1;
    }
    assert(tiles@.take(i as int) == tiles@);
    let color_match = check_values(&colors);
    let shape_match = check_values(&shapes);
    shape_match && color_match
}

/// Two colours are the same exactly when their ranks are.
pub proof fn lemma_color_rank_injective(a: Color, b: Color)
    ensures
        (a.rank() == b.rank()) == (a == b),
{
}

/// Two shapes are the same exactly when their ranks are.
pub proof fn lemma_shape_rank_injective(a: Shape, b: Shape)
    ensures
        (a.rank() == b.rank()) == (a == b),
{
}

/// Three tiles form a match exactly when their colours are all equal or all
/// different, and their shapes are all equal or all different.
pub proof fn lemma_match_of_three(a: TileBundle, b: TileBundle, c: TileBundle)
    ensures
        is_match(seq![a, b, c]) == ({
            &&& ((a.color == b.color && b.color == c.color) || (a.color != b.color && b.color
                != c.color && a.color != c.color))
            &&& ((a.shape == b.shape && b.shape == c.shape) || (a.shape != b.shape && b.shape
                != c.shape && a.shape != c.shape))
        }),
{
    let tiles = seq![a, b, c];
    let cs = color_ranks(tiles);
    let ss = shape_ranks(tiles);
    lemma_color_rank_injective(a.color, b.color);
    lemma_color_rank_injective(b.color, c.color);
    lemma_color_rank_injective(a.color, c.color);
    lemma_shape_rank_injective(a.shape, b.shape);
    lemma_shape_rank_injective(b.shape, c.shape);
    lemma_shape_rank_injective(a.shape, c.shape);
    assert(cs.len() == 3 && ss.len() == 3);
    assert(cs[0] == a.color.rank() && cs[1] == b.color.rank() && cs[2] == c.color.rank());
    assert(ss[0] == a.shape.rank() && ss[1] == b.shape.rank() && ss[2] == c.shape.rank());
    lemma_values_of_three(cs);
    lemma_values_of_three(ss);
}

/// For three values the rule reads: all three equal, or pairwise different.
pub proof fn lemma_values_of_three(values: Seq<u8>)
    requires
        values.len() == 3,
    ensures
        all_same(values) == (values[0] == values[1] && values[1] == values[2]),
        all_distinct(values) == (values[0] != values[1] && values[1] != values[2] && values[0]
            != values[2]),
{
    if values[0] == values[1] && values[1] == values[2] {
        assert(all_same(values));
    }
    if values[0] != values[1] && values[1] != values[2] && values[0] != values[2] {
        assert(all_distinct(values));
    }
    if all_distinct(values) {
        assert(values[0] != values[1]);
        assert(values[1] != values[2]);
        assert(values[0] != values[2]);
    }
    if all_same(values) {
        assert(values[0] == values[1]);
        assert(values[1] == values[2]);
    }
}

} // verus!
