use crate::model::{
    coordinates_of, first_match_from, last_match_upto, lemma_line_bounds, lemma_newline_indices,
    lemma_newline_prefix, line_start, matches_at, newlines_of, position_of, shape_of,
};
use vstd::prelude::*;

verus! {

/// Every position from the start up to and including the end has coordinates,
/// and those coordinates lead back to the same position.
pub proof fn position_of_coordinates(gs: Seq<Seq<char>>, p: int)
    requires
        0 <= p <= gs.len(),
    ensures
        position_of(gs, coordinates_of(gs, p).0, coordinates_of(gs, p).1) == Some(p),
{
    lemma_newline_prefix(gs, p);
    lemma_newline_indices(gs);
    lemma_newline_indices(gs.take(p));
    lemma_line_bounds(gs);
    let nl = newlines_of(gs);
    let np = newlines_of(gs.take(p));
    let k = np.len() as int;
    if k > 0 {
        assert(np[k - 1] == nl[k - 1]);
        assert(np[k - 1] < p);
    }
    if k < nl.len() {
        assert(nl[k] >= p);
    }
    assert(coordinates_of(gs, p).1 == p - line_start(nl, k));
}

/// Coordinates that name a position are exactly the coordinates of that position.
pub proof fn coordinates_of_position(gs: Seq<Seq<char>>, row: int, col: int)
    requires
        0 <= row,
        0 <= col,
        position_of(gs, row, col) is Some,
    ensures
        coordinates_of(gs, position_of(gs, row, col)->0) == (row, col),
{
    let p = position_of(gs, row, col)->0;
    lemma_line_bounds(gs);
    lemma_newline_indices(gs);
    let nl = newlines_of(gs);
    assert(0 <= p <= gs.len());
    lemma_newline_prefix(gs, p);
    lemma_newline_indices(gs.take(p));
    let np = newlines_of(gs.take(p));
    let k = np.len() as int;
    if p == 0 {
        assert(gs.take(0) =~= Seq::<Seq<char>>::empty());
        assert(k == 0);
    } else {
        assert(row <= nl.len());
        assert(p >= line_start(nl, row));
        if k < row {
            assert(nl[k] >= p);
            assert(nl[k] <= nl[row - 1]);
        }
        if k > row {
            assert(np[row] == nl[row]);
            assert(np[row] < p);
        }
        assert(k == row);
    }
}

/// There is one line more than there are newline clusters.
pub proof fn shape_counts_lines(gs: Seq<Seq<char>>)
    ensures
        shape_of(gs).len() == 1 + newlines_of(gs).len(),
{
}

/// The forward scan from `i` finds the least index at or after `i` where the
/// pattern occurs, and finds nothing only when it occurs nowhere from `i` on.
pub proof fn forward_scan_finds_first(gs: Seq<Seq<char>>, pat: Seq<Seq<char>>, i: int)
    requires
        0 <= i,
    ensures
        match first_match_from(gs, pat, i) {
            Some(j) => i <= j && matches_at(gs, pat, j) && forall|k: int|
                i <= k < j ==> !#[trigger] matches_at(gs, pat, k),
            None => forall|k: int| i <= k ==> !#[trigger] matches_at(gs, pat, k),
        },
    decreases gs.len() + 1 - i,
{
    if i + pat.len() > gs.len() {
    } else if matches_at(gs, pat, i) {
    } else {
        forward_scan_finds_first(gs, pat, i + 1);
    }
}

/// The backward scan from `i` finds the greatest index at or before `i` where the
/// pattern occurs, and finds nothing only when it occurs nowhere up to `i`.
pub proof fn backward_scan_finds_last(gs: Seq<Seq<char>>, pat: Seq<Seq<char>>, i: int)
    ensures
        match last_match_upto(gs, pat, i) {
            Some(j) => 0 <= j <= i && matches_at(gs, pat, j) && forall|k: int|
                j < k <= i ==> !#[trigger] matches_at(gs, pat, k),
            None => forall|k: int| k <= i ==> !#[trigger] matches_at(gs, pat, k),
        },
    decreases i + 1,
{
    if i >= 0 && !matches_at(gs, pat, i) {
        backward_scan_finds_last(gs, pat, i - 1);
    }
}

} // verus!
