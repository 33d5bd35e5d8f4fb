use vstd::prelude::*;
use vstd::utf8::encode_utf8;

verus! {

/// The clusters that extended grapheme segmentation (UAX #29) yields for a text.
pub uninterp spec fn clusters_of(s: Seq<char>) -> Seq<Seq<char>>;

/// The text obtained by joining pieces in order.
pub open spec fn joined(parts: Seq<Seq<char>>) -> Seq<char>
    decreases parts.len(),
{
    if parts.len() == 0 {
        Seq::empty()
    } else {
        joined(parts.drop_last()) + parts.last()
    }
}

/// Non-empty pieces join to the empty text only when there are none.
pub proof fn lemma_joined_empty(parts: Seq<Seq<char>>)
    requires
        forall|i: int| 0 <= i < parts.len() ==> (#[trigger] parts[i]).len() > 0,
    ensures
        joined(parts).len() == 0 <==> parts.len() == 0,
{
    if parts.len() > 0 {
        assert(parts.last().len() > 0);
        assert(joined(parts).len() == joined(parts.drop_last()).len() + parts.last().len());
    }
}

/// A cluster that ends a line: `"\n"` or `"\r\n"`.
pub open spec fn is_newline_text(g: Seq<char>) -> bool {
    g == seq!['\n'] || g == seq!['\r', '\n']
}

/// The indices of the newline clusters, in increasing order.
pub open spec fn newlines_of(gs: Seq<Seq<char>>) -> Seq<int>
    decreases gs.len(),
{
    if gs.len() == 0 {
        Seq::empty()
    } else {
        let p = newlines_of(gs.drop_last());
        if is_newline_text(gs.last()) {
            p.push(gs.len() - 1)
        } else {
            p
        }
    }
}

/// Where line `row` starts, given the newline indices `nl`.
pub open spec fn line_start(nl: Seq<int>, row: int) -> int {
    if row == 0 {
        0
    } else {
        nl[row - 1] + 1
    }
}

/// Where line `row` ends (exclusive), given the newline indices `nl` of `len` clusters.
pub open spec fn line_end(nl: Seq<int>, len: int, row: int) -> int {
    if row < nl.len() {
        nl[row] + 1
    } else {
        len
    }
}

/// The lines: each runs up to and including a newline cluster, and the last one
/// holds what follows the last newline (possibly nothing).
pub open spec fn lines_of(gs: Seq<Seq<char>>) -> Seq<Seq<Seq<char>>> {
    let nl = newlines_of(gs);
    Seq::new(
        nl.len() + 1,
        |row: int| gs.subrange(line_start(nl, row), line_end(nl, gs.len() as int, row)),
    )
}

/// The largest column index of each line: its length minus one, or zero for an empty line.
pub open spec fn shape_of(gs: Seq<Seq<char>>) -> Seq<int> {
    lines_of(gs).map_values(
        |line: Seq<Seq<char>>|
            if line.len() == 0 {
                0
            } else {
                line.len() - 1
            },
    )
}

/// The (row, column) of position `p`: the row counts the newlines before `p`,
/// the column counts the clusters since the last of them.
pub open spec fn coordinates_of(gs: Seq<Seq<char>>, p: int) -> (int, int) {
    let nl = newlines_of(gs.take(p));
    let k = nl.len() as int;
    (k, if k == 0 { p } else { p - nl[k - 1] - 1 })
}

/// The position at (row, column), if these coordinates are valid.
pub open spec fn position_of(gs: Seq<Seq<char>>, row: int, col: int) -> Option<int> {
    if gs.len() == 0 {
        if row == 0 && col == 0 {
            Some(0)
        } else {
            None
        }
    } else if row == 0 && col == 0 {
        Some(0)
    } else {
        let nl = newlines_of(gs);
        let last_row = nl.len() as int;
        if row <= last_row {
            let width = lines_of(gs)[row].len() as int;
            if row == last_row && col == width {
                Some(gs.len() as int)
            } else if col < width {
                Some(line_start(nl, row) + col)
            } else {
                None
            }
        } else {
            None
        }
    }
}

/// Whether `pat` occurs in `gs` starting at index `i`.
pub open spec fn matches_at(gs: Seq<Seq<char>>, pat: Seq<Seq<char>>, i: int) -> bool {
    0 <= i && i + pat.len() <= gs.len() && gs.subrange(i, i + pat.len()) == pat
}

/// Scans the windows at `i`, `i + 1`, ... and gives the first where `pat` occurs.
pub open spec fn first_match_from(gs: Seq<Seq<char>>, pat: Seq<Seq<char>>, i: int) -> Option<int>
    decreases gs.len() + 1 - i,
{
    if i < 0 || i + pat.len() > gs.len() {
        None
    } else if matches_at(gs, pat, i) {
        Some(i)
    } else {
        first_match_from(gs, pat, i + 1)
    }
}

/// Scans the windows at `i`, `i - 1`, ..., `0` and gives the first where `pat` occurs.
pub open spec fn last_match_upto(gs: Seq<Seq<char>>, pat: Seq<Seq<char>>, i: int) -> Option<int>
    decreases i + 1,
{
    if i < 0 {
        None
    } else if matches_at(gs, pat, i) {
        Some(i)
    } else {
        last_match_upto(gs, pat, i - 1)
    }
}

/// An optional index as a mathematical integer.
pub open spec fn int_opt(o: Option<usize>) -> Option<int> {
    match o {
        Some(i) => Some(i as int),
        None => None,
    }
}

/// A sequence of indices as mathematical integers.
pub open spec fn ints(v: Seq<usize>) -> Seq<int> {
    v.map_values(|x: usize| x as int)
}

/// Newline indices are increasing and name newline clusters.
pub proof fn lemma_newline_indices(gs: Seq<Seq<char>>)
    ensures
        forall|j: int|
            0 <= j < newlines_of(gs).len() ==> 0 <= #[trigger] newlines_of(gs)[j]
                < gs.len() && is_newline_text(gs[newlines_of(gs)[j]]),
        forall|i: int, j: int|
            0 <= i < j < newlines_of(gs).len() ==> newlines_of(gs)[i]
                < newlines_of(gs)[j],
    decreases gs.len(),
{
    if gs.len() > 0 {
        lemma_newline_indices(gs.drop_last());
        let p = newlines_of(gs.drop_last());
        assert forall|j: int| 0 <= j < p.len() implies #[trigger] p[j] < gs.len() - 1 by {
            assert(0 <= p[j] < gs.drop_last().len());
        }
        assert forall|j: int| 0 <= j < p.len() implies gs[p[j]] == gs.drop_last()[p[j]] by {}
    }
}

/// The newlines of a prefix are the first newlines of the whole; the rest lie at or after its end.
pub proof fn lemma_newline_prefix(gs: Seq<Seq<char>>, p: int)
    requires
        0 <= p <= gs.len(),
    ensures
        newlines_of(gs.take(p)) == newlines_of(gs).take(
            newlines_of(gs.take(p)).len() as int,
        ),
        newlines_of(gs.take(p)).len() <= newlines_of(gs).len(),
        forall|j: int|
            newlines_of(gs.take(p)).len() <= j < newlines_of(gs).len()
                ==> #[trigger] newlines_of(gs)[j] >= p,
    decreases gs.len(),
{
    if p == gs.len() {
        assert(gs.take(p) =~= gs);
        assert(newlines_of(gs).take(newlines_of(gs).len() as int) =~= newlines_of(gs));
    } else {
        let g2 = gs.drop_last();
        assert(gs.take(p) =~= g2.take(p));
        lemma_newline_prefix(g2, p);
        let k = newlines_of(gs.take(p)).len() as int;
        assert(newlines_of(gs).take(k) =~= newlines_of(g2).take(k));
    }
}

/// Each line lies within the text and runs from its start up to its newline.
pub proof fn lemma_line_bounds(gs: Seq<Seq<char>>)
    ensures
        forall|row: int|
            0 <= row <= newlines_of(gs).len() ==> 0 <= #[trigger] line_start(
                newlines_of(gs),
                row,
            ) <= line_end(newlines_of(gs), gs.len() as int, row) <= gs.len(),
        forall|row: int|
            0 <= row < newlines_of(gs).len() ==> #[trigger] line_start(
                newlines_of(gs),
                row,
            ) <= newlines_of(gs)[row],
{
    lemma_newline_indices(gs);
    let nl = newlines_of(gs);
    assert forall|row: int| 0 <= row < nl.len() implies #[trigger] line_start(nl, row)
        <= nl[row] by {
        if row > 0 {
            assert(nl[row - 1] < nl[row]);
        }
    }
    assert forall|row: int| 0 <= row <= nl.len() implies 0 <= #[trigger] line_start(nl, row)
        <= line_end(nl, gs.len() as int, row) <= gs.len() by {
        if row > 0 {
            assert(nl[row - 1] < gs.len());
        }
        if row < nl.len() {
            assert(nl[row] < gs.len());
        }
    }
}

/// Encoding a joined text encodes each part in turn.
pub proof fn lemma_encode_concat(a: Seq<char>, b: Seq<char>)
    ensures
        encode_utf8(a + b) == encode_utf8(a) + encode_utf8(b),
    decreases a.len(),
{
    if a.len() > 0 {
        lemma_encode_concat(a.drop_first(), b);
        assert((a + b).drop_first() =~= a.drop_first() + b);
        assert((a + b)[0] == a[0]);
    } else {
        assert(a + b =~= b);
    }
}

} // verus!
