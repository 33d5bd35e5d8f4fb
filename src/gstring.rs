use crate::grapheme::{graphemes, texts, Grapheme, IsNewline};
use crate::range::GraphemeRange;
use crate::model::{
    clusters_of, coordinates_of, first_match_from, int_opt, ints, joined, last_match_upto,
    lemma_encode_concat, lemma_line_bounds, lemma_newline_indices, line_end, line_start, lines_of,
    matches_at, newlines_of, position_of, shape_of,
};
use std::ops::Range;
use vstd::prelude::*;
use vstd::string::StringExecFns;
use vstd::utf8::encode_utf8;

verus! {

/// The indices of the newline clusters among the first `end`.
fn newline_indices(data: &Vec<Grapheme>, end: usize) -> (r: Vec<usize>)
    requires
        end <= data@.len(),
    ensures
        ints(r@) == newlines_of(texts(data@).take(end as int)),
{
    let ghost gs = texts(data@);
    let mut r: Vec<usize> = Vec::new();
    let mut i: usize = 0;
    while i < end
        invariant
            i <= end <= data@.len(),
            gs == texts(data@),
            ints(r@) == newlines_of(gs.take(i as int)),
        decreases end - i,
    {
        assert(gs.take(i + 1).drop_last() =~= gs.take(i as int));
        assert(gs.take(i + 1).last() == data@[i as int]@);
        if data[i].is_newline() {
            r.push(i);
        }
        assert(ints(r@) =~= newlines_of(gs.take(i + 1)));
        i = i + 1;
    }
    r
}

/// The shape of a sequence of clusters.
fn calc_shape(data: &Vec<Grapheme>) -> (r: Vec<usize>)
    ensures
        ints(r@) == shape_of(texts(data@)),
{
    let ghost gs = texts(data@);
    let mut shape: Vec<usize> = Vec::new();
    let mut width: usize = 0;
    let mut i: usize = 0;
    while i < data.len()
        invariant
            i <= data@.len(),
            gs == texts(data@),
            shape@.len() == newlines_of(gs.take(i as int)).len(),
            forall|row: int|
                0 <= row < shape@.len() ==> #[trigger] shape@[row] == newlines_of(
                    gs.take(i as int),
                )[row] - line_start(newlines_of(gs.take(i as int)), row),
            width == i - line_start(newlines_of(gs.take(i as int)), shape@.len() as int),
        decreases data@.len() - i,
    {
        let ghost nl = newlines_of(gs.take(i as int));
        assert(gs.take(i + 1).drop_last() =~= gs.take(i as int));
        assert(gs.take(i + 1).last() == data@[i as int]@);
        proof {
            lemma_newline_indices(gs.take(i as int));
        }
        if data[i].is_newline() {
            shape.push(width);
            width = 0;
            let ghost nl2 = newlines_of(gs.take(i + 1));
            assert(nl2 == nl.push(i as int));
            assert forall|row: int| 0 <= row < shape@.len() implies #[trigger] shape@[row]
                == nl2[row] - line_start(nl2, row) by {
                if row > 0 {
                    assert(line_start(nl2, row) == line_start(nl, row));
                }
            }
        } else {
            width = width + 1;
        }
        i = i + 1;
    }
    let last: usize = if width == 0 { 0 } else { width - 1 };
    shape.push(last);
    proof {
        assert(gs.take(i as int) =~= gs);
        lemma_line_bounds(gs);
        let nl = newlines_of(gs);
        let s = shape_of(gs);
        assert forall|row: int| 0 <= row < s.len() implies #[trigger] s[row]
            == ints(shape@)[row] by {
            let line = lines_of(gs)[row];
            assert(line.len() == line_end(nl, gs.len() as int, row) - line_start(nl, row));
        }
        assert(ints(shape@) =~= s);
    }
    shape
}

/// Whether `pat` occurs in `data` at index `i`.
fn matches_here(data: &Vec<Grapheme>, pat: &Vec<Grapheme>, i: usize) -> (r: bool)
    requires
        i + pat@.len() <= data@.len(),
    ensures
        r == matches_at(texts(data@), texts(pat@), i as int),
{
    let ghost (gs, ps) = (texts(data@), texts(pat@));
    let dlen = data.len();
    let mut j: usize = 0;
    while j < pat.len()
        invariant
            i + pat@.len() <= data@.len() == dlen,
            gs == texts(data@),
            ps == texts(pat@),
            j <= pat@.len(),
            forall|k: int| 0 <= k < j ==> gs[i + k] == ps[k],
        decreases pat@.len() - j,
    {
        if data[i + j] != pat[j] {
            assert(gs.subrange(i as int, i + ps.len())[j as int] != ps[j as int]);
            return false;
        }
        j = j + 1;
    }
    assert(gs.subrange(i as int, i + ps.len()) =~= ps);
    true
}

/// A text stored as its sequence of extended grapheme clusters.
#[derive(Debug)]
pub struct GString {
    data: Vec<Grapheme>,
    shape: Vec<usize>,
}

impl View for GString {
    type V = Seq<Seq<char>>;

    closed spec fn view(&self) -> Seq<Seq<char>> {
        texts(self.data@)
    }
}

impl GString {
    /// The stored shape always matches the clusters.
    #[verifier::type_invariant]
    spec fn shape_matches(&self) -> bool {
        ints(self.shape@) == shape_of(texts(self.data@))
    }

    /// Builds a container over the given clusters.
    fn from_graphemes(data: Vec<Grapheme>) -> (r: GString)
        ensures
            r@ == texts(data@),
    {
        let shape = calc_shape(&data);
        GString { data, shape }
    }

    /// Moves the clusters out, leaving the container empty.
    fn take_graphemes(&mut self) -> (r: Vec<Grapheme>)
        ensures
            texts(r@) == old(self)@,
    {
        let mut taken = GString::new();
        std::mem::swap(self, &mut taken);
        taken.data
    }

    /// The empty text.
    pub fn new() -> (r: GString)
        ensures
            r@ == Seq::<Seq<char>>::empty(),
    {
        let r = GString::from_graphemes(Vec::new());
        assert(r@ =~= Seq::<Seq<char>>::empty());
        r
    }

    /// Segments `s` into its clusters; joining them gives back `s`.
    pub fn from(s: &str) -> (r: GString)
        ensures
            r@ == clusters_of(s@),
            r@.len() == clusters_of(s@).len(),
            joined(r@) == s@,
            forall|i: int| 0 <= i < r@.len() ==> (#[trigger] r@[i]).len() > 0,
            r@.len() == 0 <==> s@.len() == 0,
            s@.len() == 0 ==> r@ == Seq::<Seq<char>>::empty(),
    {
        let g = graphemes(s);
        assert forall|i: int| 0 <= i < texts(g@).len() implies (#[trigger] texts(g@)[i]).len()
            > 0 by {
            assert(texts(g@)[i] == g@[i]@);
        }
        let r = GString::from_graphemes(g);
        assert(s@.len() == 0 ==> r@ =~= Seq::<Seq<char>>::empty());
        r
    }

    /// The clusters, in order.
    pub fn graphemes(&self) -> (r: &[Grapheme])
        ensures
            texts(r@) == self@,
    {
        self.data.as_slice()
    }

    /// Gives up the container for its clusters.
    pub fn into_graphemes(self) -> (r: Vec<Grapheme>)
        ensures
            texts(r@) == self@,
    {
        self.data
    }

    /// The cluster at `index`, if there is one.
    pub fn get(&self, index: usize) -> (r: Option<&Grapheme>)
        ensures
            r is Some <==> index < self@.len(),
            r matches Some(g) ==> g@ == self@[index as int],
    {
        if index < self.data.len() {
            Some(&self.data[index])
        } else {
            None
        }
    }

    /// The number of clusters.
    pub fn len(&self) -> (r: usize)
        ensures
            r == self@.len(),
    {
        self.data.len()
    }

    /// Whether there are no clusters.
    pub fn is_empty(&self) -> (r: bool)
        ensures
            r == (self@.len() == 0),
    {
        self.data.len() == 0
    }

    /// The indices of all newline clusters.
    pub fn newlines(&self) -> (r: Vec<usize>)
        ensures
            ints(r@) == newlines_of(self@),
    {
        let r = newline_indices(&self.data, self.data.len());
        assert(self@.take(self@.len() as int) =~= self@);
        r
    }

    /// The largest column index of each line; one entry more than there are newlines.
    pub fn shape(&self) -> (r: &[usize])
        ensures
            ints(r@) == shape_of(self@),
            r@.len() == 1 + newlines_of(self@).len(),
    {
        proof {
            use_type_invariant(self);
            assert(ints(self.shape@).len() == self.shape@.len());
        }
        self.shape.as_slice()
    }

    /// The (row, column) of `position`; none past the end.
    pub fn coordinates(&self, position: usize) -> (r: Option<(usize, usize)>)
        ensures
            r is Some <==> position <= self@.len(),
            r matches Some(c) ==> (c.0 as int, c.1 as int) == coordinates_of(
                self@,
                position as int,
            ),
    {
        if position <= self.data.len() {
            let n = newline_indices(&self.data, position);
            proof {
                lemma_newline_indices(self@.take(position as int));
            }
            let row = n.len();
            let column = if row == 0 {
                position
            } else {
                assert(ints(n@)[row - 1] == n@[row - 1] as int);
                position - n[row - 1] - 1
            };
            Some((row, column))
        } else {
            None
        }
    }

    /// The position at `(row, column)`, if these coordinates are valid. On the last
    /// line the column may equal the line's length, which names the end of the text.
    pub fn position(&self, coordinates: (usize, usize)) -> (r: Option<usize>)
        ensures
            int_opt(r) == position_of(self@, coordinates.0 as int, coordinates.1 as int),
    {
        let (row, column) = coordinates;
        if self.data.len() == 0 {
            if row == 0 && column == 0 {
                Some(0)
            } else {
                None
            }
        } else if row == 0 && column == 0 {
            Some(0)
        } else {
            let newlines = self.newlines();
            let ghost nl = newlines_of(self@);
            proof {
                lemma_line_bounds(self@);
                lemma_newline_indices(self@);
            }
            let last_row = newlines.len();
            if row <= last_row {
                let start: usize = if row == 0 {
                    0
                } else {
                    assert(ints(newlines@)[row - 1] == newlines@[row - 1] as int);
                    newlines[row - 1] + 1
                };
                let end: usize = if row < last_row {
                    assert(ints(newlines@)[row as int] == newlines@[row as int] as int);
                    newlines[row] + 1
                } else {
                    self.data.len()
                };
                assert(start == line_start(nl, row as int));
                assert(end == line_end(nl, self@.len() as int, row as int));
                assert(lines_of(self@)[row as int].len() == end - start);
                let width = end - start;
                if row == last_row && column == width {
                    Some(self.data.len())
                } else if column < width {
                    Some(start + column)
                } else {
                    None
                }
            } else {
                None
            }
        }
    }

    /// Replaces the clusters in `range` (`a..b`, `a..`, `..b` or `..`) with the
    /// clusters of `replace_with` and returns the replaced ones.
    pub fn splice<R: GraphemeRange>(&mut self, range: R, replace_with: &str) -> (r: GString)
        requires
            0 <= range.start_in(old(self)@.len() as int) <= range.end_in(old(self)@.len() as int)
                <= old(self)@.len(),
        ensures
            r@ == old(self)@.subrange(
                range.start_in(old(self)@.len() as int),
                range.end_in(old(self)@.len() as int),
            ),
            final(self)@ == old(self)@.take(range.start_in(old(self)@.len() as int)) + clusters_of(
                replace_with@,
            ) + old(self)@.skip(range.end_in(old(self)@.len() as int)),
    {
        let (start, end) = range.bounds(self.len());
        let mut data = self.take_graphemes();
        let mut tail = data.split_off(end);
        let removed = data.split_off(start);
        let mut inserted = graphemes(replace_with);
        let ghost (d, i, t) = (data@, inserted@, tail@);
        data.append(&mut inserted);
        data.append(&mut tail);
        proof {
            assert(texts(data@) =~= texts(d) + texts(i) + texts(t));
        }
        *self = GString::from_graphemes(data);
        GString::from_graphemes(removed)
    }

    /// Inserts the clusters of `string` before the cluster at `index`.
    pub fn insert(&mut self, index: usize, string: &str)
        requires
            index <= old(self)@.len(),
        ensures
            final(self)@ == old(self)@.take(index as int) + clusters_of(string@) + old(self)@.skip(
                index as int,
            ),
    {
        let _ = self.splice(index..index, string);
    }

    /// Removes and returns the cluster at `index`.
    pub fn remove(&mut self, index: usize) -> (r: Grapheme)
        requires
            index < old(self)@.len(),
        ensures
            r@ == old(self)@[index as int],
            final(self)@ == old(self)@.remove(index as int),
    {
        let mut data = self.take_graphemes();
        let ghost d = data@;
        let r = data.remove(index);
        proof {
            assert(texts(data@) =~= texts(d).remove(index as int));
        }
        *self = GString::from_graphemes(data);
        r
    }

    /// Appends the clusters of `string`.
    pub fn push(&mut self, string: &str)
        ensures
            final(self)@ == old(self)@ + clusters_of(string@),
    {
        let mut data = self.take_graphemes();
        let mut more = graphemes(string);
        let ghost (d, m) = (data@, more@);
        data.append(&mut more);
        proof {
            assert(texts(data@) =~= texts(d) + texts(m));
        }
        *self = GString::from_graphemes(data);
    }

    /// Removes and returns the last cluster, if there is one.
    pub fn pop(&mut self) -> (r: Option<Grapheme>)
        ensures
            old(self)@.len() == 0 ==> r is None && final(self)@ == old(self)@,
            old(self)@.len() > 0 ==> (r matches Some(g) && g@ == old(self)@.last()
                && final(self)@ == old(self)@.drop_last()),
    {
        let mut data = self.take_graphemes();
        let ghost d = data@;
        let r = data.pop();
        proof {
            if d.len() > 0 {
                assert(texts(data@) =~= texts(d).drop_last());
            }
        }
        *self = GString::from_graphemes(data);
        r
    }

    /// Removes and returns the clusters in `range` (`a..b`, `a..`, `..b` or `..`).
    pub fn drain<R: GraphemeRange>(&mut self, range: R) -> (r: GString)
        requires
            0 <= range.start_in(old(self)@.len() as int) <= range.end_in(old(self)@.len() as int)
                <= old(self)@.len(),
        ensures
            r@ == old(self)@.subrange(
                range.start_in(old(self)@.len() as int),
                range.end_in(old(self)@.len() as int),
            ),
            final(self)@ == old(self)@.take(range.start_in(old(self)@.len() as int)) + old(
                self,
            )@.skip(range.end_in(old(self)@.len() as int)),
    {
        let (start, end) = range.bounds(self.len());
        let mut data = self.take_graphemes();
        let mut tail = data.split_off(end);
        let removed = data.split_off(start);
        let ghost (d, t) = (data@, tail@);
        data.append(&mut tail);
        proof {
            assert(texts(data@) =~= texts(d) + texts(t));
        }
        *self = GString::from_graphemes(data);
        GString::from_graphemes(removed)
    }

    /// A new container holding a copy of the clusters in `range`.
    pub fn slice(&self, range: Range<usize>) -> (r: GString)
        requires
            range.start <= range.end <= self@.len(),
        ensures
            r@ == self@.subrange(range.start as int, range.end as int),
    {
        let mut data: Vec<Grapheme> = Vec::new();
        let mut i: usize = range.start;
        while i < range.end
            invariant
                range.start <= i <= range.end <= self@.len(),
                texts(data@) == self@.subrange(range.start as int, i as int),
            decreases range.end - i,
        {
            let g = self.data[i].clone();
            let ghost d = data@;
            data.push(g);
            proof {
                assert(texts(data@) =~= texts(d).push(g@));
                assert(self@.subrange(range.start as int, i + 1) =~= self@.subrange(
                    range.start as int,
                    i as int,
                ).push(self@[i as int]));
            }
            i = i + 1;
        }
        GString::from_graphemes(data)
    }

    /// The first index at or after `n` where the clusters of `pattern` occur.
    /// The pattern must not be empty.
    pub fn find_from(&self, n: usize, pattern: &GString) -> (r: Option<usize>)
        requires
            n <= self@.len(),
            pattern@.len() > 0,
        ensures
            int_opt(r) == first_match_from(self@, pattern@, n as int),
    {
        let length = self.data.len();
        let plen = pattern.data.len();
        if plen > length {
            return None;
        }
        let last = length - plen;
        let mut i: usize = n;
        while i <= last
            invariant
                n <= i,
                last == length - plen,
                plen == pattern@.len() <= length == self@.len(),
                first_match_from(self@, pattern@, n as int) == first_match_from(
                    self@,
                    pattern@,
                    i as int,
                ),
            decreases last - i,
        {
            if matches_here(&self.data, &pattern.data, i) {
                return Some(i);
            }
            if i == last {
                assert(first_match_from(self@, pattern@, i + 1) == None::<int>);
                return None;
            }
            i = i + 1;
        }
        None
    }

    /// The first index where the clusters of `pattern` occur.
    /// The pattern must not be empty.
    pub fn find(&self, pattern: &GString) -> (r: Option<usize>)
        requires
            pattern@.len() > 0,
        ensures
            int_opt(r) == first_match_from(self@, pattern@, 0),
    {
        self.find_from(0, pattern)
    }

    /// The first index where the clusters of the text `pattern` occur.
    /// The pattern must not be empty.
    pub fn find_str(&self, pattern: &str) -> (r: Option<usize>)
        requires
            pattern@.len() > 0,
        ensures
            int_opt(r) == first_match_from(self@, clusters_of(pattern@), 0),
    {
        self.find(&GString::from(pattern))
    }

    /// The first index at or after `n` where the clusters of the text `pattern` occur.
    /// The pattern must not be empty.
    pub fn find_from_str(&self, n: usize, pattern: &str) -> (r: Option<usize>)
        requires
            n <= self@.len(),
            pattern@.len() > 0,
        ensures
            int_opt(r) == first_match_from(self@, clusters_of(pattern@), n as int),
    {
        self.find_from(n, &GString::from(pattern))
    }

    /// The last index where the clusters of `pattern` occur entirely before `n`.
    /// The windows are taken from `n` backwards: window `i` of the reversed prefix
    /// starts at `len - i - (len - n) - pattern.len()`. The pattern must not be empty.
    pub fn find_prev_from(&self, n: usize, pattern: &GString) -> (r: Option<usize>)
        requires
            n <= self@.len(),
            pattern@.len() > 0,
        ensures
            int_opt(r) == last_match_upto(self@, pattern@, n - pattern@.len()),
    {
        let length = self.data.len();
        let plen = pattern.data.len();
        if plen > n {
            return None;
        }
        let skip = length - n;
        let last = n - plen;
        let mut i: usize = 0;
        while i <= last
            invariant
                last == n - plen,
                plen == pattern@.len() <= n <= length == self@.len(),
                skip == length - n,
                last_match_upto(self@, pattern@, n - plen) == last_match_upto(
                    self@,
                    pattern@,
                    n - plen - i,
                ),
            decreases last - i,
        {
            let j = length - i - skip - plen;
            if matches_here(&self.data, &pattern.data, j) {
                return Some(j);
            }
            if i == last {
                assert(last_match_upto(self@, pattern@, -1) == None::<int>);
                return None;
            }
            i = i + 1;
        }
        None
    }

    /// The last index where the clusters of the text `pattern` occur entirely before `n`.
    /// The pattern must not be empty.
    pub fn find_prev_from_str(&self, n: usize, pattern: &str) -> (r: Option<usize>)
        requires
            n <= self@.len(),
            pattern@.len() > 0,
        ensures
            int_opt(r) == last_match_upto(self@, clusters_of(pattern@), n - clusters_of(
                pattern@,
            ).len()),
    {
        self.find_prev_from(n, &GString::from(pattern))
    }

    /// The lines, each with its newline cluster at its end; the last line holds
    /// what follows the last newline and may be empty.
    pub fn lines(&self) -> (r: Vec<GString>)
        ensures
            r@.len() == lines_of(self@).len(),
            forall|q: int| 0 <= q < r@.len() ==> (#[trigger] r@[q])@ == lines_of(self@)[q],
    {
        let ghost gs = self@;
        let mut r: Vec<GString> = Vec::new();
        let mut t: Vec<Grapheme> = Vec::new();
        let mut i: usize = 0;
        while i < self.data.len()
            invariant
                i <= gs.len(),
                gs == self@,
                r@.len() == newlines_of(gs.take(i as int)).len(),
                forall|q: int|
                    0 <= q < r@.len() ==> (#[trigger] r@[q])@ == gs.subrange(
                        line_start(newlines_of(gs.take(i as int)), q),
                        newlines_of(gs.take(i as int))[q] + 1,
                    ),
                0 <= line_start(newlines_of(gs.take(i as int)), r@.len() as int) <= i,
                texts(t@) == gs.subrange(
                    line_start(newlines_of(gs.take(i as int)), r@.len() as int),
                    i as int,
                ),
            decreases gs.len() - i,
        {
            let ghost nl = newlines_of(gs.take(i as int));
            assert(gs.take(i + 1).drop_last() =~= gs.take(i as int));
            assert(gs.take(i + 1).last() == gs[i as int]);
            proof {
                lemma_newline_indices(gs.take(i as int));
            }
            let g = self.data[i].clone();
            let nl_here = g.is_newline();
            let ghost start = line_start(nl, r@.len() as int);
            let ghost old_t = t@;
            t.push(g);
            assert(texts(t@) =~= texts(old_t).push(gs[i as int]));
            assert(gs.subrange(start, i + 1) =~= gs.subrange(start, i as int).push(gs[i as int]));
            if nl_here {
                let line = GString::from_graphemes(t);
                let ghost old_r = r@;
                r.push(line);
                t = Vec::new();
                let ghost nl2 = newlines_of(gs.take(i + 1));
                assert(nl2 == nl.push(i as int));
                assert forall|q: int| 0 <= q < r@.len() implies (#[trigger] r@[q])@ == gs.subrange(
                    line_start(nl2, q),
                    nl2[q] + 1,
                ) by {
                    if q < old_r.len() {
                        assert(r@[q] == old_r[q]);
                        if q > 0 {
                            assert(line_start(nl2, q) == line_start(nl, q));
                        }
                    }
                }
                assert(texts(t@) =~= gs.subrange(i + 1, i + 1));
            }
            i = i + 1;
        }
        proof {
            assert(gs.take(i as int) =~= gs);
        }
        let ghost nl = newlines_of(gs);
        let ghost old_r = r@;
        r.push(GString::from_graphemes(t));
        proof {
            assert forall|q: int| 0 <= q < r@.len() implies (#[trigger] r@[q])@
                == lines_of(gs)[q] by {
                if q < old_r.len() {
                    assert(r@[q] == old_r[q]);
                }
            }
        }
        r
    }

    /// The code points of the whole text, in order.
    pub fn chars(&self) -> (r: Vec<char>)
        ensures
            r@ == joined(self@),
    {
        let ghost gs = self@;
        let mut r: Vec<char> = Vec::new();
        let mut i: usize = 0;
        while i < self.data.len()
            invariant
                i <= gs.len(),
                gs == self@,
                r@ == joined(gs.take(i as int)),
            decreases gs.len() - i,
        {
            let mut c = self.data[i].chars();
            let ghost (old_r, old_c) = (r@, c@);
            r.append(&mut c);
            assert(gs.take(i + 1).drop_last() =~= gs.take(i as int));
            assert(r@ == old_r + old_c);
            i = i + 1;
        }
        assert(gs.take(i as int) =~= gs);
        r
    }

    /// The UTF-8 encoding of the whole text.
    pub fn bytes(&self) -> (r: Vec<u8>)
        ensures
            r@ == encode_utf8(joined(self@)),
    {
        let ghost gs = self@;
        let mut r: Vec<u8> = Vec::new();
        let mut i: usize = 0;
        while i < self.data.len()
            invariant
                i <= gs.len(),
                gs == self@,
                r@ == encode_utf8(joined(gs.take(i as int))),
            decreases gs.len() - i,
        {
            let mut b = self.data[i].bytes();
            let ghost old_r = r@;
            r.append(&mut b);
            assert(gs.take(i + 1).drop_last() =~= gs.take(i as int));
            proof {
                lemma_encode_concat(joined(gs.take(i as int)), gs[i as int]);
            }
            i = i + 1;
        }
        assert(gs.take(i as int) =~= gs);
        r
    }

    /// The whole text: the clusters joined in order.
    pub fn to_string(&self) -> (r: String)
        ensures
            r@ == joined(self@),
    {
        let ghost gs = self@;
        let mut r = String::new();
        let mut i: usize = 0;
        while i < self.data.len()
            invariant
                i <= gs.len(),
                gs == self@,
                r@ == joined(gs.take(i as int)),
            decreases gs.len() - i,
        {
            r.append(self.data[i].as_str());
            assert(gs.take(i + 1).drop_last() =~= gs.take(i as int));
            i = i + 1;
        }
        assert(gs.take(i as int) =~= gs);
        r
    }

    /// Whether this text has the same clusters as the text `s`.
    pub fn eq_str(&self, s: &str) -> (r: bool)
        ensures
            r == (self@ == clusters_of(s@)),
    {
        let other = GString::from(s);
        *self == other
    }
}

impl PartialEq for GString {
    fn eq(&self, other: &GString) -> (r: bool) {
        if self.data.len() != other.data.len() {
            assert(self@.len() != other@.len());
            return false;
        }
        let mut i: usize = 0;
        while i < self.data.len()
            invariant
                i <= self@.len() == other@.len(),
                forall|k: int| 0 <= k < i ==> self@[k] == other@[k],
            decreases self@.len() - i,
        {
            if self.data[i] != other.data[i] {
                assert(self@[i as int] != other@[i as int]);
                return false;
            }
            i = i + 1;
        }
        assert(self@ =~= other@);
        true
    }
}

impl vstd::std_specs::cmp::PartialEqSpecImpl for GString {
    open spec fn obeys_eq_spec() -> bool {
        true
    }

    open spec fn eq_spec(&self, other: &GString) -> bool {
        self@ == other@
    }
}

impl Eq for GString {
}

impl Clone for GString {
    fn clone(&self) -> (r: Self)
        ensures
            r@ == self@,
    {
        let r = self.slice(0..self.len());
        assert(self@.subrange(0, self@.len() as int) =~= self@);
        r
    }
}

impl Default for GString {
    fn default() -> (r: Self)
        ensures
            r@ == Seq::<Seq<char>>::empty(),
    {
        GString::new()
    }
}

} // verus!
