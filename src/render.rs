use crate::grapheme::Grapheme;
use crate::gstring::GString;
use crate::model::{
    ints, lemma_line_bounds, lemma_newline_indices, line_end, line_start, lines_of, newlines_of,
    shape_of,
};
use vstd::prelude::*;

verus! {

/// The character of a decimal digit.
pub open spec fn digit_char(d: int) -> char {
    seq!['0', '1', '2', '3', '4', '5', '6', '7', '8', '9'][d]
}

/// The decimal digits of `x`, most significant first, with no leading zeros.
pub open spec fn decimal(x: nat) -> Seq<char>
    decreases x,
{
    if x < 10 {
        seq![digit_char(x as int)]
    } else {
        decimal(x / 10).push(digit_char((x % 10) as int))
    }
}

/// The decimal digits of `x`, padded with leading zeros to at least `w` characters.
pub open spec fn padded(x: nat, w: nat) -> Seq<char> {
    let d = decimal(x);
    if d.len() < w {
        Seq::new((w - d.len()) as nat, |i: int| '0') + d
    } else {
        d
    }
}

/// `n` spaces.
pub open spec fn spaces(n: nat) -> Seq<char> {
    Seq::new(n, |i: int| ' ')
}

/// Character `n` of each of `lo ..= hi` padded to `w`, separated by spaces.
pub open spec fn digit_row(lo: nat, hi: nat, w: nat, n: int) -> Seq<char>
    decreases hi,
{
    if hi <= lo {
        seq![padded(lo, w)[n]]
    } else {
        digit_row(lo, (hi - 1) as nat, w, n) + seq![' ', padded(hi, w)[n]]
    }
}

/// The first `m` digit rows of the numbers `lo ..= hi` padded to `w`, one per
/// text line, each indented by `indent` spaces and one more.
pub open spec fn scale(lo: nat, hi: nat, w: nat, indent: nat, m: nat) -> Seq<char>
    decreases m,
{
    if m == 0 {
        Seq::empty()
    } else {
        scale(lo, hi, w, indent, (m - 1) as nat) + spaces(indent) + seq![' '] + digit_row(
            lo,
            hi,
            w,
            m - 1,
        ) + seq!['\n']
    }
}

/// How a cluster is drawn: newlines as their escape sequences, others as they are.
pub open spec fn shown(g: Seq<char>) -> Seq<char> {
    if g == seq!['\n'] {
        seq!['\\', 'n']
    } else if g == seq!['\r', '\n'] {
        seq!['\\', 'r', '\\', 'n']
    } else {
        g
    }
}

/// The clusters of a line drawn and separated by spaces.
pub open spec fn shown_line(line: Seq<Seq<char>>) -> Seq<char>
    decreases line.len(),
{
    if line.len() == 0 {
        Seq::empty()
    } else if line.len() == 1 {
        shown(line[0])
    } else {
        shown_line(line.drop_last()) + seq![' '] + shown(line.last())
    }
}

/// The largest entry, or zero for no entries.
pub open spec fn seq_max(s: Seq<int>) -> int
    decreases s.len(),
{
    if s.len() == 0 {
        0
    } else if s.last() > seq_max(s.drop_last()) {
        s.last()
    } else {
        seq_max(s.drop_last())
    }
}

/// The width of the row labels: the digits of the last row's index.
pub open spec fn label_width(gs: Seq<Seq<char>>) -> nat {
    decimal((shape_of(gs).len() - 1) as nat).len()
}

/// The block of one line: its column scale, the row label and the drawn clusters,
/// the scale of its positions, and an empty text line. The last line reaches one
/// column further, to the end of the text.
pub open spec fn row_block(gs: Seq<Seq<char>>, row: int) -> Seq<char> {
    let sh = shape_of(gs);
    let rw = label_width(gs);
    let mc = sh[row] + if row == sh.len() - 1 { 1int } else { 0int };
    let start = line_start(newlines_of(gs), row);
    let wc = decimal((mc + 1) as nat).len();
    let wp = decimal((start + mc + 1) as nat).len();
    scale(0, mc as nat, wc, rw, wc) + padded(row as nat, rw) + seq![' '] + shown_line(
        lines_of(gs)[row],
    ) + seq!['\n'] + scale(start as nat, (start + mc) as nat, wp, rw, wp) + seq!['\n']
}

/// The blocks of the first `m` lines.
pub open spec fn row_blocks(gs: Seq<Seq<char>>, m: int) -> Seq<char>
    decreases m,
{
    if m <= 0 {
        Seq::empty()
    } else {
        row_blocks(gs, m - 1) + row_block(gs, m - 1)
    }
}

/// The grid of a text: a column scale wide enough for the longest line, an empty
/// text line, then the block of each line.
pub open spec fn shape_text(gs: Seq<Seq<char>>) -> Seq<char> {
    let sh = shape_of(gs);
    let top = if seq_max(sh) > sh.last() + 1 {
        seq_max(sh)
    } else {
        sh.last() + 1
    };
    let w = decimal(top as nat).len();
    scale(0, top as nat, w, label_width(gs), w) + seq!['\n'] + row_blocks(gs, sh.len() as int)
}

/// Relies on `String`'s `FromIterator<char>`: the string holds the characters in order.
#[verifier::external_body]
fn string_from_chars(chars: &Vec<char>) -> (r: String)
    ensures
        r@ == chars@,
{
    chars.iter().collect()
}

/// The character of the decimal digit `d`.
fn digit(d: usize) -> (c: char)
    requires
        d < 10,
    ensures
        c == digit_char(d as int),
{
    if d == 0 {
        '0'
    } else if d == 1 {
        '1'
    } else if d == 2 {
        '2'
    } else if d == 3 {
        '3'
    } else if d == 4 {
        '4'
    } else if d == 5 {
        '5'
    } else if d == 6 {
        '6'
    } else if d == 7 {
        '7'
    } else if d == 8 {
        '8'
    } else {
        '9'
    }
}

/// The decimal digits of `x`.
fn decimal_digits(x: usize) -> (r: Vec<char>)
    ensures
        r@ == decimal(x as nat),
    decreases x,
{
    if x < 10 {
        vec![digit(x)]
    } else {
        let mut r = decimal_digits(x / 10);
        r.push(digit(x % 10));
        r
    }
}

/// Every number has at least one digit.
proof fn lemma_decimal_len(x: nat)
    ensures
        decimal(x).len() >= 1,
    decreases x,
{
    if x >= 10 {
        lemma_decimal_len(x / 10);
    }
}

/// The number of decimal digits of `number`.
fn n_digits(number: usize) -> (r: usize)
    ensures
        r == decimal(number as nat).len(),
        r >= 1,
{
    proof {
        lemma_decimal_len(number as nat);
    }
    decimal_digits(number).len()
}

/// The decimal digits of `x`, padded with zeros to at least `w` characters.
fn padded_digits(x: usize, w: usize) -> (r: Vec<char>)
    ensures
        r@ == padded(x as nat, w as nat),
        r@.len() >= w,
{
    let d = decimal_digits(x);
    if d.len() < w {
        let mut r: Vec<char> = Vec::new();
        let fill = w - d.len();
        let mut i: usize = 0;
        while i < fill
            invariant
                i <= fill,
                r@ == Seq::new(i as nat, |k: int| '0'),
            decreases fill - i,
        {
            r.push('0');
            i = i + 1;
            assert(r@ =~= Seq::new(i as nat, |k: int| '0'));
        }
        let mut rest = d;
        r.append(&mut rest);
        assert(r@ =~= padded(x as nat, w as nat));
        r
    } else {
        d
    }
}

/// Appends `n` spaces.
fn push_spaces(out: &mut Vec<char>, n: usize)
    ensures
        final(out)@ == old(out)@ + spaces(n as nat),
{
    let mut i: usize = 0;
    while i < n
        invariant
            i <= n,
            out@ == old(out)@ + spaces(i as nat),
        decreases n - i,
    {
        out.push(' ');
        i = i + 1;
        assert(out@ =~= old(out)@ + spaces(i as nat));
    }
}

/// Appends character `n` of each of `lo ..= hi` padded to `w`, separated by spaces.
fn push_digit_row(out: &mut Vec<char>, lo: usize, hi: usize, w: usize, n: usize)
    requires
        lo <= hi,
        n < w,
    ensures
        final(out)@ == old(out)@ + digit_row(lo as nat, hi as nat, w as nat, n as int),
{
    let first = padded_digits(lo, w);
    out.push(first[n]);
    assert(out@ =~= old(out)@ + digit_row(lo as nat, lo as nat, w as nat, n as int));
    let mut x: usize = lo;
    while x < hi
        invariant
            lo <= x <= hi,
            n < w,
            out@ == old(out)@ + digit_row(lo as nat, x as nat, w as nat, n as int),
        decreases hi - x,
    {
        x = x + 1;
        let p = padded_digits(x, w);
        out.push(' ');
        out.push(p[n]);
        assert(out@ =~= old(out)@ + digit_row(lo as nat, x as nat, w as nat, n as int));
    }
}

/// Appends the `w` digit rows of `lo ..= hi` padded to `w`, each indented.
fn push_scale(out: &mut Vec<char>, lo: usize, hi: usize, w: usize, indent: usize)
    requires
        lo <= hi,
    ensures
        final(out)@ == old(out)@ + scale(lo as nat, hi as nat, w as nat, indent as nat, w as nat),
{
    let mut n: usize = 0;
    while n < w
        invariant
            lo <= hi,
            n <= w,
            out@ == old(out)@ + scale(lo as nat, hi as nat, w as nat, indent as nat, n as nat),
        decreases w - n,
    {
        push_spaces(out, indent);
        out.push(' ');
        push_digit_row(out, lo, hi, w, n);
        out.push('\n');
        n = n + 1;
        assert(out@ =~= old(out)@ + scale(lo as nat, hi as nat, w as nat, indent as nat, n as nat));
    }
}

/// Appends how a cluster is drawn.
fn push_shown(out: &mut Vec<char>, g: &Grapheme)
    ensures
        final(out)@ == old(out)@ + shown(g@),
{
    let mut c = g.chars();
    if c.len() == 1 && c[0] == '\n' {
        assert(c@ =~= seq!['\n']);
        out.push('\\');
        out.push('n');
        assert(out@ =~= old(out)@ + shown(g@));
    } else if c.len() == 2 && c[0] == '\r' && c[1] == '\n' {
        assert(c@ =~= seq!['\r', '\n']);
        out.push('\\');
        out.push('r');
        out.push('\\');
        out.push('n');
        assert(out@ =~= old(out)@ + shown(g@));
    } else {
        assert(c@ != seq!['\n'] && c@ != seq!['\r', '\n']) by {
            if c@.len() == 1 {
                assert(c@[0] != seq!['\n'][0]);
            }
            if c@.len() == 2 {
                assert(c@[0] != seq!['\r', '\n'][0] || c@[1] != seq!['\r', '\n'][1]);
            }
        }
        out.append(&mut c);
    }
}

/// Appends the clusters of a line, drawn and separated by spaces.
fn push_shown_line(out: &mut Vec<char>, line: &GString)
    ensures
        final(out)@ == old(out)@ + shown_line(line@),
{
    let ghost gs = line@;
    let mut i: usize = 0;
    assert(gs.take(0) =~= Seq::<Seq<char>>::empty());
    while i < line.len()
        invariant
            gs == line@,
            i <= gs.len(),
            out@ == old(out)@ + shown_line(gs.take(i as int)),
        decreases gs.len() - i,
    {
        let g = line.get(i).unwrap();
        assert(gs.take(i + 1).drop_last() =~= gs.take(i as int));
        if i > 0 {
            out.push(' ');
        } else {
            assert(gs.take(1) =~= seq![gs[0]]);
        }
        push_shown(out, g);
        i = i + 1;
        assert(out@ =~= old(out)@ + shown_line(gs.take(i as int)));
    }
    assert(gs.take(i as int) =~= gs);
}

/// Each entry of the shape, from the newline indices: a line that ends in a
/// newline spans from its start up to that newline.
proof fn lemma_shape_entries(gs: Seq<Seq<char>>)
    ensures
        forall|row: int|
            0 <= row < newlines_of(gs).len() ==> #[trigger] shape_of(gs)[row]
                == newlines_of(gs)[row] - line_start(newlines_of(gs), row),
        shape_of(gs).len() == newlines_of(gs).len() + 1,
        shape_of(gs).last() + 1 <= gs.len() - line_start(
            newlines_of(gs),
            newlines_of(gs).len() as int,
        ) + 1,
        forall|row: int|
            0 <= row < shape_of(gs).len() ==> 0 <= #[trigger] shape_of(gs)[row] && shape_of(
                gs,
            )[row] + 1 <= gs.len() + 1,
        0 <= line_start(newlines_of(gs), newlines_of(gs).len() as int) <= gs.len(),
{
    lemma_line_bounds(gs);
    let nl = newlines_of(gs);
    let sh = shape_of(gs);
    assert forall|row: int| 0 <= row < sh.len() implies 0 <= #[trigger] sh[row] && sh[row] + 1
        <= gs.len() + 1 by {
        assert(lines_of(gs)[row].len() == line_end(nl, gs.len() as int, row) - line_start(nl, row));
    }
    assert forall|row: int| 0 <= row < nl.len() implies #[trigger] sh[row] == nl[row] - line_start(
        nl,
        row,
    ) by {
        assert(lines_of(gs)[row].len() == line_end(nl, gs.len() as int, row) - line_start(nl, row));
    }
    let k = nl.len() as int;
    assert(lines_of(gs)[k].len() == line_end(nl, gs.len() as int, k) - line_start(nl, k));
}

/// Appends the block of line `row`, which starts at position `pos`.
fn push_row_block(
    out: &mut Vec<char>,
    s: &GString,
    sh: &[usize],
    line: &GString,
    row: usize,
    pos: usize,
    row_width: usize,
)
    requires
        ints(sh@) == shape_of(s@),
        row < sh@.len(),
        line@ == lines_of(s@)[row as int],
        pos == line_start(newlines_of(s@), row as int),
        row_width == label_width(s@),
        s@.len() + 2 <= usize::MAX,
    ensures
        final(out)@ == old(out)@ + row_block(s@, row as int),
{
    let ghost gs = s@;
    let ghost nl = newlines_of(gs);
    proof {
        lemma_shape_entries(gs);
        lemma_line_bounds(gs);
        lemma_newline_indices(gs);
        assert(ints(sh@)[row as int] == sh@[row as int] as int);
        assert(sh@.len() == ints(sh@).len());
        if (row as int) < nl.len() {
            assert(nl[row as int] < gs.len());
        }
    }
    let last_row = sh.len() - 1;
    let mc = if row == last_row {
        sh[row] + 1
    } else {
        sh[row]
    };
    let wc = n_digits(mc + 1);
    push_scale(out, 0, mc, wc, row_width);
    let mut label = padded_digits(row, row_width);
    out.append(&mut label);
    out.push(' ');
    push_shown_line(out, line);
    out.push('\n');
    let wp = n_digits(pos + mc + 1);
    push_scale(out, pos, pos + mc, wp, row_width);
    out.push('\n');
    assert(out@ =~= old(out)@ + row_block(gs, row as int));
}

impl GString {
    /// Draws the text as a grid: a column scale at the top, then for each line its
    /// column scale, its index and clusters (newlines escaped), and the positions
    /// of its clusters, with one more column and position on the last line.
    pub fn shape_string(&self) -> (r: String)
        requires
            self@.len() + 2 <= usize::MAX,
        ensures
            r@ == shape_text(self@),
    {
        let ghost gs = self@;
        let ghost nl = newlines_of(gs);
        let sh = self.shape();
        let lines = self.lines();
        proof {
            lemma_shape_entries(gs);
            assert(ints(sh@).len() == sh@.len());
            assert forall|q: int| 0 <= q < sh@.len() implies #[trigger] sh@[q] as int
                == shape_of(gs)[q] by {
                assert(ints(sh@)[q] == sh@[q] as int);
            }
        }
        let last_row = sh.len() - 1;
        let row_width = n_digits(last_row);
        let mut top: usize = 0;
        let mut i: usize = 0;
        while i < sh.len()
            invariant
                i <= sh@.len(),
                sh@.len() == shape_of(gs).len(),
                forall|q: int| 0 <= q < sh@.len() ==> #[trigger] sh@[q] as int == shape_of(gs)[q],
                top as int == seq_max(shape_of(gs).take(i as int)),
            decreases sh@.len() - i,
        {
            assert(shape_of(gs).take(i + 1).drop_last() =~= shape_of(gs).take(i as int));
            if sh[i] > top {
                top = sh[i];
            }
            i = i + 1;
        }
        assert(shape_of(gs).take(i as int) =~= shape_of(gs));
        let top = if top > sh[last_row] + 1 {
            top
        } else {
            sh[last_row] + 1
        };
        let mut out: Vec<char> = Vec::new();
        push_scale(&mut out, 0, top, n_digits(top), row_width);
        out.push('\n');
        let ghost head = out@;
        let mut pos: usize = 0;
        let mut row: usize = 0;
        while row < sh.len()
            invariant
                row <= sh@.len(),
                ints(sh@) == shape_of(gs),
                last_row == sh@.len() - 1,
                sh@.len() == shape_of(gs).len() == nl.len() + 1,
                gs.len() + 2 <= usize::MAX,
                gs == self@,
                nl == newlines_of(gs),
                forall|q: int|
                    0 <= q < nl.len() ==> #[trigger] shape_of(gs)[q] == nl[q] - line_start(nl, q),
                lines@.len() == lines_of(gs).len(),
                forall|q: int| 0 <= q < lines@.len() ==> (#[trigger] lines@[q])@ == lines_of(gs)[q],
                row_width == label_width(gs),
                row < sh@.len() ==> pos == line_start(nl, row as int),
                row < sh@.len() ==> pos <= gs.len(),
                out@ == head + row_blocks(gs, row as int),
            decreases sh@.len() - row,
        {
            proof {
                lemma_newline_indices(gs);
            }
            let ghost before = out@;
            push_row_block(&mut out, self, sh, &lines[row], row, pos, row_width);
            assert(out@ =~= before + row_block(gs, row as int));
            if row < last_row {
                assert(shape_of(gs)[row as int] == nl[row as int] - line_start(nl, row as int));
                assert(line_start(nl, row + 1) == nl[row as int] + 1);
                pos = pos + sh[row] + 1;
            }
            row = row + 1;
        }
        string_from_chars(&out)
    }
}

} // verus!
