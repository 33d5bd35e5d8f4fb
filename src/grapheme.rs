use crate::model::{clusters_of, is_newline_text, joined, lemma_joined_empty};
use unicode_segmentation::UnicodeSegmentation;
use vstd::prelude::*;

verus! {

/// Relies on `UnicodeSegmentation::graphemes` with the extended rules: it yields
/// consecutive, non-empty slices of `s` that together cover `s`.
#[verifier::external_body]
fn segment(s: &str) -> (r: Vec<String>)
    ensures
        r@.map_values(|x: String| x@) == clusters_of(s@),
        joined(r@.map_values(|x: String| x@)) == s@,
        forall|i: int| 0 <= i < r@.len() ==> (#[trigger] r@[i])@.len() > 0,
{
    s.graphemes(true).map(|g| g.to_string()).collect()
}

/// The code points of `s`, in order.
fn chars_of(s: &str) -> (r: Vec<char>)
    ensures
        r@ == s@,
{
    let mut r: Vec<char> = Vec::new();
    for c in it: s.chars()
        invariant
            r@ == it.seq().take(it.index() as int),
    {
        r.push(c);
    }
    r
}

/// Whether a sequence of code points is `"\n"` or `"\r\n"`.
fn is_newline_chars(c: &Vec<char>) -> (r: bool)
    ensures
        r == is_newline_text(c@),
{
    if c.len() == 1 {
        let r = c[0] == '\n';
        proof {
            if r {
                assert(c@ =~= seq!['\n']);
            } else {
                assert(c@ != seq!['\n'] && c@.len() != 2);
            }
        }
        r
    } else if c.len() == 2 {
        let r = c[0] == '\r' && c[1] == '\n';
        proof {
            if r {
                assert(c@ =~= seq!['\r', '\n']);
            } else {
                assert(c@ != seq!['\r', '\n']);
            }
        }
        r
    } else {
        false
    }
}

/// The texts of a sequence of clusters.
pub open spec fn texts(v: Seq<Grapheme>) -> Seq<Seq<char>> {
    v.map_values(|g: Grapheme| g@)
}

/// A single extended grapheme cluster.
#[derive(Debug)]
pub struct Grapheme {
    data: String,
}

/// Failure to build a [`Grapheme`].
#[derive(Debug, Clone, Copy, PartialEq, Eq, Structural)]
pub enum GraphemeError {
    /// The text does not segment into exactly one cluster.
    InvalidGraphemeCount,
}

impl View for Grapheme {
    type V = Seq<char>;

    closed spec fn view(&self) -> Seq<char> {
        self.data@
    }
}

impl Grapheme {
    #[verifier::type_invariant]
    spec fn non_empty(&self) -> bool {
        self.data@.len() > 0
    }

    /// Wraps a non-empty piece that segmentation produced.
    pub(crate) fn from_piece(data: String) -> (r: Grapheme)
        requires
            data@.len() > 0,
        ensures
            r@ == data@,
    {
        Grapheme { data }
    }

    /// The cluster that `s` consists of; fails unless `s` is exactly one cluster.
    pub fn from(s: &str) -> (r: Result<Grapheme, GraphemeError>)
        ensures
            r is Ok <==> clusters_of(s@).len() == 1,
            r matches Ok(g) ==> g@ == s@ && clusters_of(s@) == seq![s@],
            r matches Err(e) ==> e == GraphemeError::InvalidGraphemeCount,
            s@.len() == 0 ==> r is Err,
    {
        let mut pieces = segment(s);
        proof {
            let v = pieces@.map_values(|x: String| x@);
            assert forall|i: int| 0 <= i < v.len() implies (#[trigger] v[i]).len() > 0 by {
                assert(v[i] == pieces@[i]@);
            }
            lemma_joined_empty(v);
        }
        if pieces.len() == 1 {
            proof {
                let v = pieces@.map_values(|x: String| x@);
                assert(v.drop_last() =~= Seq::<Seq<char>>::empty());
                assert(joined(v) == joined(v.drop_last()) + v.last());
                assert(joined(v) =~= v[0]);
                assert(v =~= seq![s@]);
            }
            let piece = pieces.pop().unwrap();
            Ok(Grapheme::from_piece(piece))
        } else {
            Err(GraphemeError::InvalidGraphemeCount)
        }
    }

    /// The code points of this cluster.
    pub fn chars(&self) -> (r: Vec<char>)
        ensures
            r@ == self@,
    {
        chars_of(self.data.as_str())
    }

    /// The UTF-8 encoding of this cluster.
    pub fn bytes(&self) -> (r: Vec<u8>)
        ensures
            r@ == vstd::utf8::encode_utf8(self@),
    {
        let b: &[u8] = self.data.as_str().as_bytes();
        let mut r: Vec<u8> = Vec::new();
        let mut i: usize = 0;
        while i < b.len()
            invariant
                i <= b@.len(),
                r@ == b@.take(i as int),
            decreases b@.len() - i,
        {
            r.push(b[i]);
            i = i + 1;
            assert(r@ =~= b@.take(i as int));
        }
        assert(b@.take(i as int) =~= b@);
        r
    }

    /// The text of this cluster as an owned string.
    pub fn to_string(&self) -> (r: String)
        ensures
            r@ == self@,
    {
        self.data.clone()
    }

    /// Whether this cluster has the text `s`.
    pub fn eq_str(&self, s: &str) -> (r: bool)
        ensures
            r == (self@ == s@),
    {
        let c = chars_of(s);
        let d = chars_of(self.data.as_str());
        if c.len() != d.len() {
            return false;
        }
        let mut i: usize = 0;
        while i < c.len()
            invariant
                c@ == s@,
                d@ == self@,
                c@.len() == d@.len(),
                i <= c@.len(),
                forall|k: int| 0 <= k < i ==> c@[k] == d@[k],
            decreases c@.len() - i,
        {
            if c[i] != d[i] {
                return false;
            }
            i = i + 1;
        }
        assert(c@ =~= d@);
        true
    }

    /// The text of this cluster.
    pub fn as_str(&self) -> (r: &str)
        ensures
            r@ == self@,
            r@.len() > 0,
    {
        proof {
            use_type_invariant(self);
        }
        self.data.as_str()
    }
}

impl Clone for Grapheme {
    fn clone(&self) -> (r: Self)
        ensures
            r@ == self@,
    {
        proof {
            use_type_invariant(self);
        }
        Grapheme { data: self.data.clone() }
    }
}

impl PartialEq for Grapheme {
    fn eq(&self, other: &Grapheme) -> (r: bool) {
        self.data == other.data
    }
}

impl vstd::std_specs::cmp::PartialEqSpecImpl for Grapheme {
    open spec fn obeys_eq_spec() -> bool {
        true
    }

    open spec fn eq_spec(&self, other: &Grapheme) -> bool {
        self@ == other@
    }
}

impl Eq for Grapheme {
}

/// Tells newline clusters (`"\n"` and `"\r\n"`) from the others.
pub trait IsNewline {
    spec fn newline_spec(&self) -> bool;

    /// Whether this text is a newline cluster.
    fn is_newline(&self) -> (r: bool)
        ensures
            r == self.newline_spec(),
    ;
}

impl IsNewline for str {
    open spec fn newline_spec(&self) -> bool {
        is_newline_text(self@)
    }

    fn is_newline(&self) -> (r: bool) {
        let c = chars_of(self);
        is_newline_chars(&c)
    }
}

impl IsNewline for Grapheme {
    open spec fn newline_spec(&self) -> bool {
        is_newline_text(self@)
    }

    fn is_newline(&self) -> (r: bool) {
        self.data.as_str().is_newline()
    }
}

/// Splits `s` into its extended grapheme clusters.
pub fn graphemes(s: &str) -> (r: Vec<Grapheme>)
    ensures
        texts(r@) == clusters_of(s@),
        joined(texts(r@)) == s@,
        forall|i: int| 0 <= i < r@.len() ==> (#[trigger] r@[i])@.len() > 0,
        r@.len() == 0 <==> s@.len() == 0,
{
    let pieces = segment(s);
    let ghost pv = pieces@.map_values(|x: String| x@);
    let mut r: Vec<Grapheme> = Vec::new();
    for p in it: pieces
        invariant
            pv == it.seq().map_values(|x: String| x@),
            forall|i: int| 0 <= i < pv.len() ==> (#[trigger] pv[i]).len() > 0,
            texts(r@) == pv.take(it.index() as int),
    {
        let ghost i = it.index() as int;
        assert(pv[i] == p@);
        let ghost old_r = r@;
        let g = Grapheme::from_piece(p);
        r.push(g);
        assert(r@ == old_r.push(g));
        assert(texts(r@) =~= texts(old_r).push(g@));
        assert(texts(r@) =~= pv.take(i + 1));
    }
    assert(pv.take(pv.len() as int) =~= pv);
    proof {
        assert forall|i: int| 0 <= i < r@.len() implies (#[trigger] r@[i])@.len() > 0 by {
            assert(texts(r@)[i] == r@[i]@);
        }
        lemma_joined_empty(texts(r@));
    }
    r
}

} // verus!
