use gstring::{GString, Grapheme};

const S: &str = "a\u{310}e\u{301}o\u{308}\u{332}";

fn texts(s: &GString) -> Vec<String> {
    s.graphemes().iter().map(|g| g.to_string()).collect()
}

#[test]
fn new_is_empty() {
    let s = GString::new();
    assert!(s.is_empty());
    assert_eq!(s.len(), 0);
    assert!(s.eq_str(""));
    assert_eq!(s.shape(), &[0]);
    assert_eq!(GString::default(), s);
}

#[test]
fn empty_text_has_no_clusters() {
    let s = GString::from("");
    assert_eq!(s, GString::new());
    assert!(s.graphemes().is_empty());
    assert_eq!(s.shape(), &[0]);
}

#[test]
fn every_cluster_is_non_empty() {
    for text in [S, "a\r\n\nb", "\u{1f468}\u{200d}\u{1f469}!"] {
        for g in GString::from(text).graphemes() {
            assert!(!g.as_str().is_empty());
        }
    }
}

#[test]
fn from_round_trips() {
    for text in [S, "", "abc\ndef", "\r\n\r\n", "e\u{301}\u{1f468}\u{200d}\u{1f469}x", "\n"] {
        let s = GString::from(text);
        assert_eq!(s.to_string(), text);
        assert!(s.eq_str(text));
    }
}

#[test]
fn len_counts_clusters() {
    assert_eq!(GString::from(S).len(), 3);
    assert_eq!(GString::from("").len(), 0);
    assert_eq!(GString::from("a\r\nb").len(), 3);
    assert_eq!(GString::from("\u{1f468}\u{200d}\u{1f469}").len(), 1);
}

#[test]
fn graphemes_and_into_graphemes() {
    let s = GString::from(S);
    assert_eq!(texts(&s), vec!["a\u{310}", "e\u{301}", "o\u{308}\u{332}"]);
    let g = s.into_graphemes();
    assert_eq!(g.len(), 3);
    assert_eq!(g[2].as_str(), "o\u{308}\u{332}");
}

#[test]
fn get_in_and_out_of_range() {
    let g = GString::from(S);
    assert_eq!(g.get(0).unwrap().as_str(), "a\u{310}");
    assert_eq!(g.get(1).unwrap().as_str(), "e\u{301}");
    assert_eq!(g.get(2).unwrap().as_str(), "o\u{308}\u{332}");
    assert!(g.get(3).is_none());
}

#[test]
fn chars_and_bytes_flatten() {
    let s = GString::from(S);
    assert_eq!(s.chars(), vec!['a', '\u{310}', 'e', '\u{301}', 'o', '\u{308}', '\u{332}']);
    assert_eq!(
        s.bytes(),
        vec![0x61, 0xcc, 0x90, 0x65, 0xcc, 0x81, 0x6f, 0xcc, 0x88, 0xcc, 0xb2]
    );
    assert!(GString::new().bytes().is_empty());
}

#[test]
fn equality_between_containers() {
    let s1 = GString::from(S);
    let s2 = GString::from(S);
    assert_eq!(s1, s2);
    assert_ne!(s1, GString::from(""));
    assert_eq!(s1.clone(), s1);
}

#[test]
fn lines_keep_newlines() {
    let l = GString::from("abc\ndef").lines();
    assert_eq!(l.len(), 2);
    assert!(l[0].eq_str("abc\n"));
    assert!(l[1].eq_str("def"));
    let l = GString::from("abc\n").lines();
    assert_eq!(l.len(), 2);
    assert!(l[0].eq_str("abc\n"));
    assert!(l[1].eq_str(""));
    let l = GString::from("\ndef").lines();
    assert!(l[0].eq_str("\n"));
    assert!(l[1].eq_str("def"));
    let l = GString::from("").lines();
    assert_eq!(l.len(), 1);
    assert!(l[0].is_empty());
}

#[test]
fn coordinates_of_each_position() {
    let g = GString::from("abc\ndef");
    assert_eq!(g.len(), 7);
    assert_eq!(g.coordinates(0), Some((0, 0)));
    assert_eq!(g.coordinates(1), Some((0, 1)));
    assert_eq!(g.coordinates(2), Some((0, 2)));
    assert_eq!(g.coordinates(3), Some((0, 3)));
    assert_eq!(g.coordinates(4), Some((1, 0)));
    assert_eq!(g.coordinates(5), Some((1, 1)));
    assert_eq!(g.coordinates(6), Some((1, 2)));
    assert_eq!(g.coordinates(7), Some((1, 3)));
    assert_eq!(g.coordinates(8), None);
}

#[test]
fn position_of_each_coordinate() {
    let g = GString::from("abc\ndef");
    assert_eq!(g.position((0, 0)), Some(0));
    assert_eq!(g.position((0, 1)), Some(1));
    assert_eq!(g.position((0, 2)), Some(2));
    assert_eq!(g.position((0, 3)), Some(3));
    assert_eq!(g.position((0, 4)), None);
    assert_eq!(g.position((1, 0)), Some(4));
    assert_eq!(g.position((1, 1)), Some(5));
    assert_eq!(g.position((1, 2)), Some(6));
    assert_eq!(g.position((1, 3)), Some(7));
    assert_eq!(g.position((1, 4)), None);
    assert_eq!(g.position((2, 0)), None);
}

#[test]
fn position_on_empty_text() {
    let g = GString::from("");
    assert_eq!(g.position((0, 0)), Some(0));
    assert_eq!(g.position((0, 1)), None);
    assert_eq!(g.position((1, 0)), None);
    assert_eq!(g.coordinates(0), Some((0, 0)));
    assert_eq!(g.coordinates(1), None);
}

#[test]
fn coordinates_and_position_are_inverse() {
    for text in ["", "abc\ndef", "\n\n", "a\r\nb\n", "x\ny\n\nzz", "e\u{301}\r\n"] {
        let g = GString::from(text);
        for p in 0..=g.len() {
            let c = g.coordinates(p).unwrap();
            assert_eq!(g.position(c), Some(p));
        }
        for row in 0..4 {
            for column in 0..6 {
                if let Some(p) = g.position((row, column)) {
                    assert_eq!(g.coordinates(p), Some((row, column)));
                }
            }
        }
    }
}

#[test]
fn newlines_indices() {
    assert_eq!(GString::from("abc\ndef").newlines(), vec![3]);
    assert_eq!(GString::from("abc\ndef\n").newlines(), vec![3, 7]);
    assert_eq!(GString::from("abc").newlines(), Vec::<usize>::new());
    assert_eq!(GString::from("").newlines(), Vec::<usize>::new());
    assert_eq!(GString::from("\n").newlines(), vec![0]);
    assert_eq!(GString::from("\n\n").newlines(), vec![0, 1]);
    assert_eq!(GString::from("a\r\nb").newlines(), vec![1]);
}

#[test]
fn shape_per_line() {
    let s = GString::from("\na\nbc\nd\nefg\n");
    assert_eq!(s.shape(), &[0, 1, 2, 1, 3, 0]);
    assert_eq!(s.shape().len(), 6);
    assert_eq!(s.shape()[4], 3);
    assert_eq!(GString::from("abc\ndef").shape(), &[3, 2]);
    assert_eq!(GString::from("abc").shape(), &[2]);
}

#[test]
fn shape_has_one_more_entry_than_newlines() {
    for text in ["", "a", "\n", "a\r\nb\nc", "\n\n\n"] {
        let s = GString::from(text);
        assert_eq!(s.shape().len(), 1 + s.newlines().len());
    }
}

#[test]
fn insert_in_middle() {
    let mut s = GString::from("a\u{310}o\u{308}\u{332}");
    s.insert(1, "e\u{301}");
    assert!(s.eq_str(S));
    assert_eq!(s.shape(), &[2]);
    s.insert(3, "\n");
    assert_eq!(s.shape(), &[3, 0]);
}

#[test]
fn remove_keeps_shape_current() {
    let mut s = GString::from(S);
    assert_eq!(s.remove(1).as_str(), "e\u{301}");
    assert!(s.eq_str("a\u{310}o\u{308}\u{332}"));
    let mut t = GString::from("ab\ncd");
    assert_eq!(t.remove(2).as_str(), "\n");
    assert_eq!(t.shape(), &[3]);
    assert_eq!(t.coordinates(4), Some((0, 4)));
}

#[test]
fn push_appends() {
    let mut s = GString::from("a\u{310}e\u{301}");
    s.push("o\u{308}\u{332}");
    assert!(s.eq_str(S));
    s.push("\n");
    assert_eq!(s.shape(), &[3, 0]);
}

#[test]
fn pop_until_empty() {
    let mut s = GString::from(S);
    assert_eq!(s.pop().unwrap().as_str(), "o\u{308}\u{332}");
    assert!(s.eq_str("a\u{310}e\u{301}"));
    assert_eq!(s.pop().unwrap().as_str(), "e\u{301}");
    assert!(s.eq_str("a\u{310}"));
    assert_eq!(s.pop().unwrap().as_str(), "a\u{310}");
    assert!(s.eq_str(""));
    assert_eq!(s.pop(), None);
    assert!(s.eq_str(""));
    let mut t = GString::from("ab\n");
    t.pop();
    assert_eq!(t.shape(), &[1]);
}

#[test]
fn splice_replaces_ranges() {
    let mut s = GString::from(S);
    assert!(s.splice(0..2, "e\u{301}a\u{310}").eq_str("a\u{310}e\u{301}"));
    assert!(s.eq_str("e\u{301}a\u{310}o\u{308}\u{332}"));
    assert!(s.splice(1.., "o\u{308}\u{332}a\u{310}").eq_str("a\u{310}o\u{308}\u{332}"));
    assert!(s.eq_str("e\u{301}o\u{308}\u{332}a\u{310}"));
    assert!(s.splice(..1, "").eq_str("e\u{301}"));
    assert!(s.eq_str("o\u{308}\u{332}a\u{310}"));
    assert!(s.splice(.., "").eq_str("o\u{308}\u{332}a\u{310}"));
    assert!(s.eq_str(""));
}

#[test]
fn splice_prefix_of_four() {
    let mut s = GString::from("abcd");
    let removed = s.splice(0..2, "XY");
    assert!(removed.eq_str("ab"));
    assert_eq!(removed.shape(), &[1]);
    assert!(s.eq_str("XYcd"));
    let removed = s.splice(1..3, "\n");
    assert!(removed.eq_str("Yc"));
    assert!(s.eq_str("X\nd"));
    assert_eq!(s.shape(), &[1, 0]);
}

#[test]
fn drain_ranges() {
    let mut s = GString::from("a\u{310}e\u{301}o\u{308}\u{332}a\u{310}e\u{301}");
    assert!(s.drain(0..2).eq_str("a\u{310}e\u{301}"));
    assert!(s.eq_str("o\u{308}\u{332}a\u{310}e\u{301}"));
    assert!(s.drain(2..).eq_str("e\u{301}"));
    assert!(s.eq_str("o\u{308}\u{332}a\u{310}"));
    assert!(s.drain(..1).eq_str("o\u{308}\u{332}"));
    assert!(s.eq_str("a\u{310}"));
    assert!(s.drain(..).eq_str("a\u{310}"));
    assert!(s.eq_str(""));
    assert_eq!(s.shape(), &[0]);
}

#[test]
fn slice_copies_ranges() {
    let s = GString::from(S);
    assert!(s.slice(0..1).eq_str("a\u{310}"));
    assert!(s.slice(1..2).eq_str("e\u{301}"));
    assert!(s.slice(2..3).eq_str("o\u{308}\u{332}"));
    assert!(s.slice(0..2).eq_str("a\u{310}e\u{301}"));
    assert!(s.slice(1..3).eq_str("e\u{301}o\u{308}\u{332}"));
    assert!(s.slice(0..3).eq_str(S));
    assert!(s.slice(1..1).is_empty());
    assert_eq!(GString::from("a\nb").slice(0..2).shape(), &[1, 0]);
}

#[test]
fn find_first_match() {
    let g = GString::from(S);
    assert_eq!(g.find(&GString::from("a\u{310}")), Some(0));
    assert_eq!(g.find(&GString::from("e\u{301}")), Some(1));
    assert_eq!(g.find(&GString::from("o\u{308}\u{332}")), Some(2));
    assert!(g.find(&GString::from("nonexistent")).is_none());
    assert!(g.find(&GString::from("e")).is_none());
}

#[test]
fn find_str_first_match() {
    let g = GString::from(S);
    assert_eq!(g.find_str("a\u{310}"), Some(0));
    assert_eq!(g.find_str("e\u{301}"), Some(1));
    assert_eq!(g.find_str("o\u{308}\u{332}"), Some(2));
    assert!(g.find_str("nonexistent").is_none());
}

#[test]
fn find_from_offsets() {
    let g = GString::from("abc abc");
    assert_eq!(g.find_from(0, &GString::from("abc")), Some(0));
    assert_eq!(g.find_from(1, &GString::from("abc")), Some(4));
    assert_eq!(g.find_from(5, &GString::from("abc")), None);
    assert!(g.find_from(0, &GString::from("nonexistent")).is_none());
    assert_eq!(g.find_from_str(0, "abc"), Some(0));
    assert_eq!(g.find_from_str(1, "abc"), Some(4));
    assert!(g.find_from_str(0, "nonexistent").is_none());
}

#[test]
fn find_prev_from_offsets() {
    let g = GString::from("abc abc");
    assert_eq!(g.find_prev_from(7, &GString::from("abc")), Some(4));
    assert_eq!(g.find_prev_from(4, &GString::from("abc")), Some(0));
    assert_eq!(g.find_prev_from(6, &GString::from("abc")), Some(0));
    assert_eq!(g.find_prev_from(2, &GString::from("abc")), None);
    assert!(g.find_prev_from(7, &GString::from("nonexistent")).is_none());
    assert_eq!(g.find_prev_from_str(7, "abc"), Some(4));
    assert_eq!(g.find_prev_from_str(4, "abc"), Some(0));
    assert!(g.find_prev_from_str(7, "nonexistent").is_none());
}

fn brute_force(hay: &[&str], pat: &[&str], from: usize, before: Option<usize>) -> Option<usize> {
    let mut found = None;
    let mut i = from;
    while i + pat.len() <= hay.len() {
        if hay[i..i + pat.len()] == *pat {
            match before {
                None => return Some(i),
                Some(n) if i + pat.len() <= n => found = Some(i),
                _ => {}
            }
        }
        i += 1;
    }
    found
}

#[test]
fn search_agrees_with_brute_force() {
    let text = "ab\nab\r\nbab";
    let g = GString::from(text);
    let all = g.graphemes().iter().map(|x| x.to_string()).collect::<Vec<_>>();
    let hay: Vec<&str> = all.iter().map(|s| s.as_str()).collect();
    for pat in ["a", "ab", "b\n", "\r\n", "bab", "zz", "ab\nab\r\nbab"] {
        let p = GString::from(pat);
        let ps = p.graphemes().iter().map(|x| x.to_string()).collect::<Vec<_>>();
        let pv: Vec<&str> = ps.iter().map(|s| s.as_str()).collect();
        assert_eq!(g.find(&p), brute_force(&hay, &pv, 0, None));
        for n in 0..=g.len() {
            assert_eq!(g.find_from(n, &p), brute_force(&hay, &pv, n, None));
            assert_eq!(g.find_prev_from(n, &p), brute_force(&hay, &pv, 0, Some(n)));
        }
    }
}

#[test]
fn iter_by_reference() {
    let s = GString::from(S);
    let mut i = s.iter();
    assert_eq!(i.next().unwrap().as_str(), "a\u{310}");
    assert_eq!(i.next().unwrap().as_str(), "e\u{301}");
    assert_eq!(i.next().unwrap().as_str(), "o\u{308}\u{332}");
    assert_eq!(i.next(), None);
    assert_eq!(i.next(), None);
}

#[test]
fn iter_by_value() {
    let mut i = GString::from(S).into_iter();
    assert_eq!(i.next().unwrap(), Grapheme::from("a\u{310}").unwrap());
    assert_eq!(i.next().unwrap().as_str(), "e\u{301}");
    assert_eq!(i.next().unwrap().as_str(), "o\u{308}\u{332}");
    assert_eq!(i.next(), None);
}

#[test]
fn shape_string_grid() {
    let s = GString::from("a\nbc\ndef\nghij");
    let expected = "  0 1 2 3 4\n\
                    \n  0 1\n0 a \\n\n  0 1\n\
                    \n  0 1 2\n1 b c \\n\n  2 3 4\n\
                    \n  0 1 2 3\n2 d e f \\n\n  5 6 7 8\n\
                    \n  0 1 2 3 4\n3 g h i j\n  0 1 1 1 1\n  9 0 1 2 3\n\n";
    assert_eq!(s.shape_string(), expected);
}

#[test]
fn shape_string_empty_text() {
    assert_eq!(GString::new().shape_string(), "  0 1\n\n  0 1\n0 \n  0 1\n\n");
}

#[test]
fn shape_string_escapes_crlf() {
    let s = GString::from("a\r\nb");
    assert_eq!(
        s.shape_string(),
        "  0 1\n\n  0 1\n0 a \\r\\n\n  0 1\n\n  0 1\n1 b\n  2 3\n\n"
    );
}

#[test]
fn shape_string_wide_labels() {
    let s = GString::from("\n\n\n\n\n\n\n\n\n\nabcdefghijk");
    let out = s.shape_string();
    let lines: Vec<&str> = out.lines().collect();
    // Two-digit column scale on top: columns 0..=11.
    assert_eq!(lines[0], "   0 0 0 0 0 0 0 0 0 0 1 1");
    assert_eq!(lines[1], "   0 1 2 3 4 5 6 7 8 9 0 1");
    assert_eq!(lines[2], "");
    // First line: one newline cluster, labelled with a padded row index.
    assert_eq!(lines[3], "   0");
    assert_eq!(lines[4], "00 \\n");
    assert!(out.contains("\n10 a b c d e f g h i j k\n"));
}
