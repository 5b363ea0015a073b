//! Property-style checks: the builder's validation, group isolation,
//! determinism, and the packed accessors.

use mime2ext::data::builtin_table;
use mime2ext::mime2ext;
use mime2ext::table::MimeTable;

fn rows(groups: &[(&'static str, &[(&'static str, &'static str)])]) -> Vec<(
    &'static str,
    Vec<(&'static str, &'static str)>,
)> {
    groups.iter().map(|(name, pairs)| (*name, pairs.to_vec())).collect()
}

#[test]
fn builder_accepts_sorted_rows() {
    let r = rows(&[("text", &[("foo", "bar"), ("goo", "gx")])]);
    let t = MimeTable::from_rows(&r);
    assert!(t.is_some());
}

#[test]
fn builder_rejects_unsorted_rows() {
    let r = rows(&[("text", &[("goo", "gx"), ("foo", "bar")])]);
    assert!(MimeTable::from_rows(&r).is_none());
}

#[test]
fn builder_rejects_duplicate_subtype() {
    let r = rows(&[("text", &[("foo", "bar"), ("foo", "baz")])]);
    assert!(MimeTable::from_rows(&r).is_none());
}

#[test]
fn builder_rejects_duplicate_group() {
    let r = rows(&[("text", &[("foo", "bar")]), ("text", &[("goo", "gx")])]);
    assert!(MimeTable::from_rows(&r).is_none());
}

#[test]
fn builder_rejects_bad_strings() {
    // empty subtype
    let r = rows(&[("text", &[("", "bar")])]);
    assert!(MimeTable::from_rows(&r).is_none());
    // empty extension
    let r = rows(&[("text", &[("foo", "")])]);
    assert!(MimeTable::from_rows(&r).is_none());
    // empty group name
    let r = rows(&[("", &[("foo", "bar")])]);
    assert!(MimeTable::from_rows(&r).is_none());
    // slash in subtype
    let r = rows(&[("text", &[("f/oo", "bar")])]);
    assert!(MimeTable::from_rows(&r).is_none());
    // semicolon in subtype
    let r = rows(&[("text", &[("f;oo", "bar")])]);
    assert!(MimeTable::from_rows(&r).is_none());
    // dot in extension
    let r = rows(&[("text", &[("foo", "b.ar")])]);
    assert!(MimeTable::from_rows(&r).is_none());
    // slash in group name
    let r = rows(&[("te/xt", &[("foo", "bar")])]);
    assert!(MimeTable::from_rows(&r).is_none());
    // non-ASCII subtype
    let r = rows(&[("text", &[("f\u{00B5}o", "bar")])]);
    assert!(MimeTable::from_rows(&r).is_none());
}

#[test]
fn builder_rejects_oversized_strings() {
    let long: &'static str = Box::leak("a".repeat(256).into_boxed_str());
    let r = rows(&[("text", &[(long, "bar")])]);
    assert!(MimeTable::from_rows(&r).is_none());
    let r = rows(&[("text", &[("foo", long)])]);
    assert!(MimeTable::from_rows(&r).is_none());
}

#[test]
fn builder_rejects_oversized_buffer() {
    // 129 groups of one pair of 255 + 255 bytes exceed the 16-bit buffer.
    let mut groups: Vec<(&'static str, Vec<(&'static str, &'static str)>)> = Vec::new();
    for i in 0..129 {
        let name: &'static str = Box::leak(format!("g{:03}", i).into_boxed_str());
        let sub: &'static str = Box::leak("s".repeat(255).into_boxed_str());
        let ext: &'static str = Box::leak("e".repeat(255).into_boxed_str());
        groups.push((name, vec![(sub, ext)]));
    }
    assert!(MimeTable::from_rows(&groups).is_none());
}

#[test]
fn no_cross_group_leakage() {
    let r = rows(&[
        ("audio", &[("bar", "b1")]),
        ("text", &[("foo", "f1")]),
        ("video", &[("foo", "f2")]),
    ]);
    let t = MimeTable::from_rows(&r).unwrap();
    assert_eq!(t.lookup(b"text/foo"), Some(&b"f1"[..]));
    assert_eq!(t.lookup(b"video/foo"), Some(&b"f2"[..]));
    assert_eq!(t.lookup(b"audio/foo"), None);
    assert_eq!(t.lookup(b"text/bar"), None);
    assert_eq!(t.lookup(b"audio/bar"), Some(&b"b1"[..]));
}

#[test]
fn lookup_strips_one_parameter() {
    let r = rows(&[("text", &[("foo", "f1")])]);
    let t = MimeTable::from_rows(&r).unwrap();
    assert_eq!(t.lookup(b"text/foo;q=1"), Some(&b"f1"[..]));
    assert_eq!(t.lookup(b"text/foo;"), Some(&b"f1"[..]));
    assert_eq!(t.lookup(b"text/foo ;"), None);
}

#[test]
fn repeated_calls_agree() {
    let inputs = ["image/png", "notareal/mimetype", "", "text/html; charset=UTF-8"];
    for input in inputs {
        let first = mime2ext(input);
        for _ in 0..3 {
            assert_eq!(mime2ext(input), first);
        }
    }
}

#[test]
fn builtin_table_validates() {
    // The built-in rows pass the builder's validation: the table is not empty.
    let t = builtin_table();
    assert_eq!(t.groups.len(), 8);
    assert!(t.raw.len() > 0);
}

#[test]
fn exact_buffer_layout() {
    // The packed buffer is the concatenation of subtype and extension bytes
    // in entry order, with no delimiters.
    let r = rows(&[("text", &[("ab", "c"), ("de", "fg")])]);
    let t = MimeTable::from_rows(&r).unwrap();
    assert_eq!(t.raw, b"abcdefg".to_vec());
    let g = &t.groups[0];
    assert_eq!(g.entries[0].location, 0);
    assert_eq!(g.entries[0].subtype_len, 2);
    assert_eq!(g.entries[0].extension_len, 1);
    assert_eq!(g.entries[1].location, 3);
    assert_eq!(g.entries[1].subtype_len, 2);
    assert_eq!(g.entries[1].extension_len, 2);
    assert_eq!(g.entries[0].subtype(&t.raw), b"ab");
    assert_eq!(g.entries[0].extension(&t.raw), b"c");
    assert_eq!(g.entries[1].subtype(&t.raw), b"de");
    assert_eq!(g.entries[1].extension(&t.raw), b"fg");
}
