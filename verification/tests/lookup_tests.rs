//! The behaviour of `mime2ext` and of the built-in table.

use mime2ext::data::builtin_table;
use mime2ext::mime2ext;
use mime2ext::table::Entry;

static NOT_FOUND: &'static [&'static str] = &[
    "notareal/mimetype",
    "noslash",
    "application/",
    "application/jpeg",
    "application////",
    "application/octet-stream/",
    "/application/octet-stream",
    "application/aaaaaaa",
    "application/zzzzzzz",
    "aaaaaaaa/jpeg",
    "zzzzzzzz/jpeg",
    "",
    "/",
    "//",
    "/;",
    "a/;",
    "/a;",
    "a/a;",
    ";;",
    ";",
    "\0",
    "\u{00B5}",
    "\u{00B5}\u{00B5}/\u{00B5}\u{00B5}",
    "\u{00B5}\u{00B5}/\u{00B5}\u{00B5}",
    "a\u{00B5}\u{00B5}//\u{00B5}\u{00B5}",
    "application/clr", // a known MIME type that carries no extension
    "x-conference/nonexistent",
    "text/html ;",                // bad semicolon position
    "application/xcap-error+xml", // dropped from the MIME database
    "image/hsj2",                 // dropped from the MIME database
];

#[test]
fn not_found() {
    for mimetype in NOT_FOUND {
        assert_eq!(mime2ext(*mimetype), None);
    }
}

static FOUND: &'static [(&'static str, &'static str)] = &[
    ("application/octet-stream", "bin"),
    ("image/png", "png"),
    ("application/davmount+xml", "davmount"),
    ("application/andrew-inset", "ez"),
    ("x-conference/x-cooltalk", "ice"),
    ("text/html; charset=UTF-8", "html"),
    ("text/xml;", "xml"),
    ("audio/amr", "amr"),
    ("model/vnd.sap.vds", "vds"),
    ("application/ecmascript", "ecma"),
    ("application/vnd.mapbox-vector-tile", "mvt"),
    ("model/step-xml+zip", "stpxz"),
    ("application/express", "exp"),
    ("text/vnd.familysearch.gedcom", "ged"),
    ("image/avci", "avci"),
    ("image/jxl", "jxl"),
    ("text/markdown", "md"),
    ("application/x-blender", "blend"),
    ("image/jpeg", "jpg"),
];

#[test]
fn found() {
    for &(mimetype, ext) in FOUND {
        assert_eq!(mime2ext(mimetype), Some(ext.to_string()));
    }
}

/// Make sure every entry can be retrieved (doesn't panic) and that its
/// contents are unsurprising.
#[test]
fn check_entries() {
    let t = builtin_table();
    for group in &t.groups {
        let type_ = String::from_utf8(group.name.clone()).unwrap();
        assert!(!type_.is_empty());
        assert!(!type_.contains('/'));

        // Required for binary search
        let mut sorted = group.entries.clone();
        sorted.sort_by(|a, b| a.subtype(&t.raw).cmp(b.subtype(&t.raw)));
        assert_eq!(group.entries, sorted);

        for entry in &group.entries {
            let subtype = core::str::from_utf8(entry.subtype(&t.raw)).unwrap();
            let ext = core::str::from_utf8(entry.extension(&t.raw)).unwrap();
            assert!(!subtype.is_empty());
            assert!(!subtype.contains('/'));
            assert!(!ext.is_empty());
            assert!(!ext.contains('.'));
            assert!(!ext.contains('/'));

            let mimetype = String::from(type_.as_str()) + "/" + subtype;
            assert_eq!(mime2ext(&mimetype), Some(ext.to_string()));
        }
    }
}

#[test]
fn check_sizes() {
    let t = builtin_table();
    assert_eq!(std::mem::size_of::<Entry>(), 4);
    assert!(t.raw.len() < u16::MAX as usize);
}
