//! The built-in table data: a curated selection of MIME types with their
//! canonical file extensions, grouped by top-level type and sorted by
//! subtype in byte-wise ascending order.

use vstd::prelude::*;
use vstd::string::StringSliceAdditionalSpecFns;

use crate::builder::{entries_len, lemma_adjacent_sorted, model_fits, model_len, rows_model, rows_ok};
use crate::order::lex_lt;
use crate::table::{extension_ok, group_model_wf, name_ok, subtype_ok, MimeTable};

verus! {

/// The bytes of a subtype/extension pair of string literals.
pub open spec fn pair_model(sub: &str, ext: &str) -> (Seq<u8>, Seq<u8>) {
    (sub.spec_bytes(), ext.spec_bytes())
}

/// The `application` group's pairs.
pub open spec fn application_pairs() -> Seq<(Seq<u8>, Seq<u8>)> {
    seq![
        pair_model("andrew-inset", "ez"),
        pair_model("davmount+xml", "davmount"),
        pair_model("ecmascript", "ecma"),
        pair_model("express", "exp"),
        pair_model("gzip", "gz"),
        pair_model("javascript", "js"),
        pair_model("json", "json"),
        pair_model("msword", "doc"),
        pair_model("octet-stream", "bin"),
        pair_model("pdf", "pdf"),
        pair_model("vnd.mapbox-vector-tile", "mvt"),
        pair_model("x-blender", "blend"),
        pair_model("xhtml+xml", "xhtml"),
        pair_model("zip", "zip"),
    ]
}

/// The `audio` group's pairs.
pub open spec fn audio_pairs() -> Seq<(Seq<u8>, Seq<u8>)> {
    seq![
        pair_model("amr", "amr"),
        pair_model("mpeg", "mp3"),
        pair_model("ogg", "oga"),
        pair_model("wav", "wav"),
    ]
}

/// The `font` group's pairs.
pub open spec fn font_pairs() -> Seq<(Seq<u8>, Seq<u8>)> {
    seq![
        pair_model("otf", "otf"),
        pair_model("ttf", "ttf"),
        pair_model("woff", "woff"),
        pair_model("woff2", "woff2"),
    ]
}

/// The `image` group's pairs.
pub open spec fn image_pairs() -> Seq<(Seq<u8>, Seq<u8>)> {
    seq![
        pair_model("avci", "avci"),
        pair_model("gif", "gif"),
        pair_model("jpeg", "jpg"),
        pair_model("jxl", "jxl"),
        pair_model("png", "png"),
        pair_model("svg+xml", "svg"),
        pair_model("tiff", "tif"),
        pair_model("webp", "webp"),
    ]
}

/// The `model` group's pairs.
pub open spec fn model_pairs() -> Seq<(Seq<u8>, Seq<u8>)> {
    seq![
        pair_model("gltf+json", "gltf"),
        pair_model("step-xml+zip", "stpxz"),
        pair_model("stl", "stl"),
        pair_model("vnd.sap.vds", "vds"),
    ]
}

/// The `text` group's pairs.
pub open spec fn text_pairs() -> Seq<(Seq<u8>, Seq<u8>)> {
    seq![
        pair_model("calendar", "ics"),
        pair_model("css", "css"),
        pair_model("csv", "csv"),
        pair_model("html", "html"),
        pair_model("markdown", "md"),
        pair_model("plain", "txt"),
        pair_model("vnd.familysearch.gedcom", "ged"),
        pair_model("xml", "xml"),
    ]
}

/// The `video` group's pairs.
pub open spec fn video_pairs() -> Seq<(Seq<u8>, Seq<u8>)> {
    seq![
        pair_model("mp4", "mp4"),
        pair_model("mpeg", "mpg"),
        pair_model("ogg", "ogv"),
        pair_model("webm", "webm"),
    ]
}

/// The `x-conference` group's pairs.
pub open spec fn x_conference_pairs() -> Seq<(Seq<u8>, Seq<u8>)> {
    seq![pair_model("x-cooltalk", "ice")]
}

/// The whole built-in row list: every group with its pairs.
pub open spec fn builtin_rows_model() -> Seq<(Seq<u8>, Seq<(Seq<u8>, Seq<u8>)>)> {
    seq![
        ("application".spec_bytes(), application_pairs()),
        ("audio".spec_bytes(), audio_pairs()),
        ("font".spec_bytes(), font_pairs()),
        ("image".spec_bytes(), image_pairs()),
        ("model".spec_bytes(), model_pairs()),
        ("text".spec_bytes(), text_pairs()),
        ("video".spec_bytes(), video_pairs()),
        ("x-conference".spec_bytes(), x_conference_pairs()),
    ]
}

/// What the built-in table denotes: exactly the built-in rows, which
/// [`lemma_builtin_rows_ok`] shows the builder accepts.
pub open spec fn builtin_model() -> Seq<(Seq<u8>, Seq<(Seq<u8>, Seq<u8>)>)> {
    builtin_rows_model()
}

/// The bytes of a pair list's strings, as the row model reads them.
pub open spec fn pairs_bytes(v: Seq<(&str, &str)>) -> Seq<(Seq<u8>, Seq<u8>)> {
    v.map_values(|p: (&str, &str)| (p.0.spec_bytes(), p.1.spec_bytes()))
}

fn application_rows() -> (r: Vec<(&'static str, &'static str)>)
    ensures
        pairs_bytes(r@) == application_pairs(),
{
    let mut v: Vec<(&'static str, &'static str)> = Vec::new();
    v.push(("andrew-inset", "ez"));
    v.push(("davmount+xml", "davmount"));
    v.push(("ecmascript", "ecma"));
    v.push(("express", "exp"));
    v.push(("gzip", "gz"));
    v.push(("javascript", "js"));
    v.push(("json", "json"));
    v.push(("msword", "doc"));
    v.push(("octet-stream", "bin"));
    v.push(("pdf", "pdf"));
    v.push(("vnd.mapbox-vector-tile", "mvt"));
    v.push(("x-blender", "blend"));
    v.push(("xhtml+xml", "xhtml"));
    v.push(("zip", "zip"));
    proof {
        assert(pairs_bytes(v@) =~= application_pairs());
    }
    v
}

fn audio_rows() -> (r: Vec<(&'static str, &'static str)>)
    ensures
        pairs_bytes(r@) == audio_pairs(),
{
    let mut v: Vec<(&'static str, &'static str)> = Vec::new();
    v.push(("amr", "amr"));
    v.push(("mpeg", "mp3"));
    v.push(("ogg", "oga"));
    v.push(("wav", "wav"));
    proof {
        assert(pairs_bytes(v@) =~= audio_pairs());
    }
    v
}

fn font_rows() -> (r: Vec<(&'static str, &'static str)>)
    ensures
        pairs_bytes(r@) == font_pairs(),
{
    let mut v: Vec<(&'static str, &'static str)> = Vec::new();
    v.push(("otf", "otf"));
    v.push(("ttf", "ttf"));
    v.push(("woff", "woff"));
    v.push(("woff2", "woff2"));
    proof {
        assert(pairs_bytes(v@) =~= font_pairs());
    }
    v
}

fn image_rows() -> (r: Vec<(&'static str, &'static str)>)
    ensures
        pairs_bytes(r@) == image_pairs(),
{
    let mut v: Vec<(&'static str, &'static str)> = Vec::new();
    v.push(("avci", "avci"));
    v.push(("gif", "gif"));
    v.push(("jpeg", "jpg"));
    v.push(("jxl", "jxl"));
    v.push(("png", "png"));
    v.push(("svg+xml", "svg"));
    v.push(("tiff", "tif"));
    v.push(("webp", "webp"));
    proof {
        assert(pairs_bytes(v@) =~= image_pairs());
    }
    v
}

fn model_rows() -> (r: Vec<(&'static str, &'static str)>)
    ensures
        pairs_bytes(r@) == model_pairs(),
{
    let mut v: Vec<(&'static str, &'static str)> = Vec::new();
    v.push(("gltf+json", "gltf"));
    v.push(("step-xml+zip", "stpxz"));
    v.push(("stl", "stl"));
    v.push(("vnd.sap.vds", "vds"));
    proof {
        assert(pairs_bytes(v@) =~= model_pairs());
    }
    v
}

fn text_rows() -> (r: Vec<(&'static str, &'static str)>)
    ensures
        pairs_bytes(r@) == text_pairs(),
{
    let mut v: Vec<(&'static str, &'static str)> = Vec::new();
    v.push(("calendar", "ics"));
    v.push(("css", "css"));
    v.push(("csv", "csv"));
    v.push(("html", "html"));
    v.push(("markdown", "md"));
    v.push(("plain", "txt"));
    v.push(("vnd.familysearch.gedcom", "ged"));
    v.push(("xml", "xml"));
    proof {
        assert(pairs_bytes(v@) =~= text_pairs());
    }
    v
}

fn video_rows() -> (r: Vec<(&'static str, &'static str)>)
    ensures
        pairs_bytes(r@) == video_pairs(),
{
    let mut v: Vec<(&'static str, &'static str)> = Vec::new();
    v.push(("mp4", "mp4"));
    v.push(("mpeg", "mpg"));
    v.push(("ogg", "ogv"));
    v.push(("webm", "webm"));
    proof {
        assert(pairs_bytes(v@) =~= video_pairs());
    }
    v
}

fn x_conference_rows() -> (r: Vec<(&'static str, &'static str)>)
    ensures
        pairs_bytes(r@) == x_conference_pairs(),
{
    let mut v: Vec<(&'static str, &'static str)> = Vec::new();
    v.push(("x-cooltalk", "ice"));
    proof {
        assert(pairs_bytes(v@) =~= x_conference_pairs());
    }
    v
}

/// The built-in rows, as the builder takes them.
pub fn builtin_rows() -> (r: Vec<(&'static str, Vec<(&'static str, &'static str)>)>)
    ensures
        rows_model(r@) == builtin_rows_model(),
{
    let mut v: Vec<(&'static str, Vec<(&'static str, &'static str)>)> = Vec::new();
    v.push(("application", application_rows()));
    v.push(("audio", audio_rows()));
    v.push(("font", font_rows()));
    v.push(("image", image_rows()));
    v.push(("model", model_rows()));
    v.push(("text", text_rows()));
    v.push(("video", video_rows()));
    v.push(("x-conference", x_conference_rows()));
    proof {
        assert(rows_model(v@) =~= builtin_rows_model());
    }
    v
}

// Each group lemma below establishes, over the concrete literals, what the
// builder would otherwise only check at run time: revealing every literal
// pins its bytes, the adjacent comparisons give the strict subtype order,
// and the byte count of the group's strings is summed for the buffer bound.

#[verifier::rlimit(100)]
proof fn lemma_application_ok()
    ensures
        group_model_wf(("application".spec_bytes(), application_pairs())),
        entries_len(application_pairs()) == 173,
        forall|j: int|
            0 <= j < application_pairs().len() ==> (#[trigger] application_pairs()[j]).0.len() <= 0xff
                && application_pairs()[j].1.len() <= 0xff,
{
    reveal_strlit("application");
    vstd::utf8::is_ascii_chars_encode_utf8("application"@);
    reveal_strlit("andrew-inset");
    vstd::utf8::is_ascii_chars_encode_utf8("andrew-inset"@);
    reveal_strlit("ez");
    vstd::utf8::is_ascii_chars_encode_utf8("ez"@);
    reveal_strlit("davmount+xml");
    vstd::utf8::is_ascii_chars_encode_utf8("davmount+xml"@);
    reveal_strlit("davmount");
    vstd::utf8::is_ascii_chars_encode_utf8("davmount"@);
    reveal_strlit("ecmascript");
    vstd::utf8::is_ascii_chars_encode_utf8("ecmascript"@);
    reveal_strlit("ecma");
    vstd::utf8::is_ascii_chars_encode_utf8("ecma"@);
    reveal_strlit("express");
    vstd::utf8::is_ascii_chars_encode_utf8("express"@);
    reveal_strlit("exp");
    vstd::utf8::is_ascii_chars_encode_utf8("exp"@);
    reveal_strlit("gzip");
    vstd::utf8::is_ascii_chars_encode_utf8("gzip"@);
    reveal_strlit("gz");
    vstd::utf8::is_ascii_chars_encode_utf8("gz"@);
    reveal_strlit("javascript");
    vstd::utf8::is_ascii_chars_encode_utf8("javascript"@);
    reveal_strlit("js");
    vstd::utf8::is_ascii_chars_encode_utf8("js"@);
    reveal_strlit("json");
    vstd::utf8::is_ascii_chars_encode_utf8("json"@);
    reveal_strlit("msword");
    vstd::utf8::is_ascii_chars_encode_utf8("msword"@);
    reveal_strlit("doc");
    vstd::utf8::is_ascii_chars_encode_utf8("doc"@);
    reveal_strlit("octet-stream");
    vstd::utf8::is_ascii_chars_encode_utf8("octet-stream"@);
    reveal_strlit("bin");
    vstd::utf8::is_ascii_chars_encode_utf8("bin"@);
    reveal_strlit("pdf");
    vstd::utf8::is_ascii_chars_encode_utf8("pdf"@);
    reveal_strlit("vnd.mapbox-vector-tile");
    vstd::utf8::is_ascii_chars_encode_utf8("vnd.mapbox-vector-tile"@);
    reveal_strlit("mvt");
    vstd::utf8::is_ascii_chars_encode_utf8("mvt"@);
    reveal_strlit("x-blender");
    vstd::utf8::is_ascii_chars_encode_utf8("x-blender"@);
    reveal_strlit("blend");
    vstd::utf8::is_ascii_chars_encode_utf8("blend"@);
    reveal_strlit("xhtml+xml");
    vstd::utf8::is_ascii_chars_encode_utf8("xhtml+xml"@);
    reveal_strlit("xhtml");
    vstd::utf8::is_ascii_chars_encode_utf8("xhtml"@);
    reveal_strlit("zip");
    vstd::utf8::is_ascii_chars_encode_utf8("zip"@);
    assert(name_ok("application".spec_bytes()));
    assert(subtype_ok("andrew-inset".spec_bytes()));
    assert(subtype_ok("davmount+xml".spec_bytes()));
    assert(subtype_ok("ecmascript".spec_bytes()));
    assert(subtype_ok("express".spec_bytes()));
    assert(subtype_ok("gzip".spec_bytes()));
    assert(subtype_ok("javascript".spec_bytes()));
    assert(subtype_ok("json".spec_bytes()));
    assert(subtype_ok("msword".spec_bytes()));
    assert(subtype_ok("octet-stream".spec_bytes()));
    assert(subtype_ok("pdf".spec_bytes()));
    assert(subtype_ok("vnd.mapbox-vector-tile".spec_bytes()));
    assert(subtype_ok("x-blender".spec_bytes()));
    assert(subtype_ok("xhtml+xml".spec_bytes()));
    assert(subtype_ok("zip".spec_bytes()));
    assert(extension_ok("ez".spec_bytes()));
    assert(extension_ok("davmount".spec_bytes()));
    assert(extension_ok("ecma".spec_bytes()));
    assert(extension_ok("exp".spec_bytes()));
    assert(extension_ok("gz".spec_bytes()));
    assert(extension_ok("js".spec_bytes()));
    assert(extension_ok("json".spec_bytes()));
    assert(extension_ok("doc".spec_bytes()));
    assert(extension_ok("bin".spec_bytes()));
    assert(extension_ok("pdf".spec_bytes()));
    assert(extension_ok("mvt".spec_bytes()));
    assert(extension_ok("blend".spec_bytes()));
    assert(extension_ok("xhtml".spec_bytes()));
    assert(extension_ok("zip".spec_bytes()));
    assert(lex_lt("andrew-inset".spec_bytes(), "davmount+xml".spec_bytes())) by {
        reveal_with_fuel(lex_lt, 7);
    }
    assert(lex_lt("davmount+xml".spec_bytes(), "ecmascript".spec_bytes())) by {
        reveal_with_fuel(lex_lt, 7);
    }
    assert(lex_lt("ecmascript".spec_bytes(), "express".spec_bytes())) by {
        reveal_with_fuel(lex_lt, 7);
    }
    assert(lex_lt("express".spec_bytes(), "gzip".spec_bytes())) by {
        reveal_with_fuel(lex_lt, 7);
    }
    assert(lex_lt("gzip".spec_bytes(), "javascript".spec_bytes())) by {
        reveal_with_fuel(lex_lt, 7);
    }
    assert(lex_lt("javascript".spec_bytes(), "json".spec_bytes())) by {
        reveal_with_fuel(lex_lt, 7);
    }
    assert(lex_lt("json".spec_bytes(), "msword".spec_bytes())) by {
        reveal_with_fuel(lex_lt, 7);
    }
    assert(lex_lt("msword".spec_bytes(), "octet-stream".spec_bytes())) by {
        reveal_with_fuel(lex_lt, 7);
    }
    assert(lex_lt("octet-stream".spec_bytes(), "pdf".spec_bytes())) by {
        reveal_with_fuel(lex_lt, 7);
    }
    assert(lex_lt("pdf".spec_bytes(), "vnd.mapbox-vector-tile".spec_bytes())) by {
        reveal_with_fuel(lex_lt, 7);
    }
    assert(lex_lt("vnd.mapbox-vector-tile".spec_bytes(), "x-blender".spec_bytes())) by {
        reveal_with_fuel(lex_lt, 7);
    }
    assert(lex_lt("x-blender".spec_bytes(), "xhtml+xml".spec_bytes())) by {
        reveal_with_fuel(lex_lt, 7);
    }
    assert(lex_lt("xhtml+xml".spec_bytes(), "zip".spec_bytes())) by {
        reveal_with_fuel(lex_lt, 7);
    }
    assert forall|k: int| 0 <= k < application_pairs().len() - 1 implies lex_lt(
        (#[trigger] application_pairs()[k]).0,
        application_pairs()[k + 1].0,
    ) by {
    }
    lemma_adjacent_sorted(application_pairs());
    assert forall|j: int| 0 <= j < application_pairs().len() implies subtype_ok(
        (#[trigger] application_pairs()[j]).0,
    ) && extension_ok(application_pairs()[j].1) && application_pairs()[j].0.len() <= 0xff
        && application_pairs()[j].1.len() <= 0xff by {
    }
    assert(entries_len(application_pairs()) == 173) by {
        reveal_with_fuel(entries_len, 16);
    }
}

#[verifier::rlimit(100)]
proof fn lemma_audio_ok()
    ensures
        group_model_wf(("audio".spec_bytes(), audio_pairs())),
        entries_len(audio_pairs()) == 25,
        forall|j: int|
            0 <= j < audio_pairs().len() ==> (#[trigger] audio_pairs()[j]).0.len() <= 0xff
                && audio_pairs()[j].1.len() <= 0xff,
{
    reveal_strlit("audio");
    vstd::utf8::is_ascii_chars_encode_utf8("audio"@);
    reveal_strlit("amr");
    vstd::utf8::is_ascii_chars_encode_utf8("amr"@);
    reveal_strlit("mpeg");
    vstd::utf8::is_ascii_chars_encode_utf8("mpeg"@);
    reveal_strlit("mp3");
    vstd::utf8::is_ascii_chars_encode_utf8("mp3"@);
    reveal_strlit("ogg");
    vstd::utf8::is_ascii_chars_encode_utf8("ogg"@);
    reveal_strlit("oga");
    vstd::utf8::is_ascii_chars_encode_utf8("oga"@);
    reveal_strlit("wav");
    vstd::utf8::is_ascii_chars_encode_utf8("wav"@);
    assert(name_ok("audio".spec_bytes()));
    assert(subtype_ok("amr".spec_bytes()));
    assert(subtype_ok("mpeg".spec_bytes()));
    assert(subtype_ok("ogg".spec_bytes()));
    assert(subtype_ok("wav".spec_bytes()));
    assert(extension_ok("amr".spec_bytes()));
    assert(extension_ok("mp3".spec_bytes()));
    assert(extension_ok("oga".spec_bytes()));
    assert(extension_ok("wav".spec_bytes()));
    assert(lex_lt("amr".spec_bytes(), "mpeg".spec_bytes())) by {
        reveal_with_fuel(lex_lt, 7);
    }
    assert(lex_lt("mpeg".spec_bytes(), "ogg".spec_bytes())) by {
        reveal_with_fuel(lex_lt, 7);
    }
    assert(lex_lt("ogg".spec_bytes(), "wav".spec_bytes())) by {
        reveal_with_fuel(lex_lt, 7);
    }
    assert forall|k: int| 0 <= k < audio_pairs().len() - 1 implies lex_lt(
        (#[trigger] audio_pairs()[k]).0,
        audio_pairs()[k + 1].0,
    ) by {
    }
    lemma_adjacent_sorted(audio_pairs());
    assert forall|j: int| 0 <= j < audio_pairs().len() implies subtype_ok(
        (#[trigger] audio_pairs()[j]).0,
    ) && extension_ok(audio_pairs()[j].1) && audio_pairs()[j].0.len() <= 0xff
        && audio_pairs()[j].1.len() <= 0xff by {
    }
    assert(entries_len(audio_pairs()) == 25) by {
        reveal_with_fuel(entries_len, 6);
    }
}

#[verifier::rlimit(100)]
proof fn lemma_font_ok()
    ensures
        group_model_wf(("font".spec_bytes(), font_pairs())),
        entries_len(font_pairs()) == 30,
        forall|j: int|
            0 <= j < font_pairs().len() ==> (#[trigger] font_pairs()[j]).0.len() <= 0xff
                && font_pairs()[j].1.len() <= 0xff,
{
    reveal_strlit("font");
    vstd::utf8::is_ascii_chars_encode_utf8("font"@);
    reveal_strlit("otf");
    vstd::utf8::is_ascii_chars_encode_utf8("otf"@);
    reveal_strlit("ttf");
    vstd::utf8::is_ascii_chars_encode_utf8("ttf"@);
    reveal_strlit("woff");
    vstd::utf8::is_ascii_chars_encode_utf8("woff"@);
    reveal_strlit("woff2");
    vstd::utf8::is_ascii_chars_encode_utf8("woff2"@);
    assert(name_ok("font".spec_bytes()));
    assert(subtype_ok("otf".spec_bytes()));
    assert(subtype_ok("ttf".spec_bytes()));
    assert(subtype_ok("woff".spec_bytes()));
    assert(subtype_ok("woff2".spec_bytes()));
    assert(extension_ok("otf".spec_bytes()));
    assert(extension_ok("ttf".spec_bytes()));
    assert(extension_ok("woff".spec_bytes()));
    assert(extension_ok("woff2".spec_bytes()));
    assert(lex_lt("otf".spec_bytes(), "ttf".spec_bytes())) by {
        reveal_with_fuel(lex_lt, 7);
    }
    assert(lex_lt("ttf".spec_bytes(), "woff".spec_bytes())) by {
        reveal_with_fuel(lex_lt, 7);
    }
    assert(lex_lt("woff".spec_bytes(), "woff2".spec_bytes())) by {
        reveal_with_fuel(lex_lt, 7);
    }
    assert forall|k: int| 0 <= k < font_pairs().len() - 1 implies lex_lt(
        (#[trigger] font_pairs()[k]).0,
        font_pairs()[k + 1].0,
    ) by {
    }
    lemma_adjacent_sorted(font_pairs());
    assert forall|j: int| 0 <= j < font_pairs().len() implies subtype_ok(
        (#[trigger] font_pairs()[j]).0,
    ) && extension_ok(font_pairs()[j].1) && font_pairs()[j].0.len() <= 0xff
        && font_pairs()[j].1.len() <= 0xff by {
    }
    assert(entries_len(font_pairs()) == 30) by {
        reveal_with_fuel(entries_len, 6);
    }
}

#[verifier::rlimit(100)]
proof fn lemma_image_ok()
    ensures
        group_model_wf(("image".spec_bytes(), image_pairs())),
        entries_len(image_pairs()) == 58,
        forall|j: int|
            0 <= j < image_pairs().len() ==> (#[trigger] image_pairs()[j]).0.len() <= 0xff
                && image_pairs()[j].1.len() <= 0xff,
{
    reveal_strlit("image");
    vstd::utf8::is_ascii_chars_encode_utf8("image"@);
    reveal_strlit("avci");
    vstd::utf8::is_ascii_chars_encode_utf8("avci"@);
    reveal_strlit("gif");
    vstd::utf8::is_ascii_chars_encode_utf8("gif"@);
    reveal_strlit("jpeg");
    vstd::utf8::is_ascii_chars_encode_utf8("jpeg"@);
    reveal_strlit("jpg");
    vstd::utf8::is_ascii_chars_encode_utf8("jpg"@);
    reveal_strlit("jxl");
    vstd::utf8::is_ascii_chars_encode_utf8("jxl"@);
    reveal_strlit("png");
    vstd::utf8::is_ascii_chars_encode_utf8("png"@);
    reveal_strlit("svg+xml");
    vstd::utf8::is_ascii_chars_encode_utf8("svg+xml"@);
    reveal_strlit("svg");
    vstd::utf8::is_ascii_chars_encode_utf8("svg"@);
    reveal_strlit("tiff");
    vstd::utf8::is_ascii_chars_encode_utf8("tiff"@);
    reveal_strlit("tif");
    vstd::utf8::is_ascii_chars_encode_utf8("tif"@);
    reveal_strlit("webp");
    vstd::utf8::is_ascii_chars_encode_utf8("webp"@);
    assert(name_ok("image".spec_bytes()));
    assert(subtype_ok("avci".spec_bytes()));
    assert(subtype_ok("gif".spec_bytes()));
    assert(subtype_ok("jpeg".spec_bytes()));
    assert(subtype_ok("jxl".spec_bytes()));
    assert(subtype_ok("png".spec_bytes()));
    assert(subtype_ok("svg+xml".spec_bytes()));
    assert(subtype_ok("tiff".spec_bytes()));
    assert(subtype_ok("webp".spec_bytes()));
    assert(extension_ok("avci".spec_bytes()));
    assert(extension_ok("gif".spec_bytes()));
    assert(extension_ok("jpg".spec_bytes()));
    assert(extension_ok("jxl".spec_bytes()));
    assert(extension_ok("png".spec_bytes()));
    assert(extension_ok("svg".spec_bytes()));
    assert(extension_ok("tif".spec_bytes()));
    assert(extension_ok("webp".spec_bytes()));
    assert(lex_lt("avci".spec_bytes(), "gif".spec_bytes())) by {
        reveal_with_fuel(lex_lt, 7);
    }
    assert(lex_lt("gif".spec_bytes(), "jpeg".spec_bytes())) by {
        reveal_with_fuel(lex_lt, 7);
    }
    assert(lex_lt("jpeg".spec_bytes(), "jxl".spec_bytes())) by {
        reveal_with_fuel(lex_lt, 7);
    }
    assert(lex_lt("jxl".spec_bytes(), "png".spec_bytes())) by {
        reveal_with_fuel(lex_lt, 7);
    }
    assert(lex_lt("png".spec_bytes(), "svg+xml".spec_bytes())) by {
        reveal_with_fuel(lex_lt, 7);
    }
    assert(lex_lt("svg+xml".spec_bytes(), "tiff".spec_bytes())) by {
        reveal_with_fuel(lex_lt, 7);
    }
    assert(lex_lt("tiff".spec_bytes(), "webp".spec_bytes())) by {
        reveal_with_fuel(lex_lt, 7);
    }
    assert forall|k: int| 0 <= k < image_pairs().len() - 1 implies lex_lt(
        (#[trigger] image_pairs()[k]).0,
        image_pairs()[k + 1].0,
    ) by {
    }
    lemma_adjacent_sorted(image_pairs());
    assert forall|j: int| 0 <= j < image_pairs().len() implies subtype_ok(
        (#[trigger] image_pairs()[j]).0,
    ) && extension_ok(image_pairs()[j].1) && image_pairs()[j].0.len() <= 0xff
        && image_pairs()[j].1.len() <= 0xff by {
    }
    assert(entries_len(image_pairs()) == 58) by {
        reveal_with_fuel(entries_len, 10);
    }
}

#[verifier::rlimit(100)]
proof fn lemma_model_ok()
    ensures
        group_model_wf(("model".spec_bytes(), model_pairs())),
        entries_len(model_pairs()) == 50,
        forall|j: int|
            0 <= j < model_pairs().len() ==> (#[trigger] model_pairs()[j]).0.len() <= 0xff
                && model_pairs()[j].1.len() <= 0xff,
{
    reveal_strlit("model");
    vstd::utf8::is_ascii_chars_encode_utf8("model"@);
    reveal_strlit("gltf+json");
    vstd::utf8::is_ascii_chars_encode_utf8("gltf+json"@);
    reveal_strlit("gltf");
    vstd::utf8::is_ascii_chars_encode_utf8("gltf"@);
    reveal_strlit("step-xml+zip");
    vstd::utf8::is_ascii_chars_encode_utf8("step-xml+zip"@);
    reveal_strlit("stpxz");
    vstd::utf8::is_ascii_chars_encode_utf8("stpxz"@);
    reveal_strlit("stl");
    vstd::utf8::is_ascii_chars_encode_utf8("stl"@);
    reveal_strlit("vnd.sap.vds");
    vstd::utf8::is_ascii_chars_encode_utf8("vnd.sap.vds"@);
    reveal_strlit("vds");
    vstd::utf8::is_ascii_chars_encode_utf8("vds"@);
    assert(name_ok("model".spec_bytes()));
    assert(subtype_ok("gltf+json".spec_bytes()));
    assert(subtype_ok("step-xml+zip".spec_bytes()));
    assert(subtype_ok("stl".spec_bytes()));
    assert(subtype_ok("vnd.sap.vds".spec_bytes()));
    assert(extension_ok("gltf".spec_bytes()));
    assert(extension_ok("stpxz".spec_bytes()));
    assert(extension_ok("stl".spec_bytes()));
    assert(extension_ok("vds".spec_bytes()));
    assert(lex_lt("gltf+json".spec_bytes(), "step-xml+zip".spec_bytes())) by {
        reveal_with_fuel(lex_lt, 7);
    }
    assert(lex_lt("step-xml+zip".spec_bytes(), "stl".spec_bytes())) by {
        reveal_with_fuel(lex_lt, 7);
    }
    assert(lex_lt("stl".spec_bytes(), "vnd.sap.vds".spec_bytes())) by {
        reveal_with_fuel(lex_lt, 7);
    }
    assert forall|k: int| 0 <= k < model_pairs().len() - 1 implies lex_lt(
        (#[trigger] model_pairs()[k]).0,
        model_pairs()[k + 1].0,
    ) by {
    }
    lemma_adjacent_sorted(model_pairs());
    assert forall|j: int| 0 <= j < model_pairs().len() implies subtype_ok(
        (#[trigger] model_pairs()[j]).0,
    ) && extension_ok(model_pairs()[j].1) && model_pairs()[j].0.len() <= 0xff
        && model_pairs()[j].1.len() <= 0xff by {
    }
    assert(entries_len(model_pairs()) == 50) by {
        reveal_with_fuel(entries_len, 6);
    }
}

#[verifier::rlimit(100)]
proof fn lemma_text_ok()
    ensures
        group_model_wf(("text".spec_bytes(), text_pairs())),
        entries_len(text_pairs()) == 81,
        forall|j: int|
            0 <= j < text_pairs().len() ==> (#[trigger] text_pairs()[j]).0.len() <= 0xff
                && text_pairs()[j].1.len() <= 0xff,
{
    reveal_strlit("text");
    vstd::utf8::is_ascii_chars_encode_utf8("text"@);
    reveal_strlit("calendar");
    vstd::utf8::is_ascii_chars_encode_utf8("calendar"@);
    reveal_strlit("ics");
    vstd::utf8::is_ascii_chars_encode_utf8("ics"@);
    reveal_strlit("css");
    vstd::utf8::is_ascii_chars_encode_utf8("css"@);
    reveal_strlit("csv");
    vstd::utf8::is_ascii_chars_encode_utf8("csv"@);
    reveal_strlit("html");
    vstd::utf8::is_ascii_chars_encode_utf8("html"@);
    reveal_strlit("markdown");
    vstd::utf8::is_ascii_chars_encode_utf8("markdown"@);
    reveal_strlit("md");
    vstd::utf8::is_ascii_chars_encode_utf8("md"@);
    reveal_strlit("plain");
    vstd::utf8::is_ascii_chars_encode_utf8("plain"@);
    reveal_strlit("txt");
    vstd::utf8::is_ascii_chars_encode_utf8("txt"@);
    reveal_strlit("vnd.familysearch.gedcom");
    vstd::utf8::is_ascii_chars_encode_utf8("vnd.familysearch.gedcom"@);
    reveal_strlit("ged");
    vstd::utf8::is_ascii_chars_encode_utf8("ged"@);
    reveal_strlit("xml");
    vstd::utf8::is_ascii_chars_encode_utf8("xml"@);
    assert(name_ok("text".spec_bytes()));
    assert(subtype_ok("calendar".spec_bytes()));
    assert(subtype_ok("css".spec_bytes()));
    assert(subtype_ok("csv".spec_bytes()));
    assert(subtype_ok("html".spec_bytes()));
    assert(subtype_ok("markdown".spec_bytes()));
    assert(subtype_ok("plain".spec_bytes()));
    assert(subtype_ok("vnd.familysearch.gedcom".spec_bytes()));
    assert(subtype_ok("xml".spec_bytes()));
    assert(extension_ok("ics".spec_bytes()));
    assert(extension_ok("css".spec_bytes()));
    assert(extension_ok("csv".spec_bytes()));
    assert(extension_ok("html".spec_bytes()));
    assert(extension_ok("md".spec_bytes()));
    assert(extension_ok("txt".spec_bytes()));
    assert(extension_ok("ged".spec_bytes()));
    assert(extension_ok("xml".spec_bytes()));
    assert(lex_lt("calendar".spec_bytes(), "css".spec_bytes())) by {
        reveal_with_fuel(lex_lt, 7);
    }
    assert(lex_lt("css".spec_bytes(), "csv".spec_bytes())) by {
        reveal_with_fuel(lex_lt, 7);
    }
    assert(lex_lt("csv".spec_bytes(), "html".spec_bytes())) by {
        reveal_with_fuel(lex_lt, 7);
    }
    assert(lex_lt("html".spec_bytes(), "markdown".spec_bytes())) by {
        reveal_with_fuel(lex_lt, 7);
    }
    assert(lex_lt("markdown".spec_bytes(), "plain".spec_bytes())) by {
        reveal_with_fuel(lex_lt, 7);
    }
    assert(lex_lt("plain".spec_bytes(), "vnd.familysearch.gedcom".spec_bytes())) by {
        reveal_with_fuel(lex_lt, 7);
    }
    assert(lex_lt("vnd.familysearch.gedcom".spec_bytes(), "xml".spec_bytes())) by {
        reveal_with_fuel(lex_lt, 7);
    }
    assert forall|k: int| 0 <= k < text_pairs().len() - 1 implies lex_lt(
        (#[trigger] text_pairs()[k]).0,
        text_pairs()[k + 1].0,
    ) by {
    }
    lemma_adjacent_sorted(text_pairs());
    assert forall|j: int| 0 <= j < text_pairs().len() implies subtype_ok(
        (#[trigger] text_pairs()[j]).0,
    ) && extension_ok(text_pairs()[j].1) && text_pairs()[j].0.len() <= 0xff
        && text_pairs()[j].1.len() <= 0xff by {
    }
    assert(entries_len(text_pairs()) == 81) by {
        reveal_with_fuel(entries_len, 10);
    }
}

#[verifier::rlimit(100)]
proof fn lemma_video_ok()
    ensures
        group_model_wf(("video".spec_bytes(), video_pairs())),
        entries_len(video_pairs()) == 27,
        forall|j: int|
            0 <= j < video_pairs().len() ==> (#[trigger] video_pairs()[j]).0.len() <= 0xff
                && video_pairs()[j].1.len() <= 0xff,
{
    reveal_strlit("video");
    vstd::utf8::is_ascii_chars_encode_utf8("video"@);
    reveal_strlit("mp4");
    vstd::utf8::is_ascii_chars_encode_utf8("mp4"@);
    reveal_strlit("mpeg");
    vstd::utf8::is_ascii_chars_encode_utf8("mpeg"@);
    reveal_strlit("mpg");
    vstd::utf8::is_ascii_chars_encode_utf8("mpg"@);
    reveal_strlit("ogg");
    vstd::utf8::is_ascii_chars_encode_utf8("ogg"@);
    reveal_strlit("ogv");
    vstd::utf8::is_ascii_chars_encode_utf8("ogv"@);
    reveal_strlit("webm");
    vstd::utf8::is_ascii_chars_encode_utf8("webm"@);
    assert(name_ok("video".spec_bytes()));
    assert(subtype_ok("mp4".spec_bytes()));
    assert(subtype_ok("mpeg".spec_bytes()));
    assert(subtype_ok("ogg".spec_bytes()));
    assert(subtype_ok("webm".spec_bytes()));
    assert(extension_ok("mp4".spec_bytes()));
    assert(extension_ok("mpg".spec_bytes()));
    assert(extension_ok("ogv".spec_bytes()));
    assert(extension_ok("webm".spec_bytes()));
    assert(lex_lt("mp4".spec_bytes(), "mpeg".spec_bytes())) by {
        reveal_with_fuel(lex_lt, 7);
    }
    assert(lex_lt("mpeg".spec_bytes(), "ogg".spec_bytes())) by {
        reveal_with_fuel(lex_lt, 7);
    }
    assert(lex_lt("ogg".spec_bytes(), "webm".spec_bytes())) by {
        reveal_with_fuel(lex_lt, 7);
    }
    assert forall|k: int| 0 <= k < video_pairs().len() - 1 implies lex_lt(
        (#[trigger] video_pairs()[k]).0,
        video_pairs()[k + 1].0,
    ) by {
    }
    lemma_adjacent_sorted(video_pairs());
    assert forall|j: int| 0 <= j < video_pairs().len() implies subtype_ok(
        (#[trigger] video_pairs()[j]).0,
    ) && extension_ok(video_pairs()[j].1) && video_pairs()[j].0.len() <= 0xff
        && video_pairs()[j].1.len() <= 0xff by {
    }
    assert(entries_len(video_pairs()) == 27) by {
        reveal_with_fuel(entries_len, 6);
    }
}

#[verifier::rlimit(100)]
proof fn lemma_x_conference_ok()
    ensures
        group_model_wf(("x-conference".spec_bytes(), x_conference_pairs())),
        entries_len(x_conference_pairs()) == 13,
        forall|j: int|
            0 <= j < x_conference_pairs().len() ==> (#[trigger] x_conference_pairs()[j]).0.len() <= 0xff
                && x_conference_pairs()[j].1.len() <= 0xff,
{
    reveal_strlit("x-conference");
    vstd::utf8::is_ascii_chars_encode_utf8("x-conference"@);
    reveal_strlit("x-cooltalk");
    vstd::utf8::is_ascii_chars_encode_utf8("x-cooltalk"@);
    reveal_strlit("ice");
    vstd::utf8::is_ascii_chars_encode_utf8("ice"@);
    assert(name_ok("x-conference".spec_bytes()));
    assert(subtype_ok("x-cooltalk".spec_bytes()));
    assert(extension_ok("ice".spec_bytes()));
    assert forall|k: int| 0 <= k < x_conference_pairs().len() - 1 implies lex_lt(
        (#[trigger] x_conference_pairs()[k]).0,
        x_conference_pairs()[k + 1].0,
    ) by {
    }
    lemma_adjacent_sorted(x_conference_pairs());
    assert forall|j: int| 0 <= j < x_conference_pairs().len() implies subtype_ok(
        (#[trigger] x_conference_pairs()[j]).0,
    ) && extension_ok(x_conference_pairs()[j].1) && x_conference_pairs()[j].0.len() <= 0xff
        && x_conference_pairs()[j].1.len() <= 0xff by {
    }
    assert(entries_len(x_conference_pairs()) == 13) by {
        reveal_with_fuel(entries_len, 3);
    }
}
#[verifier::rlimit(100)]
proof fn lemma_builtin_groups_wf()
    ensures
        forall|i: int|
            0 <= i < builtin_rows_model().len() ==> group_model_wf(
                #[trigger] builtin_rows_model()[i],
            ),
{
    lemma_application_ok();
    lemma_audio_ok();
    lemma_font_ok();
    lemma_image_ok();
    lemma_model_ok();
    lemma_text_ok();
    lemma_video_ok();
    lemma_x_conference_ok();
    assert forall|i: int| 0 <= i < builtin_rows_model().len() implies group_model_wf(
        #[trigger] builtin_rows_model()[i],
    ) by {
    }
}

#[verifier::rlimit(100)]
proof fn lemma_builtin_names_distinct()
    ensures
        forall|i: int, j: int|
            0 <= i < j < builtin_rows_model().len() ==> builtin_rows_model()[i].0
                != builtin_rows_model()[j].0,
{
    reveal_strlit("application");
    vstd::utf8::is_ascii_chars_encode_utf8("application"@);
    reveal_strlit("audio");
    vstd::utf8::is_ascii_chars_encode_utf8("audio"@);
    reveal_strlit("font");
    vstd::utf8::is_ascii_chars_encode_utf8("font"@);
    reveal_strlit("image");
    vstd::utf8::is_ascii_chars_encode_utf8("image"@);
    reveal_strlit("model");
    vstd::utf8::is_ascii_chars_encode_utf8("model"@);
    reveal_strlit("text");
    vstd::utf8::is_ascii_chars_encode_utf8("text"@);
    reveal_strlit("video");
    vstd::utf8::is_ascii_chars_encode_utf8("video"@);
    reveal_strlit("x-conference");
    vstd::utf8::is_ascii_chars_encode_utf8("x-conference"@);
    assert("application".spec_bytes().len() == 11);
    assert("audio".spec_bytes().len() == 5);
    assert("font".spec_bytes().len() == 4);
    assert("image".spec_bytes().len() == 5);
    assert("model".spec_bytes().len() == 5);
    assert("text".spec_bytes().len() == 4);
    assert("video".spec_bytes().len() == 5);
    assert("x-conference".spec_bytes().len() == 12);
    assert("audio".spec_bytes()[0] != "image".spec_bytes()[0]);
    assert("audio".spec_bytes()[0] != "model".spec_bytes()[0]);
    assert("audio".spec_bytes()[0] != "video".spec_bytes()[0]);
    assert("image".spec_bytes()[0] != "model".spec_bytes()[0]);
    assert("image".spec_bytes()[0] != "video".spec_bytes()[0]);
    assert("model".spec_bytes()[0] != "video".spec_bytes()[0]);
    assert("font".spec_bytes()[0] != "text".spec_bytes()[0]);
    assert forall|i: int, j: int| 0 <= i < j < builtin_rows_model().len() implies
        builtin_rows_model()[i].0 != builtin_rows_model()[j].0 by {
    }
}

#[verifier::rlimit(100)]
proof fn lemma_builtin_model_len()
    ensures
        model_len(builtin_rows_model()) == 457,
{
    lemma_application_ok();
    lemma_audio_ok();
    lemma_font_ok();
    lemma_image_ok();
    lemma_model_ok();
    lemma_text_ok();
    lemma_video_ok();
    lemma_x_conference_ok();
    assert(model_len(builtin_rows_model()) == 457) by {
        reveal_with_fuel(model_len, 10);
    }
}

/// The built-in rows pass the builder's validation: well-formed groups,
/// distinct names, and sizes that fit the packed encoding.
#[verifier::rlimit(100)]
pub proof fn lemma_builtin_rows_ok()
    ensures
        rows_ok(builtin_rows_model()),
{
    lemma_application_ok();
    lemma_audio_ok();
    lemma_font_ok();
    lemma_image_ok();
    lemma_model_ok();
    lemma_text_ok();
    lemma_video_ok();
    lemma_x_conference_ok();
    lemma_builtin_groups_wf();
    lemma_builtin_names_distinct();
    lemma_builtin_model_len();
    let m = builtin_rows_model();
    assert forall|i: int, j: int|
        0 <= i < m.len() && 0 <= j < m[i].1.len() implies (#[trigger] m[i].1[j]).0.len()
        <= 0xff && m[i].1[j].1.len() <= 0xff by {
    }
    assert(model_fits(m));
}

/// Build the built-in table. Its model is [`builtin_model`], so lookups
/// over it are a function of the input alone.
pub fn builtin_table() -> (t: MimeTable)
    ensures
        t.wf(),
        t.model() == builtin_model(),
{
    let rows = builtin_rows();
    proof {
        lemma_builtin_rows_ok();
    }
    match MimeTable::from_rows(&rows) {
        Some(t) => t,
        None => {
            proof {
                assert(false);
            }
            MimeTable::empty()
        },
    }
}

} // verus!
