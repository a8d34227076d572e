use stakker_log::kvdisp;
use stakker_log::kvjson;
use stakker_log::sink::Sink;
use stakker_log::Visitable;

fn line_render(kvscan: &dyn Fn(&mut kvdisp::Visitor), start: &str, prefix: &str, suffix: &str)
    -> Option<String> {
    let sink = Sink::new(start.to_string());
    let mut v = kvdisp::Visitor::new(sink, prefix);
    kvscan(&mut v);
    v.finish(suffix).map(|s| s.into_string())
}

fn json_render(kvscan: &dyn Fn(&mut kvjson::Visitor), start: &str, prefix: &str, suffix: &str)
    -> Option<String> {
    let sink = Sink::new(start.to_string());
    let mut v = kvjson::Visitor::new(sink, prefix);
    kvscan(&mut v);
    v.finish(suffix).map(|s| s.into_string())
}

/// The fixed literal scenario: three scalars and a one-entry map,
/// rendered onto existing text, in both encodings.
#[test]
fn literal_scenario() {
    let line = line_render(
        &|v| {
            v.kv_u64(Some("u64"), 123456789);
            v.kv_str(Some("str"), "ABCDEFGHIJ");
            v.kv_map(Some("map"));
            v.kv_bool(Some("b"), false);
            v.kv_mapend(Some("map"));
        },
        "dummy=1",
        " ",
        "",
    )
    .unwrap();
    assert_eq!(line, "dummy=1 u64=123456789 str=ABCDEFGHIJ map{b=false}");

    let json = json_render(
        &|v| {
            v.kv_u64(Some("u64"), 123456789);
            v.kv_str(Some("str"), "ABCDEFGHIJ");
            v.kv_map(Some("map"));
            v.kv_bool(Some("b"), false);
            v.kv_mapend(Some("map"));
        },
        "{\"dummy\":1",
        ",",
        "",
    )
    .unwrap();
    assert_eq!(json, "{\"dummy\":1,\"u64\":123456789,\"str\":\"ABCDEFGHIJ\",\"map\":{\"b\":false}");
}

/// Rendering the same events twice through fresh renderers yields
/// byte-identical output.
#[test]
fn render_twice_identical() {
    let scan = |v: &mut kvdisp::Visitor| {
        v.kv_str(Some("a"), "x y");
        v.kv_arr(Some("b"));
        v.kv_u64(None, 7);
        v.kv_arrend(Some("b"));
    };
    let one = line_render(&scan, "", "<", ">").unwrap();
    let two = line_render(&scan, "", "<", ">").unwrap();
    assert_eq!(one, two);

    let jscan = |v: &mut kvjson::Visitor| {
        v.kv_str(Some("a"), "x y");
        v.kv_null(Some("n"));
    };
    let jone = json_render(&jscan, "", "<", ">").unwrap();
    let jtwo = json_render(&jscan, "", "<", ">").unwrap();
    assert_eq!(jone, jtwo);
}

/// A traversal that emits nothing produces neither prefix nor suffix.
#[test]
fn empty_traversal_emits_nothing() {
    let line = line_render(&|_v| {}, "before", " ", " after").unwrap();
    assert_eq!(line, "before");
    let json = json_render(&|_v| {}, "{\"dummy\":1", ",\"kv\":{", "}").unwrap();
    assert_eq!(json, "{\"dummy\":1");
}

/// A single-line value with a reserved character is quoted with exact
/// two-digit uppercase hex escapes; one without appears verbatim.
#[test]
fn single_line_escaping() {
    let quoted = line_render(&|v| v.kv_str(Some("k"), "a\x01b\"c\\d e"), "", "", "").unwrap();
    assert_eq!(quoted, "k=\"a\\01b\\22c\\5Cd e\"");
    let plain = line_render(&|v| v.kv_str(Some("k"), "plain.text!"), "", "", "").unwrap();
    assert_eq!(plain, "k=plain.text!");
    // A reserved character in a key is escaped; an empty key shows as
    // the space escape placeholder.
    let keyed = line_render(&|v| v.kv_u64(Some("a b"), 1), "", "", "").unwrap();
    assert_eq!(keyed, "a\\20b=1");
    let empty_key = line_render(&|v| v.kv_null(Some("")), "", "", "").unwrap();
    assert_eq!(empty_key, "\\20");
}

/// The JSON renderer's output parses back to the values that were
/// emitted, control characters, quotes and backslashes included.
#[test]
fn json_parses_back() {
    let json = json_render(
        &|v| {
            v.kv_u64(Some("u"), 18446744073709551615);
            v.kv_i64(Some("i"), i64::MIN);
            v.kv_bool(Some("b"), true);
            v.kv_null(Some("n"));
            v.kv_str(Some("s"), "a\tb\"c\\d\u{1F600}");
            v.kv_map(Some("m"));
            v.kv_arr(Some("inner"));
            v.kv_u64(None, 5);
            v.kv_arrend(Some("inner"));
            v.kv_mapend(Some("m"));
        },
        "{",
        "",
        "}",
    )
    .unwrap();
    let parsed: serde_json::Value = serde_json::from_str(&json).unwrap();
    assert_eq!(parsed["u"].as_u64(), Some(18446744073709551615));
    assert_eq!(parsed["i"].as_i64(), Some(-9223372036854775808));
    assert_eq!(parsed["b"].as_bool(), Some(true));
    assert!(parsed["n"].is_null());
    assert_eq!(parsed["s"].as_str(), Some("a\tb\"c\\d\u{1F600}"));
    assert_eq!(parsed["m"]["inner"][0].as_u64(), Some(5));
}

/// N sibling items carry exactly N - 1 separators between them.
#[test]
fn separator_counts() {
    let line = line_render(
        &|v| {
            v.kv_u64(Some("a"), 1);
            v.kv_u64(Some("b"), 2);
            v.kv_u64(Some("c"), 3);
            v.kv_u64(Some("d"), 4);
        },
        "",
        "",
        "",
    )
    .unwrap();
    assert_eq!(line, "a=1 b=2 c=3 d=4");
    assert_eq!(line.matches(' ').count(), 3);

    let json = json_render(
        &|v| {
            v.kv_u64(Some("a"), 1);
            v.kv_u64(Some("b"), 2);
            v.kv_u64(Some("c"), 3);
            v.kv_u64(Some("d"), 4);
        },
        "",
        "",
        "",
    )
    .unwrap();
    assert_eq!(json, "\"a\":1,\"b\":2,\"c\":3,\"d\":4");
    assert_eq!(json.matches(',').count(), 3);
}

/// An open immediately followed by its close gives the empty
/// container forms.
#[test]
fn empty_containers() {
    let line = line_render(
        &|v| {
            v.kv_map(Some("m"));
            v.kv_mapend(Some("m"));
            v.kv_arr(Some("a"));
            v.kv_arrend(Some("a"));
        },
        "",
        "",
        "",
    )
    .unwrap();
    assert_eq!(line, "m{} a[]");

    let json = json_render(
        &|v| {
            v.kv_map(Some("m"));
            v.kv_mapend(Some("m"));
            v.kv_arr(Some("a"));
            v.kv_arrend(Some("a"));
        },
        "",
        "",
        "",
    )
    .unwrap();
    assert_eq!(json, "\"m\":{},\"a\":[]");
}

/// A refused write sets the sticky error flag: the traversal still
/// runs to completion and the failure surfaces only at the end.
#[test]
fn bounded_sink_reports_failure() {
    let sink = Sink::bounded(String::new(), 4);
    let mut v = kvdisp::Visitor::new(sink, "");
    v.kv_u64(Some("key"), 123456789);
    v.kv_str(Some("more"), "text");
    assert!(v.finish("").is_none());

    // The same events fit in a roomier sink.
    let sink = Sink::bounded(String::new(), 100);
    let mut v = kvdisp::Visitor::new(sink, "");
    v.kv_u64(Some("key"), 123456789);
    v.kv_str(Some("more"), "text");
    assert_eq!(v.finish("").unwrap().into_string(), "key=123456789 more=text");

    // A suffix that does not fit also fails the render.
    let sink = Sink::bounded(String::new(), 5);
    let mut v = kvjson::Visitor::new(sink, "");
    v.kv_u64(Some("k"), 1);
    assert!(v.finish("and much more").is_none());
}

/// The escaping helpers, driven directly: quoting triggers on any
/// reserved character, but inside the quotes only control characters,
/// the quote and the backslash are escaped.
#[test]
fn escape_helpers() {
    assert!(kvdisp::is_reserved(' '));
    assert!(kvdisp::is_reserved('='));
    assert!(kvdisp::is_reserved('{'));
    assert!(kvdisp::is_reserved('\x1F'));
    assert!(!kvdisp::is_reserved('a'));
    assert!(!kvdisp::is_reserved('\u{00E9}'));

    let mut s = String::new();
    kvdisp::push_str_val(&mut s, "a=b");
    assert_eq!(s, "\"a=b\"");
    let mut s = String::new();
    kvdisp::push_str_val(&mut s, "tab\there");
    assert_eq!(s, "\"tab\\09here\"");
    let mut s = String::new();
    kvdisp::push_str_val(&mut s, "bare");
    assert_eq!(s, "bare");

    let mut s = String::new();
    kvjson::push_str_literal(&mut s, "a\"b\\c\x02d");
    assert_eq!(s, "\"a\\\"b\\\\c\\u0002d\"");
    let mut s = String::new();
    kvjson::push_str_literal(&mut s, "bare");
    assert_eq!(s, "\"bare\"");
}

/// `push_key` alone writes the pending separator, the escaped key
/// and its separator character, and marks the render non-empty.
#[test]
fn push_key_direct() {
    let mut v = kvdisp::Visitor::new(Sink::new(String::new()), ">");
    v.push_key(Some("k v"), Some('='));
    assert_eq!(v.finish("!").unwrap().into_string(), ">k\\20v=!");

    let mut v = kvjson::Visitor::new(Sink::new(String::new()), ">");
    v.push_key(Some("k"));
    assert_eq!(v.finish("!").unwrap().into_string(), ">\"k\":!");
}

/// Decimal rendering at the numeric extremes.
#[test]
fn numeric_extremes() {
    let line = line_render(
        &|v| {
            v.kv_u64(Some("max"), u64::MAX);
            v.kv_u64(Some("zero"), 0);
            v.kv_i64(Some("min"), i64::MIN);
            v.kv_i64(Some("neg"), -1);
        },
        "",
        "",
        "",
    )
    .unwrap();
    assert_eq!(line, "max=18446744073709551615 zero=0 min=-9223372036854775808 neg=-1");
}

/// The dispatch layer widens scalars and walks sequences.
#[test]
fn visitable_dispatch() {
    let sink = Sink::new(String::new());
    let mut v = kvdisp::Visitor::new(sink, "");
    let a: u8 = 7;
    let b: i16 = -20;
    let c: bool = true;
    let d: () = ();
    let e: &str = "word";
    let f: String = "two words".to_string();
    let g: char = 'Z';
    let h: u128 = 340282366920938463463374607431768211455;
    let i: i128 = i128::MIN;
    let j: Vec<u64> = vec![1, 2, 3];
    a.visit(Some("a"), &mut v);
    b.visit(Some("b"), &mut v);
    c.visit(Some("c"), &mut v);
    d.visit(Some("d"), &mut v);
    e.visit(Some("e"), &mut v);
    f.visit(Some("f"), &mut v);
    g.visit(Some("g"), &mut v);
    h.visit(Some("h"), &mut v);
    i.visit(Some("i"), &mut v);
    j.visit(Some("j"), &mut v);
    let out = v.finish("").unwrap().into_string();
    assert_eq!(
        out,
        "a=7 b=-20 c=true d e=word f=\"two words\" g=Z \
         h=340282366920938463463374607431768211455 \
         i=-170141183460469231731687303715884105728 j[1 2 3]"
    );

    let sink = Sink::new(String::new());
    let mut v = kvjson::Visitor::new(sink, "");
    let nested: Vec<Vec<u64>> = vec![vec![1], vec![], vec![2, 3]];
    nested.visit(Some("n"), &mut v);
    let out = v.finish("").unwrap().into_string();
    assert_eq!(out, "\"n\":[[1],[],[2,3]]");
}
