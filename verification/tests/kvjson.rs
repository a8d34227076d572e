use stakker_log::kvjson::Visitor;
use stakker_log::sink::Sink;

fn kvscan_empty(_lv: &mut Visitor) {}

fn kvscan_simple(lv: &mut Visitor) {
    lv.kv_u64(Some("u64"), 123456789);
    lv.kv_str(Some("str"), "ABCDEFGHIJ");
}

fn kvscan_all(lv: &mut Visitor) {
    lv.kv_u64(Some("u64"), 123456789);
    lv.kv_i64(Some("i64"), -123456789);
    lv.kv_f64_text(Some("f64"), &format!("{}", 12345.6789_f64));
    lv.kv_bool(Some("b0"), false);
    lv.kv_bool(Some("b1"), true);
    lv.kv_null(Some("null"));
    lv.kv_str(Some("str"), "ABCDEFGHIJ");
    lv.kv_str(Some("str_ctrl"), "ABC\tDEF");
    lv.kv_str(Some("str_quote"), "ABC\"DEF\"GHI");
    lv.kv_str(Some("str_bsl"), "ABC\\DEF\\GHI");
    lv.kv_fmt(Some("fmt"), &format!("{}{}{}", "ABC", 123, "DEF"));
    lv.kv_map(Some("map"));
    lv.kv_u64(Some("map_u64"), 987654321);
    lv.kv_str(Some("map_str"), "JIHGFEDCBA");
    lv.kv_map(Some("map_nested"));
    lv.kv_bool(Some("map_nested_bool"), false);
    lv.kv_mapend(Some("map_nested"));
    lv.kv_mapend(Some("map"));
    lv.kv_map(Some("map_empty"));
    lv.kv_mapend(Some("map_empty"));
    lv.kv_arr(Some("arr"));
    lv.kv_u64(None, 987654321);
    lv.kv_str(None, "JIHGFEDCBA");
    lv.kv_arr(None);
    lv.kv_bool(None, true);
    lv.kv_arrend(None);
    lv.kv_arrend(Some("arr"));
    lv.kv_arr(Some("arr_empty"));
    lv.kv_arrend(Some("arr_empty"));
}

fn append(s: &mut String, kvscan: &dyn Fn(&mut Visitor), prefix: &str, suffix: &str) {
    let sink = Sink::new(std::mem::take(s));
    let mut v = Visitor::new(sink, prefix);
    kvscan(&mut v);
    let out = v.finish(suffix).expect("render failed");
    *s = out.into_string();
}

#[test]
fn kvjson_test() {
    // To verify JSON with `jq . -` (for example), run `cargo test
    // -- --nocapture` and paste in the printed JSON data
    let mut buf = "{\"dummy\":1".to_string();
    append(&mut buf, &kvscan_empty, ",", "");
    buf.push_str("}");
    println!("{}", buf);
    assert_eq!(buf, "{\"dummy\":1}");

    let mut buf = "{\"dummy\":1".to_string();
    append(&mut buf, &kvscan_simple, ",", "");
    buf.push_str("}");
    println!("{}", buf);
    assert_eq!(buf, "{\"dummy\":1,\"u64\":123456789,\"str\":\"ABCDEFGHIJ\"}");

    let mut buf = "{\"dummy\":1".to_string();
    append(&mut buf, &kvscan_empty, ",\"kv\":{", "}");
    buf.push_str("}");
    println!("{}", buf);
    assert_eq!(buf, "{\"dummy\":1}");

    let mut buf = "{\"dummy\":1".to_string();
    append(&mut buf, &kvscan_simple, ",\"kv\":{", "}");
    buf.push_str("}");
    println!("{}", buf);
    assert_eq!(buf, "{\"dummy\":1,\"kv\":{\"u64\":123456789,\"str\":\"ABCDEFGHIJ\"}}");

    let mut buf = "{\"dummy\":1".to_string();
    append(&mut buf, &kvscan_all, ",", "");
    buf.push_str("}");
    println!("{}", buf);
    assert_eq!(
        buf,
        "{\"dummy\":1,\"u64\":123456789,\"i64\":-123456789,\"f64\":12345.6789,\"b0\":false,\"b1\":true,\"null\":null,\"str\":\"ABCDEFGHIJ\",\"str_ctrl\":\"ABC\\u0009DEF\",\"str_quote\":\"ABC\\\"DEF\\\"GHI\",\"str_bsl\":\"ABC\\\\DEF\\\\GHI\",\"fmt\":\"ABC123DEF\",\"map\":{\"map_u64\":987654321,\"map_str\":\"JIHGFEDCBA\",\"map_nested\":{\"map_nested_bool\":false}},\"map_empty\":{},\"arr\":[987654321,\"JIHGFEDCBA\",[true]],\"arr_empty\":[]}"
    );
}
