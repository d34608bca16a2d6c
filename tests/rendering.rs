use json_pretty::color::use_color;
use json_pretty::keys::format_json_keys;
use json_pretty::path::{join_path, make_index_segment, make_key_segment};
use json_pretty::pretty::format_json;
use json_pretty::value::JsonValue;

fn s(t: &str) -> String {
    t.to_string()
}

fn num(t: &str) -> JsonValue {
    JsonValue::Number(s(t))
}

fn text(t: &str) -> JsonValue {
    JsonValue::Str(s(t))
}

fn obj(members: Vec<(&str, JsonValue)>) -> JsonValue {
    JsonValue::Object(members.into_iter().map(|(k, v)| (s(k), v)).collect())
}

fn pretty(v: &JsonValue, colored: bool) -> String {
    format_json(v, &Vec::new(), String::new(), false, colored)
}

fn list(v: &JsonValue, colored: bool) -> String {
    format_json_keys(v, &Vec::new(), String::new(), colored)
}

fn sample() -> JsonValue {
    obj(vec![
        ("a", num("1")),
        ("b", JsonValue::Array(vec![JsonValue::Bool(true), JsonValue::Null])),
    ])
}

#[test]
fn key_list_of_object_with_array() {
    assert_eq!(list(&sample(), false), ".a\n.b[0]\n.b[1]");
}

#[test]
fn key_list_of_nested_members() {
    let v = obj(vec![
        ("a", obj(vec![("b", num("1"))])),
        ("c", JsonValue::Array(vec![obj(vec![("d", JsonValue::Null)])])),
    ]);
    assert_eq!(list(&v, false), ".a.b\n.c[0].d");
}

#[test]
fn key_list_of_scalar_root_is_empty() {
    assert_eq!(list(&num("3"), false), "");
    assert_eq!(list(&text("x"), true), "");
    assert_eq!(list(&JsonValue::Null, false), "");
}

#[test]
fn key_list_of_root_array_has_no_leading_newline() {
    let v = JsonValue::Array(vec![obj(vec![("a", num("1"))]), obj(vec![("b", num("2"))])]);
    assert_eq!(list(&v, false), "[0].a\n[1].b");
}

#[test]
fn key_list_colored() {
    let v = obj(vec![("a", num("1"))]);
    assert_eq!(list(&v, true), "\x1b[1;34m.a\x1b[0m");
}

#[test]
fn key_list_appends_to_existing_text() {
    let v = obj(vec![("a", num("1"))]);
    assert_eq!(format_json_keys(&v, &Vec::new(), s("x"), false), "x\n.a");
}

#[test]
fn key_list_line_count_matches_leaves_when_members_hold_leaves() {
    let v = obj(vec![("a", num("1")), ("b", JsonValue::Bool(false)), ("c", text("z"))]);
    let out = list(&v, false);
    assert_eq!(out.split('\n').count(), 3);
}

#[test]
fn pretty_empty_object() {
    assert_eq!(pretty(&obj(vec![]), false), "{}");
}

#[test]
fn pretty_empty_array() {
    assert_eq!(pretty(&JsonValue::Array(vec![]), false), "[]");
}

#[test]
fn pretty_empty_containers_colored_have_no_newline() {
    assert!(!pretty(&obj(vec![]), true).contains('\n'));
    assert!(!pretty(&JsonValue::Array(vec![]), true).contains('\n'));
}

#[test]
fn pretty_array_of_number_and_string() {
    let v = JsonValue::Array(vec![num("1"), text("x")]);
    assert_eq!(pretty(&v, false), "[\n  1,\n  \"x\"\n]");
}

#[test]
fn pretty_object_with_array() {
    assert_eq!(
        pretty(&sample(), false),
        "{\n  .a: 1,\n  .b: [\n    true,\n    null\n  ]\n}"
    );
}

#[test]
fn pretty_nested_object_shows_full_paths() {
    let v = obj(vec![("a", obj(vec![("b", num("2.5"))]))]);
    assert_eq!(pretty(&v, false), "{\n  .a: {\n    .a.b: 2.5\n  }\n}");
}

#[test]
fn pretty_scalars() {
    assert_eq!(pretty(&JsonValue::Null, false), "null");
    assert_eq!(pretty(&JsonValue::Bool(true), false), "true");
    assert_eq!(pretty(&JsonValue::Bool(false), false), "false");
    assert_eq!(pretty(&num("-1e5"), false), "-1e5");
    assert_eq!(pretty(&text("hi there"), false), "\"hi there\"");
}

#[test]
fn pretty_trailing_value_gets_one_space() {
    let out = format_json(&num("7"), &vec![s(".a"), s(".b")], String::new(), true, false);
    assert_eq!(out, " 7");
    let out = format_json(&num("7"), &vec![s(".a"), s(".b")], String::new(), false, false);
    assert_eq!(out, "    7");
}

#[test]
fn pretty_colored_string_and_object() {
    let v = obj(vec![("k", text("v"))]);
    assert_eq!(
        pretty(&v, true),
        "\x1b[0m\x1b[1m{\x1b[0m\n  \x1b[1;34m.k\x1b[0m: \x1b[32m\"v\"\x1b[0m\n\x1b[0m\x1b[1m}\x1b[0m"
    );
}

#[test]
fn pretty_colored_commas() {
    let v = JsonValue::Array(vec![num("1"), num("2")]);
    assert_eq!(
        pretty(&v, true),
        "\x1b[0m\x1b[1m[\x1b[0m\n  1\x1b[0m\x1b[1m,\x1b[0m\n  2\n\x1b[0m\x1b[1m]\x1b[0m"
    );
}

#[test]
fn monochrome_output_has_no_escape() {
    let v = obj(vec![("a", JsonValue::Array(vec![text("x"), obj(vec![("b", num("1"))])]))]);
    assert!(!pretty(&v, false).contains('\x1b'));
    assert!(!list(&v, false).contains('\x1b'));
    assert!(pretty(&v, true).contains('\x1b'));
}

#[test]
fn monochrome_wins_over_forced_color() {
    assert!(!use_color(true, true, true));
    assert!(!use_color(true, true, false));
    let colored = use_color(true, true, true);
    assert!(!pretty(&sample(), colored).contains('\x1b'));
}

#[test]
fn color_policy_table() {
    assert!(use_color(true, false, false));
    assert!(use_color(false, false, true));
    assert!(!use_color(false, false, false));
    assert!(!use_color(false, true, true));
}

#[test]
fn listed_paths_precede_colons_in_rendering() {
    let v = obj(vec![
        ("a", obj(vec![("b", num("1"))])),
        ("c", JsonValue::Array(vec![obj(vec![("d", JsonValue::Null)])])),
    ]);
    let rendering = pretty(&v, false);
    assert_eq!(list(&v, false), ".a.b\n.c[0].d");
    assert!(rendering.contains("\n    .a.b:"));
    assert!(rendering.contains("\n      .c[0].d:"));
}

#[test]
fn index_segments_of_many_digits() {
    let mut elements = Vec::new();
    for _ in 0..11 {
        elements.push(obj(vec![("x", num("0"))]));
    }
    let v = JsonValue::Array(elements);
    let listing = list(&v, false);
    assert!(listing.ends_with("[9].x\n[10].x"));
    assert!(pretty(&v, false).contains("    [10].x: 0"));
}

#[test]
fn path_segments() {
    assert_eq!(make_key_segment(&s("name")), ".name");
    assert_eq!(make_index_segment(0), "[0]");
    assert_eq!(make_index_segment(1234567), "[1234567]");
    assert_eq!(join_path(&vec![s(".a"), s("[3]"), s(".b")]), ".a[3].b");
    assert_eq!(join_path(&Vec::new()), "");
}

#[test]
fn malformed_input_is_rejected_by_the_parser() {
    assert!(serde_json::from_str::<serde_json::Value>("{\"a\":}").is_err());
}

fn strip_layout(rendering: &str) -> String {
    let mut out = String::new();
    let mut in_string = false;
    for c in rendering.chars() {
        if in_string {
            out.push(c);
            in_string = c != '"';
        } else if c != ' ' && c != '\n' {
            out.push(c);
            in_string = c == '"';
        }
    }
    out
}

#[test]
fn rendering_without_layout_parses_back_to_the_document() {
    let v = JsonValue::Array(vec![
        num("1"),
        text("a b"),
        JsonValue::Array(vec![JsonValue::Null, JsonValue::Bool(false)]),
        obj(vec![]),
        num("-2.5e3"),
    ]);
    let compact = strip_layout(&pretty(&v, false));
    assert_eq!(compact, "[1,\"a b\",[null,false],{},-2.5e3]");
    let parsed: serde_json::Value = serde_json::from_str(&compact).unwrap();
    let expected: serde_json::Value =
        serde_json::from_str("[1, \"a b\", [null, false], {}, -2.5e3]").unwrap();
    assert_eq!(parsed, expected);
}

#[test]
fn rendering_of_members_is_not_json() {
    let compact = strip_layout(&pretty(&obj(vec![("a", num("1"))]), false));
    assert_eq!(compact, "{.a:1}");
    assert!(serde_json::from_str::<serde_json::Value>(&compact).is_err());
}

fn strip_codes(rendering: &str) -> String {
    let mut out = String::new();
    let mut in_code = false;
    for c in rendering.chars() {
        if in_code {
            in_code = c != 'm';
        } else if c == '\x1b' {
            in_code = true;
        } else {
            out.push(c);
        }
    }
    out
}

#[test]
fn colored_rendering_without_codes_is_monochrome() {
    let v = obj(vec![
        ("a", JsonValue::Array(vec![text("x"), num("2"), obj(vec![])])),
        ("b", obj(vec![("c", JsonValue::Null)])),
    ]);
    assert_eq!(strip_codes(&pretty(&v, true)), pretty(&v, false));
    let w = JsonValue::Array(vec![num("1"), text("y")]);
    assert_eq!(strip_layout(&strip_codes(&pretty(&w, true))), "[1,\"y\"]");
}

#[test]
fn key_list_skips_containers() {
    let v = obj(vec![
        ("a", obj(vec![("b", num("1"))])),
        ("c", JsonValue::Array(vec![])),
    ]);
    assert_eq!(list(&v, false), ".a.b");
}

#[test]
fn key_list_of_array_leaves() {
    let v = JsonValue::Array(vec![num("1"), JsonValue::Array(vec![text("z")])]);
    assert_eq!(list(&v, false), "[0]\n[1][0]");
}

#[test]
fn key_list_line_count_is_leaf_count() {
    let out = list(&sample(), false);
    assert_eq!(out.split('\n').count(), 3);
    assert_eq!(list(&obj(vec![("e", obj(vec![]))]), false), "");
}
