use rusmt_lang::certify::{certify_toml, Verdict};
use rusmt_lang::markers::marker_name;
use rusmt_lang::toml::document::parse_toml;
use rusmt_lang::toml::scalar::DateTime;
use rusmt_lang::toml::value::{recursive_merge_tables, Table, Value};
use rusmt_lang::toml::ParseResult;

fn parse(src: &str) -> ParseResult<Value> {
    let chars: Vec<char> = src.chars().collect();
    parse_toml(&chars)
}

fn text(v: &[char]) -> String {
    v.iter().collect()
}

fn root(src: &str) -> Table {
    match parse(src) {
        ParseResult::Value(Value::Table(t), _) => t,
        ParseResult::Value(other, _) => panic!("not a table: {:?}", other),
        ParseResult::Error(m) => panic!("rejected with {}", marker_name(m)),
        ParseResult::NoMatch => panic!("no match"),
    }
}

fn error(src: &str) -> &'static str {
    match parse(src) {
        ParseResult::Error(m) => marker_name(m),
        ParseResult::Value(v, _) => panic!("accepted: {:?}", v),
        ParseResult::NoMatch => panic!("no match"),
    }
}

fn get<'a>(t: &'a Table, k: &str) -> &'a Value {
    let found: Vec<&Value> = t.entries.iter().filter(|(key, _)| text(key) == k).map(|(_, v)| v).collect();
    assert_eq!(found.len(), 1, "key {k} bound {} times", found.len());
    found[0]
}

fn as_int(v: &Value) -> i64 {
    match v {
        Value::Integer(i) => *i,
        other => panic!("not an integer: {:?}", other),
    }
}

fn string(v: &Value) -> String {
    match v {
        Value::String(s) => text(s),
        other => panic!("not a string: {:?}", other),
    }
}

fn table(v: &Value) -> &Table {
    match v {
        Value::Table(t) => t,
        other => panic!("not a table: {:?}", other),
    }
}

fn array(v: &Value) -> &Vec<Value> {
    match v {
        Value::Array(a) => a,
        other => panic!("not an array: {:?}", other),
    }
}

#[test]
fn empty_document_is_the_empty_table() {
    assert_eq!(root("").entries.len(), 0);
    assert_eq!(root("# only a comment\n\n").entries.len(), 0);
}

#[test]
fn key_value_pairs_bind_in_the_root_table() {
    let t = root("a = 1\nb = true\n");
    assert_eq!(t.entries.len(), 2);
    assert_eq!(as_int(get(&t, "a")), 1);
    assert!(matches!(get(&t, "b"), Value::Boolean(true)));
}

#[test]
fn dotted_keys_nest_and_merge() {
    let t = root("a.b = 1\na.c = 2");
    let a = table(get(&t, "a"));
    assert_eq!(as_int(get(a, "b")), 1);
    assert_eq!(as_int(get(a, "c")), 2);
}

#[test]
fn table_headers_collect_the_pairs_below_them() {
    let t = root("[server]\nport = 8080\nname = 'x'\n");
    let server = table(get(&t, "server"));
    assert_eq!(as_int(get(server, "port")), 8080);
    assert_eq!(string(get(server, "name")), "x");
}

#[test]
fn arrays_of_tables_append_one_table_per_header() {
    let t = root("[[item]]\nn = 1\n[[item]]\nn = 2\n");
    let items = array(get(&t, "item"));
    assert_eq!(items.len(), 2);
    assert_eq!(as_int(get(table(&items[0]), "n")), 1);
    assert_eq!(as_int(get(table(&items[1]), "n")), 2);
}

#[test]
fn arrays_hold_their_values_in_order() {
    let t = root("a = [ 1, 2,\n 3, ]");
    let a = array(get(&t, "a"));
    assert_eq!(a.iter().map(as_int).collect::<Vec<i64>>(), vec![1, 2, 3]);
}

#[test]
fn inline_tables_merge_their_pairs() {
    let t = root("p = { x = 1, y.z = 2 }");
    let p = table(get(&t, "p"));
    assert_eq!(as_int(get(p, "x")), 1);
    assert_eq!(as_int(get(table(get(p, "y")), "z")), 2);
}

#[test]
fn basic_strings_decode_escapes() {
    let t = root("s = \"a\\tb\\u00E9\\n\"");
    assert_eq!(string(get(&t, "s")), "a\tb\u{e9}\n");
}

#[test]
fn literal_strings_keep_backslashes() {
    let t = root("p = 'C:\\dir'");
    assert_eq!(string(get(&t, "p")), "C:\\dir");
}

#[test]
fn multi_line_strings_drop_the_first_newline() {
    let t = root("s = \"\"\"\nline1\nline2\"\"\"");
    assert_eq!(string(get(&t, "s")), "line1\nline2");
    let t = root("s = '''\nraw\\n'''");
    assert_eq!(string(get(&t, "s")), "raw\\n");
}

#[test]
fn offset_date_times_keep_their_text() {
    let t = root("d = 1979-05-27T07:32:00Z");
    match get(&t, "d") {
        Value::DateTime(DateTime::OffsetDateTime(s)) => assert_eq!(text(s), "1979-05-27T07:32:00Z"),
        other => panic!("not an offset date-time: {:?}", other),
    }
}

#[test]
fn a_key_bound_twice_does_not_merge() {
    assert_eq!(error("a = 1\na = 2"), "toml_table_merge_type_mismatch");
}

#[test]
fn two_expressions_on_one_line_are_rejected() {
    assert_eq!(error("a = 1 b = 2"), "toml_expected_newline_between_expressions");
}

#[test]
fn a_table_defined_twice_is_rejected() {
    assert_eq!(error("[t]\n[t]"), "std_table_duplicate");
}

#[test]
fn a_dotted_key_may_not_extend_an_inline_table() {
    assert_eq!(error("a = { x = 1 }\na.y = 2"), "dotted_key_redefines_inline_table");
}

#[test]
fn a_surrogate_escape_is_no_character() {
    assert_eq!(error("s = \"\\uD800\""), "string_unicode_escape_invalid_scalar");
}

#[test]
fn a_newline_in_a_basic_string_is_rejected() {
    assert_eq!(error("s = \"ab\ncd\""), "basic_string_newline");
}

#[test]
fn an_array_needs_commas_between_values() {
    assert_eq!(error("a = [1 2]"), "array_value_invalid_separator");
}

#[test]
fn an_invalid_day_is_rejected() {
    assert_eq!(error("d = 2023-02-30"), "date_invalid_day");
}

#[test]
fn conflicting_pairs_of_an_inline_table_are_rejected() {
    assert_eq!(error("t = { a = 1, a = 2 }"), "inline_table_conflicting_keys");
}

#[test]
fn merging_an_empty_table_changes_nothing() {
    let acc = root("a = 1\nb.c = 'x'");
    let empty = Table { entries: Vec::new() };
    let merged = recursive_merge_tables(acc, &empty).expect("merge");
    assert_eq!(merged.entries.len(), 2);
    assert_eq!(as_int(get(&merged, "a")), 1);
    assert_eq!(string(get(table(get(&merged, "b")), "c")), "x");
}

#[test]
fn merging_arrays_concatenates_them() {
    let acc = root("a = [1]");
    let new = root("a = [2, 3]");
    let merged = recursive_merge_tables(acc, &new).expect("merge");
    assert_eq!(array(get(&merged, "a")).iter().map(as_int).collect::<Vec<i64>>(), vec![1, 2, 3]);
}

#[test]
fn a_toml_target_is_certified_exactly_by_the_marker_that_fires() {
    let src = "a = 1\na = 2";
    assert_eq!(certify_toml(src, "toml_table_merge_type_mismatch"), Verdict::ReachedTarget);
    assert!(!certify_toml(src, "std_table_duplicate").is_certified());
    assert_eq!(certify_toml("a = 1", "toml_table_merge_type_mismatch"), Verdict::NoMarker);
}

#[test]
fn float_exponents_beyond_i32_are_rejected() {
    assert_eq!(error("x = 1e2147483648"), "float_exp_only_exp_overflow_i32");
    assert_eq!(error("x = 1e-2147483649"), "float_exp_only_exp_underflow_i32");
    assert_eq!(error("x = 1.5e2147483649"), "float_frac_exp_overflow_i32");
    assert_eq!(error("x = 1.0e-2147483648"), "float_frac_exp_underflow_i32");
    assert_eq!(error("x = 1e99999999999999999999999999999999999999"), "float_exp_only_exp_overflow_i32");
}

#[test]
fn float_powers_of_ten_beyond_f64_are_rejected() {
    assert_eq!(error("x = 1e309"), "float_exp_only_pow10_overflow");
    assert_eq!(error("x = 1.5e2147483648"), "float_frac_pow10_overflow");
    assert_eq!(error("x = 1.000_0e313"), "float_frac_pow10_overflow");
    let t = root("a = 1e308\nd = 1e-400\ne = 1.5e300");
    assert_eq!(t.entries.len(), 3);
}

#[test]
fn a_new_key_is_bound_in_front() {
    let acc = root("a = 1");
    let new = root("b = 2");
    let merged = recursive_merge_tables(acc, &new).expect("merge");
    let keys: Vec<String> = merged.entries.iter().map(|(k, _)| text(k)).collect();
    assert_eq!(keys, vec!["b".to_string(), "a".to_string()]);
}

#[test]
fn zero_with_an_exponent_is_a_float() {
    let chars: Vec<char> = "0e0".chars().collect();
    match rusmt_lang::toml::scalar::parse_float(&chars, 0) {
        ParseResult::Value(rusmt_lang::toml::scalar::Number::Float(t), 3) => assert_eq!(text(&t), "0e0"),
        _ => panic!("0e0 is not read as a float"),
    }
    assert!(matches!(get(&root("x = 0e0\ny = 0E-1"), "x"), Value::Float(_)));
    assert_eq!(error("x = 0a"), "integer_dec_invalid_char_after_zero");
}

#[test]
fn a_time_without_seconds_may_end_the_input() {
    for src in ["12:30", "12:30\n"] {
        let chars: Vec<char> = src.chars().collect();
        match rusmt_lang::toml::scalar::partial_time(&chars, 0) {
            ParseResult::Value(t, 5) => assert_eq!(text(&t), "12:30:00"),
            _ => panic!("{src:?} is not read as a time"),
        }
    }
}

#[test]
fn bindings_merge_smallest_key_first() {
    let key = |s: &str| s.chars().collect::<Vec<char>>();
    for new in [
        Table { entries: vec![(key("b"), Value::Integer(1)), (key("a"), Value::Integer(2))] },
        Table { entries: vec![(key("a"), Value::Integer(2)), (key("b"), Value::Integer(1))] },
    ] {
        let merged = recursive_merge_tables(Table { entries: vec![] }, &new).expect("merge");
        let keys: Vec<String> = merged.entries.iter().map(|(k, _)| text(k)).collect();
        assert_eq!(keys, vec!["b".to_string(), "a".to_string()]);
    }
}
