use json_path::{
    byte_offset_for_position, format_quoted_key, json_key_path_at_offset, json_key_path_report,
    CopyJsonPathSettings, CursorPathParser, PathSegment, DEFAULT_NON_QUOTED_KEY_REGEX,
};

fn default_settings() -> CopyJsonPathSettings {
    CopyJsonPathSettings {
        non_quoted_key_regex: DEFAULT_NON_QUOTED_KEY_REGEX.to_string(),
        put_file_name_in_path: false,
        prefix_separator: ":".to_string(),
        path_separator: ".".to_string(),
    }
}

fn report(source: &str, row: usize, column: usize) -> Result<String, String> {
    json_key_path_report("data.json", source, row, column, &default_settings())
}

#[test]
fn readme_example_copies_key_inside_array() {
    let source = "{\n  \"a\": [\"q\", { \"k\": 1 }, 1]\n}";
    assert_eq!(report(source, 2, 17), Ok("a[1].k".to_string()));
}

#[test]
fn readme_example_with_slash_separator() {
    let source = "{\"store\": {\"book\": {\"available\": true}}}";
    let mut settings = default_settings();
    settings.path_separator = "/".to_string();
    assert_eq!(
        json_key_path_report("shop.json", source, 1, 22, &settings),
        Ok("store/book/available".to_string())
    );
}

#[test]
fn cursor_on_value_gives_its_key() {
    assert_eq!(report("{\"a\": 1}", 1, 7), Ok("a".to_string()));
}

#[test]
fn key_with_space_is_quoted() {
    assert_eq!(report("{\"my key\": 1}", 1, 12), Ok("[\"my key\"]".to_string()));
}

#[test]
fn inner_key_with_dash_is_quoted() {
    assert_eq!(report("{\"a\": {\"b-c\": 1}}", 1, 15), Ok("a[\"b-c\"]".to_string()));
}

#[test]
fn escaped_key_is_decoded() {
    assert_eq!(report("{\"a\\u0062\": 1}", 1, 13), Ok("ab".to_string()));
}

#[test]
fn quote_in_key_is_escaped() {
    assert_eq!(report("{\"x\\\"y\": 1}", 1, 10), Ok("[\"x\\\"y\"]".to_string()));
}

#[test]
fn nested_array_indices() {
    assert_eq!(report("[[1, 2], [3, [4, 5]]]", 1, 18), Ok("[1][1][1]".to_string()));
}

#[test]
fn cursor_outside_every_value_is_root() {
    assert_eq!(report(" {}", 1, 1), Ok("$".to_string()));
}

#[test]
fn file_name_comes_first() {
    let mut settings = default_settings();
    settings.put_file_name_in_path = true;
    assert_eq!(
        json_key_path_report("/tmp/data/test.json", "{\"a\": {\"b\": 1}}", 1, 13, &settings),
        Ok("test.json:a.b".to_string())
    );
}

#[test]
fn file_name_alone_for_root() {
    let mut settings = default_settings();
    settings.put_file_name_in_path = true;
    settings.prefix_separator = " -> ".to_string();
    assert_eq!(
        json_key_path_report("dir\\test.json", " {}", 1, 1, &settings),
        Ok("test.json".to_string())
    );
}

#[test]
fn custom_regex_quotes_everything_else() {
    let mut settings = default_settings();
    settings.non_quoted_key_regex = "^[a-z]+$".to_string();
    assert_eq!(
        json_key_path_report("f.json", "{\"ab\": {\"C\": 1}}", 1, 14, &settings),
        Ok("ab[\"C\"]".to_string())
    );
}

#[test]
fn invalid_regex_is_reported() {
    let mut settings = default_settings();
    settings.non_quoted_key_regex = "(".to_string();
    let result = json_key_path_report("f.json", "{\"a\": 1}", 1, 7, &settings);
    let error = result.unwrap_err();
    assert!(error.starts_with("invalid nonQuotedKeyRegex: "), "{error}");
    assert!(error.len() > "invalid nonQuotedKeyRegex: ".len());
}

#[test]
fn invalid_json_is_reported() {
    let error = json_key_path_report("f.json", "{", 1, 1, &default_settings()).unwrap_err();
    assert!(error.starts_with("failed to parse `f.json` as JSON: "), "{error}");
    assert!(error.len() > "failed to parse `f.json` as JSON: ".len());
}

#[test]
fn row_must_be_one_based() {
    assert_eq!(report("{}", 0, 1), Err("cursor row must be 1-based".to_string()));
}

#[test]
fn column_must_be_one_based() {
    assert_eq!(report("{}", 1, 0), Err("cursor column must be 1-based".to_string()));
}

#[test]
fn position_outside_file() {
    assert_eq!(
        report("{}", 5, 1),
        Err("cursor position 5:1 is outside the file".to_string())
    );
}

#[test]
fn offsets_count_characters_not_bytes() {
    let source = "\u{e9}\nab";
    assert_eq!(byte_offset_for_position(source, 1, 1), Ok(0));
    assert_eq!(byte_offset_for_position(source, 1, 2), Ok(2));
    assert_eq!(byte_offset_for_position(source, 2, 2), Ok(4));
    assert_eq!(byte_offset_for_position(source, 2, 3), Ok(5));
    assert_eq!(
        byte_offset_for_position(source, 1, 3),
        Err("cursor position 1:3 is outside the file".to_string())
    );
}

fn path_texts(path: &[PathSegment]) -> Vec<String> {
    path.iter()
        .map(|segment| match segment {
            PathSegment::Key(key) => format!("key:{key}"),
            PathSegment::Index(index) => format!("index:{index}"),
        })
        .collect()
}

#[test]
fn deepest_path_wins() {
    let source = "{\"a\": {\"b\": [true, null]}}";
    let offset = source.find("null").unwrap() + 1;
    let path = json_key_path_at_offset(source, offset).unwrap();
    assert_eq!(path_texts(&path), vec!["key:a", "key:b", "index:1"]);
}

#[test]
fn key_span_holds_cursor() {
    let source = "{\"a\": {\"b\": 1}}";
    let path = json_key_path_at_offset(source, 8).unwrap();
    assert_eq!(path_texts(&path), vec!["key:a", "key:b"]);
}

#[test]
fn parse_errors_name_the_position() {
    assert_eq!(json_key_path_at_offset("tru", 0).unwrap_err(), "expected `true` at 0");
    assert_eq!(json_key_path_at_offset("x", 0).unwrap_err(), "unexpected byte `x` at 0");
    assert_eq!(json_key_path_at_offset("  ", 0).unwrap_err(), "unexpected end of JSON");
    assert_eq!(json_key_path_at_offset("\"abc", 0).unwrap_err(), "unterminated JSON string");
    assert_eq!(json_key_path_at_offset("{\"a\" 1}", 0).unwrap_err(), "expected `:` at 5");
    assert_eq!(json_key_path_at_offset("[1 2]", 0).unwrap_err(), "expected `]` at 3");
    assert_eq!(json_key_path_at_offset("{\"a\":1 \"b\":2}", 0).unwrap_err(), "expected `}` at 7");
    assert_eq!(json_key_path_at_offset("{1: 2}", 0).unwrap_err(), "expected `\"` at 1");
}

#[test]
fn bad_escape_in_key_is_reported() {
    let error = json_key_path_at_offset("{\"\\q\": 1}", 0).unwrap_err();
    assert!(error.starts_with("failed to parse JSON string: "), "{error}");
}

#[test]
fn trailing_comma_is_tolerated() {
    let path = json_key_path_at_offset("[1, 2,]", 4).unwrap();
    assert_eq!(path_texts(&path), vec!["index:1"]);
}

#[test]
fn bytes_after_the_first_value_are_not_read() {
    let path = json_key_path_at_offset("[1] garbage", 1).unwrap();
    assert_eq!(path_texts(&path), vec!["index:0"]);
}

#[test]
fn dollar_key_keeps_file_name_prefix() {
    let mut settings = default_settings();
    settings.put_file_name_in_path = true;
    assert_eq!(
        json_key_path_report("/home/u/data.json", "{\"$\": 1}", 1, 7, &settings),
        Ok("data.json:$".to_string())
    );
}

#[test]
fn control_characters_are_escaped() {
    assert_eq!(report("{\"a\\u0001\": 1}", 1, 13), Ok("[\"a\\u0001\"]".to_string()));
    assert_eq!(report("{\"a\\tb\": 1}", 1, 10), Ok("[\"a\\tb\"]".to_string()));
}

#[test]
fn quoted_keys() {
    assert_eq!(format_quoted_key("a\"b"), "[\"a\\\"b\"]");
    assert_eq!(format_quoted_key("x\u{1f}y\u{e9}"), "[\"x\\u001fy\u{e9}\"]");
}

#[test]
fn parser_stops_where_it_failed() {
    let mut parser = CursorPathParser::new("[1]", 0);
    assert_eq!(parser.parse_object(&mut vec![]), Err("expected `{` at 0".to_string()));
    assert_eq!(parser.position(), 0);

    let mut parser = CursorPathParser::new("{\"a\" 1}", 0);
    assert_eq!(parser.parse_object(&mut vec![]), Err("expected `:` at 5".to_string()));
    assert_eq!(parser.position(), 5);

    let mut parser = CursorPathParser::new("\"abc", 0);
    assert_eq!(parser.parse_string().err(), Some("unterminated JSON string".to_string()));
    assert_eq!(parser.position(), 4);

    let mut parser = CursorPathParser::new("  x", 0);
    assert_eq!(parser.parse_value(&mut vec![]), Err("unexpected byte `x` at 2".to_string()));
    assert_eq!(parser.position(), 2);
}

#[test]
fn later_columns_lie_further_on() {
    let source = "a\u{e9}\u{4e2d}b\nc";
    let o1 = byte_offset_for_position(source, 1, 2).unwrap();
    let o2 = byte_offset_for_position(source, 1, 4).unwrap();
    assert_eq!((o1, o2), (1, 6));
    assert_eq!(source[o1..o2].chars().count(), 2);
}

#[test]
fn steps_render_from_given_answers() {
    let path = vec![
        PathSegment::Key("a".to_string()),
        PathSegment::Index(1),
        PathSegment::Key("b c".to_string()),
        PathSegment::Key("d".to_string()),
    ];
    assert_eq!(
        json_path::render_path_steps(&path, &[true, false, false, true], "/"),
        "a[1][\"b c\"]/d"
    );
    assert_eq!(
        json_path::render_path_steps(&path, &[false, false, true, false], "."),
        "[\"a\"][1].b c[\"d\"]"
    );
}

#[test]
fn bare_empty_first_key_takes_no_separator_after_it() {
    let path = vec![PathSegment::Key(String::new()), PathSegment::Key("x".to_string())];
    assert_eq!(json_path::render_path_steps(&path, &[true, true], "."), "x");
    assert_eq!(json_path::render_path_steps(&path, &[false, true], "."), "[\"\"].x");
}

#[test]
fn whitespace_skip_stays_in_text() {
    let mut parser = CursorPathParser::new("  1", 0);
    parser.skip_whitespace();
    assert_eq!(parser.position(), 2);
    let mut parser = CursorPathParser::new(" \t\n", 0);
    parser.skip_whitespace();
    assert_eq!(parser.position(), 3);
}
