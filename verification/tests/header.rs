use json_path::{header_line, is_content_length, parse_usize, HeaderLine};

fn length(line: &str) -> Option<Option<usize>> {
    match header_line(line) {
        HeaderLine::ContentLength(length) => Some(length),
        _ => None,
    }
}

#[test]
fn content_length_header_is_read() {
    assert_eq!(length("Content-Length: 42\r\n"), Some(Some(42)));
    assert_eq!(length("content-LENGTH:7"), Some(Some(7)));
}

#[test]
fn value_is_trimmed_before_parsing() {
    assert_eq!(length("Content-Length:  42 \t\r\n"), Some(Some(42)));
    assert_eq!(length("Content-Length:\u{a0}5\u{3000}\n"), Some(Some(5)));
}

#[test]
fn bad_length_is_none() {
    assert_eq!(length("Content-Length: 4x\r\n"), Some(None));
    assert_eq!(length("Content-Length: \r\n"), Some(None));
    assert_eq!(length("Content-Length: -1\r\n"), Some(None));
    assert_eq!(length("Content-Length: 99999999999999999999999\r\n"), Some(None));
}

#[test]
fn empty_line_ends_headers() {
    assert!(matches!(header_line("\r\n"), HeaderLine::EndOfHeaders));
    assert!(matches!(header_line("\n"), HeaderLine::EndOfHeaders));
    assert!(matches!(header_line(""), HeaderLine::EndOfHeaders));
}

#[test]
fn other_headers_are_skipped() {
    assert!(matches!(header_line("Content-Type: text/plain\r\n"), HeaderLine::Other));
    assert!(matches!(header_line("no colon here\r\n"), HeaderLine::Other));
    assert!(matches!(header_line(" Content-Length: 3\r\n"), HeaderLine::Other));
}

#[test]
fn numbers_as_from_str_reads_them() {
    assert_eq!(parse_usize("0"), Some(0));
    assert_eq!(parse_usize("+12"), Some(12));
    assert_eq!(parse_usize("+"), None);
    assert_eq!(parse_usize(""), None);
    assert_eq!(parse_usize("18446744073709551615"), "18446744073709551615".parse::<usize>().ok());
    assert_eq!(parse_usize("\u{e9}1"), None);
}

#[test]
fn header_names_ignore_ascii_case() {
    assert!(is_content_length("Content-Length"));
    assert!(is_content_length("CONTENT-LENGTH"));
    assert!(!is_content_length("Content_Length"));
    assert!(!is_content_length("Content-Lengthy"));
}

#[test]
fn written_header_reads_back() {
    let header = json_path::message_header(42);
    assert_eq!(header, "Content-Length: 42\r\n\r\n");
    let (first, second) = header.split_at(header.find('\n').unwrap() + 1);
    assert_eq!(length(first), Some(Some(42)));
    assert!(matches!(header_line(second), HeaderLine::EndOfHeaders));
}

#[test]
fn written_header_of_empty_body() {
    let header = json_path::message_header(0);
    assert_eq!(header, "Content-Length: 0\r\n\r\n");
    assert_eq!(length(&header[..header.len() - 2]), Some(Some(0)));
}
