use header_grammar::parsers::extract_header_lines;
use header_grammar::parsers::extract_header_name_value;
use header_grammar::parsers::ParseError;

#[test]
fn extract_header_lines_with_carriage_return() {
    let headers = b"Content-Type: text/html\r\nContent-Length: 1234\r\n";

    let header_lines = extract_header_lines(headers);

    assert_eq!(header_lines.len(), 2);
    assert_eq!(header_lines[0], b"Content-Type: text/html");
    assert_eq!(header_lines[1], b"Content-Length: 1234");
}

#[test]
fn extract_headers_without_carriage_return() {
    let headers = b"Content-Type: text/html\nContent-Length: 1234\n";

    let header_lines = extract_header_lines(headers);

    assert_eq!(header_lines.len(), 2);
    assert_eq!(header_lines[0], b"Content-Type: text/html");
    assert_eq!(header_lines[1], b"Content-Length: 1234");
}

#[test]
fn extract_key_value_from_headerline_without_ows() {
    let header_line = b"Content-Type:text/html";

    let (key, value) = extract_header_name_value(header_line).unwrap();

    assert_eq!(key, b"Content-Type");
    assert_eq!(value, b"text/html");
}

#[test]
fn extract_key_value_from_headerline_with_ows() {
    let header_line = b"Content-Type: text/html ";

    let (key, value) = extract_header_name_value(header_line).unwrap();

    assert_eq!(key, b"Content-Type");
    assert_eq!(value, b"text/html");
}

#[test]
fn extract_key_value_from_headerline_with_multiple_ows() {
    let header_line = b"Content-Type:   text/html   ";

    let (key, value) = extract_header_name_value(header_line).unwrap();

    assert_eq!(key, b"Content-Type");
    assert_eq!(value, b"text/html");
}

#[test]
fn extract_key_value_from_headerline_with_invalid_key_char() {
    let header_line = b"Content-T\nype: text/html";

    let result = extract_header_name_value(header_line);

    assert!(result.is_err());
    assert_eq!(result.unwrap_err(), ParseError::InvalidHeaderKeyChar);
}

#[test]
fn extract_key_value_from_headerline_without_colon() {
    let header_line = b"Content-Type";

    let result = extract_header_name_value(header_line);

    assert!(result.is_err());
    assert_eq!(result.unwrap_err(), ParseError::ColonNotFound);
}

#[test]
fn extract_key_value_from_headerline_with_invalid_value_char() {
    let header_line = b"Content-Type: text/ht\nml";

    let result = extract_header_name_value(header_line.as_slice());

    assert!(result.is_err());
    assert_eq!(result.unwrap_err(), ParseError::InvalidHeaderValue);
}

#[test]
fn extract_key_value_from_user_agent_line() {
    let header_line = b"User-Agent: Mozilla/5.0 (Windows NT 6.1; Win64; x64; rv:47.0) Gecko/20100101 Firefox/47.0";

    let (key, value) = extract_header_name_value(header_line).unwrap();

    assert_eq!(key, b"User-Agent");
    assert_eq!(
        value,
        b"Mozilla/5.0 (Windows NT 6.1; Win64; x64; rv:47.0) Gecko/20100101 Firefox/47.0"
    );
}

#[test]
fn empty_block_yields_no_lines() {
    let header_lines = extract_header_lines(b"");
    assert_eq!(header_lines.len(), 0);
}

#[test]
fn blank_lines_and_doubled_terminators_are_dropped() {
    let header_lines = extract_header_lines(b"\r\nA: 1\n\n\r\nB: 2\r\n\r\n");
    assert_eq!(header_lines.len(), 2);
    assert_eq!(header_lines[0], b"A: 1");
    assert_eq!(header_lines[1], b"B: 2");
}

#[test]
fn last_line_without_terminator_is_kept() {
    let header_lines = extract_header_lines(b"A: 1\nB: 2");
    assert_eq!(header_lines.len(), 2);
    assert_eq!(header_lines[0], b"A: 1");
    assert_eq!(header_lines[1], b"B: 2");
}

#[test]
fn extracted_lines_are_never_empty() {
    let blocks: [&[u8]; 5] = [b"", b"\n\n\n", b"\r\n\r\n", b"a\n\nb\n", b"\rx\r\r\n"];
    for block in blocks {
        for line in extract_header_lines(block) {
            assert!(!line.is_empty());
        }
    }
}

#[test]
fn rejoining_lines_with_either_terminator_reproduces_them() {
    let block = b"Content-Type: text/html\nContent-Length: 1234\r\nHost: example.com";
    let lines = extract_header_lines(block);

    let mut crlf_joined: Vec<u8> = Vec::new();
    let mut lf_joined: Vec<u8> = Vec::new();
    for line in &lines {
        crlf_joined.extend_from_slice(line);
        crlf_joined.extend_from_slice(b"\r\n");
        lf_joined.extend_from_slice(line);
        lf_joined.extend_from_slice(b"\n");
    }

    assert_eq!(extract_header_lines(&crlf_joined), lines);
    assert_eq!(extract_header_lines(&lf_joined), lines);
}

#[test]
fn both_terminators_give_the_same_logical_lines() {
    let crlf_lines = extract_header_lines(b"A: 1\r\nB: 2\r\n");
    let lf_lines = extract_header_lines(b"A: 1\nB: 2\n");
    assert_eq!(crlf_lines, lf_lines);
    assert_eq!(crlf_lines.len(), 2);
    assert_eq!(crlf_lines[0], b"A: 1");
    assert_eq!(crlf_lines[1], b"B: 2");
}

#[test]
fn reparsing_the_rejoined_pair_gives_the_same_pair() {
    let header_line = b"Content-Type:   text/html  ";
    let (key, value) = extract_header_name_value(header_line).unwrap();

    let mut rejoined: Vec<u8> = Vec::new();
    rejoined.extend_from_slice(key);
    rejoined.push(b':');
    rejoined.extend_from_slice(value);

    let (key2, value2) = extract_header_name_value(&rejoined).unwrap();
    assert_eq!(key2, key);
    assert_eq!(value2, value);
}

#[test]
fn empty_value_parses_to_empty_slice() {
    let (key, value) = extract_header_name_value(b"X-Empty:").unwrap();
    assert_eq!(key, b"X-Empty");
    assert_eq!(value, b"");
}

#[test]
fn whitespace_only_value_parses_to_empty_slice() {
    let (key, value) = extract_header_name_value(b"X-Empty:  \t ").unwrap();
    assert_eq!(key, b"X-Empty");
    assert_eq!(value, b"");
}

#[test]
fn zero_length_name_fails_with_key_char_error() {
    let result = extract_header_name_value(b":value");
    assert_eq!(result.unwrap_err(), ParseError::InvalidHeaderKeyChar);
}

#[test]
fn lone_colon_fails_with_key_char_error() {
    let result = extract_header_name_value(b":");
    assert_eq!(result.unwrap_err(), ParseError::InvalidHeaderKeyChar);
}

#[test]
fn empty_line_fails_with_colon_not_found() {
    let result = extract_header_name_value(b"");
    assert_eq!(result.unwrap_err(), ParseError::ColonNotFound);
}

#[test]
fn tab_is_stripped_as_surrounding_whitespace() {
    let (key, value) = extract_header_name_value(b"X-Tab:\tv\t").unwrap();
    assert_eq!(key, b"X-Tab");
    assert_eq!(value, b"v");
}

#[test]
fn interior_whitespace_runs_are_preserved_verbatim() {
    let (key, value) = extract_header_name_value(b"X-Gap:  a  \t b  ").unwrap();
    assert_eq!(key, b"X-Gap");
    assert_eq!(value, b"a  \t b");
}

#[test]
fn obs_text_bytes_are_accepted_in_values() {
    let line: &[u8] = &[b'K', b':', b' ', 0x80, 0xff, b' '];
    let (key, value) = extract_header_name_value(line).unwrap();
    assert_eq!(key, b"K");
    assert_eq!(value, &[0x80u8, 0xffu8]);
}

#[test]
fn control_byte_in_value_fails() {
    let line: &[u8] = &[b'K', b':', b'a', 0x00, b'b'];
    let result = extract_header_name_value(line);
    assert_eq!(result.unwrap_err(), ParseError::InvalidHeaderValue);
}

#[test]
fn delete_byte_in_value_fails() {
    let line: &[u8] = &[b'K', b':', b'a', 0x7f];
    let result = extract_header_name_value(line);
    assert_eq!(result.unwrap_err(), ParseError::InvalidHeaderValue);
}

#[test]
fn key_scan_fails_fast_before_colon_is_sought() {
    // the offending byte comes before any colon, so the key error wins
    // over ColonNotFound
    let result = extract_header_name_value(b"Bad Header");
    assert_eq!(result.unwrap_err(), ParseError::InvalidHeaderKeyChar);
}

#[test]
fn obs_text_byte_in_name_fails() {
    let line: &[u8] = &[0x80, b':', b'v'];
    let result = extract_header_name_value(line);
    assert_eq!(result.unwrap_err(), ParseError::InvalidHeaderKeyChar);
}

#[test]
fn name_with_all_symbol_tchars_parses() {
    let (key, value) = extract_header_name_value(b"!#$%&'*+-.^_`|~: ok").unwrap();
    assert_eq!(key, b"!#$%&'*+-.^_`|~");
    assert_eq!(value, b"ok");
}

#[test]
fn two_byte_value_is_returned_whole() {
    let (key, value) = extract_header_name_value(b"K: ab ").unwrap();
    assert_eq!(key, b"K");
    assert_eq!(value, b"ab");
}

#[test]
fn value_may_contain_further_colons() {
    let (key, value) = extract_header_name_value(b"Host: example.com:8080").unwrap();
    assert_eq!(key, b"Host");
    assert_eq!(value, b"example.com:8080");
}
