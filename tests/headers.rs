use rattomail::{
    delivered_message, make_received_header, process_existing_headers, write_body,
    write_headers, HeaderStatus, MessageInput, ReceivedTime,
};

fn test_headers_helper(input: &[u8], expected_status: HeaderStatus, expected_output: &str) {
    let mut output = Vec::new();
    let result = process_existing_headers(&mut MessageInput::new(input.to_vec()), &mut output);

    assert_eq!(result, expected_status);
    let output = String::from_utf8(output).unwrap();
    assert_eq!(output, expected_output);
}

fn epoch() -> ReceivedTime {
    ReceivedTime::new(0, 0).unwrap()
}

#[test]
fn test_process_headers_with_from_and_date() {
    let input = b"From: sender@example.com\nDate: Wed, 21 Oct 2020 07:28:00 GMT\n\nBody";
    let expected_status = HeaderStatus { has_from: true, has_date: true };
    let expected_output = "From: sender@example.com\nDate: Wed, 21 Oct 2020 07:28:00 GMT\n";
    test_headers_helper(input, expected_status, expected_output);
}

#[test]
fn test_process_headers_with_implausible_from_and_date() {
    let input = b"From: :?\nDate: ,\n\nBody";
    let expected_status = HeaderStatus { has_from: true, has_date: true };
    let expected_output = "From: :?\nDate: ,\n";
    test_headers_helper(input, expected_status, expected_output);
}

#[test]
fn test_process_headers_without_from() {
    let input = b"Date: 21 Oct 2020\n\nBody";
    let expected_status = HeaderStatus { has_from: false, has_date: true };
    let expected_output = "Date: 21 Oct 2020\n";
    test_headers_helper(input, expected_status, expected_output);
}

#[test]
fn test_process_headers_without_date() {
    let input = b"From: sender@example.com\n\nBody";
    let expected_status = HeaderStatus { has_from: true, has_date: false };
    let expected_output = "From: sender@example.com\n";
    test_headers_helper(input, expected_status, expected_output);
}

#[test]
fn test_process_headers_empty() {
    let input = b"\nBody";
    let expected_status = HeaderStatus { has_from: false, has_date: false };
    let expected_output = "";
    test_headers_helper(input, expected_status, expected_output);
}

#[test]
fn doc_example_headers_foo_bar() {
    test_headers_helper(
        b"Foo: foo\nBar: bar\n\n",
        HeaderStatus { has_from: false, has_date: false },
        "Foo: foo\nBar: bar\n",
    );
}

#[test]
fn crlf_blank_line_ends_headers() {
    let mut input = MessageInput::new(b"A: 1\r\n\r\nrest\r\n".to_vec());
    let mut out = Vec::new();
    let status = process_existing_headers(&mut input, &mut out);
    assert_eq!(status, HeaderStatus { has_from: false, has_date: false });
    assert_eq!(out, b"A: 1\r\n".to_vec());
    let mut body = Vec::new();
    write_body(&mut input, &mut body);
    assert_eq!(body, b"rest\r\n".to_vec());
}

#[test]
fn prefix_match_is_case_sensitive_and_literal() {
    test_headers_helper(
        b"from: a@x\n Date: x\nFrom:a@x\n\n",
        HeaderStatus { has_from: false, has_date: false },
        "from: a@x\n Date: x\nFrom:a@x\n",
    );
}

#[test]
fn headers_without_blank_line_end_at_end_of_input() {
    test_headers_helper(
        b"Subject: hi\nFrom: a@x\n",
        HeaderStatus { has_from: true, has_date: false },
        "Subject: hi\nFrom: a@x\n",
    );
}

#[test]
fn empty_input_has_no_headers() {
    test_headers_helper(b"", HeaderStatus { has_from: false, has_date: false }, "");
}

#[test]
fn write_body_copies_rest_unchanged() {
    let mut input = MessageInput::new(b"line one\nline two\nno newline".to_vec());
    let mut out = b"prefix:".to_vec();
    write_body(&mut input, &mut out);
    assert_eq!(out, b"prefix:line one\nline two\nno newline".to_vec());
}

#[test]
fn received_time_rfc2822_at_epoch() {
    assert_eq!(epoch().to_rfc2822(), "Thu, 1 Jan 1970 00:00:00 +0000");
    let east = ReceivedTime::new(0, 3600).unwrap();
    assert_eq!(east.to_rfc2822(), "Thu, 1 Jan 1970 01:00:00 +0100");
}

#[test]
fn received_time_range_is_checked() {
    assert!(ReceivedTime::new(253_402_214_399, 86_399).is_some());
    assert!(ReceivedTime::new(253_402_214_400, 0).is_none());
    assert!(ReceivedTime::new(-62_135_510_400, -86_399).is_some());
    assert!(ReceivedTime::new(-62_135_510_401, 0).is_none());
    assert!(ReceivedTime::new(0, 86_400).is_none());
    assert!(ReceivedTime::new(0, -86_400).is_none());
}

#[test]
fn received_header_exact_text() {
    let h = make_received_header("bob", "u", &epoch());
    assert_eq!(
        h,
        "Received: for bob with local (rattomail) (envelope-from u); Thu, 1 Jan 1970 00:00:00 +0000\n"
    );
}

#[test]
fn end_to_end_keeps_from_and_body() {
    let out = delivered_message(b"From: a@x\n\nhello\n".to_vec(), "u", "bob", &epoch());
    let expected = "Received: for bob with local (rattomail) (envelope-from u); Thu, 1 Jan 1970 00:00:00 +0000\n\
                    From: a@x\n\
                    Date: Thu, 1 Jan 1970 00:00:00 +0000\n\
                    \n\
                    hello\n";
    assert_eq!(String::from_utf8(out).unwrap(), expected);
}

#[test]
fn end_to_end_empty_header_block_synthesizes_date_and_from() {
    let out = delivered_message(b"\nBody".to_vec(), "u", "bob", &epoch());
    let expected = "Received: for bob with local (rattomail) (envelope-from u); Thu, 1 Jan 1970 00:00:00 +0000\n\
                    Date: Thu, 1 Jan 1970 00:00:00 +0000\n\
                    From: u\n\
                    \n\
                    Body";
    assert_eq!(String::from_utf8(out).unwrap(), expected);
}

#[test]
fn end_to_end_headers_only_gets_blank_line_and_empty_body() {
    let out = delivered_message(b"Subject: s\nDate: d\nFrom: f\n".to_vec(), "u", "bob", &epoch());
    let expected = "Received: for bob with local (rattomail) (envelope-from u); Thu, 1 Jan 1970 00:00:00 +0000\n\
                    Subject: s\nDate: d\nFrom: f\n\n";
    assert_eq!(String::from_utf8(out).unwrap(), expected);
}

#[test]
fn end_to_end_zero_bytes() {
    let out = delivered_message(Vec::new(), "u", "bob", &epoch());
    let expected = "Received: for bob with local (rattomail) (envelope-from u); Thu, 1 Jan 1970 00:00:00 +0000\n\
                    Date: Thu, 1 Jan 1970 00:00:00 +0000\n\
                    From: u\n\n";
    assert_eq!(String::from_utf8(out).unwrap(), expected);
}

#[test]
fn incoming_received_header_is_kept_after_the_fresh_one() {
    let out = delivered_message(b"Received: old\nFrom: a\nDate: d\n\nb".to_vec(), "u", "bob", &epoch());
    let text = String::from_utf8(out).unwrap();
    assert!(text.starts_with("Received: for bob with local (rattomail) (envelope-from u); "));
    assert_eq!(text.matches("From: ").count(), 1);
    assert!(text.ends_with("\nReceived: old\nFrom: a\nDate: d\n\nb"));
}

#[test]
fn write_headers_leaves_input_at_body() {
    let mut input = MessageInput::new(b"Date: d\n\nthe body\n".to_vec());
    let mut out = Vec::new();
    write_headers(&mut input, &mut out, "bob", "u", &epoch());
    let mut body = Vec::new();
    write_body(&mut input, &mut body);
    assert_eq!(body, b"the body\n".to_vec());
    assert!(String::from_utf8(out).unwrap().ends_with("Date: d\nFrom: u\n\n"));
}

#[test]
fn headers_processed_from_current_position() {
    let mut input = MessageInput::new(b"X-Skip: 1\nFrom: a@x\n\nbody".to_vec());
    let mut first = Vec::new();
    assert_eq!(input.read_line(&mut first), 10);
    assert_eq!(first, b"X-Skip: 1\n".to_vec());
    let mut out = Vec::new();
    let status = process_existing_headers(&mut input, &mut out);
    assert_eq!(status, HeaderStatus { has_from: true, has_date: false });
    assert_eq!(out, b"From: a@x\n".to_vec());
    let mut body = Vec::new();
    write_body(&mut input, &mut body);
    assert_eq!(body, b"body".to_vec());
}

#[test]
fn received_time_extremes_render() {
    let earliest = ReceivedTime::new(-62_135_510_400, -86_399).unwrap();
    assert_eq!(earliest.to_rfc2822(), "Mon, 1 Jan 0001 00:00:01 -2400");
    let latest = ReceivedTime::new(253_402_214_399, 86_399).unwrap();
    assert_eq!(latest.to_rfc2822(), "Fri, 31 Dec 9999 23:59:58 +2400");
}

#[test]
fn last_header_without_newline_gets_one_before_synthesized_headers() {
    let out = delivered_message(b"Subject: x".to_vec(), "u", "bob", &epoch());
    let expected = "Received: for bob with local (rattomail) (envelope-from u); Thu, 1 Jan 1970 00:00:00 +0000\n\
                    Subject: x\n\
                    Date: Thu, 1 Jan 1970 00:00:00 +0000\n\
                    From: u\n\n";
    assert_eq!(String::from_utf8(out).unwrap(), expected);
}

#[test]
fn last_header_without_newline_still_gets_blank_line() {
    let out = delivered_message(b"From: a\nDate: d".to_vec(), "u", "bob", &epoch());
    let expected = "Received: for bob with local (rattomail) (envelope-from u); Thu, 1 Jan 1970 00:00:00 +0000\n\
                    From: a\nDate: d\n\n";
    assert_eq!(String::from_utf8(out).unwrap(), expected);
}
