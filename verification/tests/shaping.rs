use asn_lookup::shape::shape_response;

fn shaped(raw: &[u8]) -> String {
    String::from_utf8(shape_response(raw)).unwrap()
}

// Line counting the way the shaping model counts: pieces cut at `\n`,
// with no empty piece after a trailing `\n`.
fn count_lines(text: &[u8]) -> usize {
    let mut count = 0usize;
    let mut cur_len = 0usize;
    for &b in text {
        if b == b'\n' {
            count += 1;
            cur_len = 0;
        } else {
            cur_len += 1;
        }
    }
    if cur_len > 0 {
        count += 1;
    }
    count
}

#[test]
fn drops_header_and_rejoins() {
    let raw = b"AS | IP | AS Name\n13335 | 1.1.1.1 | CLOUDFLARENET\n15169 | 8.8.8.8 | GOOGLE\n";
    assert_eq!(
        shaped(raw),
        "13335 | 1.1.1.1 | CLOUDFLARENET\n15169 | 8.8.8.8 | GOOGLE"
    );
}

#[test]
fn strips_carriage_returns() {
    let raw = b"HEADER\r\nrow one\r\nrow two\r\n";
    assert_eq!(shaped(raw), "row one\nrow two");
}

#[test]
fn header_only_yields_empty() {
    assert_eq!(shaped(b"AS | IP | AS Name\n"), "");
    assert_eq!(shaped(b"AS | IP | AS Name"), "");
}

#[test]
fn empty_reply_yields_empty() {
    assert_eq!(shaped(b""), "");
}

#[test]
fn single_data_line_without_trailing_break() {
    assert_eq!(shaped(b"HEADER\nonly row"), "only row");
}

#[test]
fn carriage_return_kept_inside_a_line() {
    assert_eq!(shaped(b"HEADER\nmid\rdle\n"), "mid\rdle");
}

#[test]
fn trailing_carriage_return_without_break_is_kept() {
    // Only a `\r` that a `\n` closed belongs to the line break; a final
    // line with no break keeps its bytes, as line iteration over text
    // keeps them.
    assert_eq!(shaped(b"HEADER\nbaz\r"), "baz\r");
    assert_eq!(shaped(b"HEADER\r\nbaz\r"), "baz\r");
}

#[test]
fn line_count_drops_by_exactly_one() {
    let cases: [&[u8]; 4] = [
        b"h\na\n",
        b"h\r\na\r\nb\r\nc\r\n",
        b"h\na\nb",
        b"h\n",
    ];
    for raw in cases {
        let n = count_lines(raw);
        let out = shape_response(raw);
        assert!(n >= 1);
        assert_eq!(count_lines(&out), n - 1);
    }
}

#[test]
fn shaping_line_count_is_consistent_across_calls() {
    let first = b"AS | IP\n100 | 1.2.3.4\n200 | 1.2.3.4\n";
    let second = b"AS | IP\n150 | 1.2.3.4\n250 | 1.2.3.4\n";
    assert_eq!(count_lines(first), count_lines(second));
    assert_eq!(
        count_lines(&shape_response(first)),
        count_lines(&shape_response(second))
    );
}

#[test]
fn shaping_is_deterministic() {
    let raw = b"HEADER\nrow\n";
    assert_eq!(shape_response(raw), shape_response(raw));
}
