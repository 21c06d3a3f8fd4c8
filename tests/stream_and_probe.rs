use auggie::startup::classify_probe_failure;
use auggie::stream::{line_text, take_lines};
use auggie::ValidationResult;

#[test]
fn stream_lines_are_framed_and_joined() {
    let (lines, rest) = take_lines(b"{\"text\":\"Hel\"}\n\n{\"text\":\"lo\"}\n{\"te");
    assert_eq!(lines.len(), 3);
    assert_eq!(rest, b"{\"te".to_vec());
    let text: String = lines.iter().map(|l| line_text(l)).collect();
    assert_eq!(text, "Hello");
    let (none, all) = take_lines(b"partial");
    assert!(none.is_empty());
    assert_eq!(all, b"partial".to_vec());
}

#[test]
fn stream_line_text_edges() {
    assert_eq!(line_text(b"  {\"text\": \"x\"}  \r"), "x");
    assert_eq!(line_text(b"   "), "");
    assert_eq!(line_text(b"not json"), "");
    assert_eq!(line_text(b"{\"other\": 1}"), "");
    assert_eq!(line_text(b"{\"text\": 5}"), "");
}

#[test]
fn probe_failures_are_classified() {
    match classify_probe_failure("builder error: relative URL without a base", "x") {
        ValidationResult::InvalidUrl(m) => assert_eq!(m, "Invalid URL: x"),
        _ => panic!("expected invalid url"),
    }
    match classify_probe_failure("error trying to CONNECT: refused", "https://t") {
        ValidationResult::ConnectionError(m) => {
            assert_eq!(m, "Cannot connect to https://t: error trying to CONNECT: refused")
        }
        _ => panic!("expected connection error"),
    }
    match classify_probe_failure("timed out", "https://t") {
        ValidationResult::ConnectionError(m) => assert_eq!(m, "timed out"),
        _ => panic!("expected connection error"),
    }
}
