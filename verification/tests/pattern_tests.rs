use convay::pattern::glider_pattern;
use convay::pattern::parse_pattern;

#[test]
fn parse_two_valid_lines() {
    let text = b"1 2\n3 4".to_vec();
    let out = parse_pattern(&text);
    assert_eq!(out.points, vec![(1, 2), (3, 4)]);
    assert!(out.malformed.is_empty());
}

#[test]
fn parse_skips_comments_and_empty_lines() {
    let text = b"// glider\n\n1 1\n// done\n".to_vec();
    let out = parse_pattern(&text);
    assert_eq!(out.points, vec![(1, 1)]);
    assert!(out.malformed.is_empty());
}

#[test]
fn parse_reports_malformed_lines_by_index() {
    let text = b"abc\n5\n1 x\n 1\n1  2\n7 \n2 3".to_vec();
    let out = parse_pattern(&text);
    assert_eq!(out.points, vec![(2, 3)]);
    assert_eq!(out.malformed, vec![0, 1, 2, 3, 4, 5]);
}

#[test]
fn parse_handles_crlf_line_endings() {
    let text = b"1 2\r\n3 4\r\n".to_vec();
    let out = parse_pattern(&text);
    assert_eq!(out.points, vec![(1, 2), (3, 4)]);
    assert!(out.malformed.is_empty());
}

#[test]
fn parse_empty_text_has_no_lines() {
    let text = Vec::new();
    let out = parse_pattern(&text);
    assert!(out.points.is_empty());
    assert!(out.malformed.is_empty());
}

#[test]
fn parse_rejects_overflowing_coordinate() {
    let text = b"99999999999999999999999 1".to_vec();
    let out = parse_pattern(&text);
    assert!(out.points.is_empty());
    assert_eq!(out.malformed, vec![0]);
}

#[test]
fn parse_accepts_leading_zeros() {
    let text = b"007 010".to_vec();
    let out = parse_pattern(&text);
    assert_eq!(out.points, vec![(7, 10)]);
    assert!(out.malformed.is_empty());
}

#[test]
fn parse_rejects_signed_numbers() {
    let text = b"+1 2\n-1 2".to_vec();
    let out = parse_pattern(&text);
    assert!(out.points.is_empty());
    assert_eq!(out.malformed, vec![0, 1]);
}

#[test]
fn glider_pattern_lists_the_five_cells() {
    let pts = glider_pattern();
    assert_eq!(pts, vec![(0, 1), (1, 2), (2, 0), (2, 1), (2, 2)]);
}
