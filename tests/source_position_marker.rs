use parser::source_position_marker::{from_source, CharWithSourcePosition, SourcePosition, SourceRange};

fn pos(line: usize, col: usize) -> SourcePosition {
    SourcePosition { line, col }
}

fn summary(cs: &[CharWithSourcePosition]) -> Vec<(char, usize, usize)> {
    cs.iter().map(|c| (c.ch, c.range.begin.line, c.range.begin.col)).collect()
}

#[test]
fn empty_source_is_empty() {
    assert!(from_source("", "a").is_empty());
}

#[test]
fn only_line_endings_is_empty() {
    assert!(from_source("\n\r\n\n", "a").is_empty());
}

#[test]
fn lines_and_columns_are_zero_based() {
    let cs = from_source("ab\nc", "a");
    assert_eq!(summary(&cs), vec![('a', 0, 0), ('b', 0, 1), ('c', 1, 0)]);
    for c in &cs {
        assert_eq!(c.range.uri, "a");
        assert_eq!(c.range.begin, c.range.end);
    }
}

#[test]
fn crlf_is_a_line_ending() {
    let cs = from_source("x\r\ny", "a");
    assert_eq!(summary(&cs), vec![('x', 0, 0), ('y', 1, 0)]);
}

#[test]
fn lone_carriage_return_is_kept() {
    let cs = from_source("x\ry\r", "a");
    assert_eq!(summary(&cs), vec![('x', 0, 0), ('\r', 0, 1), ('y', 0, 2), ('\r', 0, 3)]);
}

#[test]
fn empty_lines_are_counted() {
    let cs = from_source("\n\nz\n", "a");
    assert_eq!(summary(&cs), vec![('z', 2, 0)]);
}

#[test]
fn columns_count_code_points() {
    let cs = from_source("é\"x", "a");
    assert_eq!(summary(&cs), vec![('é', 0, 0), ('"', 0, 1), ('x', 0, 2)]);
}

#[test]
fn retagging_gives_the_same_sequence() {
    let src = "let s = \"str\"\n'a'";
    let a = from_source(src, "test.agr");
    let b = from_source(src, "test.agr");
    assert_eq!(summary(&a), summary(&b));
    for (x, y) in a.iter().zip(b.iter()) {
        assert_eq!(x.range.uri, y.range.uri);
        assert_eq!(x.range.end, y.range.end);
    }
}

#[test]
fn combine_keeps_begin_and_takes_end() {
    let a = SourceRange { uri: "f", begin: pos(0, 1), end: pos(0, 1) };
    let b = SourceRange { uri: "f", begin: pos(2, 3), end: pos(2, 4) };
    let c = a.combine(b);
    assert_eq!(c.uri, "f");
    assert_eq!(c.begin, pos(0, 1));
    assert_eq!(c.end, pos(2, 4));
}
