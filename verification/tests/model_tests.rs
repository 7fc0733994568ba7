use segpath::{FileNameSegment, FileNameToken, Path, Segment, Token};

#[test]
fn round_trip_through_canonical_text() {
    let texts = ["", "a", "a/b/c.txt", "a//b", "./x/../y/", "C:/foo/bar"];
    for text in texts {
        let path = Path::from_str(text).unwrap();
        let rendered = path.to_string();
        let reparsed = Path::from_str(rendered.as_str()).unwrap();
        assert!(path == reparsed);
    }
}

#[test]
fn dedot_is_idempotent() {
    let texts = ["C:/foo/bar/../", "./a/./b", "a/b/c", "../", "x/.."];
    for text in texts {
        let once = Path::from_str(text).unwrap().dedot();
        let twice = once.dedot();
        assert!(once == twice);
        assert_eq!(once.to_string(), twice.to_string());
    }
}

#[test]
fn equality_is_structural_not_semantic() {
    let plain = Path::from_str("a/b").unwrap();
    let dotted = Path::from_str("a/./b").unwrap();
    assert!(plain != dotted);
    assert!(dotted.dedot() == plain);
}

#[test]
fn push_then_pop_restores_a_separator_ended_path() {
    let path = Path::from_str("C:/foo/").unwrap();
    let mut copy = path.clone();
    copy.push("x");
    assert_eq!(copy.to_string(), "C:/foo/x");
    copy.pop();
    assert!(copy == path);
    assert_eq!(copy.to_string(), path.to_string());
}

#[test]
fn push_then_pop_keeps_the_added_separator_after_a_literal() {
    let mut path = Path::from_str("C:/foo").unwrap();
    path.push("x");
    path.pop();
    assert_eq!(path.to_string(), "C:/foo/");
}

#[test]
fn pop_of_an_empty_path_is_a_no_op() {
    let mut path = Path::from_str("").unwrap();
    path.pop();
    assert_eq!(path.to_string(), "");
}

#[test]
fn push_on_an_empty_path_adds_no_separator() {
    let mut path = Path::from_str("").unwrap();
    path.push("solo");
    assert_eq!(path.to_string(), "solo");
}

#[test]
fn dedot_loses_an_unresolved_leading_parent() {
    let path = Path::from_str("../").unwrap();
    assert_eq!(path.dedot().to_string(), "");
}

#[test]
fn dedot_keeps_dotted_literals() {
    let path = Path::from_str("..a/b.c/.").unwrap();
    assert_eq!(path.dedot().to_string(), "..a/b.c/");
}

#[test]
fn extension_of_a_plain_name_is_the_name_itself() {
    let path = Path::from_str("a/foo").unwrap();
    assert_eq!(Some("foo".to_string()), path.extension());
}

#[test]
fn extension_of_a_double_dotted_name_is_empty() {
    let path = Path::from_str("a/..foo").unwrap();
    assert_eq!(Some("".to_string()), path.extension());
}

#[test]
fn extension_of_an_empty_path_is_absent() {
    let path = Path::from_str("").unwrap();
    assert_eq!(None, path.extension());
}

#[test]
fn relative_from_an_unrelated_base_keeps_the_whole_path() {
    let path = Path::from_str("a/b").unwrap();
    let base = Path::from_str("x/").unwrap();
    assert_eq!(path.relative_from(&base).to_string(), "./a/b");
}

#[test]
fn relative_to_collapses_parents_against_the_base() {
    let path = Path::from_str("../x").unwrap();
    let base = Path::from_str("C:/a/b/").unwrap();
    assert_eq!(path.relative_to(&base).to_string(), "C:/a/x");
}

#[test]
fn round_trip_through_a_native_path_value() {
    let path = Path::from_str("a/b/c.txt").unwrap();
    let native = path.to_path_buf();
    let back = Path::from_std_path(&native).unwrap();
    assert!(back == path);
}

#[test]
fn platform_string_uses_one_separator_character() {
    let path = Path::from_str("a/b\\c").unwrap();
    let sep = std::path::MAIN_SEPARATOR;
    let expected: String = ["a", "b", "c"].join(sep.to_string().as_str());
    assert_eq!(path.to_platform_string(), expected);
}

#[test]
fn tokenizer_classifies_maximal_runs() {
    let segments = Token::from_str("a//.b/../.").unwrap();
    assert_eq!(segments.len(), 7);
    assert!(segments[0] == Segment::Segment("a".to_string()));
    assert!(segments[1] == Segment::Separator);
    assert!(segments[2] == Segment::Segment(".b".to_string()));
    assert!(segments[3] == Segment::Separator);
    assert!(segments[4] == Segment::DotDot);
    assert!(segments[5] == Segment::Separator);
    assert!(segments[6] == Segment::Dot);
}

#[test]
fn file_name_tokenizer_splits_on_every_dot() {
    let segments = FileNameToken::from_str("a.b..c").unwrap();
    assert_eq!(segments.len(), 6);
    assert!(matches!(&segments[0], FileNameSegment::Segment(t) if t == "a"));
    assert!(matches!(segments[1], FileNameSegment::Separator));
    assert!(matches!(&segments[2], FileNameSegment::Segment(t) if t == "b"));
    assert!(matches!(segments[3], FileNameSegment::Separator));
    assert!(matches!(segments[4], FileNameSegment::Separator));
    assert!(matches!(&segments[5], FileNameSegment::Segment(t) if t == "c"));
}

#[test]
fn segment_accessors_report_the_variant() {
    let literal = Segment::Segment("ab".to_string());
    assert_eq!(literal.get_segment(), Some("ab"));
    assert!(!literal.is_separator());
    assert!(Segment::Separator.is_separator());
    assert_eq!(Segment::Separator.get_segment(), None);
    assert_eq!(Segment::Dot.get_segment(), None);
    assert_eq!(Segment::DotDot.get_segment(), None);
}

#[test]
fn append_joins_with_exactly_one_separator() {
    let left = Path::from_str("a/b").unwrap();
    let right = Path::from_str("c").unwrap();
    assert_eq!(left.append(&right).to_string(), "a/b/c");
    let left_slash = Path::from_str("a/b/").unwrap();
    assert_eq!(left_slash.append(&right).to_string(), "a/b/c");
}
