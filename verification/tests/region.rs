use hostman::parsing::{parse_lines, Line};
use hostman::region::{splice_hostman_lines, END_MARKER, START_MARKER};

fn region(text: &str) -> Option<std::ops::Range<usize>> {
    splice_hostman_lines(&parse_lines(text).unwrap())
}

#[test]
fn markers_are_comment_texts() {
    assert_eq!(START_MARKER, " hostman:start");
    assert_eq!(END_MARKER, " hostman:end");
    assert_eq!(
        parse_lines("# hostman:start\n# hostman:end\n"),
        Ok(vec![
            Line::Comment(START_MARKER.to_owned()),
            Line::Comment(END_MARKER.to_owned())
        ])
    );
}

#[test]
fn block_lies_between_the_markers() {
    assert_eq!(
        region("1.1.1.1 a\n# hostman:start\n2.2.2.2 b\n3.3.3.3 c\n# hostman:end\n4.4.4.4 d\n"),
        Some(2..4)
    );
    assert_eq!(region("# hostman:start\n# hostman:end\n"), Some(1..1));
}

#[test]
fn missing_marker_means_no_block() {
    assert_eq!(region(""), None);
    assert_eq!(region("1.1.1.1 a\n"), None);
    assert_eq!(region("# hostman:start\n1.1.1.1 a\n"), None);
    assert_eq!(region("1.1.1.1 a\n# hostman:end\n"), None);
}

#[test]
fn end_before_start_means_no_block() {
    assert_eq!(region("# hostman:end\n1.1.1.1 a\n# hostman:start\n"), None);
    assert_eq!(
        region("# hostman:end\n# hostman:start\n1.1.1.1 a\n# hostman:end\n"),
        None
    );
}

#[test]
fn each_marker_is_taken_at_its_first_place() {
    assert_eq!(
        region("# hostman:start\n1.1.1.1 a\n# hostman:start\n2.2.2.2 b\n# hostman:end\n3.3.3.3 c\n# hostman:end\n"),
        Some(1..4)
    );
}

#[test]
fn markers_are_matched_exactly() {
    assert_eq!(region("#hostman:start\n# hostman:end\n"), None);
    assert_eq!(region("# hostman:start \n# hostman:end\n"), None);
    assert_eq!(region("# Hostman:start\n# hostman:end\n"), None);
    assert_eq!(region("# hostman:start\r\n1.1.1.1 a\r\n# hostman:end\r\n"), Some(1..2));
}
