use hostman::agent::extract_mapping;
use hostman::parsing::{parse_lines, MalformedLine, ParseError};
use hostman::render::write_table;
use hostman::table::{HostMap, Table};

fn table(entries: &[(&str, &str)]) -> Table {
    let mut host_mapping = HostMap::new();
    for (host, ip) in entries {
        host_mapping.insert((*host).to_owned(), (*ip).to_owned());
    }
    Table { host_mapping, current: None }
}

fn written(entries: &[(&str, &str)], text: &str) -> String {
    write_table(&table(entries), text).unwrap()
}

#[test]
fn first_sync_appends_a_block() {
    assert_eq!(
        written(&[("box1", "192.168.1.5")], "10.0.0.1\tfoo\n"),
        "10.0.0.1\tfoo\n# hostman:start\n192.168.1.5\tbox1\n# hostman:end\n"
    );
}

#[test]
fn existing_block_is_replaced() {
    assert_eq!(
        written(
            &[("new", "2.2.2.2")],
            "# hostman:start\n1.1.1.1\told\n# hostman:end\n"
        ),
        "# hostman:start\n2.2.2.2\tnew\n# hostman:end\n"
    );
    assert_eq!(
        written(
            &[("new", "2.2.2.2")],
            "# head\n127.0.0.1   localhost  lo\n# hostman:start\n1.1.1.1\told\n3.3.3.3 older\n# hostman:end\n# tail\n::1 \t ip6-localhost\n"
        ),
        "# head\n127.0.0.1   localhost  lo\n# hostman:start\n2.2.2.2\tnew\n# hostman:end\n# tail\n::1 \t ip6-localhost\n"
    );
}

#[test]
fn malformed_line_stops_the_write() {
    assert_eq!(
        write_table(
            &table(&[("new", "2.2.2.2")]),
            "# hostman:start\n1.1.1.1\told\n# hostman:end\nnot an ip or comment\n"
        ),
        Err(ParseError { line: 4, reason: MalformedLine::MissingAddress })
    );
    assert_eq!(
        write_table(&table(&[]), "1.1.1.1 a\n\n"),
        Err(ParseError { line: 2, reason: MalformedLine::MissingAddress })
    );
}

#[test]
fn entries_are_written_in_the_order_of_the_host_names() {
    assert_eq!(
        written(
            &[("zeta", "4.4.4.4"), ("alpha", "1.1.1.1"), ("mid", "2.2.2.2"), ("Beta", "3.3.3.3")],
            ""
        ),
        "# hostman:start\n3.3.3.3\tBeta\n1.1.1.1\talpha\n2.2.2.2\tmid\n4.4.4.4\tzeta\n# hostman:end\n"
    );
}

#[test]
fn empty_table_empties_the_block() {
    assert_eq!(
        written(&[], "# hostman:start\n1.1.1.1 a\n# hostman:end\n"),
        "# hostman:start\n# hostman:end\n"
    );
    assert_eq!(written(&[], ""), "# hostman:start\n# hostman:end\n");
}

#[test]
fn every_line_ends_in_one_line_feed() {
    assert_eq!(
        written(&[("h", "1.2.3.4")], "# a\r\n10.0.0.1 foo\r\n# last"),
        "# a\n10.0.0.1 foo\n# last\n# hostman:start\n1.2.3.4\th\n# hostman:end\n"
    );
    assert_eq!(
        written(
            &[("h", "1.2.3.4")],
            "# hostman:start\r\n9.9.9.9 x\r\n# hostman:end\r\n# after"
        ),
        "# hostman:start\n1.2.3.4\th\n# hostman:end\n# after\n"
    );
}

#[test]
fn block_without_order_is_left_alone() {
    // The end marker stands before the start marker: that is no block, the
    // lines stay and a block is put at the end.
    assert_eq!(
        written(&[("h", "1.2.3.4")], "# hostman:end\n# hostman:start\n"),
        "# hostman:end\n# hostman:start\n# hostman:start\n1.2.3.4\th\n# hostman:end\n"
    );
}

#[test]
fn writing_what_the_block_holds_changes_nothing() {
    let text = "# mine\n127.0.0.1 localhost\n# hostman:start\n10.0.0.2\ta\n10.0.0.3\tb\n# hostman:end\n# more\n";
    let lines = parse_lines(text).unwrap();
    let held = Table { host_mapping: extract_mapping(&lines), current: None };
    assert_eq!(write_table(&held, text), Ok(text.to_owned()));
}

#[test]
fn written_table_is_read_back() {
    let entries = [("box1", "192.168.1.5"), ("box2", "192.168.1.6"), ("v6", "fe80::1")];
    let texts = [
        "",
        "10.0.0.1\tfoo\n",
        "# hostman:start\n1.1.1.1\told\n# hostman:end\n",
        "# a\r\n# hostman:start\r\n1.1.1.1 old older\n# c\n# hostman:end\n2.2.2.2 outside",
    ];
    for text in texts {
        let once = written(&entries, text);
        let read = extract_mapping(&parse_lines(&once).unwrap());
        assert_eq!(read, table(&entries).host_mapping, "{:?}", text);
        assert_eq!(written(&entries, &once), once, "{:?}", text);
    }
}

#[test]
fn entry_that_no_line_can_state_is_not_read_back() {
    // An address that starts with a digit and goes on with a colon is read
    // as a run of digits followed by an alias.
    let entries = [("host", "2001:db8::1")];
    let once = written(&entries, "");
    let read = extract_mapping(&parse_lines(&once).unwrap());
    assert_eq!(
        read,
        table(&[(":db8::1", "2001"), ("host", "2001")]).host_mapping
    );
}

#[test]
fn lone_end_marker_breaks_the_reading_back() {
    let once = written(&[("a", "1.1.1.1")], "# hostman:end\n");
    assert_eq!(
        once,
        "# hostman:end\n# hostman:start\n1.1.1.1\ta\n# hostman:end\n"
    );
    let read = extract_mapping(&parse_lines(&once).unwrap());
    assert_eq!(read, HostMap::new());
}
