use hostman::agent::{
    extract_mapping, gen_table, loopback, request_for, self_report, table_from, Interface,
    InterfaceAddress, Request,
};
use hostman::parsing::{parse_lines, MalformedLine, ParseError};
use hostman::table::{Current, HostMap, Table};

fn map(entries: &[(&str, &str)]) -> HostMap {
    let mut m = HostMap::new();
    for (host, ip) in entries {
        m.insert((*host).to_owned(), (*ip).to_owned());
    }
    m
}

fn address(ipv4: bool, ip: &str) -> InterfaceAddress {
    InterfaceAddress { ipv4, ip: ip.to_owned() }
}

fn interface(ips: Vec<InterfaceAddress>) -> Interface {
    Interface { ips }
}

fn extract(text: &str) -> HostMap {
    extract_mapping(&parse_lines(text).unwrap())
}

#[test]
fn mapping_is_read_from_the_block_only() {
    assert_eq!(
        extract("9.9.9.9 before a\n# hostman:start\n1.1.1.1 a\n2.2.2.2 b c\n# hostman:end\n8.8.8.8 after b\n"),
        map(&[("a", "1.1.1.1"), ("b", "2.2.2.2"), ("c", "2.2.2.2")])
    );
}

#[test]
fn lines_outside_the_block_change_nothing() {
    let block = "# hostman:start\n1.1.1.1 a\n# x\n::1 b\n# hostman:end\n";
    let expected = map(&[("a", "1.1.1.1"), ("b", "::1")]);
    assert_eq!(extract(block), expected);
    let outside = ["7.7.7.7 a b\n", "# note\n", "fe80::2 a\n1.1.1.2 b\n"];
    for tail in outside {
        assert_eq!(extract(&format!("{}{}", block, tail)), expected);
    }
    assert_eq!(extract(&format!("{}{}", block, "# hostman:start\n5.5.5.5 a\n# hostman:end\n")), expected);
}

#[test]
fn without_a_block_the_mapping_is_empty() {
    assert_eq!(extract(""), HostMap::new());
    assert_eq!(extract("1.1.1.1 a\n"), HostMap::new());
    assert_eq!(extract("# hostman:start\n1.1.1.1 a\n"), HostMap::new());
    assert_eq!(extract("# hostman:end\n1.1.1.1 a\n# hostman:start\n"), HostMap::new());
    assert_eq!(extract("# hostman:start\n# hostman:end\n"), HostMap::new());
}

#[test]
fn later_line_wins() {
    assert_eq!(
        extract("# hostman:start\n1.1.1.1 a b\n2.2.2.2 b\n3.3.3.3 a a\n# hostman:end\n"),
        map(&[("a", "3.3.3.3"), ("b", "2.2.2.2")])
    );
}

#[test]
fn report_holds_the_ipv4_addresses_but_loopback() {
    let interfaces = vec![
        interface(vec![address(true, "127.0.0.1"), address(false, "::1")]),
        interface(vec![]),
        interface(vec![address(true, "192.168.1.5"), address(false, "fe80::1")]),
        interface(vec![address(true, "10.0.0.7"), address(true, "127.0.0.2")]),
    ];
    assert_eq!(
        self_report("box1".to_owned(), &interfaces),
        Some(Current {
            host: "box1".to_owned(),
            ips: vec!["192.168.1.5".to_owned(), "10.0.0.7".to_owned()],
        })
    );
}

#[test]
fn no_report_without_a_reportable_address() {
    assert_eq!(self_report("box1".to_owned(), &vec![]), None);
    assert_eq!(self_report("box1".to_owned(), &vec![interface(vec![])]), None);
    assert_eq!(
        self_report(
            "box1".to_owned(),
            &vec![
                interface(vec![address(true, "127.0.0.1"), address(false, "fe80::1")]),
                interface(vec![address(false, "10.0.0.1")]),
            ]
        ),
        None
    );
}

#[test]
fn table_from_puts_mapping_and_report_together() {
    let lines = parse_lines("# hostman:start\n1.1.1.1 a\n# hostman:end\n").unwrap();
    assert_eq!(
        table_from(
            &lines,
            "box1".to_owned(),
            &vec![interface(vec![address(true, "192.168.1.5")])]
        ),
        Table {
            host_mapping: map(&[("a", "1.1.1.1")]),
            current: Some(Current {
                host: "box1".to_owned(),
                ips: vec!["192.168.1.5".to_owned()],
            }),
        }
    );
    assert_eq!(
        table_from(
            &lines,
            "box1".to_owned(),
            &vec![interface(vec![address(true, "127.0.0.1")])]
        ),
        Table { host_mapping: map(&[("a", "1.1.1.1")]), current: None }
    );
}

#[test]
fn request_reports_the_first_address() {
    let table = Table {
        host_mapping: HostMap::new(),
        current: Some(Current {
            host: "box1".to_owned(),
            ips: vec!["192.168.1.5".to_owned(), "10.0.0.7".to_owned()],
        }),
    };
    let request = request_for(&table);
    assert_eq!(
        request,
        Request::Report { host: "box1".to_owned(), ip: "192.168.1.5".to_owned() }
    );
    assert_eq!(request.path(), "/update/box1/192.168.1.5/");
}

#[test]
fn request_fetches_without_a_report() {
    let none = Table { host_mapping: map(&[("a", "1.1.1.1")]), current: None };
    assert_eq!(request_for(&none), Request::Fetch);
    assert_eq!(Request::Fetch.path(), "/get");
    let empty = Table {
        host_mapping: HostMap::new(),
        current: Some(Current { host: "box1".to_owned(), ips: vec![] }),
    };
    assert_eq!(request_for(&empty), Request::Fetch);
}

#[test]
fn loopback_is_the_whole_of_127() {
    for ip in ["127.0.0.1", "127.0.0.2", "127.1.2.3", "127.255.255.255", "127.0.0.0"] {
        assert!(loopback(ip), "{}", ip);
    }
    for ip in ["126.0.0.1", "128.0.0.1", "12.7.0.1", "1.127.0.1", "10.127.0.1", "1270.0.0.1", "127", "", "27.0.0.1"] {
        assert!(!loopback(ip), "{}", ip);
    }
}

#[test]
fn loopback_is_what_the_address_itself_calls_loopback() {
    // The texts are made as the library gets them: from an address of an
    // interface, by `ip().to_string()`.
    let mut first: u16 = 0;
    while first <= 255 {
        for rest in ["0.0.0", "0.0.1", "1.2.3", "127.127.127", "255.255.255"] {
            let network: pnet::ipnetwork::IpNetwork =
                format!("{}.{}/32", first, rest).parse().unwrap();
            assert!(network.is_ipv4());
            let text = network.ip().to_string();
            assert_eq!(loopback(&text), network.ip().is_loopback(), "{}", text);
        }
        first += 1;
    }
}

#[test]
fn agent_with_loopback_addresses_alone_reports_nothing() {
    assert_eq!(
        self_report(
            "box1".to_owned(),
            &vec![
                interface(vec![address(true, "127.0.0.2")]),
                interface(vec![address(true, "127.0.0.1"), address(true, "127.8.9.10")]),
            ]
        ),
        None
    );
    let lines = parse_lines("# mine\n").unwrap();
    let table = table_from(
        &lines,
        "box1".to_owned(),
        &vec![interface(vec![address(true, "127.0.0.2")])],
    );
    assert_eq!(table.current, None);
    assert_eq!(request_for(&table), Request::Fetch);
}

#[test]
fn gen_table_reads_the_file() {
    let table = gen_table(
        "# hostman:start\n1.1.1.1 a\n# hostman:end\n2.2.2.2 b\n",
        "box1".to_owned(),
    )
    .unwrap();
    assert_eq!(table.host_mapping, map(&[("a", "1.1.1.1")]));
    if let Some(current) = table.current {
        assert_eq!(current.host, "box1");
        assert!(!current.ips.is_empty());
        assert!(current.ips.iter().all(|ip| !ip.starts_with("127.")));
    }
}

#[test]
fn gen_table_fails_on_a_malformed_file() {
    assert_eq!(
        gen_table("# fine\nnot an ip or comment\n", "box1".to_owned()),
        Err(ParseError { line: 2, reason: MalformedLine::MissingAddress })
    );
}
