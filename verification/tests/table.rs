use hostman::order::{rank, Rank};
use hostman::table::{HostMap, Table};

fn walk(map: &HostMap) -> Vec<(String, String)> {
    let mut out = Vec::new();
    let mut i = 0;
    while let Some(entry) = map.entry(i) {
        out.push((entry.host.clone(), entry.ip.clone()));
        i += 1;
    }
    out
}

fn pair(host: &str, ip: &str) -> (String, String) {
    (host.to_owned(), ip.to_owned())
}

#[test]
fn new_map_is_empty() {
    let map = HostMap::new();
    assert_eq!(map.len(), 0);
    assert!(map.entry(0).is_none());
    assert_eq!(map.get("a"), None);
}

#[test]
fn insert_keeps_the_order_of_the_host_names() {
    let mut map = HostMap::new();
    assert_eq!(map.insert("m".to_owned(), "3.3.3.3".to_owned()), None);
    assert_eq!(map.insert("b".to_owned(), "2.2.2.2".to_owned()), None);
    assert_eq!(map.insert("z".to_owned(), "4.4.4.4".to_owned()), None);
    assert_eq!(map.insert("a".to_owned(), "1.1.1.1".to_owned()), None);
    assert_eq!(map.insert("ma".to_owned(), "5.5.5.5".to_owned()), None);
    assert_eq!(map.len(), 5);
    assert_eq!(
        walk(&map),
        vec![
            pair("a", "1.1.1.1"),
            pair("b", "2.2.2.2"),
            pair("m", "3.3.3.3"),
            pair("ma", "5.5.5.5"),
            pair("z", "4.4.4.4"),
        ]
    );
    assert!(map.entry(5).is_none());
}

#[test]
fn insert_replaces_and_returns_the_old_address() {
    let mut map = HostMap::new();
    map.insert("a".to_owned(), "1.1.1.1".to_owned());
    map.insert("b".to_owned(), "2.2.2.2".to_owned());
    assert_eq!(
        map.insert("a".to_owned(), "9.9.9.9".to_owned()),
        Some("1.1.1.1".to_owned())
    );
    assert_eq!(map.len(), 2);
    assert_eq!(walk(&map), vec![pair("a", "9.9.9.9"), pair("b", "2.2.2.2")]);
}

#[test]
fn get_finds_what_was_inserted() {
    let mut map = HostMap::new();
    map.insert("b".to_owned(), "2.2.2.2".to_owned());
    map.insert("d".to_owned(), "4.4.4.4".to_owned());
    assert_eq!(map.get("b"), Some(&"2.2.2.2".to_owned()));
    assert_eq!(map.get("d"), Some(&"4.4.4.4".to_owned()));
    assert_eq!(map.get("a"), None);
    assert_eq!(map.get("c"), None);
    assert_eq!(map.get("e"), None);
    assert_eq!(map.get(""), None);
    assert_eq!(map.get("bb"), None);
}

#[test]
fn the_walk_goes_as_a_btree_map_goes() {
    let hosts = ["pop-os", "Zed", "a", "", "ab", "a.b", "\u{e9}t\u{e9}", "z", "zz", "10", "9", "\u{1F600}"];
    let mut map = HostMap::new();
    let mut reference = std::collections::BTreeMap::new();
    for (i, host) in hosts.iter().enumerate() {
        let ip = format!("10.0.0.{}", i);
        map.insert((*host).to_owned(), ip.clone());
        reference.insert((*host).to_owned(), ip);
    }
    let expected: Vec<(String, String)> = reference.into_iter().collect();
    assert_eq!(walk(&map), expected);
}

#[test]
fn rank_orders_as_strings_compare() {
    let texts = ["", "a", "ab", "b", "A", "a\u{e9}", "\u{e9}", "\u{1F600}", "10", "9"];
    for a in texts {
        for b in texts {
            let chars: Vec<char> = b.chars().collect();
            let expected = if a < b {
                Rank::Before
            } else if a == b {
                Rank::Same
            } else {
                Rank::After
            };
            assert_eq!(rank(a, &chars), expected, "{:?} {:?}", a, b);
        }
    }
}

#[test]
fn default_table_is_empty() {
    let table = Table::default();
    assert_eq!(table.host_mapping.len(), 0);
    assert_eq!(table.current, None);
    assert_eq!(table, Table { host_mapping: HostMap::new(), current: None });
}
