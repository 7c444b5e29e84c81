use hostman::service::{get, update};
use hostman::table::{Current, HostMap, Table};

fn map(entries: &[(&str, &str)]) -> HostMap {
    let mut m = HostMap::new();
    for (host, ip) in entries {
        m.insert((*host).to_owned(), (*ip).to_owned());
    }
    m
}

#[test]
fn reports_are_merged() {
    let first = update(None, "h1".to_owned(), "1.2.3.4".to_owned());
    assert_eq!(first.host_mapping, map(&[("h1", "1.2.3.4")]));
    let second = update(Some(first), "h2".to_owned(), "5.6.7.8".to_owned());
    let fetched = get(Some(second));
    assert_eq!(fetched.host_mapping.get("h1"), Some(&"1.2.3.4".to_owned()));
    assert_eq!(fetched.host_mapping.get("h2"), Some(&"5.6.7.8".to_owned()));
    assert_eq!(fetched.host_mapping.len(), 2);
    let third = update(Some(fetched), "h1".to_owned(), "9.9.9.9".to_owned());
    assert_eq!(third.host_mapping, map(&[("h1", "9.9.9.9"), ("h2", "5.6.7.8")]));
}

#[test]
fn first_report_fills_the_empty_table() {
    let table = update(None, "box1".to_owned(), "192.168.1.5".to_owned());
    assert_eq!(
        table,
        Table { host_mapping: map(&[("box1", "192.168.1.5")]), current: None }
    );
}

#[test]
fn fetch_changes_nothing() {
    assert_eq!(get(None), Table::default());
    let stored = Table {
        host_mapping: map(&[("a", "1.1.1.1"), ("b", "2.2.2.2")]),
        current: Some(Current { host: "a".to_owned(), ips: vec!["1.1.1.1".to_owned()] }),
    };
    let same = Table {
        host_mapping: map(&[("a", "1.1.1.1"), ("b", "2.2.2.2")]),
        current: Some(Current { host: "a".to_owned(), ips: vec!["1.1.1.1".to_owned()] }),
    };
    assert_eq!(get(Some(stored)), same);
}

#[test]
fn report_keeps_what_the_table_carries() {
    let stored = Table {
        host_mapping: map(&[("a", "1.1.1.1")]),
        current: Some(Current { host: "a".to_owned(), ips: vec!["1.1.1.1".to_owned()] }),
    };
    assert_eq!(
        update(Some(stored), "b".to_owned(), "2.2.2.2".to_owned()),
        Table {
            host_mapping: map(&[("a", "1.1.1.1"), ("b", "2.2.2.2")]),
            current: Some(Current { host: "a".to_owned(), ips: vec!["1.1.1.1".to_owned()] }),
        }
    );
}
