//! The service's side of a synchronisation: what each request does to the
//! stored table.
//!
//! The service keeps one table. A report enters one address under one host
//! name and answers with the whole table; a fetch answers with the table as
//! it is. A service that has stored nothing yet starts from the empty table.

use vstd::prelude::*;
use crate::table::{sorted, Current, Pair, Table};

verus! {

/// The mapping of the stored table, empty where nothing is stored.
pub open spec fn stored_mapping(stored: Option<Table>) -> Map<Seq<char>, Seq<char>> {
    match stored {
        Some(table) => table.host_mapping@,
        None => Map::empty(),
    }
}

/// The report that the stored table carries, if any.
pub open spec fn stored_report(stored: Option<Table>) -> Option<Current> {
    match stored {
        Some(table) => table.current,
        None => None,
    }
}

/// Answers a report: enters `ip` as the address of `hostname` in the stored
/// table and returns the table to store and to send. No other entry changes.
pub fn update(stored: Option<Table>, hostname: String, ip: String) -> (t: Table)
    ensures
        t.host_mapping@ == stored_mapping(stored).insert(hostname@, ip@),
        sorted(t.host_mapping.pairs()),
        t.current == stored_report(stored),
{
    let mut table = get(stored);
    table.host_mapping.insert(hostname, ip);
    table
}

/// Answers a fetch: returns the stored table unchanged, the empty table
/// where nothing is stored.
pub fn get(stored: Option<Table>) -> (t: Table)
    ensures
        t.host_mapping@ == stored_mapping(stored),
        t.current == stored_report(stored),
        match stored {
            Some(table) => t == table,
            None => t.host_mapping.pairs() == Seq::<Pair>::empty(),
        },
{
    match stored {
        Some(table) => table,
        None => Table::default(),
    }
}

} // verus!
