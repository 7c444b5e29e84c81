//! The table of host names and addresses that agents and service exchange,
//! and the ordered map that it is made of.

use vstd::prelude::*;
use crate::chars::to_chars;
use crate::order::{
    lemma_precedes_asymmetric, lemma_precedes_transitive, precedes, rank, Rank,
};

verus! {

/// A host name with its address, as characters.
pub type Pair = (Seq<char>, Seq<char>);

/// The map that results from entering `pairs` one after the other, a later
/// pair replacing an earlier one of the same host name.
pub open spec fn pairs_map(pairs: Seq<Pair>) -> Map<Seq<char>, Seq<char>>
    decreases pairs.len(),
{
    if pairs.len() == 0 {
        Map::empty()
    } else {
        pairs_map(pairs.drop_last()).insert(pairs.last().0, pairs.last().1)
    }
}

/// The host names of `pairs` rise strictly, so none occurs twice.
pub open spec fn sorted(pairs: Seq<Pair>) -> bool {
    forall|i: int, j: int|
        0 <= i < j < pairs.len() ==> precedes(#[trigger] pairs[i].0, #[trigger] pairs[j].0)
}

/// Some pair of `pairs` is for the host name `k`.
pub open spec fn has_host(pairs: Seq<Pair>, k: Seq<char>) -> bool {
    exists|i: int| 0 <= i < pairs.len() && (#[trigger] pairs[i]).0 == k
}

/// [`pairs_map`] holds the host names of `pairs` and no others.
pub proof fn lemma_pairs_map_dom(pairs: Seq<Pair>, k: Seq<char>)
    ensures
        pairs_map(pairs).contains_key(k) <==> has_host(pairs, k),
    decreases pairs.len(),
{
    if pairs.len() > 0 {
        let front = pairs.drop_last();
        lemma_pairs_map_dom(front, k);
        if has_host(pairs, k) {
            let i = choose|i: int| 0 <= i < pairs.len() && (#[trigger] pairs[i]).0 == k;
            if i < front.len() {
                assert(front[i].0 == k);
            }
        }
    }
}

/// [`pairs_map`] gives a host name the address of its last pair.
pub proof fn lemma_pairs_map_value(pairs: Seq<Pair>, i: int)
    requires
        0 <= i < pairs.len(),
        forall|j: int| i < j < pairs.len() ==> (#[trigger] pairs[j]).0 != pairs[i].0,
    ensures
        pairs_map(pairs).contains_key(pairs[i].0),
        pairs_map(pairs)[pairs[i].0] == pairs[i].1,
    decreases pairs.len(),
{
    if i < pairs.len() - 1 {
        lemma_pairs_map_value(pairs.drop_last(), i);
    }
}

/// A map of pairs gives each of its host names the address of one of the
/// pairs.
pub proof fn lemma_pairs_map_from_pair(pairs: Seq<Pair>, host: Seq<char>)
    requires
        pairs_map(pairs).contains_key(host),
    ensures
        exists|j: int|
            0 <= j < pairs.len() && #[trigger] pairs[j] == (host, pairs_map(pairs)[host]),
    decreases pairs.len(),
{
    if pairs.len() > 0 && pairs.last().0 != host {
        lemma_pairs_map_from_pair(pairs.drop_last(), host);
    }
}

/// Where the host names rise strictly, each has the address of its own pair.
pub proof fn lemma_sorted_lookup(pairs: Seq<Pair>, i: int)
    requires
        sorted(pairs),
        0 <= i < pairs.len(),
    ensures
        pairs_map(pairs).contains_key(pairs[i].0),
        pairs_map(pairs)[pairs[i].0] == pairs[i].1,
{
    assert forall|j: int| i < j < pairs.len() implies (#[trigger] pairs[j]).0 != pairs[i].0 by {
        lemma_precedes_asymmetric(pairs[i].0, pairs[j].0);
    }
    lemma_pairs_map_value(pairs, i);
}

/// Where the host names rise strictly, a host name stands at one place only.
pub proof fn lemma_sorted_distinct(pairs: Seq<Pair>, i: int, j: int)
    requires
        sorted(pairs),
        0 <= i < pairs.len(),
        0 <= j < pairs.len(),
        pairs[i].0 == pairs[j].0,
    ensures
        i == j,
{
    if i < j {
        lemma_precedes_asymmetric(pairs[i].0, pairs[j].0);
    }
    if j < i {
        lemma_precedes_asymmetric(pairs[j].0, pairs[i].0);
    }
}

/// Giving the pair at `i` a new address keeps the order and enters the new
/// address in the map.
pub proof fn lemma_replace(pairs: Seq<Pair>, i: int, ip: Seq<char>)
    requires
        sorted(pairs),
        0 <= i < pairs.len(),
    ensures
        sorted(pairs.update(i, (pairs[i].0, ip))),
        pairs_map(pairs.update(i, (pairs[i].0, ip))) == pairs_map(pairs).insert(pairs[i].0, ip),
{
    let k = pairs[i].0;
    let after = pairs.update(i, (k, ip));
    let left = pairs_map(after);
    let right = pairs_map(pairs).insert(k, ip);
    assert forall|x: Seq<char>| left.contains_key(x) <==> right.contains_key(x) by {
        lemma_pairs_map_dom(after, x);
        lemma_pairs_map_dom(pairs, x);
        if has_host(pairs, x) {
            let j = choose|j: int| 0 <= j < pairs.len() && (#[trigger] pairs[j]).0 == x;
            assert(after[j].0 == x);
        }
    }
    assert forall|x: Seq<char>| left.contains_key(x) implies left[x] == right[x] by {
        lemma_pairs_map_dom(after, x);
        let j = choose|j: int| 0 <= j < after.len() && (#[trigger] after[j]).0 == x;
        lemma_sorted_lookup(after, j);
        if j != i {
            if pairs[j].0 == k {
                lemma_sorted_distinct(pairs, i, j);
            }
            lemma_sorted_lookup(pairs, j);
        }
    }
}

/// Entering a new host name at its place in the order keeps the order and
/// enters the pair in the map.
pub proof fn lemma_insert(pairs: Seq<Pair>, i: int, host: Seq<char>, ip: Seq<char>)
    requires
        sorted(pairs),
        0 <= i <= pairs.len(),
        forall|j: int| 0 <= j < i ==> precedes((#[trigger] pairs[j]).0, host),
        forall|j: int| i <= j < pairs.len() ==> precedes(host, (#[trigger] pairs[j]).0),
    ensures
        sorted(pairs.insert(i, (host, ip))),
        pairs_map(pairs.insert(i, (host, ip))) == pairs_map(pairs).insert(host, ip),
{
    let after = pairs.insert(i, (host, ip));
    let left = pairs_map(after);
    let right = pairs_map(pairs).insert(host, ip);
    assert forall|x: Seq<char>| left.contains_key(x) <==> right.contains_key(x) by {
        lemma_pairs_map_dom(after, x);
        lemma_pairs_map_dom(pairs, x);
        if has_host(pairs, x) {
            let j = choose|j: int| 0 <= j < pairs.len() && (#[trigger] pairs[j]).0 == x;
            if j < i {
                assert(after[j].0 == x);
            } else {
                assert(after[j + 1].0 == x);
            }
        }
        if x == host {
            assert(after[i].0 == x);
        }
    }
    assert forall|x: Seq<char>| left.contains_key(x) implies left[x] == right[x] by {
        lemma_pairs_map_dom(after, x);
        let j = choose|j: int| 0 <= j < after.len() && (#[trigger] after[j]).0 == x;
        lemma_sorted_lookup(after, j);
        if j < i {
            lemma_precedes_asymmetric(pairs[j].0, host);
            lemma_sorted_lookup(pairs, j);
        } else if j > i {
            lemma_precedes_asymmetric(host, pairs[j - 1].0);
            lemma_sorted_lookup(pairs, j - 1);
        }
    }
}

/// Without its last pair, a sequence of rising host names maps what it
/// mapped before but for the last host name.
pub proof fn lemma_sorted_drop_last(pairs: Seq<Pair>)
    requires
        sorted(pairs),
        pairs.len() > 0,
    ensures
        sorted(pairs.drop_last()),
        pairs_map(pairs.drop_last()) == pairs_map(pairs).remove(pairs.last().0),
{
    let front = pairs.drop_last();
    let host = pairs.last().0;
    lemma_pairs_map_dom(front, host);
    if has_host(front, host) {
        let i = choose|i: int| 0 <= i < front.len() && (#[trigger] front[i]).0 == host;
        lemma_sorted_distinct(pairs, i, pairs.len() - 1);
    }
}

/// The order of the walk is fixed by what the map holds: two sequences of
/// rising host names that make the same map are the same sequence.
pub proof fn lemma_sorted_unique(first: Seq<Pair>, second: Seq<Pair>)
    requires
        sorted(first),
        sorted(second),
        pairs_map(first) == pairs_map(second),
    ensures
        first == second,
    decreases first.len(),
{
    if first.len() == 0 {
        if second.len() > 0 {
            lemma_pairs_map_dom(second, second[0].0);
        }
    } else {
        let a = first.len() - 1;
        let host = first[a].0;
        lemma_sorted_lookup(first, a);
        lemma_pairs_map_dom(second, host);
        let j = choose|j: int| 0 <= j < second.len() && (#[trigger] second[j]).0 == host;
        let b = second.len() - 1;
        let other = second[b].0;
        lemma_sorted_lookup(second, b);
        lemma_pairs_map_dom(first, other);
        let i = choose|i: int| 0 <= i < first.len() && (#[trigger] first[i]).0 == other;
        if i < a {
            lemma_precedes_asymmetric(other, host);
        }
        lemma_sorted_drop_last(first);
        lemma_sorted_drop_last(second);
        lemma_sorted_unique(first.drop_last(), second.drop_last());
        assert(first =~= first.drop_last().push(first[a]));
    }
}

/// One entry of a [`HostMap`].
#[derive(Debug, PartialEq, Eq)]
pub struct Entry {
    pub host: String,
    pub ip: String,
}

/// A map from host name to address that is walked in the order of the host
/// names, so that what is written from it is the same text every time.
///
/// The entries are kept as a vector in which the host names rise strictly.
/// Its view is the map; [`HostMap::pairs`] is the walk.
#[derive(Debug, PartialEq, Eq)]
pub struct HostMap {
    entries: Vec<Entry>,
}

/// The entries as pairs of characters.
pub open spec fn pairs_of(entries: Seq<Entry>) -> Seq<Pair> {
    Seq::new(entries.len(), |i: int| (entries[i].host@, entries[i].ip@))
}

impl View for HostMap {
    type V = Map<Seq<char>, Seq<char>>;

    open spec fn view(&self) -> Map<Seq<char>, Seq<char>> {
        pairs_map(self.pairs())
    }
}

impl HostMap {
    /// The entries in the order in which they are walked.
    pub closed spec fn pairs(&self) -> Seq<Pair> {
        pairs_of(self.entries@)
    }

    /// The host names rise strictly from entry to entry.
    #[verifier::type_invariant]
    pub open spec fn ordered(&self) -> bool {
        sorted(self.pairs())
    }

    /// A map without entries.
    pub fn new() -> (m: HostMap)
        ensures
            m.pairs() == Seq::<Pair>::empty(),
            m@ == Map::<Seq<char>, Seq<char>>::empty(),
    {
        HostMap { entries: Vec::new() }
    }

    /// The number of entries.
    pub fn len(&self) -> (n: usize)
        ensures
            n == self.pairs().len(),
    {
        self.entries.len()
    }

    /// Takes the entries out and leaves the map empty. The order must hold
    /// whenever the map is lent out, so a change is made on the entries
    /// alone and the changed entries are put back whole.
    fn take_entries(&mut self) -> (entries: Vec<Entry>)
        ensures
            entries@ == old(self).entries@,
            final(self).entries@ == Seq::<Entry>::empty(),
    {
        let mut entries: Vec<Entry> = Vec::new();
        core::mem::swap(&mut self.entries, &mut entries);
        entries
    }

    /// Enters `ip` as the address of `host` and returns the address that
    /// `host` had before, if it had one.
    pub fn insert(&mut self, host: String, ip: String) -> (previous: Option<String>)
        ensures
            final(self)@ == old(self)@.insert(host@, ip@),
            sorted(final(self).pairs()),
            previous.deep_view() == (if old(self)@.contains_key(host@) {
                Some(old(self)@[host@])
            } else {
                None
            }),
    {
        proof {
            use_type_invariant(&*self);
        }
        let key = to_chars(host.as_str());
        let n = self.entries.len();
        let mut i: usize = 0;
        let mut passed = false;
        while i < n && !passed
            invariant
                i <= n,
                n == self.entries.len(),
                *self == *old(self),
                sorted(self.pairs()),
                key@ == host@,
                forall|j: int| 0 <= j < i ==> precedes((#[trigger] self.pairs()[j]).0, host@),
                passed ==> i < n && precedes(host@, self.pairs()[i as int].0),
            decreases n - i + (if passed { 0int } else { 1int }),
        {
            match rank(self.entries[i].host.as_str(), &key) {
                Rank::Before => {
                    i += 1;
                },
                Rank::Same => {
                    let previous = self.entries[i].ip.clone();
                    proof {
                        lemma_replace(self.pairs(), i as int, ip@);
                        lemma_sorted_lookup(self.pairs(), i as int);
                    }
                    let mut entries = self.take_entries();
                    entries.set(i, Entry { host, ip });
                    assert(pairs_of(entries@) =~= old(self).pairs().update(
                        i as int,
                        (host@, ip@),
                    ));
                    self.entries = entries;
                    return Some(previous);
                },
                Rank::After => {
                    passed = true;
                },
            }
        }
        proof {
            let pairs = self.pairs();
            assert forall|j: int| i <= j < pairs.len() implies precedes(
                host@,
                (#[trigger] pairs[j]).0,
            ) by {
                if i < j {
                    lemma_precedes_transitive(host@, pairs[i as int].0, pairs[j].0);
                }
            }
            lemma_insert(pairs, i as int, host@, ip@);
            lemma_pairs_map_dom(pairs, host@);
            if has_host(pairs, host@) {
                let j = choose|j: int| 0 <= j < pairs.len() && (#[trigger] pairs[j]).0 == host@;
                if j < i {
                    lemma_precedes_asymmetric(pairs[j].0, host@);
                } else {
                    lemma_precedes_asymmetric(host@, pairs[j].0);
                }
            }
        }
        let mut entries = self.take_entries();
        entries.insert(i, Entry { host, ip });
        assert(pairs_of(entries@) =~= old(self).pairs().insert(i as int, (host@, ip@)));
        self.entries = entries;
        None
    }

    /// The entry at place `i` of the walk, if there are that many. The walk
    /// goes by rising host names.
    pub fn entry(&self, i: usize) -> (e: Option<&Entry>)
        ensures
            sorted(self.pairs()),
            match e {
                Some(entry) => i < self.pairs().len() && (entry.host@, entry.ip@)
                    == self.pairs()[i as int],
                None => i >= self.pairs().len(),
            },
    {
        proof {
            use_type_invariant(self);
        }
        if i < self.entries.len() {
            Some(&self.entries[i])
        } else {
            None
        }
    }

    /// The address of `host`, if the map holds one.
    pub fn get(&self, host: &str) -> (ip: Option<&String>)
        ensures
            match ip {
                Some(found) => self@.contains_key(host@) && found@ == self@[host@],
                None => !self@.contains_key(host@),
            },
    {
        proof {
            use_type_invariant(self);
        }
        let key = to_chars(host);
        let n = self.entries.len();
        let mut i: usize = 0;
        while i < n
            invariant
                i <= n,
                n == self.entries.len(),
                sorted(self.pairs()),
                key@ == host@,
                forall|j: int| 0 <= j < i ==> (#[trigger] self.pairs()[j]).0 != host@,
            decreases n - i,
        {
            match rank(self.entries[i].host.as_str(), &key) {
                Rank::Before => {
                    proof {
                        lemma_precedes_asymmetric(self.pairs()[i as int].0, host@);
                    }
                },
                Rank::Same => {
                    proof {
                        lemma_sorted_lookup(self.pairs(), i as int);
                    }
                    return Some(&self.entries[i].ip);
                },
                Rank::After => {
                    proof {
                        let pairs = self.pairs();
                        lemma_pairs_map_dom(pairs, host@);
                        assert forall|j: int| 0 <= j < pairs.len() implies (#[trigger] pairs[j]).0
                            != host@ by {
                            if i < j {
                                lemma_precedes_transitive(host@, pairs[i as int].0, pairs[j].0);
                                lemma_precedes_asymmetric(host@, pairs[j].0);
                            } else if i == j {
                                lemma_precedes_asymmetric(host@, pairs[j].0);
                            }
                        }
                    }
                    return None;
                },
            }
            i += 1;
        }
        proof {
            lemma_pairs_map_dom(self.pairs(), host@);
        }
        None
    }
}

/// The agent that reports: its host name and its addresses, the first of
/// which it reports.
#[derive(Debug, PartialEq, Eq)]
pub struct Current {
    pub host: String,
    pub ips: Vec<String>,
}

/// What a [`Current`] holds, as sequences of characters.
pub struct CurrentView {
    pub host: Seq<char>,
    pub ips: Seq<Seq<char>>,
}

impl View for Current {
    type V = CurrentView;

    open spec fn view(&self) -> CurrentView {
        CurrentView { host: self.host@, ips: self.ips.deep_view() }
    }
}

impl DeepView for Current {
    type V = CurrentView;

    open spec fn deep_view(&self) -> CurrentView {
        self@
    }
}

/// The unit that agents and service exchange: the shared mapping and, on the
/// way to the service, the agent's report of itself.
#[derive(Debug, PartialEq, Eq)]
pub struct Table {
    pub host_mapping: HostMap,
    pub current: Option<Current>,
}

impl Default for Table {
    /// The empty table, with no report.
    fn default() -> (t: Table)
        ensures
            t.host_mapping@ == Map::<Seq<char>, Seq<char>>::empty(),
            t.host_mapping.pairs() == Seq::<Pair>::empty(),
            t.current is None,
    {
        Table { host_mapping: HostMap::new(), current: None }
    }
}

} // verus!
