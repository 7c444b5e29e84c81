//! The agent's side of a synchronisation: what the local file says, what the
//! agent reports of itself, and which request it sends.
//!
//! The agent reports its IPv4 addresses that are no loopback addresses, and
//! where it has none it reports nothing and only fetches.

use vstd::prelude::*;
use crate::chars::to_chars;
use crate::parsing::{
    all_parse, fails_at, lines_of, parse_lines, parsed, Line, LineView, Lines, ParseError,
};
use crate::region::{region_of, splice_hostman_lines};
use crate::table::{pairs_map, Current, CurrentView, HostMap, Pair, Table};

verus! {

/// The pairs of host name and address that a line states, in the order of
/// its aliases. A comment states none.
pub open spec fn line_pairs(line: LineView) -> Seq<Pair> {
    match line {
        LineView::Comment(_) => Seq::empty(),
        LineView::Domain { ip, aliases } => Seq::new(aliases.len(), |i: int| (aliases[i], ip)),
    }
}

/// The pairs that the lines state, in the order of the lines.
pub open spec fn doc_pairs(lines: Seq<LineView>) -> Seq<Pair>
    decreases lines.len(),
{
    if lines.len() == 0 {
        Seq::empty()
    } else {
        doc_pairs(lines.drop_last()) + line_pairs(lines.last())
    }
}

/// The mapping that a document holds: what the lines of its managed block
/// state, a later line replacing an earlier one. Lines outside the block do
/// not count, and without a block the mapping is empty.
pub open spec fn mapping_of(doc: Seq<LineView>) -> Map<Seq<char>, Seq<char>> {
    match region_of(doc) {
        Some((start, end)) => pairs_map(doc_pairs(doc.subrange(start, end))),
        None => Map::empty(),
    }
}

/// Reads the mapping out of the managed block of a document.
pub fn extract_mapping(lines: &Lines) -> (m: HostMap)
    ensures
        m@ == mapping_of(lines.deep_view()),
{
    let mut m = HostMap::new();
    let ghost doc = lines.deep_view();
    match splice_hostman_lines(lines) {
        Some(range) => {
            let mut i: usize = range.start;
            while i < range.end
                invariant
                    range.start <= i <= range.end <= lines.len(),
                    doc == lines.deep_view(),
                    m@ == pairs_map(doc_pairs(doc.subrange(range.start as int, i as int))),
                decreases range.end - i,
            {
                let ghost done = doc_pairs(doc.subrange(range.start as int, i as int));
                match &lines[i] {
                    Line::Domain { ip, aliases } => {
                        let mut j: usize = 0;
                        while j < aliases.len()
                            invariant
                                j <= aliases.len(),
                                doc[i as int] == (LineView::Domain {
                                    ip: ip@,
                                    aliases: aliases.deep_view(),
                                }),
                                m@ == pairs_map(done + line_pairs(doc[i as int]).take(j as int)),
                            decreases aliases.len() - j,
                        {
                            let ghost stated = line_pairs(doc[i as int]);
                            assert((done + stated.take(j + 1)).drop_last() =~= done + stated.take(
                                j as int,
                            ));
                            m.insert(aliases[j].clone(), ip.clone());
                            j += 1;
                        }
                        assert(line_pairs(doc[i as int]).take(j as int) =~= line_pairs(
                            doc[i as int],
                        ));
                    },
                    Line::Comment(_) => {},
                }
                assert(doc.subrange(range.start as int, i + 1).drop_last() =~= doc.subrange(
                    range.start as int,
                    i as int,
                ));
                i += 1;
            }
        },
        None => {},
    }
    m
}

/// One address of a network interface: whether it is an IPv4 address, and
/// the address as text.
#[derive(Debug, PartialEq, Eq)]
pub struct InterfaceAddress {
    pub ipv4: bool,
    pub ip: String,
}

/// What an [`InterfaceAddress`] holds, the text as characters.
pub struct InterfaceAddressView {
    pub ipv4: bool,
    pub ip: Seq<char>,
}

impl View for InterfaceAddress {
    type V = InterfaceAddressView;

    open spec fn view(&self) -> InterfaceAddressView {
        InterfaceAddressView { ipv4: self.ipv4, ip: self.ip@ }
    }
}

impl DeepView for InterfaceAddress {
    type V = InterfaceAddressView;

    open spec fn deep_view(&self) -> InterfaceAddressView {
        self@
    }
}

/// The text of an IPv4 loopback address, one of 127.0.0.0/8. An IPv4 address
/// is written with its four numbers in decimal and without leading zeros, so
/// the addresses whose first number is 127 are those whose text starts with
/// `127.`.
pub open spec fn is_loopback(ip: Seq<char>) -> bool {
    ip.len() >= 4 && ip[0] == '1' && ip[1] == '2' && ip[2] == '7' && ip[3] == '.'
}

/// Tells whether `ip` is the text of an IPv4 loopback address.
pub fn loopback(ip: &str) -> (r: bool)
    ensures
        r == is_loopback(ip@),
{
    let chars = to_chars(ip);
    chars.len() >= 4 && chars[0] == '1' && chars[1] == '2' && chars[2] == '7' && chars[3] == '.'
}

/// An agent reports its IPv4 addresses that are no loopback addresses.
pub open spec fn reportable(address: InterfaceAddressView) -> bool {
    address.ipv4 && !is_loopback(address.ip)
}

/// One network interface of a machine: its addresses.
#[derive(Debug, PartialEq, Eq)]
pub struct Interface {
    pub ips: Vec<InterfaceAddress>,
}

impl View for Interface {
    type V = Seq<InterfaceAddressView>;

    open spec fn view(&self) -> Seq<InterfaceAddressView> {
        self.ips.deep_view()
    }
}

impl DeepView for Interface {
    type V = Seq<InterfaceAddressView>;

    open spec fn deep_view(&self) -> Seq<InterfaceAddressView> {
        self@
    }
}

/// The addresses among `addresses` that an agent reports, in their order.
pub open spec fn reportable_ips(addresses: Seq<InterfaceAddressView>) -> Seq<Seq<char>>
    decreases addresses.len(),
{
    if addresses.len() == 0 {
        Seq::empty()
    } else if reportable(addresses.last()) {
        reportable_ips(addresses.drop_last()).push(addresses.last().ip)
    } else {
        reportable_ips(addresses.drop_last())
    }
}

/// The addresses that an agent with the interfaces `interfaces` reports:
/// interface by interface, the reportable addresses of each.
pub open spec fn reported_ips(interfaces: Seq<Seq<InterfaceAddressView>>) -> Seq<Seq<char>>
    decreases interfaces.len(),
{
    if interfaces.len() == 0 {
        Seq::empty()
    } else {
        reported_ips(interfaces.drop_last()) + reportable_ips(interfaces.last())
    }
}

/// What an agent named `host` with the interfaces `interfaces` reports of
/// itself: nothing, where none of their addresses is reportable.
pub open spec fn report_of(host: Seq<char>, interfaces: Seq<Seq<InterfaceAddressView>>) -> Option<
    CurrentView,
> {
    let ips = reported_ips(interfaces);
    if ips.len() == 0 {
        None
    } else {
        Some(CurrentView { host, ips })
    }
}

/// Builds the agent's report of itself from its host name and its network
/// interfaces.
pub fn self_report(host: String, interfaces: &Vec<Interface>) -> (r: Option<Current>)
    ensures
        r.deep_view() == report_of(host@, interfaces.deep_view()),
{
    let mut ips: Vec<String> = Vec::new();
    let mut n: usize = 0;
    while n < interfaces.len()
        invariant
            n <= interfaces.len(),
            ips.deep_view() == reported_ips(interfaces.deep_view().take(n as int)),
        decreases interfaces.len() - n,
    {
        let addresses = &interfaces[n].ips;
        let ghost before = reported_ips(interfaces.deep_view().take(n as int));
        let ghost seen = interfaces.deep_view().take(n + 1);
        assert(seen.drop_last() =~= interfaces.deep_view().take(n as int));
        let mut i: usize = 0;
        while i < addresses.len()
            invariant
                i <= addresses.len(),
                ips.deep_view() == before + reportable_ips(addresses.deep_view().take(i as int)),
            decreases addresses.len() - i,
        {
            let ghost upto = addresses.deep_view().take(i + 1);
            assert(upto.drop_last() =~= addresses.deep_view().take(i as int));
            let address = &addresses[i];
            if address.ipv4 && !loopback(address.ip.as_str()) {
                let ghost held = ips.deep_view();
                ips.push(address.ip.clone());
                assert(ips.deep_view() =~= held.push(address.ip@));
            }
            i += 1;
        }
        assert(addresses.deep_view().take(i as int) =~= addresses.deep_view());
        n += 1;
    }
    assert(interfaces.deep_view().take(n as int) =~= interfaces.deep_view());
    if ips.len() == 0 {
        None
    } else {
        Some(Current { host, ips })
    }
}

/// Builds the table that an agent sends: the mapping of the document's
/// managed block, and the agent's report of itself.
pub fn table_from(lines: &Lines, host: String, interfaces: &Vec<Interface>) -> (t: Table)
    ensures
        t.host_mapping@ == mapping_of(lines.deep_view()),
        t.current.deep_view() == report_of(host@, interfaces.deep_view()),
{
    Table { host_mapping: extract_mapping(lines), current: self_report(host, interfaces) }
}

/// A request of an agent to the service.
#[derive(Debug, PartialEq, Eq)]
pub enum Request {
    /// Enter `ip` as the address of `host`, then send the table.
    Report { host: String, ip: String },
    /// Send the table as it is.
    Fetch,
}

/// What a [`Request`] holds, as sequences of characters.
pub enum RequestView {
    Report { host: Seq<char>, ip: Seq<char> },
    Fetch,
}

impl View for Request {
    type V = RequestView;

    open spec fn view(&self) -> RequestView {
        match *self {
            Request::Report { host, ip } => RequestView::Report { host: host@, ip: ip@ },
            Request::Fetch => RequestView::Fetch,
        }
    }
}

/// The request that goes with a report: the agent reports the first of its
/// addresses, and only fetches where it has none to report.
pub open spec fn request_of(current: Option<CurrentView>) -> RequestView {
    match current {
        Some(report) => if report.ips.len() > 0 {
            RequestView::Report { host: report.host, ip: report.ips[0] }
        } else {
            RequestView::Fetch
        },
        None => RequestView::Fetch,
    }
}

/// Chooses the request that the agent sends for `table`.
pub fn request_for(table: &Table) -> (r: Request)
    ensures
        r@ == request_of(table.current.deep_view()),
{
    match &table.current {
        Some(report) => {
            if report.ips.len() > 0 {
                Request::Report { host: report.host.clone(), ip: report.ips[0].clone() }
            } else {
                Request::Fetch
            }
        },
        None => Request::Fetch,
    }
}

/// The path of the service that answers the request `r`.
pub open spec fn path_of(r: RequestView) -> Seq<char> {
    match r {
        RequestView::Report { host, ip } => "/update/"@ + host + "/"@ + ip + "/"@,
        RequestView::Fetch => "/get"@,
    }
}

impl Request {
    /// The path of the service to which the request goes.
    pub fn path(&self) -> (p: String)
        ensures
            p@ == path_of(self@),
    {
        match self {
            Request::Report { host, ip } => {
                let mut p = "/update/".to_owned();
                p.append(host.as_str());
                p.append("/");
                p.append(ip.as_str());
                p.append("/");
                p
            },
            Request::Fetch => "/get".to_owned(),
        }
    }
}

/// `pnet::datalink::interfaces` lists the network interfaces of the machine,
/// each with its addresses. The wrapper hands them out one for one, each
/// address by `IpNetwork::is_ipv4` and by the text of `IpNetwork::ip`.
/// Nothing is claimed of the list.
#[verifier::external_body]
fn machine_interfaces() -> (interfaces: Vec<Interface>) {
    pnet::datalink::interfaces()
        .iter()
        .map(|interface| Interface {
            ips: interface
                .ips
                .iter()
                .map(|net| InterfaceAddress { ipv4: net.is_ipv4(), ip: net.ip().to_string() })
                .collect(),
        })
        .collect()
}

/// Builds the table that the agent named `hostname` sends: the mapping of
/// the local file's managed block, and the agent's report of itself from
/// the network interfaces of the machine.
///
/// The file decides alone whether a table is built and what its mapping is.
/// The report is [`report_of`] the host name and what the machine answered.
pub fn gen_table(file_contents: &str, hostname: String) -> (r: Result<Table, ParseError>)
    ensures
        match r {
            Ok(table) => {
                &&& all_parse(lines_of(file_contents@))
                &&& table.host_mapping@ == mapping_of(parsed(lines_of(file_contents@)))
                &&& exists|interfaces: Seq<Seq<InterfaceAddressView>>|
                    table.current.deep_view() == report_of(hostname@, interfaces)
            },
            Err(e) => fails_at(lines_of(file_contents@), e),
        },
{
    let lines = match parse_lines(file_contents) {
        Ok(lines) => lines,
        Err(e) => {
            return Err(e);
        },
    };
    let interfaces = machine_interfaces();
    Ok(table_from(&lines, hostname, &interfaces))
}

} // verus!
