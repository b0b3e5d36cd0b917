//! Network connections and name lookups of a process.

use crate::event::{EventDetail, SysmonEvent};
use crate::event_store::{law_positions_are_exact, positions, EventStore, Group};
use crate::guid::ProcessGuid;
use crate::numbers::{port_or, port_text};
use crate::panels::{
    fmt_time, list_events, lists_events, tab_line, tabbed, technique, technique_text, time_text,
    EventRow, Listing, SortKey, SortState, TableRow, TimeRange,
};
use crate::text::{opt_text, owned_or, part_texts, push_text, str_or, string_of, text_or};
use crate::types::Timestamp;
use vstd::prelude::*;

verus! {

/// A row of the network panel. `S` is how texts are held.
pub struct NetworkRow<S = String> {
    pub time: Timestamp,
    /// Outbound, Inbound, DNS, or a question mark.
    pub direction: S,
    pub protocol: S,
    pub source: S,
    pub destination: S,
    pub hostname: S,
    /// The status of a name lookup.
    pub extra: S,
    pub mitre: S,
}

impl NetworkRow {
    /// The row as text.
    pub open spec fn view(&self) -> NetworkRow<Seq<char>> {
        NetworkRow {
            time: self.time,
            direction: self.direction@,
            protocol: self.protocol@,
            source: self.source@,
            destination: self.destination@,
            hostname: self.hostname@,
            extra: self.extra@,
            mitre: self.mitre@,
        }
    }
}

impl NetworkRow<Seq<char>> {
    /// The whole row as one line.
    pub open spec fn line(self) -> Seq<char> {
        tabbed(
            seq![
                time_text(self.time),
                self.direction,
                self.protocol,
                self.source,
                self.destination,
                self.hostname,
                self.extra,
                self.mitre,
            ],
        )
    }

    /// What the row is sorted by in a column.
    pub open spec fn key(self, column: usize) -> SortKey<Seq<char>> {
        if column == 0 {
            SortKey::Time(self.time)
        } else if column == 1 {
            SortKey::Text(self.direction)
        } else if column == 2 {
            SortKey::Text(self.protocol)
        } else if column == 3 {
            SortKey::Text(self.source)
        } else if column == 4 {
            SortKey::Text(self.destination)
        } else if column == 5 {
            SortKey::Text(self.hostname)
        } else if column == 6 {
            SortKey::Text(self.mitre)
        } else {
            SortKey::Unsorted
        }
    }
}

impl TableRow for NetworkRow {
    open spec fn at(self) -> Timestamp {
        self.time
    }

    open spec fn line(self) -> Seq<char> {
        self@.line()
    }

    open spec fn key(self, column: usize) -> SortKey<Seq<char>> {
        self@.key(column)
    }

    fn row_time(&self) -> (t: Timestamp) {
        self.time
    }

    fn copy_text(&self) -> (s: String) {
        let time = fmt_time(self.time);
        let columns: Vec<&str> = vec![
            time.as_str(),
            self.direction.as_str(),
            self.protocol.as_str(),
            self.source.as_str(),
            self.destination.as_str(),
            self.hostname.as_str(),
            self.extra.as_str(),
            self.mitre.as_str(),
        ];
        assert(part_texts(columns@) =~= seq![
            time_text(self.time),
            self.direction@,
            self.protocol@,
            self.source@,
            self.destination@,
            self.hostname@,
            self.extra@,
            self.mitre@,
        ]);
        tab_line(&columns)
    }

    fn sort_key(&self, column: usize) -> (k: SortKey) {
        match column {
            0 => SortKey::Time(self.time),
            1 => SortKey::Text(self.direction.clone()),
            2 => SortKey::Text(self.protocol.clone()),
            3 => SortKey::Text(self.source.clone()),
            4 => SortKey::Text(self.destination.clone()),
            5 => SortKey::Text(self.hostname.clone()),
            6 => SortKey::Text(self.mitre.clone()),
            _ => SortKey::Unsorted,
        }
    }
}

/// One end of a connection: its address and its port.
pub open spec fn endpoint(ip: Option<Seq<char>>, port: Option<u16>) -> Seq<char> {
    text_or(ip, "-"@) + ":"@ + port_or(port, ""@)
}

/// One end of a connection: its address and its port.
fn endpoint_text(ip: &Option<String>, port: Option<u16>) -> (s: String)
    ensures
        s@ == endpoint(opt_text(*ip), port),
{
    let mut out: Vec<char> = Vec::new();
    push_text(&mut out, str_or(ip, "-"));
    push_text(&mut out, ":");
    push_text(&mut out, port_text(port, "").as_str());
    assert(out@ =~= endpoint(opt_text(*ip), port));
    string_of(out.as_slice())
}

/// The word for who opened a connection.
pub open spec fn direction(initiated: Option<bool>) -> Seq<char> {
    match initiated {
        Some(true) => "Outbound"@,
        Some(false) => "Inbound"@,
        None => "?"@,
    }
}

impl EventRow for NetworkRow {
    type Text = NetworkRow<Seq<char>>;

    open spec fn text(self) -> NetworkRow<Seq<char>> {
        self@
    }

    /// A connection, or a name lookup with its answer.
    open spec fn row_of(e: SysmonEvent, guid: ProcessGuid) -> Option<NetworkRow<Seq<char>>> {
        match e.detail@ {
            EventDetail::NetworkConnect {
                protocol,
                initiated,
                source_ip,
                source_port,
                destination_ip,
                destination_port,
                destination_hostname,
                ..
            } => Some(
                NetworkRow {
                    time: e.time_created,
                    direction: direction(initiated),
                    protocol: text_or(protocol, ""@),
                    source: endpoint(source_ip, source_port),
                    destination: endpoint(destination_ip, destination_port),
                    hostname: text_or(destination_hostname, ""@),
                    extra: ""@,
                    mitre: technique(e),
                },
            ),
            EventDetail::DnsQuery { query_name, query_status, query_results } => Some(
                NetworkRow {
                    time: e.time_created,
                    direction: "DNS"@,
                    protocol: "DNS"@,
                    source: "-"@,
                    destination: text_or(query_results, ""@),
                    hostname: text_or(query_name, ""@),
                    extra: text_or(query_status, ""@),
                    mitre: technique(e),
                },
            ),
            _ => None,
        }
    }

    fn from_event(e: &SysmonEvent, guid: &ProcessGuid) -> (row: Option<Self>) {
        match &e.detail {
            EventDetail::NetworkConnect {
                protocol,
                initiated,
                source_ip,
                source_port,
                destination_ip,
                destination_port,
                destination_hostname,
                ..
            } => {
                let word = match initiated {
                    Some(true) => "Outbound",
                    Some(false) => "Inbound",
                    None => "?",
                };
                Some(
                    NetworkRow {
                        time: e.time_created,
                        direction: word.to_owned(),
                        protocol: owned_or(protocol, ""),
                        source: endpoint_text(source_ip, *source_port),
                        destination: endpoint_text(destination_ip, *destination_port),
                        hostname: owned_or(destination_hostname, ""),
                        extra: "".to_owned(),
                        mitre: technique_text(e),
                    },
                )
            },
            EventDetail::DnsQuery { query_name, query_status, query_results } => Some(
                NetworkRow {
                    time: e.time_created,
                    direction: "DNS".to_owned(),
                    protocol: "DNS".to_owned(),
                    source: "-".to_owned(),
                    destination: owned_or(query_results, ""),
                    hostname: owned_or(query_name, ""),
                    extra: owned_or(query_status, ""),
                    mitre: technique_text(e),
                },
            ),
            _ => None,
        }
    }
}

/// Lists the network connections and name lookups of a process.
pub fn network_listing(
    store: &EventStore,
    guid: &ProcessGuid,
    filter: &str,
    range: &TimeRange,
    sort: &SortState,
) -> (listing: Listing<NetworkRow>)
    requires
        store.wf(),
    ensures
        lists_events(
            listing,
            store.events@,
            positions(store.events@, Group::ProcessAndTypes(*guid, seq![3u16, 22u16])),
            *guid,
            filter@,
            *range,
            *sort,
        ),
{
    let ids: [u16; 2] = [3, 22];
    assert(ids@ =~= seq![3u16, 22u16]);
    let at = store.events_for_process_and_types(guid, ids.as_slice());
    let total: usize = store.events.len();
    proof {
        law_positions_are_exact(store.events@, Group::ProcessAndTypes(*guid, seq![3u16, 22u16]));
    }
    list_events(store, &at, guid, filter, range, sort)
}

} // verus!
