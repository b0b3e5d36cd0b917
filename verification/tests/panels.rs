use std::cmp::Ordering;
use systrace::event::SysmonEvent;
use systrace::event_store::EventStore;
use systrace::guid::ProcessGuid;
use systrace::interner::{new_rodeo, SharedRodeo};
use systrace::panels::detection::{detection_listing, DetectionCategory};
use systrace::panels::drivers::drivers_listing;
use systrace::panels::files::files_listing;
use systrace::panels::injection::injection_listing;
use systrace::panels::network::{network_listing, NetworkRow};
use systrace::panels::pipes::pipes_listing;
use systrace::panels::registry::registry_listing;
use systrace::panels::sigma::sigma_listing;
use systrace::panels::timeline::{detail_summary, generate_timeline, timeline_listing, timeline_rows};
use systrace::panels::{
    arrange, cmp_ord, fmt_time, in_range, make_headers, Listing, SortState, TabState, TableRow,
};
use systrace::parser::{extract_event, RawEvtxRecord};
use systrace::process_tree::ProcessTree;
use systrace::sigma::matcher::SigmaMatch;
use systrace::sigma::rule::SigmaLevel;
use systrace::textmap::TextMap;
use systrace::types::{parse_guid, ParseError, Timestamp};

const G1: &str = "00000000-0000-0000-0001-000000000001";
const G2: &str = "00000000-0000-0000-0002-000000000002";

fn guid(s: &str) -> ProcessGuid {
    parse_guid(s).unwrap()
}

fn at(secs: i64) -> Timestamp {
    Timestamp { secs, nanos: 0 }
}

fn event(rodeo: &SharedRodeo, id: u16, secs: i64, g: &str, fields: &[(&str, &str)]) -> SysmonEvent {
    let mut errors: Vec<ParseError> = Vec::new();
    let mut map: TextMap<String> = TextMap::new();
    map.insert("ProcessGuid".to_owned(), g.to_owned());
    for (k, v) in fields {
        map.insert(k.to_string(), v.to_string());
    }
    let raw = RawEvtxRecord {
        event_id: id,
        time_created: "1970-01-01T00:00:00Z".to_owned(),
        record_number: 1,
        payload: String::new(),
        computer: "HOST".to_owned(),
        user_name: None,
        map_description: None,
        executable_info: None,
        payload_data1: None,
        payload_data2: None,
        payload_data3: None,
        payload_data4: None,
        payload_data5: None,
        payload_data6: None,
    };
    let mut e = extract_event(raw, &map, 1, &mut errors, rodeo).unwrap();
    assert!(errors.is_empty());
    e.time_created = at(secs);
    e
}

fn lines<R: TableRow>(listing: &Listing<R>) -> Vec<String> {
    match listing {
        Listing::Rows { rows, order } => order.iter().map(|i| rows[*i].copy_text()).collect(),
        Listing::Nothing => vec!["nothing".to_owned()],
        Listing::NoMatch => vec!["no match".to_owned()],
    }
}

fn by(column: usize, ascending: bool) -> SortState {
    SortState { column, ascending }
}

#[test]
fn sort_state_toggles() {
    let mut s = SortState::default();
    assert_eq!(s, by(0, true));
    s.toggle(0);
    assert_eq!(s, by(0, false));
    assert_eq!(s.indicator(0), " ▼");
    assert_eq!(s.indicator(1), "");
    s.toggle(0);
    assert_eq!(s, by(0, true));
    s.toggle(0);
    s.toggle(3);
    assert_eq!(s, by(3, true));
    assert_eq!(s.indicator(3), " ▲");
    assert_eq!(TabState::default(), TabState { sort: by(0, true), selected_row: None });
}

#[test]
fn headers_carry_arrows() {
    assert_eq!(make_headers(&["Time", "Name"], &by(1, false)), vec!["Time", "Name ▼"]);
}

#[test]
fn orders_flip_when_descending() {
    assert_eq!(cmp_ord(Ordering::Less, true), Ordering::Less);
    assert_eq!(cmp_ord(Ordering::Less, false), Ordering::Greater);
    assert_eq!(cmp_ord(Ordering::Greater, false), Ordering::Less);
    assert_eq!(cmp_ord(Ordering::Equal, false), Ordering::Equal);
}

#[test]
fn times_of_day() {
    assert_eq!(fmt_time(Timestamp { secs: 1683112512, nanos: 233_539_500 }), "11:15:12.233");
    assert_eq!(fmt_time(at(0)), "00:00:00.000");
    assert_eq!(fmt_time(Timestamp { secs: -1, nanos: 999_000_000 }), "23:59:59.999");
}

#[test]
fn ranges_include_their_ends() {
    let range = Some((at(10), at(20)));
    assert!(in_range(&range, &at(10)));
    assert!(in_range(&range, &at(20)));
    assert!(!in_range(&range, &at(9)));
    assert!(!in_range(&range, &Timestamp { secs: 20, nanos: 1 }));
    assert!(in_range(&None, &at(9)));
}

fn network_store(rodeo: &SharedRodeo) -> EventStore {
    let mut store = EventStore::new();
    store.insert(event(
        rodeo,
        3,
        30,
        G1,
        &[
            ("Protocol", "tcp"),
            ("Initiated", "true"),
            ("SourceIp", "10.0.0.1"),
            ("SourcePort", "50000"),
            ("DestinationIp", "10.0.0.2"),
            ("DestinationPort", "443"),
            ("DestinationHostname", "Zeta"),
        ],
    ));
    store.insert(event(
        rodeo,
        22,
        10,
        G1,
        &[("QueryName", "example.com"), ("QueryStatus", "0"), ("QueryResults", "1.2.3.4")],
    ));
    store.insert(event(
        rodeo,
        3,
        20,
        G1,
        &[("Initiated", "false"), ("RuleName", "technique_id=T1071,technique_name=Web")],
    ));
    store.insert(event(rodeo, 3, 40, G2, &[]));
    store
}

#[test]
fn network_rows_are_listed() {
    let rodeo = new_rodeo();
    let store = network_store(&rodeo);
    let listing = network_listing(&store, &guid(G1), "", &None, &by(0, true));
    assert_eq!(
        lines(&listing),
        vec![
            "00:00:10.000\tDNS\tDNS\t-\t1.2.3.4\texample.com\t0\t",
            "00:00:20.000\tInbound\t\t-:\t-:\t\t\tT1071",
            "00:00:30.000\tOutbound\ttcp\t10.0.0.1:50000\t10.0.0.2:443\tZeta\t\t",
        ]
    );
    let down = network_listing(&store, &guid(G1), "", &None, &by(1, false));
    assert_eq!(
        lines(&down)[0],
        "00:00:30.000\tOutbound\ttcp\t10.0.0.1:50000\t10.0.0.2:443\tZeta\t\t"
    );
    let technique = network_listing(&store, &guid(G1), "t1071", &None, &by(6, true));
    assert_eq!(lines(&technique).len(), 1);
    let last = network_listing(&store, &guid(G1), "", &None, &by(6, false));
    assert!(lines(&last)[0].ends_with("T1071"));
    assert_eq!(lines(&network_listing(&store, &guid(G2), "", &None, &by(0, true))).len(), 1);
}

#[test]
fn filters_and_ranges_narrow_a_listing() {
    let rodeo = new_rodeo();
    let store = network_store(&rodeo);
    let g = guid(G1);
    assert_eq!(lines(&network_listing(&store, &g, "EXAMPLE", &None, &by(0, true))).len(), 1);
    assert_eq!(lines(&network_listing(&store, &g, "bound", &None, &by(0, true))).len(), 2);
    let range = Some((at(15), at(25)));
    assert_eq!(
        lines(&network_listing(&store, &g, "", &range, &by(0, true))),
        vec!["00:00:20.000\tInbound\t\t-:\t-:\t\t\tT1071"]
    );
    assert_eq!(lines(&network_listing(&store, &g, "nowhere", &None, &by(0, true))), vec!["no match"]);
    let nobody = guid("00000000-0000-0000-0003-000000000003");
    assert_eq!(lines(&network_listing(&store, &nobody, "", &None, &by(0, true))), vec!["nothing"]);
}

#[test]
fn arrangement_keeps_equal_rows_in_place() {
    let row = |secs: i64, name: &str| NetworkRow {
        time: at(secs),
        direction: "DNS".to_owned(),
        protocol: name.to_owned(),
        source: String::new(),
        destination: String::new(),
        hostname: String::new(),
        extra: String::new(),
        mitre: String::new(),
    };
    let rows = vec![row(3, "b"), row(1, "a"), row(2, "b"), row(0, "a")];
    assert_eq!(arrange(&rows, "", &None, &by(2, true)), vec![1, 3, 0, 2]);
    assert_eq!(arrange(&rows, "", &None, &by(2, false)), vec![0, 2, 1, 3]);
    assert_eq!(arrange(&rows, "", &None, &by(0, true)), vec![3, 1, 2, 0]);
    assert_eq!(arrange(&rows, "", &None, &by(99, true)), vec![0, 1, 2, 3]);
}

#[test]
fn registry_pipe_and_driver_rows() {
    let rodeo = new_rodeo();
    let mut store = EventStore::new();
    store.insert(event(
        &rodeo,
        13,
        1,
        G1,
        &[
            ("EventType", "SetValue"),
            ("TargetObject", "HKLM\\X"),
            ("Details", "1"),
            ("RuleName", "technique_id=T1547,technique_name=Boot"),
        ],
    ));
    store.insert(event(
        &rodeo,
        14,
        2,
        G1,
        &[("EventType", "RenameKey"), ("TargetObject", "HKLM\\Y"), ("NewName", "HKLM\\Z")],
    ));
    let rule = ("RuleName", "technique_id=T1570,technique_name=Lateral");
    store.insert(event(&rodeo, 17, 3, G1, &[("PipeName", "\\p"), rule]));
    store.insert(event(&rodeo, 18, 4, G1, &[]));
    store.insert(event(
        &rodeo,
        6,
        5,
        G1,
        &[("ImageLoaded", "d.sys"), ("Signature", "S"), ("SignatureStatus", "Valid")],
    ));
    let rule = ("RuleName", "technique_id=T1574,technique_name=Side");
    store.insert(event(&rodeo, 7, 6, G1, &[("ImageLoaded", "i.dll"), rule]));
    let g = guid(G1);
    assert_eq!(
        lines(&registry_listing(&store, &g, "", &None, &by(0, true))),
        vec![
            "00:00:01.000\tSetValue\tHKLM\\X\t1\tT1547",
            "00:00:02.000\tRenameKey\tHKLM\\Y\t→ HKLM\\Z\t",
        ]
    );
    assert_eq!(
        lines(&pipes_listing(&store, &g, "", &None, &by(0, true))),
        vec!["00:00:03.000\tCreate\t\\p\tT1570", "00:00:04.000\tConnect\t\t"]
    );
    assert_eq!(
        lines(&drivers_listing(&store, &g, "", &None, &by(1, true))),
        vec!["00:00:05.000\tDriver\td.sys\tS\tValid\t", "00:00:06.000\tImage\ti.dll\t\t\tT1574"]
    );
    assert!(lines(&pipes_listing(&store, &g, "", &None, &by(3, false)))[0].ends_with("T1570"));
    assert!(lines(&drivers_listing(&store, &g, "", &None, &by(5, false)))[0].ends_with("T1574"));
}

#[test]
fn injection_rows_know_the_role() {
    let rodeo = new_rodeo();
    let mut store = EventStore::new();
    let pair = [
        ("SourceProcessGuid", G1),
        ("TargetProcessGuid", G2),
        ("SourceImage", "a.exe"),
        ("TargetImage", "b.exe"),
    ];
    let mut access = pair.to_vec();
    access.push(("GrantedAccess", "0x1fff"));
    access.push(("RuleName", "technique_id=T1003,technique_name=Dump"));
    store.insert(event(&rodeo, 10, 2, G1, &access));
    let mut thread = pair.to_vec();
    thread.push(("StartModule", "k.dll"));
    thread.push(("StartFunction", "Go"));
    store.insert(event(&rodeo, 8, 1, G1, &thread));
    store.insert(event(&rodeo, 25, 3, G2, &[("Type", "Hollowing")]));
    let seen = lines(&injection_listing(&store, &guid(G2), "", &None, &by(0, true)));
    assert_eq!(seen.len(), 3);
    assert_eq!(seen[0], "00:00:01.000\tRemoteThread\tTarget\ta.exe\tb.exe\tk.dll!Go\t");
    assert_eq!(seen[1], "00:00:02.000\tProcessAccess\tTarget\ta.exe\tb.exe\t0x1fff\tT1003");
    assert_eq!(seen[2], "00:00:03.000\tTampering\t-\t\t\tHollowing\t");
    let own = lines(&injection_listing(&store, &guid(G1), "", &None, &by(0, true)));
    assert_eq!(own.len(), 2);
    assert_eq!(own[1], "00:00:02.000\tProcessAccess\tSource\ta.exe\tb.exe\t0x1fff\tT1003");
    let last = injection_listing(&store, &guid(G2), "", &None, &by(6, false));
    assert!(lines(&last)[0].ends_with("T1003"));
}

#[test]
fn detection_rows_have_categories() {
    let rodeo = new_rodeo();
    let mut store = EventStore::new();
    store.insert(event(&rodeo, 2, 1, G1, &[("TargetFilename", "f")]));
    store.insert(event(&rodeo, 4, 2, G1, &[("State", "Stopped"), ("Version", "15")]));
    store.insert(event(&rodeo, 20, 3, G1, &[("Operation", "Created"), ("Query", "q")]));
    store.insert(event(&rodeo, 24, 4, G1, &[("Session", "1")]));
    store.insert(event(&rodeo, 11, 5, G1, &[]));
    let listing = detection_listing(&store, &guid(G1), "", &None, &by(0, true));
    match &listing {
        Listing::Rows { rows, order } => {
            assert_eq!(order.to_vec(), vec![0, 1, 2, 3]);
            assert_eq!(rows[0].category, DetectionCategory::AntiForensics);
            assert_eq!(rows[1].category, DetectionCategory::DefenseEvasion);
            assert_eq!(rows[1].col_a, "Stopped");
            assert_eq!(rows[1].col_b, "15");
            assert_eq!(rows[2].category, DetectionCategory::WmiPersistence);
            assert_eq!(rows[2].event_type, "WmiConsumer");
            assert_eq!(rows[2].col_b, "q");
            assert_eq!(rows[3].category, DetectionCategory::DataAccess);
        }
        _ => panic!("expected rows"),
    }
}

#[test]
fn sigma_rows() {
    let tree = ProcessTree::new();
    let hit = |title: &str, level: SigmaLevel, secs: i64| SigmaMatch {
        rule_title: title.to_owned(),
        rule_id: None,
        level,
        event_index: 0,
        event_id: 1,
        process_guid: None,
        timestamp: at(secs),
    };
    let matches = vec![hit("A", SigmaLevel::Low, 2), hit("B", SigmaLevel::Critical, 1)];
    assert!(sigma_listing(&matches, &tree, true, "", &None, &by(0, true)).is_none());
    let none: Vec<SigmaMatch> = Vec::new();
    assert!(matches!(
        sigma_listing(&none, &tree, false, "", &None, &by(0, true)),
        Some(Listing::Nothing)
    ));
    match sigma_listing(&matches, &tree, false, "", &None, &by(0, true)) {
        Some(Listing::Rows { rows, order }) => {
            assert_eq!(order, vec![1, 0]);
            assert_eq!(rows[1].rule_title, "B");
            assert_eq!(rows[0].match_index, 0);
        }
        _ => panic!("expected rows"),
    }
}

#[test]
fn timelines_merge_processes() {
    let rodeo = new_rodeo();
    let mut store = EventStore::new();
    store.insert(event(&rodeo, 11, 30, G1, &[("TargetFilename", "late")]));
    store.insert(event(&rodeo, 11, 10, G2, &[("TargetFilename", "early")]));
    store.insert(event(&rodeo, 11, 20, "00000000-0000-0000-0003-000000000003", &[]));
    let mut chosen = rustc_hash::FxHashMap::default();
    chosen.insert(guid(G1), ());
    chosen.insert(guid(G2), ());
    let order = generate_timeline(&store, &chosen);
    assert_eq!(order, vec![1, 0]);
    let tree = ProcessTree::new();
    let listing = timeline_listing(&store, &tree, &rodeo, &order, "", &by(0, true));
    match &listing {
        Listing::Rows { rows, order } => {
            assert_eq!(order.to_vec(), vec![0, 1]);
            assert_eq!(rows[0].detail, "early");
            assert_eq!(rows[0].event_type, "FileCreate");
            assert_eq!(rows[0].pid, "?");
        }
        _ => panic!("expected rows"),
    }
    assert_eq!(timeline_rows(&store, &tree, &rodeo, &vec![2, 7]).len(), 1);
    assert!(matches!(
        timeline_listing(&store, &tree, &rodeo, &vec![], "", &by(0, true)),
        Listing::Nothing
    ));
}

#[test]
fn files_of_a_process() {
    let rodeo = new_rodeo();
    let mut store = EventStore::new();
    let rule = ("RuleName", "technique_id=T1105,technique_name=Transfer");
    store.insert(event(&rodeo, 11, 2, G1, &[("TargetFilename", "b.txt"), rule]));
    store.insert(event(&rodeo, 23, 1, G1, &[("TargetFilename", "a.txt"), ("Hashes", "MD5=1")]));
    store.insert(event(&rodeo, 17, 1, G1, &[("PipeName", "p")]));
    store.insert(event(&rodeo, 11, 3, G2, &[("TargetFilename", "c.txt")]));
    store.insert(event(&rodeo, 15, 4, G1, &[("TargetFilename", "d:s"), ("Hash", "MD5=2")]));
    for id in [26u16, 27, 28, 29] {
        store.insert(event(&rodeo, id, i64::from(id), G1, &[("TargetFilename", "e.exe")]));
    }
    let list = |g: &str, filter: &str, range: Option<(Timestamp, Timestamp)>| {
        files_listing(&store, &guid(g), filter, &range, &by(0, true))
    };
    assert_eq!(
        lines(&list(G1, "", None)),
        vec![
            "00:00:01.000\tDelete\ta.txt\tMD5=1\t",
            "00:00:02.000\tCreate\tb.txt\t\tT1105",
            "00:00:04.000\tADS Stream\td:s\tMD5=2\t",
            "00:00:26.000\tDelete\te.exe\t\t",
            "00:00:27.000\tBlock\te.exe\t\t",
            "00:00:28.000\tBlock\te.exe\t\t",
            "00:00:29.000\tExec\te.exe\t\t",
        ]
    );
    for (column, first) in [(1, "ADS Stream"), (2, "a.txt"), (3, "Create"), (4, "Delete")] {
        let sorted = files_listing(&store, &guid(G1), "", &None, &by(column, true));
        assert!(lines(&sorted)[0].contains(first));
    }
    assert_eq!(lines(&list(G1, "B.TXT", None)).len(), 1);
    assert!(matches!(list(G1, "c.txt", None), Listing::NoMatch));
    assert!(matches!(list(G1, "", Some((at(5), at(6)))), Listing::NoMatch));
    let other = "00000000-0000-0000-0009-000000000009";
    assert!(matches!(list(other, "", None), Listing::Nothing));
}

#[test]
fn summaries_of_details() {
    let rodeo = new_rodeo();
    let told = |id: u16, fields: &[(&str, &str)]| detail_summary(&event(&rodeo, id, 0, G1, fields).detail);
    assert_eq!(told(1, &[("CommandLine", "cmd /c")]), "cmd /c");
    assert_eq!(told(1, &[]), "-");
    assert_eq!(
        told(3, &[("Protocol", "tcp"), ("DestinationIp", "1.1.1.1"), ("DestinationPort", "53")]),
        "tcp 1.1.1.1:53"
    );
    assert_eq!(
        told(3, &[("Protocol", "udp"), ("DestinationHostname", "dns"), ("DestinationIp", "1.1.1.1")]),
        "udp dns (1.1.1.1:?)"
    );
    assert_eq!(told(22, &[("QueryName", "a"), ("QueryResults", "b")]), "a -> b");
    assert_eq!(told(22, &[]), "?");
    assert_eq!(
        told(13, &[("EventType", "SetValue"), ("TargetObject", "K"), ("Details", "1")]),
        "SetValue K = 1"
    );
    assert_eq!(told(17, &[("PipeName", "\\p")]), "CreatePipe \\p");
    assert_eq!(told(8, &[("TargetImage", "t"), ("StartAddress", "0x1")]), "-> t @ 0x1");
    assert_eq!(told(10, &[("TargetImage", "t"), ("GrantedAccess", "0x1")]), "-> t access=0x1");
    assert_eq!(told(6, &[("ImageLoaded", "d"), ("SignatureStatus", "Valid")]), "d [Valid]");
    assert_eq!(told(5, &[]), "");
    assert_eq!(told(19, &[("Operation", "Created")]), "WmiFilter: Created");
}
