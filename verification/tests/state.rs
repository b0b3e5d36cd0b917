use std::path::PathBuf;

use systrace::event::SysmonEvent;
use systrace::guid::ProcessGuid;
use systrace::interner::SharedRodeo;
use systrace::loading::{
    is_persistence_path, time_span, Arrival, Polling, MAX_BATCHES_PER_FRAME,
};
use systrace::overview::{split_hashes, Activity, IntegrityShade};
use systrace::parser::{extract_event, RawEvtxRecord};
use systrace::session::{
    active_after_close, estimated_saving, find_tab, fmt_count, remember_file, RECENT_FILES,
};
use systrace::sets::{add_text, has_text, remove_text, set_checked, sorted_texts};
use systrace::sigma::condition::parse_condition;
use systrace::sigma::rule::{
    Modifier, SigmaDetection, SigmaFieldMatch, SigmaLevel, SigmaLogsource, SigmaRule,
    SigmaSelection,
};
use systrace::state::{day_number, AppState, SpecialFilter, TelemetryTab, TreeEventFilter};
use systrace::stats::{span_length, write_duration};
use systrace::tally::{rank_by_count, tally_numbers, tally_texts};
use systrace::textmap::TextMap;
use systrace::tree_rows::{runs_as_system, NodeShade, TreeRow, TreeStep};
use systrace::types::{parse_guid, ParseError, Timestamp};

const ROOT: &str = "00000000-0000-0000-0001-0000000000aa";
const CHILD: &str = "00000000-0000-0000-0002-0000000000bb";
const GRAND: &str = "00000000-0000-0000-0003-0000000000cc";

fn guid(s: &str) -> ProcessGuid {
    parse_guid(s).unwrap()
}

fn at(secs: i64) -> Timestamp {
    Timestamp { secs, nanos: 0 }
}

fn event(rodeo: &SharedRodeo, id: u16, secs: i64, g: &str, fields: &[(&str, &str)]) -> SysmonEvent {
    let mut errors: Vec<ParseError> = Vec::new();
    let mut map: TextMap<String> = TextMap::new();
    map.insert("ProcessGuid".to_owned(), g.to_owned());
    let mut computer = "HOST".to_owned();
    for (k, v) in fields {
        if *k == "Computer" {
            computer = v.to_string();
        } else {
            map.insert(k.to_string(), v.to_string());
        }
    }
    let raw = RawEvtxRecord {
        event_id: id,
        time_created: "1970-01-01T00:00:00Z".to_owned(),
        record_number: 1,
        payload: String::new(),
        computer,
        user_name: None,
        map_description: None,
        executable_info: None,
        payload_data1: None,
        payload_data2: None,
        payload_data3: None,
        payload_data4: None,
        payload_data5: None,
        payload_data6: None,
    };
    let mut e = extract_event(raw, &map, 1, &mut errors, rodeo).unwrap();
    assert!(errors.is_empty());
    e.time_created = at(secs);
    e
}

const DAY: i64 = 86_400;

// A root with a child and a grandchild; the child uses the network on the second
// day, and the grandchild writes to a run key on the third.
fn loaded() -> AppState {
    let mut s = AppState::default();
    let r = s.rodeo.clone();
    let batch = vec![
        event(
            &r,
            1,
            100,
            ROOT,
            &[
                ("Image", "C:\\Windows\\explorer.exe"),
                ("ProcessId", "10"),
                ("User", "CORP\\ann"),
                ("IntegrityLevel", "Medium"),
            ],
        ),
        event(
            &r,
            1,
            200,
            CHILD,
            &[
                ("Image", "C:\\bin\\Tool.exe"),
                ("ProcessId", "20"),
                ("ParentProcessGuid", ROOT),
                ("User", "NT AUTHORITY\\System"),
                ("IntegrityLevel", "System"),
                ("CommandLine", "tool --run"),
                ("Hashes", "MD5=aa, SHA256=bb,IMPHASH=cc"),
            ],
        ),
        event(
            &r,
            3,
            DAY + 5,
            CHILD,
            &[("RuleName", "technique_id=T1071,technique_name=Web")],
        ),
        event(
            &r,
            3,
            DAY + 6,
            CHILD,
            &[("RuleName", "technique_id=T1071,technique_name=Web")],
        ),
    ];
    s.take_in(batch, 500);
    assert_eq!(s.loading_progress, Some(500));
    let second = vec![
        event(
            &r,
            1,
            2 * DAY,
            GRAND,
            &[
                ("Image", "C:\\bin\\leaf.exe"),
                ("ProcessId", "30"),
                ("ParentProcessGuid", CHILD),
                ("User", "CORP\\ann"),
                ("IntegrityLevel", "High"),
            ],
        ),
        event(
            &r,
            13,
            2 * DAY + 1,
            GRAND,
            &[
                ("EventType", "SetValue"),
                ("TargetObject", "HKLM\\Software\\Microsoft\\Windows\\CurrentVersion\\Run\\x"),
            ],
        ),
        event(&r, 5, 2 * DAY + 2, ROOT, &[]),
    ];
    s.take_in(second, 900);
    s.finish_loading("log.evtx");
    s
}

fn row_of(s: &AppState, g: &str) -> TreeRow {
    match s.tree_step(&guid(g)) {
        TreeStep::Row { row, .. } => row,
        _ => panic!("expected a row"),
    }
}

#[test]
fn metadata_after_loading() {
    let s = loaded();
    assert_eq!(s.loading_progress, None);
    let m = s.file_metadata.as_ref().unwrap();
    assert_eq!(m.path, "log.evtx");
    assert_eq!(m.total_records, 7);
    assert_eq!(m.unique_processes, 3);
    assert_eq!(m.event_type_counts, vec![(1, 3), (3, 2), (5, 1), (13, 1)]);
    assert_eq!(m.time_range, Some((at(100), at(2 * DAY + 2))));
    assert_eq!(m.computer_names, vec!["HOST"]);
    assert_eq!(s.available_dates, vec![0, 1, 2]);
    assert_eq!(s.available_mitre, vec!["T1071"]);
    assert_eq!(s.available_users, vec!["CORP\\ann", "NT AUTHORITY\\System"]);
    assert!(s.network_processes.contains_key(&guid(CHILD)));
    assert!(!s.network_processes.contains_key(&guid(ROOT)));
    assert!(s.persistence_processes.contains_key(&guid(GRAND)));
    assert_eq!(s.persistence_processes.len(), 1);
    assert_eq!(s.time_filter_to_date_idx, 2);
    assert_eq!(s.time_filter_to_hm, (23, 59));
    assert_eq!(time_span(&Vec::new()), None);
}

#[test]
fn batches_make_no_difference() {
    let s = loaded();
    let mut t = AppState::default();
    let events: Vec<(u16, i64, &str)> = vec![(1, 100, ROOT), (5, 200, ROOT)];
    let r = t.rodeo.clone();
    for (id, secs, g) in &events {
        t.take_in(vec![event(&r, *id, *secs, g, &[])], 1);
    }
    let mut u = AppState::default();
    let r = u.rodeo.clone();
    u.take_in(events.iter().map(|(id, secs, g)| event(&r, *id, *secs, g, &[])).collect(), 1);
    assert_eq!(t.event_store.len(), u.event_store.len());
    assert_eq!(
        t.process_tree.get(&guid(ROOT)).unwrap().end_time,
        u.process_tree.get(&guid(ROOT)).unwrap().end_time
    );
    assert_eq!(s.process_tree.get(&guid(ROOT)).unwrap().end_time, Some(at(2 * DAY + 2)));
}

#[test]
fn persistence_locations() {
    assert!(is_persistence_path("HKLM\\SOFTWARE\\Microsoft\\Windows\\CurrentVersion\\RunOnce\\a"));
    assert!(is_persistence_path("HKLM\\System\\CurrentControlSet\\Services\\x"));
    assert!(is_persistence_path(
        "HKLM\\SOFTWARE\\Microsoft\\Windows NT\\CurrentVersion\\Windows\\AppInit_DLLs"
    ));
    assert!(!is_persistence_path("HKLM\\SOFTWARE\\Vendor"));
    assert!(!is_persistence_path(""));
}

#[test]
fn selection_resets_rows_but_not_sorting() {
    let mut s = loaded();
    s.tab_network.selected_row = Some(4);
    s.tab_network.sort.column = 2;
    s.tab_detection.selected_row = Some(1);
    s.tab_detection.sort.ascending = false;
    s.tab_sigma.selected_row = Some(2);
    s.tab_timeline.selected_row = Some(3);
    s.active_tab = TelemetryTab::Pipes;
    s.select_process(guid(CHILD));
    assert_eq!(s.selected_process, Some(guid(CHILD)));
    assert_eq!(s.active_tab, TelemetryTab::Overview);
    assert!(s.scroll_to_selected);
    assert_eq!(s.tab_network.selected_row, None);
    assert_eq!(s.tab_network.sort.column, 2);
    assert_eq!(s.tab_detection.selected_row, None);
    assert!(!s.tab_detection.sort.ascending);
    assert_eq!(s.tab_sigma.selected_row, None);
    assert_eq!(s.tab_timeline.selected_row, None);
}

#[test]
fn arrow_keys_move_the_selection() {
    let mut s = loaded();
    assert_eq!(s.navigate(true), None);
    let mut open = rustc_hash::FxHashMap::default();
    assert_eq!(s.compute_flat_visible(&open), vec![guid(ROOT)]);
    open.insert(guid(ROOT), ());
    open.insert(guid(CHILD), ());
    s.flat_visible = s.compute_flat_visible(&open);
    assert_eq!(s.flat_visible, vec![guid(ROOT), guid(CHILD), guid(GRAND)]);
    assert_eq!(s.navigate(true), Some(guid(ROOT)));
    assert_eq!(s.navigate(true), Some(guid(CHILD)));
    assert_eq!(s.navigate(true), Some(guid(GRAND)));
    assert_eq!(s.navigate(true), None);
    assert_eq!(s.navigate(false), Some(guid(CHILD)));
    assert_eq!(s.selected_process, Some(guid(CHILD)));
}

#[test]
fn tabs_go_round() {
    let mut t = TelemetryTab::default();
    for _ in 0..10 {
        assert_eq!(t.next().previous(), t);
        t = t.next();
    }
    assert_eq!(t, TelemetryTab::Overview);
    assert_eq!(t.previous(), TelemetryTab::Timeline);
}

#[test]
fn tree_rows_tell_what_is_known() {
    let mut s = loaded();
    let root = row_of(&s, ROOT);
    assert_eq!(root.label, "explorer.exe (10)");
    assert_eq!(root.shade, NodeShade::Terminated);
    assert_eq!(root.command_line, "-");
    assert_eq!(root.started, "1970-01-01 00:01:40 UTC");
    assert_eq!(root.guid, "000000000000000000010000000000aa");
    let child = row_of(&s, CHILD);
    assert_eq!(child.label, "⚑ Tool.exe (20)");
    assert_eq!(child.shade, NodeShade::System);
    assert!(!child.is_selected);
    s.select_process(guid(GRAND));
    s.set_note(guid(GRAND), "look".to_owned());
    s.check_for_timeline(guid(GRAND), true);
    assert!(s.is_bookmarked(&guid(GRAND)));
    let leaf = row_of(&s, GRAND);
    assert_eq!(leaf.label, "🔖 leaf.exe (30)");
    assert_eq!(leaf.shade, NodeShade::Normal);
    assert!(leaf.is_selected && leaf.is_checked);
    assert!(runs_as_system("nt authority\\system"));
    assert!(!runs_as_system("CORP\\ann"));
}

#[test]
fn filters_hide_and_lead_through() {
    let mut s = loaded();
    s.search_filter = "LEAF".to_owned();
    assert!(matches!(s.tree_step(&guid(ROOT)), TreeStep::Row { .. }));
    assert!(s.subtree_matches_filter(guid(ROOT), "leaf"));
    assert!(!s.subtree_matches_filter(guid(ROOT), "absent"));
    s.search_filter = "absent".to_owned();
    assert!(matches!(s.tree_step(&guid(ROOT)), TreeStep::Hidden));
    s.search_filter = String::new();
    s.special_filter.network = true;
    assert!(matches!(s.tree_step(&guid(ROOT)), TreeStep::Through { .. }));
    assert!(matches!(s.tree_step(&guid(CHILD)), TreeStep::Row { .. }));
    assert!(matches!(s.tree_step(&guid(GRAND)), TreeStep::Hidden));
    assert!(s.node_passes_event_filter(&guid(CHILD)));
    assert!(!s.node_passes_event_filter(&guid(ROOT)));
    assert!(s.subtree_passes_event_filter(guid(ROOT)));
    s.special_filter.integrity_high = true;
    assert!(!s.subtree_passes_event_filter(guid(ROOT)));
    assert_eq!(s.active_filter_count(), 2);
    s.mitre_filter.push("T1071".to_owned());
    s.time_filter_active = true;
    assert_eq!(s.active_filter_count(), 4);
    s.clear_tree_filters();
    assert_eq!(s.active_filter_count(), 0);
    assert!(s.node_passes_event_filter(&guid(ROOT)));
    s.mitre_filter.push("T1071".to_owned());
    assert!(s.node_passes_event_filter(&guid(CHILD)));
    assert!(!s.node_passes_event_filter(&guid(GRAND)));
}

#[test]
fn hosts_hide_other_machines() {
    let mut s = loaded();
    s.selected_host = Some("OTHER".to_owned());
    assert!(matches!(s.tree_step(&guid(ROOT)), TreeStep::Hidden));
    s.selected_host = Some("HOST".to_owned());
    assert!(matches!(s.tree_step(&guid(ROOT)), TreeStep::Row { .. }));
    assert!(matches!(
        s.tree_step(&guid("00000000-0000-0000-0009-0000000000dd")),
        TreeStep::Hidden
    ));
}

#[test]
fn special_filters_count_categories() {
    let mut f = SpecialFilter::default();
    assert!(!f.any_active());
    assert_eq!(f.active_category_count(), 0);
    f.integrity_low = true;
    f.integrity_high = true;
    assert!(f.any_integrity_active());
    assert_eq!(f.active_category_count(), 1);
    f.users_checked.push("a".to_owned());
    f.persistence = true;
    assert_eq!(f.active_category_count(), 3);
    let mut t = TreeEventFilter::default();
    assert!(!t.any_active());
    t.pipes = true;
    assert!(t.any_active());
}

#[test]
fn time_filters() {
    let mut s = loaded();
    s.sync_time_range();
    assert_eq!(s.time_range_filter, None);
    s.time_filter_active = true;
    s.time_filter_from_date_idx = 1;
    s.time_filter_from_hm = (0, 1);
    s.time_filter_to_date_idx = 2;
    s.time_filter_to_hm = (12, 30);
    s.sync_time_range();
    assert_eq!(
        s.time_range_filter,
        Some((at(DAY + 60), at(2 * DAY + 12 * 3600 + 30 * 60 + 59)))
    );
    assert!(!s.node_passes_event_filter(&guid(CHILD)));
    assert!(s.node_passes_event_filter(&guid(GRAND)));
    s.time_filter_from_date_idx = 9;
    s.time_filter_to_date_idx = 0;
    s.settle_time_filter();
    assert_eq!(s.time_filter_from_date_idx, 2);
    assert_eq!((s.time_filter_to_date_idx, s.time_filter_to_hm), (2, (0, 1)));
    s.time_filter_from_date_idx = 0;
    s.time_filter_to_date_idx = 7;
    s.settle_time_filter();
    assert_eq!((s.time_filter_to_date_idx, s.time_filter_to_hm), (2, (0, 1)));
    s.reset_time_filter();
    assert_eq!((s.time_filter_from_date_idx, s.time_filter_from_hm), (0, (0, 0)));
    assert_eq!(day_number(&at(-1)), -1);
    assert_eq!(day_number(&at(DAY)), 1);
}

#[test]
fn timelines_of_chosen_processes() {
    let mut s = loaded();
    s.check_for_timeline(guid(CHILD), true);
    s.check_for_timeline(guid(ROOT), true);
    s.check_for_timeline(guid(ROOT), false);
    s.make_timeline();
    assert!(s.timeline_generated);
    assert_eq!(s.timeline_events, vec![1, 2, 3]);
    s.check_all_for_timeline();
    s.make_timeline();
    assert_eq!(s.timeline_events.len(), 7);
    s.clear_timeline();
    assert!(!s.timeline_generated);
    assert!(s.timeline_events.is_empty());
    assert!(s.timeline_checked.is_empty());
}

#[test]
fn overviews() {
    let s = loaded();
    let d = s.process_details(&guid(CHILD)).unwrap();
    assert_eq!(d.pid, "20");
    assert_eq!(d.command_line, "tool --run");
    assert!(d.user_is_system);
    assert_eq!(d.integrity_shade, IntegrityShade::System);
    assert_eq!((d.md5.as_str(), d.sha256.as_str(), d.imphash.as_str()), ("aa", "bb", "cc"));
    assert_eq!(d.start, "1970-01-01 00:03:20.000 UTC");
    assert_eq!(d.company, "-");
    assert!(s.process_details(&guid("00000000-0000-0000-0009-0000000000dd")).is_none());
    assert_eq!(s.activity_count(&guid(CHILD), Activity::Network), 2);
    assert_eq!(s.activity_count(&guid(CHILD), Activity::Files), 0);
    let notes = s.technique_notes(&guid(CHILD));
    assert_eq!(notes.len(), 1);
    assert_eq!((notes[0].event_id, notes[0].id.as_str(), notes[0].name.as_str()), (3, "T1071", "Web"));
    assert_eq!(
        split_hashes("SHA1=x"),
        ("-".to_owned(), "-".to_owned(), "-".to_owned())
    );
    assert_eq!(Activity::Injection.event_ids(), vec![8, 10, 25]);
}

#[test]
fn statistics() {
    let mut s = loaded();
    let t = s.stats();
    assert_eq!(t.events, 7);
    assert_eq!(t.processes, 3);
    assert_eq!(t.duration.as_deref(), Some("47h 58m 22s"));
    assert_eq!(t.type_counts, vec![(1, 3), (3, 2), (5, 1), (13, 1)]);
    assert_eq!(t.type_order[0], 0);
    assert_eq!(t.host_counts, vec![("HOST".to_owned(), 7)]);
    assert_eq!(t.user_counts[t.user_order[0]], ("CORP\\ann".to_owned(), 2));
    let levels: Vec<&str> =
        t.integrity_order.iter().map(|i| t.integrity_counts[*i].0.as_str()).collect();
    assert_eq!(levels, vec!["System", "High", "Medium"]);
    s.selected_host = Some("OTHER".to_owned());
    let none = s.stats();
    assert_eq!((none.events, none.total_events, none.processes), (0, 7, 0));
    assert_eq!(none.duration, None);
}

#[test]
fn durations() {
    assert_eq!(write_duration(0), "0s");
    assert_eq!(write_duration(61), "1m 1s");
    assert_eq!(write_duration(3600), "1h 0m 0s");
    let from = Timestamp { secs: 10, nanos: 500_000_000 };
    let to = Timestamp { secs: 13, nanos: 0 };
    assert_eq!(span_length(&Some((from, to))).as_deref(), Some("2s"));
    assert_eq!(span_length(&None), None);
}

fn rule(field: &str, value: &str) -> SigmaRule {
    let mut selections: TextMap<SigmaSelection> = TextMap::new();
    selections.insert(
        "selection".to_owned(),
        SigmaSelection {
            fields: vec![SigmaFieldMatch {
                field: field.to_owned(),
                modifiers: vec![Modifier::EndsWith],
                values: vec![value.to_owned()],
            }],
        },
    );
    SigmaRule {
        title: "t".to_owned(),
        id: None,
        description: None,
        status: None,
        level: SigmaLevel::High,
        logsource: SigmaLogsource {
            category: Some("process_creation".to_owned()),
            product: None,
            service: None,
        },
        detection: SigmaDetection {
            selections,
            condition: parse_condition("selection").unwrap(),
        },
    }
}

#[test]
fn rules_are_applied_once_a_log_is_there() {
    let mut s = AppState::default();
    s.load_rules(vec![rule("Image", "\\tool.exe")]);
    assert_eq!(s.sigma_rules.len(), 1);
    assert!(s.sigma_matches.is_empty());
    let mut s = loaded();
    s.load_rules(vec![rule("Image", "\\tool.exe")]);
    assert_eq!(s.sigma_matches.len(), 1);
    assert_eq!(s.sigma_matches[0].event_index, 1);
    assert!(s.sigma_match_guids.contains_key(&guid(CHILD)));
    assert_eq!(row_of(&s, CHILD).label, "⚠ ⚑ Tool.exe (20)");
    s.load_rules(vec![rule("Image", "\\none.exe"), rule("Image", ".exe")]);
    assert_eq!(s.sigma_rules.len(), 3);
    assert_eq!(s.sigma_rules[0].title, "t");
    assert_eq!(s.sigma_matches[0].event_index, 1);
    assert!(s.sigma_matches.len() > 1);
    let exe: Vec<usize> =
        s.sigma_matches.iter().skip(1).map(|m| m.event_index).collect();
    for (n, i) in exe.iter().enumerate() {
        assert!(!exe[..n].contains(i));
    }
    s.clear_rules();
    assert!(s.sigma_rules.is_empty());
    assert!(s.sigma_matches.is_empty());
    assert!(s.sigma_match_guids.is_empty());
}

#[test]
fn text_sets() {
    let mut v: Vec<String> = Vec::new();
    add_text(&mut v, "b");
    add_text(&mut v, "a");
    add_text(&mut v, "b");
    assert_eq!(v, vec!["b", "a"]);
    assert!(has_text(&v, "a"));
    assert_eq!(sorted_texts(&v), vec!["a", "b"]);
    assert_eq!(remove_text(&v, "b"), vec!["a"]);
    set_checked(&mut v, "c", true);
    set_checked(&mut v, "a", false);
    assert_eq!(v, vec!["b", "c"]);
}

#[test]
fn tallies() {
    let texts: Vec<String> = ["b", "a", "b"].iter().map(|s| s.to_string()).collect();
    assert_eq!(tally_texts(&texts), vec![("a".to_owned(), 1), ("b".to_owned(), 2)]);
    assert_eq!(tally_numbers(&vec![3, 1, 3, 3]), vec![(1, 1), (3, 3)]);
    assert_eq!(rank_by_count(&vec![1, 5, 5, 2]), vec![1, 2, 3, 0]);
}

#[test]
fn recent_files_are_remembered() {
    let same = |a: &PathBuf, b: &PathBuf| a == b;
    let mut recent: Vec<PathBuf> = Vec::new();
    for i in 0..12 {
        recent = remember_file(recent, PathBuf::from(format!("d/f{i}")), &same);
    }
    assert_eq!(recent.len(), RECENT_FILES);
    assert_eq!(recent[0], PathBuf::from("d/f11"));
    assert_eq!(recent[9], PathBuf::from("d/f2"));
    recent = remember_file(recent, PathBuf::from("d//f5"), &same);
    assert_eq!(recent[0], PathBuf::from("d/f5"));
    assert_eq!(recent.iter().filter(|f| **f == PathBuf::from("d/f5")).count(), 1);
    assert_eq!(recent.len(), RECENT_FILES);
}

#[test]
fn paths_are_compared_by_their_parts() {
    let same = |a: &PathBuf, b: &PathBuf| a == b;
    let open = vec![PathBuf::from("/x/y"), PathBuf::from("/x/z")];
    assert_eq!(find_tab(&open, &PathBuf::from("/x//y"), &same), Some(0));
    assert_eq!(find_tab(&open, &PathBuf::from("/x/./z"), &same), Some(1));
    assert_eq!(find_tab(&open, &PathBuf::from("/x"), &same), None);
}

#[test]
fn arrivals_are_dealt_with() {
    let mut s = AppState::default();
    let r = s.rodeo.clone();
    let batch = || Arrival::Batch(vec![event(&r, 5, 1, ROOT, &[])]);
    assert_eq!(s.receive(batch(), 0, 7, "log"), Polling::Again);
    assert_eq!(s.loading_progress, Some(7));
    assert_eq!(s.receive(batch(), MAX_BATCHES_PER_FRAME - 2, 8, "log"), Polling::Again);
    assert_eq!(s.receive(batch(), MAX_BATCHES_PER_FRAME - 1, 8, "log"), Polling::Later);
    assert_eq!(s.event_store.len(), 3);
    assert_eq!(s.receive(Arrival::Nothing, 0, 9, "log"), Polling::Later);
    assert_eq!(s.loading_progress, Some(9));
    assert!(s.file_metadata.is_none());
    assert_eq!(s.receive(Arrival::Done { error_count: 4 }, 1, 9, "log"), Polling::Over);
    assert_eq!(s.parse_error_count, 4);
    assert_eq!(s.loading_progress, None);
    assert_eq!(s.file_metadata.as_ref().unwrap().total_records, 3);
    let mut s = AppState::default();
    assert_eq!(s.receive(Arrival::Closed, 0, 0, "log"), Polling::Over);
    assert_eq!(s.file_metadata.as_ref().unwrap().path, "log");
    assert_eq!(s.parse_error_count, 0);
}

#[test]
fn sessions_and_counts() {
    assert_eq!(active_after_close(3, 3), 2);
    assert_eq!(active_after_close(1, 3), 1);
    assert_eq!(active_after_close(0, 0), 0);
    assert_eq!(fmt_count(0), "0");
    assert_eq!(fmt_count(1234567), "1,234,567");
    assert_eq!(fmt_count(100), "100");
    assert!(estimated_saving(1000, 10) > estimated_saving(1000, 900));
}
