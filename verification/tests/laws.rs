use systrace::event::{EventDetail, SysmonEvent, SysmonEventType};
use systrace::evtx::bytes::Cur;
use systrace::evtx::record::{read_substitutions, SubEntry};
use systrace::evtx::value::decode_value;
use systrace::guid::guid_hex;
use systrace::interner::{new_rodeo, SharedRodeo};
use systrace::lenient::fix_unescaped_backslashes;
use systrace::loading::take_events;
use systrace::event_store::EventStore;
use systrace::order::sorted_order;
use systrace::panels::{arrange, SortState};
use systrace::panels::pipes::PipeRow;
use systrace::process_tree::ProcessTree;
use systrace::sigma::condition::{parse_condition, tokenize};
use systrace::sigma::is_rule_extension;
use systrace::sigma::matcher::eval_condition;
use systrace::state::AppState;
use systrace::textmap::TextMap;
use systrace::types::{parse_guid, Timestamp};

const A: &str = "00000000-0000-0000-0001-0000000000aa";
const B: &str = "00000000-0000-0000-0002-0000000000bb";
const C: &str = "00000000-0000-0000-0003-0000000000cc";

fn create(rodeo: &SharedRodeo, g: &str, parent: Option<&str>, secs: i64) -> SysmonEvent {
    SysmonEvent {
        event_id: 1,
        event_type: SysmonEventType::ProcessCreate,
        time_created: Timestamp { secs, nanos: 0 },
        record_number: 0,
        computer: rodeo.get_or_intern("HOST"),
        process_guid: Some(parse_guid(g).unwrap()),
        process_id: Some(secs as u32),
        image: Some(rodeo.get_or_intern("C:\\x.exe")),
        user: None,
        rule_name: None,
        mitre_technique: None,
        detail: EventDetail::ProcessCreate {
            command_line: None,
            current_directory: None,
            hashes: None,
            parent_process_guid: parent.map(|p| parse_guid(p).unwrap()),
            parent_process_id: None,
            parent_image: None,
            parent_command_line: None,
            parent_user: None,
            logon_guid: None,
            logon_id: None,
            terminal_session_id: None,
            integrity_level: None,
            file_version: None,
            description: None,
            product: None,
            company: None,
            original_file_name: None,
        },
    }
}

fn plain(rodeo: &SharedRodeo, id: u16, g: &str) -> SysmonEvent {
    let mut e = create(rodeo, g, None, 9);
    e.event_id = id;
    e.event_type = SysmonEventType::from_event_id(id);
    e.detail = EventDetail::ProcessTerminate;
    e
}

#[test]
fn every_created_process_is_in_the_tree() {
    let rodeo = new_rodeo();
    let mut store = EventStore::new();
    let mut tree = ProcessTree::new();
    let batch =
        vec![create(&rodeo, C, Some(B), 3), create(&rodeo, B, Some(A), 2), create(&rodeo, A, None, 1)];
    take_events(&mut store, &mut tree, &rodeo, batch);
    for g in [A, B, C] {
        assert!(!tree.get(&parse_guid(g).unwrap()).unwrap().is_synthetic);
    }
    assert_eq!(tree.children_of(&parse_guid(A).unwrap()).to_vec(), vec![parse_guid(B).unwrap()]);
    assert_eq!(tree.children_of(&parse_guid(B).unwrap()).to_vec(), vec![parse_guid(C).unwrap()]);
}

#[test]
fn other_events_leave_the_tree_alone() {
    let rodeo = new_rodeo();
    let mut store = EventStore::new();
    let mut tree = ProcessTree::new();
    let batch = vec![create(&rodeo, A, None, 1), plain(&rodeo, 3, B), plain(&rodeo, 22, A)];
    take_events(&mut store, &mut tree, &rodeo, batch);
    assert_eq!(store.len(), 3);
    assert_eq!(tree.len(), 1);
    assert_eq!(tree.get(&parse_guid(A).unwrap()).unwrap().end_time, None);
}

#[test]
fn families_survive_cycles() {
    let rodeo = new_rodeo();
    let mut s = AppState::default();
    s.rodeo = rodeo.clone();
    let batch = vec![
        create(&rodeo, A, Some(C), 1),
        create(&rodeo, B, Some(A), 2),
        create(&rodeo, C, Some(B), 3),
    ];
    s.take_in(batch, 1);
    s.finish_loading("x");
    let family = s.process_tree.family(parse_guid(B).unwrap());
    assert_eq!(family.len(), 3);
    assert!(!s.subtree_matches_filter(parse_guid(A).unwrap(), "absent"));
    assert!(s.subtree_matches_filter(parse_guid(A).unwrap(), "x.exe"));
    assert!(s.node_passes_event_filter(&parse_guid(A).unwrap()));
    let leaf = ProcessTree::new().family(parse_guid(A).unwrap());
    assert_eq!(leaf.len(), 1);
}

#[test]
fn finalising_again_changes_nothing() {
    let rodeo = new_rodeo();
    let mut store = EventStore::new();
    let mut tree = ProcessTree::new();
    let batch =
        vec![create(&rodeo, C, Some(A), 3), create(&rodeo, B, Some(A), 2), create(&rodeo, A, None, 1)];
    take_events(&mut store, &mut tree, &rodeo, batch);
    let a = parse_guid(A).unwrap();
    let sorted = vec![parse_guid(B).unwrap(), parse_guid(C).unwrap()];
    for _ in 0..2 {
        tree.finalise();
        assert_eq!(tree.roots().to_vec(), vec![a]);
        assert_eq!(tree.children_of(&a).to_vec(), sorted);
    }
}

#[test]
fn promotion_keeps_the_children() {
    let rodeo = new_rodeo();
    let mut tree = ProcessTree::new();
    let a = parse_guid(A).unwrap();
    tree.insert_process_create(&create(&rodeo, C, Some(A), 3), &rodeo);
    tree.insert_process_create(&create(&rodeo, B, Some(A), 2), &rodeo);
    assert!(tree.get(&a).unwrap().is_synthetic);
    let waiting = vec![parse_guid(C).unwrap(), parse_guid(B).unwrap()];
    assert_eq!(tree.children_of(&a).to_vec(), waiting);
    tree.insert_process_create(&create(&rodeo, A, None, 1), &rodeo);
    assert!(!tree.get(&a).unwrap().is_synthetic);
    assert_eq!(tree.children_of(&a).to_vec(), waiting);
}

#[test]
fn repairs_change_only_backslashes() {
    for s in ["C:\\temp\\x", "a\\", "\\u00e9\\q", "plain", "\\\"\\\\/"] {
        let mended = fix_unescaped_backslashes(s);
        assert!(mended.len() >= s.len());
        assert_eq!(mended.replace('\\', ""), s.replace('\\', ""));
    }
}

#[test]
fn guids_read_back() {
    let bytes: [u8; 16] = [9, 8, 7, 6, 5, 4, 3, 2, 1, 0, 255, 254, 16, 17, 18, 19];
    let text = decode_value(&bytes, 0x0f);
    let read = parse_guid(&text).unwrap();
    assert_eq!(read, [6, 7, 8, 9, 4, 5, 2, 3, 1, 0, 255, 254, 16, 17, 18, 19]);
    assert_eq!(parse_guid(&guid_hex(&read)).unwrap(), read);
    assert_eq!(parse_guid(text.trim_start_matches('{').trim_end_matches('}')).unwrap(), read);
}

#[test]
fn repairs_are_made_once() {
    for s in ["C:\\temp\\x", "a\\", "\\u00e9\\q", "plain"] {
        let once = fix_unescaped_backslashes(s);
        assert_eq!(fix_unescaped_backslashes(&once), once);
    }
}

#[test]
fn cursors_move_forward() {
    let bytes = [1u8, 2, 0, 3, 0, 0, 0, 9];
    let mut cur = Cur::new(&bytes, 0);
    assert_eq!(cur.read_u8(), Some(1));
    assert_eq!(cur.read_u16(), Some(2));
    assert_eq!(cur.read_u32(), Some(3));
    assert_eq!(cur.remaining(), 1);
    assert_eq!(cur.read_u16(), None);
    assert_eq!(cur.remaining(), 1);
    cur.skip(100);
    assert_eq!(cur.remaining(), 0);
    assert_eq!(cur.read_u8(), None);
    assert_eq!(Cur::new(&bytes, 100).remaining(), 0);
}

#[test]
fn substitutions_fit_their_bytes() {
    let bytes = [2u8, 0, 6, 0, 9, 0, 1, 0, 0x2c, 1, 5];
    let mut cur = Cur::new(&bytes, 0);
    let subs: Vec<SubEntry> = read_substitutions(&mut cur, 2);
    assert_eq!(subs.len(), 2);
    assert_eq!((subs[0].vtype, subs[0].data.clone()), (6, vec![0x2c, 1]));
    assert_eq!((subs[1].vtype, subs[1].data.clone()), (1, vec![]));
}

#[test]
fn orders_keep_all_items() {
    let keys: Vec<u64> = vec![3, 1, 2, 1];
    let order = sorted_order(&keys);
    assert_eq!(order, vec![1, 3, 2, 0]);
}

#[test]
fn arrangements_do_not_depend_on_the_way() {
    let row = |name: &str| PipeRow {
        time: Timestamp { secs: 0, nanos: 0 },
        action: "Create".to_owned(),
        pipe_name: name.to_owned(),
        mitre: String::new(),
    };
    let rows = vec![row("b"), row("a"), row("c")];
    let up = arrange(&rows, "", &None, &SortState { column: 2, ascending: true });
    let mut down = arrange(&rows, "", &None, &SortState { column: 2, ascending: false });
    down.reverse();
    assert_eq!(up, vec![1, 0, 2]);
    assert_eq!(down, up);
}

#[test]
fn conditions_read_all_their_words() {
    assert_eq!(tokenize("a and(not b)"), vec!["a", "and", "(", "not", "b", ")"]);
    let mut results: TextMap<bool> = TextMap::new();
    results.insert("a".to_owned(), true);
    let holds = |text: &str| eval_condition(&parse_condition(text).unwrap(), &results);
    assert_ne!(holds("a"), holds("not a"));
    assert_eq!(holds("not not a"), holds("a"));
    assert!(holds("b or a"));
    assert!(holds("(a"));
}

#[test]
fn extensions_of_rule_files() {
    assert!(is_rule_extension("yml"));
    assert!(is_rule_extension("YaML"));
    assert!(!is_rule_extension("json"));
    assert!(!is_rule_extension(""));
    assert!(!is_rule_extension("ým1"));
}
