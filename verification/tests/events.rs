use systrace::event::{EventDetail, SysmonEvent, SysmonEventType};
use systrace::event_store::EventStore;
use systrace::interner::{new_rodeo, SharedRodeo};
use systrace::process_tree::{file_name, ProcessTree};
use systrace::types::{parse_guid, Timestamp};

fn dummy_event(event_id: u16, guid_str: &str, rodeo: &SharedRodeo) -> SysmonEvent {
    SysmonEvent {
        event_id,
        event_type: SysmonEventType::from_event_id(event_id),
        time_created: Timestamp { secs: 0, nanos: 0 },
        record_number: 0,
        computer: rodeo.get_or_intern("test"),
        process_guid: Some(parse_guid(guid_str).unwrap()),
        process_id: Some(100),
        image: None,
        user: None,
        rule_name: None,
        mitre_technique: None,
        detail: EventDetail::ProcessTerminate,
    }
}

const G1: &str = "00000000-0000-0000-0001-000000000000";
const G2: &str = "00000000-0000-0000-0002-000000000000";

#[test]
fn basic_indexing() {
    let rodeo = new_rodeo();
    let mut store = EventStore::new();
    store.insert(dummy_event(1, G1, &rodeo));
    store.insert(dummy_event(3, G1, &rodeo));
    store.insert(dummy_event(1, G2, &rodeo));

    let guid1 = parse_guid(G1).unwrap();
    let guid2 = parse_guid(G2).unwrap();

    assert_eq!(store.events_for_process(&guid1).len(), 2);
    assert_eq!(store.events_for_process(&guid2).len(), 1);
    assert_eq!(store.events_for_type(1).len(), 2);
    assert_eq!(store.events_for_type(3).len(), 1);
}

#[test]
fn events_for_process_and_type() {
    let rodeo = new_rodeo();
    let mut store = EventStore::new();
    store.insert(dummy_event(1, G1, &rodeo));
    store.insert(dummy_event(3, G1, &rodeo));
    store.insert(dummy_event(3, G1, &rodeo));

    let guid1 = parse_guid(G1).unwrap();
    let network = store.events_for_process_and_type(&guid1, 3);
    assert_eq!(network.len(), 2);
}

#[test]
fn indices_hold_positions_in_order() {
    let rodeo = new_rodeo();
    let mut store = EventStore::with_capacity(4);
    assert!(store.is_empty());
    store.insert(dummy_event(3, G1, &rodeo));
    store.insert(dummy_event(22, G2, &rodeo));
    store.insert(dummy_event(22, G1, &rodeo));
    store.insert(dummy_event(11, G1, &rodeo));
    let guid1 = parse_guid(G1).unwrap();
    let unknown = parse_guid("00000000-0000-0000-0009-000000000000").unwrap();
    assert_eq!(store.events_for_process(&guid1).to_vec(), vec![0, 2, 3]);
    assert_eq!(store.events_for_process_and_types(&guid1, &[3, 22]), vec![0, 2]);
    assert_eq!(store.events_for_type(22).to_vec(), vec![1, 2]);
    assert!(store.events_for_process(&unknown).is_empty());
    assert!(store.events_for_type(7).is_empty());
    assert_eq!(store.len(), 4);
    assert!(!store.is_empty());
}

#[test]
fn counts_by_type_add_up() {
    let rodeo = new_rodeo();
    let mut store = EventStore::default();
    for id in [22u16, 3, 22, 300, 3, 22] {
        store.insert(dummy_event(id, G1, &rodeo));
    }
    let counts = store.event_type_counts();
    assert_eq!(counts, vec![(3, 2), (22, 3), (300, 1)]);
    assert_eq!(counts.iter().map(|c| c.1).sum::<usize>(), store.len());
}

#[test]
fn targets_are_indexed() {
    let rodeo = new_rodeo();
    let mut store = EventStore::new();
    let mut e = dummy_event(10, G1, &rodeo);
    e.detail = EventDetail::ProcessAccess {
        source_process_guid: Some(parse_guid(G1).unwrap()),
        source_process_id: None,
        source_image: None,
        target_process_guid: Some(parse_guid(G2).unwrap()),
        target_process_id: None,
        target_image: None,
        granted_access: None,
        call_trace: None,
    };
    assert_eq!(e.secondary_process_guid(), Some(parse_guid(G2).unwrap()));
    store.insert(dummy_event(1, G1, &rodeo));
    store.insert(e);
    assert_eq!(store.events_targeting_process(&parse_guid(G2).unwrap()).to_vec(), vec![1]);
    assert!(store.events_targeting_process(&parse_guid(G1).unwrap()).is_empty());
}

#[test]
fn sysmon_event_type_roundtrip() {
    for id in 1u16..=29 {
        let et = SysmonEventType::from_event_id(id);
        assert_eq!(et.event_id(), id, "event_id roundtrip failed for {id}");
        assert!(!et.display_name().is_empty());
    }
    // Unknown
    let unknown = SysmonEventType::from_event_id(99);
    assert_eq!(unknown.event_id(), 99);
}

#[test]
fn event_type_names() {
    assert_eq!(SysmonEventType::from_event_id(1).display_name(), "ProcessCreate");
    assert_eq!(SysmonEventType::from_event_id(22).display_name(), "DnsQuery");
    assert_eq!(SysmonEventType::from_event_id(29).display_name(), "FileExecutableDetected");
    assert_eq!(SysmonEventType::from_event_id(0).display_name(), "Unknown");
    assert_eq!(SysmonEventType::from_event_id(300), SysmonEventType::Unknown(300));
}

fn make_ts(secs: i64) -> Timestamp {
    Timestamp { secs, nanos: 0 }
}

fn make_create_event(
    guid_str: &str,
    parent_guid_str: Option<&str>,
    pid: u32,
    image: &str,
    rodeo: &SharedRodeo,
) -> SysmonEvent {
    let guid = parse_guid(guid_str).unwrap();
    let parent_guid = parent_guid_str.map(|s| parse_guid(s).unwrap());
    SysmonEvent {
        event_id: 1,
        event_type: SysmonEventType::ProcessCreate,
        time_created: make_ts(pid as i64),
        record_number: pid as u64,
        computer: rodeo.get_or_intern("TEST"),
        process_guid: Some(guid),
        process_id: Some(pid),
        image: Some(rodeo.get_or_intern(image)),
        user: None,
        rule_name: None,
        mitre_technique: None,
        detail: EventDetail::ProcessCreate {
            command_line: None,
            current_directory: None,
            hashes: None,
            parent_process_guid: parent_guid,
            parent_process_id: None,
            parent_image: Some("parent.exe".to_owned()),
            parent_command_line: None,
            parent_user: None,
            logon_guid: None,
            logon_id: None,
            terminal_session_id: None,
            integrity_level: None,
            file_version: None,
            description: None,
            product: None,
            company: None,
            original_file_name: None,
        },
    }
}

const GUID_ROOT: &str = "00000000-0000-0000-0001-000000000000";
const GUID_CHILD: &str = "00000000-0000-0000-0002-000000000000";
const GUID_GRAND: &str = "00000000-0000-0000-0003-000000000000";

#[test]
fn basic_parent_child() {
    let rodeo = new_rodeo();
    let mut tree = ProcessTree::new();
    let root_event = make_create_event(GUID_ROOT, None, 1, "root.exe", &rodeo);
    let child_event = make_create_event(GUID_CHILD, Some(GUID_ROOT), 2, "child.exe", &rodeo);

    tree.insert_process_create(&root_event, &rodeo);
    tree.insert_process_create(&child_event, &rodeo);
    tree.finalise();

    assert_eq!(tree.roots().len(), 1);
    let root_children = tree.children_of(&parse_guid(GUID_ROOT).unwrap());
    assert_eq!(root_children.len(), 1);
    assert_eq!(root_children[0], parse_guid(GUID_CHILD).unwrap());
}

#[test]
fn out_of_order_child_before_parent() {
    let rodeo = new_rodeo();
    let mut tree = ProcessTree::new();
    let root_event = make_create_event(GUID_ROOT, None, 1, "root.exe", &rodeo);
    let child_event = make_create_event(GUID_CHILD, Some(GUID_ROOT), 2, "child.exe", &rodeo);

    // Insert child before parent
    tree.insert_process_create(&child_event, &rodeo);
    tree.insert_process_create(&root_event, &rodeo);
    tree.finalise();

    // After finalise, child should be parented to root
    let root_children = tree.children_of(&parse_guid(GUID_ROOT).unwrap());
    assert_eq!(root_children.len(), 1);
    assert_eq!(root_children[0], parse_guid(GUID_CHILD).unwrap());
}

#[test]
fn orphan_gets_synthetic_parent() {
    let rodeo = new_rodeo();
    let mut tree = ProcessTree::new();
    let child_event = make_create_event(GUID_CHILD, Some(GUID_ROOT), 2, "child.exe", &rodeo);
    tree.insert_process_create(&child_event, &rodeo);
    tree.finalise();

    // Root guid should have a synthetic node
    let root_guid = parse_guid(GUID_ROOT).unwrap();
    let synth = tree.get(&root_guid).unwrap();
    assert!(synth.is_synthetic);
    assert!(tree.roots().contains(&root_guid));
}

#[test]
fn promoted_placeholder_is_no_root() {
    let rodeo = new_rodeo();
    let mut tree = ProcessTree::new();
    let root = parse_guid(GUID_ROOT).unwrap();
    let child = parse_guid(GUID_CHILD).unwrap();
    let grand = parse_guid(GUID_GRAND).unwrap();
    tree.insert_process_create(&make_create_event(GUID_ROOT, None, 1, "g.exe", &rodeo), &rodeo);
    let event = make_create_event(GUID_GRAND, Some(GUID_CHILD), 3, "c.exe", &rodeo);
    tree.insert_process_create(&event, &rodeo);
    assert_eq!(tree.roots().to_vec(), vec![root, child]);
    let event = make_create_event(GUID_CHILD, Some(GUID_ROOT), 2, "p.exe", &rodeo);
    tree.insert_process_create(&event, &rodeo);
    assert_eq!(tree.roots().to_vec(), vec![root]);
    assert_eq!(tree.children_of(&root).to_vec(), vec![child]);
    assert_eq!(tree.children_of(&child).to_vec(), vec![grand]);
}

#[test]
fn placeholder_takes_what_the_child_knows() {
    let rodeo = new_rodeo();
    let mut tree = ProcessTree::default();
    assert!(tree.is_empty());
    tree.insert_process_create(
        &make_create_event(GUID_CHILD, Some(GUID_ROOT), 7, "C:\\bin\\child.exe", &rodeo),
        &rodeo,
    );
    let root = tree.get(&parse_guid(GUID_ROOT).unwrap()).unwrap();
    assert_eq!(root.image_name.as_deref(), Some("parent.exe"));
    assert_eq!(root.start_time, make_ts(7));
    let child = tree.get(&parse_guid(GUID_CHILD).unwrap()).unwrap();
    assert_eq!(child.image_name.as_deref(), Some("child.exe"));
    assert_eq!(child.parent_guid, Some(parse_guid(GUID_ROOT).unwrap()));
    assert_eq!(tree.len(), 2);
    assert!(!tree.is_empty());
}

#[test]
fn promotion_and_termination() {
    let rodeo = new_rodeo();
    let mut tree = ProcessTree::new();
    tree.insert_process_create(
        &make_create_event(GUID_CHILD, Some(GUID_ROOT), 9, "child.exe", &rodeo),
        &rodeo,
    );
    tree.insert_process_create(&make_create_event(GUID_ROOT, None, 3, "root.exe", &rodeo), &rodeo);
    let root_guid = parse_guid(GUID_ROOT).unwrap();
    {
        let root = tree.get(&root_guid).unwrap();
        assert!(!root.is_synthetic);
        assert_eq!(root.image_name.as_deref(), Some("root.exe"));
        assert_eq!(root.start_time, make_ts(3));
        assert_eq!(root.end_time, None);
    }
    tree.update_process_terminate(root_guid, make_ts(50));
    assert_eq!(tree.get(&root_guid).unwrap().end_time, Some(make_ts(50)));
    tree.update_process_terminate(parse_guid(GUID_GRAND).unwrap(), make_ts(51));
    assert!(tree.get(&parse_guid(GUID_GRAND).unwrap()).is_none());
}

#[test]
fn finalise_sorts_children_by_start_time() {
    let rodeo = new_rodeo();
    let mut tree = ProcessTree::new();
    tree.insert_process_create(&make_create_event(GUID_ROOT, None, 1, "root.exe", &rodeo), &rodeo);
    tree.insert_process_create(
        &make_create_event(GUID_GRAND, Some(GUID_ROOT), 9, "late.exe", &rodeo),
        &rodeo,
    );
    tree.insert_process_create(
        &make_create_event(GUID_CHILD, Some(GUID_ROOT), 4, "early.exe", &rodeo),
        &rodeo,
    );
    let root = parse_guid(GUID_ROOT).unwrap();
    assert_eq!(tree.children_of(&root)[0], parse_guid(GUID_GRAND).unwrap());
    tree.finalise();
    assert_eq!(
        tree.children_of(&root).to_vec(),
        vec![parse_guid(GUID_CHILD).unwrap(), parse_guid(GUID_GRAND).unwrap()]
    );
    assert!(tree.children_of(&parse_guid(GUID_CHILD).unwrap()).is_empty());
}

#[test]
fn tree_parts_fit_together() {
    let rodeo = new_rodeo();
    let mut tree = ProcessTree::new();
    for (g, p, n) in [(GUID_GRAND, GUID_CHILD, 5u32), (GUID_CHILD, GUID_ROOT, 4)] {
        tree.insert_process_create(&make_create_event(g, Some(p), n, "x.exe", &rodeo), &rodeo);
    }
    tree.finalise();
    for root_guid in tree.roots() {
        let node = tree.get(root_guid).expect("Root guid should exist in nodes");
        for child_guid in &node.children {
            assert!(tree.get(child_guid).is_some(), "Child guid references a missing node");
        }
    }
    assert_eq!(
        tree.children_of(&parse_guid(GUID_CHILD).unwrap()).to_vec(),
        vec![parse_guid(GUID_GRAND).unwrap()]
    );
}

#[test]
fn file_names() {
    assert_eq!(file_name("C:\\Windows\\System32\\svchost.exe"), "svchost.exe");
    assert_eq!(file_name("/usr/bin/env"), "env");
    assert_eq!(file_name("plain"), "plain");
    assert_eq!(file_name("dir\\"), "");
}
