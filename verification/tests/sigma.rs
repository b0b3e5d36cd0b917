use systrace::event::{EventDetail, SysmonEvent, SysmonEventType};
use systrace::event_store::EventStore;
use systrace::interner::{new_rodeo, SharedRodeo};
use systrace::sigma::category_to_event_ids;
use systrace::sigma::condition::{parse_condition, ConditionError, ConditionExpr};
use systrace::sigma::matcher::{
    apply_modifiers, evaluate_rules, eval_condition, field_match, get_field_value, glob_to_regex,
};
use systrace::sigma::rule::{
    parse_field_key, parse_selection, value_to_string_list, Modifier, RawRule, RuleError,
    SigmaFieldMatch, SigmaLevel, SigmaLogsource, SigmaRule, YamlValue,
};
use systrace::textmap::TextMap;
use systrace::types::Timestamp;

// A reader of rule files, on the values that serde_yaml gives.

fn missing(what: &str) -> serde_yaml::Error {
    serde::de::Error::custom(what)
}

fn convert(v: serde_yaml::Value) -> YamlValue {
    match v {
        serde_yaml::Value::Null => YamlValue::Null,
        serde_yaml::Value::Bool(b) => YamlValue::Bool(b),
        serde_yaml::Value::Number(n) => YamlValue::Number(n.to_string()),
        serde_yaml::Value::String(s) => YamlValue::Text(s),
        serde_yaml::Value::Sequence(s) => YamlValue::Sequence(s.into_iter().map(convert).collect()),
        serde_yaml::Value::Mapping(m) => {
            YamlValue::Mapping(m.into_iter().map(|(k, v)| (convert(k), convert(v))).collect())
        }
        serde_yaml::Value::Tagged(t) => YamlValue::Tagged(Box::new(convert(t.value))),
    }
}

fn text_of(v: &serde_yaml::Value, key: &str) -> Option<String> {
    v.get(key).and_then(|x| x.as_str()).map(|s| s.to_owned())
}

fn read_rule(yaml: &str) -> Result<RawRule, serde_yaml::Error> {
    let v: serde_yaml::Value = serde_yaml::from_str(yaml)?;
    let log = v.get("logsource").cloned().ok_or_else(|| missing("logsource"))?;
    let detection = match v.get("detection") {
        Some(serde_yaml::Value::Mapping(m)) => m.clone(),
        _ => return Err(missing("detection")),
    };
    let mut condition = None;
    let mut selections = Vec::new();
    for (k, x) in detection {
        let name = k.as_str().ok_or_else(|| missing("name"))?.to_owned();
        if name == "condition" {
            condition = x.as_str().map(|s| s.to_owned());
        } else {
            selections.push((name, convert(x)));
        }
    }
    let level = match text_of(&v, "level").as_deref() {
        Some("informational") => Some(SigmaLevel::Informational),
        Some("low") => Some(SigmaLevel::Low),
        Some("medium") => Some(SigmaLevel::Medium),
        Some("high") => Some(SigmaLevel::High),
        Some("critical") => Some(SigmaLevel::Critical),
        Some(_) => return Err(missing("level")),
        None => None,
    };
    Ok(RawRule {
        title: text_of(&v, "title").ok_or_else(|| missing("title"))?,
        id: text_of(&v, "id"),
        description: text_of(&v, "description"),
        status: text_of(&v, "status"),
        level,
        logsource: SigmaLogsource {
            category: text_of(&log, "category"),
            product: text_of(&log, "product"),
            service: text_of(&log, "service"),
        },
        condition: condition.ok_or_else(|| missing("condition"))?,
        selections,
    })
}

fn rule_from(yaml: &str) -> SigmaRule {
    match SigmaRule::from_yaml(yaml, &read_rule) {
        Ok(rule) => rule,
        Err(_) => panic!("rule not readable"),
    }
}

fn make_process_create_event(image: &str, command_line: &str, rodeo: &SharedRodeo) -> SysmonEvent {
    SysmonEvent {
        event_id: 1,
        event_type: SysmonEventType::ProcessCreate,
        time_created: Timestamp { secs: 0, nanos: 0 },
        record_number: 1,
        computer: rodeo.get_or_intern("TEST"),
        process_guid: None,
        process_id: Some(1234),
        image: Some(rodeo.get_or_intern(image)),
        user: None,
        rule_name: None,
        mitre_technique: None,
        detail: EventDetail::ProcessCreate {
            command_line: Some(command_line.to_owned()),
            current_directory: None,
            hashes: None,
            parent_process_guid: None,
            parent_process_id: None,
            parent_image: None,
            parent_command_line: None,
            parent_user: None,
            logon_guid: None,
            logon_id: None,
            terminal_session_id: None,
            integrity_level: None,
            file_version: None,
            description: None,
            product: None,
            company: None,
            original_file_name: None,
        },
    }
}

const LSASS_RULE_YAML: &str = r#"
title: LSASS Memory Dump via comsvcs.dll MiniDump
id: 5f0b4c16-85c0-4f73-bce9-2d0a5b1c3e7f
status: stable
logsource:
  category: process_creation
  product: windows
detection:
  selection:
    CommandLine|contains|all:
      - comsvcs
      - MiniDump
  condition: selection
level: critical
"#;

const PS_B64_RULE_YAML: &str = r#"
title: PowerShell Base64 Encoded Command Execution
id: 7b2d94c5-3f81-4e29-b3d7-a8e6f5c2d4b1
status: stable
logsource:
  category: process_creation
  product: windows
detection:
  selection_img:
    Image|endswith:
      - '\powershell.exe'
      - '\pwsh.exe'
  selection_cmd:
    CommandLine|contains:
      - ' -e '
      - ' -enc '
      - ' -EncodedCommand '
      - ' -ec '
  condition: selection_img and selection_cmd
level: high
"#;

#[test]
fn lsass_dump_rule_matches() {
    let rodeo = new_rodeo();
    let mut store = EventStore::new();

    // Matching event: command line contains comsvcs + MiniDump (as seen in CSV sample)
    let event = make_process_create_event(
        r"C:\Windows\system32\cmd.exe",
        r"cmd.exe /c rundll32.exe C:windowsSystem32comsvcs.dll, MiniDump 624 C:\temp\lsass.dmp full",
        &rodeo,
    );
    store.insert(event);

    let rule = rule_from(LSASS_RULE_YAML);
    let matches = evaluate_rules(&[rule], &store, &rodeo);
    assert_eq!(matches.len(), 1);
    assert_eq!(matches[0].event_id, 1);
}

#[test]
fn lsass_dump_rule_no_match() {
    let rodeo = new_rodeo();
    let mut store = EventStore::new();

    let event =
        make_process_create_event(r"C:\Windows\System32\cmd.exe", r"cmd.exe /c dir", &rodeo);
    store.insert(event);

    let rule = rule_from(LSASS_RULE_YAML);
    let matches = evaluate_rules(&[rule], &store, &rodeo);
    assert_eq!(matches.len(), 0);
}

#[test]
fn ps_b64_rule_matches() {
    let rodeo = new_rodeo();
    let mut store = EventStore::new();

    // Matching: -e flag as seen in CSV sample data
    let event = make_process_create_event(
        r"C:\Windows\System32\WindowsPowerShell\v1.0\powershell.exe",
        r"powershell.exe -e JABTAGUAYwB1AHIAZQBTAHQAcgBpAG4AZwA=",
        &rodeo,
    );
    store.insert(event);

    let rule = rule_from(PS_B64_RULE_YAML);
    let matches = evaluate_rules(&[rule], &store, &rodeo);
    assert_eq!(matches.len(), 1);
}

#[test]
fn modifier_contains_case_insensitive() {
    let fm = SigmaFieldMatch {
        field: "CommandLine".to_owned(),
        modifiers: vec![Modifier::Contains],
        values: vec!["COMSVCS".to_owned()],
    };
    let rodeo = new_rodeo();
    let event = make_process_create_event(
        r"C:\Windows\System32\rundll32.exe",
        r"rundll32.exe comsvcs.dll MiniDump",
        &rodeo,
    );
    assert!(field_match(&fm, &event, &rodeo));
}

#[test]
fn modifier_endswith() {
    let fm = SigmaFieldMatch {
        field: "Image".to_owned(),
        modifiers: vec![Modifier::EndsWith],
        values: vec![r"\rundll32.exe".to_owned()],
    };
    let rodeo = new_rodeo();
    let event = make_process_create_event(r"C:\Windows\System32\rundll32.exe", "test", &rodeo);
    assert!(field_match(&fm, &event, &rodeo));
}

const LSASS_RULE: &str = r#"
title: LSASS Memory Dump via comsvcs.dll
id: test-lsass-001
status: test
logsource:
  category: process_creation
  product: windows
detection:
  selection:
    Image|endswith: '\rundll32.exe'
    CommandLine|contains|all:
      - comsvcs
      - MiniDump
  condition: selection
level: critical
"#;

const PS_B64_RULE: &str = r#"
title: PowerShell Encoded Command Execution
id: test-ps-b64-001
status: test
logsource:
  category: process_creation
  product: windows
detection:
  selection_img:
    Image|endswith:
      - '\powershell.exe'
      - '\pwsh.exe'
  selection_cmd:
    CommandLine|contains:
      - '-enc '
      - '-EncodedCommand'
      - '-ec '
  condition: selection_img and selection_cmd
level: high
"#;

#[test]
fn parse_lsass_rule() {
    let rule = rule_from(LSASS_RULE);
    assert_eq!(rule.title, "LSASS Memory Dump via comsvcs.dll");
    assert_eq!(rule.level, SigmaLevel::Critical);
    assert_eq!(rule.logsource.category.as_deref(), Some("process_creation"));

    let sel = rule.detection.selections.get("selection").unwrap();
    assert_eq!(sel.fields.len(), 2);

    let image_field = sel.fields.iter().find(|f| f.field == "Image").unwrap();
    assert!(image_field.modifiers.contains(&Modifier::EndsWith));
    assert_eq!(image_field.values, vec![r"\rundll32.exe"]);

    let cmd_field = sel.fields.iter().find(|f| f.field == "CommandLine").unwrap();
    assert!(cmd_field.modifiers.contains(&Modifier::Contains));
    assert!(cmd_field.modifiers.contains(&Modifier::All));
    assert_eq!(cmd_field.values.len(), 2);
}

#[test]
fn parse_ps_b64_rule() {
    let rule = rule_from(PS_B64_RULE);
    assert_eq!(rule.level, SigmaLevel::High);
    assert!(rule.detection.selections.contains_key("selection_img"));
    assert!(rule.detection.selections.contains_key("selection_cmd"));

    // Condition should parse as And([Named("selection_img"), Named("selection_cmd")])
    match &rule.detection.condition {
        ConditionExpr::And(parts) => {
            assert_eq!(parts.len(), 2);
        }
        _ => panic!("expected And condition"),
    }
}

#[test]
fn parse_field_key_modifiers() {
    let (field, mods) = parse_field_key("CommandLine|contains|all");
    assert_eq!(field, "CommandLine");
    assert_eq!(mods, vec![Modifier::Contains, Modifier::All]);

    let (field2, mods2) = parse_field_key("Image|endswith");
    assert_eq!(field2, "Image");
    assert_eq!(mods2, vec![Modifier::EndsWith]);

    let (field3, mods3) = parse_field_key("Image");
    assert_eq!(field3, "Image");
    assert!(mods3.is_empty());
}

#[test]
fn levels_have_labels() {
    assert_eq!(SigmaLevel::Informational.label(), "Info");
    assert_eq!(SigmaLevel::Low.label(), "Low");
    assert_eq!(SigmaLevel::Medium.label(), "Medium");
    assert_eq!(SigmaLevel::High.label(), "High");
    assert_eq!(SigmaLevel::Critical.label(), "Critical");
    assert_eq!(SigmaLevel::default(), SigmaLevel::Low);
}

#[test]
fn categories_name_event_types() {
    assert_eq!(category_to_event_ids(Some("process_creation")), vec![1]);
    assert_eq!(category_to_event_ids(Some("dns_query")), vec![22]);
    assert_eq!(category_to_event_ids(Some("file_delete")), vec![23, 26]);
    assert!(category_to_event_ids(Some("unheard_of")).is_empty());
    assert!(category_to_event_ids(None).is_empty());
}

#[test]
fn modifiers_decide_how_values_compare() {
    assert!(apply_modifiers(&vec![Modifier::StartsWith], "PowerShell.exe", "power"));
    assert!(!apply_modifiers(&vec![Modifier::StartsWith], "PowerShell.exe", "shell"));
    assert!(apply_modifiers(&vec![], "ABC", "abc"));
    assert!(apply_modifiers(&vec![Modifier::Contains], "ÉTÉ Cmd.EXE", "été CMD"));
    assert!(apply_modifiers(&vec![], "aΣ", "Aς"));
    assert!(!apply_modifiers(&vec![], "ABCD", "abc"));
    assert!(apply_modifiers(&vec![Modifier::Re], "x=42", "[0-9]{2}$"));
    assert!(!apply_modifiers(&vec![Modifier::Re], "x=42", "^[0-9]"));
    assert!(!apply_modifiers(&vec![Modifier::Re], "anything", "("));
    assert!(apply_modifiers(&vec![Modifier::Contains, Modifier::EndsWith], "abcd", "BC"));
}

#[test]
fn case_does_not_matter_outside_expressions() {
    for m in [Modifier::Contains, Modifier::StartsWith, Modifier::EndsWith] {
        assert_eq!(
            apply_modifiers(&vec![m], "Rundll32.EXE", "rUNDLL32.exe"),
            apply_modifiers(&vec![m], "RUNDLL32.exe", "rundll32.EXE")
        );
    }
}

#[test]
fn fields_without_values_or_events_without_fields() {
    let rodeo = new_rodeo();
    let event = make_process_create_event("a.exe", "a", &rodeo);
    let nothing = SigmaFieldMatch { field: "Nope".to_owned(), modifiers: vec![], values: vec![] };
    assert!(field_match(&nothing, &event, &rodeo));
    let absent = SigmaFieldMatch {
        field: "Nope".to_owned(),
        modifiers: vec![],
        values: vec!["x".to_owned()],
    };
    assert!(!field_match(&absent, &event, &rodeo));
    assert_eq!(get_field_value(&event, "Image", &rodeo), Some("a.exe".to_owned()));
    assert_eq!(get_field_value(&event, "Nope", &rodeo), None);
}

#[test]
fn all_of_them_and_one_of_them() {
    let mut results: TextMap<bool> = TextMap::new();
    results.insert("selection_a".to_owned(), true);
    results.insert("selection_b".to_owned(), false);
    results.insert("other".to_owned(), true);
    let holds = |text: &str| match parse_condition(text) {
        Ok(c) => eval_condition(&c, &results),
        Err(_) => panic!("condition not readable: {text}"),
    };
    assert!(holds("selection_a"));
    assert!(!holds("selection_b"));
    assert!(!holds("missing"));
    assert!(holds("not missing"));
    assert!(holds("1 of selection_*"));
    assert!(!holds("all of selection_*"));
    assert!(holds("all of oth*"));
    assert!(!holds("all of nothing_*"));
    assert!(holds("selection_a and (selection_b or other)"));
    assert!(!holds("selection_a and not other"));
}

#[test]
fn unreadable_conditions_are_reported() {
    let error = |text: &str| match parse_condition(text) {
        Ok(_) => panic!("condition readable: {text}"),
        Err(e) => e,
    };
    assert_eq!(error(""), ConditionError::UnexpectedEnd);
    assert_eq!(error("a and"), ConditionError::UnexpectedEnd);
    assert_eq!(error("not"), ConditionError::UnexpectedEnd);
    assert_eq!(error("a or 1 selection_*"), ConditionError::ExpectedOfAfterOne { pos: 2 });
    assert_eq!(error("all selection_*"), ConditionError::ExpectedOfAfterAll { pos: 0 });
}

#[test]
fn globs_become_expressions() {
    assert_eq!(glob_to_regex("selection_*"), "^selection_.*$");
    assert_eq!(glob_to_regex("a.b"), "^a\\.b$");
}

#[test]
fn yaml_values_become_texts() {
    assert_eq!(value_to_string_list(&YamlValue::Text("a".to_owned())), vec!["a"]);
    assert_eq!(value_to_string_list(&YamlValue::Number("7".to_owned())), vec!["7"]);
    assert_eq!(value_to_string_list(&YamlValue::Bool(true)), vec!["true"]);
    assert!(value_to_string_list(&YamlValue::Null).is_empty());
    let list = YamlValue::Sequence(vec![
        YamlValue::Text("a".to_owned()),
        YamlValue::Null,
        YamlValue::Number("3".to_owned()),
    ]);
    assert_eq!(value_to_string_list(&list), vec!["a", "3"]);
}

#[test]
fn rule_errors() {
    let bad_yaml = SigmaRule::from_yaml(": :\n- [", &read_rule);
    assert!(matches!(bad_yaml, Err(RuleError::Yaml(_))));
    let bad_condition = SigmaRule::from_yaml(
        "title: t\nlogsource: {}\ndetection:\n  a:\n    F: x\n  condition: a and\n",
        &read_rule,
    );
    assert!(matches!(bad_condition, Err(RuleError::Condition(_))));
    let bad_key = SigmaRule::from_yaml(
        "title: t\nlogsource: {}\ndetection:\n  a:\n    7: x\n  condition: a\n",
        &read_rule,
    );
    assert!(matches!(bad_key, Err(RuleError::KeyNotString)));
    let level = rule_from("title: t\nlogsource: {}\ndetection:\n  a:\n    F: x\n  condition: a\n");
    assert_eq!(level.level, SigmaLevel::Low);
    assert!(parse_selection(&YamlValue::Mapping(vec![(YamlValue::Null, YamlValue::Null)])).is_none());
}

#[test]
fn every_match_is_found_once() {
    let rodeo = new_rodeo();
    let mut store = EventStore::new();
    for cmd in ["comsvcs MiniDump", "dir", "x MINIDUMP y COMSVCS"] {
        store.insert(make_process_create_event("cmd.exe", cmd, &rodeo));
    }
    let mut other = make_process_create_event("cmd.exe", "comsvcs MiniDump", &rodeo);
    other.event_id = 11;
    store.insert(other);
    let matches = evaluate_rules(&[rule_from(LSASS_RULE_YAML), rule_from(PS_B64_RULE_YAML)], &store, &rodeo);
    let at: Vec<usize> = matches.iter().map(|m| m.event_index).collect();
    assert_eq!(at, vec![0, 2]);
    assert_eq!(matches[0].level, SigmaLevel::Critical);
    assert_eq!(matches[0].rule_id.as_deref(), Some("5f0b4c16-85c0-4f73-bce9-2d0a5b1c3e7f"));
}
