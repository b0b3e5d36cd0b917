use systrace::event::EventDetail;
use systrace::export::{
    detect_format, parse_csv, parse_lines, parse_payload, parse_table, CsvColumns, CsvTable,
    DataField, EventDataWrapper, LogFormat, LogReader, PayloadWrapper,
};
use systrace::interner::new_rodeo;
use systrace::lenient::fix_unescaped_backslashes;
use systrace::parser::{extract_event, RawEvtxRecord, BATCH_SIZE};
use systrace::textmap::TextMap;
use systrace::types::{parse_guid, ParseError, Timestamp};

// Readers of payloads and records, on the values that serde_json gives.

fn missing(what: &str) -> serde_json::Error {
    serde::de::Error::custom(what)
}

fn text_in(v: &serde_json::Value, key: &str) -> Option<String> {
    v.get(key).and_then(|x| x.as_str()).map(|s| s.to_owned())
}

fn read_payload(s: &str) -> Result<PayloadWrapper, serde_json::Error> {
    let v: serde_json::Value = serde_json::from_str(s)?;
    let mut event_data = None;
    if let Some(d) = v.get("EventData").and_then(|e| e.get("Data")).and_then(|d| d.as_array()) {
        let mut data = Vec::new();
        for f in d {
            data.push(DataField {
                name: text_in(f, "@Name").ok_or_else(|| missing("@Name"))?,
                text: text_in(f, "#text"),
            });
        }
        event_data = Some(EventDataWrapper { data });
    }
    Ok(PayloadWrapper { event_data })
}

fn read_record(s: &str) -> Result<RawEvtxRecord, serde_json::Error> {
    let v: serde_json::Value = serde_json::from_str(s)?;
    let number = |key: &str| v.get(key).and_then(|x| x.as_u64());
    Ok(RawEvtxRecord {
        event_id: number("EventId").ok_or_else(|| missing("EventId"))? as u16,
        time_created: text_in(&v, "TimeCreated").ok_or_else(|| missing("TimeCreated"))?,
        record_number: number("RecordNumber").ok_or_else(|| missing("RecordNumber"))?,
        payload: text_in(&v, "Payload").ok_or_else(|| missing("Payload"))?,
        computer: text_in(&v, "Computer").ok_or_else(|| missing("Computer"))?,
        user_name: text_in(&v, "UserName"),
        map_description: text_in(&v, "MapDescription"),
        executable_info: text_in(&v, "ExecutableInfo"),
        payload_data1: text_in(&v, "PayloadData1"),
        payload_data2: text_in(&v, "PayloadData2"),
        payload_data3: text_in(&v, "PayloadData3"),
        payload_data4: text_in(&v, "PayloadData4"),
        payload_data5: text_in(&v, "PayloadData5"),
        payload_data6: text_in(&v, "PayloadData6"),
    })
}

#[test]
fn parse_payload_basic() {
    // Use r##"..."## so that the inner `#` does not terminate the raw string.
    let payload = r##"{"EventData":{"Data":[{"@Name":"ProcessGuid","#text":"{abc}"},{"@Name":"Image","#text":"C:\\foo.exe"}]}}"##;
    let map = parse_payload(payload, &read_payload).unwrap();
    assert_eq!(map.get("ProcessGuid").unwrap(), "{abc}");
    assert_eq!(map.get("Image").unwrap(), "C:\\foo.exe");
}

#[test]
fn parse_payload_unescaped_backslash_paths() {
    // Simulates EVTXECmd output with single backslashes (not doubled).
    // \w, \S, \c are invalid JSON escapes; \t and \r are valid JSON escapes
    // that EVTXECmd never intends as control characters.
    let payload = "{\"EventData\":{\"Data\":[{\"@Name\":\"CommandLine\",\"#text\":\"rundll32.exe C:\\windows\\System32\\comsvcs.dll, MiniDump 624 C:\\temp\\lsass.dmp full\"}]}}";
    let map = parse_payload(payload, &read_payload).unwrap();
    let cmd = map.get("CommandLine").unwrap();
    assert!(cmd.contains("C:\\windows"), "expected backslash before 'windows', got: {cmd}");
    assert!(cmd.contains("\\System32"), "expected backslash before 'System32', got: {cmd}");
    assert!(cmd.contains("\\comsvcs"), "expected backslash before 'comsvcs', got: {cmd}");
    assert!(cmd.contains("C:\\temp"), "expected backslash before 'temp', got: {cmd}");
    assert!(cmd.contains("\\lsass"), "expected backslash before 'lsass', got: {cmd}");
}

#[test]
fn parse_payload_missing_text_skipped() {
    let payload = r##"{"EventData":{"Data":[{"@Name":"EmptyField"}]}}"##;
    let map = parse_payload(payload, &read_payload).unwrap();
    assert!(map.get("EmptyField").is_none());
}

#[test]
fn parse_payload_empty_data() {
    let payload = r##"{"EventData":{"Data":[]}}"##;
    let map = parse_payload(payload, &read_payload).unwrap();
    assert!(map.is_empty());
}

#[test]
fn parse_payload_from_sample_record() {
    // Payload from the first record in sysmon.json
    let payload = r##"{"EventData":{"Data":[{"@Name":"RuleName","#text":"-"},{"@Name":"ProcessGuid","#text":"817bddf3-3514-65cc-0802-000000001900"},{"@Name":"QueryName","#text":"example.com"}]}}"##;
    let map = parse_payload(payload, &read_payload).unwrap();
    assert_eq!(map.get("RuleName").unwrap(), "-");
    assert_eq!(map.get("ProcessGuid").unwrap(), "817bddf3-3514-65cc-0802-000000001900");
    assert_eq!(map.get("QueryName").unwrap(), "example.com");
}

#[test]
fn parse_payload_reports_the_first_error() {
    assert!(parse_payload("{", &read_payload).is_err());
}

#[test]
fn repair_of_backslashes() {
    let broken = "{\"a\":\"C:\\windows\"}";
    let fixed = fix_unescaped_backslashes(broken);
    assert_eq!(fixed, "{\"a\":\"C:\\\\windows\"}");
    let plain = "{\"a\":\"no backslash\"}";
    assert_eq!(fix_unescaped_backslashes(plain), plain);
}

#[test]
fn only_escapes_with_four_digits_are_kept() {
    assert_eq!(fix_unescaped_backslashes(r"C:\users"), r"C:\\users");
    assert_eq!(fix_unescaped_backslashes(r"\u00eF!"), r"\u00eF!");
    assert_eq!(fix_unescaped_backslashes(r"\u00e"), r"\\u00e");
    assert_eq!(fix_unescaped_backslashes(r"\u"), r"\\u");
    assert_eq!(fix_unescaped_backslashes(r#"\"\\\/"#), r#"\"\\\/"#);
    assert_eq!(fix_unescaped_backslashes(r"\n\t"), r"\\n\\t");
    let payload = r##"{"EventData":{"Data":[{"@Name":"Image","#text":"C:\users\x"}]}}"##;
    let map = parse_payload(payload, &read_payload).unwrap();
    assert_eq!(map.get("Image").unwrap(), r"C:\users\x");
}

#[test]
fn formats_are_told_apart() {
    assert_eq!(detect_format(b"ElfFile\0", "ElfFile\0"), LogFormat::Evtx);
    assert_eq!(detect_format(b"{\"Event\"", "{\"EventId\":1}"), LogFormat::Ndjson);
    assert_eq!(
        detect_format("\u{feff}RecordNumber".as_bytes(), "\u{feff}RecordNumber,EventId"),
        LogFormat::Csv
    );
    assert_eq!(detect_format(b"whatever", "whatever, else"), LogFormat::Ndjson);
    assert_eq!(detect_format(b"", ""), LogFormat::Ndjson);
}

const PAYLOAD: &str = r##"{"EventData":{"Data":[{"@Name":"ProcessGuid","#text":"817bddf3-3514-65cc-0802-000000001900"},{"@Name":"ProcessId","#text":"77"},{"@Name":"Image","#text":"C:\\x.exe"},{"@Name":"QueryName","#text":"example.com"},{"@Name":"RuleName","#text":"technique_id=T1071,technique_name=Application Layer Protocol"}]}}"##;

fn json_line(event_id: u16, time: &str, payload: &str) -> String {
    let mut m = serde_json::Map::new();
    m.insert("EventId".to_owned(), serde_json::Value::from(event_id));
    m.insert("TimeCreated".to_owned(), serde_json::Value::from(time));
    m.insert("RecordNumber".to_owned(), serde_json::Value::from(5u64));
    m.insert("Payload".to_owned(), serde_json::Value::from(payload));
    m.insert("Computer".to_owned(), serde_json::Value::from("HOST"));
    serde_json::Value::Object(m).to_string()
}

#[test]
fn lines_become_events() {
    let rodeo = new_rodeo();
    let mut errors: Vec<ParseError> = Vec::new();
    let mut reader = LogReader::new();
    let line = json_line(22, "2023-05-03T11:15:12.2335395+00:00", PAYLOAD);
    let full = reader.read_line(&line, &read_record, &read_payload, &mut errors, &rodeo);
    assert!(full.is_none());
    assert!(reader.read_line("", &read_record, &read_payload, &mut errors, &rodeo).is_none());
    assert!(errors.is_empty());
    let events = reader.finish().unwrap();
    assert_eq!(events.len(), 1);
    let e = &events[0];
    assert_eq!(e.event_id, 22);
    assert_eq!(e.time_created, Timestamp { secs: 1683112512, nanos: 233539500 });
    assert_eq!(rodeo.resolve(&e.computer), "HOST");
    assert_eq!(rodeo.resolve(&e.image.unwrap()), "C:\\x.exe");
    assert_eq!(e.process_id, Some(77));
    assert_eq!(e.mitre_technique.as_ref().unwrap().id, "T1071");
    match &e.detail {
        EventDetail::DnsQuery { query_name, query_results, .. } => {
            assert_eq!(query_name.as_deref(), Some("example.com"));
            assert_eq!(query_results.as_deref(), None);
        }
        _ => panic!("expected a DNS query"),
    }
}

#[test]
fn csv_rows_and_json_lines_agree() {
    let rodeo = new_rodeo();
    let mut errors: Vec<ParseError> = Vec::new();
    let mut lines = LogReader::new();
    let line = json_line(22, "2023-05-03T11:15:12.2335395+00:00", PAYLOAD);
    lines.read_line(&line, &read_record, &read_payload, &mut errors, &rodeo);
    let headers: Vec<String> = ["RecordNumber", "EventId", "TimeCreated", "Payload", "Computer", "Level"]
        .iter()
        .map(|s| s.to_string())
        .collect();
    let columns = CsvColumns::from_headers(&headers);
    let row: Vec<String> =
        ["5", "22", "2023-05-03 11:15:12.2335395", PAYLOAD, "HOST", "4"].iter().map(|s| s.to_string()).collect();
    let mut rows = LogReader::new();
    rows.read_row(&columns, &row, &read_payload, &mut errors, &rodeo);
    assert!(errors.is_empty());
    let a = lines.finish().unwrap();
    let b = rows.finish().unwrap();
    assert_eq!(a.len(), 1);
    assert_eq!(b.len(), 1);
    assert_eq!(a[0].time_created, b[0].time_created);
    assert_eq!(a[0].record_number, b[0].record_number);
    assert_eq!(a[0].process_guid, b[0].process_guid);
    assert_eq!(a[0].event_id, b[0].event_id);
    assert_eq!(rodeo.resolve(&a[0].computer), rodeo.resolve(&b[0].computer));
}

#[test]
fn rows_without_needed_cells_are_passed_over() {
    let rodeo = new_rodeo();
    let mut errors: Vec<ParseError> = Vec::new();
    let headers: Vec<String> = ["EventId", "TimeCreated", "Payload"].iter().map(|s| s.to_string()).collect();
    let columns = CsvColumns::from_headers(&headers);
    let mut rows = LogReader::new();
    for cells in [["", "t", "p"], ["70000", "t", "p"], ["22", "", PAYLOAD], ["22", "t", ""]] {
        let row: Vec<String> = cells.iter().map(|s| s.to_string()).collect();
        rows.read_row(&columns, &row, &read_payload, &mut errors, &rodeo);
    }
    assert!(rows.finish().is_none());
    assert_eq!(
        row_errors(&errors),
        vec![
            (1, "EventId is missing or no number"),
            (2, "EventId is missing or no number"),
            (3, "TimeCreated is missing"),
            (4, "Payload is missing"),
        ]
    );
}

fn row_errors(errors: &[ParseError]) -> Vec<(u64, &str)> {
    errors
        .iter()
        .map(|e| match e {
            ParseError::CsvRowError { line, message } => (*line, message.as_str()),
            _ => panic!("expected an error of a row"),
        })
        .collect()
}

#[test]
fn malformed_csv_rows_are_reported() {
    let rodeo = new_rodeo();
    let mut errors: Vec<ParseError> = Vec::new();
    let text = "RecordNumber,EventId,TimeCreated,Payload\n1,abc,2023-05-03 11:15:12,{}\n";
    let batches = parse_csv(text.as_bytes(), &read_payload, &mut errors, &rodeo).unwrap();
    assert!(batches.is_empty());
    assert_eq!(row_errors(&errors), vec![(1, "EventId is missing or no number")]);
}

#[test]
fn csv_files_become_events() {
    let rodeo = new_rodeo();
    let mut errors: Vec<ParseError> = Vec::new();
    let quoted = PAYLOAD.replace('"', "\"\"");
    let mut bytes = b"Level,EventId,TimeCreated,Payload,Computer\n".to_vec();
    bytes.extend(format!("4,22,2023-05-03 11:15:12.2335395,\"{quoted}\",HOST,extra\n").as_bytes());
    bytes.extend(b"4,22,\xff,x\n");
    bytes.extend(b"4,22\n");
    bytes.extend(format!("4,22,2023-05-03 11:15:13,\"{quoted}\"\n").as_bytes());
    let batches = parse_csv(&bytes, &read_payload, &mut errors, &rodeo).unwrap();
    assert_eq!(batches.len(), 1);
    assert_eq!(batches[0].len(), 2);
    assert_eq!(batches[0][0].time_created, Timestamp { secs: 1683112512, nanos: 233539500 });
    assert_eq!(batches[0][0].process_id, Some(77));
    assert_eq!(rodeo.resolve(&batches[0][0].computer), "HOST");
    assert_eq!(batches[0][1].record_number, 4);
    let told = row_errors(&errors);
    assert_eq!(told.len(), 2);
    assert_eq!(told[0].0, 2);
    assert!(told[0].1.contains("invalid utf-8"), "{}", told[0].1);
    assert_eq!(told[1], (3, "TimeCreated is missing"));
}

#[test]
fn whole_exports_agree() {
    let rodeo = new_rodeo();
    let mut errors: Vec<ParseError> = Vec::new();
    let times = ["2023-05-03T11:15:12.2335395+00:00", "2023-05-04T00:00:00Z"];
    let lines: Vec<String> = times.iter().map(|t| json_line(22, t, PAYLOAD)).collect();
    let quoted = PAYLOAD.replace('"', "\"\"");
    let mut text = "RecordNumber,EventId,TimeCreated,Payload,Computer\n".to_owned();
    for t in ["2023-05-03 11:15:12.2335395", "2023-05-04 00:00:00"] {
        text.push_str(&format!("5,22,{t},\"{quoted}\",HOST\n"));
    }
    let a = parse_lines(&lines, &read_record, &read_payload, &mut errors, &rodeo);
    let b = parse_csv(text.as_bytes(), &read_payload, &mut errors, &rodeo).unwrap();
    assert!(errors.is_empty());
    assert_eq!(a.len(), 1);
    assert_eq!(b.len(), 1);
    assert_eq!(a[0].len(), 2);
    assert_eq!(b[0].len(), 2);
    for (x, y) in a[0].iter().zip(&b[0]) {
        assert_eq!(x.time_created, y.time_created);
        assert_eq!(x.record_number, y.record_number);
        assert_eq!(x.process_guid, y.process_guid);
        assert_eq!(x.computer, y.computer);
        assert_eq!(x.image, y.image);
    }
}

#[test]
fn unreadable_csv_headers_are_an_error() {
    let rodeo = new_rodeo();
    let mut errors: Vec<ParseError> = Vec::new();
    let r = parse_csv(b"EventId,\xff\n1,2\n", &read_payload, &mut errors, &rodeo);
    assert!(r.err().unwrap().contains("invalid utf-8"));
    assert!(errors.is_empty());
    assert_eq!(parse_csv(b"", &read_payload, &mut errors, &rodeo).unwrap().len(), 0);
    assert!(errors.is_empty());
}

#[test]
fn tables_are_read_in_batches() {
    let rodeo = new_rodeo();
    let mut errors: Vec<ParseError> = Vec::new();
    let texts = |cells: &[&str]| -> Vec<String> { cells.iter().map(|s| s.to_string()).collect() };
    let mut table = CsvTable { headers: texts(&["EventId", "TimeCreated", "Payload"]), rows: Vec::new() };
    for _ in 0..BATCH_SIZE {
        table.rows.push(Ok(texts(&["5", "2023-05-03T11:15:12Z", "{}"])));
    }
    let batches = parse_table(&table, &read_payload, &mut errors, &rodeo);
    assert_eq!(batches.iter().map(|b| b.len()).collect::<Vec<_>>(), vec![BATCH_SIZE]);
    table.rows.push(Err("broken".to_owned()));
    table.rows.push(Ok(texts(&["5", "2023-05-03T11:15:12Z", "{}"])));
    let batches = parse_table(&table, &read_payload, &mut errors, &rodeo);
    assert_eq!(batches.iter().map(|b| b.len()).collect::<Vec<_>>(), vec![BATCH_SIZE, 1]);
    assert_eq!(row_errors(&errors), vec![(BATCH_SIZE as u64 + 1, "broken")]);
}

#[test]
fn whole_json_logs_and_single_lines_agree() {
    let rodeo = new_rodeo();
    let mut errors: Vec<ParseError> = Vec::new();
    let good = json_line(22, "2023-05-03T11:15:12Z", PAYLOAD);
    let lines = vec![format!("\u{feff}{good}"), String::new(), "{".to_owned(), good.clone()];
    let batches = parse_lines(&lines, &read_record, &read_payload, &mut errors, &rodeo);
    assert_eq!(batches.len(), 1);
    assert_eq!(batches[0].len(), 2);
    assert_eq!(errors.len(), 1);
    assert!(matches!(errors[0], ParseError::TopLevelDeserialize { line: 3, .. }));
    let mut reader = LogReader::new();
    let mut more: Vec<ParseError> = Vec::new();
    for line in &lines {
        assert!(reader.read_line(line, &read_record, &read_payload, &mut more, &rodeo).is_none());
    }
    assert_eq!(reader.finish().unwrap().len(), 2);
    assert_eq!(more.len(), 1);
}

#[test]
fn each_error_has_its_input() {
    let rodeo = new_rodeo();
    let mut errors: Vec<ParseError> = Vec::new();
    let mut reader = LogReader::new();
    reader.read_line("{\"x\":", &read_record, &read_payload, &mut errors, &rodeo);
    assert!(matches!(errors.last(), Some(ParseError::TopLevelDeserialize { line: 1, .. })));
    let line = json_line(22, "2023-05-03T11:15:12Z", "{");
    reader.read_line(&line, &read_record, &read_payload, &mut errors, &rodeo);
    assert!(matches!(errors.last(), Some(ParseError::PayloadDeserialize { line: 2, .. })));
    let line = json_line(22, "yesterday", PAYLOAD);
    reader.read_line(&line, &read_record, &read_payload, &mut errors, &rodeo);
    match errors.last() {
        Some(ParseError::InvalidTimestamp { line, value, source }) => {
            assert_eq!(*line, 3);
            assert_eq!(value, "yesterday");
            assert_eq!(source, "premature end of input");
        }
        _ => panic!("expected an invalid timestamp"),
    }
    let bad_guid = r##"{"EventData":{"Data":[{"@Name":"ProcessGuid","#text":"nonsense"}]}}"##;
    let line = json_line(22, "2023-05-03T11:15:12Z", bad_guid);
    reader.read_line(&line, &read_record, &read_payload, &mut errors, &rodeo);
    match errors.last() {
        Some(ParseError::InvalidGuid { line, guid, source }) => {
            assert_eq!(*line, 4);
            assert_eq!(guid, "nonsense");
            assert_eq!(Some(source), parse_guid("nonsense").err().as_ref());
        }
        _ => panic!("expected an invalid GUID"),
    }
    reader.bad_row("unequal lengths".to_owned(), &mut errors);
    assert!(matches!(errors.last(), Some(ParseError::CsvRowError { .. })));
    assert_eq!(errors.len(), 5);
    match &errors[0] {
        ParseError::TopLevelDeserialize { line: 1, source } => {
            let first = read_record("{\"x\":").err().unwrap();
            assert_eq!(source.to_string(), first.to_string());
        }
        _ => panic!("expected the first error to stay"),
    }
    assert_eq!(reader.finish().map(|b| b.len()), Some(1));
}

#[test]
fn batches_are_handed_out_full() {
    let rodeo = new_rodeo();
    let mut errors: Vec<ParseError> = Vec::new();
    let mut reader = LogReader::new();
    let line = json_line(22, "2023-05-03T11:15:12Z", PAYLOAD);
    let mut handed = Vec::new();
    for _ in 0..BATCH_SIZE + 3 {
        if let Some(b) = reader.read_line(&line, &read_record, &read_payload, &mut errors, &rodeo) {
            handed.push(b.len());
        }
    }
    assert_eq!(handed, vec![BATCH_SIZE]);
    assert_eq!(reader.finish().unwrap().len(), 3);
}

#[test]
fn events_from_records() {
    let rodeo = new_rodeo();
    let mut errors: Vec<ParseError> = Vec::new();
    let mut fields: TextMap<String> = TextMap::new();
    fields.insert("Initiated".to_owned(), "true".to_owned());
    fields.insert("DestinationPort".to_owned(), "443".to_owned());
    fields.insert("SourcePort".to_owned(), "70000".to_owned());
    fields.insert("User".to_owned(), "NT AUTHORITY\\SYSTEM".to_owned());
    let raw = RawEvtxRecord {
        event_id: 3,
        time_created: "2023-05-03T11:15:12Z".to_owned(),
        record_number: 9,
        payload: String::new(),
        computer: "HOST".to_owned(),
        user_name: None,
        map_description: None,
        executable_info: None,
        payload_data1: None,
        payload_data2: None,
        payload_data3: None,
        payload_data4: None,
        payload_data5: None,
        payload_data6: None,
    };
    let e = extract_event(raw, &fields, 1, &mut errors, &rodeo).unwrap();
    assert_eq!(rodeo.resolve(&e.user.unwrap()), "NT AUTHORITY\\SYSTEM");
    match &e.detail {
        EventDetail::NetworkConnect { initiated, source_port, destination_port, .. } => {
            assert_eq!(*initiated, Some(true));
            assert_eq!(*source_port, None);
            assert_eq!(*destination_port, Some(443));
        }
        _ => panic!("expected a connection"),
    }
}
