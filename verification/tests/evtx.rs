use systrace::clock::EPOCH_DIFF;
use systrace::event::EventDetail;
use systrace::evtx::chunk::{CHUNK_SIG, RECORD_SIG};
use systrace::evtx::value::decode_value;
use systrace::evtx::{
    parse_evtx_bytes, EvtxError, EvtxReader, CHUNK_SIZE, FILE_HEADER_SIZE, FILE_SIG,
};
use systrace::interner::new_rodeo;
use systrace::types::{parse_guid, ParseError, Timestamp};

// An event log file, built byte by byte.

fn put(c: &mut [u8], at: usize, bytes: &[u8]) {
    c[at..at + bytes.len()].copy_from_slice(bytes);
}

fn utf16(s: &str) -> Vec<u8> {
    s.encode_utf16().flat_map(|u| u.to_le_bytes()).collect()
}

struct Chunk {
    bytes: Vec<u8>,
    next_name: usize,
}

const TEMPLATE: usize = 0x800;
const RECORDS: usize = 0x2000;
const TABLE: u32 = (RECORDS - 0x180) as u32;

impl Chunk {
    fn new() -> Chunk {
        let mut bytes = vec![0u8; CHUNK_SIZE];
        put(&mut bytes, 0, &CHUNK_SIG.to_le_bytes());
        put(&mut bytes, 0x18, &1i64.to_le_bytes());
        put(&mut bytes, 0x20, &9i64.to_le_bytes());
        put(&mut bytes, 0x28, &TABLE.to_le_bytes());
        Chunk { bytes, next_name: 0x400 }
    }

    // Stores a name and gives its position.
    fn name(&mut self, s: &str) -> u32 {
        let at = self.next_name;
        let text = utf16(s);
        put(&mut self.bytes, at + 6, &(s.encode_utf16().count() as u16).to_le_bytes());
        put(&mut self.bytes, at + 8, &text);
        self.next_name = at + 8 + text.len() + 2;
        assert!(self.next_name < TEMPLATE);
        at as u32
    }

    fn attribute(&mut self, name: &str, value: &[u8]) -> Vec<u8> {
        let mut out = vec![0x06];
        out.extend(self.name(name).to_le_bytes());
        out.extend(value);
        out
    }

    fn element(&mut self, name: &str, attribute: Option<Vec<u8>>, content: Option<Vec<u8>>) -> Vec<u8> {
        let mut body = Vec::new();
        body.extend(self.name(name).to_le_bytes());
        let op = if attribute.is_some() { 0x41 } else { 0x01 };
        if let Some(a) = attribute {
            body.extend((a.len() as i32).to_le_bytes());
            body.extend(a);
        }
        match content {
            Some(inner) => {
                body.push(0x02);
                body.extend(inner);
                body.push(0x04);
            }
            None => body.push(0x03),
        }
        let mut out = vec![op, 0xff, 0xff];
        out.extend((body.len() as i32).to_le_bytes());
        out.extend(body);
        out
    }

    fn template(&mut self, provider: &str) {
        let literal = text(provider);
        let by = self.attribute("Name", &literal);
        let when = self.attribute("SystemTime", &substitution(1, 0x11));
        let mut system = self.element("Provider", Some(by), None);
        system.extend(self.element("EventID", None, Some(substitution(0, 0x06))));
        system.extend(self.element("TimeCreated", Some(when), None));
        system.extend(self.element("Computer", None, Some(text("HOST"))));
        let mut data = Vec::new();
        for (i, (name, vtype)) in
            [("ProcessGuid", 0x0fu8), ("ProcessId", 0x08), ("Image", 0x01)].iter().enumerate()
        {
            let a = self.attribute("Name", &text(name));
            data.extend(self.element("Data", Some(a), Some(substitution(2 + i as u16, *vtype))));
        }
        let mut inner = self.element("System", None, Some(system));
        inner.extend(self.element("EventData", None, Some(data)));
        let mut xml = vec![0x0f, 1, 1, 0];
        xml.extend(self.element("Event", None, Some(inner)));
        xml.push(0);
        put(&mut self.bytes, 0x180, &(TEMPLATE as u32 + 10).to_le_bytes());
        self.bytes[TEMPLATE] = 0x0c;
        self.bytes[TEMPLATE + 1] = 1;
        put(&mut self.bytes, TEMPLATE + 6, &(TEMPLATE as i32).to_le_bytes());
        put(&mut self.bytes, TEMPLATE + 30, &(xml.len() as i32).to_le_bytes());
        put(&mut self.bytes, TEMPLATE + 34, &xml);
    }

    // Writes a record and gives the position after it.
    fn record(&mut self, at: usize, number: u64, subs: &[(u16, Vec<u8>)]) -> usize {
        let mut payload = vec![0x0f, 1, 1, 0, 0x0c, 1, 0, 0, 0, 0];
        payload.extend((TEMPLATE as i32).to_le_bytes());
        payload.extend((subs.len() as i32).to_le_bytes());
        for (vtype, data) in subs {
            payload.extend((data.len() as u16).to_le_bytes());
            payload.extend(vtype.to_le_bytes());
        }
        for (_, data) in subs {
            payload.extend(data);
        }
        let size = 24 + payload.len() + 4;
        put(&mut self.bytes, at, &RECORD_SIG.to_le_bytes());
        put(&mut self.bytes, at + 4, &(size as u32).to_le_bytes());
        put(&mut self.bytes, at + 8, &number.to_le_bytes());
        put(&mut self.bytes, at + 16, &EPOCH_DIFF.to_le_bytes());
        put(&mut self.bytes, at + 24, &payload);
        put(&mut self.bytes, at + size - 4, &(size as u32).to_le_bytes());
        put(&mut self.bytes, 0x2c, &(at as u32).to_le_bytes());
        at + size
    }
}

fn text(s: &str) -> Vec<u8> {
    let mut out = vec![0x05, 0x01];
    out.extend((s.encode_utf16().count() as u16).to_le_bytes());
    out.extend(utf16(s));
    out
}

fn substitution(id: u16, vtype: u8) -> Vec<u8> {
    let mut out = vec![0x0d];
    out.extend(id.to_le_bytes());
    out.push(vtype);
    out
}

const GUID: &str = "817bddf3-3514-65cc-0802-000000001900";

fn subs(event_id: u16, ticks: i64, image: &str) -> Vec<(u16, Vec<u8>)> {
    vec![
        (0x06, event_id.to_le_bytes().to_vec()),
        (0x11, (EPOCH_DIFF + ticks).to_le_bytes().to_vec()),
        (0x0f, uuid::Uuid::parse_str(GUID).unwrap().to_bytes_le().to_vec()),
        (0x08, 4242u32.to_le_bytes().to_vec()),
        (0x01, utf16(image)),
    ]
}

fn file(chunks: &[&Chunk]) -> Vec<u8> {
    let mut out = vec![0u8; FILE_HEADER_SIZE];
    put(&mut out, 0, &FILE_SIG.to_le_bytes());
    put(&mut out, 0x2a, &(chunks.len() as u16).to_le_bytes());
    for c in chunks {
        out.extend(&c.bytes);
    }
    out
}

#[test]
fn events_of_a_log() {
    let mut c = Chunk::new();
    c.template("Microsoft-Windows-Sysmon");
    let next = c.record(RECORDS, 1, &subs(5, 15_000_000, "C:\\a.exe"));
    let next = c.record(next, 2, &subs(11, 20_000_000, "C:\\b.exe"));
    c.record(next, 77, &subs(11, 20_000_000, "outside the chunk's numbers"));
    let rodeo = new_rodeo();
    let mut errors: Vec<ParseError> = Vec::new();
    let batches = match parse_evtx_bytes(&file(&[&c]), &mut errors, &rodeo) {
        Ok(b) => b,
        Err(_) => panic!("expected a log"),
    };
    assert!(errors.is_empty());
    assert_eq!(batches.len(), 1);
    let events = &batches[0];
    assert_eq!(events.len(), 2);
    assert_eq!(events[0].event_id, 5);
    assert_eq!(events[0].record_number, 1);
    assert_eq!(events[0].time_created, Timestamp { secs: 1, nanos: 500_000_000 });
    assert_eq!(rodeo.resolve(&events[0].computer), "HOST");
    assert_eq!(events[0].process_guid, Some(parse_guid(GUID).unwrap()));
    assert_eq!(events[0].process_id, Some(4242));
    assert_eq!(rodeo.resolve(&events[0].image.unwrap()), "C:\\a.exe");
    assert!(matches!(events[0].detail, EventDetail::ProcessTerminate));
    assert!(matches!(events[1].detail, EventDetail::FileCreate { .. }));
}

#[test]
fn other_providers_are_passed_over() {
    let mut c = Chunk::new();
    c.template("Microsoft-Windows-Security-Auditing");
    c.record(RECORDS, 1, &subs(5, 0, "x"));
    let rodeo = new_rodeo();
    let mut errors: Vec<ParseError> = Vec::new();
    let batches = parse_evtx_bytes(&file(&[&c]), &mut errors, &rodeo);
    assert!(matches!(batches, Ok(b) if b.is_empty()));
    assert!(errors.is_empty());
}

#[test]
fn chunks_are_read_one_by_one() {
    let mut a = Chunk::new();
    a.template("Microsoft-Windows-Sysmon");
    a.record(RECORDS, 1, &subs(5, 0, "x"));
    let empty = Chunk::new();
    let data = file(&[&a, &empty, &a]);
    let rodeo = new_rodeo();
    let mut errors: Vec<ParseError> = Vec::new();
    let mut reader = match EvtxReader::open(&data) {
        Ok(r) => r,
        Err(_) => panic!("expected a log"),
    };
    let mut chunks = 0;
    while let Some(read) = reader.step(&data, &mut errors, &rodeo) {
        assert_eq!(read.bytes, CHUNK_SIZE);
        assert!(read.full.is_empty());
        chunks += 1;
    }
    assert_eq!(chunks, 3);
    assert_eq!(reader.finish().map(|b| b.len()), Some(2));
}

#[test]
fn headers_are_checked() {
    let rodeo = new_rodeo();
    let mut errors: Vec<ParseError> = Vec::new();
    assert!(matches!(parse_evtx_bytes(&[], &mut errors, &rodeo), Err(EvtxError::TooSmall)));
    let blank = vec![0u8; FILE_HEADER_SIZE];
    assert!(matches!(parse_evtx_bytes(&blank, &mut errors, &rodeo), Err(EvtxError::BadSignature)));
}

#[test]
fn truncated_logs_give_what_is_there() {
    let mut c = Chunk::new();
    c.template("Microsoft-Windows-Sysmon");
    let next = c.record(RECORDS, 1, &subs(5, 0, "x"));
    c.record(next, 2, &subs(5, 0, "y"));
    let mut data = file(&[&c]);
    data.truncate(FILE_HEADER_SIZE + next + 30);
    let rodeo = new_rodeo();
    let mut errors: Vec<ParseError> = Vec::new();
    let batches = parse_evtx_bytes(&data, &mut errors, &rodeo);
    assert!(matches!(batches, Ok(b) if b.len() == 1 && b[0].len() == 1));
}

#[test]
fn values_by_type() {
    assert_eq!(decode_value(&utf16("abc"), 0x01), "abc");
    assert_eq!(decode_value(&[0xff], 0x03), "-1");
    assert_eq!(decode_value(&[0xff], 0x04), "255");
    assert_eq!(decode_value(&[0x2c, 0x01], 0x06), "300");
    assert_eq!(decode_value(&[0xfe, 0xff, 0xff, 0xff], 0x07), "-2");
    assert_eq!(decode_value(&[1, 0, 0, 0], 0x0d), "true");
    assert_eq!(
        decode_value(&uuid::Uuid::parse_str(GUID).unwrap().to_bytes_le(), 0x0f),
        "{817bddf3-3514-65cc-0802-000000001900}"
    );
    assert_eq!(
        decode_value(&EPOCH_DIFF.to_le_bytes(), 0x11),
        "1970-01-01T00:00:00.000000000Z"
    );
    assert_eq!(
        decode_value(&[1, 2, 0, 0, 0, 0, 0, 5, 32, 0, 0, 0, 0x20, 2, 0, 0], 0x13),
        "S-1-5-32-544"
    );
    assert_eq!(decode_value(&[0x1f, 0, 0, 0], 0x14), "0x1F");
}
