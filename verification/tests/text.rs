use systrace::clock::{filetime_to_rfc3339, read_instant, show_instant, EPOCH_DIFF};
use systrace::guid::{guid_bytes, guid_eq, guid_hex};
use systrace::lenient::fix_unescaped_backslashes;
use systrace::numbers::{decimal_text, parse_unsigned, pid_text, port_text, signed_text};
use systrace::order::sorted_order;
use systrace::text::{contains, ends_with, join, less, split, starts_with, strip_prefix, trim};
use systrace::textmap::TextMap;
use systrace::types::{parse_guid, parse_mitre_rule_name, Timestamp};
use systrace::utf16::decode_utf16le;

#[test]
fn instants_in_every_form() {
    let at = Timestamp { secs: 1683112512, nanos: 233_539_500 };
    assert_eq!(read_instant("2023-05-03T11:15:12.2335395+00:00"), Some(at));
    assert_eq!(read_instant("2023-05-03T13:15:12.2335395+02:00"), Some(at));
    assert_eq!(read_instant("2023-05-03T11:15:12.2335395"), Some(at));
    assert_eq!(read_instant("2023-05-03 11:15:12.2335395"), Some(at));
    assert_eq!(
        read_instant("2023-05-03 11:15:12"),
        Some(Timestamp { secs: 1683112512, nanos: 0 })
    );
    assert_eq!(read_instant("2023-05-03"), None);
    assert_eq!(read_instant(""), None);
}

#[test]
fn instants_in_display_formats() {
    let at = Timestamp { secs: 1683112512, nanos: 233_539_500 };
    assert_eq!(show_instant(&at, "%Y-%m-%d"), "2023-05-03");
    assert_eq!(show_instant(&at, "%Y-%m-%d %H:%M:%S UTC"), "2023-05-03 11:15:12 UTC");
    assert_eq!(show_instant(&at, "%Y-%m-%d %H:%M:%S%.3f UTC"), "2023-05-03 11:15:12.233 UTC");
    let never = Timestamp { secs: i64::MAX, nanos: 0 };
    assert_eq!(show_instant(&never, "%Y-%m-%d"), "");
}

#[test]
fn filetimes_round_trip() {
    assert_eq!(filetime_to_rfc3339(EPOCH_DIFF), "1970-01-01T00:00:00.000000000Z");
    assert_eq!(filetime_to_rfc3339(EPOCH_DIFF - 1), "");
    let ft = EPOCH_DIFF + 16_831_125_122_335_395;
    assert_eq!(
        read_instant(&filetime_to_rfc3339(ft)),
        Some(Timestamp { secs: 1683112512, nanos: 233_539_500 })
    );
}

#[test]
fn guids_as_text() {
    let g = parse_guid("817BDDF3-3514-65cc-0802-000000001900").unwrap();
    assert_eq!(guid_hex(&g), "817bddf3351465cc0802000000001900");
    assert_eq!(guid_bytes(&g), "817bddf3351465cc820000190");
    assert!(guid_eq(&g, &parse_guid("{817bddf3-3514-65cc-0802-000000001900}").unwrap()));
}

#[test]
fn numbers_as_text() {
    assert_eq!(decimal_text(0), "0");
    assert_eq!(decimal_text(u64::MAX), "18446744073709551615");
    assert_eq!(signed_text(i64::MIN), "-9223372036854775808");
    assert_eq!(port_text(Some(443), "-"), "443");
    assert_eq!(port_text(None, "-"), "-");
    assert_eq!(pid_text(Some(7), "?"), "7");
    assert_eq!(parse_unsigned("65535", 65535), Some(65535));
    assert_eq!(parse_unsigned("65536", 65535), None);
    assert_eq!(parse_unsigned("+7", 65535), Some(7));
    assert_eq!(parse_unsigned("", 65535), None);
    assert_eq!(parse_unsigned("-1", 65535), None);
}

#[test]
fn text_helpers() {
    assert_eq!(trim(" \u{a0}a b\t\n"), "a b");
    assert_eq!(split("a,,b", ','), vec!["a", "", "b"]);
    assert_eq!(split("", ','), vec![""]);
    assert_eq!(join(&vec!["a", "b", "c"], ", "), "a, b, c");
    assert!(contains("abc", ""));
    assert!(contains("abc", "bc"));
    assert!(!contains("abc", "cb"));
    assert!(starts_with("abc", "ab") && ends_with("abc", "bc"));
    assert_eq!(strip_prefix("abc", "ab").as_deref(), Some("c"));
    assert_eq!(strip_prefix("abc", "b"), None);
    assert!(less("a", "ab") && less("Z", "a") && !less("a", "a"));
}

#[test]
fn utf16_texts() {
    let le = |s: &str| -> Vec<u8> { s.encode_utf16().flat_map(|u| u.to_le_bytes()).collect() };
    assert_eq!(decode_utf16le(&le("a😀b")), "a😀b");
    assert_eq!(decode_utf16le(&[0x00, 0xd8, 0x61, 0x00]), "\u{fffd}a");
    assert_eq!(decode_utf16le(&le("x\0")), "x");
}

#[test]
fn text_maps() {
    let mut m: TextMap<u8> = TextMap::new();
    assert!(m.is_empty());
    m.insert("a".to_owned(), 1);
    m.insert("b".to_owned(), 2);
    m.insert("a".to_owned(), 3);
    assert_eq!(m.get("a"), Some(&3));
    assert_eq!(m.get("c"), None);
    assert!(m.contains_key("b"));
    assert_eq!(m.len(), 2);
}

#[test]
fn stable_orders() {
    let keys = vec![
        Timestamp { secs: 2, nanos: 0 },
        Timestamp { secs: 1, nanos: 5 },
        Timestamp { secs: 2, nanos: 0 },
        Timestamp { secs: 1, nanos: 4 },
    ];
    assert_eq!(sorted_order(&keys), vec![3, 1, 0, 2]);
}

#[test]
fn techniques_need_both_parts() {
    assert!(parse_mitre_rule_name("technique_id=T1").is_none());
    let t = parse_mitre_rule_name("technique_name= b ,technique_id= a").unwrap();
    assert_eq!((t.id.as_str(), t.name.as_str()), ("a", "b"));
}

#[test]
fn stray_backslashes_are_doubled() {
    assert_eq!(fix_unescaped_backslashes("\\ x"), "\\\\ x");
    assert_eq!(fix_unescaped_backslashes("\\u0041\\n\\\\"), "\\u0041\\\\n\\\\");
    assert_eq!(fix_unescaped_backslashes(""), "");
}
