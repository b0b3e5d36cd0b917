use systrace::types::{parse_guid, parse_guid_opt, parse_mitre_rule_name};

#[test]
fn parse_guid_roundtrip() {
    let s = "817bddf3-3514-65cc-0802-000000001900";
    let bytes = parse_guid(s).unwrap();
    assert_eq!(bytes.len(), 16);
}

#[test]
fn parse_guid_invalid() {
    assert!(parse_guid("not-a-guid").is_err());
}

#[test]
fn parse_guid_opt_empty() {
    assert_eq!(parse_guid_opt("").unwrap(), None);
    assert_eq!(parse_guid_opt("-").unwrap(), None);
}

#[test]
fn parse_guid_opt_all_zeros_is_none() {
    assert_eq!(parse_guid_opt("00000000-0000-0000-0000-000000000000").unwrap(), None);
    assert_eq!(parse_guid_opt("{00000000-0000-0000-0000-000000000000}").unwrap(), None);
}

#[test]
fn guid_fields_are_read_without_white_space() {
    let g = "817bddf3-3514-65cc-0802-000000001900";
    assert_eq!(parse_guid_opt(&format!(" {g}\t")), Ok(Some(parse_guid(g).unwrap())));
    assert_eq!(parse_guid_opt(" - "), Ok(None));
    for text in ["nonsense", "817bddf3-3514-65cc-0802", "{zz}"] {
        assert_eq!(parse_guid_opt(&format!("  {text} ")).unwrap_err(), parse_guid(text).unwrap_err());
    }
}

#[test]
fn parse_mitre_full() {
    let t = parse_mitre_rule_name("technique_id=T1189,technique_name=Drive-by Compromise").unwrap();
    assert_eq!(t.id, "T1189");
    assert_eq!(t.name, "Drive-by Compromise");
}

#[test]
fn parse_mitre_empty() {
    assert!(parse_mitre_rule_name("").is_none());
    assert!(parse_mitre_rule_name("-").is_none());
    assert!(parse_mitre_rule_name("no_technique_here").is_none());
}

#[test]
fn guid_parsing_edge_cases() {
    // Standard GUID from the sample data
    assert!(parse_guid("817bddf3-3514-65cc-0802-000000001900").is_ok());
    // All-zeros
    assert!(parse_guid("00000000-0000-0000-0000-000000000000").is_ok());
    // Invalid
    assert!(parse_guid("not-a-guid").is_err());
    assert!(parse_guid("").is_err());
    assert!(parse_guid("817bddf3-3514-65cc-0802").is_err());
}

#[test]
fn mitre_rule_name_parsing() {
    let t = parse_mitre_rule_name("technique_id=T1059.001,technique_name=PowerShell").unwrap();
    assert_eq!(t.id, "T1059.001");
    assert_eq!(t.name, "PowerShell");

    // Multiple fields with spaces around comma
    let t2 = parse_mitre_rule_name("technique_id=T1055 , technique_name=Process Injection").unwrap();
    assert_eq!(t2.id, "T1055");
    assert_eq!(t2.name, "Process Injection");

    // Missing one part
    assert!(parse_mitre_rule_name("technique_id=T1055").is_none());
    assert!(parse_mitre_rule_name("-").is_none());
    assert!(parse_mitre_rule_name("").is_none());
}
