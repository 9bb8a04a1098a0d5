use windiff_core::arch::OSArchitecture;
use windiff_core::configuration::{BinaryExtractedInformationFlags, WinDiffConfiguration};
use windiff_core::error::WinDiffError;
use windiff_core::json::JsonValue;

fn s(v: &str) -> JsonValue {
    JsonValue::Str(v.to_string())
}

fn obj(entries: Vec<(&str, JsonValue)>) -> JsonValue {
    JsonValue::Object(entries.into_iter().map(|(k, v)| (k.to_string(), v)).collect())
}

fn os(version: &str, update: &str, architecture: &str) -> JsonValue {
    obj(vec![
        ("architecture", s(architecture)),
        ("update", s(update)),
        ("version", s(version)),
    ])
}

fn binary(tokens: &[&str]) -> JsonValue {
    obj(vec![(
        "extracted_information",
        JsonValue::Array(tokens.iter().map(|t| s(t)).collect()),
    )])
}

fn config(oses: Vec<JsonValue>, binaries: Vec<(&str, JsonValue)>) -> JsonValue {
    obj(vec![
        ("binaries", obj(binaries)),
        ("oses", JsonValue::Array(oses)),
    ])
}

#[test]
fn configuration_parses_oses_and_binaries() {
    let v = config(
        vec![os("11-22H2", "KB5019509", "amd64"), os("11-Insider", "26100.1", "arm64")],
        vec![
            ("ntdll.dll", binary(&["EXPORTS", "DEBUG_SYMBOLS", "SYSCALLS"])),
            ("ntoskrnl.exe", binary(&["MODULES", "TYPES"])),
        ],
    );
    let cfg = WinDiffConfiguration::from_json(&v).expect("well-formed configuration");
    assert_eq!(cfg.oses.len(), 2);
    assert_eq!(cfg.oses[0].version, "11-22H2");
    assert_eq!(cfg.oses[0].update, "KB5019509");
    assert!(matches!(cfg.oses[0].architecture, OSArchitecture::Amd64));
    assert!(matches!(cfg.oses[1].architecture, OSArchitecture::Arm64));
    assert_eq!(cfg.binaries.len(), 2);
    assert_eq!(cfg.binaries[0].0, "ntdll.dll");
    let ntdll = cfg.binaries[0].1.extracted_information;
    assert!(ntdll.contains(BinaryExtractedInformationFlags::Exports));
    assert!(ntdll.contains(BinaryExtractedInformationFlags::DebugSymbols));
    assert!(ntdll.contains(BinaryExtractedInformationFlags::Syscalls));
    assert!(!ntdll.contains(BinaryExtractedInformationFlags::Modules));
    assert!(!ntdll.contains(BinaryExtractedInformationFlags::Types));
    let ntos = cfg.binaries[1].1.extracted_information;
    assert!(ntos.contains(BinaryExtractedInformationFlags::Modules));
    assert!(ntos.contains(BinaryExtractedInformationFlags::Types));
    assert!(!ntos.contains(BinaryExtractedInformationFlags::Exports));
}

#[test]
fn every_architecture_tag_is_understood() {
    for (tag, want) in [
        ("i386", OSArchitecture::I386),
        ("wow64", OSArchitecture::Wow64),
        ("amd64", OSArchitecture::Amd64),
        ("arm", OSArchitecture::Arm),
        ("arm64", OSArchitecture::Arm64),
    ] {
        let v = config(vec![os("v", "u", tag)], vec![]);
        let cfg = WinDiffConfiguration::from_json(&v).expect("known tag");
        assert_eq!(cfg.oses[0].architecture.to_str(), want.to_str());
    }
}

#[test]
fn unknown_architecture_is_a_configuration_error() {
    let v = config(vec![os("v", "u", "mips")], vec![]);
    match WinDiffConfiguration::from_json(&v) {
        Err(WinDiffError::ConfigurationError(_)) => {},
        _ => panic!("unknown architecture tag must be a configuration error"),
    }
}

#[test]
fn unknown_feature_token_is_a_configuration_error() {
    let v = config(vec![], vec![("ntdll.dll", binary(&["EXPORTS", "REGISTRY"]))]);
    match WinDiffConfiguration::from_json(&v) {
        Err(WinDiffError::ConfigurationError(_)) => {},
        _ => panic!("unknown feature token must be a configuration error"),
    }
}

#[test]
fn malformed_shapes_are_json_errors() {
    assert!(matches!(
        WinDiffConfiguration::from_json(&JsonValue::Null),
        Err(WinDiffError::JSONError)
    ));
    let no_binaries = obj(vec![("oses", JsonValue::Array(vec![]))]);
    assert!(matches!(
        WinDiffConfiguration::from_json(&no_binaries),
        Err(WinDiffError::JSONError)
    ));
    let bad_os = config(vec![JsonValue::UInt(3)], vec![]);
    assert!(matches!(
        WinDiffConfiguration::from_json(&bad_os),
        Err(WinDiffError::JSONError)
    ));
}

#[test]
fn binary_lookup_finds_configured_names() {
    let v = config(vec![], vec![("a.dll", binary(&[])), ("b.dll", binary(&["EXPORTS"]))]);
    let cfg = WinDiffConfiguration::from_json(&v).unwrap();
    assert!(cfg.get_binary("a.dll").is_some());
    let b = cfg.get_binary("b.dll").expect("configured");
    assert!(b.extracted_information.contains(BinaryExtractedInformationFlags::Exports));
    assert!(cfg.get_binary("c.dll").is_none());
}
