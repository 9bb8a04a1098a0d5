use windiff_core::arch::OSArchitecture;
use windiff_core::error::WinDiffError;
use windiff_core::json::{merge_json_values, JsonValue};
use windiff_core::winbindex::{get_pe_info_and_build_number_from_index, parse_file_information};

fn s(v: &str) -> JsonValue {
    JsonValue::Str(v.to_string())
}

fn obj(entries: Vec<(&str, JsonValue)>) -> JsonValue {
    JsonValue::Object(entries.into_iter().map(|(k, v)| (k.to_string(), v)).collect())
}

/// One index record; object keys are given in sorted order.
fn record(machine_type: u64, windows_versions: JsonValue) -> JsonValue {
    obj(vec![
        (
            "fileInfo",
            obj(vec![
                ("machineType", JsonValue::UInt(machine_type)),
                ("timestamp", JsonValue::UInt(0x1A2B3C4D)),
                ("virtualSize", JsonValue::UInt(0xDEAD)),
            ]),
        ),
        ("windowsVersions", windows_versions),
    ])
}

#[test]
fn regular_lookup_takes_release_version() {
    let wv = obj(vec![(
        "11-22H2",
        obj(vec![(
            "KB5019509",
            obj(vec![("updateInfo", obj(vec![("releaseVersion", s("22621.675"))]))]),
        )]),
    )]);
    let index = obj(vec![("hash", record(0x8664, wv))]);
    let (info, build) = get_pe_info_and_build_number_from_index(
        &index,
        "11-22H2",
        "KB5019509",
        OSArchitecture::Amd64,
    )
    .expect("record must match");
    assert_eq!(info.machine_type, 0x8664);
    assert_eq!(info.timestamp, 0x1A2B3C4D);
    assert_eq!(info.virtual_size, 0xDEAD);
    assert_eq!(build, "22621.675");
}

#[test]
fn insider_lookup_goes_through_builds() {
    let wv = obj(vec![(
        "builds",
        obj(vec![(
            "26100.1",
            obj(vec![("updateInfo", obj(vec![("build", s("26100"))]))]),
        )]),
    )]);
    let index = obj(vec![("hash", record(0x8664, wv))]);
    let (info, build) = get_pe_info_and_build_number_from_index(
        &index,
        "11-Insider",
        "26100.1",
        OSArchitecture::Amd64,
    )
    .expect("insider record must match");
    assert_eq!(info.machine_type, 0x8664);
    assert_eq!(build, "26100");
}

#[test]
fn missing_build_number_is_accepted_as_empty() {
    let wv = obj(vec![("11-22H2", obj(vec![("KB5019509", obj(vec![]))]))]);
    let index = obj(vec![("hash", record(0x8664, wv))]);
    let (_, build) = get_pe_info_and_build_number_from_index(
        &index,
        "11-22H2",
        "KB5019509",
        OSArchitecture::Amd64,
    )
    .expect("record matches even without a build number");
    assert_eq!(build, "");
}

#[test]
fn wrong_architecture_is_not_found() {
    let wv = obj(vec![("11-22H2", obj(vec![("KB5019509", obj(vec![]))]))]);
    let index = obj(vec![("hash", record(0x8664, wv))]);
    match get_pe_info_and_build_number_from_index(&index, "11-22H2", "KB5019509", OSArchitecture::Arm64) {
        Err(WinDiffError::FileNotFoundInIndex) => {},
        _ => panic!("machine type 0x8664 must not match arm64"),
    }
}

#[test]
fn wrong_version_or_update_is_not_found() {
    let wv = obj(vec![("11-22H2", obj(vec![("KB5019509", obj(vec![]))]))]);
    let index = obj(vec![("hash", record(0x8664, wv))]);
    assert!(matches!(
        get_pe_info_and_build_number_from_index(&index, "10-1809", "KB5019509", OSArchitecture::Amd64),
        Err(WinDiffError::FileNotFoundInIndex)
    ));
    assert!(matches!(
        get_pe_info_and_build_number_from_index(&index, "11-22H2", "KB0000000", OSArchitecture::Amd64),
        Err(WinDiffError::FileNotFoundInIndex)
    ));
}

#[test]
fn empty_or_non_object_index_is_not_found() {
    assert!(matches!(
        get_pe_info_and_build_number_from_index(&obj(vec![]), "v", "u", OSArchitecture::Amd64),
        Err(WinDiffError::FileNotFoundInIndex)
    ));
    assert!(matches!(
        get_pe_info_and_build_number_from_index(&JsonValue::Null, "v", "u", OSArchitecture::Amd64),
        Err(WinDiffError::FileNotFoundInIndex)
    ));
}

#[test]
fn unreadable_records_are_skipped() {
    let good_wv = obj(vec![("11-22H2", obj(vec![("KB5019509", obj(vec![]))]))]);
    let index = obj(vec![
        ("a-bad", obj(vec![("fileInfo", JsonValue::Null)])),
        ("b-good", record(0x8664, good_wv)),
    ]);
    let (info, _) = get_pe_info_and_build_number_from_index(
        &index,
        "11-22H2",
        "KB5019509",
        OSArchitecture::Amd64,
    )
    .expect("the readable record must be found");
    assert_eq!(info.machine_type, 0x8664);
}

#[test]
fn file_information_parsing_checks_kinds_and_ranges() {
    let good = obj(vec![
        ("machineType", JsonValue::UInt(0xaa64)),
        ("timestamp", JsonValue::UInt(7)),
        ("version", s("10.0.22621.1")),
        ("virtualSize", JsonValue::UInt(42)),
    ]);
    let f = parse_file_information(&good).expect("well-typed fileInfo");
    assert_eq!(f.machine_type, 0xaa64);
    assert_eq!(f.version.as_deref(), Some("10.0.22621.1"));
    let too_big = obj(vec![
        ("machineType", JsonValue::UInt(0x10000)),
        ("timestamp", JsonValue::UInt(7)),
        ("virtualSize", JsonValue::UInt(42)),
    ]);
    assert!(parse_file_information(&too_big).is_none());
    let wrong_kind = obj(vec![
        ("machineType", s("amd64")),
        ("timestamp", JsonValue::UInt(7)),
        ("virtualSize", JsonValue::UInt(42)),
    ]);
    assert!(parse_file_information(&wrong_kind).is_none());
}

#[test]
fn merge_overrides_leaves_and_recurses_into_objects() {
    let mut a = obj(vec![
        ("keep", s("old")),
        ("nested", obj(vec![("x", JsonValue::UInt(1)), ("y", JsonValue::UInt(2))])),
        ("replaced", JsonValue::Array(vec![JsonValue::UInt(1)])),
    ]);
    let b = obj(vec![
        ("added", s("new")),
        ("nested", obj(vec![("y", JsonValue::UInt(20)), ("z", JsonValue::UInt(30))])),
        ("replaced", JsonValue::Array(vec![JsonValue::UInt(9)])),
    ]);
    merge_json_values(&mut a, &b);
    match &a {
        JsonValue::Object(entries) => {
            let keys: Vec<&str> = entries.iter().map(|(k, _)| k.as_str()).collect();
            assert_eq!(keys, vec!["added", "keep", "nested", "replaced"]);
            match &entries[2].1 {
                JsonValue::Object(nested) => {
                    let got: Vec<(&str, &JsonValue)> =
                        nested.iter().map(|(k, v)| (k.as_str(), v)).collect();
                    assert_eq!(got.len(), 3);
                    assert!(matches!(got[0], ("x", JsonValue::UInt(1))));
                    assert!(matches!(got[1], ("y", JsonValue::UInt(20))));
                    assert!(matches!(got[2], ("z", JsonValue::UInt(30))));
                },
                _ => panic!("nested object must stay an object"),
            }
            match &entries[3].1 {
                JsonValue::Array(items) => {
                    assert!(matches!(items[0], JsonValue::UInt(9)));
                    assert_eq!(items.len(), 1);
                },
                _ => panic!("arrays are replaced wholesale"),
            }
        },
        _ => panic!("merge of two objects is an object"),
    }
}

#[test]
fn merge_replaces_non_objects_wholesale() {
    let mut a = s("old");
    let b = obj(vec![("k", s("v"))]);
    merge_json_values(&mut a, &b);
    assert!(matches!(&a, JsonValue::Object(_)));
    let mut c = obj(vec![("k", s("v"))]);
    let d = JsonValue::UInt(3);
    merge_json_values(&mut c, &d);
    assert!(matches!(c, JsonValue::UInt(3)));
}
