use windiff_core::error::WinDiffError;
use windiff_core::pdb::{dump_symbol, extract_symbols_with_offset, walk_symbols, PdbSymbol};

#[test]
fn symbol_normalization_by_kind() {
    assert_eq!(
        dump_symbol(&PdbSymbol::Public { function: true, name: "NtClose".to_string() }).unwrap(),
        "NtClose()"
    );
    assert_eq!(
        dump_symbol(&PdbSymbol::Public { function: false, name: "KiServiceLimit".to_string() })
            .unwrap(),
        "KiServiceLimit"
    );
    assert_eq!(
        dump_symbol(&PdbSymbol::Data { name: "MmHighestUserAddress".to_string() }).unwrap(),
        "MmHighestUserAddress"
    );
    assert_eq!(
        dump_symbol(&PdbSymbol::Procedure { name: "KiSystemCall64".to_string() }).unwrap(),
        "KiSystemCall64()"
    );
    match dump_symbol(&PdbSymbol::Other) {
        Err(WinDiffError::UnsupportedExecutableFormat) => {},
        _ => panic!("other symbol kinds are dropped"),
    }
}

#[test]
fn walk_symbols_orders_and_deduplicates() {
    let symbols = vec![
        PdbSymbol::Procedure { name: "Zz".to_string() },
        PdbSymbol::Other,
        PdbSymbol::Data { name: "Aa".to_string() },
        PdbSymbol::Procedure { name: "Zz".to_string() },
        PdbSymbol::Public { function: false, name: "Mm".to_string() },
    ];
    let set = walk_symbols(&symbols);
    let mut names: Vec<String> = Vec::new();
    for i in 0..set.len() {
        names.push(set.get(i).clone());
    }
    assert_eq!(names, vec!["Aa".to_string(), "Mm".to_string(), "Zz()".to_string()]);
}

#[test]
fn rva_map_keeps_last_binding_per_rva() {
    let pairs = vec![
        (0x2000u32, "Second".to_string()),
        (0x1000u32, "First".to_string()),
        (0x2000u32, "SecondAlias".to_string()),
    ];
    let map = extract_symbols_with_offset(&pairs);
    assert_eq!(map.len(), 2);
    assert_eq!(map.get(0x1000).unwrap(), "First");
    assert_eq!(map.get(0x2000).unwrap(), "SecondAlias");
    assert!(map.get(0x3000).is_none());
    assert_eq!(map.entry_at(0).0, 0x1000);
    assert_eq!(map.entry_at(1).0, 0x2000);
}
