use windiff_core::error::WinDiffError;
use windiff_core::typext::{advance_extraction, begin_extraction, TypeExtractionRequest,
    TypeExtractionResponse, TypeExtractionState};

fn load_ok() -> TypeExtractionResponse {
    TypeExtractionResponse::LoadPdbResult { result: Ok(()) }
}

#[test]
fn session_walks_load_list_reconstruct_unload() {
    let (state, request) = begin_extraction(0, "/tmp/ntdll.pdb".to_string());
    match &request {
        TypeExtractionRequest::LoadPdb { slot, path } => {
            assert_eq!(*slot, 0);
            assert_eq!(path, "/tmp/ntdll.pdb");
        },
        _ => panic!("a session opens with LoadPdb"),
    }
    let (state, request) = advance_extraction(state, load_ok()).expect("load succeeded");
    match &request {
        TypeExtractionRequest::ListTypes { slot, filter, case_insensitive, use_regex, ignore_standard_types } => {
            assert_eq!(*slot, 0);
            assert_eq!(filter, "");
            assert!(!case_insensitive && !use_regex && !ignore_standard_types);
        },
        _ => panic!("a loaded session lists types"),
    }
    let types = vec![("_A".to_string(), 7u32), ("_B".to_string(), 9u32)];
    let (state, request) = advance_extraction(
        state,
        TypeExtractionResponse::ListTypesResult { types },
    )
    .expect("list succeeded");
    match &request {
        TypeExtractionRequest::ReconstructTypeByIndex { slot, type_index, .. } => {
            assert_eq!(*slot, 0);
            assert_eq!(*type_index, 7);
        },
        _ => panic!("a listed session reconstructs the first type"),
    }
    let (state, request) = advance_extraction(
        state,
        TypeExtractionResponse::ReconstructTypeResult { result: Ok("struct _A {};".to_string()) },
    )
    .expect("first reconstruction");
    match &request {
        TypeExtractionRequest::ReconstructTypeByIndex { type_index, .. } => {
            assert_eq!(*type_index, 9);
        },
        _ => panic!("the next type follows"),
    }
    let (state, request) = advance_extraction(
        state,
        TypeExtractionResponse::ReconstructTypeResult { result: Ok("struct _B {};".to_string()) },
    )
    .expect("second reconstruction");
    assert!(matches!(request, TypeExtractionRequest::UnloadPdb { slot: 0 }));
    match state {
        TypeExtractionState::Done { collected } => {
            assert_eq!(
                collected,
                vec![
                    ("_A".to_string(), "struct _A {};".to_string()),
                    ("_B".to_string(), "struct _B {};".to_string()),
                ]
            );
        },
        _ => panic!("the session ends Done"),
    }
}

#[test]
fn failed_reconstructions_are_dropped_best_effort() {
    let (state, _) = begin_extraction(0, "p".to_string());
    let (state, _) = advance_extraction(state, load_ok()).unwrap();
    let types = vec![("_A".to_string(), 1u32), ("_B".to_string(), 2u32)];
    let (state, _) =
        advance_extraction(state, TypeExtractionResponse::ListTypesResult { types }).unwrap();
    let (state, _) = advance_extraction(
        state,
        TypeExtractionResponse::ReconstructTypeResult { result: Err("nope".to_string()) },
    )
    .unwrap();
    let (state, _) = advance_extraction(
        state,
        TypeExtractionResponse::ReconstructTypeResult { result: Ok("struct _B {};".to_string()) },
    )
    .unwrap();
    match state {
        TypeExtractionState::Done { collected } => {
            assert_eq!(collected, vec![("_B".to_string(), "struct _B {};".to_string())]);
        },
        _ => panic!("the session ends Done"),
    }
}

#[test]
fn empty_type_list_unloads_at_once() {
    let (state, _) = begin_extraction(0, "p".to_string());
    let (state, _) = advance_extraction(state, load_ok()).unwrap();
    let (state, request) =
        advance_extraction(state, TypeExtractionResponse::ListTypesResult { types: vec![] })
            .unwrap();
    assert!(matches!(request, TypeExtractionRequest::UnloadPdb { slot: 0 }));
    match state {
        TypeExtractionState::Done { collected } => assert!(collected.is_empty()),
        _ => panic!("the session ends Done"),
    }
}

#[test]
fn wrong_response_kind_is_a_protocol_error() {
    let (state, _) = begin_extraction(0, "p".to_string());
    match advance_extraction(state, TypeExtractionResponse::Other) {
        Err(WinDiffError::ResymBackendError(_)) => {},
        _ => panic!("an unexpected response kind is fatal for the session"),
    }
    let (state, _) = begin_extraction(0, "p".to_string());
    let (state, _) = advance_extraction(state, load_ok()).unwrap();
    match advance_extraction(
        state,
        TypeExtractionResponse::ReconstructTypeResult { result: Ok("x".to_string()) },
    ) {
        Err(WinDiffError::ResymBackendError(_)) => {},
        _ => panic!("a reconstruct result before listing is fatal"),
    }
}

#[test]
fn failed_load_is_fatal() {
    let (state, _) = begin_extraction(0, "p".to_string());
    match advance_extraction(
        state,
        TypeExtractionResponse::LoadPdbResult { result: Err("no such file".to_string()) },
    ) {
        Err(WinDiffError::ResymBackendError(_)) => {},
        _ => panic!("a failed load is fatal"),
    }
}
