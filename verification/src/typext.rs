use vstd::prelude::*;

use crate::error::WinDiffError;

verus! {

/// How primitive types are rendered in reconstructed definitions.
#[derive(Debug, Clone, Copy, PartialEq, Eq, Structural)]
pub enum ReconstructionFlavor {
    Microsoft,
}

/// One command sent to the external type reconstructor. The
/// reconstructor has a request/response protocol, not a call API, so
/// the commands form a sum type and a session is a run of them.
#[derive(Debug)]
pub enum TypeExtractionRequest {
    LoadPdb { slot: usize, path: String },
    ListTypes {
        slot: usize,
        filter: String,
        case_insensitive: bool,
        use_regex: bool,
        ignore_standard_types: bool,
    },
    ReconstructTypeByIndex {
        slot: usize,
        type_index: u32,
        flavor: ReconstructionFlavor,
        print_header: bool,
        reconstruct_dependencies: bool,
        print_access_specifiers: bool,
        ignore_standard_types: bool,
    },
    UnloadPdb { slot: usize },
}

/// One answer received from the reconstructor. Anything that is not
/// the answer the session waits for is `Other`: a protocol error.
#[derive(Debug)]
pub enum TypeExtractionResponse {
    LoadPdbResult { result: Result<(), String> },
    ListTypesResult { types: Vec<(String, u32)> },
    ReconstructTypeResult { result: Result<String, String> },
    Other,
}

/// Where a type-extraction session stands. The slot is held for the
/// whole session: load, list, one reconstruction per listed type,
/// unload.
#[derive(Debug)]
pub enum TypeExtractionState {
    /// `LoadPdb` was sent; its result is awaited.
    AwaitingLoad { slot: usize },
    /// `ListTypes` was sent; the type list is awaited.
    AwaitingList { slot: usize },
    /// Reconstructions are in flight: `next` indexes the type whose
    /// result is awaited; `collected` holds what succeeded so far.
    Reconstructing {
        slot: usize,
        types: Vec<(String, u32)>,
        next: usize,
        collected: Vec<(String, String)>,
    },
    /// The session is over; `UnloadPdb` was the last request.
    Done { collected: Vec<(String, String)> },
}

impl TypeExtractionState {
    pub open spec fn wf(&self) -> bool {
        match self {
            TypeExtractionState::Reconstructing { types, next, collected, .. } => {
                &&& 1 <= *next <= types@.len()
                &&& collected@.len() < *next
            },
            _ => true,
        }
    }
}

/// The reconstruction request for the type at `i`.
pub open spec fn spec_reconstruct_request(
    slot: usize,
    types: Seq<(String, u32)>,
    i: int,
) -> TypeExtractionRequest {
    TypeExtractionRequest::ReconstructTypeByIndex {
        slot,
        type_index: types[i].1,
        flavor: ReconstructionFlavor::Microsoft,
        print_header: false,
        reconstruct_dependencies: false,
        print_access_specifiers: false,
        ignore_standard_types: false,
    }
}

/// Opens a session: the PDB is loaded into the slot, which the session
/// then holds exclusively until `UnloadPdb` goes out.
pub fn begin_extraction(slot: usize, pdb_path: String) -> (r: (
    TypeExtractionState,
    TypeExtractionRequest,
))
    ensures
        r.0 == (TypeExtractionState::AwaitingLoad { slot }),
        r.0.wf(),
        r.1 == (TypeExtractionRequest::LoadPdb { slot, path: pdb_path }),
{
    (
        TypeExtractionState::AwaitingLoad { slot },
        TypeExtractionRequest::LoadPdb { slot, path: pdb_path },
    )
}

/// Advances a session by one response: the decision table of the
/// extraction protocol. Every step emits exactly one next request, so
/// the slot never has two requests outstanding. A response of the
/// wrong kind is a protocol error and fails the session; a failed
/// reconstruction of one type is dropped, best-effort.
pub fn advance_extraction(state: TypeExtractionState, response: TypeExtractionResponse) -> (r:
    Result<(TypeExtractionState, TypeExtractionRequest), WinDiffError>)
    requires
        state.wf(),
        !(state is Done),
    ensures
        match r {
            Ok(p) => p.0.wf() && (p.0 is Done <==> p.1 is UnloadPdb),
            Err(e) => e is ResymBackendError,
        },
        (match (state, response) {
            (
                TypeExtractionState::AwaitingLoad { slot },
                TypeExtractionResponse::LoadPdbResult { result },
            ) => (match result {
                Ok(_) => r matches Ok(p) && p.0 == (TypeExtractionState::AwaitingList { slot })
                    && (p.1 matches TypeExtractionRequest::ListTypes {
                    slot: s2,
                    filter,
                    case_insensitive,
                    use_regex,
                    ignore_standard_types,
                } && s2 == slot && filter@ == Seq::<char>::empty() && case_insensitive == false
                    && use_regex == false && ignore_standard_types == false),
                Err(_) => r is Err,
            }),
            (TypeExtractionState::AwaitingLoad { .. }, _) => r is Err,
            (
                TypeExtractionState::AwaitingList { slot },
                TypeExtractionResponse::ListTypesResult { types },
            ) => if types@.len() == 0 {
                r matches Ok(p) && (p.0 matches TypeExtractionState::Done { collected } && collected@.len()
                    == 0) && p.1 == (TypeExtractionRequest::UnloadPdb { slot })
            } else {
                r matches Ok(p) && (p.0 matches TypeExtractionState::Reconstructing {
                    slot: s2,
                    types: t2,
                    next,
                    collected,
                } && s2 == slot && t2@ == types@ && next == 1 && collected@.len() == 0) && p.1
                    == spec_reconstruct_request(slot, types@, 0)
            },
            (TypeExtractionState::AwaitingList { .. }, _) => r is Err,
            (
                TypeExtractionState::Reconstructing { slot, types, next, collected },
                TypeExtractionResponse::ReconstructTypeResult { result },
            ) => {
                let extended = (match result {
                    Ok(text) => collected@.push((types@[next - 1].0, text)),
                    Err(_) => collected@,
                });
                if next < types@.len() {
                    r matches Ok(p) && (p.0 matches TypeExtractionState::Reconstructing {
                        slot: s2,
                        types: t2,
                        next: n2,
                        collected: c2,
                    } && s2 == slot && t2@ == types@ && n2 == next + 1 && c2@ == extended) && p.1
                        == spec_reconstruct_request(slot, types@, next as int)
                } else {
                    r matches Ok(p) && (p.0 matches TypeExtractionState::Done { collected: c2 }
                        && c2@ == extended) && p.1 == (TypeExtractionRequest::UnloadPdb { slot })
                }
            },
            (TypeExtractionState::Reconstructing { .. }, _) => r is Err,
            (TypeExtractionState::Done { .. }, _) => true,
        }),
{
    match state {
        TypeExtractionState::AwaitingLoad { slot } => {
            match response {
                TypeExtractionResponse::LoadPdbResult { result } => {
                    match result {
                        Ok(_) => Ok(
                            (
                                TypeExtractionState::AwaitingList { slot },
                                TypeExtractionRequest::ListTypes {
                                    slot,
                                    filter: String::new(),
                                    case_insensitive: false,
                                    use_regex: false,
                                    ignore_standard_types: false,
                                },
                            ),
                        ),
                        Err(_) => Err(
                            WinDiffError::ResymBackendError(
                                "Failed to load PDB file".to_owned(),
                            ),
                        ),
                    }
                },
                _ => Err(
                    WinDiffError::ResymBackendError(
                        "Invalid response received from the backend?".to_owned(),
                    ),
                ),
            }
        },
        TypeExtractionState::AwaitingList { slot } => {
            match response {
                TypeExtractionResponse::ListTypesResult { types } => {
                    if types.len() == 0 {
                        Ok(
                            (
                                TypeExtractionState::Done { collected: Vec::new() },
                                TypeExtractionRequest::UnloadPdb { slot },
                            ),
                        )
                    } else {
                        let first_index = types[0].1;
                        Ok(
                            (
                                TypeExtractionState::Reconstructing {
                                    slot,
                                    types,
                                    next: 1,
                                    collected: Vec::new(),
                                },
                                TypeExtractionRequest::ReconstructTypeByIndex {
                                    slot,
                                    type_index: first_index,
                                    flavor: ReconstructionFlavor::Microsoft,
                                    print_header: false,
                                    reconstruct_dependencies: false,
                                    print_access_specifiers: false,
                                    ignore_standard_types: false,
                                },
                            ),
                        )
                    }
                },
                _ => Err(
                    WinDiffError::ResymBackendError(
                        "Invalid response received from the backend?".to_owned(),
                    ),
                ),
            }
        },
        TypeExtractionState::Reconstructing { slot, types, next, mut collected } => {
            match response {
                TypeExtractionResponse::ReconstructTypeResult { result } => {
                    match result {
                        Ok(text) => {
                            let name = types[next - 1].0.clone();
                            collected.push((name, text));
                        },
                        Err(_) => {},
                    }
                    if next < types.len() {
                        let type_index = types[next].1;
                        Ok(
                            (
                                TypeExtractionState::Reconstructing {
                                    slot,
                                    types,
                                    next: next + 1,
                                    collected,
                                },
                                TypeExtractionRequest::ReconstructTypeByIndex {
                                    slot,
                                    type_index,
                                    flavor: ReconstructionFlavor::Microsoft,
                                    print_header: false,
                                    reconstruct_dependencies: false,
                                    print_access_specifiers: false,
                                    ignore_standard_types: false,
                                },
                            ),
                        )
                    } else {
                        Ok(
                            (
                                TypeExtractionState::Done { collected },
                                TypeExtractionRequest::UnloadPdb { slot },
                            ),
                        )
                    }
                },
                _ => Err(
                    WinDiffError::ResymBackendError(
                        "Invalid response received from the backend?".to_owned(),
                    ),
                ),
            }
        },
        TypeExtractionState::Done { collected } => {
            Err(
                WinDiffError::ResymBackendError(
                    "Invalid response received from the backend?".to_owned(),
                ),
            )
        },
    }
}

} // verus!
