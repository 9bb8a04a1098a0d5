use vstd::prelude::*;

verus! {

/// Everything that can go wrong while resolving, parsing and summarizing
/// a binary. Variants that only the surrounding I/O shell produces
/// (network, filesystem) are raised outside this crate and carried
/// through it.
#[derive(Debug, Clone)]
pub enum WinDiffError {
    IoError,
    JSONError,
    UrlParseError,
    HttpError,
    GoblinError,
    TryFromSliceError,
    Utf8Error,
    PDBError,
    ResymBackendError(String),
    FileNotFoundInIndex,
    FileNotFoundInConfiguration,
    UnsupportedExecutableFormat,
    UnsupportedArchitecture,
    MissingExecutableDebugInfo(String),
    MissingExecutableOptionalHeader,
    MissingExecutableExportInfo(String),
    SystemServiceTableNotFoundError,
    SystemServiceTableParsingError,
    ConfigurationError(String),
    ChannelClosedError,
}

impl WinDiffError {
    /// A short, fixed name for the kind of failure; what a log line shows.
    pub open spec fn spec_kind(&self) -> Seq<char> {
        match self {
            WinDiffError::IoError => "io error"@,
            WinDiffError::JSONError => "json error"@,
            WinDiffError::UrlParseError => "url parsing error"@,
            WinDiffError::HttpError => "http error"@,
            WinDiffError::GoblinError => "executable parsing error"@,
            WinDiffError::TryFromSliceError => "slice length error"@,
            WinDiffError::Utf8Error => "utf8 error"@,
            WinDiffError::PDBError => "pdb error"@,
            WinDiffError::ResymBackendError(_) => "resym backend error"@,
            WinDiffError::FileNotFoundInIndex => "PE file not found in the index"@,
            WinDiffError::FileNotFoundInConfiguration => (
            "PE file not found in the configuration"@),
            WinDiffError::UnsupportedExecutableFormat => "unsupported executable format given"@,
            WinDiffError::UnsupportedArchitecture => "unsupported architecture"@,
            WinDiffError::MissingExecutableDebugInfo(_) => "missing debug information"@,
            WinDiffError::MissingExecutableOptionalHeader => "missing optional header"@,
            WinDiffError::MissingExecutableExportInfo(_) => "missing export information"@,
            WinDiffError::SystemServiceTableNotFoundError => "system service table not found"@,
            WinDiffError::SystemServiceTableParsingError => (
            "system service table parsing error"@),
            WinDiffError::ConfigurationError(_) => "configuration error"@,
            WinDiffError::ChannelClosedError => "channel closed"@,
        }
    }

    pub fn kind(&self) -> (r: &'static str)
        ensures
            r@ == self.spec_kind(),
    {
        match self {
            WinDiffError::IoError => "io error",
            WinDiffError::JSONError => "json error",
            WinDiffError::UrlParseError => "url parsing error",
            WinDiffError::HttpError => "http error",
            WinDiffError::GoblinError => "executable parsing error",
            WinDiffError::TryFromSliceError => "slice length error",
            WinDiffError::Utf8Error => "utf8 error",
            WinDiffError::PDBError => "pdb error",
            WinDiffError::ResymBackendError(_) => "resym backend error",
            WinDiffError::FileNotFoundInIndex => "PE file not found in the index",
            WinDiffError::FileNotFoundInConfiguration => "PE file not found in the configuration",
            WinDiffError::UnsupportedExecutableFormat => "unsupported executable format given",
            WinDiffError::UnsupportedArchitecture => "unsupported architecture",
            WinDiffError::MissingExecutableDebugInfo(_) => "missing debug information",
            WinDiffError::MissingExecutableOptionalHeader => "missing optional header",
            WinDiffError::MissingExecutableExportInfo(_) => "missing export information",
            WinDiffError::SystemServiceTableNotFoundError => "system service table not found",
            WinDiffError::SystemServiceTableParsingError => "system service table parsing error",
            WinDiffError::ConfigurationError(_) => "configuration error",
            WinDiffError::ChannelClosedError => "channel closed",
        }
    }
}

} // verus!
