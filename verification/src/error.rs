use vstd::prelude::*;

verus! {

/// Why a step of the search fails.
#[derive(Clone, Copy, Debug, PartialEq, Eq, Structural)]
pub enum Error {
    /// The file is no longer than one window.
    InputTooSmall,
    /// A read from the file or from the archive came back short or failed.
    IOError,
    /// The text does not parse as a URL.
    InvalidUrl,
    /// A request was not answered.
    NetworkError,
    /// The page holds no results table.
    NoResultsTable,
    /// A row of the results table lacks a cell, or a cell does not parse.
    RowParseFailure,
    /// The detail page holds no download link.
    NoDownloadLink,
    /// Nothing was chosen.
    SelectionAborted,
    /// The archive has no member of that name.
    MemberNotFound,
    /// The member's name holds no dot.
    NoExtension,
    /// The mux tool ended with a non-zero status.
    MuxFailed,
}

/// Whether `r` is the text or the error that `expected` gives.
pub open spec fn is_text_result(r: Result<String, Error>, expected: Result<Seq<char>, Error>) -> bool {
    match (r, expected) {
        (Ok(text), Ok(wanted)) => text@ == wanted,
        (Err(e), Err(wanted)) => e == wanted,
        _ => false,
    }
}

} // verus!
