//! Pages as the ingestion pipeline hands them over.

use vstd::prelude::*;

verus! {

/// One extracted web page, ready for indexing: the `combined` field is
/// what gets embedded.
pub struct ExtractedPage {
    pub url: String,
    pub title: String,
    pub text: String,
    pub combined: String,
}

} // verus!
