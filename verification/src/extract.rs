//! Data handed over by the HTML extraction pipeline.

use vstd::prelude::*;

verus! {

/// A hyperlink found in a page.
pub struct Link {
    pub href: String,
    pub title: String,
}

} // verus!
