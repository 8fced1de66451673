//! The layout of a footer.

use vstd::prelude::*;

verus! {

/// The texts of the three footer zones.
#[derive(Debug, Clone)]
pub struct FooterLayout {
    pub left: String,
    pub center: String,
    pub right: String,
}

} // verus!
