pub mod breadcrumb;
pub mod config;
pub mod directory;
pub mod escape;
pub mod handler;
pub mod html;
pub mod paths;
pub mod sorting;
pub mod state;
pub mod text;

use vstd::prelude::*;

verus! {

/// Title shown on every rendered listing page.
pub open spec fn spec_page_title() -> Seq<char> {
    "Puizcloud"@
}

/// The page title as an executable string.
pub fn page_title() -> (r: &'static str)
    ensures
        r@ == spec_page_title(),
{
    "Puizcloud"
}

} // verus!
