use vstd::prelude::*;
use vstd::string::StringExecFns;

verus! {

/// What probing a resolved path found it to be.  Anything that is neither a
/// directory nor a regular file (a device, a socket, nothing at all) counts
/// as missing for serving purposes.
#[derive(PartialEq, Eq, Structural, Clone, Copy, Debug)]
pub enum PathKind {
    Directory,
    File,
    Missing,
}

/// What a browse request is answered with.
#[derive(PartialEq, Eq, Structural, Clone, Copy, Debug)]
pub enum BrowseDecision {
    /// Render the directory listing page.
    ShowListing,
    /// Hand the file's bytes out.
    ServeFileContent,
    /// Answer not-found, naming the requested path.
    Reject,
}

/// The choice made for a resolved request: a directory is listed, a file is
/// served, and a missing path is rejected — except that the empty request
/// names the served root itself, which always gets the listing view.
pub open spec fn decision_of(given: Seq<char>, kind: PathKind) -> BrowseDecision {
    match kind {
        PathKind::Directory => BrowseDecision::ShowListing,
        PathKind::File => BrowseDecision::ServeFileContent,
        PathKind::Missing => if given.len() == 0 {
            BrowseDecision::ShowListing
        } else {
            BrowseDecision::Reject
        },
    }
}

/// Decides how to answer, given the requested relative path and what its
/// resolved form turned out to be.
pub fn decide_browse(given: &str, kind: PathKind) -> (r: BrowseDecision)
    ensures
        r == decision_of(given@, kind),
{
    match kind {
        PathKind::Directory => BrowseDecision::ShowListing,
        PathKind::File => BrowseDecision::ServeFileContent,
        PathKind::Missing => {
            if given.is_empty() {
                BrowseDecision::ShowListing
            } else {
                BrowseDecision::Reject
            }
        },
    }
}

/// The body answering a missing or forbidden path, naming what was asked for.
pub open spec fn not_found_body(path: Seq<char>) -> Seq<char> {
    "HTTP Error 404 Not Found: "@ + path
}

/// Renders the plain-text not-found message for a path.
pub fn not_found_message(path: &str) -> (r: String)
    ensures
        r@ == not_found_body(path@),
{
    let mut r = String::from_str("HTTP Error 404 Not Found: ");
    r.append(path);
    r
}

} // verus!
