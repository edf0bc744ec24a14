use puizcloud::handler::{decide_browse, not_found_message, BrowseDecision, PathKind};

#[test]
fn directory_gets_listing() {
    assert_eq!(decide_browse("docs", PathKind::Directory), BrowseDecision::ShowListing);
}

#[test]
fn file_gets_content() {
    assert_eq!(decide_browse("docs/a.txt", PathKind::File), BrowseDecision::ServeFileContent);
}

#[test]
fn missing_path_is_rejected() {
    assert_eq!(decide_browse("nope", PathKind::Missing), BrowseDecision::Reject);
}

#[test]
fn empty_path_defaults_to_root_listing() {
    assert_eq!(decide_browse("", PathKind::Missing), BrowseDecision::ShowListing);
    assert_eq!(decide_browse("", PathKind::Directory), BrowseDecision::ShowListing);
}

#[test]
fn not_found_names_the_requested_path() {
    assert_eq!(not_found_message("nope.txt"), "HTTP Error 404 Not Found: nope.txt");
    assert_eq!(not_found_message(""), "HTTP Error 404 Not Found: ");
}
