use puizcloud::breadcrumb::build_breadcrumbs;
use puizcloud::directory::RawEntry;
use puizcloud::escape::{sanitize_html_string, url_escape_string};
use puizcloud::html::do_browse_directory;
use puizcloud::text::u64_to_string;

fn file(name: &str, size: u64) -> RawEntry {
    RawEntry { name: String::from(name), is_dir: false, is_file: true, size }
}

fn dir(name: &str) -> RawEntry {
    RawEntry { name: String::from(name), is_dir: true, is_file: false, size: 0 }
}

#[test]
fn escaping_covers_all_five_characters() {
    let escaped = sanitize_html_string("<script>&\"'.txt");
    assert_eq!(escaped, "&lt;script&gt;&amp;&quot;&#x27;.txt");
}

#[test]
fn escaping_leaves_plain_text_alone() {
    assert_eq!(sanitize_html_string("plain-name_1.txt"), "plain-name_1.txt");
    assert_eq!(sanitize_html_string(""), "");
}

#[test]
fn page_never_shows_raw_markup_from_names() {
    let entries = vec![file("<script>&\"'.txt", 1)];
    let page = do_browse_directory("/browse/", "", &entries);
    assert!(!page.contains("<script>"));
    assert!(!page.contains('\''));
    assert!(page.contains("&lt;script&gt;&amp;&quot;&#x27;.txt"));
    assert!(page.contains("%3Cscript%3E%26%22%27.txt"));
}

#[test]
fn url_escaping_keeps_plain_path_characters() {
    assert_eq!(url_escape_string("a/b-c_d.e~f"), "a/b-c_d.e~f");
    assert_eq!(url_escape_string("a b"), "a%20b");
    assert_eq!(url_escape_string("a&b"), "a%26b");
}

#[test]
fn rendering_same_directory_twice_is_identical() {
    let entries = vec![dir("docs"), file("a.txt", 3), file("b.txt", 4)];
    let first = do_browse_directory("/browse/", "top", &entries);
    let second = do_browse_directory("/browse/", "top", &entries);
    assert_eq!(first, second);
}

#[test]
fn counts_use_singular_only_for_one() {
    let one_folder = do_browse_directory("/browse/", "", &vec![dir("d")]);
    assert!(one_folder.contains("1 folder<br />0 files"));
    let no_folders = do_browse_directory("/browse/", "", &vec![file("f", 1)]);
    assert!(no_folders.contains("0 folders<br />1 file"));
    let many = do_browse_directory(
        "/browse/",
        "",
        &vec![dir("a"), dir("b"), file("x", 1), file("y", 2), file("z", 3)],
    );
    assert!(many.contains("2 folders<br />3 files"));
}

#[test]
fn breadcrumbs_walk_from_root_to_leaf() {
    let crumbs = build_breadcrumbs("/browse/", "a/b/c");
    assert_eq!(crumbs.len(), 4);
    assert_eq!(crumbs[0].name, "/");
    assert_eq!(crumbs[0].url, "/browse/");
    assert_eq!(crumbs[1].name, "a");
    assert_eq!(crumbs[1].url, "/browse/a");
    assert_eq!(crumbs[2].name, "b");
    assert_eq!(crumbs[2].url, "/browse/a/b");
    assert_eq!(crumbs[3].name, "c");
    assert_eq!(crumbs[3].url, "/browse/a/b/c");
}

#[test]
fn breadcrumbs_skip_non_normal_pieces() {
    let crumbs = build_breadcrumbs("/browse/", "a/./b//c");
    let names: Vec<&str> = crumbs.iter().map(|s| s.name.as_str()).collect();
    assert_eq!(names, vec!["/", "a", "b", "c"]);
}

#[test]
fn breadcrumbs_of_root_are_the_root_alone() {
    let crumbs = build_breadcrumbs("/browse/", "");
    assert_eq!(crumbs.len(), 1);
    assert_eq!(crumbs[0].name, "/");
    assert_eq!(crumbs[0].url, "/browse/");
}

#[test]
fn whole_page_for_one_file() {
    let entries = vec![file("f.txt", 5)];
    let page = do_browse_directory("/browse/", "", &entries);
    let mut expected = String::new();
    expected.push_str(
        "<!DOCTYPE html>\n<html>\n<head>\n<meta charset=\"utf-8\">\n<title>Puizcloud</title>\n",
    );
    expected.push_str(
        "</head>\n<body>\n<div id=\"current_path\"><a href=\"/browse/\">/</a></div>\n<table>\n",
    );
    expected.push_str(
        "<tr class=\"folder_listing_header\"><td>0 folders<br />1 file</td><td></td></tr>\n",
    );
    expected.push_str("<tr><td><a href=\"/browse/f.txt\">f.txt</a></td><td>5</td></tr>\n");
    expected.push_str("</table>\n</body>\n</html>\n");
    assert_eq!(page, expected);
}

#[test]
fn page_rows_follow_sorted_order_and_sizes() {
    let entries = vec![file("b.bin", 1234567890), dir("sub")];
    let page = do_browse_directory("/browse/", "d", &entries);
    let sub_pos = page.find("d/sub").unwrap();
    let file_pos = page.find("d/b.bin").unwrap();
    assert!(sub_pos < file_pos);
    assert!(page.contains("<td>1234567890</td>"));
    assert!(page.contains("<td>--</td>"));
}

#[test]
fn empty_directory_page_shows_zero_counts_and_no_rows() {
    let entries = Vec::new();
    let page = do_browse_directory("/browse/", "", &entries);
    assert!(page.contains("0 folders<br />0 files"));
    assert!(!page.contains("<tr><td><a"));
}

#[test]
fn number_rendering_is_plain_decimal() {
    assert_eq!(u64_to_string(0), "0");
    assert_eq!(u64_to_string(7), "7");
    assert_eq!(u64_to_string(10), "10");
    assert_eq!(u64_to_string(1234567890), "1234567890");
    assert_eq!(u64_to_string(u64::MAX), "18446744073709551615");
}
