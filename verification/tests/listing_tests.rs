use puizcloud::directory::{directory_listing, RawEntry};

fn file(name: &str, size: u64) -> RawEntry {
    RawEntry { name: String::from(name), is_dir: false, is_file: true, size }
}

fn dir(name: &str) -> RawEntry {
    RawEntry { name: String::from(name), is_dir: true, is_file: false, size: 0 }
}

#[test]
fn listing_orders_by_full_relative_path() {
    let entries = vec![file("b.txt", 10), file("A.txt", 20), dir("a")];
    let (subs, files) = directory_listing("", &entries);
    assert_eq!(subs.len(), 1);
    assert_eq!(subs[0].given_path, "a");
    assert_eq!(subs[0].name, "a");
    assert_eq!(files.len(), 2);
    assert_eq!(files[0].file_path, "A.txt");
    assert_eq!(files[1].file_path, "b.txt");
    assert_eq!(files[0].file_size, 20);
    assert_eq!(files[1].file_size, 10);
}

#[test]
fn listing_is_repeatable() {
    let entries = vec![file("z", 1), dir("m"), file("a", 2), dir("q")];
    let (subs1, files1) = directory_listing("top", &entries);
    let (subs2, files2) = directory_listing("top", &entries);
    let names1: Vec<&str> = subs1.iter().map(|e| e.given_path.as_str()).collect();
    let names2: Vec<&str> = subs2.iter().map(|e| e.given_path.as_str()).collect();
    assert_eq!(names1, names2);
    assert_eq!(names1, vec!["top/m", "top/q"]);
    let f1: Vec<&str> = files1.iter().map(|e| e.file_path.as_str()).collect();
    let f2: Vec<&str> = files2.iter().map(|e| e.file_path.as_str()).collect();
    assert_eq!(f1, f2);
    assert_eq!(f1, vec!["top/a", "top/z"]);
}

#[test]
fn listing_joins_paths_under_given_directory() {
    let entries = vec![dir("sub"), file("f.txt", 3)];
    let (subs, files) = directory_listing("docs/inner", &entries);
    assert_eq!(subs[0].given_path, "docs/inner/sub");
    assert_eq!(files[0].file_path, "docs/inner/f.txt");
}

#[test]
fn listing_skips_unclassifiable_children() {
    let odd = RawEntry { name: String::from("sock"), is_dir: false, is_file: false, size: 9 };
    let nameless = RawEntry { name: String::new(), is_dir: true, is_file: false, size: 0 };
    let entries = vec![odd, nameless, file("keep", 1)];
    let (subs, files) = directory_listing("", &entries);
    assert_eq!(subs.len(), 0);
    assert_eq!(files.len(), 1);
    assert_eq!(files[0].file_path, "keep");
}

#[test]
fn listing_of_empty_directory_is_empty() {
    let entries: Vec<RawEntry> = Vec::new();
    let (subs, files) = directory_listing("", &entries);
    assert!(subs.is_empty());
    assert!(files.is_empty());
}

#[test]
fn listing_keeps_children_with_equal_names() {
    let entries = vec![file("same", 1), file("same", 2)];
    let (_, files) = directory_listing("", &entries);
    assert_eq!(files.len(), 2);
    assert_eq!(files[0].file_path, "same");
    assert_eq!(files[1].file_path, "same");
}

#[test]
fn listing_keeps_duplicate_sizes_and_zero_size() {
    let entries = vec![file("a", 0), file("b", 0)];
    let (_, files) = directory_listing("", &entries);
    assert_eq!(files[0].file_size, 0);
    assert_eq!(files[1].file_size, 0);
}
