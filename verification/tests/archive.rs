use sitegen::archive::{archive_entries, archive_name};

#[test]
fn archive_name_uses_forward_slashes_relative_to_the_base() {
    assert_eq!(archive_name("target/index.html", "target").unwrap(), "index.html");
    assert_eq!(
        archive_name("target/blog/tags/ai/index.html", "target").unwrap(),
        "blog/tags/ai/index.html"
    );
    assert!(archive_name("src/style.css", "target").is_err());
    assert!(archive_name("target", "target").is_err());
}

#[test]
fn archive_name_errors_name_the_file() {
    assert_eq!(
        archive_name("src/style.css", "target").unwrap_err(),
        "src/style.css is outside the output directory"
    );
    assert_eq!(archive_name("target", "target").unwrap_err(), "target has no archive name");
}

#[test]
fn archive_name_ignores_current_directory_components() {
    assert_eq!(archive_name("target/./blog/index.html", "target").unwrap(), "blog/index.html");
    assert!(archive_name("./target/blog/index.html", "target").is_err());
    assert_eq!(archive_name("target//a.html", "target/").unwrap(), "a.html");
}

fn strings(v: &[&str]) -> Vec<String> {
    v.iter().map(|s| s.to_string()).collect()
}

#[test]
fn archive_entries_are_sorted_and_deduplicated() {
    let files = strings(&["target/b.html", "target/a.html", "target//a.html", "target/a.html"]);
    let entries = archive_entries(&files, "target").unwrap();
    assert_eq!(entries, [("a.html".to_owned(), 1), ("b.html".to_owned(), 0)]);
}

#[test]
fn archive_entries_with_one_name_are_ordered_by_path() {
    let files = strings(&["target/a.html", "target/../a.html"]);
    let entries = archive_entries(&files, "target").unwrap();
    assert_eq!(entries, [("a.html".to_owned(), 1), ("a.html".to_owned(), 0)]);
}

#[test]
fn archive_entries_stop_at_the_first_bad_file() {
    let files = strings(&["target/a", "src/x", "target"]);
    assert_eq!(archive_entries(&files, "target").unwrap_err(), "src/x is outside the output directory");
    assert!(archive_entries(&Vec::new(), "target").unwrap().is_empty());
}

#[test]
fn archive_names_never_start_with_a_slash() {
    let name = archive_name("/srv/site/blog/index.html", "/srv/site").unwrap();
    assert_eq!(name, "blog/index.html");
    assert!(!name.starts_with('/'));
}
