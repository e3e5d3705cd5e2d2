use sitegen::html::{
    accessible_name, anchor_hrefs, attr_of, element_ids, fragment_of, is_file_path,
    list_item_count, meta_contents, parse_attrs, path_of, same_origin, tag_at, text_of,
};

#[test]
fn element_ids_count_every_occurrence() {
    let html = "<div data-id=\"x\" id='y'><p id=z/><a id=\"\"></a><b id=y>";
    assert_eq!(element_ids(html), ["x", "y", "z", "y"]);
}

#[test]
fn fragments_and_paths_split_at_the_first_hash() {
    assert_eq!(fragment_of("https://example.com/a/#page").as_deref(), Some("page"));
    assert_eq!(fragment_of("a#b#c").as_deref(), Some("b#c"));
    assert_eq!(fragment_of("/a/"), None);
    assert_eq!(path_of("https://example.com/a/#page"), "https://example.com/a/");
    assert_eq!(path_of("/a/"), "/a/");
}

#[test]
fn same_origin_is_a_prefix_test() {
    assert!(same_origin("https://example.com/a/", "https://example.com"));
    assert!(!same_origin("https://other.com/", "https://example.com"));
}

#[test]
fn file_paths_are_known_by_their_extension() {
    assert!(is_file_path("/llms.txt"));
    assert!(is_file_path("/a/b.webmanifest"));
    assert!(!is_file_path("/blog/"));
    assert!(!is_file_path("/a.html"));
    assert!(!is_file_path("/a.t"));
}

#[test]
fn attributes_are_parsed_after_the_tag_name() {
    let attrs = parse_attrs("<a href=\"/x y\" class='c' data-x=1 hidden>");
    let pairs: Vec<(&str, &str)> = attrs.iter().map(|(k, v)| (k.as_str(), v.as_str())).collect();
    assert_eq!(pairs, [("href", "/x y"), ("class", "c"), ("data-x", "1")]);
}

#[test]
fn elements_are_found_by_id() {
    let html = "<main id=page><ul id=\"list\" aria-label=\"Items\"><li>a</li><li class=x>b</li></ul><h1 id='t'>Hello <em>big</em>  world</h1></main>";
    assert_eq!(tag_at(html, "list"), Some((14, 46)));
    assert_eq!(attr_of(html, "list", "aria-label").as_deref(), Some("Items"));
    assert_eq!(attr_of(html, "list", "missing"), None);
    assert_eq!(text_of(html, "t").as_deref(), Some("Hello big world"));
    assert_eq!(list_item_count(html, "list"), Some(2));
    assert_eq!(accessible_name(html, "list").as_deref(), Some("Items"));
    assert_eq!(tag_at(html, "nowhere"), None);
}

#[test]
fn accessible_names_follow_labelledby_first() {
    let html = "<h2 id=a>One</h2><h2 id=b>Two</h2><ul id=l aria-labelledby=\"a b\" aria-label=X></ul>";
    assert_eq!(accessible_name(html, "l").as_deref(), Some("One Two"));
    let html = "<ul id=l aria-labelledby=\"none\" aria-label=X></ul>";
    assert_eq!(accessible_name(html, "l").as_deref(), Some("X"));
}

#[test]
fn nested_lists_have_no_item_count() {
    let html = "<ul id=l><li>a<ul><li>b</li></ul></li></ul>";
    assert_eq!(list_item_count(html, "l"), None);
}

#[test]
fn metas_and_links_are_collected_in_order() {
    let html = "<meta name=description content=\"D\"><meta charset=utf-8><meta property=og:locale content=de_DE><a href=\"/x#y\">x</a><a class=c>no</a><a href=#z>z</a>";
    let metas: Vec<(String, String)> = meta_contents(html).into_iter().map(|(k, c, _)| (k, c)).collect();
    assert_eq!(
        metas,
        [("description".to_owned(), "D".to_owned()), ("og:locale".to_owned(), "de_DE".to_owned())]
    );
    assert_eq!(anchor_hrefs(html), ["/x#y", "#z"]);
}
