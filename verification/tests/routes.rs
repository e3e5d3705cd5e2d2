use sitegen::routes::{Route, SLICE_PAGE, SLICE_PERSON};

const CANONICAL: &str = "https://example.com";

#[test]
fn home_route_forms_match_the_root_id_shape() {
    let home = Route::home();
    assert_eq!(home.href(SLICE_PAGE), "/#page");
    assert_eq!(home.id(CANONICAL, SLICE_PERSON), "https://example.com/#person");
    assert_eq!(home.canonical(CANONICAL), "https://example.com/");
}

#[test]
fn page_route_forms_carry_the_path() {
    let article = Route::new("/blog/light-cone/");
    assert_eq!(article.href(SLICE_PAGE), "/blog/light-cone/#page");
    assert_eq!(article.id(CANONICAL, SLICE_PAGE), "https://example.com/blog/light-cone/#page");
    assert_eq!(article.canonical(CANONICAL), "https://example.com/blog/light-cone/");
}

#[test]
fn canonical_with_trailing_slash_stays_stable() {
    let blog = Route::blog();
    assert_eq!(blog.id("https://example.com/", SLICE_PAGE), "https://example.com/blog/#page");
}

#[test]
fn extra_trailing_slashes_on_the_root_are_ignored() {
    let hub = Route::tags_hub();
    assert_eq!(hub.canonical("https://example.com//"), "https://example.com/blog/tags/");
    assert_eq!(hub.id("https://example.com///", "tags"), "https://example.com/blog/tags/#tags");
    assert_eq!(hub.id(CANONICAL, "tags"), hub.id("https://example.com/", "tags"));
}

#[test]
fn id_is_canonical_url_with_fragment() {
    let route = Route::new("/a/");
    assert_eq!(route.id(CANONICAL, "x"), format!("{}#x", route.canonical(CANONICAL)));
}
