//! The JSON-LD graphs of the site's pages, built from the site's content file and its
//! articles.
use vstd::prelude::*;

use crate::json::{
    Json, JsonV, entry_views, get, get_or_null, id_ref, jget, jnum, jnumber, jref, jstr, jstr_or,
    jstring, obj, put, views, arr, push_item, as_array, str_member, jarr,
};
use crate::articles::Article;
use crate::routes::{Route, spec_id};
use crate::text::{chars_of, push_str, string_of, words};

verus! {

// ---------------------------------------------------------------------------
// Reading the content file
// ---------------------------------------------------------------------------
/// `j[a][b]`.
pub open spec fn jget2(j: JsonV, a: Seq<char>, b: Seq<char>) -> JsonV {
    jget(jget(j, a), b)
}

/// The site's canonical root URL: `website.canonical`, or empty.
pub open spec fn spec_canonical_of(c: JsonV) -> Seq<char> {
    jstr_or(jget2(c, "website"@, "canonical"@), ""@)
}

/// The site's language: `website.lang`, or empty.
pub open spec fn spec_site_lang(c: JsonV) -> Seq<char> {
    jstr_or(jget2(c, "website"@, "lang"@), ""@)
}

/// A label of the site: `website.labels[key]`, or empty.
pub open spec fn spec_label(c: JsonV, key: Seq<char>) -> Seq<char> {
    jstr_or(jget(jget2(c, "website"@, "labels"@), key), ""@)
}

/// The display name of a tag: `website.tags[tag]`, or the tag itself.
pub open spec fn spec_tag_display(c: JsonV, tag: Seq<char>) -> Seq<char> {
    jstr_or(jget(jget2(c, "website"@, "tags"@), tag), tag)
}

/// `j[a][b]` as a value.
fn get2_or_null(j: &Json, a: &str, b: &str) -> (r: Json)
    ensures
        r.view() == jget2(j.view(), a@, b@),
{
    match get(j, a) {
        Some(v) => get_or_null(v, b),
        None => Json::Null,
    }
}

/// The text at `j[a][b]`, or empty.
fn str2<'a>(j: &'a Json, a: &str, b: &str) -> (r: &'a str)
    ensures
        r@ == jstr_or(jget2(j.view(), a@, b@), ""@),
{
    match get(j, a) {
        Some(v) => str_member(v, b),
        None => "",
    }
}

/// The text at `j[a][b][c]`, if it is a string.
fn str3<'a>(j: &'a Json, a: &str, b: &str, c: &str) -> (r: Option<&'a str>)
    ensures
        r matches Some(s) ==> jstr(jget(jget2(j.view(), a@, b@), c@)) == Some(s@),
        r is None ==> jstr(jget(jget2(j.view(), a@, b@), c@)) is None,
{
    match get(j, a) {
        Some(v) => match get(v, b) {
            Some(w) => match get(w, c) {
                Some(x) => crate::json::as_str(x),
                None => None,
            },
            None => None,
        },
        None => None,
    }
}

/// The site's canonical root URL.
pub fn canonical_of(content: &Json) -> (r: &str)
    ensures
        r@ == spec_canonical_of(content.view()),
{
    str2(content, "website", "canonical")
}

/// The site's language.
pub fn site_lang(content: &Json) -> (r: &str)
    ensures
        r@ == spec_site_lang(content.view()),
{
    str2(content, "website", "lang")
}

/// A label of the site.
pub fn label<'a>(content: &'a Json, key: &str) -> (r: &'a str)
    ensures
        r@ == spec_label(content.view(), key@),
{
    match str3(content, "website", "labels", key) {
        Some(s) => s,
        None => "",
    }
}

/// The display name of a tag.
pub fn tag_display(content: &Json, tag: &str) -> (r: String)
    ensures
        r@ == spec_tag_display(content.view(), tag@),
{
    match str3(content, "website", "tags", tag) {
        Some(s) => String::from_str(s),
        None => String::from_str(tag),
    }
}

// ---------------------------------------------------------------------------
// Identifiers
// ---------------------------------------------------------------------------
/// The identifier of a fragment of the home page.
pub open spec fn spec_root_id(canonical: Seq<char>, fragment: Seq<char>) -> Seq<char> {
    spec_id(canonical, "/"@, fragment)
}

/// The identifier of the blog index page.
pub open spec fn spec_blog_url(canonical: Seq<char>) -> Seq<char> {
    spec_id(canonical, "/blog/"@, "page"@)
}

/// The identifier of a fragment of the home page.
pub fn root_id(canonical: &str, fragment: &str) -> (r: String)
    ensures
        r@ == spec_root_id(canonical@, fragment@),
{
    Route::home().id(canonical, fragment)
}

/// The identifier of a fragment of the page at `path`.
pub fn page_id(canonical: &str, path: &str, fragment: &str) -> (r: String)
    ensures
        r@ == spec_id(canonical@, path@, fragment@),
{
    Route::new(path).id(canonical, fragment)
}

/// The identifier of the blog index page.
pub fn blog_url(canonical: &str) -> (r: String)
    ensures
        r@ == spec_blog_url(canonical@),
{
    Route::blog().id(canonical, crate::routes::SLICE_PAGE)
}

// ---------------------------------------------------------------------------
// Shapes shared by the graphs
// ---------------------------------------------------------------------------
/// A string value.
pub open spec fn text(s: Seq<char>) -> JsonV {
    JsonV::Str(s)
}

/// A node of type `t` whose identifier and url are both `id`, with a name.
pub open spec fn named_ref(t: Seq<char>, id: Seq<char>, name: JsonV) -> JsonV {
    JsonV::Obj(
        seq![("@type"@, text(t)), ("@id"@, text(id)), ("url"@, text(id)), ("name"@, name)],
    )
}

/// A list item at `position` holding `item`.
pub open spec fn list_item(position: nat, item: JsonV) -> JsonV {
    JsonV::Obj(
        seq![
            ("@type"@, text("ListItem"@)),
            ("position"@, jnum(position as u64)),
            ("item"@, item),
        ],
    )
}

/// The items numbered from 1 that hold `entries`.
pub open spec fn list_items(entries: Seq<JsonV>) -> Seq<JsonV> {
    Seq::new(entries.len(), |i: int| list_item((i + 1) as nat, entries[i]))
}

/// An item list named `name` whose identifier and url are `id`.
pub open spec fn item_list(id: Seq<char>, name: JsonV, items: Seq<JsonV>) -> JsonV {
    JsonV::Obj(
        seq![
            ("@type"@, text("ItemList"@)),
            ("@id"@, text(id)),
            ("url"@, text(id)),
            ("name"@, name),
            ("numberOfItems"@, jnum(items.len() as u64)),
            ("itemListElement"@, JsonV::Arr(items)),
        ],
    )
}

/// A breadcrumb list whose identifier and url are `id`.
pub open spec fn crumbs(id: Seq<char>, items: Seq<JsonV>) -> JsonV {
    JsonV::Obj(
        seq![
            ("@type"@, text("BreadcrumbList"@)),
            ("@id"@, text(id)),
            ("url"@, text(id)),
            ("itemListElement"@, JsonV::Arr(items)),
        ],
    )
}

/// A graph document: the schema.org context and the nodes.
pub open spec fn graph_doc(nodes: Seq<JsonV>) -> JsonV {
    JsonV::Obj(
        seq![("@context"@, text("https://schema.org"@)), ("@graph"@, JsonV::Arr(nodes))],
    )
}

/// A node of type `t` whose identifier and url are both `id`, with a name.
fn named_ref_exec(t: &str, id: &str, name: Json) -> (r: Json)
    ensures
        r.view() == named_ref(t@, id@, name.view()),
{
    let ghost nv = name.view();
    let mut m: Vec<(String, Json)> = Vec::new();
    put(&mut m, "@type", jstring(t));
    put(&mut m, "@id", jstring(id));
    put(&mut m, "url", jstring(id));
    put(&mut m, "name", name);
    assert(entry_views(m@) =~= seq![
        ("@type"@, text(t@)),
        ("@id"@, text(id@)),
        ("url"@, text(id@)),
        ("name"@, nv),
    ]);
    obj(m)
}

/// The list item at `position` holding `item`.
fn list_item_exec(position: u64, item: Json) -> (r: Json)
    ensures
        r.view() == list_item(position as nat, item.view()),
{
    let ghost iv = item.view();
    let mut m: Vec<(String, Json)> = Vec::new();
    put(&mut m, "@type", jstring("ListItem"));
    put(&mut m, "position", jnumber(position));
    put(&mut m, "item", item);
    assert(entry_views(m@) =~= seq![
        ("@type"@, text("ListItem"@)),
        ("position"@, jnum(position)),
        ("item"@, iv),
    ]);
    obj(m)
}

/// The items numbered from 1 that hold `entries`.
fn list_items_exec(entries: Vec<Json>) -> (r: Vec<Json>)
    ensures
        views(r@) == list_items(views(entries@)),
{
    let ghost ev = views(entries@);
    let mut entries = entries;
    let mut rev: Vec<Json> = Vec::new();
    while entries.len() > 0
        invariant
            entries@.len() + rev@.len() == ev.len(),
            views(entries@) == ev.take(entries@.len() as int),
            forall|j: int|
                0 <= j < rev@.len() ==> #[trigger] rev@[j].view() == list_item(
                    (ev.len() - j) as nat,
                    ev[ev.len() - 1 - j],
                ),
        decreases entries.len(),
    {
        let n = entries.len();
        let e = entries.pop().unwrap();
        proof {
            assert(ev.take(n as int)[n - 1] == e.view());
            assert(views(entries@) =~= ev.take(n - 1));
        }
        assert(n <= ev.len());
        let item = list_item_exec(n as u64, e);
        rev.push(item);
    }
    let mut r: Vec<Json> = Vec::new();
    while rev.len() > 0
        invariant
            r@.len() + rev@.len() == ev.len(),
            forall|j: int|
                0 <= j < rev@.len() ==> #[trigger] rev@[j].view() == list_item(
                    (ev.len() - j) as nat,
                    ev[ev.len() - 1 - j],
                ),
            forall|j: int|
                0 <= j < r@.len() ==> #[trigger] r@[j].view() == list_item((j + 1) as nat, ev[j]),
        decreases rev.len(),
    {
        let k = rev.len();
        let x = rev.pop().unwrap();
        assert(x.view() == list_item((ev.len() - (k - 1)) as nat, ev[ev.len() - 1 - (k - 1)]));
        r.push(x);
    }
    assert(views(r@) =~= list_items(ev));
    r
}

/// An item list named `name` whose identifier and url are `id`.
fn item_list_exec(id: &str, name: Json, items: Vec<Json>) -> (r: Json)
    ensures
        r.view() == item_list(id@, name.view(), views(items@)),
{
    let ghost nv = name.view();
    let ghost iv = views(items@);
    let n = items.len();
    let mut m: Vec<(String, Json)> = Vec::new();
    put(&mut m, "@type", jstring("ItemList"));
    put(&mut m, "@id", jstring(id));
    put(&mut m, "url", jstring(id));
    put(&mut m, "name", name);
    put(&mut m, "numberOfItems", jnumber(n as u64));
    put(&mut m, "itemListElement", arr(items));
    assert(entry_views(m@) =~= seq![
        ("@type"@, text("ItemList"@)),
        ("@id"@, text(id@)),
        ("url"@, text(id@)),
        ("name"@, nv),
        ("numberOfItems"@, jnum(iv.len() as u64)),
        ("itemListElement"@, JsonV::Arr(iv)),
    ]);
    obj(m)
}

/// A breadcrumb list whose identifier and url are `id`.
fn crumbs_exec(id: &str, items: Vec<Json>) -> (r: Json)
    ensures
        r.view() == crumbs(id@, views(items@)),
{
    let ghost iv = views(items@);
    let mut m: Vec<(String, Json)> = Vec::new();
    put(&mut m, "@type", jstring("BreadcrumbList"));
    put(&mut m, "@id", jstring(id));
    put(&mut m, "url", jstring(id));
    put(&mut m, "itemListElement", arr(items));
    assert(entry_views(m@) =~= seq![
        ("@type"@, text("BreadcrumbList"@)),
        ("@id"@, text(id@)),
        ("url"@, text(id@)),
        ("itemListElement"@, JsonV::Arr(iv)),
    ]);
    obj(m)
}

/// A graph document.
fn graph_doc_exec(nodes: Vec<Json>) -> (r: Json)
    ensures
        r.view() == graph_doc(views(nodes@)),
{
    let ghost nv = views(nodes@);
    let mut m: Vec<(String, Json)> = Vec::new();
    put(&mut m, "@context", jstring("https://schema.org"));
    put(&mut m, "@graph", arr(nodes));
    assert(entry_views(m@) =~= seq![
        ("@context"@, text("https://schema.org"@)),
        ("@graph"@, JsonV::Arr(nv)),
    ]);
    obj(m)
}

// ---------------------------------------------------------------------------
// The site's nodes
// ---------------------------------------------------------------------------
/// The `k`-th white-space separated word of `s`, or empty.
pub open spec fn word_or_empty(s: Seq<char>, k: int) -> Seq<char> {
    if 0 <= k < words(s).len() {
        words(s)[k]
    } else {
        ""@
    }
}

/// The `href` strings of a list of links, skipping links without one.
pub open spec fn link_hrefs(links: Seq<JsonV>) -> Seq<JsonV>
    decreases links.len(),
{
    if links.len() == 0 {
        seq![]
    } else {
        link_hrefs(links.drop_last()) + match jstr(jget(links.last(), "href"@)) {
            Some(h) => seq![text(h)],
            None => seq![],
        }
    }
}

/// The site owner's node.
pub open spec fn spec_person_node(c: JsonV) -> JsonV {
    let canonical = spec_canonical_of(c);
    let person = jget(c, "person"@);
    let name = jstr_or(jget(person, "name"@), ""@);
    let id = spec_root_id(canonical, "person"@);
    JsonV::Obj(
        seq![
            ("@type"@, text("Person"@)),
            ("@id"@, text(id)),
            ("url"@, text(id)),
            ("name"@, text(name)),
            ("givenName"@, text(word_or_empty(name, 0))),
            ("familyName"@, text(word_or_empty(name, 1))),
            ("email"@, text("mailto:"@ + jstr_or(jget(person, "email"@), ""@))),
            ("description"@, jget(person, "description"@)),
            ("sameAs"@, JsonV::Arr(
                match jarr(jget(person, "links"@)) {
                    Some(links) => link_hrefs(links),
                    None => seq![],
                },
            )),
        ],
    )
}

/// The `k`-th word of `s`, or empty.
fn word_of(s: &str, k: usize) -> (r: String)
    ensures
        r@ == word_or_empty(s@, k as int),
{
    let v = chars_of(s);
    let w = crate::text::word_bounds(&v, 0, v.len());
    assert(v@.subrange(0, v@.len() as int) == v@);
    proof {
        reveal_strlit("");
    }
    if k < w.len() {
        let (a, b) = w[k];
        assert(v@.subrange(w@[k as int].0 as int, w@[k as int].1 as int) == words(
            v@.subrange(0, v@.len() as int),
        )[k as int]);
        string_of(&v, a, b)
    } else {
        let r = String::new();
        assert(r@ =~= ""@);
        r
    }
}

/// The `href` strings of a list of links.
fn link_hrefs_exec(links: &Vec<Json>) -> (r: Vec<Json>)
    ensures
        views(r@) == link_hrefs(views(links@)),
{
    let ghost lv = views(links@);
    let mut r: Vec<Json> = Vec::new();
    let mut k: usize = 0;
    while k < links.len()
        invariant
            k <= links@.len(),
            lv == views(links@),
            views(r@) == link_hrefs(lv.take(k as int)),
        decreases links.len() - k,
    {
        proof {
            assert(lv.take(k + 1).drop_last() == lv.take(k as int));
            assert(lv.take(k + 1).last() == links@[k as int].view());
        }
        let ghost before = views(r@);
        match get(&links[k], "href") {
            Some(h) => match h {
                Json::Str(s) => {
                    push_item(&mut r, jstring(s.as_str()));
                },
                _ => {
                    assert(views(r@) =~= before + Seq::<JsonV>::empty());
                },
            },
            None => {
                assert(views(r@) =~= before + Seq::<JsonV>::empty());
            },
        }
        k += 1;
    }
    assert(lv.take(links@.len() as int) == lv);
    r
}

/// The links of the site owner.
fn person_links(content: &Json) -> (r: Option<&Vec<Json>>)
    ensures
        r matches Some(a) ==> jarr(jget2(content.view(), "person"@, "links"@)) == Some(views(a@)),
        r is None ==> jarr(jget2(content.view(), "person"@, "links"@)) is None,
{
    match get(content, "person") {
        Some(p) => match get(p, "links") {
            Some(l) => as_array(l),
            None => None,
        },
        None => None,
    }
}

/// The site owner's node.
pub fn person_node(content: &Json) -> (r: Json)
    ensures
        r.view() == spec_person_node(content.view()),
{
    let ghost c = content.view();
    let canonical = canonical_of(content);
    let name = str2(content, "person", "name");
    let id = root_id(canonical, crate::routes::SLICE_PERSON);
    let mut email = String::from_str("mailto:");
    push_str(&mut email, str2(content, "person", "email"));
    let same_as = match person_links(content) {
        Some(links) => link_hrefs_exec(links),
        None => Vec::new(),
    };
    let ghost sv = views(same_as@);
    let description = get2_or_null(content, "person", "description");
    let ghost dv = description.view();
    let mut m: Vec<(String, Json)> = Vec::new();
    put(&mut m, "@type", jstring("Person"));
    put(&mut m, "@id", jstring(id.as_str()));
    put(&mut m, "url", jstring(id.as_str()));
    put(&mut m, "name", jstring(name));
    put(&mut m, "givenName", jstring(word_of(name, 0).as_str()));
    put(&mut m, "familyName", jstring(word_of(name, 1).as_str()));
    put(&mut m, "email", jstring(email.as_str()));
    put(&mut m, "description", description);
    put(&mut m, "sameAs", arr(same_as));
    proof {
        reveal_strlit("person");
        assert(sv == match jarr(jget(jget(c, "person"@), "links"@)) {
            Some(links) => link_hrefs(links),
            None => Seq::<JsonV>::empty(),
        });
    }
    assert(entry_views(m@) =~= spec_person_node(c)->Obj_0);
    obj(m)
}

/// The site's node.
pub open spec fn spec_website_node(c: JsonV) -> JsonV {
    let website = jget(c, "website"@);
    let canonical = spec_canonical_of(c);
    JsonV::Obj(
        seq![
            ("@type"@, text("WebSite"@)),
            ("@id"@, text(spec_root_id(canonical, "web"@))),
            ("url"@, text(canonical)),
            ("name"@, jget2(website, "titles"@, "home"@)),
            ("description"@, jget(website, "description"@)),
            ("inLanguage"@, text(spec_site_lang(c))),
            ("publisher"@, jref(spec_root_id(canonical, "person"@))),
        ],
    )
}

/// `website[a][b]` as a value.
fn website_value(content: &Json, a: &str, b: &str) -> (r: Json)
    ensures
        r.view() == jget2(jget(content.view(), "website"@), a@, b@),
{
    match get(content, "website") {
        Some(w) => get2_or_null(w, a, b),
        None => Json::Null,
    }
}

/// The site's node.
pub fn website_node(content: &Json) -> (r: Json)
    ensures
        r.view() == spec_website_node(content.view()),
{
    let ghost c = content.view();
    let canonical = canonical_of(content);
    let web = root_id(canonical, "web");
    let person = root_id(canonical, crate::routes::SLICE_PERSON);
    let name = website_value(content, "titles", "home");
    let description = get2_or_null(content, "website", "description");
    let ghost nv = name.view();
    let ghost dv = description.view();
    let mut m: Vec<(String, Json)> = Vec::new();
    put(&mut m, "@type", jstring("WebSite"));
    put(&mut m, "@id", jstring(web.as_str()));
    put(&mut m, "url", jstring(canonical));
    put(&mut m, "name", name);
    put(&mut m, "description", description);
    put(&mut m, "inLanguage", jstring(site_lang(content)));
    put(&mut m, "publisher", id_ref(person.as_str()));
    proof {
        reveal_strlit("person");
    }
    assert(entry_views(m@) =~= spec_website_node(c)->Obj_0);
    obj(m)
}

/// The blog's node.
pub open spec fn spec_blog_node(c: JsonV) -> JsonV {
    let canonical = spec_canonical_of(c);
    JsonV::Obj(
        seq![
            ("@type"@, text("Blog"@)),
            ("@id"@, text(spec_blog_url(canonical))),
            ("url"@, text(spec_blog_url(canonical))),
            ("name"@, text(spec_label(c, "blog"@))),
            ("isPartOf"@, jref(spec_root_id(canonical, "web"@))),
            ("publisher"@, jref(spec_root_id(canonical, "person"@))),
        ],
    )
}

/// The blog's node.
pub fn blog_node(content: &Json) -> (r: Json)
    ensures
        r.view() == spec_blog_node(content.view()),
{
    let ghost c = content.view();
    let canonical = canonical_of(content);
    let url = blog_url(canonical);
    let mut m: Vec<(String, Json)> = Vec::new();
    put(&mut m, "@type", jstring("Blog"));
    put(&mut m, "@id", jstring(url.as_str()));
    put(&mut m, "url", jstring(url.as_str()));
    put(&mut m, "name", jstring(label(content, "blog")));
    put(&mut m, "isPartOf", id_ref(root_id(canonical, "web").as_str()));
    put(&mut m, "publisher", id_ref(root_id(canonical, crate::routes::SLICE_PERSON).as_str()));
    proof {
        reveal_strlit("person");
    }
    assert(entry_views(m@) =~= spec_blog_node(c)->Obj_0);
    obj(m)
}

// ---------------------------------------------------------------------------
// Entries of the page lists
// ---------------------------------------------------------------------------
/// The url of an article's page node.
pub open spec fn article_page(canonical: Seq<char>, a: Article) -> Seq<char> {
    canonical + "/blog/"@ + a.slug@ + "/"@ + "#page"@
}

/// The entry of an article in a list: its page, named by its title.
pub open spec fn article_entry(canonical: Seq<char>, a: Article) -> JsonV {
    named_ref("WebPage"@, article_page(canonical, a), text(a.frontmatter.title@))
}

/// The entries of a list of articles.
pub open spec fn article_entries(canonical: Seq<char>, arts: Seq<Article>) -> Seq<JsonV> {
    Seq::new(arts.len(), |i: int| article_entry(canonical, arts[i]))
}

/// The url of an article's page node.
fn article_page_exec(canonical: &str, a: &Article) -> (r: String)
    ensures
        r@ == article_page(canonical@, *a),
{
    let mut s = String::new();
    push_str(&mut s, canonical);
    let u = a.url();
    push_str(&mut s, u.as_str());
    push_str(&mut s, "#page");
    assert(s@ =~= article_page(canonical@, *a));
    s
}

/// The list items of a list of articles.
fn article_items(canonical: &str, arts: &[Article]) -> (r: Vec<Json>)
    ensures
        views(r@) == list_items(article_entries(canonical@, arts@)),
{
    let mut entries: Vec<Json> = Vec::new();
    let mut k: usize = 0;
    while k < arts.len()
        invariant
            k <= arts@.len(),
            views(entries@) == article_entries(canonical@, arts@.take(k as int)),
        decreases arts.len() - k,
    {
        let a = &arts[k];
        let url = article_page_exec(canonical, a);
        let e = named_ref_exec("WebPage", url.as_str(), jstring(a.frontmatter.title.as_str()));
        push_item(&mut entries, e);
        assert(views(entries@) =~= article_entries(canonical@, arts@.take(k + 1)));
        k += 1;
    }
    assert(arts@.take(arts@.len() as int) =~= arts@);
    list_items_exec(entries)
}

/// The list items of a list of borrowed articles.
fn tagged_items(canonical: &str, arts: &[&Article]) -> (r: Vec<Json>)
    ensures
        views(r@) == list_items(article_entries(canonical@, arts@.map_values(|a: &Article| *a))),
{
    let ghost av = arts@.map_values(|a: &Article| *a);
    let mut entries: Vec<Json> = Vec::new();
    let mut k: usize = 0;
    while k < arts.len()
        invariant
            k <= arts@.len(),
            av == arts@.map_values(|a: &Article| *a),
            views(entries@) == article_entries(canonical@, av.take(k as int)),
        decreases arts.len() - k,
    {
        let a: &Article = arts[k];
        let url = article_page_exec(canonical, a);
        let e = named_ref_exec("WebPage", url.as_str(), jstring(a.frontmatter.title.as_str()));
        push_item(&mut entries, e);
        assert(views(entries@) =~= article_entries(canonical@, av.take(k + 1)));
        k += 1;
    }
    assert(av.take(arts@.len() as int) =~= av);
    list_items_exec(entries)
}

/// A page of a list: its types, identifiers under `path`, name, description and
/// language, the breadcrumb, the list it presents and the publisher.
pub open spec fn list_page(
    types: Seq<JsonV>,
    canonical: Seq<char>,
    path: Seq<char>,
    name: Seq<char>,
    description: Seq<char>,
    lang: Seq<char>,
    main_fragment: Seq<char>,
) -> JsonV {
    JsonV::Obj(
        seq![
            ("@type"@, JsonV::Arr(types)),
            ("@id"@, text(spec_id(canonical, path, "page"@))),
            ("url"@, text(spec_id(canonical, path, "page"@))),
            ("name"@, text(name)),
            ("description"@, text(description)),
            ("inLanguage"@, text(lang)),
            ("isPartOf"@, jref(spec_root_id(canonical, "web"@))),
            ("breadcrumb"@, jref(spec_id(canonical, path, "breadcrumb"@))),
            ("mainEntity"@, jref(spec_id(canonical, path, main_fragment))),
            ("publisher"@, jref(spec_root_id(canonical, "person"@))),
        ],
    )
}

/// Two type names as an array value.
fn two_types(a: &str, b: &str) -> (r: Json)
    ensures
        r.view() == JsonV::Arr(seq![text(a@), text(b@)]),
{
    let mut v: Vec<Json> = Vec::new();
    push_item(&mut v, jstring(a));
    push_item(&mut v, jstring(b));
    assert(views(v@) =~= seq![text(a@), text(b@)]);
    arr(v)
}

/// A page of a list.
fn list_page_exec(
    types: Json,
    canonical: &str,
    path: &str,
    name: &str,
    description: &str,
    lang: &str,
    main_fragment: &str,
) -> (r: Json)
    requires
        types.view() is Arr,
    ensures
        r.view() == list_page(
            types.view()->Arr_0,
            canonical@,
            path@,
            name@,
            description@,
            lang@,
            main_fragment@,
        ),
{
    let ghost tv = types.view();
    let page = page_id(canonical, path, "page");
    let mut m: Vec<(String, Json)> = Vec::new();
    put(&mut m, "@type", types);
    put(&mut m, "@id", jstring(page.as_str()));
    put(&mut m, "url", jstring(page.as_str()));
    put(&mut m, "name", jstring(name));
    put(&mut m, "description", jstring(description));
    put(&mut m, "inLanguage", jstring(lang));
    put(&mut m, "isPartOf", id_ref(root_id(canonical, "web").as_str()));
    put(&mut m, "breadcrumb", id_ref(page_id(canonical, path, "breadcrumb").as_str()));
    put(&mut m, "mainEntity", id_ref(page_id(canonical, path, main_fragment).as_str()));
    put(&mut m, "publisher", id_ref(root_id(canonical, crate::routes::SLICE_PERSON).as_str()));
    proof {
        reveal_strlit("person");
    }
    assert(entry_views(m@) =~= list_page(
        tv->Arr_0,
        canonical@,
        path@,
        name@,
        description@,
        lang@,
        main_fragment@,
    )->Obj_0);
    obj(m)
}

/// The first crumb: the home page, named by the `home` label.
pub open spec fn home_crumb(c: JsonV) -> JsonV {
    named_ref("WebPage"@, spec_canonical_of(c), text(spec_label(c, "home"@)))
}

/// The crumb of the blog index, named by the `blog` label.
pub open spec fn blog_crumb(c: JsonV) -> JsonV {
    named_ref("WebPage"@, spec_blog_url(spec_canonical_of(c)), text(spec_label(c, "blog"@)))
}

/// The first crumb.
fn home_crumb_exec(content: &Json) -> (r: Json)
    ensures
        r.view() == home_crumb(content.view()),
{
    named_ref_exec("WebPage", canonical_of(content), jstring(label(content, "home")))
}

/// The crumb of the blog index.
fn blog_crumb_exec(content: &Json) -> (r: Json)
    ensures
        r.view() == blog_crumb(content.view()),
{
    let url = blog_url(canonical_of(content));
    named_ref_exec("WebPage", url.as_str(), jstring(label(content, "blog")))
}

// ---------------------------------------------------------------------------
// The blog index
// ---------------------------------------------------------------------------
/// The graph of the blog index listing `arts`.
pub open spec fn spec_blog_index_graph(c: JsonV, arts: Seq<Article>, description: Seq<char>) -> JsonV {
    let canonical = spec_canonical_of(c);
    let path = "/blog/"@;
    graph_doc(
        seq![
            spec_person_node(c),
            spec_website_node(c),
            list_page(
                seq![text("Blog"@), text("WebPage"@)],
                canonical,
                path,
                spec_label(c, "blog"@),
                description,
                spec_site_lang(c),
                "articles"@,
            ),
            item_list(
                spec_id(canonical, path, "articles"@),
                text(spec_label(c, "articles"@)),
                list_items(article_entries(canonical, arts)),
            ),
            crumbs(
                spec_id(canonical, path, "breadcrumb"@),
                list_items(
                    seq![
                        home_crumb(c),
                        named_ref(
                            "WebPage"@,
                            spec_id(canonical, path, "articles"@),
                            text(spec_label(c, "blog"@)),
                        ),
                    ],
                ),
            ),
        ],
    )
}

/// Two entries as a vector.
fn pair(a: Json, b: Json) -> (r: Vec<Json>)
    ensures
        views(r@) == seq![a.view(), b.view()],
{
    let mut v: Vec<Json> = Vec::new();
    push_item(&mut v, a);
    push_item(&mut v, b);
    assert(views(v@) =~= seq![a.view(), b.view()]);
    v
}

/// The graph of the blog index.
pub fn blog_index_graph(content: &Json, articles: &[Article], description: &str) -> (r: Json)
    ensures
        r.view() == spec_blog_index_graph(content.view(), articles@, description@),
{
    let ghost c = content.view();
    let canonical = canonical_of(content);
    let path = "/blog/";
    let items = article_items(canonical, articles);
    let articles_id = page_id(canonical, path, "articles");
    let crumb_items = list_items_exec(
        pair(
            home_crumb_exec(content),
            named_ref_exec("WebPage", articles_id.as_str(), jstring(label(content, "blog"))),
        ),
    );
    let mut nodes: Vec<Json> = Vec::new();
    push_item(&mut nodes, person_node(content));
    push_item(&mut nodes, website_node(content));
    push_item(
        &mut nodes,
        list_page_exec(
            two_types("Blog", "WebPage"),
            canonical,
            path,
            label(content, "blog"),
            description,
            site_lang(content),
            "articles",
        ),
    );
    push_item(
        &mut nodes,
        item_list_exec(articles_id.as_str(), jstring(label(content, "articles")), items),
    );
    push_item(
        &mut nodes,
        crumbs_exec(page_id(canonical, path, "breadcrumb").as_str(), crumb_items),
    );
    assert(views(nodes@) =~= spec_blog_index_graph(c, articles@, description@)->Obj_0[1].1->Arr_0);
    graph_doc_exec(nodes)
}

// ---------------------------------------------------------------------------
// Tag pages
// ---------------------------------------------------------------------------
/// The graph of the page of one tag, listing the articles `arts` that carry it.
pub open spec fn spec_tag_graph(
    c: JsonV,
    tag: Seq<char>,
    slug: Seq<char>,
    arts: Seq<Article>,
    description: Seq<char>,
) -> JsonV {
    let canonical = spec_canonical_of(c);
    let display = spec_tag_display(c, tag);
    let path = "/blog/tags/"@ + slug + "/"@;
    graph_doc(
        seq![
            spec_person_node(c),
            spec_website_node(c),
            list_page(
                seq![text("CollectionPage"@), text("WebPage"@)],
                canonical,
                path,
                display,
                description,
                spec_site_lang(c),
                "articles"@,
            ),
            item_list(
                spec_id(canonical, path, "articles"@),
                text(display),
                list_items(article_entries(canonical, arts)),
            ),
            crumbs(
                spec_id(canonical, path, "breadcrumb"@),
                list_items(
                    seq![
                        home_crumb(c),
                        blog_crumb(c),
                        named_ref(
                            "WebPage"@,
                            canonical + "/blog/tags/"@,
                            text(spec_label(c, "tags"@)),
                        ),
                        named_ref(
                            "WebPage"@,
                            spec_id(canonical, path, "articles"@),
                            text(display),
                        ),
                    ],
                ),
            ),
        ],
    )
}

/// The graph of the page of one tag.
pub fn tag_graph(
    content: &Json,
    tag: &str,
    slug: &str,
    tagged: &[&Article],
    description: &str,
) -> (r: Json)
    ensures
        r.view() == spec_tag_graph(
            content.view(),
            tag@,
            slug@,
            tagged@.map_values(|a: &Article| *a),
            description@,
        ),
{
    let ghost c = content.view();
    let canonical = canonical_of(content);
    let display = tag_display(content, tag);
    let mut path = String::from_str("/blog/tags/");
    push_str(&mut path, slug);
    push_str(&mut path, "/");
    let items = tagged_items(canonical, tagged);
    let articles_id = page_id(canonical, path.as_str(), "articles");
    let mut hub = String::new();
    push_str(&mut hub, canonical);
    push_str(&mut hub, "/blog/tags/");
    let mut crumb_entries: Vec<Json> = Vec::new();
    push_item(&mut crumb_entries, home_crumb_exec(content));
    push_item(&mut crumb_entries, blog_crumb_exec(content));
    push_item(
        &mut crumb_entries,
        named_ref_exec("WebPage", hub.as_str(), jstring(label(content, "tags"))),
    );
    push_item(
        &mut crumb_entries,
        named_ref_exec("WebPage", articles_id.as_str(), jstring(display.as_str())),
    );
    let ghost cv = views(crumb_entries@);
    let crumb_items = list_items_exec(crumb_entries);
    let mut nodes: Vec<Json> = Vec::new();
    push_item(&mut nodes, person_node(content));
    push_item(&mut nodes, website_node(content));
    push_item(
        &mut nodes,
        list_page_exec(
            two_types("CollectionPage", "WebPage"),
            canonical,
            path.as_str(),
            display.as_str(),
            description,
            site_lang(content),
            "articles",
        ),
    );
    push_item(&mut nodes, item_list_exec(articles_id.as_str(), jstring(display.as_str()), items));
    push_item(
        &mut nodes,
        crumbs_exec(page_id(canonical, path.as_str(), "breadcrumb").as_str(), crumb_items),
    );
    let ghost want = spec_tag_graph(
        c,
        tag@,
        slug@,
        tagged@.map_values(|a: &Article| *a),
        description@,
    );
    assert(path@ =~= "/blog/tags/"@ + slug@ + "/"@);
    assert(cv =~= seq![
        home_crumb(c),
        blog_crumb(c),
        named_ref("WebPage"@, spec_canonical_of(c) + "/blog/tags/"@, text(spec_label(c, "tags"@))),
        named_ref(
            "WebPage"@,
            spec_id(spec_canonical_of(c), path@, "articles"@),
            text(spec_tag_display(c, tag@)),
        ),
    ]);
    assert(views(nodes@) =~= want->Obj_0[1].1->Arr_0);
    graph_doc_exec(nodes)
}

/// The entry of a tag in the tag index: its page, named by its display name.
pub open spec fn tag_entry(c: JsonV, tag: Seq<char>, slug: Seq<char>) -> JsonV {
    named_ref(
        "WebPage"@,
        spec_canonical_of(c) + "/blog/tags/"@ + slug + "/#page"@,
        text(spec_tag_display(c, tag)),
    )
}

/// The tag and slug of each group of the tag index.
pub open spec fn tag_pairs(tags: Seq<(&str, String, Vec<&Article>)>) -> Seq<(Seq<char>, Seq<char>)> {
    tags.map_values(|t: (&str, String, Vec<&Article>)| (t.0@, t.1@))
}

/// The entries of the tag index.
pub open spec fn tag_entries(c: JsonV, tags: Seq<(Seq<char>, Seq<char>)>) -> Seq<JsonV> {
    Seq::new(tags.len(), |i: int| tag_entry(c, tags[i].0, tags[i].1))
}

/// The graph of the tag index listing `tags` as (tag, slug) pairs.
pub open spec fn spec_tags_index_graph(
    c: JsonV,
    tags: Seq<(Seq<char>, Seq<char>)>,
    description: Seq<char>,
) -> JsonV {
    let canonical = spec_canonical_of(c);
    let path = "/blog/tags/"@;
    graph_doc(
        seq![
            spec_person_node(c),
            spec_website_node(c),
            list_page(
                seq![text("CollectionPage"@), text("WebPage"@)],
                canonical,
                path,
                spec_label(c, "tags"@),
                description,
                spec_site_lang(c),
                "tags"@,
            ),
            item_list(
                spec_id(canonical, path, "tags"@),
                text(spec_label(c, "tags"@)),
                list_items(tag_entries(c, tags)),
            ),
            crumbs(
                spec_id(canonical, path, "breadcrumb"@),
                list_items(
                    seq![
                        home_crumb(c),
                        blog_crumb(c),
                        named_ref(
                            "WebPage"@,
                            spec_id(canonical, path, "tags"@),
                            text(spec_label(c, "tags"@)),
                        ),
                    ],
                ),
            ),
        ],
    )
}

/// The graph of the tag index; each group is a tag, its slug and its articles.
pub fn tags_index_graph(
    content: &Json,
    tags: &[(&str, String, Vec<&Article>)],
    description: &str,
) -> (r: Json)
    ensures
        r.view() == spec_tags_index_graph(content.view(), tag_pairs(tags@), description@),
{
    let ghost c = content.view();
    let ghost tp = tag_pairs(tags@);
    let canonical = canonical_of(content);
    let path = "/blog/tags/";
    let mut entries: Vec<Json> = Vec::new();
    let mut k: usize = 0;
    while k < tags.len()
        invariant
            k <= tags@.len(),
            tp == tag_pairs(tags@),
            c == content.view(),
            canonical@ == spec_canonical_of(c),
            views(entries@) == tag_entries(c, tp.take(k as int)),
        decreases tags.len() - k,
    {
        let (tag, slug, _tagged) = &tags[k];
        let mut url = String::new();
        push_str(&mut url, canonical);
        push_str(&mut url, "/blog/tags/");
        push_str(&mut url, slug.as_str());
        push_str(&mut url, "/#page");
        let name = tag_display(content, tag);
        push_item(&mut entries, named_ref_exec("WebPage", url.as_str(), jstring(name.as_str())));
        assert(tp[k as int] == (tag@, slug@));
        assert(views(entries@) =~= tag_entries(c, tp.take(k + 1)));
        k += 1;
    }
    assert(tp.take(tags@.len() as int) =~= tp);
    let items = list_items_exec(entries);
    let tags_id = page_id(canonical, path, "tags");
    let mut crumb_entries: Vec<Json> = Vec::new();
    push_item(&mut crumb_entries, home_crumb_exec(content));
    push_item(&mut crumb_entries, blog_crumb_exec(content));
    push_item(
        &mut crumb_entries,
        named_ref_exec("WebPage", tags_id.as_str(), jstring(label(content, "tags"))),
    );
    let ghost cv = views(crumb_entries@);
    let crumb_items = list_items_exec(crumb_entries);
    let mut nodes: Vec<Json> = Vec::new();
    push_item(&mut nodes, person_node(content));
    push_item(&mut nodes, website_node(content));
    push_item(
        &mut nodes,
        list_page_exec(
            two_types("CollectionPage", "WebPage"),
            canonical,
            path,
            label(content, "tags"),
            description,
            site_lang(content),
            "tags",
        ),
    );
    push_item(&mut nodes, item_list_exec(tags_id.as_str(), jstring(label(content, "tags")), items));
    push_item(&mut nodes, crumbs_exec(page_id(canonical, path, "breadcrumb").as_str(), crumb_items));
    let ghost want = spec_tags_index_graph(c, tp, description@);
    assert(cv =~= seq![
        home_crumb(c),
        blog_crumb(c),
        named_ref(
            "WebPage"@,
            spec_id(spec_canonical_of(c), "/blog/tags/"@, "tags"@),
            text(spec_label(c, "tags"@)),
        ),
    ]);
    assert(views(nodes@) =~= want->Obj_0[1].1->Arr_0);
    graph_doc_exec(nodes)
}

// ---------------------------------------------------------------------------
// The home page
// ---------------------------------------------------------------------------
/// The entry of one of the owner's links: an anchor of the home page named after the
/// link's lower-cased title.
pub open spec fn link_entry(c: JsonV, l: JsonV) -> JsonV {
    let title = jstr_or(jget(l, "title"@), ""@);
    named_ref(
        "WebPage"@,
        spec_root_id(spec_canonical_of(c), "link-"@ + crate::articles::lowercase(title)),
        text(title),
    )
}

/// The entries of the owner's links.
pub open spec fn link_entries(c: JsonV, links: Seq<JsonV>) -> Seq<JsonV> {
    Seq::new(links.len(), |i: int| link_entry(c, links[i]))
}

/// The section of the home page that lists the owner's links.
pub open spec fn spec_links_element(c: JsonV) -> JsonV {
    let canonical = spec_canonical_of(c);
    let entries = match jarr(jget2(c, "person"@, "links"@)) {
        Some(links) => link_entries(c, links),
        None => seq![],
    };
    JsonV::Obj(
        seq![
            ("@type"@, text("WebPageElement"@)),
            ("@id"@, text(spec_root_id(canonical, "links"@))),
            ("url"@, text(spec_root_id(canonical, "links"@))),
            ("name"@, text(spec_label(c, "links"@))),
            ("isPartOf"@, jref(spec_root_id(canonical, "page"@))),
            ("mainEntity"@, item_list(
                spec_root_id(canonical, "links-list"@),
                text(spec_label(c, "links"@)),
                list_items(entries),
            )),
        ],
    )
}

/// The list item of a recent article at `position`: an anchor of the home page that
/// holds the article's page.
pub open spec fn recent_item(canonical: Seq<char>, position: nat, a: Article) -> JsonV {
    let id = spec_root_id(canonical, "article-"@ + a.slug@);
    JsonV::Obj(
        seq![
            ("@type"@, text("ListItem"@)),
            ("@id"@, text(id)),
            ("url"@, text(id)),
            ("position"@, jnum(position as u64)),
            ("item"@, article_entry(canonical, a)),
        ],
    )
}

/// The list items of the recent articles.
pub open spec fn recent_items(canonical: Seq<char>, arts: Seq<Article>) -> Seq<JsonV> {
    Seq::new(arts.len(), |i: int| recent_item(canonical, (i + 1) as nat, arts[i]))
}

/// The section of the home page that lists the recent articles.
pub open spec fn spec_blog_element(c: JsonV, arts: Seq<Article>) -> JsonV {
    let canonical = spec_canonical_of(c);
    JsonV::Obj(
        seq![
            ("@type"@, text("WebPageElement"@)),
            ("@id"@, text(spec_root_id(canonical, "blog"@))),
            ("url"@, text(spec_root_id(canonical, "blog"@))),
            ("name"@, text(spec_label(c, "recent"@))),
            ("isPartOf"@, jref(spec_root_id(canonical, "page"@))),
            ("mainEntity"@, item_list(
                spec_root_id(canonical, "blog-articles"@),
                text(spec_label(c, "recent"@)),
                recent_items(canonical, arts),
            )),
        ],
    )
}

/// The home page's own node.
pub open spec fn spec_profile_page(c: JsonV) -> JsonV {
    let website = jget(c, "website"@);
    let canonical = spec_canonical_of(c);
    JsonV::Obj(
        seq![
            ("@type"@, text("ProfilePage"@)),
            ("@id"@, text(spec_root_id(canonical, "page"@))),
            ("url"@, text(spec_root_id(canonical, "page"@))),
            ("name"@, jget2(website, "titles"@, "home"@)),
            ("description"@, jget2(website, "descriptions"@, "home"@)),
            ("inLanguage"@, text(spec_site_lang(c))),
            ("isPartOf"@, jref(spec_root_id(canonical, "web"@))),
            ("mainEntity"@, jref(spec_root_id(canonical, "person"@))),
            ("hasPart"@, JsonV::Arr(
                seq![jref(spec_root_id(canonical, "blog"@)), jref(spec_root_id(canonical, "links"@))],
            )),
        ],
    )
}

/// The graph of the home page; the recent articles' section appears when there are any.
pub open spec fn spec_home_graph(c: JsonV, arts: Seq<Article>) -> JsonV {
    graph_doc(
        seq![spec_person_node(c), spec_website_node(c), spec_profile_page(c), spec_links_element(c)]
            + if arts.len() > 0 {
            seq![spec_blog_element(c, arts)]
        } else {
            seq![]
        },
    )
}

/// The home page's own node.
fn profile_page(content: &Json) -> (r: Json)
    ensures
        r.view() == spec_profile_page(content.view()),
{
    let ghost c = content.view();
    let canonical = canonical_of(content);
    let page = root_id(canonical, "page");
    let name = website_value(content, "titles", "home");
    let description = website_value(content, "descriptions", "home");
    let ghost nv = name.view();
    let ghost dv = description.view();
    let parts = pair(id_ref(root_id(canonical, "blog").as_str()), id_ref(root_id(canonical, "links").as_str()));
    let mut m: Vec<(String, Json)> = Vec::new();
    put(&mut m, "@type", jstring("ProfilePage"));
    put(&mut m, "@id", jstring(page.as_str()));
    put(&mut m, "url", jstring(page.as_str()));
    put(&mut m, "name", name);
    put(&mut m, "description", description);
    put(&mut m, "inLanguage", jstring(site_lang(content)));
    put(&mut m, "isPartOf", id_ref(root_id(canonical, "web").as_str()));
    put(&mut m, "mainEntity", id_ref(root_id(canonical, crate::routes::SLICE_PERSON).as_str()));
    put(&mut m, "hasPart", arr(parts));
    proof {
        reveal_strlit("person");
    }
    assert(entry_views(m@) =~= spec_profile_page(c)->Obj_0);
    obj(m)
}

/// The section of the home page that lists the owner's links.
fn links_element(content: &Json) -> (r: Json)
    ensures
        r.view() == spec_links_element(content.view()),
{
    let ghost c = content.view();
    let canonical = canonical_of(content);
    let mut entries: Vec<Json> = Vec::new();
    match person_links(content) {
        Some(links) => {
            let ghost lv = views(links@);
            let mut k: usize = 0;
            while k < links.len()
                invariant
                    k <= links@.len(),
                    lv == views(links@),
                    c == content.view(),
                    canonical@ == spec_canonical_of(c),
                    views(entries@) == link_entries(c, lv.take(k as int)),
                decreases links.len() - k,
            {
                let title = str_member(&links[k], "title");
                let mut anchor = String::from_str("link-");
                let lower = crate::articles::to_lowercase(title);
                push_str(&mut anchor, lower.as_str());
                let id = root_id(canonical, anchor.as_str());
                push_item(&mut entries, named_ref_exec("WebPage", id.as_str(), jstring(title)));
                assert(lv[k as int] == links@[k as int].view());
                assert(views(entries@) =~= link_entries(c, lv.take(k + 1)));
                k += 1;
            }
            assert(lv.take(links@.len() as int) =~= lv);
        },
        None => {
            assert(views(entries@) =~= Seq::<JsonV>::empty());
        },
    }
    let items = list_items_exec(entries);
    let links = root_id(canonical, "links");
    let mut m: Vec<(String, Json)> = Vec::new();
    put(&mut m, "@type", jstring("WebPageElement"));
    put(&mut m, "@id", jstring(links.as_str()));
    put(&mut m, "url", jstring(links.as_str()));
    put(&mut m, "name", jstring(label(content, "links")));
    put(&mut m, "isPartOf", id_ref(root_id(canonical, "page").as_str()));
    put(
        &mut m,
        "mainEntity",
        item_list_exec(root_id(canonical, "links-list").as_str(), jstring(label(content, "links")), items),
    );
    assert(entry_views(m@) =~= spec_links_element(c)->Obj_0);
    obj(m)
}

/// The section of the home page that lists the recent articles.
fn blog_element(content: &Json, arts: &[Article]) -> (r: Json)
    ensures
        r.view() == spec_blog_element(content.view(), arts@),
{
    let ghost c = content.view();
    let canonical = canonical_of(content);
    let mut items: Vec<Json> = Vec::new();
    let mut k: usize = 0;
    while k < arts.len()
        invariant
            k <= arts@.len(),
            views(items@) == recent_items(canonical@, arts@.take(k as int)),
        decreases arts.len() - k,
    {
        let a = &arts[k];
        let mut fragment = String::from_str("article-");
        push_str(&mut fragment, a.slug.as_str());
        let id = root_id(canonical, fragment.as_str());
        let url = article_page_exec(canonical, a);
        let entry = named_ref_exec("WebPage", url.as_str(), jstring(a.frontmatter.title.as_str()));
        let ghost ev = entry.view();
        let mut m: Vec<(String, Json)> = Vec::new();
        put(&mut m, "@type", jstring("ListItem"));
        put(&mut m, "@id", jstring(id.as_str()));
        put(&mut m, "url", jstring(id.as_str()));
        assert(k < arts@.len());
        put(&mut m, "position", jnumber(k as u64 + 1));
        put(&mut m, "item", entry);
        assert(entry_views(m@) =~= recent_item(canonical@, (k + 1) as nat, *a)->Obj_0);
        push_item(&mut items, obj(m));
        assert(views(items@) =~= recent_items(canonical@, arts@.take(k + 1)));
        k += 1;
    }
    assert(arts@.take(arts@.len() as int) =~= arts@);
    let blog = root_id(canonical, "blog");
    let mut m: Vec<(String, Json)> = Vec::new();
    put(&mut m, "@type", jstring("WebPageElement"));
    put(&mut m, "@id", jstring(blog.as_str()));
    put(&mut m, "url", jstring(blog.as_str()));
    put(&mut m, "name", jstring(label(content, "recent")));
    put(&mut m, "isPartOf", id_ref(root_id(canonical, "page").as_str()));
    put(
        &mut m,
        "mainEntity",
        item_list_exec(
            root_id(canonical, "blog-articles").as_str(),
            jstring(label(content, "recent")),
            items,
        ),
    );
    assert(entry_views(m@) =~= spec_blog_element(c, arts@)->Obj_0);
    obj(m)
}

/// The graph of the home page.
pub fn home_graph(content: &Json, recent_articles: &[Article]) -> (r: Json)
    ensures
        r.view() == spec_home_graph(content.view(), recent_articles@),
{
    let ghost c = content.view();
    let mut nodes: Vec<Json> = Vec::new();
    push_item(&mut nodes, person_node(content));
    push_item(&mut nodes, website_node(content));
    push_item(&mut nodes, profile_page(content));
    push_item(&mut nodes, links_element(content));
    if recent_articles.len() > 0 {
        push_item(&mut nodes, blog_element(content, recent_articles));
    }
    assert(views(nodes@) =~= spec_home_graph(c, recent_articles@)->Obj_0[1].1->Arr_0);
    graph_doc_exec(nodes)
}

// ---------------------------------------------------------------------------
// Article pages
// ---------------------------------------------------------------------------
/// `parts` joined with `sep`.
pub open spec fn join_with(parts: Seq<Seq<char>>, sep: Seq<char>) -> Seq<char>
    decreases parts.len(),
{
    if parts.len() == 0 {
        seq![]
    } else if parts.len() == 1 {
        parts[0]
    } else {
        join_with(parts.drop_last(), sep) + sep + parts.last()
    }
}

/// The keywords of an article: the display names of its tags, joined with `, `.
pub open spec fn keywords_of(c: JsonV, tags: Seq<String>) -> Seq<char> {
    join_with(Seq::new(tags.len(), |i: int| spec_tag_display(c, tags[i]@)), ", "@)
}

/// The identifier of a fragment of an article's page.
pub open spec fn article_id(c: JsonV, a: Article, fragment: Seq<char>) -> Seq<char> {
    spec_id(spec_canonical_of(c), "/blog/"@ + a.slug@ + "/"@, fragment)
}

/// An article's page node; it names its table of contents when it has one.
pub open spec fn spec_article_page_node(c: JsonV, a: Article) -> JsonV {
    let fm = a.frontmatter;
    JsonV::Obj(
        seq![
            ("@type"@, text("WebPage"@)),
            ("@id"@, text(article_id(c, a, "page"@))),
            ("url"@, text(article_id(c, a, "page"@))),
            ("name"@, text(fm.title@)),
            ("description"@, text(fm.description@)),
            ("inLanguage"@, text(crate::articles::spec_lang(fm))),
            ("isPartOf"@, jref(spec_root_id(spec_canonical_of(c), "web"@))),
            ("breadcrumb"@, jref(article_id(c, a, "breadcrumb"@))),
            ("mainEntity"@, jref(article_id(c, a, "article"@))),
            ("datePublished"@, text(crate::dates::spec_utc_rfc3339(fm.date_published))),
            ("dateModified"@, text(a.modified_atom@)),
        ] + if a.toc@.len() > 0 {
            seq![("hasPart"@, JsonV::Arr(seq![jref(article_id(c, a, "toc"@))]))]
        } else {
            seq![]
        },
    )
}

/// An article's posting node; it carries keywords when the article has tags.
pub open spec fn spec_blog_posting(c: JsonV, a: Article) -> JsonV {
    let fm = a.frontmatter;
    let person = spec_root_id(spec_canonical_of(c), "person"@);
    JsonV::Obj(
        seq![
            ("@type"@, text("BlogPosting"@)),
            ("@id"@, text(article_id(c, a, "article"@))),
            ("url"@, text(article_id(c, a, "article"@))),
            ("headline"@, text(fm.title@)),
            ("description"@, text(fm.description@)),
            ("inLanguage"@, text(crate::articles::spec_lang(fm))),
            ("isPartOf"@, jref(article_id(c, a, "page"@))),
            ("mainEntityOfPage"@, jref(article_id(c, a, "page"@))),
            ("author"@, jref(person)),
            ("publisher"@, jref(person)),
            ("datePublished"@, text(crate::dates::spec_utc_rfc3339(fm.date_published))),
            ("dateModified"@, text(a.modified_atom@)),
        ] + if crate::articles::spec_tags(fm).len() > 0 {
            seq![("keywords"@, text(keywords_of(c, crate::articles::spec_tags(fm))))]
        } else {
            seq![]
        },
    )
}

/// The entries of an article's table of contents: its headings, anchored in the page.
pub open spec fn toc_entries(c: JsonV, a: Article) -> Seq<JsonV> {
    Seq::new(
        a.toc@.len(),
        |i: int|
            named_ref("WebPageElement"@, article_id(c, a, a.toc@[i].id@), text(a.toc@[i].text@)),
    )
}

/// The table of contents of an article.
pub open spec fn spec_toc_element(c: JsonV, a: Article) -> JsonV {
    JsonV::Obj(
        seq![
            ("@type"@, JsonV::Arr(seq![text("SiteNavigationElement"@), text("WebPageElement"@)])),
            ("@id"@, text(article_id(c, a, "toc"@))),
            ("url"@, text(article_id(c, a, "toc"@))),
            ("name"@, text(spec_label(c, "toc"@))),
            ("isPartOf"@, jref(article_id(c, a, "page"@))),
            ("mainEntity"@, item_list(
                article_id(c, a, "toc-list"@),
                text(spec_label(c, "toc_list"@)),
                list_items(toc_entries(c, a)),
            )),
        ],
    )
}

/// The breadcrumb of an article: home, blog, the article.
pub open spec fn spec_article_crumbs(c: JsonV, a: Article) -> JsonV {
    crumbs(
        article_id(c, a, "breadcrumb"@),
        list_items(
            seq![
                home_crumb(c),
                blog_crumb(c),
                named_ref("WebPage"@, article_id(c, a, "article"@), text(a.frontmatter.title@)),
            ],
        ),
    )
}

/// The graph of an article's page; the table of contents appears when it has headings.
pub open spec fn spec_article_graph(c: JsonV, a: Article) -> JsonV {
    graph_doc(
        seq![
            spec_person_node(c),
            spec_website_node(c),
            spec_blog_node(c),
            spec_article_page_node(c, a),
            spec_blog_posting(c, a),
            spec_article_crumbs(c, a),
        ] + if a.toc@.len() > 0 {
            seq![spec_toc_element(c, a)]
        } else {
            seq![]
        },
    )
}

/// The keywords of an article.
fn keywords_exec(content: &Json, tags: &[String]) -> (r: String)
    ensures
        r@ == keywords_of(content.view(), tags@),
{
    let ghost c = content.view();
    let ghost names = Seq::new(tags@.len(), |i: int| spec_tag_display(c, tags@[i]@));
    let mut out = String::new();
    let mut k: usize = 0;
    while k < tags.len()
        invariant
            k <= tags@.len(),
            c == content.view(),
            names == Seq::new(tags@.len(), |i: int| spec_tag_display(c, tags@[i]@)),
            out@ == join_with(names.take(k as int), ", "@),
        decreases tags.len() - k,
    {
        let ghost before = out@;
        if k > 0 {
            push_str(&mut out, ", ");
        }
        let d = tag_display(content, tags[k].as_str());
        push_str(&mut out, d.as_str());
        proof {
            assert(names.take(k + 1).drop_last() == names.take(k as int));
            assert(names.take(k + 1).last() == names[k as int]);
            if k == 0 {
                assert(out@ =~= names[0]);
            }
        }
        k += 1;
    }
    assert(names.take(tags@.len() as int) == names);
    out
}

/// An article's page node.
fn article_page_node(content: &Json, a: &Article) -> (r: Json)
    requires
        crate::dates::spec_is_offset_datetime(a.frontmatter.date_published),
    ensures
        r.view() == spec_article_page_node(content.view(), *a),
{
    let ghost c = content.view();
    let canonical = canonical_of(content);
    let path = a.url();
    let page = page_id(canonical, path.as_str(), "page");
    let mut m: Vec<(String, Json)> = Vec::new();
    put(&mut m, "@type", jstring("WebPage"));
    put(&mut m, "@id", jstring(page.as_str()));
    put(&mut m, "url", jstring(page.as_str()));
    put(&mut m, "name", jstring(a.frontmatter.title.as_str()));
    put(&mut m, "description", jstring(a.frontmatter.description.as_str()));
    put(&mut m, "inLanguage", jstring(a.lang()));
    put(&mut m, "isPartOf", id_ref(root_id(canonical, "web").as_str()));
    put(&mut m, "breadcrumb", id_ref(page_id(canonical, path.as_str(), "breadcrumb").as_str()));
    put(&mut m, "mainEntity", id_ref(page_id(canonical, path.as_str(), "article").as_str()));
    put(&mut m, "datePublished", jstring(a.date_atom().as_str()));
    put(&mut m, "dateModified", jstring(a.modified_atom.as_str()));
    if a.toc.len() > 0 {
        let mut parts: Vec<Json> = Vec::new();
        push_item(&mut parts, id_ref(page_id(canonical, path.as_str(), "toc").as_str()));
        assert(views(parts@) =~= seq![jref(article_id(c, *a, "toc"@))]);
        put(&mut m, "hasPart", arr(parts));
    }
    assert(entry_views(m@) =~= spec_article_page_node(c, *a)->Obj_0);
    obj(m)
}

/// An article's posting node.
fn blog_posting(content: &Json, a: &Article) -> (r: Json)
    requires
        crate::dates::spec_is_offset_datetime(a.frontmatter.date_published),
    ensures
        r.view() == spec_blog_posting(content.view(), *a),
{
    let ghost c = content.view();
    let canonical = canonical_of(content);
    let path = a.url();
    let article = page_id(canonical, path.as_str(), "article");
    let page = page_id(canonical, path.as_str(), "page");
    let person = root_id(canonical, crate::routes::SLICE_PERSON);
    let mut m: Vec<(String, Json)> = Vec::new();
    put(&mut m, "@type", jstring("BlogPosting"));
    put(&mut m, "@id", jstring(article.as_str()));
    put(&mut m, "url", jstring(article.as_str()));
    put(&mut m, "headline", jstring(a.frontmatter.title.as_str()));
    put(&mut m, "description", jstring(a.frontmatter.description.as_str()));
    put(&mut m, "inLanguage", jstring(a.lang()));
    put(&mut m, "isPartOf", id_ref(page.as_str()));
    put(&mut m, "mainEntityOfPage", id_ref(page.as_str()));
    put(&mut m, "author", id_ref(person.as_str()));
    put(&mut m, "publisher", id_ref(person.as_str()));
    put(&mut m, "datePublished", jstring(a.date_atom().as_str()));
    put(&mut m, "dateModified", jstring(a.modified_atom.as_str()));
    let tags = a.tags();
    if tags.len() > 0 {
        let k = keywords_exec(content, tags);
        put(&mut m, "keywords", jstring(k.as_str()));
    }
    proof {
        reveal_strlit("person");
    }
    assert(entry_views(m@) =~= spec_blog_posting(c, *a)->Obj_0);
    obj(m)
}

/// The table of contents of an article.
fn toc_element(content: &Json, a: &Article) -> (r: Json)
    ensures
        r.view() == spec_toc_element(content.view(), *a),
{
    let ghost c = content.view();
    let canonical = canonical_of(content);
    let path = a.url();
    let mut entries: Vec<Json> = Vec::new();
    let mut k: usize = 0;
    while k < a.toc.len()
        invariant
            k <= a.toc@.len(),
            c == content.view(),
            canonical@ == spec_canonical_of(c),
            path@ == "/blog/"@ + a.slug@ + "/"@,
            views(entries@) == toc_entries(c, *a).take(k as int),
        decreases a.toc.len() - k,
    {
        let item = &a.toc[k];
        let id = page_id(canonical, path.as_str(), item.id.as_str());
        push_item(&mut entries, named_ref_exec("WebPageElement", id.as_str(), jstring(item.text.as_str())));
        assert(views(entries@) =~= toc_entries(c, *a).take(k + 1));
        k += 1;
    }
    assert(toc_entries(c, *a).take(a.toc@.len() as int) =~= toc_entries(c, *a));
    let items = list_items_exec(entries);
    let toc = page_id(canonical, path.as_str(), "toc");
    let mut m: Vec<(String, Json)> = Vec::new();
    put(&mut m, "@type", two_types("SiteNavigationElement", "WebPageElement"));
    put(&mut m, "@id", jstring(toc.as_str()));
    put(&mut m, "url", jstring(toc.as_str()));
    put(&mut m, "name", jstring(label(content, "toc")));
    put(&mut m, "isPartOf", id_ref(page_id(canonical, path.as_str(), "page").as_str()));
    put(
        &mut m,
        "mainEntity",
        item_list_exec(
            page_id(canonical, path.as_str(), "toc-list").as_str(),
            jstring(label(content, "toc_list")),
            items,
        ),
    );
    assert(entry_views(m@) =~= spec_toc_element(c, *a)->Obj_0);
    obj(m)
}

/// The breadcrumb of an article.
fn article_crumbs(content: &Json, a: &Article) -> (r: Json)
    ensures
        r.view() == spec_article_crumbs(content.view(), *a),
{
    let ghost c = content.view();
    let canonical = canonical_of(content);
    let path = a.url();
    let article = page_id(canonical, path.as_str(), "article");
    let mut entries: Vec<Json> = Vec::new();
    push_item(&mut entries, home_crumb_exec(content));
    push_item(&mut entries, blog_crumb_exec(content));
    push_item(
        &mut entries,
        named_ref_exec("WebPage", article.as_str(), jstring(a.frontmatter.title.as_str())),
    );
    assert(views(entries@) =~= seq![
        home_crumb(c),
        blog_crumb(c),
        named_ref("WebPage"@, article_id(c, *a, "article"@), text(a.frontmatter.title@)),
    ]);
    let items = list_items_exec(entries);
    crumbs_exec(page_id(canonical, path.as_str(), "breadcrumb").as_str(), items)
}

/// The graph of an article's page.
pub fn article_graph(content: &Json, article: &Article) -> (r: Json)
    requires
        crate::dates::spec_is_offset_datetime(article.frontmatter.date_published),
    ensures
        r.view() == spec_article_graph(content.view(), *article),
{
    let ghost c = content.view();
    let mut nodes: Vec<Json> = Vec::new();
    push_item(&mut nodes, person_node(content));
    push_item(&mut nodes, website_node(content));
    push_item(&mut nodes, blog_node(content));
    push_item(&mut nodes, article_page_node(content, article));
    push_item(&mut nodes, blog_posting(content, article));
    push_item(&mut nodes, article_crumbs(content, article));
    if article.toc.len() > 0 {
        push_item(&mut nodes, toc_element(content, article));
    }
    assert(views(nodes@) =~= spec_article_graph(c, *article)->Obj_0[1].1->Arr_0);
    graph_doc_exec(nodes)
}

// ---------------------------------------------------------------------------
// What the builders promise the audit
// ---------------------------------------------------------------------------
/// The keys the laws below look up differ from the keys before them.
proof fn lemma_key_literals()
    ensures
        "@type"@ != "position"@,
        "@type"@ != "@id"@,
        "@id"@ != "url"@,
        "@type"@ != "url"@,
        "ListItem"@ != "ItemList"@,
{
    reveal_strlit("@type");
    reveal_strlit("position");
    reveal_strlit("@id");
    reveal_strlit("url");
    reveal_strlit("ListItem");
    reveal_strlit("ItemList");
    assert("@type"@.len() == 5 && "@id"@.len() == 3 && "url"@.len() == 3);
    assert("position"@.len() == 8);
    assert("@id"@[1] != "url"@[1]);
    assert("ListItem"@[1] != "ItemList"@[1]);
}

/// Every list the graphs build numbers its items 1, 2, ... in order, so the audit's
/// position check finds nothing in it.
pub proof fn law_built_lists_are_numbered_in_sequence(
    label: Seq<char>,
    node_id: Option<Seq<char>>,
    entries: Seq<JsonV>,
)
    requires
        entries.len() <= u64::MAX,
    ensures
        crate::page_audit::position_issues(label, node_id, list_items(entries), 0) == Seq::<
            crate::audit::IssueV,
        >::empty(),
    decreases entries.len(),
{
    lemma_key_literals();
    if entries.len() > 0 {
        let items = list_items(entries);
        assert(items.drop_last() =~= list_items(entries.drop_last()));
        law_built_lists_are_numbered_in_sequence(label, node_id, entries.drop_last());
        let last = items.last();
        assert(last == list_item(entries.len(), entries.last()));
        reveal_with_fuel(crate::json::lookup_entries, 3);
        assert(jget(last, "position"@) == jnum(entries.len() as u64));
    }
}

/// A node the graphs build with a single type other than `ListItem` points at its own
/// identifier as both identifier and url, so the audit never finds the two apart.
pub proof fn law_built_nodes_point_at_themselves(t: Seq<char>, id: Seq<char>, name: JsonV)
    requires
        t != "ListItem"@,
    ensures
        crate::page_audit::target_of(named_ref(t, id, name)) == (Some(id), Some(id)),
{
    lemma_key_literals();
    reveal_with_fuel(crate::json::lookup_entries, 4);
    let n = named_ref(t, id, name);
    assert(crate::audit::spec_types_of(n) == seq![t]);
    assert(!crate::audit::has_any(seq![t], seq!["ListItem"@])) by {
        if crate::audit::has_any(seq![t], seq!["ListItem"@]) {
            assert(seq!["ListItem"@].contains(seq![t][0]));
            let j = choose|j: int| 0 <= j < 1 && seq!["ListItem"@][j] == t;
            assert(j == 0);
        }
    }
    assert(crate::audit::member_str(n, "@id"@) == Some(id));
    assert(crate::audit::member_str(n, "url"@) == Some(id));
}

/// Looking a key up in a list of members finds the first member with that key.
proof fn lemma_lookup_first(m: Seq<(Seq<char>, JsonV)>, k: Seq<char>, i: int)
    requires
        0 <= i < m.len(),
        m[i].0 == k,
        forall|j: int| 0 <= j < i ==> (#[trigger] m[j]).0.len() != k.len(),
    ensures
        crate::json::lookup_entries(m, k) == Some(m[i].1),
    decreases i,
{
    if i > 0 {
        assert(m[0].0 != k);
        let rest = m.drop_first();
        assert forall|j: int| 0 <= j < i - 1 implies (#[trigger] rest[j]).0.len() != k.len() by {
            assert(rest[j] == m[j + 1]);
        }
        lemma_lookup_first(rest, k, i - 1);
    }
}

/// An article's `BlogPosting` is dated by its publication date, in UTC: its
/// `datePublished` is the RFC 3339 UTC form of the front matter's `datePublished`,
/// whatever its modification date.
pub proof fn law_posting_is_dated_by_publication(c: JsonV, a: Article)
    ensures
        jget(spec_blog_posting(c, a), "datePublished"@) == JsonV::Str(
            crate::dates::spec_utc_rfc3339(a.frontmatter.date_published),
        ),
{
    reveal_strlit("@type");
    reveal_strlit("@id");
    reveal_strlit("url");
    reveal_strlit("headline");
    reveal_strlit("description");
    reveal_strlit("inLanguage");
    reveal_strlit("isPartOf");
    reveal_strlit("mainEntityOfPage");
    reveal_strlit("author");
    reveal_strlit("publisher");
    reveal_strlit("datePublished");
    let n = spec_blog_posting(c, a);
    match n {
        JsonV::Obj(m) => {
            assert(m[10] == ("datePublished"@, text(crate::dates::spec_utc_rfc3339(a.frontmatter.date_published))));
            lemma_lookup_first(m, "datePublished"@, 10);
        },
        _ => {},
    }
}

/// The site owner's `Person` node takes its given name from the first word of the
/// owner's name and its family name from the second, each empty where the name has no
/// such word.
pub proof fn law_person_names_are_the_first_two_words(c: JsonV)
    ensures
        ({
            let w = words(jstr_or(jget2(c, "person"@, "name"@), ""@));
            &&& jget(spec_person_node(c), "givenName"@) == JsonV::Str(
                if w.len() > 0 { w[0] } else { ""@ },
            )
            &&& jget(spec_person_node(c), "familyName"@) == JsonV::Str(
                if w.len() > 1 { w[1] } else { ""@ },
            )
        }),
{
    reveal_strlit("@type");
    reveal_strlit("@id");
    reveal_strlit("url");
    reveal_strlit("name");
    reveal_strlit("givenName");
    reveal_strlit("familyName");
    match spec_person_node(c) {
        JsonV::Obj(m) => {
            lemma_lookup_first(m, "givenName"@, 4);
            lemma_lookup_first(m, "familyName"@, 5);
        },
        _ => {},
    }
}

} // verus!
