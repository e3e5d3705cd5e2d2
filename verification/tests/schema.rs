use serde_json::Value;
use sitegen::articles::{new_article, FrontMatter};
use sitegen::dates::{Date, Datetime, Offset, Time};
use sitegen::markdown::{Rendered, TocItem};
use sitegen::audit::{audit_report, ld_json_blocks, types_of, AuditIssue};
use sitegen::html::element_ids;
use sitegen::json::Json;
use sitegen::page_audit::{audit_page, collect_graph};
use sitegen::schema::{
    article_graph, blog_index_graph, home_graph, person_node, tag_graph, tags_index_graph,
    website_node,
};

const CANONICAL: &str = "https://example.com";

fn page_id() -> String {
    format!("{CANONICAL}/a/#page")
}

fn article_id() -> String {
    format!("{CANONICAL}/a/#article")
}

fn crumbs_id() -> String {
    format!("{CANONICAL}/a/#crumbs")
}

fn person_id() -> String {
    format!("{CANONICAL}/#person")
}

fn web_id() -> String {
    format!("{CANONICAL}/#web")
}

fn to_json(v: &Value) -> Json {
    match v {
        Value::Null => Json::Null,
        Value::Bool(b) => Json::Bool(*b),
        Value::Number(n) => Json::Num(n.to_string(), n.as_u64()),
        Value::String(s) => Json::Str(s.clone()),
        Value::Array(a) => Json::Arr(a.iter().map(to_json).collect()),
        Value::Object(m) => Json::Obj(m.iter().map(|(k, v)| (k.clone(), to_json(v))).collect()),
    }
}

fn from_json(j: &Json) -> Value {
    match j {
        Json::Null => Value::Null,
        Json::Bool(b) => Value::Bool(*b),
        Json::Num(_, Some(n)) => Value::from(*n),
        Json::Num(t, None) => serde_json::from_str(t).unwrap(),
        Json::Str(s) => Value::String(s.clone()),
        Json::Arr(a) => Value::Array(a.iter().map(from_json).collect()),
        Json::Obj(m) => Value::Object(m.iter().map(|(k, v)| (k.clone(), from_json(v))).collect()),
    }
}

fn parse(text: &str) -> Json {
    to_json(&serde_json::from_str::<Value>(text).unwrap())
}

fn label_content() -> Json {
    parse(&format!(
        r#"{{
            "person": {{
                "name": "Someone",
                "email": "a@b.c",
                "description": "Person desc",
                "links": [ {{ "title": "Github", "href": "https://github.com/x" }} ]
            }},
            "website": {{
                "canonical": "{CANONICAL}",
                "lang": "de",
                "note": "Note text",
                "tags": {{ "graphtheory": "Graph theory" }},
                "titles": {{ "home": "Start" }},
                "descriptions": {{ "home": "Home desc" }},
                "labels": {{
                    "home": "Start", "blog": "Journal", "tags": "Topics",
                    "links": "Connections", "recent": "Fresh writing", "articles": "Entries",
                    "toc": "On this page",
                    "toc_list": "Table of contents"
                }}
            }}
        }}"#
    ))
}

#[test]
fn collects_ld_json_blocks_and_ids() {
    let html = format!(
        r#"<script type="application/ld+json">{{"@context":"https://schema.org","@graph":[{{"@type":"WebPage","@id":"{}","url":"{}"}}]}}</script><main id=page></main>"#,
        page_id(),
        page_id()
    );
    assert_eq!(ld_json_blocks(&html).0.len(), 1);
    let nodes = collect_graph(&html).unwrap();
    assert_eq!(nodes.len(), 1);
    assert_eq!(element_ids(&html).iter().filter(|id| id.as_str() == "page").count(), 1);
}

#[test]
fn graph_names_follow_content_labels_and_lang() {
    let content = label_content();

    let home = from_json(&home_graph(&content, &[])).to_string();
    assert!(home.contains("\"name\":\"Connections\""));
    assert!(!home.contains("Contacts"));
    assert!(home.contains("\"inLanguage\":\"de\""));

    let blog = from_json(&blog_index_graph(&content, &[], "Blog desc")).to_string();
    assert!(blog.contains("\"name\":\"Journal\""));
    assert!(blog.contains("\"name\":\"Entries\""));
    assert!(blog.contains("\"name\":\"Start\""));

    let tag = from_json(&tag_graph(&content, "graphtheory", "graphtheory", &[], "Tag desc")).to_string();
    assert!(tag.contains("\"name\":\"Graph theory\""));
    assert!(tag.contains("\"name\":\"Graph theory\""));
    assert!(!tag.contains("Entries tagged"));
    assert!(!tag.contains("#Graph theory"));

    let hub = from_json(&tags_index_graph(&content, &[], "Hub desc")).to_string();
    assert!(hub.contains("\"name\":\"Topics\""));
}

#[test]
fn person_node_splits_the_name_and_collects_links() {
    let content = label_content();
    let person = from_json(&person_node(&content));
    assert_eq!(person["@id"], "https://example.com/#person");
    assert_eq!(person["url"], "https://example.com/#person");
    assert_eq!(person["givenName"], "Someone");
    assert_eq!(person["familyName"], "");
    assert_eq!(person["email"], "mailto:a@b.c");
    assert_eq!(person["description"], "Person desc");
    assert_eq!(person["sameAs"], serde_json::from_str::<Value>(r#"["https://github.com/x"]"#).unwrap());
}

#[test]
fn website_node_points_at_the_publisher() {
    let content = label_content();
    let site = from_json(&website_node(&content));
    assert_eq!(site["@type"], "WebSite");
    assert_eq!(site["@id"], "https://example.com/#web");
    assert_eq!(site["url"], CANONICAL);
    assert_eq!(site["name"], "Start");
    assert_eq!(site["description"], Value::Null);
    assert_eq!(site["publisher"]["@id"], "https://example.com/#person");
}

#[test]
fn home_graph_numbers_link_items_and_anchors_lowercased_titles() {
    let content = label_content();
    let home = from_json(&home_graph(&content, &[]));
    let graph = home["@graph"].as_array().unwrap();
    assert_eq!(graph.len(), 4);
    let list = &graph[3]["mainEntity"];
    assert_eq!(list["numberOfItems"], 1);
    assert_eq!(list["itemListElement"][0]["position"], 1);
    assert_eq!(list["itemListElement"][0]["item"]["@id"], "https://example.com/#link-github");
}

#[test]
fn built_graphs_pass_the_position_check() {
    let content = label_content();
    let hub = tags_index_graph(&content, &[], "Hub desc");
    let doc = from_json(&hub).to_string();
    let html = format!(
        r#"<html lang=de><main id=page><ul id=tags aria-label=Topics></ul><nav id=breadcrumb></nav><meta name=description content="Hub desc"><meta property=og:description content="Hub desc"><script type="application/ld+json">{doc}</script></html>"#
    );
    let issues = audit_page(CANONICAL, "/blog/tags/", &html).err().unwrap_or_default();
    assert!(!issues.iter().any(|i| i.message.contains("not the sequential")), "{issues:?}");
    assert!(!issues.iter().any(|i| i.message.contains("does not match url")), "{issues:?}");
}

#[test]
fn types_of_reads_strings_and_arrays() {
    let one = parse(r#"{"@type": "WebPage"}"#);
    assert_eq!(types_of(&one), ["WebPage".to_owned()]);
    let two = parse(r#"{"@type": ["Blog", 3, "WebPage"]}"#);
    assert_eq!(types_of(&two), ["Blog".to_owned(), "WebPage".to_owned()]);
    let none = parse(r#"{"name": "x"}"#);
    assert!(types_of(&none).is_empty());
}

#[test]
fn audit_accepts_a_coherent_article_graph() {
    let graph = format!(
        r#"{{"@context":"https://schema.org","@graph":[
            {{"@type":"WebPage","@id":"{p}","url":"{p}","mainEntity":{{"@id":"{a}"}},"breadcrumb":{{"@id":"{c}"}}}},
            {{"@type":"BlogPosting","@id":"{a}","url":"{a}","author":{{"@id":"{person}"}}}},
            {{"@type":"Person","@id":"{person}","url":"{person}","name":"Someone"}},
            {{"@type":"WebSite","@id":"{web}","url":"{CANONICAL}","name":"Site"}},
            {{"@type":"BreadcrumbList","@id":"{c}","url":"{c}","itemListElement":[
                {{"@type":"ListItem","position":1,"item":{{"@id":"{CANONICAL}","url":"{CANONICAL}","name":"Home"}}}},
                {{"@type":"ListItem","position":2,"item":{{"@id":"{a}","url":"{a}","name":"A"}}}}
            ]}}
        ]}}"#,
        p = page_id(),
        a = article_id(),
        c = crumbs_id(),
        person = person_id(),
        web = web_id()
    );
    let html = format!(
        r#"<html><main id=page tabindex=-1><article id=article></article><nav id=toc aria-label="Table of contents"><ul id=toc-list><li id=intro><a href=#page>Intro</a></li></ul></nav><nav id=crumbs aria-label=Breadcrumb></nav><section id=person>Someone</section><script type="application/ld+json">{graph}</script></html>"#
    );
    match audit_page(CANONICAL, "/a/", &html) {
        Ok(()) => {}
        Err(issues) => panic!("coherent graph must pass: {issues:?}"),
    }
}

#[test]
fn audit_flags_dangling_reference() {
    let graph = format!(
        r#"{{"@graph":[{{"@type":"BlogPosting","@id":"{a}","url":"{a}","author":{{"@id":"{person}"}}}}]}}"#,
        a = article_id(),
        person = person_id()
    );
    let html = format!(
        r#"<main id=page><article id=article></article><script type="application/ld+json">{graph}</script>"#
    );
    let issues = audit_page(CANONICAL, "/a/", &html).unwrap_err();
    assert!(issues.iter().any(|i| i.message.contains("not defined")), "{issues:?}");
}

#[test]
fn audit_flags_ungrounded_fragment() {
    let missing = format!("{CANONICAL}/a/#missing");
    let graph = format!(r#"{{"@type":"WebPage","@id":"{missing}","url":"{missing}"}}"#);
    let html = format!(r#"<main id=page><script type="application/ld+json">{graph}</script>"#);
    let issues = audit_page(CANONICAL, "/a/", &html).unwrap_err();
    assert!(issues.iter().any(|i| i.message.contains("no element with id")), "{issues:?}");
}

#[test]
fn audit_flags_id_url_mismatch_and_positions() {
    let other = format!("{CANONICAL}/a/#other");
    let graph = format!(
        r#"{{"@type":"BreadcrumbList","@id":"{c}","url":"{other}","itemListElement":[{{"@type":"ListItem","position":2}}]}}"#,
        c = crumbs_id()
    );
    let html = format!(
        r#"<main id=page><nav id=crumbs></nav><script type="application/ld+json">{graph}</script>"#
    );
    let issues = audit_page(CANONICAL, "/a/", &html).unwrap_err();
    assert!(issues.iter().any(|i| i.message.contains("does not match")), "{issues:?}");
    assert!(issues.iter().any(|i| i.message.contains("not the sequential")), "{issues:?}");
}

#[test]
fn audit_flags_clean_internal_links_and_dangling_self_fragments() {
    let html = r##"<main id=page><a href="/blog/">clean</a><a href="#missing">self</a><a href="/llms.txt">file</a><a href="https://example.com/external/">ext</a></main>"##;
    let issues = audit_page(CANONICAL, "/a/", html).unwrap_err();
    assert!(
        issues.iter().any(|i| i.message.contains("internal link \"/blog/\" carries no fragment")),
        "{issues:?}"
    );
    assert!(
        issues
            .iter()
            .any(|i| i.message.contains("same-page link \"#missing\" resolves to no element")),
        "{issues:?}"
    );
    assert!(!issues.iter().any(|i| i.message.contains("/llms.txt")), "{issues:?}");
    assert!(!issues.iter().any(|i| i.message.contains("external")), "{issues:?}");
}

#[test]
fn audit_flags_root_fragment_without_slash() {
    let bare_root = format!("{CANONICAL}#page");
    let graph = format!(r#"{{"@type":"WebPage","@id":"{bare_root}","url":"{bare_root}"}}"#);
    let html = format!(r#"<main id=page><script type="application/ld+json">{graph}</script>"#);
    let issues = audit_page(CANONICAL, "/", &html).unwrap_err();
    assert!(
        issues.iter().any(|i| i.message.contains("must end with / before the #fragment")),
        "{issues:?}"
    );
}

#[test]
fn audit_flags_meta_description_divergence() {
    let graph = format!(
        r#"{{"@graph":[
            {{"@type":"WebPage","@id":"{p}","url":"{p}","description":"Graph description","mainEntity":{{"@id":"{a}"}},"breadcrumb":{{"@id":"{c}"}}}},
            {{"@type":"BreadcrumbList","@id":"{c}","url":"{c}","itemListElement":[
                {{"@type":"ListItem","position":1,"item":{{"@id":"{CANONICAL}","url":"{CANONICAL}","name":"Home"}}}},
                {{"@type":"ListItem","position":2,"item":{{"@id":"{a}","url":"{a}","name":"A"}}}}
            ]}}
        ]}}"#,
        p = page_id(),
        a = article_id(),
        c = crumbs_id()
    );
    let html = format!(
        r#"<html><main id=page><article id=article></article><nav id=crumbs></nav><meta name=description content=Different><meta property=og:description content="Graph description"><script type="application/ld+json">{graph}</script></html>"#
    );
    let issues = audit_page(CANONICAL, "/a/", &html).unwrap_err();
    assert!(
        issues.iter().any(|i| i
            .message
            .contains("description meta \"Different\" does not match the graph description")),
        "{issues:?}"
    );
}

#[test]
fn audit_flags_list_label_and_count_divergence() {
    let list_id = format!("{CANONICAL}/a/#articles");
    let graph = format!(
        r#"{{"@type":"ItemList","@id":"{list_id}","url":"{list_id}","name":"Articles","numberOfItems":3}}"#
    );
    let html = format!(
        r#"<main id=page><ul id=articles aria-label=Wrong><li>one</li></ul><script type="application/ld+json">{graph}</script>"#
    );
    let issues = audit_page(CANONICAL, "/a/", &html).unwrap_err();
    assert!(
        issues.iter().any(|i| i.message.contains("does not match the accessible name \"Wrong\"")),
        "{issues:?}"
    );
    assert!(
        issues
            .iter()
            .any(|i| i.message.contains("numberOfItems 3 does not match the 1 li children")),
        "{issues:?}"
    );
}

#[test]
fn audit_resolves_list_names_through_aria_labelledby() {
    let list_id = format!("{CANONICAL}/a/#articles");
    let graph = format!(
        r#"{{"@graph":[{{"@type":"ItemList","@id":"{list_id}","url":"{list_id}","name":"Graph theory","numberOfItems":1}}]}}"#
    );
    let html = format!(
        r#"<main id=page><h1 id=tag-title>Graph theory</h1><ul id=articles aria-labelledby="tag-title"><li>one</li></ul><script type="application/ld+json">{graph}</script>"#
    );
    assert!(
        audit_page(CANONICAL, "/a/", &html).is_ok(),
        "labelledby-resolved name must satisfy the ItemList check"
    );

    let graph = format!(
        r#"{{"@graph":[{{"@type":"ItemList","@id":"{list_id}","url":"{list_id}","name":"Something else","numberOfItems":1}}]}}"#
    );
    let html = format!(
        r#"<main id=page><h1 id=tag-title>Graph theory</h1><ul id=articles aria-labelledby="tag-title"><li>one</li></ul><script type="application/ld+json">{graph}</script>"#
    );
    let issues = audit_page(CANONICAL, "/a/", &html).unwrap_err();
    assert!(
        issues
            .iter()
            .any(|i| i.message.contains("does not match the accessible name \"Graph theory\"")),
        "{issues:?}"
    );
}

#[test]
fn audit_flags_breadcrumb_main_entity_mismatch() {
    let graph = format!(
        r#"{{"@graph":[
            {{"@type":"WebPage","@id":"{p}","url":"{p}","mainEntity":{{"@id":"{a}"}}}},
            {{"@type":"BreadcrumbList","@id":"{c}","url":"{c}","itemListElement":[
                {{"@type":"ListItem","position":1,"item":{{"@id":"{CANONICAL}","url":"{CANONICAL}","name":"Home"}}}},
                {{"@type":"ListItem","position":2,"item":{{"@id":"{p}","url":"{p}","name":"A"}}}}
            ]}}
        ]}}"#,
        p = page_id(),
        a = article_id(),
        c = crumbs_id()
    );
    let html = format!(
        r#"<main id=page><article id=article></article><nav id=crumbs></nav><script type="application/ld+json">{graph}</script>"#
    );
    let issues = audit_page(CANONICAL, "/a/", &html).unwrap_err();
    assert!(
        issues.iter().any(|i| i.message.contains("does not match the mainEntity anchor")),
        "{issues:?}"
    );
}

#[test]
fn audit_reports_unparsable_and_unframed_blocks() {
    let html = r#"<script type="application/ld+json">{not json</script>"#;
    let issues = audit_page(CANONICAL, "/a/", html).unwrap_err();
    assert_eq!(issues.len(), 1);
    assert_eq!(issues[0].node_type, "document");
    assert!(issues[0].id.is_none());
    assert!(issues[0].message.starts_with("ld+json block does not parse: "), "{issues:?}");

    let html = r#"<main id=page><script type="application/ld+json">{}"#;
    let issues = audit_page(CANONICAL, "/a/", html).unwrap_err();
    assert_eq!(issues[0].message, "unterminated ld+json script block");

    let html = r#"<main id=page><script type="application/ld+json""#;
    let issues = audit_page(CANONICAL, "/a/", html).unwrap_err();
    assert_eq!(issues[0].message, "unterminated script tag");
}

#[test]
fn audit_checks_language_and_keywords() {
    let graph = format!(
        r#"{{"@graph":[
            {{"@type":"WebPage","@id":"{p}","url":"{p}","inLanguage":"de"}},
            {{"@type":"BlogPosting","@id":"{a}","url":"{a}","keywords":"rust, web"}}
        ]}}"#,
        p = page_id(),
        a = article_id()
    );
    let html = format!(
        r#"<html lang=en><main id=page><article id=article></article><meta property=og:locale content=fr_FR><meta property=article:tag content=" web "><meta property=article:tag content=go><script type="application/ld+json">{graph}</script></html>"#
    );
    let issues = audit_page(CANONICAL, "/a/", &html).unwrap_err();
    let messages: Vec<&str> = issues.iter().map(|i| i.message.as_str()).collect();
    assert!(messages.contains(&"inLanguage \"de\" does not match the html lang \"en\""), "{issues:?}");
    assert!(messages.contains(&"og:locale \"fr_FR\" does not agree with inLanguage \"de\""), "{issues:?}");
    assert!(
        messages.contains(
            &"article:tag metas [\"go\", \"web\"] do not match the keywords entries [\"rust\", \"web\"]"
        ),
        "{issues:?}"
    );
}

#[test]
fn audit_report_lists_one_line_per_issue() {
    let issues = vec![
        AuditIssue::new("link", Some("#x".to_owned()), "m1".to_owned()),
        AuditIssue::new("document", None, "m2".to_owned()),
    ];
    assert_eq!(
        audit_report("/a/", &issues),
        "schema audit failed for /a/: link #x: m1\nschema audit failed for /a/: document <no id>: m2"
    );
    assert_eq!(audit_report("/a/", &[]), "");
}

#[test]
fn article_graph_carries_keywords_and_dates() {
    let when = Datetime {
        date: Some(Date { year: 2026, month: 9, day: 4 }),
        time: Some(Time { hour: 8, minute: 0, second: Some(0), nanosecond: None }),
        offset: Some(Offset::Custom { minutes: 180 }),
    };
    let fm = FrontMatter {
        title: "T".to_owned(),
        description: "D".to_owned(),
        date_published: when,
        date_modified: when,
        tags: Some(vec!["graphtheory".to_owned(), "rust".to_owned()]),
        lang: Some("de".to_owned()),
        draft: None,
    };
    let toc = vec![TocItem { level: 2, text: "Intro".to_owned(), id: "intro".to_owned() }];
    let rendered = Rendered { html: String::new(), toc, diagrams: Vec::new() };
    let a = new_article("light".to_owned(), fm, "x", rendered);
    let content = label_content();
    let g = from_json(&article_graph(&content, &a));
    let graph = g["@graph"].as_array().unwrap();
    assert_eq!(graph.len(), 7);
    let posting = &graph[4];
    assert_eq!(posting["keywords"], "Graph theory, rust");
    assert_eq!(posting["datePublished"], "2026-09-04T05:00:00Z");
    assert_eq!(posting["@id"], "https://example.com/blog/light/#article");
    assert_eq!(graph[3]["hasPart"][0]["@id"], "https://example.com/blog/light/#toc");
    assert_eq!(graph[6]["mainEntity"]["itemListElement"][0]["item"]["@id"], "https://example.com/blog/light/#intro");
}

#[test]
fn blocks_that_do_not_parse_are_reported_from_the_page() {
    let html = r#"<script type="application/ld+json">[1, {"a": null}]</script><script type="application/ld+json">{x}</script>"#;
    let err = collect_graph(html).unwrap_err();
    assert!(err.starts_with("ld+json block does not parse: "), "{err}");
    let html = r#"<main id=page></main>"#;
    assert!(collect_graph(html).unwrap().is_empty());
    assert!(audit_page(CANONICAL, "/a/", html).is_ok());
}
