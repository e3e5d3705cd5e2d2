use sitegen::articles::{
    admit_article,
    check_front_matter, collect_tags, is_draft, new_article, reading_time, slug_from_stem,
    sort_articles, split_front_matter, tag_slug, Article, FrontMatter,
};
use sitegen::dates::{
    civil_from_days, date_parts, days_from_civil, format_date, format_utc_secs, iso_date,
    is_offset_datetime, utc_rfc3339, Date, Datetime, Offset, Time,
};
use sitegen::markdown::Rendered;

const SAMPLE: &str = "+++\ntitle = \"Hello\"\ndescription = \"First article.\"\ndatePublished = 2026-09-04T08:00:00+03:00\ndateModified = 2026-09-05T09:30:00+03:00\ntags = [\"rust\"]\n+++\n\nBody text.\n";

fn offset_datetime(y: u16, mo: u8, d: u8, h: u8, mi: u8, s: u8, minutes: i16) -> Datetime {
    Datetime {
        date: Some(Date { year: y, month: mo, day: d }),
        time: Some(Time { hour: h, minute: mi, second: Some(s), nanosecond: None }),
        offset: Some(if minutes == 0 { Offset::Z } else { Offset::Custom { minutes } }),
    }
}

fn front_matter(title: &str, published: Datetime, tags: Option<Vec<&str>>, draft: Option<bool>) -> FrontMatter {
    FrontMatter {
        title: title.to_owned(),
        description: "d".to_owned(),
        date_published: published,
        date_modified: published,
        tags: tags.map(|t| t.into_iter().map(str::to_owned).collect()),
        lang: None,
        draft,
    }
}

fn article(slug: &str, published: Datetime, tags: Option<Vec<&str>>) -> Article {
    let rendered = Rendered { html: String::new(), toc: Vec::new(), diagrams: Vec::new() };
    new_article(slug.to_owned(), front_matter(slug, published, tags, None), "Body.", rendered)
}

#[test]
fn splits_front_matter_from_body() {
    let (frontmatter, body) = split_front_matter(SAMPLE).unwrap();
    assert!(frontmatter.contains("title = \"Hello\""));
    assert!(!frontmatter.contains("Body text"));
    assert!(body.trim_start().starts_with("Body text."));
}

#[test]
fn splits_front_matter_with_crlf() {
    let crlf = SAMPLE.replace('\n', "\r\n");
    let (frontmatter, body) = split_front_matter(&crlf).unwrap();
    assert!(frontmatter.contains("title = \"Hello\""));
    assert!(body.trim_start().starts_with("Body text."));
}

#[test]
fn missing_delimiter_is_an_error() {
    assert!(split_front_matter("no frontmatter here").is_err());
}

#[test]
fn missing_delimiter_error_names_the_block() {
    assert_eq!(
        split_front_matter("+++\ntitle = \"x\"\n").unwrap_err(),
        "missing +++ delimited frontmatter block"
    );
}

#[test]
fn front_matter_block_is_exact() {
    let (frontmatter, body) = split_front_matter("+++\na = 1\n+++\nrest").unwrap();
    assert_eq!(frontmatter, "a = 1\n");
    assert_eq!(body, "rest");
}

#[test]
fn formats_display_and_iso_dates() {
    let published = offset_datetime(2026, 9, 4, 8, 0, 0, 180);
    assert_eq!(format_date(&published), "Sep 4, 2026");
    assert_eq!(iso_date(&published), "2026-09-04");
    assert_eq!(date_parts(&published), (2026, 9, 4));
}

#[test]
fn utc_rfc3339_normalizes_offsets_to_utc() {
    let plus3 = offset_datetime(2026, 9, 4, 0, 0, 0, 180);
    assert_eq!(utc_rfc3339(&plus3), "2026-09-03T21:00:00Z");
    let utc = offset_datetime(2026, 9, 4, 8, 0, 0, 0);
    assert_eq!(utc_rfc3339(&utc), "2026-09-04T08:00:00Z");
    let minus8 = offset_datetime(2026, 9, 4, 23, 30, 0, -480);
    assert_eq!(utc_rfc3339(&minus8), "2026-09-05T07:30:00Z");
}

#[test]
fn civil_conversions_round_trip() {
    for days in [-100_000i64, -1, 0, 1, 19_000, 100_000] {
        let (y, m, d) = civil_from_days(days);
        assert_eq!(days_from_civil(y, m as u32, d as u32), days);
    }
}

#[test]
fn valid_dates_round_trip_through_day_counts() {
    assert_eq!(days_from_civil(1970, 1, 1), 0);
    assert_eq!(days_from_civil(2026, 9, 4), 20_700);
    for (y, m, d) in [(2000i64, 2u32, 29u32), (1900, 2, 28), (1900, 3, 1), (2024, 2, 29), (2023, 12, 31), (1600, 2, 29), (-4, 2, 29)] {
        let days = days_from_civil(y, m, d);
        assert_eq!(civil_from_days(days), (y, m, d));
    }
    // 1900 has no February 29: the day after February 28 is March 1.
    assert_eq!(civil_from_days(days_from_civil(1900, 2, 28) + 1), (1900, 3, 1));
    assert_eq!(civil_from_days(days_from_civil(2000, 2, 28) + 1), (2000, 2, 29));
}

#[test]
fn civil_dates_of_known_days() {
    assert_eq!(civil_from_days(0), (1970, 1, 1));
    assert_eq!(civil_from_days(-1), (1969, 12, 31));
    assert_eq!(civil_from_days(59), (1970, 3, 1));
    assert_eq!(days_from_civil(2000, 3, 1), 11_017);
    assert_eq!(format_utc_secs(0), "1970-01-01T00:00:00Z");
    assert_eq!(format_utc_secs(-1), "1969-12-31T23:59:59Z");
}

#[test]
fn only_full_offset_datetimes_are_accepted() {
    let full = offset_datetime(2026, 9, 4, 8, 0, 0, 180);
    assert!(is_offset_datetime(&full));
    let date_only = Datetime { date: full.date, time: None, offset: None };
    assert!(!is_offset_datetime(&date_only));
    let naive = Datetime { date: full.date, time: full.time, offset: None };
    assert!(!is_offset_datetime(&naive));
    let mut fm = front_matter("x", full, None, None);
    assert!(check_front_matter("x", &fm).is_ok());
    fm.date_modified = naive;
    let err = check_front_matter("naive", &fm).unwrap_err();
    assert!(err.contains("must be offset date-times"), "{err}");
    assert!(err.starts_with("article naive: "), "{err}");
}

#[test]
fn reading_time_rounds_up_and_never_zero() {
    assert_eq!(reading_time(0), 1);
    assert_eq!(reading_time(1), 1);
    assert_eq!(reading_time(200), 1);
    assert_eq!(reading_time(201), 2);
    assert_eq!(reading_time(400), 2);
}

#[test]
fn slug_drops_date_prefix_only() {
    assert_eq!(slug_from_stem("2026-09-my-article"), "my-article");
    assert_eq!(slug_from_stem("hello-world"), "hello-world");
    assert_eq!(slug_from_stem("2026-1-my-article"), "2026-1-my-article");
}

#[test]
fn tag_slug_lowercases_and_hyphenates() {
    assert_eq!(tag_slug("Graph Theory"), "graph-theory");
    assert_eq!(tag_slug("ÉTÉ Rust"), "été-rust");
    assert_eq!(tag_slug("rust"), "rust");
}

#[test]
fn drafts_are_recognised() {
    let d = offset_datetime(2026, 7, 1, 0, 0, 0, 180);
    assert!(is_draft(&front_matter("d", d, None, Some(true))));
    assert!(!is_draft(&front_matter("d", d, None, Some(false))));
    assert!(!is_draft(&front_matter("d", d, None, None)));
}

#[test]
fn articles_sort_newest_first() {
    let old = article("old", offset_datetime(2026, 1, 1, 0, 0, 0, 180), None);
    let new = article("new", offset_datetime(2026, 8, 31, 0, 0, 0, 180), None);
    let sorted = sort_articles(vec![old, new]);
    let slugs: Vec<_> = sorted.iter().map(|p| p.slug.as_str()).collect();
    assert_eq!(slugs, ["new", "old"]);
    assert_eq!(sorted[0].url(), "/blog/new/");
}

#[test]
fn new_article_counts_words_and_normalizes_dates() {
    let a = article("a", offset_datetime(2026, 9, 4, 0, 0, 0, 180), Some(vec!["rust"]));
    assert_eq!(a.reading_time, 1);
    assert_eq!(a.body, "Body.");
    assert_eq!(a.modified_atom, "2026-09-03T21:00:00Z");
    assert_eq!(a.date_atom(), "2026-09-03T21:00:00Z");
    assert_eq!(a.date_iso(), "2026-09-04");
    assert_eq!(a.date_display(), "Sep 4, 2026");
    assert_eq!(a.lang(), "en");
    assert_eq!(a.tags(), &["rust".to_owned()][..]);
}

#[test]
fn tags_group_articles_largest_first() {
    let d1 = offset_datetime(2026, 1, 1, 0, 0, 0, 0);
    let d2 = offset_datetime(2026, 2, 1, 0, 0, 0, 0);
    let arts = vec![
        article("one", d2, Some(vec!["Rust", "web"])),
        article("two", d1, Some(vec!["Rust"])),
    ];
    let groups = collect_tags(&arts);
    assert_eq!(groups.len(), 2);
    assert_eq!(groups[0].0, "Rust");
    assert_eq!(groups[0].1, "rust");
    let members: Vec<_> = groups[0].2.iter().map(|a| a.slug.as_str()).collect();
    assert_eq!(members, ["one", "two"]);
    assert_eq!(groups[1].0, "web");
    assert_eq!(groups[1].2.len(), 1);
}

#[test]
fn admission_rejects_bad_dates_and_skips_drafts() {
    let d = offset_datetime(2026, 7, 1, 0, 0, 0, 180);
    assert_eq!(admit_article("a", &front_matter("a", d, None, None)), Ok(true));
    assert_eq!(admit_article("a", &front_matter("a", d, None, Some(true))), Ok(false));
    let mut fm = front_matter("a", d, None, Some(true));
    fm.date_published = Datetime { date: d.date, time: None, offset: None };
    assert!(admit_article("a", &fm).unwrap_err().contains("must be offset date-times"));
}

#[test]
fn ascii_tags_slug_character_by_character() {
    for tag in ["Graph Theory", "Rust 2024", "already-slug"] {
        let slug = tag_slug(tag);
        assert_eq!(slug.len(), tag.len());
        assert!(!slug.contains(' ') && !slug.chars().any(|c| c.is_ascii_uppercase()));
        assert_eq!(tag_slug(&slug), slug);
    }
    assert_eq!(tag_slug("Graph Theory"), "graph-theory");
}
