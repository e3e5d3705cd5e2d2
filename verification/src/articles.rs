//! Blog articles: front matter, slugs, reading time, ordering and tag groups.
use vstd::prelude::*;

use crate::dates::{
    Datetime, format_date, iso_date, spec_format_date, spec_iso_date, spec_is_offset_datetime,
    spec_utc_rfc3339, utc_rfc3339, is_offset_datetime,
};
use crate::markdown::{DiagramAsset, Rendered, TocItem};
use crate::order::{SortKey, is_permutation, is_stably_sorted, key_lt, keys_view, stable_sort_order, lemma_key_order, KeyView};
use crate::text::{
    chars_of, is_ascii_digit, is_digit, is_ws, push_str, str_eq, trim_ws, trim_ws_bounds, words,
    word_bounds, string_of, find_char_from, find_char_from_exec, lemma_find_from,
};

verus! {

/// The line that opens and closes the front matter block.
pub const FRONT_MATTER_DELIMITER: &'static str = "+++";

/// Reading speed used for the reading time.
pub const WORDS_PER_MINUTE: usize = 200;

/// An article's TOML front matter.
pub struct FrontMatter {
    pub title: String,
    pub description: String,
    pub date_published: Datetime,
    pub date_modified: Datetime,
    pub tags: Option<Vec<String>>,
    pub lang: Option<String>,
    pub draft: Option<bool>,
}

/// A rendered article.
pub struct Article {
    pub slug: String,
    pub frontmatter: FrontMatter,
    pub body: String,
    pub html: String,
    pub toc: Vec<TocItem>,
    pub diagrams: Vec<DiagramAsset>,
    pub reading_time: usize,
    pub modified_atom: String,
}

/// The article's language: the front matter's, or English.
pub open spec fn spec_lang(fm: FrontMatter) -> Seq<char> {
    match fm.lang {
        Some(l) => l@,
        None => "en"@,
    }
}

/// The article's tags as written, or none.
pub open spec fn spec_tags(fm: FrontMatter) -> Seq<String> {
    match fm.tags {
        Some(t) => t@,
        None => Seq::empty(),
    }
}

/// The key articles are ordered by: the publication date as one number.
pub open spec fn date_rank(fm: FrontMatter) -> int {
    let d = fm.date_published.date->0;
    d.year * 65536 + d.month * 256 + d.day
}

/// Whether the calendar date `x` is the same day as `y` or a later one.
pub open spec fn on_or_after(x: crate::dates::Date, y: crate::dates::Date) -> bool {
    x.year > y.year || (x.year == y.year && (x.month > y.month || (x.month == y.month && x.day
        >= y.day)))
}

/// Ranking by `date_rank` is calendar order: of two publication dates, the one with the
/// greater or equal rank is the same day or a later one.
pub proof fn law_date_rank_is_calendar_order(f1: FrontMatter, f2: FrontMatter)
    requires
        f1.date_published.date is Some,
        f2.date_published.date is Some,
    ensures
        date_rank(f1) >= date_rank(f2) <==> on_or_after(
            f1.date_published.date->0,
            f2.date_published.date->0,
        ),
{
}

/// The publication date is present.
pub open spec fn has_publication_date(a: Article) -> bool {
    a.frontmatter.date_published.date is Some
}

impl Article {
    /// The article's path `/blog/{slug}/`.
    pub fn url(&self) -> (s: String)
        ensures
            s@ == "/blog/"@ + self.slug@ + "/"@,
    {
        let mut s = String::from_str("/blog/");
        push_str(&mut s, self.slug.as_str());
        push_str(&mut s, "/");
        s
    }

    /// The article's language.
    pub fn lang(&self) -> (l: &str)
        ensures
            l@ == spec_lang(self.frontmatter),
    {
        match &self.frontmatter.lang {
            Some(l) => l.as_str(),
            None => "en",
        }
    }

    /// The article's tags.
    pub fn tags(&self) -> (t: &[String])
        ensures
            t@ == spec_tags(self.frontmatter),
    {
        match &self.frontmatter.tags {
            Some(t) => t.as_slice(),
            None => &[],
        }
    }

    /// The publication date for display, such as `Sep 4, 2026`.
    pub fn date_display(&self) -> (s: String)
        requires
            self.frontmatter.date_published.date is Some,
            1 <= self.frontmatter.date_published.date->0.month <= 12,
        ensures
            s@ == spec_format_date(self.frontmatter.date_published.date->0),
    {
        format_date(&self.frontmatter.date_published)
    }

    /// The publication date in ISO form, such as `2026-09-04`.
    pub fn date_iso(&self) -> (s: String)
        requires
            self.frontmatter.date_published.date is Some,
        ensures
            s@ == spec_iso_date(self.frontmatter.date_published.date->0),
    {
        iso_date(&self.frontmatter.date_published)
    }

    /// The publication time stamp normalized to UTC.
    pub fn date_atom(&self) -> (s: String)
        requires
            spec_is_offset_datetime(self.frontmatter.date_published),
        ensures
            s@ == spec_utc_rfc3339(self.frontmatter.date_published),
    {
        utc_rfc3339(&self.frontmatter.date_published)
    }

    /// The publication date as `(year, month, day)`.
    pub fn sort_key(&self) -> (k: (u16, u8, u8))
        requires
            self.frontmatter.date_published.date is Some,
        ensures
            k.0 == self.frontmatter.date_published.date->0.year,
            k.1 == self.frontmatter.date_published.date->0.month,
            k.2 == self.frontmatter.date_published.date->0.day,
    {
        crate::dates::date_parts(&self.frontmatter.date_published)
    }
}

// ---------------------------------------------------------------------------
// Slugs and reading time
// ---------------------------------------------------------------------------
/// The file stem starts with a `YYYY-MM-` date prefix and has more after it.
pub open spec fn has_date_prefix(s: Seq<char>) -> bool {
    &&& s.len() > 8
    &&& is_digit(s[0]) && is_digit(s[1]) && is_digit(s[2]) && is_digit(s[3])
    &&& s[4] == '-'
    &&& is_digit(s[5]) && is_digit(s[6])
    &&& s[7] == '-'
}

/// The slug of an article file: its stem without a `YYYY-MM-` prefix.
pub open spec fn spec_slug_from_stem(s: Seq<char>) -> Seq<char> {
    if has_date_prefix(s) {
        s.skip(8)
    } else {
        s
    }
}

/// The slug for the file stem `stem`.
pub fn slug_from_stem(stem: &str) -> (slug: String)
    ensures
        slug@ == spec_slug_from_stem(stem@),
{
    let v = chars_of(stem);
    let prefixed = v.len() > 8 && is_ascii_digit(v[0]) && is_ascii_digit(v[1]) && is_ascii_digit(
        v[2],
    ) && is_ascii_digit(v[3]) && v[4] == '-' && is_ascii_digit(v[5]) && is_ascii_digit(v[6])
        && v[7] == '-';
    if prefixed {
        assert(v@.subrange(8, v@.len() as int) == v@.skip(8));
        string_of(&v, 8, v.len())
    } else {
        assert(v@.subrange(0, v@.len() as int) == v@);
        string_of(&v, 0, v.len())
    }
}

/// Minutes to read `words` words: rounded up, and never zero.
pub open spec fn spec_reading_time(words: int) -> int {
    let m = words / 200 + if words % 200 != 0 { 1int } else { 0 };
    if m < 1 { 1 } else { m }
}

/// The reading time in minutes for a text of `words` words.
pub fn reading_time(words: usize) -> (minutes: usize)
    ensures
        minutes == spec_reading_time(words as int),
{
    let m = words / WORDS_PER_MINUTE + if words % WORDS_PER_MINUTE != 0 { 1 } else { 0 };
    if m < 1 { 1 } else { m }
}

/// Reading time is at least one minute, and covers every word: `200 * minutes` is at
/// least the word count, with less than a minute to spare.
pub proof fn law_reading_time_rounds_up(words: int)
    requires
        words >= 0,
    ensures
        spec_reading_time(words) >= 1,
        200 * spec_reading_time(words) >= words,
        words > 0 ==> 200 * (spec_reading_time(words) - 1) < words,
{
}

/// Names what `str::to_lowercase` returns for a string.
pub uninterp spec fn lowercase(s: Seq<char>) -> Seq<char>;

/// Every character of `s` is ASCII.
pub open spec fn all_ascii(s: Seq<char>) -> bool {
    forall|i: int| 0 <= i < s.len() ==> (#[trigger] s[i] as u32) < 128
}

/// The ASCII lower-case form of a character: `A`..`Z` become `a`..`z`, others stay.
pub open spec fn ascii_lower(c: char) -> char {
    if 'A' <= c <= 'Z' {
        ((c as u32) + 32) as char
    } else {
        c
    }
}

/// `str::to_lowercase`: the Unicode lower-case form of `s`. The result is named by
/// `lowercase`; of it the contract states only that ASCII text is lowered character by
/// character (`A`..`Z` to `a`..`z`, every other ASCII character kept), as Unicode's
/// case mapping does for ASCII. Nothing is stated of other characters.
#[verifier::external_body]
pub(crate) fn to_lowercase(s: &str) -> (r: String)
    ensures
        r@ == lowercase(s@),
        all_ascii(s@) ==> r@ == s@.map_values(|c: char| ascii_lower(c)),
{
    s.to_lowercase()
}

/// `s` with every space replaced by a hyphen.
pub open spec fn spaces_to_hyphens(s: Seq<char>) -> Seq<char> {
    s.map_values(|c: char| if c == ' ' { '-' } else { c })
}

/// The URL slug of a tag: lower-cased, spaces turned into hyphens.
pub open spec fn spec_tag_slug(tag: Seq<char>) -> Seq<char> {
    spaces_to_hyphens(lowercase(tag))
}

/// A tag's slug holds no space: every space of the lower-cased tag became a hyphen.
pub proof fn law_tag_slugs_have_no_spaces(tag: Seq<char>)
    ensures
        forall|i: int| 0 <= i < spec_tag_slug(tag).len() ==> #[trigger] spec_tag_slug(tag)[i] != ' ',
{
}

/// The slug of an ASCII tag, character by character: a space becomes a hyphen, a
/// capital letter its small letter.
pub open spec fn ascii_slug(tag: Seq<char>) -> Seq<char> {
    tag.map_values(|c: char| if c == ' ' { '-' } else { ascii_lower(c) })
}

/// An ASCII tag's slug is ASCII, holds no space and no capital letter, and is its own
/// slug.
pub proof fn law_ascii_slugs_are_stable(tag: Seq<char>)
    requires
        all_ascii(tag),
    ensures
        ascii_slug(tag).len() == tag.len(),
        all_ascii(ascii_slug(tag)),
        forall|i: int|
            0 <= i < tag.len() ==> #[trigger] ascii_slug(tag)[i] != ' ' && !('A' <= ascii_slug(
                tag,
            )[i] <= 'Z'),
        ascii_slug(ascii_slug(tag)) == ascii_slug(tag),
{
    let s = ascii_slug(tag);
    assert forall|i: int| 0 <= i < s.len() implies (#[trigger] s[i] as u32) < 128 by {
        assert((tag[i] as u32) < 128);
    }
    assert(ascii_slug(s) =~= s);
}

/// The URL slug of `tag`.
pub fn tag_slug(tag: &str) -> (slug: String)
    ensures
        slug@ == spec_tag_slug(tag@),
        all_ascii(tag@) ==> slug@ == ascii_slug(tag@),
{
    let lower = to_lowercase(tag);
    let v = chars_of(lower.as_str());
    let mut out = String::new();
    let mut i: usize = 0;
    while i < v.len()
        invariant
            i <= v@.len(),
            v@ == lowercase(tag@),
            out@ == spaces_to_hyphens(v@.take(i as int)),
        decreases v.len() - i,
    {
        let c = v[i];
        out.push(if c == ' ' { '-' } else { c });
        assert(spaces_to_hyphens(v@.take(i + 1)) =~= spaces_to_hyphens(v@.take(i as int)).push(
            if c == ' ' { '-' } else { c },
        ));
        i += 1;
    }
    assert(v@.take(v@.len() as int) == v@);
    assert(all_ascii(tag@) ==> spaces_to_hyphens(v@) =~= ascii_slug(tag@));
    out
}

// ---------------------------------------------------------------------------
// Front matter
// ---------------------------------------------------------------------------
/// The end of the line that starts at `i`: just past its `\n`, or the end of `s`.
pub open spec fn line_end(s: Seq<char>, i: int) -> int {
    match find_char_from(s, '\n', i) {
        Some(j) => j + 1,
        None => s.len() as int,
    }
}

/// `s` without trailing `\r` and `\n` characters.
pub open spec fn trim_end_newlines(s: Seq<char>) -> Seq<char>
    decreases s.len(),
{
    if s.len() > 0 && (s.last() == '\r' || s.last() == '\n') {
        trim_end_newlines(s.drop_last())
    } else {
        s
    }
}

/// The line `s[i..e]` is the delimiter `+++` once its line ending is removed.
pub open spec fn is_delimiter_line(s: Seq<char>, i: int, e: int) -> bool {
    trim_end_newlines(s.subrange(i, e)) == "+++"@
}

/// A line's end lies past its start.
pub proof fn lemma_line_end(s: Seq<char>, i: int)
    requires
        0 <= i < s.len(),
    ensures
        i < line_end(s, i) <= s.len(),
{
    lemma_find_from(s, seq!['\n'], i);
}

/// Scans the lines from index `i`; `start` is where the text after the opening delimiter
/// begins, once seen. Gives `(start, end, body)`: the front matter `s[start..end]` and the
/// body `s[body..]`.
pub open spec fn scan_front_matter(s: Seq<char>, i: int, start: Option<int>) -> Option<
    (int, int, int),
>
    decreases s.len() - i,
{
    if i < 0 || i >= s.len() {
        None
    } else {
        let e = line_end(s, i);
        proof {
            lemma_line_end(s, i);
        }
        if is_delimiter_line(s, i, e) {
            match start {
                None => scan_front_matter(s, e, Some(e)),
                Some(st) => Some((st, i, e)),
            }
        } else {
            scan_front_matter(s, e, start)
        }
    }
}

/// The front matter and body of a raw article, when a `+++` block is present.
pub open spec fn spec_split_front_matter(s: Seq<char>) -> Option<(Seq<char>, Seq<char>)> {
    match scan_front_matter(s, 0, None) {
        Some((st, end, body)) if end > 0 => Some((s.subrange(st, end), s.skip(body))),
        _ => None,
    }
}

/// What `scan_front_matter` finds lies inside the text.
proof fn lemma_scan_bounds(s: Seq<char>, i: int, start: Option<int>)
    requires
        0 <= i,
        start matches Some(st) ==> 0 <= st <= i,
    ensures
        scan_front_matter(s, i, start) matches Some((st, end, body)) ==> 0 <= st <= end < body
            <= s.len(),
    decreases s.len() - i,
{
    if 0 <= i < s.len() {
        let e = line_end(s, i);
        lemma_line_end(s, i);
        if is_delimiter_line(s, i, e) {
            match start {
                None => lemma_scan_bounds(s, e, Some(e)),
                Some(st) => {},
            }
        } else {
            lemma_scan_bounds(s, e, start);
        }
    }
}

/// What `scan_front_matter` finds ends at a delimiter line, which the body follows.
proof fn lemma_scan_delimiter(s: Seq<char>, i: int, start: Option<int>)
    requires
        0 <= i,
    ensures
        scan_front_matter(s, i, start) matches Some((st, end, body)) ==> is_delimiter_line(
            s,
            end,
            body,
        ) && body == line_end(s, end) && (start matches Some(x) ==> st == x),
    decreases s.len() - i,
{
    if 0 <= i < s.len() {
        let e = line_end(s, i);
        lemma_line_end(s, i);
        if is_delimiter_line(s, i, e) {
            match start {
                None => lemma_scan_delimiter(s, e, Some(e)),
                Some(st) => {},
            }
        } else {
            lemma_scan_delimiter(s, e, start);
        }
    }
}

/// The front matter and the body are pieces of the article in order: the front matter,
/// then a `+++` line, then the body to the end.
pub proof fn law_front_matter_precedes_body(raw: Seq<char>, fm: Seq<char>, body: Seq<char>)
    requires
        spec_split_front_matter(raw) == Some((fm, body)),
    ensures
        exists|st: int, end: int, b: int|
            #![trigger raw.subrange(st, end), raw.skip(b)]
            0 <= st <= end < b <= raw.len() && fm == raw.subrange(st, end) && body == raw.skip(b)
                && is_delimiter_line(raw, end, b),
{
    lemma_scan_bounds(raw, 0, None);
    lemma_scan_delimiter(raw, 0, None);
    let (st, end, b) = scan_front_matter(raw, 0, None)->Some_0;
    assert(is_delimiter_line(raw, end, b));
    assert(fm == raw.subrange(st, end) && body == raw.skip(b));
}

/// An optional index as a mathematical integer.
pub open spec fn opt_int(o: Option<usize>) -> Option<int> {
    match o {
        Some(x) => Some(x as int),
        None => None,
    }
}

/// Whether `v[i..e]` is a `+++` line.
fn is_delimiter_exec(v: &Vec<char>, i: usize, e: usize) -> (b: bool)
    requires
        i <= e <= v@.len(),
    ensures
        b == is_delimiter_line(v@, i as int, e as int),
{
    let mut k = e;
    while k > i && (v[k - 1] == '\r' || v[k - 1] == '\n')
        invariant
            i <= k <= e <= v@.len(),
            trim_end_newlines(v@.subrange(i as int, k as int)) == trim_end_newlines(
                v@.subrange(i as int, e as int),
            ),
        decreases k,
    {
        assert(v@.subrange(i as int, k as int).drop_last() == v@.subrange(i as int, k - 1));
        k -= 1;
    }
    assert(trim_end_newlines(v@.subrange(i as int, k as int)) == v@.subrange(i as int, k as int));
    let d = chars_of(FRONT_MATTER_DELIMITER);
    crate::text::seq_eq(v, i, k, &d)
}

/// Splits a raw article into its `+++` delimited front matter and the body after it.
pub fn split_front_matter(raw: &str) -> (r: Result<(&str, &str), String>)
    ensures
        r matches Ok((fm, body)) ==> spec_split_front_matter(raw@) == Some((fm@, body@)),
        r is Err <==> spec_split_front_matter(raw@) is None,
        r matches Err(e) ==> e@ == "missing +++ delimited frontmatter block"@,
{
    let v = chars_of(raw);
    let mut start: Option<usize> = None;
    let mut i: usize = 0;
    while i < v.len()
        invariant
            v@ == raw@,
            i <= v@.len(),
            start matches Some(st) ==> st <= i,
            scan_front_matter(v@, 0, None) == scan_front_matter(v@, i as int, opt_int(start)),
        decreases v.len() - i,
    {
        proof {
            lemma_line_end(v@, i as int);
            lemma_find_from(v@, seq!['\n'], i as int);
        }
        let e = match find_char_from_exec(&v, '\n', i) {
            Some(j) => j + 1,
            None => v.len(),
        };
        assert(e == line_end(v@, i as int));
        if is_delimiter_exec(&v, i, e) {
            match start {
                None => {
                    start = Some(e);
                },
                Some(st) => {
                    proof {
                        lemma_scan_bounds(v@, 0, None);
                    }
                    if i > 0 {
                        let fm = raw.substring_char(st, i);
                        let body = raw.substring_char(e, v.len());
                        assert(body@ == v@.skip(e as int));
                        return Ok((fm, body));
                    } else {
                        return Err(String::from_str("missing +++ delimited frontmatter block"));
                    }
                },
            }
        }
        i = e;
    }
    Err(String::from_str("missing +++ delimited frontmatter block"))
}

/// The message for front matter whose dates lack a time or an offset.
pub open spec fn spec_date_error(slug: Seq<char>) -> Seq<char> {
    "article "@ + slug
        + ": datePublished and dateModified must be offset date-times like 2026-09-04T08:00:00+03:00"@
}

/// Both dates of the front matter are full offset date-times.
pub open spec fn spec_dates_valid(fm: FrontMatter) -> bool {
    spec_is_offset_datetime(fm.date_published) && spec_is_offset_datetime(fm.date_modified)
}

/// Checks that both front matter dates carry a date, a time and an offset.
pub fn check_front_matter(slug: &str, fm: &FrontMatter) -> (r: Result<(), String>)
    ensures
        r is Ok <==> spec_dates_valid(*fm),
        r matches Err(e) ==> e@ == spec_date_error(slug@),
{
    if !is_offset_datetime(&fm.date_published) || !is_offset_datetime(&fm.date_modified) {
        let mut e = String::from_str("article ");
        push_str(&mut e, slug);
        push_str(
            &mut e,
            ": datePublished and dateModified must be offset date-times like 2026-09-04T08:00:00+03:00",
        );
        return Err(e);
    }
    Ok(())
}

/// Drafts are left out of the site.
pub fn is_draft(fm: &FrontMatter) -> (b: bool)
    ensures
        b == (fm.draft == Some(true)),
{
    match fm.draft {
        Some(d) => d,
        None => false,
    }
}

/// Whether an article goes on the site: an error when its dates are not full offset
/// date-times, otherwise `true` unless it is a draft.
pub fn admit_article(slug: &str, fm: &FrontMatter) -> (r: Result<bool, String>)
    ensures
        r is Err <==> !spec_dates_valid(*fm),
        r matches Err(e) ==> e@ == spec_date_error(slug@),
        r matches Ok(keep) ==> keep == (fm.draft != Some(true)),
{
    check_front_matter(slug, fm)?;
    Ok(!is_draft(fm))
}

/// Where an article's diagrams are published: `/blog/{slug}/diagrams`.
pub fn diagram_base(slug: &str) -> (s: String)
    ensures
        s@ == "/blog/"@ + slug@ + "/diagrams"@,
{
    let mut s = String::from_str("/blog/");
    push_str(&mut s, slug);
    push_str(&mut s, "/diagrams");
    s
}

/// Assembles an article from its front matter, its Markdown body and the rendered body.
pub fn new_article(slug: String, frontmatter: FrontMatter, body: &str, rendered: Rendered) -> (a:
    Article)
    requires
        spec_is_offset_datetime(frontmatter.date_modified),
    ensures
        a.slug == slug,
        a.frontmatter == frontmatter,
        a.body@ == trim_ws(body@),
        a.html == rendered.html,
        a.toc == rendered.toc,
        a.diagrams == rendered.diagrams,
        a.reading_time == spec_reading_time(words(body@).len() as int),
        a.modified_atom@ == spec_utc_rfc3339(frontmatter.date_modified),
{
    let v = chars_of(body);
    let w = word_bounds(&v, 0, v.len());
    assert(v@.subrange(0, v@.len() as int) == v@);
    let (a, b) = trim_ws_bounds(&v, 0, v.len());
    let trimmed = string_of(&v, a, b);
    let modified_atom = utc_rfc3339(&frontmatter.date_modified);
    let Rendered { html, toc, diagrams } = rendered;
    Article {
        slug,
        modified_atom,
        frontmatter,
        body: trimmed,
        html,
        toc,
        diagrams,
        reading_time: reading_time(w.len()),
    }
}

// ---------------------------------------------------------------------------
// Ordering articles
// ---------------------------------------------------------------------------
/// The sort key of an article: newest first, then by slug.
pub open spec fn article_key(a: Article) -> KeyView {
    (date_rank(a.frontmatter), a.slug@, Seq::empty())
}

/// The keys of a list of articles.
pub open spec fn article_keys(arts: Seq<Article>) -> Seq<KeyView> {
    arts.map_values(|a: Article| article_key(a))
}

/// Sorts articles newest first, then by slug; the sort is stable.
pub fn sort_articles(articles: Vec<Article>) -> (sorted: Vec<Article>)
    requires
        forall|i: int| 0 <= i < articles@.len() ==> has_publication_date(#[trigger] articles@[i]),
    ensures
        exists|order: Seq<usize>|
            {
                &&& is_permutation(order, articles@.len() as int)
                &&& is_stably_sorted(order, article_keys(articles@))
                &&& sorted@.len() == articles@.len()
                &&& forall|p: int|
                    0 <= p < sorted@.len() ==> #[trigger] sorted@[p] == articles@[order[p] as int]
            },
        forall|p: int, q: int|
            0 <= p < q < sorted@.len() ==> date_rank(sorted@[p].frontmatter) >= date_rank(
                sorted@[q].frontmatter,
            ),
        forall|p: int, q: int|
            0 <= p < q < sorted@.len() ==> on_or_after(
                sorted@[p].frontmatter.date_published.date->0,
                sorted@[q].frontmatter.date_published.date->0,
            ),
{
    let n = articles.len();
    let mut keys: Vec<SortKey> = Vec::new();
    let mut i: usize = 0;
    while i < n
        invariant
            n == articles@.len(),
            i <= n,
            forall|k: int| 0 <= k < articles@.len() ==> has_publication_date(#[trigger] articles@[k]),
            keys@.len() == i,
            forall|k: int| 0 <= k < i ==> (#[trigger] keys@[k]).view() == article_key(articles@[k]),
        decreases n - i,
    {
        let a = &articles[i];
        let (y, m, d) = a.sort_key();
        let rank: u64 = (y as u64) * 65536 + (m as u64) * 256 + (d as u64);
        let key = SortKey { rank, first: chars_of(a.slug.as_str()), second: Vec::new() };
        assert(key.view() == article_key(articles@[i as int]));
        keys.push(key);
        i += 1;
    }
    let order = stable_sort_order(&keys);
    assert(keys_view(keys@) =~= article_keys(articles@)) by {
        assert forall|k: int| 0 <= k < keys@.len() implies keys_view(keys@)[k] == article_keys(
            articles@,
        )[k] by {
            assert(keys@[k].view() == article_key(articles@[k]));
        }
    }
    let ghost orig = articles@;
    let mut slots: Vec<Option<Article>> = Vec::new();
    let mut articles = articles;
    while articles.len() > 0
        invariant
            articles@.len() + slots@.len() == n,
            orig.len() == n,
            forall|k: int| 0 <= k < articles@.len() ==> articles@[k] == orig[k],
            forall|k: int| 0 <= k < slots@.len() ==> #[trigger] slots@[k] == Some(orig[n - 1 - k]),
        decreases articles.len(),
    {
        let a = articles.pop().unwrap();
        slots.push(Some(a));
    }
    let mut sorted: Vec<Article> = Vec::new();
    let mut p: usize = 0;
    while p < n
        invariant
            p <= n,
            orig.len() == n,
            slots@.len() == n,
            is_permutation(order@, n as int),
            sorted@.len() == p,
            forall|q: int| 0 <= q < p ==> #[trigger] sorted@[q] == orig[order@[q] as int],
            forall|q: int| p <= q < n ==> #[trigger] slots@[n - 1 - order@[q]] == Some(orig[order@[q] as int]),
        decreases n - p,
    {
        let k = n - 1 - order[p];
        let mut taken: Option<Article> = None;
        std::mem::swap(&mut taken, &mut slots[k]);
        proof {
            assert(taken == Some(orig[order@[p as int] as int]));
            assert forall|q: int| p + 1 <= q < n implies #[trigger] slots@[n - 1 - order@[q]] == Some(orig[order@[q] as int]) by {
                assert(order@[q] != order@[p as int]);
            }
        }
        sorted.push(taken.unwrap());
        p += 1;
    }
    proof {
        assert forall|p: int, q: int|
            0 <= p < q < sorted@.len() implies date_rank(sorted@[p].frontmatter) >= date_rank(
            sorted@[q].frontmatter,
        ) by {
            let ka = article_keys(orig)[order@[p] as int];
            let kb = article_keys(orig)[order@[q] as int];
            assert(key_lt(ka, kb) || (ka == kb && order@[p] < order@[q]));
        }
        assert forall|p: int, q: int|
            0 <= p < q < sorted@.len() implies on_or_after(
            sorted@[p].frontmatter.date_published.date->0,
            sorted@[q].frontmatter.date_published.date->0,
        ) by {
            assert(has_publication_date(orig[order@[p] as int]));
            assert(has_publication_date(orig[order@[q] as int]));
            assert(date_rank(sorted@[p].frontmatter) >= date_rank(sorted@[q].frontmatter));
            law_date_rank_is_calendar_order(sorted@[p].frontmatter, sorted@[q].frontmatter);
        }
    }
    sorted
}

// ---------------------------------------------------------------------------
// Tag groups
// ---------------------------------------------------------------------------
/// The tags of the `i`-th article.
pub open spec fn tags_at(arts: Seq<Article>, i: int) -> Seq<String> {
    spec_tags(arts[i].frontmatter)
}

/// How many times `t` occurs in `tags`.
pub open spec fn tag_count(tags: Seq<String>, t: Seq<char>) -> nat
    decreases tags.len(),
{
    if tags.len() == 0 {
        0
    } else {
        tag_count(tags.drop_last(), t) + if tags.last()@ == t {
            1nat
        } else {
            0
        }
    }
}

/// The indices of the articles filed under tag `t`: an article appears once per time it
/// lists `t`, in article order.
pub open spec fn tag_members(arts: Seq<Article>, t: Seq<char>) -> Seq<int>
    decreases arts.len(),
{
    if arts.len() == 0 {
        seq![]
    } else {
        tag_members(arts.drop_last(), t) + Seq::new(
            tag_count(spec_tags(arts.last().frontmatter), t),
            |_k: int| (arts.len() - 1) as int,
        )
    }
}

/// Some article lists tag `t`.
pub open spec fn is_tag_of(arts: Seq<Article>, t: Seq<char>) -> bool {
    exists|i: int, j: int|
        0 <= i < arts.len() && 0 <= j < tags_at(arts, i).len() && (#[trigger] tags_at(arts, i)[j])@
            == t
}

/// A tag group's sort key: larger groups first, then by slug, then by the tag itself.
pub open spec fn group_key(arts: Seq<Article>, t: Seq<char>) -> KeyView {
    (tag_members(arts, t).len() as int, spec_tag_slug(t), t)
}

/// Indices as integers.
pub open spec fn as_ints(s: Seq<usize>) -> Seq<int> {
    s.map_values(|x: usize| x as int)
}

/// The members of `t` among articles `..i` and the first `j` tags of article `i`.
pub open spec fn members_upto(arts: Seq<Article>, i: int, j: int, t: Seq<char>) -> Seq<int> {
    tag_members(arts.take(i), t) + Seq::new(
        tag_count(tags_at(arts, i).take(j), t),
        |_k: int| i,
    )
}

/// A tag that occurs nowhere is counted zero times.
proof fn lemma_tag_count_zero(tags: Seq<String>, t: Seq<char>)
    requires
        forall|k: int| 0 <= k < tags.len() ==> (#[trigger] tags[k])@ != t,
    ensures
        tag_count(tags, t) == 0,
    decreases tags.len(),
{
    if tags.len() > 0 {
        assert forall|k: int| 0 <= k < tags.drop_last().len() implies (
        #[trigger] tags.drop_last()[k])@ != t by {
            assert(tags.drop_last()[k] == tags[k]);
        }
        lemma_tag_count_zero(tags.drop_last(), t);
    }
}

/// A tag that no article lists has no members.
proof fn lemma_members_empty(arts: Seq<Article>, t: Seq<char>)
    requires
        forall|i: int, j: int|
            0 <= i < arts.len() && 0 <= j < tags_at(arts, i).len() ==> (#[trigger] tags_at(
                arts,
                i,
            )[j])@ != t,
    ensures
        tag_members(arts, t).len() == 0,
    decreases arts.len(),
{
    if arts.len() > 0 {
        let last = arts.len() - 1;
        assert forall|k: int| 0 <= k < spec_tags(arts.last().frontmatter).len() implies (
        #[trigger] spec_tags(arts.last().frontmatter)[k])@ != t by {
            assert(tags_at(arts, last)[k] == spec_tags(arts.last().frontmatter)[k]);
        }
        lemma_tag_count_zero(spec_tags(arts.last().frontmatter), t);
        let d = arts.drop_last();
        assert forall|i: int, j: int|
            0 <= i < d.len() && 0 <= j < tags_at(d, i).len() implies (#[trigger] tags_at(
            d,
            i,
        )[j])@ != t by {
            assert(tags_at(d, i) == tags_at(arts, i));
        }
        lemma_members_empty(d, t);
    }
}

/// The `b`-th tag of the `a`-th article.
pub open spec fn tag_at(arts: Seq<Article>, a: int, b: int) -> Seq<char> {
    tags_at(arts, a)[b]@
}

/// The tag found at location `l` (article index, tag index).
pub open spec fn loc_tag(arts: Seq<Article>, l: (usize, usize)) -> Seq<char> {
    tag_at(arts, l.0 as int, l.1 as int)
}

/// Location `(a, b)` comes before `(i, j)` in reading order.
pub open spec fn processed(arts: Seq<Article>, a: int, b: int, i: int, j: int) -> bool {
    ||| 0 <= a < i && 0 <= b < tags_at(arts, a).len()
    ||| a == i && 0 <= b < j
}

/// Some group has tag `t`.
pub open spec fn covered(arts: Seq<Article>, gtag: Seq<(usize, usize)>, t: Seq<char>) -> bool {
    exists|g: int| 0 <= g < gtag.len() && loc_tag(arts, #[trigger] gtag[g]) == t
}

/// The groups built after reading the tags before location `(i, j)`: each group is the
/// first location of its tag and the indices of its members so far.
pub open spec fn groups_ok(
    arts: Seq<Article>,
    gtag: Seq<(usize, usize)>,
    gmem: Seq<Vec<usize>>,
    i: int,
    j: int,
) -> bool {
    &&& gtag.len() == gmem.len()
    &&& forall|g: int|
        0 <= g < gtag.len() ==> processed(arts, (#[trigger] gtag[g]).0 as int, gtag[g].1 as int, i, j)
    &&& forall|g: int, h: int|
        0 <= g < h < gtag.len() ==> loc_tag(arts, #[trigger] gtag[g]) != loc_tag(arts, #[trigger] gtag[h])
    &&& forall|a: int, b: int|
        processed(arts, a, b, i, j) ==> #[trigger] covered(arts, gtag, tag_at(arts, a, b))
    &&& forall|g: int|
        0 <= g < gtag.len() ==> as_ints((#[trigger] gmem[g])@) == members_upto(
            arts,
            i,
            j,
            loc_tag(arts, gtag[g]),
        )
}

/// The group whose tag is `tag`, if any.
fn find_group(articles: &[Article], gtag: &Vec<(usize, usize)>, tag: &str) -> (r: Option<usize>)
    requires
        forall|g: int|
            0 <= g < gtag@.len() ==> (#[trigger] gtag@[g]).0 < articles@.len() && gtag@[g].1
                < tags_at(articles@, gtag@[g].0 as int).len(),
    ensures
        r matches Some(g) ==> g < gtag@.len() && loc_tag(articles@, gtag@[g as int]) == tag@,
        r is None ==> forall|g: int| 0 <= g < gtag@.len() ==> loc_tag(articles@, #[trigger] gtag@[g]) != tag@,
{
    let mut g: usize = 0;
    while g < gtag.len()
        invariant
            g <= gtag@.len(),
            forall|h: int|
                0 <= h < gtag@.len() ==> (#[trigger] gtag@[h]).0 < articles@.len() && gtag@[h].1
                    < tags_at(articles@, gtag@[h].0 as int).len(),
            forall|h: int| 0 <= h < g ==> loc_tag(articles@, #[trigger] gtag@[h]) != tag@,
        decreases gtag.len() - g,
    {
        let (a, b) = gtag[g];
        let other = articles[a].tags()[b].as_str();
        if str_eq(other, tag) {
            return Some(g);
        }
        g += 1;
    }
    None
}

/// Files the `j`-th tag of article `i` into its group.
fn add_occurrence(
    articles: &[Article],
    gtag: &mut Vec<(usize, usize)>,
    gmem: &mut Vec<Vec<usize>>,
    i: usize,
    j: usize,
)
    requires
        i < articles@.len(),
        j < tags_at(articles@, i as int).len(),
        groups_ok(articles@, old(gtag)@, old(gmem)@, i as int, j as int),
    ensures
        groups_ok(articles@, final(gtag)@, final(gmem)@, i as int, j + 1),
{
    let ghost arts = articles@;
    let tag = articles[i].tags()[j].as_str();
    let ghost t = tag@;
    assert(t == tag_at(arts, i as int, j as int));
    proof {
        assert forall|g: int|
            0 <= g < gtag@.len() implies (#[trigger] gtag@[g]).0 < arts.len() && gtag@[g].1
            < tags_at(arts, gtag@[g].0 as int).len() by {
            assert(processed(arts, gtag@[g].0 as int, gtag@[g].1 as int, i as int, j as int));
        }
        assert(tags_at(arts, i as int).take(j + 1).drop_last() == tags_at(arts, i as int).take(
            j as int,
        ));
        assert(tags_at(arts, i as int).take(j + 1).last() == tags_at(arts, i as int)[j as int]);
    }
    let ghost old_gtag = gtag@;
    let ghost old_gmem = gmem@;
    match find_group(articles, gtag, tag) {
        Some(g) => {
            gmem[g].push(i);
            proof {
                assert forall|h: int| 0 <= h < gtag@.len() implies as_ints((#[trigger] gmem@[h])@)
                    == members_upto(arts, i as int, j + 1, loc_tag(arts, gtag@[h])) by {
                    let th = loc_tag(arts, gtag@[h]);
                    if h == g {
                        assert(as_ints(gmem@[h]@) =~= as_ints(old_gmem[h]@).push(i as int));
                        assert(members_upto(arts, i as int, j + 1, th) =~= members_upto(
                            arts,
                            i as int,
                            j as int,
                            th,
                        ).push(i as int));
                    } else {
                        assert(gmem@[h] == old_gmem[h]);
                        assert(th != t);
                        assert(members_upto(arts, i as int, j + 1, th) =~= members_upto(
                            arts,
                            i as int,
                            j as int,
                            th,
                        ));
                    }
                }
                assert forall|a: int, b: int| processed(arts, a, b, i as int, j + 1) implies #[trigger] covered(
                    arts,
                    gtag@,
                    tag_at(arts, a, b),
                ) by {
                    if a == i && b == j {
                        assert(loc_tag(arts, gtag@[g as int]) == tag_at(arts, a, b));
                    } else {
                        assert(processed(arts, a, b, i as int, j as int));
                        assert(covered(arts, old_gtag, tag_at(arts, a, b)));
                    }
                }
                assert forall|h: int|
                    0 <= h < gtag@.len() implies processed(
                    arts,
                    (#[trigger] gtag@[h]).0 as int,
                    gtag@[h].1 as int,
                    i as int,
                    j + 1,
                ) by {
                    assert(processed(arts, gtag@[h].0 as int, gtag@[h].1 as int, i as int, j as int));
                }
            }
        },
        None => {
            proof {
                assert forall|a: int, b: int|
                    0 <= a < i && 0 <= b < tags_at(arts.take(i as int), a).len() implies (
                    #[trigger] tags_at(arts.take(i as int), a)[b])@ != t by {
                    assert(tags_at(arts.take(i as int), a) == tags_at(arts, a));
                    assert(processed(arts, a, b, i as int, j as int));
                    if tag_at(arts, a, b) == t {
                        assert(covered(arts, gtag@, tag_at(arts, a, b)));
                        let h = choose|h: int|
                            0 <= h < gtag@.len() && loc_tag(arts, #[trigger] gtag@[h]) == tag_at(
                                arts,
                                a,
                                b,
                            );
                        assert(false);
                    }
                }
                lemma_members_empty(arts.take(i as int), t);
                assert forall|k: int| 0 <= k < tags_at(arts, i as int).take(j as int).len() implies (
                #[trigger] tags_at(arts, i as int).take(j as int)[k])@ != t by {
                    assert(processed(arts, i as int, k, i as int, j as int));
                    if tag_at(arts, i as int, k) == t {
                        assert(covered(arts, gtag@, tag_at(arts, i as int, k)));
                        let h = choose|h: int|
                            0 <= h < gtag@.len() && loc_tag(arts, #[trigger] gtag@[h]) == tag_at(
                                arts,
                                i as int,
                                k,
                            );
                        assert(false);
                    }
                }
                lemma_tag_count_zero(tags_at(arts, i as int).take(j as int), t);
            }
            gtag.push((i, j));
            let mut m: Vec<usize> = Vec::new();
            m.push(i);
            gmem.push(m);
            proof {
                let last = gtag@.len() - 1;
                assert(loc_tag(arts, gtag@[last]) == t);
                assert forall|h: int| 0 <= h < gtag@.len() implies as_ints((#[trigger] gmem@[h])@)
                    == members_upto(arts, i as int, j + 1, loc_tag(arts, gtag@[h])) by {
                    let th = loc_tag(arts, gtag@[h]);
                    if h == last {
                        assert(as_ints(gmem@[h]@) =~= seq![i as int]);
                        assert(members_upto(arts, i as int, j + 1, th) =~= seq![i as int]);
                    } else {
                        assert(gmem@[h] == old_gmem[h]);
                        assert(gtag@[h] == old_gtag[h]);
                        assert(th != t);
                        assert(members_upto(arts, i as int, j + 1, th) =~= members_upto(
                            arts,
                            i as int,
                            j as int,
                            th,
                        ));
                    }
                }
                assert forall|g1: int, h1: int| 0 <= g1 < h1 < gtag@.len() implies loc_tag(
                    arts,
                    #[trigger] gtag@[g1],
                ) != loc_tag(arts, #[trigger] gtag@[h1]) by {
                    assert(gtag@[g1] == old_gtag[g1]);
                    if h1 < last {
                        assert(gtag@[h1] == old_gtag[h1]);
                    }
                }
                assert forall|a: int, b: int| processed(arts, a, b, i as int, j + 1) implies #[trigger] covered(
                    arts,
                    gtag@,
                    tag_at(arts, a, b),
                ) by {
                    if a == i && b == j {
                        assert(loc_tag(arts, gtag@[last]) == tag_at(arts, a, b));
                    } else {
                        assert(processed(arts, a, b, i as int, j as int));
                        assert(covered(arts, old_gtag, tag_at(arts, a, b)));
                        let h = choose|h: int|
                            0 <= h < old_gtag.len() && loc_tag(arts, #[trigger] old_gtag[h])
                                == tag_at(arts, a, b);
                        assert(gtag@[h] == old_gtag[h]);
                    }
                }
                assert forall|h: int|
                    0 <= h < gtag@.len() implies processed(
                    arts,
                    (#[trigger] gtag@[h]).0 as int,
                    gtag@[h].1 as int,
                    i as int,
                    j + 1,
                ) by {
                    if h < last {
                        assert(gtag@[h] == old_gtag[h]);
                        assert(processed(arts, old_gtag[h].0 as int, old_gtag[h].1 as int, i as int, j as int));
                    }
                }
            }
        },
    }
}

/// Finishing an article's tags is starting the next article.
proof fn lemma_next_article(
    arts: Seq<Article>,
    gtag: Seq<(usize, usize)>,
    gmem: Seq<Vec<usize>>,
    i: int,
)
    requires
        0 <= i < arts.len(),
        groups_ok(arts, gtag, gmem, i, tags_at(arts, i).len() as int),
    ensures
        groups_ok(arts, gtag, gmem, i + 1, 0),
{
    let len = tags_at(arts, i).len() as int;
    assert(arts.take(i + 1).drop_last() == arts.take(i));
    assert(tags_at(arts, i).take(len) == tags_at(arts, i));
    assert(arts.take(i + 1).last() == arts[i]);
    assert forall|g: int| 0 <= g < gtag.len() implies as_ints((#[trigger] gmem[g])@) == members_upto(
        arts,
        i + 1,
        0,
        loc_tag(arts, gtag[g]),
    ) by {
        let th = loc_tag(arts, gtag[g]);
        assert(tags_at(arts, i + 1).take(0).len() == 0);
        assert(members_upto(arts, i + 1, 0, th) =~= tag_members(arts.take(i + 1), th));
        assert(members_upto(arts, i, len, th) =~= tag_members(arts.take(i + 1), th));
    }
    assert forall|a: int, b: int| processed(arts, a, b, i + 1, 0) implies #[trigger] covered(
        arts,
        gtag,
        tag_at(arts, a, b),
    ) by {
        assert(processed(arts, a, b, i, len));
    }
    assert forall|g: int| 0 <= g < gtag.len() implies processed(
        arts,
        (#[trigger] gtag[g]).0 as int,
        gtag[g].1 as int,
        i + 1,
        0,
    ) by {
        assert(processed(arts, gtag[g].0 as int, gtag[g].1 as int, i, len));
    }
}

/// Groups the articles' tag occurrences by tag, in order of first appearance.
fn group_by_tag(articles: &[Article]) -> (r: (Vec<(usize, usize)>, Vec<Vec<usize>>))
    ensures
        groups_ok(articles@, r.0@, r.1@, articles@.len() as int, 0),
{
    let ghost arts = articles@;
    let n = articles.len();
    let mut gtag: Vec<(usize, usize)> = Vec::new();
    let mut gmem: Vec<Vec<usize>> = Vec::new();
    let mut i: usize = 0;
    proof {
        assert forall|g: int| 0 <= g < gtag@.len() implies as_ints((#[trigger] gmem@[g])@)
            == members_upto(arts, 0, 0, loc_tag(arts, gtag@[g])) by {}
    }
    while i < n
        invariant
            arts == articles@,
            n == arts.len(),
            i <= n,
            groups_ok(arts, gtag@, gmem@, i as int, 0),
        decreases n - i,
    {
        let count = articles[i].tags().len();
        let mut j: usize = 0;
        while j < count
            invariant
                arts == articles@,
                n == arts.len(),
                i < n,
                count == tags_at(arts, i as int).len(),
                j <= count,
                groups_ok(arts, gtag@, gmem@, i as int, j as int),
            decreases count - j,
        {
            add_occurrence(articles, &mut gtag, &mut gmem, i, j);
            j += 1;
        }
        proof {
            lemma_next_article(arts, gtag@, gmem@, i as int);
        }
        i += 1;
    }
    (gtag, gmem)
}

/// Some group of `r` is for tag `t`.
pub open spec fn has_group(r: Seq<(&str, String, Vec<&Article>)>, t: Seq<char>) -> bool {
    exists|g: int| 0 <= g < r.len() && (#[trigger] r[g]).0@ == t
}

/// Groups the articles by tag: each tag with its slug and the articles that list it, the
/// largest groups first, then by slug, then by tag.
#[verifier::rlimit(60)]
pub fn collect_tags<'a>(articles: &'a [Article]) -> (r: Vec<(&'a str, String, Vec<&'a Article>)>)
    ensures
        forall|g: int| 0 <= g < r@.len() ==> is_tag_of(articles@, (#[trigger] r@[g]).0@),
        forall|i: int, j: int|
            0 <= i < articles@.len() && 0 <= j < tags_at(articles@, i).len() ==> #[trigger] has_group(
                r@,
                tag_at(articles@, i, j),
            ),
        forall|g: int, h: int| 0 <= g < h < r@.len() ==> (#[trigger] r@[g]).0@ != (
        #[trigger] r@[h]).0@,
        forall|g: int| 0 <= g < r@.len() ==> (#[trigger] r@[g]).1@ == spec_tag_slug(r@[g].0@),
        forall|g: int|
            0 <= g < r@.len() ==> {
                let m = tag_members(articles@, (#[trigger] r@[g]).0@);
                &&& r@[g].2@.len() == m.len()
                &&& forall|k: int| 0 <= k < m.len() ==> *(#[trigger] r@[g].2@[k]) == articles@[m[k]]
            },
        forall|g: int, h: int|
            0 <= g < h < r@.len() ==> key_lt(
                group_key(articles@, (#[trigger] r@[g]).0@),
                group_key(articles@, (#[trigger] r@[h]).0@),
            ),
{
    let ghost arts = articles@;
    let n = articles.len();
    let (gtag, gmem) = group_by_tag(articles);
    proof {
        assert(arts.take(n as int) == arts);
        assert forall|g: int| 0 <= g < gtag@.len() implies as_ints((#[trigger] gmem@[g])@)
            == tag_members(arts, loc_tag(arts, gtag@[g])) by {
            assert(members_upto(arts, n as int, 0, loc_tag(arts, gtag@[g])) =~= tag_members(
                arts,
                loc_tag(arts, gtag@[g]),
            ));
        }
        assert forall|g: int|
            0 <= g < gtag@.len() implies (#[trigger] gtag@[g]).0 < n && gtag@[g].1 < tags_at(
            arts,
            gtag@[g].0 as int,
        ).len() by {
            assert(processed(arts, gtag@[g].0 as int, gtag@[g].1 as int, n as int, 0));
        }
    }
    let m = gtag.len();
    let keys_slugs = group_keys(articles, &gtag, &gmem);
    let keys = keys_slugs.0;
    let slugs = keys_slugs.1;
    let order = stable_sort_order(&keys);
    let mut r: Vec<(&'a str, String, Vec<&'a Article>)> = Vec::new();
    let mut p: usize = 0;
    while p < m
        invariant
            arts == articles@,
            n == arts.len(),
            m == gtag@.len() == gmem@.len() == keys@.len() == slugs@.len(),
            is_permutation(order@, m as int),
            p <= m,
            r@.len() == p,
            forall|g: int|
                0 <= g < m ==> (#[trigger] gtag@[g]).0 < n && gtag@[g].1 < tags_at(
                    arts,
                    gtag@[g].0 as int,
                ).len(),
            forall|g: int|
                0 <= g < m ==> as_ints((#[trigger] gmem@[g])@) == tag_members(
                    arts,
                    loc_tag(arts, gtag@[g]),
                ),
            forall|g: int|
                0 <= g < m ==> (#[trigger] slugs@[g])@ == spec_tag_slug(loc_tag(arts, gtag@[g])),
            forall|q: int|
                0 <= q < p ==> {
                    let t = loc_tag(arts, gtag@[order@[q] as int]);
                    &&& (#[trigger] r@[q]).0@ == t
                    &&& r@[q].1@ == spec_tag_slug(t)
                    &&& r@[q].2@.len() == tag_members(arts, t).len()
                    &&& forall|x: int|
                        0 <= x < tag_members(arts, t).len() ==> *(#[trigger] r@[q].2@[x])
                            == arts[tag_members(arts, t)[x]]
                },
        decreases m - p,
    {
        let g = order[p];
        let (a, b) = gtag[g];
        let tag: &'a str = articles[a].tags()[b].as_str();
        let ghost t = tag@;
        let members = member_refs(articles, &gmem[g], Ghost(t));
        let slug = slugs[g].clone();
        r.push((tag, slug, members));
        p += 1;
    }
    proof {
        assert forall|g: int, h: int| 0 <= g < h < r@.len() implies key_lt(
            group_key(articles@, (#[trigger] r@[g]).0@),
            group_key(articles@, (#[trigger] r@[h]).0@),
        ) by {
            let ka = keys_view(keys@)[order@[g] as int];
            let kb = keys_view(keys@)[order@[h] as int];
            assert(key_lt(ka, kb) || (ka == kb && order@[g] < order@[h]));
            assert(order@[g] != order@[h]);
            if ka == kb {
                let x = order@[g] as int;
                let y = order@[h] as int;
                if x < y {
                    assert(loc_tag(arts, gtag@[x]) != loc_tag(arts, gtag@[y]));
                } else {
                    assert(loc_tag(arts, gtag@[y]) != loc_tag(arts, gtag@[x]));
                }
            }
        }
        assert forall|g: int| 0 <= g < r@.len() implies is_tag_of(articles@, (#[trigger] r@[g]).0@) by {
            let o = order@[g] as int;
            assert(tags_at(arts, gtag@[o].0 as int)[gtag@[o].1 as int]@ == r@[g].0@);
        }
        assert forall|a: int, b: int|
            0 <= a < articles@.len() && 0 <= b < tags_at(articles@, a).len() implies #[trigger] has_group(
            r@,
            tag_at(articles@, a, b),
        ) by {
            assert(processed(arts, a, b, n as int, 0));
            assert(covered(arts, gtag@, tag_at(arts, a, b)));
            let h = choose|h: int|
                0 <= h < gtag@.len() && loc_tag(arts, #[trigger] gtag@[h]) == tag_at(arts, a, b);
            let q = crate::order::lemma_permutation_onto(order@, m as int, h);
            assert(r@[q].0@ == tag_at(arts, a, b));
        }
        assert forall|g: int, h: int| 0 <= g < h < r@.len() implies (#[trigger] r@[g]).0@ != (
        #[trigger] r@[h]).0@ by {
            let x = order@[g] as int;
            let y = order@[h] as int;
            assert(x != y);
            if x < y {
                assert(loc_tag(arts, gtag@[x]) != loc_tag(arts, gtag@[y]));
            } else {
                assert(loc_tag(arts, gtag@[y]) != loc_tag(arts, gtag@[x]));
            }
        }
    }
    r
}

/// The sort keys and slugs of the tag groups.
fn group_keys(articles: &[Article], gtag: &Vec<(usize, usize)>, gmem: &Vec<Vec<usize>>) -> (r: (
    Vec<SortKey>,
    Vec<String>,
))
    requires
        gtag@.len() == gmem@.len(),
        forall|g: int|
            0 <= g < gtag@.len() ==> (#[trigger] gtag@[g]).0 < articles@.len() && gtag@[g].1
                < tags_at(articles@, gtag@[g].0 as int).len(),
        forall|g: int|
            0 <= g < gtag@.len() ==> as_ints((#[trigger] gmem@[g])@) == tag_members(
                articles@,
                loc_tag(articles@, gtag@[g]),
            ),
    ensures
        r.0@.len() == gtag@.len(),
        r.1@.len() == gtag@.len(),
        forall|g: int|
            0 <= g < gtag@.len() ==> (#[trigger] r.0@[g]).view() == group_key(
                articles@,
                loc_tag(articles@, gtag@[g]),
            ),
        forall|g: int|
            0 <= g < gtag@.len() ==> (#[trigger] r.1@[g])@ == spec_tag_slug(
                loc_tag(articles@, gtag@[g]),
            ),
{
    let m = gtag.len();
    let mut keys: Vec<SortKey> = Vec::new();
    let mut slugs: Vec<String> = Vec::new();
    let mut k: usize = 0;
    while k < m
        invariant
            m == gtag@.len() == gmem@.len(),
            k <= m,
            keys@.len() == k,
            slugs@.len() == k,
            forall|g: int|
                0 <= g < gtag@.len() ==> (#[trigger] gtag@[g]).0 < articles@.len() && gtag@[g].1
                    < tags_at(articles@, gtag@[g].0 as int).len(),
            forall|g: int|
                0 <= g < gtag@.len() ==> as_ints((#[trigger] gmem@[g])@) == tag_members(
                    articles@,
                    loc_tag(articles@, gtag@[g]),
                ),
            forall|g: int|
                0 <= g < k ==> (#[trigger] keys@[g]).view() == group_key(
                    articles@,
                    loc_tag(articles@, gtag@[g]),
                ),
            forall|g: int|
                0 <= g < k ==> (#[trigger] slugs@[g])@ == spec_tag_slug(
                    loc_tag(articles@, gtag@[g]),
                ),
        decreases m - k,
    {
        let (a, b) = gtag[k];
        let tag = articles[a].tags()[b].as_str();
        let slug = tag_slug(tag);
        proof {
            assert(as_ints(gmem@[k as int]@).len() == gmem@[k as int]@.len());
        }
        let key = SortKey {
            rank: gmem[k].len() as u64,
            first: chars_of(slug.as_str()),
            second: chars_of(tag),
        };
        keys.push(key);
        slugs.push(slug);
        k += 1;
    }
    (keys, slugs)
}

/// References to the articles at the given indices.
fn member_refs<'a>(articles: &'a [Article], idx: &Vec<usize>, Ghost(t): Ghost<Seq<char>>) -> (r: Vec<
    &'a Article,
>)
    requires
        as_ints(idx@) == tag_members(articles@, t),
    ensures
        r@.len() == tag_members(articles@, t).len(),
        forall|x: int|
            0 <= x < tag_members(articles@, t).len() ==> *(#[trigger] r@[x]) == articles@[tag_members(
                articles@,
                t,
            )[x]],
{
    let mut r: Vec<&'a Article> = Vec::new();
    let mut x: usize = 0;
    while x < idx.len()
        invariant
            as_ints(idx@) == tag_members(articles@, t),
            x <= idx@.len(),
            r@.len() == x,
            forall|y: int|
                0 <= y < x ==> *(#[trigger] r@[y]) == articles@[tag_members(articles@, t)[y]],
        decreases idx@.len() - x,
    {
        let i = idx[x];
        proof {
            assert(as_ints(idx@)[x as int] == i as int);
            lemma_members_in_range(articles@, t, x as int);
        }
        r.push(&articles[i]);
        x += 1;
    }
    r
}

/// Member indices point at articles.
proof fn lemma_members_in_range(arts: Seq<Article>, t: Seq<char>, x: int)
    requires
        0 <= x < tag_members(arts, t).len(),
    ensures
        0 <= tag_members(arts, t)[x] < arts.len(),
    decreases arts.len(),
{
    if arts.len() > 0 {
        let pre = tag_members(arts.drop_last(), t);
        if x < pre.len() {
            lemma_members_in_range(arts.drop_last(), t, x);
        }
    }
}

} // verus!
