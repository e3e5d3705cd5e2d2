//! Reading a generated HTML page: element ids, tag attributes, text, meta tags and
//! links, as the structured-data audit needs them.
use vstd::prelude::*;

use crate::text::{
    chars_of, contains, find, find_char_from, find_char_from_exec, find_from, find_from_exec,
    is_whitespace, is_ws, lemma_find_from, occurs_at, push_chars, push_str, seq_eq, slice_vec,
    string_of, string_of_all, str_views, trim_end_char, trim_start_char, words, join_words,
};

verus! {

// ---------------------------------------------------------------------------
// Attribute values after `name=`
// ---------------------------------------------------------------------------
/// The number of leading characters of `s` that are not white space, `a` or `b`.
pub open spec fn run_until(s: Seq<char>, a: char, b: char) -> int
    decreases s.len(),
{
    if s.len() == 0 || is_ws(s[0]) || s[0] == a || s[0] == b {
        0
    } else {
        1 + run_until(s.drop_first(), a, b)
    }
}

/// `run_until` stays inside `s`.
pub proof fn lemma_run_until(s: Seq<char>, a: char, b: char)
    ensures
        0 <= run_until(s, a, b) <= s.len(),
    decreases s.len(),
{
    if s.len() > 0 && !is_ws(s[0]) && s[0] != a && s[0] != b {
        lemma_run_until(s.drop_first(), a, b);
    }
}

/// The index of the first white space, `a` or `b` at or after `from`, or the end.
pub fn run_until_exec(v: &Vec<char>, from: usize, a: char, b: char) -> (e: usize)
    requires
        from <= v@.len(),
    ensures
        from <= e <= v@.len(),
        e - from == run_until(v@.skip(from as int), a, b),
{
    let mut i = from;
    while i < v.len() && !is_whitespace(v[i]) && v[i] != a && v[i] != b
        invariant
            from <= i <= v@.len(),
            run_until(v@.skip(from as int), a, b) == (i - from) + run_until(v@.skip(i as int), a, b),
        decreases v.len() - i,
    {
        assert(v@.skip(i as int).drop_first() == v@.skip(i + 1));
        i += 1;
    }
    i
}

/// The end of a value quoted with `q` whose text starts at `k`: the closing quote, or the
/// end of the text.
pub open spec fn quote_end(h: Seq<char>, q: char, k: int) -> int {
    match find_char_from(h, q, k) {
        Some(e) => e,
        None => h.len() as int,
    }
}

/// The value of an attribute whose value starts at index `k`: up to the matching quote
/// when it starts with `"` or `'`, otherwise up to white space, `>` or `/`.
pub open spec fn value_at(h: Seq<char>, k: int) -> Seq<char> {
    if k < h.len() && h[k] == '"' {
        h.subrange(k + 1, quote_end(h, '"', k + 1))
    } else if k < h.len() && h[k] == '\'' {
        h.subrange(k + 1, quote_end(h, '\'', k + 1))
    } else {
        h.subrange(k, k + run_until(h.skip(k), '>', '/'))
    }
}

/// `quote_end` lies between `k` and the end.
pub proof fn lemma_quote_end(h: Seq<char>, q: char, k: int)
    requires
        0 <= k <= h.len(),
    ensures
        k <= quote_end(h, q, k) <= h.len(),
{
    lemma_find_from(h, seq![q], k);
}

/// The bounds of the value starting at `k`.
fn value_bounds(h: &Vec<char>, k: usize) -> (r: (usize, usize))
    requires
        k <= h@.len(),
    ensures
        r.0 <= r.1 <= h@.len(),
        h@.subrange(r.0 as int, r.1 as int) == value_at(h@, k as int),
{
    if k < h.len() && (h[k] == '"' || h[k] == '\'') {
        let q = h[k];
        proof {
            lemma_quote_end(h@, q, k + 1);
            lemma_find_from(h@, seq![q], k + 1);
        }
        let e = match find_char_from_exec(h, q, k + 1) {
            Some(e) => e,
            None => h.len(),
        };
        (k + 1, e)
    } else {
        let e = run_until_exec(h, k, '>', '/');
        (k, e)
    }
}

// ---------------------------------------------------------------------------
// Element ids
// ---------------------------------------------------------------------------
/// The non-empty values written after each `id=` from index `i` on, in order.
pub open spec fn ids_from(h: Seq<char>, i: int) -> Seq<Seq<char>>
    decreases h.len() + 1 - i,
{
    if i < 0 {
        seq![]
    } else {
        match find_from(h, "id="@, i) {
            None => seq![],
            Some(p) => {
                proof {
                    lemma_find_from(h, "id="@, i);
                    lemma_lit_id();
                }
                let v = value_at(h, p + 3);
                let head = if v.len() > 0 {
                    seq![v]
                } else {
                    seq![]
                };
                head + ids_from(h, p + 3)
            },
        }
    }
}

/// Every `id` value in the page, once per occurrence.
pub open spec fn spec_element_ids(h: Seq<char>) -> Seq<Seq<char>> {
    ids_from(h, 0)
}

/// The length of a string literal.
pub proof fn lemma_lit_id()
    ensures
        "id="@.len() == 3,
{
    reveal_strlit("id=");
}

/// The ids of the elements of a page, once per occurrence, in document order.
pub fn element_ids(html: &str) -> (ids: Vec<String>)
    ensures
        str_views(ids@) == spec_element_ids(html@),
{
    let h = chars_of(html);
    let needle = chars_of("id=");
    proof {
        lemma_lit_id();
    }
    let mut ids: Vec<String> = Vec::new();
    let mut i: usize = 0;
    loop
        invariant
            h@ == html@,
            needle@ == "id="@,
            "id="@.len() == 3,
            i <= h@.len(),
            str_views(ids@) + ids_from(h@, i as int) == spec_element_ids(html@),
        decreases h@.len() + 1 - i,
    {
        proof {
            lemma_find_from(h@, "id="@, i as int);
        }
        match find_from_exec(&h, &needle, i) {
            None => {
                assert(str_views(ids@) + ids_from(h@, i as int) =~= str_views(ids@));
                return ids;
            },
            Some(p) => {
                assert(occurs_at(h@, needle@, p as int));
                assert(p + 3 <= h.len());
                let (a, b) = value_bounds(&h, p + 3);
                let ghost old_ids = ids@;
                if b > a {
                    ids.push(string_of(&h, a, b));
                    assert(str_views(ids@) =~= str_views(old_ids).push(
                        value_at(h@, p + 3),
                    ));
                }
                assert(str_views(ids@) + ids_from(h@, p + 3) =~= str_views(old_ids) + ids_from(
                    h@,
                    i as int,
                ));
                i = p + 3;
            },
        }
    }
}

/// Whether `id` is one of `ids`.
pub fn has_id(ids: &Vec<String>, id: &str) -> (b: bool)
    ensures
        b == str_views(ids@).contains(id@),
{
    let mut i: usize = 0;
    while i < ids.len()
        invariant
            i <= ids@.len(),
            forall|k: int| 0 <= k < i ==> ids@[k]@ != id@,
        decreases ids.len() - i,
    {
        if crate::text::str_eq(ids[i].as_str(), id) {
            assert(str_views(ids@)[i as int] == id@);
            return true;
        }
        i += 1;
    }
    assert forall|k: int| 0 <= k < ids@.len() implies #[trigger] str_views(ids@)[k] != id@ by {
        assert(ids@[k]@ != id@);
    }
    false
}

// ---------------------------------------------------------------------------
// URL pieces
// ---------------------------------------------------------------------------
/// The text after the first `#`, if any.
pub open spec fn spec_fragment_of(v: Seq<char>) -> Option<Seq<char>> {
    match find_char_from(v, '#', 0) {
        Some(i) => Some(v.skip(i + 1)),
        None => None,
    }
}

/// The fragment of a URL: what follows its first `#`.
pub fn fragment_of(value: &str) -> (r: Option<String>)
    ensures
        r matches Some(f) ==> spec_fragment_of(value@) == Some(f@),
        r is None ==> spec_fragment_of(value@) is None,
{
    let v = chars_of(value);
    proof {
        lemma_find_from(v@, seq!['#'], 0);
    }
    match find_char_from_exec(&v, '#', 0) {
        Some(i) => {
            assert(occurs_at(v@, seq!['#'], i as int));
            assert(seq!['#'].len() == 1);
            assert(i < v.len());
            assert(v@.subrange(i + 1, v@.len() as int) == v@.skip(i + 1));
            Some(string_of(&v, i + 1, v.len()))
        },
        None => None,
    }
}

/// The text before the first `#`, or all of it.
pub open spec fn spec_path_of(v: Seq<char>) -> Seq<char> {
    match find_char_from(v, '#', 0) {
        Some(i) => v.take(i),
        None => v,
    }
}

/// A URL without its fragment.
pub fn path_of(value: &str) -> (r: String)
    ensures
        r@ == spec_path_of(value@),
{
    let v = chars_of(value);
    proof {
        lemma_find_from(v@, seq!['#'], 0);
    }
    match find_char_from_exec(&v, '#', 0) {
        Some(i) => {
            assert(v@.subrange(0, i as int) == v@.take(i as int));
            string_of(&v, 0, i)
        },
        None => string_of_all(&v),
    }
}

/// `v` starts with `p`.
pub open spec fn starts_with(v: Seq<char>, p: Seq<char>) -> bool {
    p.len() <= v.len() && v.take(p.len() as int) == p
}

/// Whether `value` starts with `prefix`.
pub fn starts_with_str(value: &str, prefix: &str) -> (b: bool)
    ensures
        b == starts_with(value@, prefix@),
{
    let v = chars_of(value);
    let p = chars_of(prefix);
    if p.len() > v.len() {
        return false;
    }
    let r = seq_eq(&v, 0, p.len(), &p);
    assert(v@.subrange(0, p@.len() as int) == v@.take(p@.len() as int));
    r
}

/// Whether `value` lies on the site: it starts with the canonical URL.
pub fn same_origin(value: &str, canonical: &str) -> (b: bool)
    ensures
        b == starts_with(value@, canonical@),
{
    starts_with_str(value, canonical)
}

/// The file extensions that mark a link as a file rather than a page, each between dots.
pub const FILE_EXTENSIONS: &'static str = ".txt.xml.md.png.ico.svg.webmanifest.jpg.jpeg.webp.css.js.json";

/// The last index of `c` in `s`, if any.
pub open spec fn rfind_char(s: Seq<char>, c: char) -> Option<int>
    decreases s.len(),
{
    if s.len() == 0 {
        None
    } else if s.last() == c {
        Some(s.len() - 1)
    } else {
        rfind_char(s.drop_last(), c)
    }
}

/// `rfind_char` finds `c` inside `s`.
pub proof fn lemma_rfind_char(s: Seq<char>, c: char)
    ensures
        rfind_char(s, c) matches Some(i) ==> 0 <= i < s.len() && s[i] == c,
    decreases s.len(),
{
    if s.len() > 0 && s.last() != c {
        lemma_rfind_char(s.drop_last(), c);
    }
}

/// The last index of `c` in `v[..to]`.
pub fn rfind_char_exec(v: &Vec<char>, to: usize, c: char) -> (r: Option<usize>)
    requires
        to <= v@.len(),
    ensures
        r matches Some(i) ==> rfind_char(v@.take(to as int), c) == Some(i as int),
        r is None ==> rfind_char(v@.take(to as int), c) is None,
{
    let mut k = to;
    while k > 0
        invariant
            k <= to <= v@.len(),
            rfind_char(v@.take(to as int), c) == rfind_char(v@.take(k as int), c),
        decreases k,
    {
        if v[k - 1] == c {
            return Some(k - 1);
        }
        assert(v@.take(k as int).drop_last() == v@.take(k - 1));
        k -= 1;
    }
    None
}

/// The path names a file: its last extension is one of `FILE_EXTENSIONS`.
pub open spec fn spec_is_file_path(p: Seq<char>) -> bool {
    match rfind_char(p, '.') {
        Some(i) => contains(FILE_EXTENSIONS@, seq!['.'] + p.skip(i + 1) + seq!['.']),
        None => false,
    }
}

/// Whether a link path names a file rather than a page.
pub fn is_file_path(path: &str) -> (b: bool)
    ensures
        b == spec_is_file_path(path@),
{
    let v = chars_of(path);
    assert(v@.take(v@.len() as int) == v@);
    match rfind_char_exec(&v, v.len(), '.') {
        Some(i) => {
            proof {
                lemma_rfind_char(v@, '.');
            }
            let mut needle: Vec<char> = Vec::new();
            needle.push('.');
            let mut k = i + 1;
            while k < v.len()
                invariant
                    i + 1 <= k <= v@.len(),
                    needle@ == seq!['.'] + v@.subrange(i + 1, k as int),
                decreases v.len() - k,
            {
                needle.push(v[k]);
                assert(v@.subrange(i + 1, k + 1) == v@.subrange(i + 1, k as int).push(v@[k as int]));
                k += 1;
            }
            needle.push('.');
            assert(needle@ =~= seq!['.'] + v@.skip(i + 1) + seq!['.']);
            let ext = chars_of(FILE_EXTENSIONS);
            crate::text::find_exec(&ext, &needle).is_some()
        },
        None => false,
    }
}

// ---------------------------------------------------------------------------
// Tag attributes
// ---------------------------------------------------------------------------
/// `v` with `c` removed at both ends (`str::trim_matches(c)`).
pub open spec fn trim_both(v: Seq<char>, c: char) -> Seq<char> {
    trim_end_char(trim_start_char(v, c), c)
}

/// An attribute value without its surrounding quotes.
pub open spec fn unquote(v: Seq<char>) -> Seq<char> {
    trim_both(trim_both(v, '"'), '\'')
}

/// The inside of a tag: `<` removed at the start and `>` at the end.
pub open spec fn tag_body(tag: Seq<char>) -> Seq<char> {
    trim_end_char(trim_start_char(tag, '<'), '>')
}

/// The tokens of `s` from index `i`: runs of characters split at white space outside
/// quotes; `cur` is the token being read and `quote` the open quote.
pub open spec fn tokens(s: Seq<char>, i: int, cur: Seq<char>, quote: Option<char>) -> Seq<Seq<char>>
    decreases s.len() - i,
{
    if i < 0 || i >= s.len() {
        if cur.len() > 0 {
            seq![cur]
        } else {
            seq![]
        }
    } else {
        let c = s[i];
        if quote == Some(c) {
            tokens(s, i + 1, cur.push(c), None)
        } else if c == '"' || c == '\'' {
            tokens(s, i + 1, cur.push(c), Some(c))
        } else if is_ws(c) && quote is None {
            if cur.len() > 0 {
                seq![cur] + tokens(s, i + 1, seq![], None)
            } else {
                tokens(s, i + 1, seq![], None)
            }
        } else {
            tokens(s, i + 1, cur.push(c), quote)
        }
    }
}

/// A `key=value` token as a pair, the value unquoted.
pub open spec fn split_attr(t: Seq<char>) -> Option<(Seq<char>, Seq<char>)> {
    match find_char_from(t, '=', 0) {
        Some(k) => Some((t.take(k), unquote(t.skip(k + 1)))),
        None => None,
    }
}

/// The pairs of the tokens that hold a `=`.
pub open spec fn pairs_of(ts: Seq<Seq<char>>) -> Seq<(Seq<char>, Seq<char>)>
    decreases ts.len(),
{
    if ts.len() == 0 {
        seq![]
    } else {
        let head = match split_attr(ts[0]) {
            Some(p) => seq![p],
            None => seq![],
        };
        head + pairs_of(ts.drop_first())
    }
}

/// The attributes of a tag such as `<a href="/x" class=y>`, in order.
pub open spec fn spec_parse_attrs(tag: Seq<char>) -> Seq<(Seq<char>, Seq<char>)> {
    let body = tag_body(tag);
    pairs_of(tokens(body.skip(crate::text::word_len(body) as int), 0, seq![], None))
}

/// `v[from..to]` with `c` trimmed at both ends, as bounds.
fn trim_both_bounds(v: &Vec<char>, from: usize, to: usize, c: char) -> (r: (usize, usize))
    requires
        from <= to <= v@.len(),
    ensures
        from <= r.0 <= r.1 <= to,
        v@.subrange(r.0 as int, r.1 as int) == trim_both(v@.subrange(from as int, to as int), c),
{
    let mut a = from;
    while a < to && v[a] == c
        invariant
            from <= a <= to <= v@.len(),
            trim_start_char(v@.subrange(a as int, to as int), c) == trim_start_char(
                v@.subrange(from as int, to as int),
                c,
            ),
        decreases to - a,
    {
        assert(v@.subrange(a as int, to as int).drop_first() == v@.subrange(a + 1, to as int));
        a += 1;
    }
    assert(trim_start_char(v@.subrange(a as int, to as int), c) == v@.subrange(a as int, to as int));
    let mut b = to;
    while b > a && v[b - 1] == c
        invariant
            from <= a <= b <= to <= v@.len(),
            trim_end_char(v@.subrange(a as int, b as int), c) == trim_both(
                v@.subrange(from as int, to as int),
                c,
            ),
        decreases b,
    {
        assert(v@.subrange(a as int, b as int).drop_last() == v@.subrange(a as int, b - 1));
        b -= 1;
    }
    (a, b)
}

/// The pair for one token.
fn split_attr_exec(t: &Vec<char>) -> (r: Option<(String, String)>)
    ensures
        r matches Some(p) ==> split_attr(t@) == Some((p.0@, p.1@)),
        r is None ==> split_attr(t@) is None,
{
    proof {
        lemma_find_from(t@, seq!['='], 0);
    }
    match find_char_from_exec(t, '=', 0) {
        Some(k) => {
            assert(occurs_at(t@, seq!['='], k as int));
            assert(k < t.len());
            let key = string_of(t, 0, k);
            let (a, b) = trim_both_bounds(t, k + 1, t.len(), '"');
            let (c, d) = trim_both_bounds(t, a, b, '\'');
            let value = string_of(t, c, d);
            assert(t@.subrange(0, k as int) == t@.take(k as int));
            assert(t@.subrange(k + 1, t@.len() as int) == t@.skip(k + 1));
            Some((key, value))
        },
        None => None,
    }
}

/// The attributes of a tag, in order, with quotes removed from the values.
pub fn parse_attrs(tag: &str) -> (r: Vec<(String, String)>)
    ensures
        r@.map_values(|p: (String, String)| (p.0@, p.1@)) == spec_parse_attrs(tag@),
{
    let v = chars_of(tag);
    assert(v@.subrange(0, v@.len() as int) == v@);
    parse_attrs_chars(&v, 0, v.len())
}

/// The attributes of the tag `v[from..to]`.
pub fn parse_attrs_chars(v: &Vec<char>, from: usize, to: usize) -> (r: Vec<(String, String)>)
    requires
        from <= to <= v@.len(),
    ensures
        r@.map_values(|p: (String, String)| (p.0@, p.1@)) == spec_parse_attrs(
            v@.subrange(from as int, to as int),
        ),
{
    let ghost tag = v@.subrange(from as int, to as int);
    // Trim `<` at the start, then `>` at the end.
    let mut a = from;
    while a < to && v[a] == '<'
        invariant
            from <= a <= to <= v@.len(),
            trim_start_char(v@.subrange(a as int, to as int), '<') == trim_start_char(tag, '<'),
            tag == v@.subrange(from as int, to as int),
        decreases to - a,
    {
        assert(v@.subrange(a as int, to as int).drop_first() == v@.subrange(a + 1, to as int));
        a += 1;
    }
    assert(trim_start_char(v@.subrange(a as int, to as int), '<') == v@.subrange(a as int, to as int));
    let mut b = to;
    while b > a && v[b - 1] == '>'
        invariant
            from <= a <= b <= to <= v@.len(),
            trim_end_char(v@.subrange(a as int, b as int), '>') == tag_body(tag),
        decreases b,
    {
        assert(v@.subrange(a as int, b as int).drop_last() == v@.subrange(a as int, b - 1));
        b -= 1;
    }
    assert(trim_end_char(v@.subrange(a as int, b as int), '>') == v@.subrange(a as int, b as int));
    let ghost body = v@.subrange(a as int, b as int);
    assert(body == tag_body(tag));
    // Skip the tag name.
    let mut n = a;
    while n < b && !is_whitespace(v[n])
        invariant
            a <= n <= b <= v@.len(),
            body == v@.subrange(a as int, b as int),
            crate::text::word_len(body) == (n - a) + crate::text::word_len(v@.subrange(n as int, b as int)),
        decreases b - n,
    {
        assert(v@.subrange(n as int, b as int).drop_first() == v@.subrange(n + 1, b as int));
        n += 1;
    }
    assert(body.skip(crate::text::word_len(body) as int) == v@.subrange(n as int, b as int));
    let ghost s = v@.subrange(n as int, b as int);
    // Tokenize.
    let mut toks: Vec<Vec<char>> = Vec::new();
    let mut cur: Vec<char> = Vec::new();
    let mut quote: Option<char> = None;
    let mut i = n;
    while i < b
        invariant
            n <= i <= b <= v@.len(),
            s == v@.subrange(n as int, b as int),
            toks@.map_values(|t: Vec<char>| t@) + tokens(s, i - n, cur@, quote) == tokens(
                s,
                0,
                seq![],
                None,
            ),
        decreases b - i,
    {
        let c = v[i];
        assert(s[i - n] == c);
        let ghost before = toks@.map_values(|t: Vec<char>| t@);
        let is_q = match quote {
            Some(q) => q == c,
            None => false,
        };
        if is_q {
            cur.push(c);
            quote = None;
        } else if c == '"' || c == '\'' {
            cur.push(c);
            quote = Some(c);
        } else if is_whitespace(c) && quote.is_none() {
            if cur.len() > 0 {
                let t = cur;
                cur = Vec::new();
                toks.push(t);
                assert(toks@.map_values(|t: Vec<char>| t@) =~= before.push(t@));
                assert(before.push(t@) + tokens(s, i + 1 - n, seq![], None) =~= before + (seq![t@]
                    + tokens(s, i + 1 - n, seq![], None)));
            } else {
                cur = Vec::new();
                assert(cur@ =~= seq![]);
            }
        } else {
            cur.push(c);
        }
        i += 1;
    }
    let ghost before = toks@.map_values(|t: Vec<char>| t@);
    if cur.len() > 0 {
        toks.push(cur);
        assert(toks@.map_values(|t: Vec<char>| t@) =~= before.push(cur@));
    } else {
        assert(before + tokens(s, i - n, cur@, quote) =~= before);
    }
    let ghost ts = toks@.map_values(|t: Vec<char>| t@);
    assert(ts == tokens(s, 0, seq![], None));
    // Pairs.
    let mut r: Vec<(String, String)> = Vec::new();
    let mut k: usize = toks.len();
    let mut rev: Vec<(String, String)> = Vec::new();
    while k > 0
        invariant
            k <= toks@.len(),
            ts == toks@.map_values(|t: Vec<char>| t@),
            rev@.map_values(|p: (String, String)| (p.0@, p.1@)).reverse() == pairs_of(ts.skip(k as int)),
        decreases k,
    {
        k -= 1;
        assert(ts.skip(k as int).drop_first() == ts.skip(k + 1));
        assert(ts.skip(k as int)[0] == toks@[k as int]@);
        let ghost old_rev = rev@.map_values(|p: (String, String)| (p.0@, p.1@));
        match split_attr_exec(&toks[k]) {
            Some(p) => {
                rev.push(p);
                assert(rev@.map_values(|p: (String, String)| (p.0@, p.1@)) =~= old_rev.push((p.0@, p.1@)));
                assert(old_rev.push((p.0@, p.1@)).reverse() =~= seq![(p.0@, p.1@)] + old_rev.reverse());
            },
            None => {
                assert(pairs_of(ts.skip(k as int)) =~= pairs_of(ts.skip(k + 1)));
            },
        }
    }
    assert(ts.skip(0) == ts);
    let ghost want = rev@.map_values(|p: (String, String)| (p.0@, p.1@)).reverse();
    let mut j = rev.len();
    while j > 0
        invariant
            j <= rev@.len(),
            want == rev@.map_values(|p: (String, String)| (p.0@, p.1@)).reverse(),
            r@.map_values(|p: (String, String)| (p.0@, p.1@)) == want.take((rev@.len() - j) as int),
        decreases j,
    {
        j -= 1;
        let ghost old_r = r@.map_values(|p: (String, String)| (p.0@, p.1@));
        let p = (rev[j].0.clone(), rev[j].1.clone());
        r.push(p);
        assert(want[(rev@.len() - 1 - j) as int] == (rev@[j as int].0@, rev@[j as int].1@));
        assert(r@.map_values(|p: (String, String)| (p.0@, p.1@)) =~= old_r.push((p.0@, p.1@)));
        assert(want.take((rev@.len() - j) as int) =~= want.take((rev@.len() - j - 1) as int).push(
            want[(rev@.len() - 1 - j) as int],
        ));
    }
    assert(want.take(rev@.len() as int) == want);
    r
}

/// The value of the first attribute named `key`.
pub open spec fn first_attr(attrs: Seq<(Seq<char>, Seq<char>)>, key: Seq<char>) -> Option<Seq<char>>
    decreases attrs.len(),
{
    if attrs.len() == 0 {
        None
    } else if attrs[0].0 == key {
        Some(attrs[0].1)
    } else {
        first_attr(attrs.drop_first(), key)
    }
}

/// The value of the first attribute named `key1` or `key2`.
pub open spec fn first_attr2(attrs: Seq<(Seq<char>, Seq<char>)>, key1: Seq<char>, key2: Seq<char>) -> Option<
    Seq<char>,
>
    decreases attrs.len(),
{
    if attrs.len() == 0 {
        None
    } else if attrs[0].0 == key1 || attrs[0].0 == key2 {
        Some(attrs[0].1)
    } else {
        first_attr2(attrs.drop_first(), key1, key2)
    }
}

/// The value of the first attribute named `key` (or `key2`, when given).
pub(crate) fn find_attr(attrs: &Vec<(String, String)>, key: &str, key2: Option<&str>) -> (r: Option<String>)
    ensures
        ({
            let av = attrs@.map_values(|p: (String, String)| (p.0@, p.1@));
            let want = match key2 {
                Some(k2) => first_attr2(av, key@, k2@),
                None => first_attr(av, key@),
            };
            &&& r matches Some(v) ==> want == Some(v@)
            &&& r is None ==> want is None
        }),
{
    let ghost av = attrs@.map_values(|p: (String, String)| (p.0@, p.1@));
    let mut i: usize = 0;
    assert(av.skip(0) == av);
    while i < attrs.len()
        invariant
            i <= attrs@.len(),
            av == attrs@.map_values(|p: (String, String)| (p.0@, p.1@)),
            first_attr(av, key@) == first_attr(av.skip(i as int), key@),
            key2 matches Some(k2) ==> first_attr2(av, key@, k2@) == first_attr2(
                av.skip(i as int),
                key@,
                k2@,
            ),
        decreases attrs.len() - i,
    {
        assert(av.skip(i as int)[0] == (attrs@[i as int].0@, attrs@[i as int].1@));
        assert(av.skip(i as int).drop_first() == av.skip(i + 1));
        let k = attrs[i].0.as_str();
        let hit = crate::text::str_eq(k, key) || match key2 {
            Some(k2) => crate::text::str_eq(k, k2),
            None => false,
        };
        if hit {
            return Some(attrs[i].1.clone());
        }
        i += 1;
    }
    None
}

// ---------------------------------------------------------------------------
// Finding an element by id
// ---------------------------------------------------------------------------
/// A character that may follow an `id` value.
pub open spec fn is_boundary(h: Seq<char>, k: int) -> bool {
    k >= h.len() || h[k] == '>' || h[k] == '/' || h[k] == ' ' || h[k] == '"' || h[k] == '\''
}

/// The first occurrence of `n` at or after `i` that is followed by a boundary.
pub open spec fn boundary_match(h: Seq<char>, n: Seq<char>, i: int) -> Option<int>
    decreases h.len() + 1 - i,
{
    if i < 0 || n.len() == 0 {
        None
    } else {
        match find_from(h, n, i) {
            None => None,
            Some(p) => {
                proof {
                    lemma_find_from(h, n, i);
                }
                if is_boundary(h, p + n.len()) {
                    Some(p)
                } else {
                    boundary_match(h, n, p + n.len())
                }
            },
        }
    }
}

/// The ways an `id` attribute may be written: bare, double-quoted, single-quoted.
pub open spec fn id_forms(id: Seq<char>) -> Seq<Seq<char>> {
    seq!["id="@ + id, "id=\""@ + id + "\""@, "id='"@ + id + "'"@]
}

/// The bounds `(start, end)` of the tag around index `p`: the last `<` before it and the
/// first `>` from it.
pub open spec fn tag_range(h: Seq<char>, p: int) -> Option<(int, int)> {
    match rfind_char(h.take(p), '<') {
        None => None,
        Some(st) => match find_char_from(h, '>', p) {
            None => None,
            Some(e) => Some((st, e)),
        },
    }
}

/// The tag carrying `id`, as the indices of its `<` and its `>`.
pub open spec fn spec_tag_at(h: Seq<char>, id: Seq<char>) -> Option<(int, int)> {
    let f = id_forms(id);
    match boundary_match(h, f[0], 0) {
        Some(p) => tag_range(h, p),
        None => match boundary_match(h, f[1], 0) {
            Some(p) => tag_range(h, p),
            None => match boundary_match(h, f[2], 0) {
                Some(p) => tag_range(h, p),
                None => None,
            },
        },
    }
}

/// `tag_range` lies inside the page, `<` before `>`.
pub proof fn lemma_tag_range(h: Seq<char>, p: int)
    requires
        0 <= p <= h.len(),
    ensures
        tag_range(h, p) matches Some((st, e)) ==> 0 <= st < p <= e < h.len() && h[e] == '>' && h[st]
            == '<',
{
    lemma_rfind_char(h.take(p), '<');
    lemma_find_from(h, seq!['>'], p);
    if let Some((st, e)) = tag_range(h, p) {
        assert(h.subrange(e, e + 1)[0] == h[e]);
    }
}

/// Where a match of `n` followed by a boundary starts.
fn boundary_match_exec(h: &Vec<char>, n: &Vec<char>) -> (r: Option<usize>)
    ensures
        r matches Some(p) ==> boundary_match(h@, n@, 0) == Some(p as int),
        r is None ==> boundary_match(h@, n@, 0) is None,
{
    if n.len() == 0 {
        return None;
    }
    let mut i: usize = 0;
    loop
        invariant
            n@.len() > 0,
            i <= h@.len() + 1,
            boundary_match(h@, n@, 0) == boundary_match(h@, n@, i as int),
        decreases h@.len() + 1 - i,
    {
        proof {
            lemma_find_from(h@, n@, i as int);
        }
        match find_from_exec(h, n, i) {
            None => return None,
            Some(p) => {
                assert(occurs_at(h@, n@, p as int));
                assert(p + n.len() <= h.len());
                let k = p + n.len();
                let boundary = k >= h.len() || h[k] == '>' || h[k] == '/' || h[k] == ' ' || h[k]
                    == '"' || h[k] == '\'';
                if boundary {
                    return Some(p);
                }
                i = k;
            },
        }
    }
}

/// The tag range around `p`.
fn tag_range_exec(h: &Vec<char>, p: usize) -> (r: Option<(usize, usize)>)
    requires
        p <= h@.len(),
    ensures
        r matches Some(t) ==> tag_range(h@, p as int) == Some((t.0 as int, t.1 as int)),
        r is None ==> tag_range(h@, p as int) is None,
{
    match rfind_char_exec(h, p, '<') {
        None => None,
        Some(st) => match find_char_from_exec(h, '>', p) {
            None => None,
            Some(e) => Some((st, e)),
        },
    }
}

/// The characters of `"id=" + id`, quoted as asked.
fn id_form(id: &Vec<char>, quote: Option<char>) -> (r: Vec<char>)
    ensures
        quote is None ==> r@ == "id="@ + id@,
        quote == Some('"') ==> r@ == "id=\""@ + id@ + "\""@,
        quote == Some('\'') ==> r@ == "id='"@ + id@ + "'"@,
{
    let mut r = chars_of("id=");
    let ghost head = r@;
    match quote {
        Some(q) => r.push(q),
        None => {},
    }
    let ghost head2 = r@;
    let mut i: usize = 0;
    while i < id.len()
        invariant
            i <= id@.len(),
            r@ == head2 + id@.take(i as int),
        decreases id.len() - i,
    {
        r.push(id[i]);
        assert(id@.take(i + 1) == id@.take(i as int).push(id@[i as int]));
        i += 1;
    }
    assert(id@.take(id@.len() as int) == id@);
    match quote {
        Some(q) => r.push(q),
        None => {},
    }
    proof {
        reveal_strlit("id=");
        reveal_strlit("id=\"");
        reveal_strlit("id='");
        reveal_strlit("\"");
        reveal_strlit("'");
        if quote is None {
            assert(r@ =~= "id="@ + id@);
        } else if quote == Some('"') {
            assert(r@ =~= "id=\""@ + id@ + "\""@);
        } else if quote == Some('\'') {
            assert(r@ =~= "id='"@ + id@ + "'"@);
        }
    }
    r
}

/// The `<` and `>` indices of the tag whose `id` is `id`.
pub fn tag_at_chars(h: &Vec<char>, id: &Vec<char>) -> (r: Option<(usize, usize)>)
    ensures
        r matches Some(t) ==> spec_tag_at(h@, id@) == Some((t.0 as int, t.1 as int)),
        r is None ==> spec_tag_at(h@, id@) is None,
{
    let f0 = id_form(id, None);
    let f1 = id_form(id, Some('"'));
    let f2 = id_form(id, Some('\''));
    assert(id_forms(id@)[0] == f0@ && id_forms(id@)[1] == f1@ && id_forms(id@)[2] == f2@);
    let p = match boundary_match_exec(h, &f0) {
        Some(p) => Some(p),
        None => match boundary_match_exec(h, &f1) {
            Some(p) => Some(p),
            None => boundary_match_exec(h, &f2),
        },
    };
    match p {
        Some(p) => {
            proof {
                lemma_find_from(h@, f0@, 0);
                lemma_boundary_match(h@, f0@, 0);
                lemma_boundary_match(h@, f1@, 0);
                lemma_boundary_match(h@, f2@, 0);
            }
            tag_range_exec(h, p)
        },
        None => None,
    }
}

/// A boundary match lies inside the page.
proof fn lemma_boundary_match(h: Seq<char>, n: Seq<char>, i: int)
    requires
        0 <= i,
    ensures
        boundary_match(h, n, i) matches Some(p) ==> 0 <= p <= h.len(),
    decreases h.len() + 1 - i,
{
    if n.len() > 0 {
        lemma_find_from(h, n, i);
        if let Some(p) = find_from(h, n, i) {
            if !is_boundary(h, p + n.len()) {
                lemma_boundary_match(h, n, p + n.len());
            }
        }
    }
}

/// The start and end of the tag whose `id` is `id` in `html`.
pub fn tag_at(html: &str, id: &str) -> (r: Option<(usize, usize)>)
    ensures
        r matches Some(t) ==> spec_tag_at(html@, id@) == Some((t.0 as int, t.1 as int)),
        r is None ==> spec_tag_at(html@, id@) is None,
{
    let h = chars_of(html);
    let i = chars_of(id);
    tag_at_chars(&h, &i)
}

/// The tag of element `id` is found inside the page.
pub proof fn lemma_tag_at(h: Seq<char>, id: Seq<char>)
    ensures
        spec_tag_at(h, id) matches Some((st, e)) ==> 0 <= st < e < h.len() && h[e] == '>',
{
    let f = id_forms(id);
    lemma_boundary_match(h, f[0], 0);
    lemma_boundary_match(h, f[1], 0);
    lemma_boundary_match(h, f[2], 0);
    if let Some(p) = boundary_match(h, f[0], 0) {
        lemma_tag_range(h, p);
    } else if let Some(p) = boundary_match(h, f[1], 0) {
        lemma_tag_range(h, p);
    } else if let Some(p) = boundary_match(h, f[2], 0) {
        lemma_tag_range(h, p);
    }
}

/// The value of attribute `attr` on the element whose `id` is `id`.
pub open spec fn spec_attr_of(h: Seq<char>, id: Seq<char>, attr: Seq<char>) -> Option<Seq<char>> {
    match spec_tag_at(h, id) {
        None => None,
        Some((st, e)) => first_attr(spec_parse_attrs(h.subrange(st, e + 1)), attr),
    }
}

/// The value of an attribute of the element with the given id.
pub fn attr_of_chars(h: &Vec<char>, id: &Vec<char>, attr: &str) -> (r: Option<String>)
    ensures
        r matches Some(v) ==> spec_attr_of(h@, id@, attr@) == Some(v@),
        r is None ==> spec_attr_of(h@, id@, attr@) is None,
{
    proof {
        lemma_tag_at(h@, id@);
    }
    match tag_at_chars(h, id) {
        None => None,
        Some((st, e)) => {
            assert(e < h.len());
            let attrs = parse_attrs_chars(h, st, e + 1);
            find_attr(&attrs, attr, None)
        },
    }
}

/// The value of attribute `attr` on the element whose `id` is `id`.
pub fn attr_of(html: &str, id: &str, attr: &str) -> (r: Option<String>)
    ensures
        r matches Some(v) ==> spec_attr_of(html@, id@, attr@) == Some(v@),
        r is None ==> spec_attr_of(html@, id@, attr@) is None,
{
    let h = chars_of(html);
    let i = chars_of(id);
    attr_of_chars(&h, &i, attr)
}

// ---------------------------------------------------------------------------
// Text content
// ---------------------------------------------------------------------------
/// `s` without its tags, or `None` when a tag is left open.
pub open spec fn strip_tags(s: Seq<char>) -> Option<Seq<char>>
    decreases s.len(),
{
    match find_char_from(s, '<', 0) {
        None => Some(s),
        Some(p) => match find_char_from(s, '>', p) {
            None => None,
            Some(e) => {
                proof {
                    lemma_find_from(s, seq!['>'], p);
                    lemma_find_from(s, seq!['<'], 0);
                }
                match strip_tags(s.skip(e + 1)) {
                    Some(r) => Some(s.take(p) + r),
                    None => None,
                }
            },
        },
    }
}

/// The name of a tag `<name ...>`.
pub open spec fn tag_name(tag: Seq<char>) -> Seq<char> {
    tag.subrange(1, 1 + run_until(tag.skip(1), '>', '>'))
}

/// The text of element `id`: its content up to `</name>`, tags removed and white space
/// collapsed; `None` when empty or unclosed.
pub open spec fn spec_text_of(h: Seq<char>, id: Seq<char>) -> Option<Seq<char>> {
    match spec_tag_at(h, id) {
        None => None,
        Some((st, e)) => {
            let tag = h.subrange(st, e + 1);
            let name = tag_name(tag);
            let after = h.skip(e + 1);
            match find(after, "</"@ + name + ">"@) {
                None => None,
                Some(close) => match strip_tags(after.take(close)) {
                    None => None,
                    Some(text) => {
                        let collapsed = join_words(words(text));
                        if collapsed.len() > 0 {
                            Some(collapsed)
                        } else {
                            None
                        }
                    },
                },
            }
        },
    }
}

/// `s[from..to]` without its tags.
fn strip_tags_exec(s: &Vec<char>, from: usize, to: usize) -> (r: Option<String>)
    requires
        from <= to <= s@.len(),
    ensures
        r matches Some(t) ==> strip_tags(s@.subrange(from as int, to as int)) == Some(t@),
        r is None ==> strip_tags(s@.subrange(from as int, to as int)) is None,
{
    let seg = slice_vec(s, from, to);
    let mut out = String::new();
    let mut i: usize = 0;
    assert(seg@.skip(0) == seg@);
    loop
        invariant
            i <= seg@.len(),
            seg@ == s@.subrange(from as int, to as int),
            strip_tags(seg@) == match strip_tags(seg@.skip(i as int)) {
                Some(r) => Some(out@ + r),
                None => None,
            },
        decreases seg@.len() - i,
    {
        let ghost rest = seg@.skip(i as int);
        proof {
            lemma_find_from(seg@, seq!['<'], i as int);
            crate::text::lemma_find_shift(seg@, seq!['<'], i as int, 0);
        }
        match find_char_from_exec(&seg, '<', i) {
            None => {
                push_chars(&mut out, &seg, i, seg.len());
                assert(seg@.subrange(i as int, seg@.len() as int) == rest);
                return Some(out);
            },
            Some(p) => {
                proof {
                    lemma_find_from(seg@, seq!['>'], p as int);
                    crate::text::lemma_find_shift(seg@, seq!['>'], i as int, p - i);
                }
                match find_char_from_exec(&seg, '>', p) {
                    None => return None,
                    Some(e) => {
                        assert(occurs_at(seg@, seq!['>'], e as int));
                        assert(e < seg.len());
                        push_chars(&mut out, &seg, i, p);
                        assert(rest.take(p - i) == seg@.subrange(i as int, p as int));
                        assert(rest.skip(e - i + 1) == seg@.skip(e + 1));
                        i = e + 1;
                    },
                }
            },
        }
    }
}

/// `words` joined with single spaces.
fn join_word_bounds(v: &Vec<char>, from: usize, to: usize) -> (r: String)
    requires
        from <= to <= v@.len(),
    ensures
        r@ == join_words(words(v@.subrange(from as int, to as int))),
{
    let w = crate::text::word_bounds(v, from, to);
    let ghost ws = words(v@.subrange(from as int, to as int));
    let mut out = String::new();
    let mut i: usize = 0;
    while i < w.len()
        invariant
            i <= w@.len(),
            from <= to <= v@.len(),
            w@.len() == ws.len(),
            forall|j: int|
                0 <= j < w@.len() ==> {
                    &&& from <= (#[trigger] w@[j]).0 <= w@[j].1 <= to
                    &&& v@.subrange(w@[j].0 as int, w@[j].1 as int) == ws[j]
                },
            out@ == join_words(ws.take(i as int)),
        decreases w.len() - i,
    {
        let (a, b) = w[i];
        if i > 0 {
            out.push(' ');
        }
        push_chars(&mut out, v, a, b);
        assert(ws.take(i + 1).drop_last() == ws.take(i as int));
        i += 1;
    }
    assert(ws.take(ws.len() as int) == ws);
    out
}

/// The text of the element with the given id.
pub fn text_of_chars(h: &Vec<char>, id: &Vec<char>) -> (r: Option<String>)
    ensures
        r matches Some(t) ==> spec_text_of(h@, id@) == Some(t@),
        r is None ==> spec_text_of(h@, id@) is None,
{
    proof {
        lemma_tag_at(h@, id@);
    }
    match tag_at_chars(h, id) {
        None => None,
        Some((st, e)) => {
            let ghost tag = h@.subrange(st as int, e + 1);
            let n_end = run_until_exec(h, st + 1, '>', '>');
            assert(h@.skip(st + 1) =~= tag.skip(1) + h@.skip(e + 1)) by {
                assert(tag.skip(1) =~= h@.subrange(st + 1, e + 1));
            }
            proof {
                lemma_run_until_prefix(tag.skip(1), h@.skip(e + 1), '>');
            }
            let mut close: Vec<char> = Vec::new();
            close.push('<');
            close.push('/');
            let mut k = st + 1;
            while k < n_end
                invariant
                    st + 1 <= k <= n_end <= h@.len(),
                    close@ == seq!['<', '/'] + h@.subrange(st + 1, k as int),
                decreases n_end - k,
            {
                close.push(h[k]);
                assert(h@.subrange(st + 1, k + 1) == h@.subrange(st + 1, k as int).push(h@[k as int]));
                k += 1;
            }
            close.push('>');
            proof {
                reveal_strlit("</");
                reveal_strlit(">");
                assert(tag_name(tag) == h@.subrange(st + 1, n_end as int));
                assert(close@ =~= "</"@ + tag_name(tag) + ">"@);
            }
            assert(e < h.len());
            let after = slice_vec(h, e + 1, h.len());
            assert(after@ == h@.skip(e + 1));
            proof {
                lemma_find_from(after@, close@, 0);
            }
            match crate::text::find_exec(&after, &close) {
                None => None,
                Some(c) => match strip_tags_exec(&after, 0, c) {
                    None => None,
                    Some(text) => {
                        assert(after@.subrange(0, c as int) == after@.take(c as int));
                        let tv = chars_of(text.as_str());
                        let collapsed = join_word_bounds(&tv, 0, tv.len());
                        assert(tv@.subrange(0, tv@.len() as int) == tv@);
                        if !collapsed.as_str().is_empty() {
                            Some(collapsed)
                        } else {
                            assert(collapsed@.len() == 0);
                            None
                        }
                    },
                },
            }
        },
    }
}

/// `run_until` on a prefix that contains a stop character is `run_until` on the whole.
proof fn lemma_run_until_prefix(a: Seq<char>, b: Seq<char>, c: char)
    requires
        a.len() > 0,
        a.last() == c,
    ensures
        run_until(a + b, c, c) == run_until(a, c, c),
        run_until(a, c, c) < a.len(),
    decreases a.len(),
{
    if a[0] != c && !is_ws(a[0]) {
        assert((a + b).drop_first() == a.drop_first() + b);
        if a.len() > 1 {
            lemma_run_until_prefix(a.drop_first(), b, c);
        }
    }
}

/// The text of the element whose `id` is `id`.
pub fn text_of(html: &str, id: &str) -> (r: Option<String>)
    ensures
        r matches Some(t) ==> spec_text_of(html@, id@) == Some(t@),
        r is None ==> spec_text_of(html@, id@) is None,
{
    let h = chars_of(html);
    let i = chars_of(id);
    text_of_chars(&h, &i)
}

// ---------------------------------------------------------------------------
// Accessible names
// ---------------------------------------------------------------------------
/// The texts of the elements named by `ids`, skipping those without text.
pub open spec fn texts_of(h: Seq<char>, ids: Seq<Seq<char>>) -> Seq<Seq<char>>
    decreases ids.len(),
{
    if ids.len() == 0 {
        seq![]
    } else {
        let head = match spec_text_of(h, ids[0]) {
            Some(t) => seq![t],
            None => seq![],
        };
        head + texts_of(h, ids.drop_first())
    }
}

/// The accessible name of element `id`: the texts of the elements its `aria-labelledby`
/// names, joined with spaces, else its `aria-label`.
pub open spec fn spec_accessible_name(h: Seq<char>, id: Seq<char>) -> Option<Seq<char>> {
    let by_ref = match spec_attr_of(h, id, "aria-labelledby"@) {
        Some(r) => texts_of(h, words(r)),
        None => seq![],
    };
    if by_ref.len() > 0 {
        Some(join_words(by_ref))
    } else {
        spec_attr_of(h, id, "aria-label"@)
    }
}

/// The accessible name of the element whose `id` is `id`.
pub fn accessible_name_chars(h: &Vec<char>, id: &Vec<char>) -> (r: Option<String>)
    ensures
        r matches Some(t) ==> spec_accessible_name(h@, id@) == Some(t@),
        r is None ==> spec_accessible_name(h@, id@) is None,
{
    if let Some(referenced) = attr_of_chars(h, id, "aria-labelledby") {
        let rv = chars_of(referenced.as_str());
        let w = crate::text::word_bounds(&rv, 0, rv.len());
        assert(rv@.subrange(0, rv@.len() as int) == rv@);
        let ghost ws = words(rv@);
        let mut parts: Vec<String> = Vec::new();
        let mut k = w.len();
        // Collect from the back so each step prepends.
        let mut rev: Vec<String> = Vec::new();
        while k > 0
            invariant
                k <= w@.len(),
                w@.len() == ws.len(),
                forall|j: int|
                    0 <= j < w@.len() ==> {
                        &&& (#[trigger] w@[j]).0 <= w@[j].1 <= rv@.len()
                        &&& rv@.subrange(w@[j].0 as int, w@[j].1 as int) == ws[j]
                    },
                crate::text::str_views(rev@).reverse() == texts_of(h@, ws.skip(k as int)),
            decreases k,
        {
            k -= 1;
            let (a, b) = w[k];
            let one = slice_vec(&rv, a, b);
            assert(ws.skip(k as int).drop_first() == ws.skip(k + 1));
            assert(ws.skip(k as int)[0] == ws[k as int]);
            let ghost old_rev = crate::text::str_views(rev@);
            match text_of_chars(h, &one) {
                Some(t) => {
                    rev.push(t);
                    assert(crate::text::str_views(rev@) =~= old_rev.push(t@));
                    assert(old_rev.push(t@).reverse() =~= seq![t@] + old_rev.reverse());
                },
                None => {},
            }
        }
        assert(ws.skip(0) == ws);
        if rev.len() > 0 {
            let ghost parts_v = crate::text::str_views(rev@).reverse();
            let mut out = String::new();
            let mut j = rev.len();
            while j > 0
                invariant
                    j <= rev@.len(),
                    parts_v == crate::text::str_views(rev@).reverse(),
                    j < rev@.len() ==> out@ == join_words(parts_v.take((rev@.len() - j) as int)),
                    j == rev@.len() ==> out@.len() == 0,
                decreases j,
            {
                j -= 1;
                if j + 1 < rev.len() {
                    out.push(' ');
                }
                push_str(&mut out, rev[j].as_str());
                proof {
                    let t = (rev@.len() - j) as int;
                    assert(parts_v[t - 1] == rev@[j as int]@);
                    assert(parts_v.take(t).drop_last() == parts_v.take(t - 1));
                    assert(parts_v.take(t).last() == parts_v[t - 1]);
                    if t == 1 {
                        assert(out@ =~= parts_v[0]);
                    }
                }
            }
            assert(parts_v.take(rev@.len() as int) == parts_v);
            return Some(out);
        }
    }
    attr_of_chars(h, id, "aria-label")
}

/// The accessible name of the element whose `id` is `id`.
pub fn accessible_name(html: &str, id: &str) -> (r: Option<String>)
    ensures
        r matches Some(t) ==> spec_accessible_name(html@, id@) == Some(t@),
        r is None ==> spec_accessible_name(html@, id@) is None,
{
    let h = chars_of(html);
    let i = chars_of(id);
    accessible_name_chars(&h, &i)
}

// ---------------------------------------------------------------------------
// Meta tags and links
// ---------------------------------------------------------------------------
/// The lengths of the literals the page scanners look for.
pub proof fn lemma_scan_literals()
    ensures
        "<meta"@.len() == 5,
        "<meta"@[0] == '<',
        "<a "@.len() == 3,
        "<a "@[0] == '<',
        "<li"@.len() == 3,
{
    reveal_strlit("<meta");
    reveal_strlit("<a ");
    reveal_strlit("<li");
}

/// The tags that open with `open` from index `i`, as `(start, end)` of each, up to the
/// first one left unclosed.
pub open spec fn tags_from(h: Seq<char>, open: Seq<char>, i: int) -> Seq<(int, int)>
    decreases h.len() + 1 - i,
{
    if i < 0 || open.len() == 0 || open[0] == '>' {
        seq![]
    } else {
        match find_from(h, open, i) {
            None => seq![],
            Some(at) => match find_char_from(h, '>', at) {
                None => seq![],
                Some(end) => {
                    proof {
                        lemma_tag_end(h, open, i);
                    }
                    seq![(at, end)] + tags_from(h, open, end)
                },
            },
        }
    }
}

/// A tag opened by `open` ends after its first character.
pub proof fn lemma_tag_end(h: Seq<char>, open: Seq<char>, i: int)
    requires
        0 <= i,
        open.len() > 0,
        open[0] != '>',
        find_from(h, open, i) is Some,
    ensures
        ({
            let at = find_from(h, open, i)->0;
            find_char_from(h, '>', at) matches Some(end) ==> i <= at < end < h.len()
        }),
{
    lemma_find_from(h, open, i);
    let at = find_from(h, open, i)->0;
    lemma_find_from(h, seq!['>'], at);
    assert(h.subrange(at, at + open.len())[0] == h[at]);
    if let Some(end) = find_char_from(h, '>', at) {
        assert(h.subrange(end, end + 1)[0] == h[end]);
    }
}

/// The `(start, end)` of each tag opened by `open`.
fn tags_exec(h: &Vec<char>, open: &str) -> (r: Vec<(usize, usize)>)
    requires
        open@.len() > 0,
        open@[0] != '>',
    ensures
        r@.map_values(|t: (usize, usize)| (t.0 as int, t.1 as int)) == tags_from(h@, open@, 0),
        forall|j: int| 0 <= j < r@.len() ==> (#[trigger] r@[j]).0 < r@[j].1 < h@.len(),
{
    let o = chars_of(open);
    let mut r: Vec<(usize, usize)> = Vec::new();
    let mut i: usize = 0;
    loop
        invariant
            o@ == open@,
            open@.len() > 0,
            open@[0] != '>',
            i <= h@.len(),
            r@.map_values(|t: (usize, usize)| (t.0 as int, t.1 as int)) + tags_from(h@, open@, i as int)
                == tags_from(h@, open@, 0),
            forall|j: int| 0 <= j < r@.len() ==> (#[trigger] r@[j]).0 < r@[j].1 < h@.len(),
        decreases h@.len() + 1 - i,
    {
        let ghost before = r@.map_values(|t: (usize, usize)| (t.0 as int, t.1 as int));
        match find_from_exec(h, &o, i) {
            None => {
                assert(before + tags_from(h@, open@, i as int) =~= before);
                return r;
            },
            Some(at) => {
                proof {
                    lemma_tag_end(h@, open@, i as int);
                }
                match find_char_from_exec(h, '>', at) {
                    None => {
                        assert(before + tags_from(h@, open@, i as int) =~= before);
                        return r;
                    },
                    Some(end) => {
                        r.push((at, end));
                        assert(r@.map_values(|t: (usize, usize)| (t.0 as int, t.1 as int)) =~= before.push(
                            (at as int, end as int),
                        ));
                        assert(before.push((at as int, end as int)) + tags_from(h@, open@, end as int)
                            =~= before + tags_from(h@, open@, i as int));
                        i = end;
                    },
                }
            },
        }
    }
}

/// The `(key, content, tag)` triple of a meta tag that has both.
pub open spec fn meta_of(h: Seq<char>, t: (int, int)) -> Option<(Seq<char>, Seq<char>, Seq<char>)> {
    let tag = h.subrange(t.0, t.1 + 1);
    let attrs = spec_parse_attrs(tag);
    match (first_attr2(attrs, "name"@, "property"@), first_attr(attrs, "content"@)) {
        (Some(k), Some(c)) => Some((k, c, tag)),
        _ => None,
    }
}

/// The meta triples of a list of tags.
pub open spec fn metas_of(h: Seq<char>, ts: Seq<(int, int)>) -> Seq<(Seq<char>, Seq<char>, Seq<char>)>
    decreases ts.len(),
{
    if ts.len() == 0 {
        seq![]
    } else {
        let head = match meta_of(h, ts[0]) {
            Some(m) => seq![m],
            None => seq![],
        };
        head + metas_of(h, ts.drop_first())
    }
}

/// Every `<meta>` tag with a `name` or `property` and a `content`: the key, the content
/// and the tag's text.
pub open spec fn spec_meta_contents(h: Seq<char>) -> Seq<(Seq<char>, Seq<char>, Seq<char>)> {
    metas_of(h, tags_from(h, "<meta"@, 0))
}

/// The views of meta triples.
pub open spec fn meta_views(m: Seq<(String, String, String)>) -> Seq<(Seq<char>, Seq<char>, Seq<char>)> {
    m.map_values(|x: (String, String, String)| (x.0@, x.1@, x.2@))
}

/// The page's meta tags as `(name or property, content, tag)`.
pub fn meta_contents_chars(h: &Vec<char>) -> (r: Vec<(String, String, String)>)
    ensures
        meta_views(r@) == spec_meta_contents(h@),
{
    proof {
        lemma_scan_literals();
    }
    let ts = tags_exec(h, "<meta");
    let ghost tv = ts@.map_values(|t: (usize, usize)| (t.0 as int, t.1 as int));
    let mut r: Vec<(String, String, String)> = Vec::new();
    let mut i: usize = 0;
    while i < ts.len()
        invariant
            i <= ts@.len(),
            tv == ts@.map_values(|t: (usize, usize)| (t.0 as int, t.1 as int)),
            forall|j: int| 0 <= j < ts@.len() ==> (#[trigger] ts@[j]).0 < ts@[j].1 < h@.len(),
            meta_views(r@) == metas_of(h@, tv.take(i as int)),
        decreases ts.len() - i,
    {
        let (at, end) = ts[i];
        assert(ts@[i as int].1 < h@.len());
        assert(end < h.len());
        let attrs = parse_attrs_chars(h, at, end + 1);
        let key = find_attr(&attrs, "name", Some("property"));
        let content = find_attr(&attrs, "content", None);
        let ghost before = meta_views(r@);
        proof {
            lemma_metas_push(h@, tv.take(i as int), tv[i as int]);
            assert(tv.take(i + 1) == tv.take(i as int).push(tv[i as int]));
        }
        match (key, content) {
            (Some(k), Some(c)) => {
                let tag = string_of(h, at, end + 1);
                r.push((k, c, tag));
                assert(meta_views(r@) =~= before.push((k@, c@, tag@)));
            },
            _ => {},
        }
        i += 1;
    }
    assert(tv.take(ts@.len() as int) == tv);
    r
}

/// `metas_of` over a list with one more tag.
proof fn lemma_metas_push(h: Seq<char>, ts: Seq<(int, int)>, t: (int, int))
    ensures
        metas_of(h, ts.push(t)) == metas_of(h, ts) + match meta_of(h, t) {
            Some(m) => seq![m],
            None => seq![],
        },
    decreases ts.len(),
{
    if ts.len() == 0 {
        assert(ts.push(t).drop_first() =~= Seq::<(int, int)>::empty());
        assert(ts.push(t)[0] == t);
        assert(metas_of(h, ts.push(t).drop_first()) =~= Seq::empty());
        assert(metas_of(h, ts) =~= Seq::empty());
    } else {
        assert(ts.push(t).drop_first() == ts.drop_first().push(t));
        assert(ts.push(t)[0] == ts[0]);
        lemma_metas_push(h, ts.drop_first(), t);
        let hd = match meta_of(h, ts[0]) {
            Some(m) => seq![m],
            None => seq![],
        };
        let tl = match meta_of(h, t) {
            Some(m) => seq![m],
            None => seq![],
        };
        assert(hd + (metas_of(h, ts.drop_first()) + tl) =~= (hd + metas_of(h, ts.drop_first())) + tl);
    }
}

/// The page's meta tags as `(name or property, content, tag)`.
pub fn meta_contents(html: &str) -> (r: Vec<(String, String, String)>)
    ensures
        meta_views(r@) == spec_meta_contents(html@),
{
    let h = chars_of(html);
    meta_contents_chars(&h)
}

/// The `href` of each `<a ` tag that has one.
pub open spec fn hrefs_of(h: Seq<char>, ts: Seq<(int, int)>) -> Seq<Seq<char>>
    decreases ts.len(),
{
    if ts.len() == 0 {
        seq![]
    } else {
        let head = match first_attr(spec_parse_attrs(h.subrange(ts[0].0, ts[0].1 + 1)), "href"@) {
            Some(v) => seq![v],
            None => seq![],
        };
        head + hrefs_of(h, ts.drop_first())
    }
}

/// The targets of the page's links.
pub open spec fn spec_anchor_hrefs(h: Seq<char>) -> Seq<Seq<char>> {
    hrefs_of(h, tags_from(h, "<a "@, 0))
}

/// `hrefs_of` over a list with one more tag.
proof fn lemma_hrefs_push(h: Seq<char>, ts: Seq<(int, int)>, t: (int, int))
    ensures
        hrefs_of(h, ts.push(t)) == hrefs_of(h, ts) + match first_attr(
            spec_parse_attrs(h.subrange(t.0, t.1 + 1)),
            "href"@,
        ) {
            Some(v) => seq![v],
            None => seq![],
        },
    decreases ts.len(),
{
    if ts.len() == 0 {
        assert(ts.push(t).drop_first() =~= Seq::<(int, int)>::empty());
        assert(ts.push(t)[0] == t);
        assert(hrefs_of(h, ts.push(t).drop_first()) =~= Seq::empty());
        assert(hrefs_of(h, ts) =~= Seq::empty());
    } else {
        assert(ts.push(t).drop_first() == ts.drop_first().push(t));
        assert(ts.push(t)[0] == ts[0]);
        lemma_hrefs_push(h, ts.drop_first(), t);
        let hd = match first_attr(spec_parse_attrs(h.subrange(ts[0].0, ts[0].1 + 1)), "href"@) {
            Some(v) => seq![v],
            None => seq![],
        };
        let tl = match first_attr(spec_parse_attrs(h.subrange(t.0, t.1 + 1)), "href"@) {
            Some(v) => seq![v],
            None => seq![],
        };
        assert(hd + (hrefs_of(h, ts.drop_first()) + tl) =~= (hd + hrefs_of(h, ts.drop_first())) + tl);
    }
}

/// The `href` values of the page's `<a ` tags, in order.
pub fn anchor_hrefs_chars(h: &Vec<char>) -> (r: Vec<String>)
    ensures
        crate::text::str_views(r@) == spec_anchor_hrefs(h@),
{
    proof {
        lemma_scan_literals();
    }
    let ts = tags_exec(h, "<a ");
    let ghost tv = ts@.map_values(|t: (usize, usize)| (t.0 as int, t.1 as int));
    let mut r: Vec<String> = Vec::new();
    let mut i: usize = 0;
    while i < ts.len()
        invariant
            i <= ts@.len(),
            tv == ts@.map_values(|t: (usize, usize)| (t.0 as int, t.1 as int)),
            forall|j: int| 0 <= j < ts@.len() ==> (#[trigger] ts@[j]).0 < ts@[j].1 < h@.len(),
            crate::text::str_views(r@) == hrefs_of(h@, tv.take(i as int)),
        decreases ts.len() - i,
    {
        let (at, end) = ts[i];
        assert(ts@[i as int].1 < h@.len());
        assert(end < h.len());
        let attrs = parse_attrs_chars(h, at, end + 1);
        let href = find_attr(&attrs, "href", None);
        let ghost before = crate::text::str_views(r@);
        proof {
            lemma_hrefs_push(h@, tv.take(i as int), tv[i as int]);
            assert(tv.take(i + 1) == tv.take(i as int).push(tv[i as int]));
        }
        match href {
            Some(v) => {
                r.push(v);
                assert(crate::text::str_views(r@) =~= before.push(v@));
            },
            None => {},
        }
        i += 1;
    }
    assert(tv.take(ts@.len() as int) == tv);
    r
}

/// The `href` values of the page's `<a ` tags, in order.
pub fn anchor_hrefs(html: &str) -> (r: Vec<String>)
    ensures
        crate::text::str_views(r@) == spec_anchor_hrefs(html@),
{
    let h = chars_of(html);
    anchor_hrefs_chars(&h)
}

// ---------------------------------------------------------------------------
// List items
// ---------------------------------------------------------------------------
/// The number of `<li` tags in `s` from index `i` that are followed by a space, `>` or `/`.
pub open spec fn li_count(s: Seq<char>, i: int) -> nat
    decreases s.len() + 1 - i,
{
    if i < 0 {
        0
    } else {
        match find_from(s, "<li"@, i) {
            None => 0,
            Some(p) => {
                proof {
                    lemma_find_from(s, "<li"@, i);
                    lemma_scan_literals();
                }
                let counted = p + 3 < s.len() && (s[p + 3] == ' ' || s[p + 3] == '>' || s[p + 3]
                    == '/');
                (if counted {
                    1nat
                } else {
                    0nat
                }) + li_count(s, p + 3)
            },
        }
    }
}

/// The number of list items of the list whose `id` is `id`, when its items are plain:
/// `None` when it is missing, unclosed or nests another list.
pub open spec fn spec_list_item_count(h: Seq<char>, id: Seq<char>) -> Option<nat> {
    match spec_tag_at(h, id) {
        None => None,
        Some((_, end)) => {
            let after = h.skip(end + 1);
            let close = match find(after, "</ul>"@) {
                Some(c) => Some(c),
                None => find(after, "</ol>"@),
            };
            match close {
                None => None,
                Some(c) => {
                    let span = after.take(c);
                    if contains(span, "<ul"@) || contains(span, "<ol"@) {
                        None
                    } else {
                        Some(li_count(span, 0))
                    }
                },
            }
        },
    }
}

/// The number of list items of the list with the given id.
pub fn list_item_count_chars(h: &Vec<char>, id: &Vec<char>) -> (r: Option<usize>)
    ensures
        r matches Some(n) ==> spec_list_item_count(h@, id@) == Some(n as nat),
        r is None ==> spec_list_item_count(h@, id@) is None,
{
    proof {
        lemma_tag_at(h@, id@);
        lemma_scan_literals();
    }
    let end = match tag_at_chars(h, id) {
        None => return None,
        Some((_, end)) => end,
    };
    assert(end < h.len());
    let after = slice_vec(h, end + 1, h.len());
    assert(after@ == h@.skip(end + 1));
    let ul = chars_of("</ul>");
    let ol = chars_of("</ol>");
    let close = match crate::text::find_exec(&after, &ul) {
        Some(c) => Some(c),
        None => crate::text::find_exec(&after, &ol),
    };
    let c = match close {
        None => return None,
        Some(c) => c,
    };
    proof {
        lemma_find_from(after@, ul@, 0);
        lemma_find_from(after@, ol@, 0);
    }
    let span = take_chars(&after, c);
    if crate::text::contains_str(&span, "<ul") || crate::text::contains_str(&span, "<ol") {
        return None;
    }
    let li = chars_of("<li");
    let mut count: usize = 0;
    let mut i: usize = 0;
    assert(span@ == h@.skip(end + 1).take(c as int));
    assert(spec_list_item_count(h@, id@) == Some(li_count(span@, 0)));
    loop
        invariant
            spec_list_item_count(h@, id@) == Some(li_count(span@, 0)),
            li@ == "<li"@,
            "<li"@.len() == 3,
            i <= span@.len(),
            count <= i,
            count + li_count(span@, i as int) == li_count(span@, 0),
        decreases span@.len() + 1 - i,
    {
        proof {
            lemma_find_from(span@, li@, i as int);
        }
        match find_from_exec(&span, &li, i) {
            None => return Some(count),
            Some(p) => {
                assert(occurs_at(span@, li@, p as int));
                assert(p + 3 <= span.len());
                let counted = p + 3 < span.len() && (span[p + 3] == ' ' || span[p + 3] == '>'
                    || span[p + 3] == '/');
                if counted {
                    count += 1;
                }
                i = p + 3;
            },
        }
    }
}

/// A copy of `v[..n]`.
fn take_chars(v: &Vec<char>, n: usize) -> (r: Vec<char>)
    requires
        n <= v@.len(),
    ensures
        r@ == v@.take(n as int),
{
    crate::text::take_vec(v, n)
}

/// The number of items of the list whose `id` is `id`.
pub fn list_item_count(html: &str, id: &str) -> (r: Option<usize>)
    ensures
        r matches Some(n) ==> spec_list_item_count(html@, id@) == Some(n as nat),
        r is None ==> spec_list_item_count(html@, id@) is None,
{
    let h = chars_of(html);
    let i = chars_of(id);
    list_item_count_chars(&h, &i)
}

} // verus!
