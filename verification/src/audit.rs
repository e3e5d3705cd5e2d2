//! The structured-data audit of a generated page: the JSON-LD graph must agree with the
//! page's elements, links and meta tags.
use vstd::prelude::*;

use crate::json::{
    Json, JsonV, as_array, as_str, as_u64, clone_json, entry_views, get, jarr, jget, jlookup, jstr,
    ju64, lemma_arr_view, lemma_obj_view, views,
};
use crate::text::{chars_of, push_str, str_eq, str_views, string_of, trim_ws};

verus! {

/// A problem the audit found: the kind of node, its identifier if known, and a message.
#[derive(Debug)]
pub struct AuditIssue {
    pub node_type: String,
    pub id: Option<String>,
    pub message: String,
}

/// The mathematical form of an issue.
pub type IssueV = (Seq<char>, Option<Seq<char>>, Seq<char>);

/// The view of an optional string.
pub open spec fn opt_view(o: Option<String>) -> Option<Seq<char>> {
    match o {
        Some(s) => Some(s@),
        None => None,
    }
}

impl AuditIssue {
    /// The mathematical form of this issue.
    pub open spec fn view(&self) -> IssueV {
        (self.node_type@, opt_view(self.id), self.message@)
    }

    /// An issue.
    pub fn new(node_type: &str, id: Option<String>, message: String) -> (r: Self)
        ensures
            r.view() == (node_type@, opt_view(id), message@),
    {
        AuditIssue { node_type: String::from_str(node_type), id, message }
    }
}

/// The views of a list of issues.
pub open spec fn issue_views(s: Seq<AuditIssue>) -> Seq<IssueV> {
    s.map_values(|i: AuditIssue| i.view())
}

/// Appends one issue.
pub(crate) fn add_issue(out: &mut Vec<AuditIssue>, node_type: &str, id: Option<String>, message: String)
    ensures
        issue_views(final(out)@) == issue_views(old(out)@).push((node_type@, opt_view(id), message@)),
{
    out.push(AuditIssue::new(node_type, id, message));
    assert(issue_views(final(out)@) =~= issue_views(old(out)@).push(
        (node_type@, opt_view(id), message@),
    ));
}

/// Appends a list of issues.
pub(crate) fn append_issues(out: &mut Vec<AuditIssue>, more: Vec<AuditIssue>)
    ensures
        issue_views(final(out)@) == issue_views(old(out)@) + issue_views(more@),
{
    let mut more = more;
    let ghost m = more@;
    out.append(&mut more);
    assert(issue_views(final(out)@) =~= issue_views(old(out)@) + issue_views(m));
}

// ---------------------------------------------------------------------------
// The report
// ---------------------------------------------------------------------------
/// One line of the report.
pub open spec fn report_line(page_path: Seq<char>, i: IssueV) -> Seq<char> {
    "schema audit failed for "@ + page_path + ": "@ + i.0 + " "@ + match i.1 {
        Some(id) => id,
        None => "<no id>"@,
    } + ": "@ + i.2
}

/// The lines of the report.
pub open spec fn report_lines(page_path: Seq<char>, issues: Seq<IssueV>) -> Seq<Seq<char>> {
    Seq::new(issues.len(), |k: int| report_line(page_path, issues[k]))
}

/// `lines` joined with newlines.
pub open spec fn join_lines(lines: Seq<Seq<char>>) -> Seq<char>
    decreases lines.len(),
{
    if lines.len() == 0 {
        seq![]
    } else if lines.len() == 1 {
        lines[0]
    } else {
        join_lines(lines.drop_last()) + seq!['\n'] + lines.last()
    }
}

/// One line per issue, naming the page, the node and the message.
pub fn audit_report(page_path: &str, issues: &[AuditIssue]) -> (r: String)
    ensures
        r@ == join_lines(report_lines(page_path@, issues@.map_values(|i: AuditIssue| i.view()))),
{
    let ghost iv = issues@.map_values(|i: AuditIssue| i.view());
    let ghost lines = report_lines(page_path@, iv);
    let mut out = String::new();
    let mut k: usize = 0;
    while k < issues.len()
        invariant
            k <= issues@.len(),
            iv == issues@.map_values(|i: AuditIssue| i.view()),
            lines == report_lines(page_path@, iv),
            out@ == join_lines(lines.take(k as int)),
        decreases issues.len() - k,
    {
        if k > 0 {
            out.push('\n');
        }
        let i = &issues[k];
        let ghost before = out@;
        push_str(&mut out, "schema audit failed for ");
        push_str(&mut out, page_path);
        push_str(&mut out, ": ");
        push_str(&mut out, i.node_type.as_str());
        push_str(&mut out, " ");
        match &i.id {
            Some(id) => push_str(&mut out, id.as_str()),
            None => push_str(&mut out, "<no id>"),
        }
        push_str(&mut out, ": ");
        push_str(&mut out, i.message.as_str());
        proof {
            assert(iv[k as int] == i.view());
            assert(lines[k as int] == report_line(page_path@, iv[k as int]));
            assert(lines.take(k + 1).drop_last() == lines.take(k as int));
            assert(lines.take(k + 1).last() == lines[k as int]);
            if k == 0 {
                assert(out@ =~= lines[0]);
            } else {
                assert(out@ =~= before + lines[k as int]);
            }
        }
        k += 1;
    }
    assert(lines.take(issues@.len() as int) == lines);
    out
}

// ---------------------------------------------------------------------------
// Node types
// ---------------------------------------------------------------------------
/// The string items of an array, in order.
pub open spec fn string_items(a: Seq<JsonV>) -> Seq<Seq<char>>
    decreases a.len(),
{
    if a.len() == 0 {
        seq![]
    } else {
        let head = match a[0] {
            JsonV::Str(s) => seq![s],
            _ => seq![],
        };
        head + string_items(a.drop_first())
    }
}

/// The `@type` of a node: a string, or the strings of an array.
pub open spec fn spec_types_of(n: JsonV) -> Seq<Seq<char>> {
    match jget(n, "@type"@) {
        JsonV::Arr(a) => string_items(a),
        JsonV::Str(t) => seq![t],
        _ => seq![],
    }
}

/// The types of a node.
pub fn types_of(node: &Json) -> (r: Vec<String>)
    ensures
        str_views(r@) == spec_types_of(node.view()),
{
    match get(node, "@type") {
        Some(t) => match t {
            Json::Arr(a) => {
                proof {
                    lemma_arr_view(*a);
                }
                let ghost av = views(a@);
                let mut r: Vec<String> = Vec::new();
                let mut k = a.len();
                let mut rev: Vec<String> = Vec::new();
                while k > 0
                    invariant
                        k <= a@.len(),
                        av == views(a@),
                        str_views(rev@).reverse() == string_items(av.skip(k as int)),
                    decreases k,
                {
                    k -= 1;
                    assert(av.skip(k as int).drop_first() == av.skip(k + 1));
                    assert(av.skip(k as int)[0] == a@[k as int].view());
                    let ghost old = str_views(rev@);
                    match &a[k] {
                        Json::Str(s) => {
                            rev.push(s.clone());
                            assert(str_views(rev@) =~= old.push(s@));
                            assert(old.push(s@).reverse() =~= seq![s@] + old.reverse());
                        },
                        _ => {},
                    }
                }
                assert(av.skip(0) == av);
                let mut j = rev.len();
                while j > 0
                    invariant
                        j <= rev@.len(),
                        str_views(r@) == str_views(rev@).reverse().take((rev@.len() - j) as int),
                    decreases j,
                {
                    j -= 1;
                    let ghost old = str_views(r@);
                    r.push(rev[j].clone());
                    assert(str_views(r@) =~= old.push(rev@[j as int]@));
                    assert(str_views(rev@).reverse().take((rev@.len() - j) as int) =~= str_views(
                        rev@,
                    ).reverse().take((rev@.len() - j - 1) as int).push(rev@[j as int]@));
                }
                assert(str_views(rev@).reverse().take(rev@.len() as int) == str_views(rev@).reverse());
                r
            },
            Json::Str(s) => {
                let mut r: Vec<String> = Vec::new();
                r.push(s.clone());
                assert(str_views(r@) =~= seq![s@]);
                r
            },
            _ => Vec::new(),
        },
        None => Vec::new(),
    }
}

/// `types` holds one of `wanted`.
pub open spec fn has_any(types: Seq<Seq<char>>, wanted: Seq<Seq<char>>) -> bool {
    exists|i: int| 0 <= i < types.len() && #[trigger] wanted.contains(types[i])
}

/// Whether one of `types` is one of `wanted`.
pub(crate) fn has_any_type(types: &Vec<String>, wanted: &Vec<String>) -> (b: bool)
    ensures
        b == has_any(str_views(types@), str_views(wanted@)),
{
    let ghost tv = str_views(types@);
    let ghost wv = str_views(wanted@);
    let mut i: usize = 0;
    while i < types.len()
        invariant
            i <= types@.len(),
            tv == str_views(types@),
            wv == str_views(wanted@),
            forall|a: int| 0 <= a < i ==> !(#[trigger] wv.contains(tv[a])),
        decreases types.len() - i,
    {
        let mut j: usize = 0;
        while j < wanted.len()
            invariant
                i < types@.len(),
                j <= wanted@.len(),
                tv == str_views(types@),
                wv == str_views(wanted@),
                forall|b: int| 0 <= b < j ==> tv[i as int] != #[trigger] wv[b],
            decreases wanted.len() - j,
        {
            if str_eq(types[i].as_str(), wanted[j].as_str()) {
                assert(tv[i as int] == wv[j as int]);
                assert(wv.contains(tv[i as int]));
                return true;
            }
            j += 1;
        }
        assert(!wv.contains(tv[i as int]));
        i += 1;
    }
    false
}

/// A list of type names.
pub(crate) fn type_list(names: &[&str]) -> (r: Vec<String>)
    ensures
        str_views(r@) == names@.map_values(|s: &str| s@),
{
    let mut r: Vec<String> = Vec::new();
    let mut i: usize = 0;
    while i < names.len()
        invariant
            i <= names@.len(),
            str_views(r@) == names@.map_values(|s: &str| s@).take(i as int),
        decreases names.len() - i,
    {
        let ghost old = str_views(r@);
        r.push(String::from_str(names[i]));
        assert(str_views(r@) =~= old.push(names@[i as int]@));
        assert(names@.map_values(|s: &str| s@).take(i + 1) =~= names@.map_values(|s: &str| s@).take(
            i as int,
        ).push(names@[i as int]@));
        i += 1;
    }
    assert(names@.map_values(|s: &str| s@).take(names@.len() as int) == names@.map_values(
        |s: &str| s@,
    ));
    r
}

/// The types whose identifiers must point at elements of the page.
pub open spec fn subordinate_types() -> Seq<Seq<char>> {
    seq![
        "Person"@,
        "WebPage"@,
        "ProfilePage"@,
        "WebPageElement"@,
        "BlogPosting"@,
        "BreadcrumbList"@,
        "Blog"@,
        "ItemList"@,
        "ListItem"@,
        "SiteNavigationElement"@,
    ]
}

/// The types that describe a whole page.
pub open spec fn page_types() -> Seq<Seq<char>> {
    seq!["WebPage"@, "ProfilePage"@, "Blog"@, "CollectionPage"@]
}

/// The types above the page, which only need a name and an identifier.
pub open spec fn superior_types() -> Seq<Seq<char>> {
    seq!["WebSite"@]
}

/// The list types, whose items carry positions.
pub open spec fn list_types() -> Seq<Seq<char>> {
    seq!["BreadcrumbList"@, "ItemList"@]
}

/// The subordinate type names.
pub(crate) fn subordinate_list() -> (r: Vec<String>)
    ensures
        str_views(r@) == subordinate_types(),
{
    let names: [&str; 10] = [
        "Person",
        "WebPage",
        "ProfilePage",
        "WebPageElement",
        "BlogPosting",
        "BreadcrumbList",
        "Blog",
        "ItemList",
        "ListItem",
        "SiteNavigationElement",
    ];
    let r = type_list(&names);
    assert(names@.map_values(|s: &str| s@) =~= subordinate_types());
    r
}

/// The page type names.
pub(crate) fn page_list() -> (r: Vec<String>)
    ensures
        str_views(r@) == page_types(),
{
    let names: [&str; 4] = ["WebPage", "ProfilePage", "Blog", "CollectionPage"];
    let r = type_list(&names);
    assert(names@.map_values(|s: &str| s@) =~= page_types());
    r
}

/// The superior type names.
pub(crate) fn superior_list() -> (r: Vec<String>)
    ensures
        str_views(r@) == superior_types(),
{
    let names: [&str; 1] = ["WebSite"];
    let r = type_list(&names);
    assert(names@.map_values(|s: &str| s@) =~= superior_types());
    r
}

/// The list type names.
pub(crate) fn list_list() -> (r: Vec<String>)
    ensures
        str_views(r@) == list_types(),
{
    let names: [&str; 2] = ["BreadcrumbList", "ItemList"];
    let r = type_list(&names);
    assert(names@.map_values(|s: &str| s@) =~= list_types());
    r
}

/// A single type name.
pub(crate) fn one_type(name: &str) -> (r: Vec<String>)
    ensures
        str_views(r@) == seq![name@],
{
    let mut r: Vec<String> = Vec::new();
    r.push(String::from_str(name));
    assert(str_views(r@) =~= seq![name@]);
    r
}

/// `types` joined with commas.
pub open spec fn join_commas(types: Seq<Seq<char>>) -> Seq<char>
    decreases types.len(),
{
    if types.len() == 0 {
        seq![]
    } else if types.len() == 1 {
        types[0]
    } else {
        join_commas(types.drop_last()) + seq![','] + types.last()
    }
}

/// The label of a node for messages: its types joined with commas.
pub(crate) fn type_label(types: &Vec<String>) -> (r: String)
    ensures
        r@ == join_commas(str_views(types@)),
{
    let ghost tv = str_views(types@);
    let mut out = String::new();
    let mut k: usize = 0;
    while k < types.len()
        invariant
            k <= types@.len(),
            tv == str_views(types@),
            out@ == join_commas(tv.take(k as int)),
        decreases types.len() - k,
    {
        let ghost before = out@;
        if k > 0 {
            out.push(',');
        }
        push_str(&mut out, types[k].as_str());
        proof {
            assert(tv.take(k + 1).drop_last() == tv.take(k as int));
            assert(tv.take(k + 1).last() == tv[k as int]);
            if k == 0 {
                assert(out@ =~= tv[0]);
            }
        }
        k += 1;
    }
    assert(tv.take(types@.len() as int) == tv);
    out
}

/// The string at `node[key]`.
pub open spec fn member_str(n: JsonV, key: Seq<char>) -> Option<Seq<char>> {
    jstr(jget(n, key))
}

/// A copy of the string at `node[key]`.
pub(crate) fn member_string(node: &Json, key: &str) -> (r: Option<String>)
    ensures
        opt_view(r) == member_str(node.view(), key@),
{
    match get(node, key) {
        Some(v) => match as_str(v) {
            Some(s) => Some(String::from_str(s)),
            None => None,
        },
        None => None,
    }
}

// ---------------------------------------------------------------------------
// The graph's nodes and references
// ---------------------------------------------------------------------------
/// The typed objects in a value, in document order (an object before the values inside
/// it).
pub open spec fn flat(v: JsonV) -> Seq<JsonV>
    decreases v,
{
    match v {
        JsonV::Arr(a) => flat_seq(a),
        JsonV::Obj(m) => (if spec_types_of(v).len() > 0 {
            seq![v]
        } else {
            seq![]
        }) + flat_entries(m),
        _ => seq![],
    }
}

/// The typed objects in a list of values.
pub open spec fn flat_seq(a: Seq<JsonV>) -> Seq<JsonV>
    decreases a,
{
    if a.len() == 0 {
        seq![]
    } else {
        flat_seq(a.drop_last()) + flat(a.last())
    }
}

/// The typed objects in the values of an object's entries.
pub open spec fn flat_entries(m: Seq<(Seq<char>, JsonV)>) -> Seq<JsonV>
    decreases m,
{
    if m.len() == 0 {
        seq![]
    } else {
        flat_entries(m.drop_last()) + flat(m.last().1)
    }
}

/// Appends the typed objects of `value` to `out`.
pub fn flatten(value: &Json, out: &mut Vec<Json>)
    ensures
        views(final(out)@) == views(old(out)@) + flat(value.view()),
    decreases value,
{
    match value {
        Json::Arr(items) => {
            proof {
                lemma_arr_view(*items);
            }
            let ghost av = views(items@);
            let ghost start = views(out@);
            let mut i: usize = 0;
            while i < items.len()
                invariant
                    i <= items@.len(),
                    *value is Arr,
                    value->Arr_0 == *items,
                    av == views(items@),
                    views(out@) == start + flat_seq(av.take(i as int)),
                decreases items.len() - i,
            {
                proof {
                    assert(decreases_to!(*value => value->Arr_0[i as int]));
                }
                flatten(&items[i], out);
                proof {
                    assert(av.take(i + 1).drop_last() == av.take(i as int));
                    assert(av.take(i + 1).last() == items@[i as int].view());
                }
                i += 1;
            }
            assert(av.take(items@.len() as int) == av);
            assert(value.view() == JsonV::Arr(av));
        },
        Json::Obj(m) => {
            proof {
                lemma_obj_view(*m);
            }
            let ghost ev = entry_views(m@);
            let types = types_of(value);
            let ghost start = views(out@);
            if types.len() > 0 {
                out.push(clone_json(value));
                assert(views(out@) =~= start.push(value.view()));
            } else {
                assert(views(out@) =~= start);
            }
            let ghost start2 = views(out@);
            let mut i: usize = 0;
            while i < m.len()
                invariant
                    i <= m@.len(),
                    *value is Obj,
                    value->Obj_0 == *m,
                    ev == entry_views(m@),
                    views(out@) == start2 + flat_entries(ev.take(i as int)),
                decreases m.len() - i,
            {
                proof {
                    assert(decreases_to!(*value => value->Obj_0[i as int].1));
                }
                flatten(&m[i].1, out);
                proof {
                    assert(ev.take(i + 1).drop_last() == ev.take(i as int));
                    assert(ev.take(i + 1).last() == (m@[i as int].0@, m@[i as int].1.view()));
                }
                i += 1;
            }
            assert(ev.take(m@.len() as int) == ev);
            assert(value.view() == JsonV::Obj(ev));
            assert(views(out@) =~= start + flat(value.view()));
        },
        _ => {
            assert(views(out@) =~= views(out@) + flat(value.view()));
        },
    }
}

/// Every `@id` string in a value, in document order.
pub open spec fn refs(v: JsonV) -> Seq<Seq<char>>
    decreases v,
{
    match v {
        JsonV::Arr(a) => refs_seq(a),
        JsonV::Obj(m) => refs_entries(m),
        _ => seq![],
    }
}

/// Every `@id` string in a list of values.
pub open spec fn refs_seq(a: Seq<JsonV>) -> Seq<Seq<char>>
    decreases a,
{
    if a.len() == 0 {
        seq![]
    } else {
        refs_seq(a.drop_last()) + refs(a.last())
    }
}

/// Every `@id` string in an object's entries: an `@id` entry's string itself, any other
/// entry's value searched.
pub open spec fn refs_entries(m: Seq<(Seq<char>, JsonV)>) -> Seq<Seq<char>>
    decreases m,
{
    if m.len() == 0 {
        seq![]
    } else {
        refs_entries(m.drop_last()) + if m.last().0 == "@id"@ {
            match m.last().1 {
                JsonV::Str(s) => seq![s],
                _ => seq![],
            }
        } else {
            refs(m.last().1)
        }
    }
}

/// Appends every `@id` string in `value`.
pub fn collect_refs(value: &Json, out: &mut Vec<String>)
    ensures
        str_views(final(out)@) == str_views(old(out)@) + refs(value.view()),
    decreases value,
{
    match value {
        Json::Arr(items) => {
            proof {
                lemma_arr_view(*items);
            }
            let ghost av = views(items@);
            let ghost start = str_views(out@);
            let mut i: usize = 0;
            while i < items.len()
                invariant
                    i <= items@.len(),
                    *value is Arr,
                    value->Arr_0 == *items,
                    av == views(items@),
                    str_views(out@) == start + refs_seq(av.take(i as int)),
                decreases items.len() - i,
            {
                proof {
                    assert(decreases_to!(*value => value->Arr_0[i as int]));
                }
                collect_refs(&items[i], out);
                proof {
                    assert(av.take(i + 1).drop_last() == av.take(i as int));
                    assert(av.take(i + 1).last() == items@[i as int].view());
                }
                i += 1;
            }
            assert(av.take(items@.len() as int) == av);
            assert(value.view() == JsonV::Arr(av));
        },
        Json::Obj(m) => {
            proof {
                lemma_obj_view(*m);
            }
            let ghost ev = entry_views(m@);
            let ghost start = str_views(out@);
            let mut i: usize = 0;
            while i < m.len()
                invariant
                    i <= m@.len(),
                    *value is Obj,
                    value->Obj_0 == *m,
                    ev == entry_views(m@),
                    str_views(out@) == start + refs_entries(ev.take(i as int)),
                decreases m.len() - i,
            {
                let ghost before = str_views(out@);
                proof {
                    assert(ev.take(i + 1).drop_last() == ev.take(i as int));
                    assert(ev.take(i + 1).last() == (m@[i as int].0@, m@[i as int].1.view()));
                }
                if str_eq(m[i].0.as_str(), "@id") {
                    match &m[i].1 {
                        Json::Str(s) => {
                            out.push(s.clone());
                            assert(str_views(out@) =~= before.push(s@));
                        },
                        _ => {},
                    }
                } else {
                    proof {
                        assert(decreases_to!(*value => value->Obj_0[i as int].1));
                    }
                    collect_refs(&m[i].1, out);
                }
                i += 1;
            }
            assert(ev.take(m@.len() as int) == ev);
            assert(value.view() == JsonV::Obj(ev));
        },
        _ => {
            assert(str_views(out@) =~= str_views(out@) + refs(value.view()));
        },
    }
}

// ---------------------------------------------------------------------------
// JSON-LD blocks
// ---------------------------------------------------------------------------
/// The lengths of the literals the block scanner looks for.
pub proof fn lemma_block_literals()
    ensures
        "<script"@.len() == 7,
        "</script>"@.len() == 9,
        "<script"@[0] == '<',
{
    reveal_strlit("<script");
    reveal_strlit("</script>");
}

/// The trimmed texts of the `application/ld+json` script blocks from index `i`, and the
/// error that stopped the scan, if any.
pub open spec fn blocks_from(h: Seq<char>, i: int) -> (Seq<Seq<char>>, Option<Seq<char>>)
    decreases h.len() + 1 - i,
{
    if i < 0 {
        (seq![], None)
    } else {
        match crate::text::find_from(h, "<script"@, i) {
            None => (seq![], None),
            Some(start) => match crate::text::find_char_from(h, '>', start) {
                None => (seq![], Some("unterminated script tag"@)),
                Some(gt) => {
                    proof {
                        crate::text::lemma_find_from(h, "<script"@, i);
                        crate::text::lemma_find_from(h, seq!['>'], start);
                    }
                    let tag_end = gt + 1;
                    if !crate::text::contains(h.subrange(start, tag_end), "application/ld+json"@) {
                        blocks_from(h, tag_end)
                    } else {
                        match crate::text::find_from(h, "</script>"@, tag_end) {
                            None => (seq![], Some("unterminated ld+json script block"@)),
                            Some(end) => {
                                proof {
                                    crate::text::lemma_find_from(h, "</script>"@, tag_end);
                                    lemma_block_literals();
                                }
                                let rest = blocks_from(h, end + 9);
                                (seq![trim_ws(h.subrange(tag_end, end))] + rest.0, rest.1)
                            },
                        }
                    }
                },
            },
        }
    }
}

/// The trimmed texts of the page's `application/ld+json` script blocks, in order, and the
/// framing error that ended the scan early, if any.
pub fn ld_json_blocks(html: &str) -> (r: (Vec<String>, Option<String>))
    ensures
        str_views(r.0@) == blocks_from(html@, 0).0,
        opt_view(r.1) == blocks_from(html@, 0).1,
{
    let h = chars_of(html);
    let open = chars_of("<script");
    let close = chars_of("</script>");
    let kind = chars_of("application/ld+json");
    proof {
        lemma_block_literals();
    }
    let mut blocks: Vec<String> = Vec::new();
    let mut i: usize = 0;
    loop
        invariant
            h@ == html@,
            open@ == "<script"@,
            close@ == "</script>"@,
            kind@ == "application/ld+json"@,
            "</script>"@.len() == 9,
            i <= h@.len(),
            blocks_from(h@, 0) == (str_views(blocks@) + blocks_from(h@, i as int).0, blocks_from(
                h@,
                i as int,
            ).1),
        decreases h@.len() + 1 - i,
    {
        proof {
            crate::text::lemma_find_from(h@, open@, i as int);
        }
        let start = match crate::text::find_from_exec(&h, &open, i) {
            None => {
                assert(str_views(blocks@) + Seq::<Seq<char>>::empty() =~= str_views(blocks@));
                return (blocks, None);
            },
            Some(start) => start,
        };
        proof {
            crate::text::lemma_find_from(h@, seq!['>'], start as int);
        }
        let gt = match crate::text::find_char_from_exec(&h, '>', start) {
            None => {
                assert(str_views(blocks@) + Seq::<Seq<char>>::empty() =~= str_views(blocks@));
                return (blocks, Some(String::from_str("unterminated script tag")));
            },
            Some(gt) => gt,
        };
        assert(crate::text::occurs_at(h@, seq!['>'], gt as int));
        assert(gt < h.len());
        let tag_end = gt + 1;
        let tag = slice_chars(&h, start, tag_end);
        if !crate::text::find_exec(&tag, &kind).is_some() {
            i = tag_end;
        } else {
            proof {
                crate::text::lemma_find_from(h@, close@, tag_end as int);
            }
            match crate::text::find_from_exec(&h, &close, tag_end) {
                None => {
                    assert(str_views(blocks@) + Seq::<Seq<char>>::empty() =~= str_views(blocks@));
                    return (blocks, Some(String::from_str("unterminated ld+json script block")));
                },
                Some(end) => {
                    assert(crate::text::occurs_at(h@, close@, end as int));
                    assert(end + 9 <= h.len());
                    let (a, b) = crate::text::trim_ws_bounds(&h, tag_end, end);
                    let ghost before = str_views(blocks@);
                    blocks.push(string_of(&h, a, b));
                    assert(str_views(blocks@) =~= before.push(trim_ws(h@.subrange(tag_end as int, end as int))));
                    assert(before.push(trim_ws(h@.subrange(tag_end as int, end as int))) + blocks_from(h@, end + 9).0
                        =~= before + (seq![trim_ws(h@.subrange(tag_end as int, end as int))] + blocks_from(h@, end + 9).0));
                    i = end + 9;
                },
            }
        }
    }
}

/// A copy of `v[from..to]`.
fn slice_chars(v: &Vec<char>, from: usize, to: usize) -> (r: Vec<char>)
    requires
        from <= to <= v@.len(),
    ensures
        r@ == v@.subrange(from as int, to as int),
{
    crate::text::slice_vec(v, from, to)
}

} // verus!
