//! The checks of a page's JSON-LD graph against the page itself, and the audit that runs
//! them in order.
use vstd::prelude::*;

use crate::audit::{
    AuditIssue, IssueV, add_issue, append_issues, collect_refs, has_any, has_any_type, issue_views,
    join_commas, member_str, member_string, opt_view, refs_seq, spec_types_of, type_label, types_of,
};
use crate::html::{
    anchor_hrefs, element_ids, fragment_of, has_id, is_file_path, path_of, same_origin, spec_anchor_hrefs,
    spec_element_ids, spec_fragment_of, spec_is_file_path, spec_path_of, starts_with,
    starts_with_str,
};
use serde_json::Value;
use serde_json::Value::{Array, Bool, Null, Number, Object};
use crate::json::{Json, JsonV, as_array, as_u64, get, jarr, jget, jlookup, jstr, ju64, views};
use crate::html::meta_views;
use crate::text::{dec, push_dec, push_str, str_eq, str_views, trim_end_char, trim_end_matches_char};

verus! {

// ---------------------------------------------------------------------------
// Links
// ---------------------------------------------------------------------------
/// The issues of one link target: a same-page link must name an element of the page,
/// and an internal link to a page (not a file) must carry a fragment.
pub open spec fn link_issues(href: Seq<char>, ids: Seq<Seq<char>>) -> Seq<IssueV> {
    if starts_with(href, "#"@) {
        let frag = href.skip(1);
        if frag.len() > 0 && !ids.contains(frag) {
            seq![
                ("link"@, Some(href), "same-page link \""@ + href
                    + "\" resolves to no element with id=\""@ + frag + "\""@),
            ]
        } else {
            seq![]
        }
    } else if !starts_with(href, "/"@) || starts_with(href, "//"@) {
        seq![]
    } else if spec_is_file_path(spec_path_of(href)) {
        seq![]
    } else if spec_fragment_of(href) is None {
        seq![
            ("link"@, Some(href), "internal link \""@ + href
                + "\" carries no fragment (expected #page style targets)"@),
        ]
    } else {
        seq![]
    }
}

/// The issues of a list of link targets, in order.
pub open spec fn links_issues(hrefs: Seq<Seq<char>>, ids: Seq<Seq<char>>) -> Seq<IssueV>
    decreases hrefs.len(),
{
    if hrefs.len() == 0 {
        seq![]
    } else {
        links_issues(hrefs.drop_last(), ids) + link_issues(hrefs.last(), ids)
    }
}

/// The text of `s` after its first character.
fn skip_first(s: &str) -> (r: String)
    requires
        s@.len() >= 1,
    ensures
        r@ == s@.skip(1),
{
    let v = crate::text::chars_of(s);
    assert(v@.subrange(1, v@.len() as int) == v@.skip(1));
    crate::text::string_of(&v, 1, v.len())
}

/// The issues of one link target.
fn check_link(href: &str, ids: &Vec<String>) -> (r: Vec<AuditIssue>)
    ensures
        issue_views(r@) == link_issues(href@, str_views(ids@)),
{
    let mut r: Vec<AuditIssue> = Vec::new();
    proof {
        reveal_strlit("#");
    }
    if starts_with_str(href, "#") {
        let frag = skip_first(href);
        if !frag.as_str().is_empty() && !has_id(ids, frag.as_str()) {
            let mut m = String::new();
            push_str(&mut m, "same-page link \"");
            push_str(&mut m, href);
            push_str(&mut m, "\" resolves to no element with id=\"");
            push_str(&mut m, frag.as_str());
            push_str(&mut m, "\"");
            add_issue(&mut r, "link", Some(String::from_str(href)), m);
            assert(issue_views(r@) =~= link_issues(href@, str_views(ids@)));
        } else {
            assert(issue_views(r@) =~= link_issues(href@, str_views(ids@)));
        }
        return r;
    }
    if !starts_with_str(href, "/") || starts_with_str(href, "//") {
        assert(issue_views(r@) =~= link_issues(href@, str_views(ids@)));
        return r;
    }
    let path = path_of(href);
    if is_file_path(path.as_str()) {
        assert(issue_views(r@) =~= link_issues(href@, str_views(ids@)));
        return r;
    }
    if fragment_of(href).is_none() {
        let mut m = String::new();
        push_str(&mut m, "internal link \"");
        push_str(&mut m, href);
        push_str(&mut m, "\" carries no fragment (expected #page style targets)");
        add_issue(&mut r, "link", Some(String::from_str(href)), m);
    }
    assert(issue_views(r@) =~= link_issues(href@, str_views(ids@)));
    r
}

/// Appends the issues of the page's links.
fn check_links(hrefs: &Vec<String>, ids: &Vec<String>, out: &mut Vec<AuditIssue>)
    ensures
        issue_views(final(out)@) == issue_views(old(out)@) + links_issues(
            str_views(hrefs@),
            str_views(ids@),
        ),
{
    let ghost hv = str_views(hrefs@);
    let ghost iv = str_views(ids@);
    let ghost start = issue_views(out@);
    let mut k: usize = 0;
    while k < hrefs.len()
        invariant
            k <= hrefs@.len(),
            hv == str_views(hrefs@),
            iv == str_views(ids@),
            issue_views(out@) == start + links_issues(hv.take(k as int), iv),
        decreases hrefs.len() - k,
    {
        let more = check_link(hrefs[k].as_str(), ids);
        let ghost before = issue_views(out@);
        append_issues(out, more);
        proof {
            assert(hv.take(k + 1).drop_last() == hv.take(k as int));
            assert(hv.take(k + 1).last() == hv[k as int]);
            assert(issue_views(out@) =~= start + links_issues(hv.take(k + 1), iv));
        }
        k += 1;
    }
    assert(hv.take(hrefs@.len() as int) == hv);
}

// ---------------------------------------------------------------------------
// Node identifiers and urls
// ---------------------------------------------------------------------------
/// `url` names the audited page: its path equals the page's, trailing slashes aside.
pub open spec fn same_page(url: Seq<char>, this_page: Seq<char>) -> bool {
    trim_end_char(spec_path_of(url), '/') == trim_end_char(this_page, '/')
}

/// `s` ends with a slash.
pub open spec fn ends_with_slash(s: Seq<char>) -> bool {
    s.len() > 0 && s.last() == '/'
}

/// The first of two optional values that is present.
pub open spec fn or_else(a: Option<Seq<char>>, b: Option<Seq<char>>) -> Option<Seq<char>> {
    match a {
        Some(x) => Some(x),
        None => b,
    }
}

/// The identifier and url a node points at: its own, or for a list item those of its
/// `item` (an object's, falling back to the node's, or a plain string identifier with
/// no url).
pub open spec fn target_of(n: JsonV) -> (Option<Seq<char>>, Option<Seq<char>>) {
    let node_id = member_str(n, "@id"@);
    let url = member_str(n, "url"@);
    if has_any(spec_types_of(n), seq!["ListItem"@]) {
        match jlookup(n, "item"@) {
            Some(JsonV::Obj(m)) => (
                or_else(member_str(JsonV::Obj(m), "@id"@), node_id),
                or_else(member_str(JsonV::Obj(m), "url"@), url),
            ),
            _ => match jstr(jget(n, "item"@)) {
                Some(s) => (Some(s), None),
                None => (node_id, url),
            },
        }
    } else {
        (node_id, url)
    }
}

/// The issues of a node's target: identifier and url must agree, and a url of this page
/// must carry a fragment that names an element (after a slash when it is the root).
pub open spec fn target_issues(
    label: Seq<char>,
    id: Seq<char>,
    url: Seq<char>,
    canonical: Seq<char>,
    this_page: Seq<char>,
    ids: Seq<Seq<char>>,
) -> Seq<IssueV> {
    if id != url {
        seq![
            (label, Some(id), "@id \""@ + id + "\" does not match url \""@ + url + "\""@),
        ]
    } else if !starts_with(url, canonical) || !same_page(url, this_page) {
        seq![]
    } else if spec_fragment_of(url) is Some && spec_path_of(url) == canonical && !ends_with_slash(
        canonical,
    ) {
        seq![
            (label, Some(id), "root url \""@ + url + "\" must end with / before the #fragment"@),
        ]
    } else {
        match spec_fragment_of(url) {
            None => seq![(label, Some(id), "url \""@ + url + "\" has no #identifier"@)],
            Some(f) => if ids.contains(f) {
                seq![]
            } else {
                seq![(label, Some(id), "no element with id=\""@ + f + "\""@)]
            },
        }
    }
}

/// The issues of one node: a site-level node needs a name and an identifier; a node of
/// the page needs an identifier and url that agree and point into the page.
pub open spec fn node_issues(
    n: JsonV,
    canonical: Seq<char>,
    this_page: Seq<char>,
    ids: Seq<Seq<char>>,
) -> Seq<IssueV> {
    let types = spec_types_of(n);
    let label = join_commas(types);
    let node_id = member_str(n, "@id"@);
    if has_any(types, crate::audit::superior_types()) {
        (if jget(n, "name"@) is Null {
            seq![(label, node_id, "missing name"@)]
        } else {
            seq![]
        }) + (if node_id is None {
            seq![(label, None, "missing @id"@)]
        } else {
            seq![]
        })
    } else if !has_any(types, crate::audit::subordinate_types()) {
        seq![]
    } else {
        match target_of(n) {
            (Some(id), Some(url)) => target_issues(label, id, url, canonical, this_page, ids),
            _ => seq![(label, node_id, "missing @id or url"@)],
        }
    }
}

/// The node issues of a list of nodes, in order.
pub open spec fn nodes_issues(
    nodes: Seq<JsonV>,
    canonical: Seq<char>,
    this_page: Seq<char>,
    ids: Seq<Seq<char>>,
) -> Seq<IssueV>
    decreases nodes.len(),
{
    if nodes.len() == 0 {
        seq![]
    } else {
        nodes_issues(nodes.drop_last(), canonical, this_page, ids) + node_issues(
            nodes.last(),
            canonical,
            this_page,
            ids,
        )
    }
}

/// Whether `url` names the audited page.
fn is_same_page(url: &str, this_page: &str) -> (b: bool)
    ensures
        b == same_page(url@, this_page@),
{
    let p = path_of(url);
    let a = trim_end_matches_char(p.as_str(), '/');
    let b = trim_end_matches_char(this_page, '/');
    str_eq(a.as_str(), b.as_str())
}

/// Whether `s` ends with a slash.
fn ends_with_slash_exec(s: &str) -> (b: bool)
    ensures
        b == ends_with_slash(s@),
{
    let v = crate::text::chars_of(s);
    v.len() > 0 && v[v.len() - 1] == '/'
}

/// The identifier and url a node points at.
fn target_of_exec(node: &Json) -> (r: (Option<String>, Option<String>))
    ensures
        (opt_view(r.0), opt_view(r.1)) == target_of(node.view()),
{
    let types = types_of(node);
    let item_type = crate::audit::one_type("ListItem");
    let mut id = member_string(node, "@id");
    let mut url = member_string(node, "url");
    proof {
        reveal_strlit("ListItem");
    }
    if has_any_type(&types, &item_type) {
        match get(node, "item") {
            Some(item) => match item {
                Json::Obj(_) => {
                    match member_string(item, "@id") {
                        Some(i) => {
                            id = Some(i);
                        },
                        None => {},
                    }
                    match member_string(item, "url") {
                        Some(u) => {
                            url = Some(u);
                        },
                        None => {},
                    }
                },
                Json::Str(s) => {
                    id = Some(s.clone());
                    url = None;
                },
                _ => {},
            },
            None => {},
        }
    }
    (id, url)
}

/// The issues of a node's target.
fn check_target(
    label: &str,
    id: &str,
    url: &str,
    canonical: &str,
    this_page: &str,
    ids: &Vec<String>,
) -> (r: Vec<AuditIssue>)
    ensures
        issue_views(r@) == target_issues(label@, id@, url@, canonical@, this_page@, str_views(ids@)),
{
    let mut r: Vec<AuditIssue> = Vec::new();
    let ghost want = target_issues(label@, id@, url@, canonical@, this_page@, str_views(ids@));
    if !str_eq(id, url) {
        let mut m = String::new();
        push_str(&mut m, "@id \"");
        push_str(&mut m, id);
        push_str(&mut m, "\" does not match url \"");
        push_str(&mut m, url);
        push_str(&mut m, "\"");
        add_issue(&mut r, label, Some(String::from_str(id)), m);
        assert(issue_views(r@) =~= want);
        return r;
    }
    if !same_origin(url, canonical) || !is_same_page(url, this_page) {
        assert(issue_views(r@) =~= want);
        return r;
    }
    let frag = fragment_of(url);
    let path = path_of(url);
    if frag.is_some() && str_eq(path.as_str(), canonical) && !ends_with_slash_exec(canonical) {
        let mut m = String::new();
        push_str(&mut m, "root url \"");
        push_str(&mut m, url);
        push_str(&mut m, "\" must end with / before the #fragment");
        add_issue(&mut r, label, Some(String::from_str(id)), m);
        assert(issue_views(r@) =~= want);
        return r;
    }
    match frag {
        None => {
            let mut m = String::new();
            push_str(&mut m, "url \"");
            push_str(&mut m, url);
            push_str(&mut m, "\" has no #identifier");
            add_issue(&mut r, label, Some(String::from_str(id)), m);
        },
        Some(f) => {
            if !has_id(ids, f.as_str()) {
                let mut m = String::new();
                push_str(&mut m, "no element with id=\"");
                push_str(&mut m, f.as_str());
                push_str(&mut m, "\"");
                add_issue(&mut r, label, Some(String::from_str(id)), m);
            }
        },
    }
    assert(issue_views(r@) =~= want);
    r
}

/// The type lists the node checks consult.
pub struct TypeLists {
    pub superior: Vec<String>,
    pub subordinate: Vec<String>,
    pub page: Vec<String>,
    pub list: Vec<String>,
}

impl TypeLists {
    /// The lists hold the type names they stand for.
    pub open spec fn wf(&self) -> bool {
        &&& str_views(self.superior@) == crate::audit::superior_types()
        &&& str_views(self.subordinate@) == crate::audit::subordinate_types()
        &&& str_views(self.page@) == crate::audit::page_types()
        &&& str_views(self.list@) == crate::audit::list_types()
    }

    /// The type lists.
    pub fn new() -> (r: Self)
        ensures
            r.wf(),
    {
        TypeLists {
            superior: crate::audit::superior_list(),
            subordinate: crate::audit::subordinate_list(),
            page: crate::audit::page_list(),
            list: crate::audit::list_list(),
        }
    }
}

/// The issues of one node.
fn check_node(
    node: &Json,
    canonical: &str,
    this_page: &str,
    ids: &Vec<String>,
    lists: &TypeLists,
) -> (r: Vec<AuditIssue>)
    requires
        lists.wf(),
    ensures
        issue_views(r@) == node_issues(node.view(), canonical@, this_page@, str_views(ids@)),
{
    let ghost want = node_issues(node.view(), canonical@, this_page@, str_views(ids@));
    let types = types_of(node);
    let label = type_label(&types);
    let node_id = member_string(node, "@id");
    let mut r: Vec<AuditIssue> = Vec::new();
    if has_any_type(&types, &lists.superior) {
        let no_name = match get(node, "name") {
            None => true,
            Some(v) => match v {
                Json::Null => true,
                _ => false,
            },
        };
        let missing_id = node_id.is_none();
        if no_name {
            add_issue(&mut r, label.as_str(), node_id, String::from_str("missing name"));
        }
        if missing_id {
            add_issue(&mut r, label.as_str(), None, String::from_str("missing @id"));
        }
        assert(issue_views(r@) =~= want);
        return r;
    }
    if !has_any_type(&types, &lists.subordinate) {
        assert(issue_views(r@) =~= want);
        return r;
    }
    let (id, url) = target_of_exec(node);
    match (id, url) {
        (Some(id), Some(url)) => {
            let r = check_target(label.as_str(), id.as_str(), url.as_str(), canonical, this_page, ids);
            r
        },
        _ => {
            add_issue(&mut r, label.as_str(), node_id, String::from_str("missing @id or url"));
            assert(issue_views(r@) =~= want);
            r
        },
    }
}

/// Appends the issues of every node.
fn check_nodes(
    nodes: &Vec<Json>,
    canonical: &str,
    this_page: &str,
    ids: &Vec<String>,
    lists: &TypeLists,
    out: &mut Vec<AuditIssue>,
)
    requires
        lists.wf(),
    ensures
        issue_views(final(out)@) == issue_views(old(out)@) + nodes_issues(
            views(nodes@),
            canonical@,
            this_page@,
            str_views(ids@),
        ),
{
    let ghost nv = views(nodes@);
    let ghost iv = str_views(ids@);
    let ghost start = issue_views(out@);
    let mut k: usize = 0;
    while k < nodes.len()
        invariant
            k <= nodes@.len(),
            lists.wf(),
            nv == views(nodes@),
            iv == str_views(ids@),
            issue_views(out@) == start + nodes_issues(nv.take(k as int), canonical@, this_page@, iv),
        decreases nodes.len() - k,
    {
        let more = check_node(&nodes[k], canonical, this_page, ids, lists);
        append_issues(out, more);
        proof {
            assert(nv.take(k + 1).drop_last() == nv.take(k as int));
            assert(nv.take(k + 1).last() == nv[k as int]);
            assert(issue_views(out@) =~= start + nodes_issues(nv.take(k + 1), canonical@, this_page@, iv));
        }
        k += 1;
    }
    assert(nv.take(nodes@.len() as int) == nv);
}

// ---------------------------------------------------------------------------
// References
// ---------------------------------------------------------------------------
/// Some node of the graph has `id` as its identifier.
pub open spec fn defined(nodes: Seq<JsonV>, id: Seq<char>) -> bool {
    exists|k: int| 0 <= k < nodes.len() && #[trigger] member_str(nodes[k], "@id"@) == Some(id)
}

/// The issue of one reference: a reference with a fragment to the site root or to this
/// page must name a node of the graph.
pub open spec fn ref_issues(
    r: Seq<char>,
    nodes: Seq<JsonV>,
    canonical: Seq<char>,
    this_page: Seq<char>,
) -> Seq<IssueV> {
    if !starts_with(r, canonical) || spec_fragment_of(r) is None {
        seq![]
    } else {
        let root = trim_end_char(spec_path_of(r), '/') == trim_end_char(canonical, '/');
        if (root || same_page(r, this_page)) && !defined(nodes, r) {
            seq![
                ("reference"@, Some(r), "reference \""@ + r
                    + "\" is not defined in the page graph"@),
            ]
        } else {
            seq![]
        }
    }
}

/// The issues of a list of references, in order.
pub open spec fn refs_issues(
    rs: Seq<Seq<char>>,
    nodes: Seq<JsonV>,
    canonical: Seq<char>,
    this_page: Seq<char>,
) -> Seq<IssueV>
    decreases rs.len(),
{
    if rs.len() == 0 {
        seq![]
    } else {
        refs_issues(rs.drop_last(), nodes, canonical, this_page) + ref_issues(
            rs.last(),
            nodes,
            canonical,
            this_page,
        )
    }
}

/// The identifiers of the nodes.
fn node_ids(nodes: &Vec<Json>) -> (r: Vec<Option<String>>)
    ensures
        r@.len() == nodes@.len(),
        forall|k: int|
            0 <= k < nodes@.len() ==> opt_view(#[trigger] r@[k]) == member_str(
                nodes@[k].view(),
                "@id"@,
            ),
{
    let mut r: Vec<Option<String>> = Vec::new();
    let mut k: usize = 0;
    while k < nodes.len()
        invariant
            k <= nodes@.len(),
            r@.len() == k,
            forall|j: int|
                0 <= j < k ==> opt_view(#[trigger] r@[j]) == member_str(nodes@[j].view(), "@id"@),
        decreases nodes.len() - k,
    {
        r.push(member_string(&nodes[k], "@id"));
        k += 1;
    }
    r
}

/// Whether some node has `id` as its identifier.
fn is_defined(nodes: &Vec<Json>, ids: &Vec<Option<String>>, id: &str) -> (b: bool)
    requires
        ids@.len() == nodes@.len(),
        forall|k: int|
            0 <= k < nodes@.len() ==> opt_view(#[trigger] ids@[k]) == member_str(
                nodes@[k].view(),
                "@id"@,
            ),
    ensures
        b == defined(views(nodes@), id@),
{
    let ghost nv = views(nodes@);
    let mut k: usize = 0;
    while k < ids.len()
        invariant
            k <= ids@.len(),
            ids@.len() == nodes@.len(),
            nv == views(nodes@),
            forall|j: int|
                0 <= j < nodes@.len() ==> opt_view(#[trigger] ids@[j]) == member_str(
                    nodes@[j].view(),
                    "@id"@,
                ),
            forall|j: int| 0 <= j < k ==> member_str(#[trigger] nv[j], "@id"@) != Some(id@),
        decreases ids.len() - k,
    {
        assert(nv[k as int] == nodes@[k as int].view());
        match &ids[k] {
            Some(d) => {
                if str_eq(d.as_str(), id) {
                    assert(opt_view(ids@[k as int]) == Some(id@));
                    assert(member_str(nv[k as int], "@id"@) == Some(id@));
                    return true;
                }
            },
            None => {},
        }
        assert(opt_view(ids@[k as int]) == member_str(nodes@[k as int].view(), "@id"@));
        k += 1;
    }
    false
}

/// The issues of one reference.
fn check_ref(
    r: &str,
    nodes: &Vec<Json>,
    ids: &Vec<Option<String>>,
    canonical: &str,
    this_page: &str,
) -> (out: Vec<AuditIssue>)
    requires
        ids@.len() == nodes@.len(),
        forall|k: int|
            0 <= k < nodes@.len() ==> opt_view(#[trigger] ids@[k]) == member_str(
                nodes@[k].view(),
                "@id"@,
            ),
    ensures
        issue_views(out@) == ref_issues(r@, views(nodes@), canonical@, this_page@),
{
    let ghost want = ref_issues(r@, views(nodes@), canonical@, this_page@);
    let mut out: Vec<AuditIssue> = Vec::new();
    if !same_origin(r, canonical) || fragment_of(r).is_none() {
        assert(issue_views(out@) =~= want);
        return out;
    }
    let p = path_of(r);
    let a = trim_end_matches_char(p.as_str(), '/');
    let b = trim_end_matches_char(canonical, '/');
    let root = str_eq(a.as_str(), b.as_str());
    if (root || is_same_page(r, this_page)) && !is_defined(nodes, ids, r) {
        let mut m = String::new();
        push_str(&mut m, "reference \"");
        push_str(&mut m, r);
        push_str(&mut m, "\" is not defined in the page graph");
        add_issue(&mut out, "reference", Some(String::from_str(r)), m);
    }
    assert(issue_views(out@) =~= want);
    out
}

/// Appends the issues of every reference in the graph.
fn check_refs(nodes: &Vec<Json>, canonical: &str, this_page: &str, out: &mut Vec<AuditIssue>)
    ensures
        issue_views(final(out)@) == issue_views(old(out)@) + refs_issues(
            refs_seq(views(nodes@)),
            views(nodes@),
            canonical@,
            this_page@,
        ),
{
    let ghost nv = views(nodes@);
    let mut rs: Vec<String> = Vec::new();
    let mut k: usize = 0;
    while k < nodes.len()
        invariant
            k <= nodes@.len(),
            nv == views(nodes@),
            str_views(rs@) == refs_seq(nv.take(k as int)),
        decreases nodes.len() - k,
    {
        collect_refs(&nodes[k], &mut rs);
        proof {
            assert(nv.take(k + 1).drop_last() == nv.take(k as int));
            assert(nv.take(k + 1).last() == nv[k as int]);
        }
        k += 1;
    }
    assert(nv.take(nodes@.len() as int) == nv);
    let ids = node_ids(nodes);
    let ghost rv = str_views(rs@);
    let ghost start = issue_views(out@);
    let mut j: usize = 0;
    while j < rs.len()
        invariant
            j <= rs@.len(),
            nv == views(nodes@),
            rv == str_views(rs@),
            ids@.len() == nodes@.len(),
            forall|k: int|
                0 <= k < nodes@.len() ==> opt_view(#[trigger] ids@[k]) == member_str(
                    nodes@[k].view(),
                    "@id"@,
                ),
            issue_views(out@) == start + refs_issues(rv.take(j as int), nv, canonical@, this_page@),
        decreases rs.len() - j,
    {
        let more = check_ref(rs[j].as_str(), nodes, &ids, canonical, this_page);
        append_issues(out, more);
        proof {
            assert(rv.take(j + 1).drop_last() == rv.take(j as int));
            assert(rv.take(j + 1).last() == rv[j as int]);
            assert(issue_views(out@) =~= start + refs_issues(rv.take(j + 1), nv, canonical@, this_page@));
        }
        j += 1;
    }
    assert(rv.take(rs@.len() as int) == rv);
}

// ---------------------------------------------------------------------------
// List positions
// ---------------------------------------------------------------------------
/// The message for an item whose position is out of sequence.
pub open spec fn position_message(index: nat) -> Seq<char> {
    "itemListElement["@ + dec(index) + "] position is not the sequential "@ + dec(index + 1)
}

/// The issues of the items of a list from index `k` on: each item's `position` must be
/// its index plus one.
pub open spec fn position_issues(
    label: Seq<char>,
    node_id: Option<Seq<char>>,
    items: Seq<JsonV>,
    k: nat,
) -> Seq<IssueV>
    decreases items.len(),
{
    if items.len() == 0 {
        seq![]
    } else {
        position_issues(label, node_id, items.drop_last(), k) + (if ju64(
            jget(items.last(), "position"@),
        ) == Some((k + items.len()) as u64) {
            seq![]
        } else {
            seq![(label, node_id, position_message((k + items.len() - 1) as nat))]
        })
    }
}

/// The issues of one node's list positions: a list's items must be numbered 1, 2, ...
pub open spec fn list_position_issues(n: JsonV) -> Seq<IssueV> {
    let types = spec_types_of(n);
    if !has_any(types, crate::audit::list_types()) {
        seq![]
    } else {
        match jarr(jget(n, "itemListElement"@)) {
            None => seq![],
            Some(items) => position_issues(join_commas(types), member_str(n, "@id"@), items, 0),
        }
    }
}

/// The position issues of a list of nodes, in order.
pub open spec fn positions_issues(nodes: Seq<JsonV>) -> Seq<IssueV>
    decreases nodes.len(),
{
    if nodes.len() == 0 {
        seq![]
    } else {
        positions_issues(nodes.drop_last()) + list_position_issues(nodes.last())
    }
}

/// The issues of one node's list positions.
fn check_positions(node: &Json, lists: &TypeLists) -> (r: Vec<AuditIssue>)
    requires
        lists.wf(),
    ensures
        issue_views(r@) == list_position_issues(node.view()),
{
    let mut r: Vec<AuditIssue> = Vec::new();
    let types = types_of(node);
    if !has_any_type(&types, &lists.list) {
        assert(issue_views(r@) =~= list_position_issues(node.view()));
        return r;
    }
    let items = match get(node, "itemListElement") {
        Some(v) => match as_array(v) {
            Some(items) => items,
            None => {
                assert(issue_views(r@) =~= list_position_issues(node.view()));
                return r;
            },
        },
        None => {
            assert(issue_views(r@) =~= list_position_issues(node.view()));
            return r;
        },
    };
    let label = type_label(&types);
    let node_id = member_string(node, "@id");
    let ghost iv = views(items@);
    let mut k: usize = 0;
    while k < items.len()
        invariant
            k <= items@.len(),
            iv == views(items@),
            issue_views(r@) == position_issues(label@, opt_view(node_id), iv.take(k as int), 0),
        decreases items.len() - k,
    {
        let position = match get(&items[k], "position") {
            Some(p) => as_u64(p),
            None => None,
        };
        proof {
            assert(iv.take(k + 1).drop_last() == iv.take(k as int));
            assert(iv.take(k + 1).last() == items@[k as int].view());
        }
        assert(k < items@.len());
        let expected: u64 = k as u64 + 1;
        if position != Some(expected) {
            let mut m = String::new();
            push_str(&mut m, "itemListElement[");
            push_dec(&mut m, k as u64);
            push_str(&mut m, "] position is not the sequential ");
            push_dec(&mut m, expected);
            add_issue(&mut r, label.as_str(), clone_opt(&node_id), m);
        }
        assert(issue_views(r@) =~= position_issues(label@, opt_view(node_id), iv.take(k + 1), 0));
        k += 1;
    }
    assert(iv.take(items@.len() as int) == iv);
    r
}

/// A copy of an optional string.
fn clone_opt(o: &Option<String>) -> (r: Option<String>)
    ensures
        opt_view(r) == opt_view(*o),
{
    match o {
        Some(s) => Some(s.clone()),
        None => None,
    }
}

/// Appends the position issues of every node.
fn check_all_positions(nodes: &Vec<Json>, lists: &TypeLists, out: &mut Vec<AuditIssue>)
    requires
        lists.wf(),
    ensures
        issue_views(final(out)@) == issue_views(old(out)@) + positions_issues(views(nodes@)),
{
    let ghost nv = views(nodes@);
    let ghost start = issue_views(out@);
    let mut k: usize = 0;
    while k < nodes.len()
        invariant
            k <= nodes@.len(),
            lists.wf(),
            nv == views(nodes@),
            issue_views(out@) == start + positions_issues(nv.take(k as int)),
        decreases nodes.len() - k,
    {
        let more = check_positions(&nodes[k], lists);
        append_issues(out, more);
        proof {
            assert(nv.take(k + 1).drop_last() == nv.take(k as int));
            assert(nv.take(k + 1).last() == nv[k as int]);
            assert(issue_views(out@) =~= start + positions_issues(nv.take(k + 1)));
        }
        k += 1;
    }
    assert(nv.take(nodes@.len() as int) == nv);
}

// ---------------------------------------------------------------------------
// Breadcrumbs and the main entity
// ---------------------------------------------------------------------------
/// The string at `j[a][b]`.
pub open spec fn str_at2(j: JsonV, a: Seq<char>, b: Seq<char>) -> Option<Seq<char>> {
    jstr(jget(jget(j, a), b))
}

/// A copy of the string at `j[a][b]`.
fn str_at2_exec(j: &Json, a: &str, b: &str) -> (r: Option<String>)
    ensures
        opt_view(r) == str_at2(j.view(), a@, b@),
{
    match get(j, a) {
        Some(v) => member_string(v, b),
        None => None,
    }
}

/// The url of a breadcrumb list's last item: its item's `url`, or the item itself when it
/// is a string.
pub open spec fn last_item_url(b: JsonV) -> Option<Seq<char>> {
    match jarr(jget(b, "itemListElement"@)) {
        None => None,
        Some(items) => if items.len() == 0 {
            None
        } else {
            or_else(str_at2(items.last(), "item"@, "url"@), member_str(items.last(), "item"@))
        },
    }
}

/// The issue of one node against a main entity's fragment: a breadcrumb list's last item
/// must point at the same anchor.
pub open spec fn crumb_issues(b: JsonV, main_fragment: Seq<char>) -> Seq<IssueV> {
    if !has_any(spec_types_of(b), seq!["BreadcrumbList"@]) {
        seq![]
    } else {
        match last_item_url(b) {
            None => seq![],
            Some(u) => if spec_fragment_of(u) == Some(main_fragment) {
                seq![]
            } else {
                seq![
                    ("BreadcrumbList"@, member_str(b, "@id"@), "last breadcrumb item \""@ + u
                        + "\" does not match the mainEntity anchor #"@ + main_fragment),
                ]
            },
        }
    }
}

/// The breadcrumb issues of a list of nodes, in order.
pub open spec fn crumbs_issues(bs: Seq<JsonV>, main_fragment: Seq<char>) -> Seq<IssueV>
    decreases bs.len(),
{
    if bs.len() == 0 {
        seq![]
    } else {
        crumbs_issues(bs.drop_last(), main_fragment) + crumb_issues(bs.last(), main_fragment)
    }
}

/// The issues of one page node's main entity: it must carry a fragment, and every
/// breadcrumb list must end at that fragment.
pub open spec fn main_issues(n: JsonV, nodes: Seq<JsonV>) -> Seq<IssueV> {
    let types = spec_types_of(n);
    if !has_any(types, crate::audit::page_types()) {
        seq![]
    } else {
        match str_at2(n, "mainEntity"@, "@id"@) {
            None => seq![],
            Some(main_id) => match spec_fragment_of(main_id) {
                None => seq![
                    (join_commas(types), member_str(n, "@id"@), "mainEntity \""@ + main_id
                        + "\" is missing a #fragment"@),
                ],
                Some(f) => crumbs_issues(nodes, f),
            },
        }
    }
}

/// The main-entity issues of a list of nodes, in order.
pub open spec fn mains_issues(ns: Seq<JsonV>, nodes: Seq<JsonV>) -> Seq<IssueV>
    decreases ns.len(),
{
    if ns.len() == 0 {
        seq![]
    } else {
        mains_issues(ns.drop_last(), nodes) + main_issues(ns.last(), nodes)
    }
}

/// The url of a breadcrumb list's last item.
fn last_item_url_exec(b: &Json) -> (r: Option<String>)
    ensures
        opt_view(r) == last_item_url(b.view()),
{
    match get(b, "itemListElement") {
        None => None,
        Some(v) => match as_array(v) {
            None => None,
            Some(items) => {
                if items.len() == 0 {
                    None
                } else {
                    let last = &items[items.len() - 1];
                    assert(views(items@).last() == last.view());
                    match str_at2_exec(last, "item", "url") {
                        Some(u) => Some(u),
                        None => member_string(last, "item"),
                    }
                }
            },
        },
    }
}

/// The breadcrumb issue of one node.
fn check_crumb(b: &Json, main_fragment: &str) -> (r: Vec<AuditIssue>)
    ensures
        issue_views(r@) == crumb_issues(b.view(), main_fragment@),
{
    let mut r: Vec<AuditIssue> = Vec::new();
    let types = types_of(b);
    let crumb_type = crate::audit::one_type("BreadcrumbList");
    if !has_any_type(&types, &crumb_type) {
        assert(issue_views(r@) =~= crumb_issues(b.view(), main_fragment@));
        return r;
    }
    match last_item_url_exec(b) {
        None => {},
        Some(u) => {
            let matches = match fragment_of(u.as_str()) {
                Some(f) => str_eq(f.as_str(), main_fragment),
                None => false,
            };
            if !matches {
                let mut m = String::new();
                push_str(&mut m, "last breadcrumb item \"");
                push_str(&mut m, u.as_str());
                push_str(&mut m, "\" does not match the mainEntity anchor #");
                push_str(&mut m, main_fragment);
                add_issue(&mut r, "BreadcrumbList", member_string(b, "@id"), m);
            }
        },
    }
    assert(issue_views(r@) =~= crumb_issues(b.view(), main_fragment@));
    r
}

/// The main-entity issues of one node.
fn check_main(n: &Json, nodes: &Vec<Json>, lists: &TypeLists) -> (r: Vec<AuditIssue>)
    requires
        lists.wf(),
    ensures
        issue_views(r@) == main_issues(n.view(), views(nodes@)),
{
    let ghost want = main_issues(n.view(), views(nodes@));
    let mut r: Vec<AuditIssue> = Vec::new();
    let types = types_of(n);
    if !has_any_type(&types, &lists.page) {
        assert(issue_views(r@) =~= want);
        return r;
    }
    let main_id = match str_at2_exec(n, "mainEntity", "@id") {
        None => {
            assert(issue_views(r@) =~= want);
            return r;
        },
        Some(m) => m,
    };
    match fragment_of(main_id.as_str()) {
        None => {
            let label = type_label(&types);
            let mut m = String::new();
            push_str(&mut m, "mainEntity \"");
            push_str(&mut m, main_id.as_str());
            push_str(&mut m, "\" is missing a #fragment");
            add_issue(&mut r, label.as_str(), member_string(n, "@id"), m);
            assert(issue_views(r@) =~= want);
            r
        },
        Some(f) => {
            let ghost nv = views(nodes@);
            let mut k: usize = 0;
            while k < nodes.len()
                invariant
                    k <= nodes@.len(),
                    nv == views(nodes@),
                    issue_views(r@) == crumbs_issues(nv.take(k as int), f@),
                decreases nodes.len() - k,
            {
                let more = check_crumb(&nodes[k], f.as_str());
                let ghost before = issue_views(r@);
                append_issues(&mut r, more);
                proof {
                    assert(nv.take(k + 1).drop_last() == nv.take(k as int));
                    assert(nv.take(k + 1).last() == nv[k as int]);
                }
                k += 1;
            }
            assert(nv.take(nodes@.len() as int) == nv);
            r
        },
    }
}

/// Appends the main-entity issues of every node.
fn check_mains(nodes: &Vec<Json>, lists: &TypeLists, out: &mut Vec<AuditIssue>)
    requires
        lists.wf(),
    ensures
        issue_views(final(out)@) == issue_views(old(out)@) + mains_issues(
            views(nodes@),
            views(nodes@),
        ),
{
    let ghost nv = views(nodes@);
    let ghost start = issue_views(out@);
    let mut k: usize = 0;
    while k < nodes.len()
        invariant
            k <= nodes@.len(),
            lists.wf(),
            nv == views(nodes@),
            issue_views(out@) == start + mains_issues(nv.take(k as int), nv),
        decreases nodes.len() - k,
    {
        let more = check_main(&nodes[k], nodes, lists);
        append_issues(out, more);
        proof {
            assert(nv.take(k + 1).drop_last() == nv.take(k as int));
            assert(nv.take(k + 1).last() == nv[k as int]);
            assert(issue_views(out@) =~= start + mains_issues(nv.take(k + 1), nv));
        }
        k += 1;
    }
    assert(nv.take(nodes@.len() as int) == nv);
}

// ---------------------------------------------------------------------------
// Language and description metas
// ---------------------------------------------------------------------------
/// The content of the first meta tag whose name or property is `key`.
pub open spec fn meta_value(metas: Seq<(Seq<char>, Seq<char>, Seq<char>)>, key: Seq<char>) -> Option<
    Seq<char>,
>
    decreases metas.len(),
{
    if metas.len() == 0 {
        None
    } else if metas[0].0 == key {
        Some(metas[0].1)
    } else {
        meta_value(metas.drop_first(), key)
    }
}

/// The text before the first `>`, or all of it.
pub open spec fn first_segment(h: Seq<char>) -> Seq<char> {
    match crate::text::find_char_from(h, '>', 0) {
        Some(i) => h.take(i),
        None => h,
    }
}

/// The page's language: the `lang` of the element `web`, else the `lang` of the first tag.
pub open spec fn html_lang(h: Seq<char>) -> Option<Seq<char>> {
    or_else(
        crate::html::spec_attr_of(h, "web"@, "lang"@),
        crate::html::first_attr(crate::html::spec_parse_attrs(first_segment(h)), "lang"@),
    )
}

/// The issue of one description meta: it must exist and repeat the graph's description.
pub open spec fn description_issues(
    label: Seq<char>,
    node_id: Option<Seq<char>>,
    key: Seq<char>,
    description: Seq<char>,
    metas: Seq<(Seq<char>, Seq<char>, Seq<char>)>,
) -> Seq<IssueV> {
    match meta_value(metas, key) {
        Some(m) => if m == description {
            seq![]
        } else {
            seq![
                (label, node_id, key + " meta \""@ + m
                    + "\" does not match the graph description"@),
            ]
        },
        None => seq![
            (label, node_id, key + " meta is missing while the graph carries a description"@),
        ],
    }
}

/// The language issues of a page node whose `inLanguage` is `lang`: the page's own
/// language must be the same, and `og:locale` must be it or a region of it.
pub open spec fn language_issues(
    label: Seq<char>,
    node_id: Option<Seq<char>>,
    lang: Seq<char>,
    page_lang: Option<Seq<char>>,
    metas: Seq<(Seq<char>, Seq<char>, Seq<char>)>,
) -> Seq<IssueV> {
    match page_lang {
        None => seq![],
        Some(l) => (if l != lang {
            seq![
                (label, node_id, "inLanguage \""@ + lang + "\" does not match the html lang \""@
                    + l + "\""@),
            ]
        } else {
            seq![]
        }) + match meta_value(metas, "og:locale"@) {
            Some(og) => if og == lang || starts_with(og, lang + "_"@) {
                seq![]
            } else {
                seq![
                    (label, node_id, "og:locale \""@ + og + "\" does not agree with inLanguage \""@
                        + lang + "\""@),
                ]
            },
            None => seq![],
        },
    }
}

/// The meta issues of one node: a page node's language and description must agree with
/// the page's.
pub open spec fn meta_issues(
    n: JsonV,
    page_lang: Option<Seq<char>>,
    metas: Seq<(Seq<char>, Seq<char>, Seq<char>)>,
) -> Seq<IssueV> {
    let types = spec_types_of(n);
    if !has_any(types, crate::audit::page_types()) {
        seq![]
    } else {
        let label = join_commas(types);
        let node_id = member_str(n, "@id"@);
        (match member_str(n, "inLanguage"@) {
            Some(lang) => language_issues(label, node_id, lang, page_lang, metas),
            None => seq![],
        }) + match member_str(n, "description"@) {
            Some(d) => description_issues(label, node_id, "description"@, d, metas)
                + description_issues(label, node_id, "og:description"@, d, metas),
            None => seq![],
        }
    }
}

/// The meta issues of a list of nodes, in order.
pub open spec fn metas_issues(
    nodes: Seq<JsonV>,
    page_lang: Option<Seq<char>>,
    metas: Seq<(Seq<char>, Seq<char>, Seq<char>)>,
) -> Seq<IssueV>
    decreases nodes.len(),
{
    if nodes.len() == 0 {
        seq![]
    } else {
        metas_issues(nodes.drop_last(), page_lang, metas) + meta_issues(nodes.last(), page_lang, metas)
    }
}

/// The content of the first meta tag with the given key.
fn meta_value_exec(metas: &Vec<(String, String, String)>, key: &str) -> (r: Option<String>)
    ensures
        opt_view(r) == meta_value(meta_views(metas@), key@),
{
    let ghost mv = meta_views(metas@);
    let mut i: usize = 0;
    assert(mv.skip(0) == mv);
    while i < metas.len()
        invariant
            i <= metas@.len(),
            mv == meta_views(metas@),
            meta_value(mv, key@) == meta_value(mv.skip(i as int), key@),
        decreases metas.len() - i,
    {
        assert(mv.skip(i as int)[0] == mv[i as int]);
        assert(mv.skip(i as int).drop_first() == mv.skip(i + 1));
        if str_eq(metas[i].0.as_str(), key) {
            return Some(metas[i].1.clone());
        }
        i += 1;
    }
    None
}

/// The page's language.
fn html_lang_exec(h: &Vec<char>) -> (r: Option<String>)
    ensures
        opt_view(r) == html_lang(h@),
{
    let web = crate::text::chars_of("web");
    match crate::html::attr_of_chars(h, &web, "lang") {
        Some(l) => Some(l),
        None => {
            proof {
                crate::text::lemma_find_from(h@, seq!['>'], 0);
            }
            let end = match crate::text::find_char_from_exec(h, '>', 0) {
                Some(i) => i,
                None => h.len(),
            };
            assert(h@.subrange(0, end as int) == first_segment(h@));
            let attrs = crate::html::parse_attrs_chars(h, 0, end);
            crate::html::find_attr(&attrs, "lang", None)
        },
    }
}

/// The issue of one description meta.
fn check_description(
    label: &str,
    node_id: &Option<String>,
    key: &str,
    description: &str,
    metas: &Vec<(String, String, String)>,
) -> (r: Vec<AuditIssue>)
    ensures
        issue_views(r@) == description_issues(
            label@,
            opt_view(*node_id),
            key@,
            description@,
            meta_views(metas@),
        ),
{
    let mut r: Vec<AuditIssue> = Vec::new();
    match meta_value_exec(metas, key) {
        Some(m) => {
            if !str_eq(m.as_str(), description) {
                let mut msg = String::new();
                push_str(&mut msg, key);
                push_str(&mut msg, " meta \"");
                push_str(&mut msg, m.as_str());
                push_str(&mut msg, "\" does not match the graph description");
                add_issue(&mut r, label, clone_opt(node_id), msg);
            }
        },
        None => {
            let mut msg = String::new();
            push_str(&mut msg, key);
            push_str(&mut msg, " meta is missing while the graph carries a description");
            add_issue(&mut r, label, clone_opt(node_id), msg);
        },
    }
    assert(issue_views(r@) =~= description_issues(
        label@,
        opt_view(*node_id),
        key@,
        description@,
        meta_views(metas@),
    ));
    r
}

/// The language issues of a page node.
fn check_language(
    label: &str,
    node_id: &Option<String>,
    lang: &str,
    page_lang: &Option<String>,
    metas: &Vec<(String, String, String)>,
) -> (r: Vec<AuditIssue>)
    ensures
        issue_views(r@) == language_issues(
            label@,
            opt_view(*node_id),
            lang@,
            opt_view(*page_lang),
            meta_views(metas@),
        ),
{
    let ghost want = language_issues(
        label@,
        opt_view(*node_id),
        lang@,
        opt_view(*page_lang),
        meta_views(metas@),
    );
    let mut r: Vec<AuditIssue> = Vec::new();
    match page_lang {
        None => {
            assert(issue_views(r@) =~= want);
            r
        },
        Some(l) => {
            if !str_eq(l.as_str(), lang) {
                let mut msg = String::new();
                push_str(&mut msg, "inLanguage \"");
                push_str(&mut msg, lang);
                push_str(&mut msg, "\" does not match the html lang \"");
                push_str(&mut msg, l.as_str());
                push_str(&mut msg, "\"");
                add_issue(&mut r, label, clone_opt(node_id), msg);
            }
            match meta_value_exec(metas, "og:locale") {
                Some(og) => {
                    let mut region = String::new();
                    push_str(&mut region, lang);
                    push_str(&mut region, "_");
                    if !(str_eq(og.as_str(), lang) || starts_with_str(og.as_str(), region.as_str())) {
                        let mut msg = String::new();
                        push_str(&mut msg, "og:locale \"");
                        push_str(&mut msg, og.as_str());
                        push_str(&mut msg, "\" does not agree with inLanguage \"");
                        push_str(&mut msg, lang);
                        push_str(&mut msg, "\"");
                        add_issue(&mut r, label, clone_opt(node_id), msg);
                    }
                },
                None => {},
            }
            assert(issue_views(r@) =~= want);
            r
        },
    }
}

/// The meta issues of one node.
fn check_meta(
    n: &Json,
    page_lang: &Option<String>,
    metas: &Vec<(String, String, String)>,
    lists: &TypeLists,
) -> (r: Vec<AuditIssue>)
    requires
        lists.wf(),
    ensures
        issue_views(r@) == meta_issues(n.view(), opt_view(*page_lang), meta_views(metas@)),
{
    let ghost want = meta_issues(n.view(), opt_view(*page_lang), meta_views(metas@));
    let mut r: Vec<AuditIssue> = Vec::new();
    let types = types_of(n);
    if !has_any_type(&types, &lists.page) {
        assert(issue_views(r@) =~= want);
        return r;
    }
    let label = type_label(&types);
    let node_id = member_string(n, "@id");
    match member_string(n, "inLanguage") {
        Some(lang) => {
            let more = check_language(label.as_str(), &node_id, lang.as_str(), page_lang, metas);
            append_issues(&mut r, more);
        },
        None => {},
    }
    match member_string(n, "description") {
        Some(d) => {
            let a = check_description(label.as_str(), &node_id, "description", d.as_str(), metas);
            append_issues(&mut r, a);
            let b = check_description(label.as_str(), &node_id, "og:description", d.as_str(), metas);
            append_issues(&mut r, b);
        },
        None => {},
    }
    assert(issue_views(r@) =~= want);
    r
}

/// Appends the meta issues of every node.
fn check_metas(
    nodes: &Vec<Json>,
    page_lang: &Option<String>,
    metas: &Vec<(String, String, String)>,
    lists: &TypeLists,
    out: &mut Vec<AuditIssue>,
)
    requires
        lists.wf(),
    ensures
        issue_views(final(out)@) == issue_views(old(out)@) + metas_issues(
            views(nodes@),
            opt_view(*page_lang),
            meta_views(metas@),
        ),
{
    let ghost nv = views(nodes@);
    let ghost start = issue_views(out@);
    let ghost pl = opt_view(*page_lang);
    let ghost mv = meta_views(metas@);
    let mut k: usize = 0;
    while k < nodes.len()
        invariant
            k <= nodes@.len(),
            lists.wf(),
            nv == views(nodes@),
            pl == opt_view(*page_lang),
            mv == meta_views(metas@),
            issue_views(out@) == start + metas_issues(nv.take(k as int), pl, mv),
        decreases nodes.len() - k,
    {
        let more = check_meta(&nodes[k], page_lang, metas, lists);
        append_issues(out, more);
        proof {
            assert(nv.take(k + 1).drop_last() == nv.take(k as int));
            assert(nv.take(k + 1).last() == nv[k as int]);
            assert(issue_views(out@) =~= start + metas_issues(nv.take(k + 1), pl, mv));
        }
        k += 1;
    }
    assert(nv.take(nodes@.len() as int) == nv);
}

// ---------------------------------------------------------------------------
// Item lists
// ---------------------------------------------------------------------------
/// The issues of one item list on this page: its name must be the accessible name of the
/// element its fragment names, and its `numberOfItems` the number of that list's items.
pub open spec fn item_list_issues(n: JsonV, h: Seq<char>, this_page: Seq<char>) -> Seq<IssueV> {
    let types = spec_types_of(n);
    let label = join_commas(types);
    let node_id = member_str(n, "@id"@);
    if !has_any(types, seq!["ItemList"@]) {
        seq![]
    } else {
        match member_str(n, "url"@) {
            None => seq![],
            Some(url) => if !same_page(url, this_page) {
                seq![]
            } else {
                match spec_fragment_of(url) {
                    None => seq![],
                    Some(f) => (match member_str(n, "name"@) {
                        Some(name) => match crate::html::spec_accessible_name(h, f) {
                            Some(l) => if l == name {
                                seq![]
                            } else {
                                seq![
                                    (label, node_id, "ItemList name \""@ + name
                                        + "\" does not match the accessible name \""@ + l
                                        + "\" of #"@ + f),
                                ]
                            },
                            None => seq![
                                (label, node_id, "ItemList name \""@ + name
                                    + "\" has no accessible name (aria-label or aria-labelledby) on #"@
                                    + f),
                            ],
                        },
                        None => seq![],
                    }) + match (
                        crate::html::spec_list_item_count(h, f),
                        ju64(jget(n, "numberOfItems"@)),
                    ) {
                        (Some(c), Some(i)) => if c != i {
                            seq![
                                (label, node_id, "numberOfItems "@ + dec(i as nat)
                                    + " does not match the "@ + dec(c) + " li children of #"@ + f),
                            ]
                        } else {
                            seq![]
                        },
                        _ => seq![],
                    },
                }
            },
        }
    }
}

/// The item-list issues of a list of nodes, in order.
pub open spec fn item_lists_issues(nodes: Seq<JsonV>, h: Seq<char>, this_page: Seq<char>) -> Seq<
    IssueV,
>
    decreases nodes.len(),
{
    if nodes.len() == 0 {
        seq![]
    } else {
        item_lists_issues(nodes.drop_last(), h, this_page) + item_list_issues(
            nodes.last(),
            h,
            this_page,
        )
    }
}

/// The item-list issues of one node.
fn check_item_list(n: &Json, h: &Vec<char>, this_page: &str) -> (r: Vec<AuditIssue>)
    ensures
        issue_views(r@) == item_list_issues(n.view(), h@, this_page@),
{
    let ghost want = item_list_issues(n.view(), h@, this_page@);
    let mut r: Vec<AuditIssue> = Vec::new();
    let types = types_of(n);
    let list_type = crate::audit::one_type("ItemList");
    if !has_any_type(&types, &list_type) {
        assert(issue_views(r@) =~= want);
        return r;
    }
    let label = type_label(&types);
    let node_id = member_string(n, "@id");
    let url = match member_string(n, "url") {
        Some(u) => u,
        None => {
            assert(issue_views(r@) =~= want);
            return r;
        },
    };
    if !is_same_page(url.as_str(), this_page) {
        assert(issue_views(r@) =~= want);
        return r;
    }
    let f = match fragment_of(url.as_str()) {
        Some(f) => f,
        None => {
            assert(issue_views(r@) =~= want);
            return r;
        },
    };
    let fv = crate::text::chars_of(f.as_str());
    match member_string(n, "name") {
        Some(name) => match crate::html::accessible_name_chars(h, &fv) {
            Some(l) => {
                if !str_eq(l.as_str(), name.as_str()) {
                    let mut msg = String::new();
                    push_str(&mut msg, "ItemList name \"");
                    push_str(&mut msg, name.as_str());
                    push_str(&mut msg, "\" does not match the accessible name \"");
                    push_str(&mut msg, l.as_str());
                    push_str(&mut msg, "\" of #");
                    push_str(&mut msg, f.as_str());
                    add_issue(&mut r, label.as_str(), clone_opt(&node_id), msg);
                }
            },
            None => {
                let mut msg = String::new();
                push_str(&mut msg, "ItemList name \"");
                push_str(&mut msg, name.as_str());
                push_str(
                    &mut msg,
                    "\" has no accessible name (aria-label or aria-labelledby) on #",
                );
                push_str(&mut msg, f.as_str());
                add_issue(&mut r, label.as_str(), clone_opt(&node_id), msg);
            },
        },
        None => {},
    }
    let count = crate::html::list_item_count_chars(h, &fv);
    let items = match get(n, "numberOfItems") {
        Some(v) => as_u64(v),
        None => None,
    };
    match (count, items) {
        (Some(c), Some(i)) => {
            if c as u64 != i {
                let mut msg = String::new();
                push_str(&mut msg, "numberOfItems ");
                push_dec(&mut msg, i);
                push_str(&mut msg, " does not match the ");
                push_dec(&mut msg, c as u64);
                push_str(&mut msg, " li children of #");
                push_str(&mut msg, f.as_str());
                add_issue(&mut r, label.as_str(), clone_opt(&node_id), msg);
            }
        },
        _ => {},
    }
    assert(issue_views(r@) =~= want);
    r
}

/// Appends the item-list issues of every node.
fn check_item_lists(nodes: &Vec<Json>, h: &Vec<char>, this_page: &str, out: &mut Vec<AuditIssue>)
    ensures
        issue_views(final(out)@) == issue_views(old(out)@) + item_lists_issues(
            views(nodes@),
            h@,
            this_page@,
        ),
{
    let ghost nv = views(nodes@);
    let ghost start = issue_views(out@);
    let mut k: usize = 0;
    while k < nodes.len()
        invariant
            k <= nodes@.len(),
            nv == views(nodes@),
            issue_views(out@) == start + item_lists_issues(nv.take(k as int), h@, this_page@),
        decreases nodes.len() - k,
    {
        let more = check_item_list(&nodes[k], h, this_page);
        append_issues(out, more);
        proof {
            assert(nv.take(k + 1).drop_last() == nv.take(k as int));
            assert(nv.take(k + 1).last() == nv[k as int]);
            assert(issue_views(out@) =~= start + item_lists_issues(nv.take(k + 1), h@, this_page@));
        }
        k += 1;
    }
    assert(nv.take(nodes@.len() as int) == nv);
}

// ---------------------------------------------------------------------------
// Keywords and article tags
// ---------------------------------------------------------------------------
/// The pieces of `s[i..]` between occurrences of `c` (`str::split(c)`).
pub open spec fn split_from(s: Seq<char>, c: char, i: int) -> Seq<Seq<char>>
    decreases s.len() + 1 - i,
{
    if i < 0 || i > s.len() {
        seq![]
    } else {
        match crate::text::find_char_from(s, c, i) {
            None => seq![s.subrange(i, s.len() as int)],
            Some(j) => {
                proof {
                    crate::text::lemma_find_from(s, seq![c], i);
                }
                seq![s.subrange(i, j)] + split_from(s, c, j + 1)
            },
        }
    }
}

/// Each piece trimmed of white space.
pub open spec fn trim_all(ps: Seq<Seq<char>>) -> Seq<Seq<char>> {
    ps.map_values(|p: Seq<char>| crate::text::trim_ws(p))
}

/// `s` with `x` inserted before the first item that does not sort before it.
pub open spec fn insert_sorted(s: Seq<Seq<char>>, x: Seq<char>) -> Seq<Seq<char>>
    decreases s.len(),
{
    if s.len() == 0 {
        seq![x]
    } else if crate::order::lex_lt(s[0], x) {
        seq![s[0]] + insert_sorted(s.drop_first(), x)
    } else {
        seq![x] + s
    }
}

/// The items of `s` in ascending order.
pub open spec fn sort_seq(s: Seq<Seq<char>>) -> Seq<Seq<char>>
    decreases s.len(),
{
    if s.len() == 0 {
        seq![]
    } else {
        insert_sorted(sort_seq(s.drop_last()), s.last())
    }
}

/// The trimmed contents of the `article:tag` metas, in page order.
pub open spec fn tag_contents(metas: Seq<(Seq<char>, Seq<char>, Seq<char>)>) -> Seq<Seq<char>>
    decreases metas.len(),
{
    if metas.len() == 0 {
        seq![]
    } else {
        tag_contents(metas.drop_last()) + if metas.last().0 == "article:tag"@ {
            seq![crate::text::trim_ws(metas.last().1)]
        } else {
            seq![]
        }
    }
}

/// What `format!("{:?}", items)` gives for a list of strings.
pub uninterp spec fn debug_list(items: Seq<Seq<char>>) -> Seq<char>;

/// The issue of one blog post's keywords: its comma-separated `keywords`, trimmed, must
/// be the trimmed `article:tag` metas, in any order.
pub open spec fn keyword_issues(n: JsonV, metas: Seq<(Seq<char>, Seq<char>, Seq<char>)>) -> Seq<
    IssueV,
> {
    let types = spec_types_of(n);
    if !has_any(types, seq!["BlogPosting"@]) {
        seq![]
    } else {
        match member_str(n, "keywords"@) {
            None => seq![],
            Some(k) => {
                let expected = sort_seq(trim_all(split_from(k, ',', 0)));
                let actual = sort_seq(tag_contents(metas));
                if expected != actual {
                    seq![
                        (join_commas(types), member_str(n, "@id"@), "article:tag metas "@
                            + debug_list(actual) + " do not match the keywords entries "@
                            + debug_list(expected)),
                    ]
                } else {
                    seq![]
                }
            },
        }
    }
}

/// The keyword issues of a list of nodes, in order.
pub open spec fn keywords_issues(nodes: Seq<JsonV>, metas: Seq<(Seq<char>, Seq<char>, Seq<char>)>) -> Seq<
    IssueV,
>
    decreases nodes.len(),
{
    if nodes.len() == 0 {
        seq![]
    } else {
        keywords_issues(nodes.drop_last(), metas) + keyword_issues(nodes.last(), metas)
    }
}

/// The pieces of `s` between commas (or another separator), each trimmed of white space.
fn split_trimmed(s: &str, c: char) -> (r: Vec<String>)
    ensures
        str_views(r@) == trim_all(split_from(s@, c, 0)),
{
    let v = crate::text::chars_of(s);
    let mut r: Vec<String> = Vec::new();
    let mut i: usize = 0;
    loop
        invariant
            v@ == s@,
            i <= v@.len(),
            trim_all(split_from(v@, c, 0)) == str_views(r@) + trim_all(split_from(v@, c, i as int)),
        decreases v@.len() + 1 - i,
    {
        proof {
            crate::text::lemma_find_from(v@, seq![c], i as int);
        }
        let ghost before = str_views(r@);
        match crate::text::find_char_from_exec(&v, c, i) {
            None => {
                let (a, b) = crate::text::trim_ws_bounds(&v, i, v.len());
                r.push(crate::text::string_of(&v, a, b));
                assert(str_views(r@) =~= before.push(crate::text::trim_ws(v@.subrange(i as int, v@.len() as int))));
                assert(trim_all(split_from(v@, c, i as int)) =~= seq![crate::text::trim_ws(v@.subrange(i as int, v@.len() as int))]);
                assert(str_views(r@) =~= before + trim_all(split_from(v@, c, i as int)));
                return r;
            },
            Some(j) => {
                assert(crate::text::occurs_at(v@, seq![c], j as int));
                assert(seq![c].len() == 1);
                assert(j < v.len());
                let (a, b) = crate::text::trim_ws_bounds(&v, i, j);
                r.push(crate::text::string_of(&v, a, b));
                let ghost piece = crate::text::trim_ws(v@.subrange(i as int, j as int));
                assert(str_views(r@) =~= before.push(piece));
                assert(trim_all(split_from(v@, c, i as int)) =~= seq![piece] + trim_all(split_from(v@, c, j + 1)));
                assert(before + trim_all(split_from(v@, c, i as int)) =~= before.push(piece) + trim_all(split_from(v@, c, j + 1)));
                i = j + 1;
            },
        }
    }
}

/// Inserting before the first item that does not sort before `x` is `insert_sorted`.
proof fn lemma_insert_at(s: Seq<Seq<char>>, x: Seq<char>, i: int)
    requires
        0 <= i <= s.len(),
        forall|j: int| 0 <= j < i ==> crate::order::lex_lt(#[trigger] s[j], x),
        i < s.len() ==> !crate::order::lex_lt(s[i], x),
    ensures
        insert_sorted(s, x) == s.take(i) + seq![x] + s.skip(i),
    decreases i,
{
    if i == 0 {
        if s.len() > 0 {
            assert(!crate::order::lex_lt(s[0], x));
        }
        assert(s.skip(0) == s);
        assert(s.take(0) + seq![x] + s.skip(0) =~= seq![x] + s);
    } else {
        assert(crate::order::lex_lt(s[0], x));
        let t = s.drop_first();
        assert forall|j: int| 0 <= j < i - 1 implies crate::order::lex_lt(#[trigger] t[j], x) by {
            assert(t[j] == s[j + 1]);
        }
        lemma_insert_at(t, x, i - 1);
        assert(s.take(i) + seq![x] + s.skip(i) =~= seq![s[0]] + (t.take(i - 1) + seq![x] + t.skip(
            i - 1,
        )));
    }
}

/// The items of `v`, sorted.
fn sort_strings(v: &Vec<String>) -> (r: Vec<String>)
    ensures
        str_views(r@) == sort_seq(str_views(v@)),
{
    let ghost vv = str_views(v@);
    let mut r: Vec<String> = Vec::new();
    let mut k: usize = 0;
    while k < v.len()
        invariant
            k <= v@.len(),
            vv == str_views(v@),
            str_views(r@) == sort_seq(vv.take(k as int)),
        decreases v.len() - k,
    {
        let x = crate::text::chars_of(v[k].as_str());
        let ghost rv = str_views(r@);
        let mut i: usize = 0;
        while i < r.len()
            invariant
                i <= r@.len(),
                k < v@.len(),
                rv == str_views(r@),
                x@ == v@[k as int]@,
                forall|j: int| 0 <= j < i ==> crate::order::lex_lt(#[trigger] rv[j], x@),
            ensures
                i <= r@.len(),
                forall|j: int| 0 <= j < i ==> crate::order::lex_lt(#[trigger] rv[j], x@),
                i < r@.len() ==> !crate::order::lex_lt(rv[i as int], x@),
            decreases r.len() - i,
        {
            let y = crate::text::chars_of(r[i].as_str());
            assert(rv[i as int] == y@);
            match crate::order::lex_order(&y, &x) {
                crate::order::Order::Less => {},
                _ => {
                    break;
                },
            }
            i += 1;
        }
        proof {
            lemma_insert_at(rv, x@, i as int);
            assert(vv.take(k + 1).drop_last() == vv.take(k as int));
            assert(vv.take(k + 1).last() == v@[k as int]@);
        }
        r.insert(i, v[k].clone());
        assert(str_views(r@) =~= rv.take(i as int) + seq![x@] + rv.skip(i as int));
        k += 1;
    }
    assert(vv.take(v@.len() as int) == vv);
    r
}

/// Whether two lists of strings are equal.
fn strings_eq(a: &Vec<String>, b: &Vec<String>) -> (r: bool)
    ensures
        r == (str_views(a@) == str_views(b@)),
{
    if a.len() != b.len() {
        assert(str_views(a@).len() != str_views(b@).len());
        return false;
    }
    let mut i: usize = 0;
    while i < a.len()
        invariant
            i <= a@.len(),
            a@.len() == b@.len(),
            forall|j: int| 0 <= j < i ==> a@[j]@ == b@[j]@,
        decreases a.len() - i,
    {
        if !str_eq(a[i].as_str(), b[i].as_str()) {
            assert(str_views(a@)[i as int] != str_views(b@)[i as int]);
            return false;
        }
        i += 1;
    }
    assert(str_views(a@) =~= str_views(b@));
    true
}

/// `format!("{:?}", items)`: std's `Debug` rendering of a list of strings. Its result is
/// named by `debug_list` of the items' texts; the escaping rules it follows are std's and
/// are not stated here.
#[verifier::external_body]
fn debug_strings(items: &Vec<String>) -> (r: String)
    ensures
        r@ == debug_list(str_views(items@)),
{
    format!("{:?}", items)
}

/// The trimmed contents of the `article:tag` metas.
fn tag_contents_exec(metas: &Vec<(String, String, String)>) -> (r: Vec<String>)
    ensures
        str_views(r@) == tag_contents(meta_views(metas@)),
{
    let ghost mv = meta_views(metas@);
    let mut r: Vec<String> = Vec::new();
    let mut k: usize = 0;
    while k < metas.len()
        invariant
            k <= metas@.len(),
            mv == meta_views(metas@),
            str_views(r@) == tag_contents(mv.take(k as int)),
        decreases metas.len() - k,
    {
        proof {
            assert(mv.take(k + 1).drop_last() == mv.take(k as int));
            assert(mv.take(k + 1).last() == mv[k as int]);
        }
        let ghost before = str_views(r@);
        if str_eq(metas[k].0.as_str(), "article:tag") {
            let v = crate::text::chars_of(metas[k].1.as_str());
            let (a, b) = crate::text::trim_ws_bounds(&v, 0, v.len());
            assert(v@.subrange(0, v@.len() as int) == v@);
            r.push(crate::text::string_of(&v, a, b));
            assert(str_views(r@) =~= before + seq![crate::text::trim_ws(mv[k as int].1)]);
        } else {
            assert(str_views(r@) =~= before + Seq::<Seq<char>>::empty());
        }
        k += 1;
    }
    assert(mv.take(metas@.len() as int) == mv);
    r
}

/// The keyword issue of one node, given the sorted trimmed `article:tag` contents.
fn check_keywords(n: &Json, actual: &Vec<String>, metas: &Vec<(String, String, String)>) -> (r: Vec<
    AuditIssue,
>)
    requires
        str_views(actual@) == sort_seq(tag_contents(meta_views(metas@))),
    ensures
        issue_views(r@) == keyword_issues(n.view(), meta_views(metas@)),
{
    let ghost want = keyword_issues(n.view(), meta_views(metas@));
    let mut r: Vec<AuditIssue> = Vec::new();
    let types = types_of(n);
    let post_type = crate::audit::one_type("BlogPosting");
    if !has_any_type(&types, &post_type) {
        assert(issue_views(r@) =~= want);
        return r;
    }
    match member_string(n, "keywords") {
        None => {},
        Some(k) => {
            let pieces = split_trimmed(k.as_str(), ',');
            let expected = sort_strings(&pieces);
            if !strings_eq(&expected, actual) {
                let label = type_label(&types);
                let mut msg = String::new();
                push_str(&mut msg, "article:tag metas ");
                let a = debug_strings(actual);
                push_str(&mut msg, a.as_str());
                push_str(&mut msg, " do not match the keywords entries ");
                let e = debug_strings(&expected);
                push_str(&mut msg, e.as_str());
                add_issue(&mut r, label.as_str(), member_string(n, "@id"), msg);
            }
        },
    }
    assert(issue_views(r@) =~= want);
    r
}

/// Appends the keyword issues of every node.
fn check_all_keywords(
    nodes: &Vec<Json>,
    metas: &Vec<(String, String, String)>,
    out: &mut Vec<AuditIssue>,
)
    ensures
        issue_views(final(out)@) == issue_views(old(out)@) + keywords_issues(
            views(nodes@),
            meta_views(metas@),
        ),
{
    let tags = tag_contents_exec(metas);
    let actual = sort_strings(&tags);
    let ghost nv = views(nodes@);
    let ghost mv = meta_views(metas@);
    let ghost start = issue_views(out@);
    let mut k: usize = 0;
    while k < nodes.len()
        invariant
            k <= nodes@.len(),
            nv == views(nodes@),
            mv == meta_views(metas@),
            str_views(actual@) == sort_seq(tag_contents(mv)),
            issue_views(out@) == start + keywords_issues(nv.take(k as int), mv),
        decreases nodes.len() - k,
    {
        let more = check_keywords(&nodes[k], &actual, metas);
        append_issues(out, more);
        proof {
            assert(nv.take(k + 1).drop_last() == nv.take(k as int));
            assert(nv.take(k + 1).last() == nv[k as int]);
            assert(issue_views(out@) =~= start + keywords_issues(nv.take(k + 1), mv));
        }
        k += 1;
    }
    assert(nv.take(nodes@.len() as int) == nv);
}

// ---------------------------------------------------------------------------
// The graph and the audit
// ---------------------------------------------------------------------------
/// The mathematical form of the parse outcomes of the page's blocks.
pub open spec fn parsed_views(p: Seq<Result<Json, String>>) -> Seq<Result<JsonV, Seq<char>>> {
    p.map_values(
        |r: Result<Json, String>|
            match r {
                Ok(j) => Ok(j.view()),
                Err(e) => Err(e@),
            },
    )
}

/// The error of the first block that did not parse, as the audit words it.
pub open spec fn first_parse_error(p: Seq<Result<JsonV, Seq<char>>>) -> Option<Seq<char>>
    decreases p.len(),
{
    if p.len() == 0 {
        None
    } else {
        match p[0] {
            Err(e) => Some("ld+json block does not parse: "@ + e),
            Ok(_) => first_parse_error(p.drop_first()),
        }
    }
}

/// The values of the blocks that parsed, in order.
pub open spec fn parsed_values(p: Seq<Result<JsonV, Seq<char>>>) -> Seq<JsonV>
    decreases p.len(),
{
    if p.len() == 0 {
        seq![]
    } else {
        parsed_values(p.drop_last()) + match p.last() {
            Ok(v) => seq![v],
            Err(_) => seq![],
        }
    }
}

/// The page's graph: the typed nodes of its blocks, in order, or the first error: a block
/// that does not parse, else a block that is not framed.
pub open spec fn spec_collect_graph(
    parsed: Seq<Result<JsonV, Seq<char>>>,
    framing: Option<Seq<char>>,
) -> Result<Seq<JsonV>, Seq<char>> {
    match first_parse_error(parsed) {
        Some(e) => Err(e),
        None => match framing {
            Some(f) => Err(f),
            None => Ok(crate::audit::flat_seq(parsed_values(parsed))),
        },
    }
}

/// The typed nodes of the parsed blocks, or the error that stops the audit: the first
/// block that did not parse, else the framing error.
pub fn graph_of_blocks(parsed: &Vec<Result<Json, String>>, framing: Option<String>) -> (r: Result<
    Vec<Json>,
    String,
>)
    ensures
        match r {
            Ok(nodes) => spec_collect_graph(parsed_views(parsed@), opt_view(framing)) == Ok::<
                Seq<JsonV>,
                Seq<char>,
            >(views(nodes@)),
            Err(e) => spec_collect_graph(parsed_views(parsed@), opt_view(framing)) == Err::<
                Seq<JsonV>,
                Seq<char>,
            >(e@),
        },
{
    let ghost pv = parsed_views(parsed@);
    let mut nodes: Vec<Json> = Vec::new();
    let mut k: usize = 0;
    assert(pv.skip(0) == pv);
    while k < parsed.len()
        invariant
            k <= parsed@.len(),
            pv == parsed_views(parsed@),
            first_parse_error(pv) == first_parse_error(pv.skip(k as int)),
            views(nodes@) == crate::audit::flat_seq(parsed_values(pv.take(k as int))),
        decreases parsed.len() - k,
    {
        assert(pv.skip(k as int)[0] == pv[k as int]);
        assert(pv.skip(k as int).drop_first() == pv.skip(k + 1));
        match &parsed[k] {
            Err(e) => {
                let mut m = String::new();
                push_str(&mut m, "ld+json block does not parse: ");
                push_str(&mut m, e.as_str());
                return Err(m);
            },
            Ok(v) => {
                proof {
                    assert(pv.take(k + 1).drop_last() == pv.take(k as int));
                    assert(pv.take(k + 1).last() == Ok::<JsonV, Seq<char>>(v.view()));
                    assert(parsed_values(pv.take(k + 1)) == parsed_values(pv.take(k as int)).push(
                        v.view(),
                    ));
                    assert(parsed_values(pv.take(k + 1)).drop_last() == parsed_values(
                        pv.take(k as int),
                    ));
                }
                crate::audit::flatten(v, &mut nodes);
            },
        }
        k += 1;
    }
    assert(pv.take(parsed@.len() as int) == pv);
    assert(pv.skip(parsed@.len() as int).len() == 0);
    match framing {
        Some(f) => Err(f),
        None => Ok(nodes),
    }
}

/// The issues of a page's graph `nodes`, in the order the checks run: links, node
/// identifiers, references, list positions, breadcrumbs, metas, keywords, item lists.
pub open spec fn spec_audit_issues(
    canonical: Seq<char>,
    page_path: Seq<char>,
    h: Seq<char>,
    nodes: Seq<JsonV>,
) -> Seq<IssueV> {
    let this_page = canonical + page_path;
    let ids = spec_element_ids(h);
    let metas = crate::html::spec_meta_contents(h);
    links_issues(spec_anchor_hrefs(h), ids) + nodes_issues(nodes, canonical, this_page, ids)
        + refs_issues(refs_seq(nodes), nodes, canonical, this_page) + positions_issues(nodes)
        + mains_issues(nodes, nodes) + metas_issues(nodes, html_lang(h), metas)
        + keywords_issues(nodes, metas) + item_lists_issues(nodes, h, this_page)
}

/// The outcome of the audit of a page whose blocks parsed to `parsed`: a graph that cannot
/// be read is one document issue; otherwise the page passes exactly when no check finds
/// an issue.
pub open spec fn spec_audit_page(
    canonical: Seq<char>,
    page_path: Seq<char>,
    h: Seq<char>,
    parsed: Seq<Result<JsonV, Seq<char>>>,
) -> Result<(), Seq<IssueV>> {
    match spec_collect_graph(parsed, crate::audit::blocks_from(h, 0).1) {
        Err(e) => Err(seq![("document"@, None, e)]),
        Ok(nodes) => {
            let issues = spec_audit_issues(canonical, page_path, h, nodes);
            if issues.len() == 0 {
                Ok(())
            } else {
                Err(issues)
            }
        },
    }
}

/// Audits the structured data of a page against the page, given what each of the page's
/// `application/ld+json` blocks (see `ld_json_blocks`) parses to, in order: the value, or
/// the parser's error text.
pub fn audit_parsed_page(
    canonical: &str,
    page_path: &str,
    html: &str,
    parsed: &Vec<Result<Json, String>>,
) -> (r: Result<(), Vec<AuditIssue>>)
    ensures
        match r {
            Ok(()) => spec_audit_page(canonical@, page_path@, html@, parsed_views(parsed@)) == Ok::<
                (),
                Seq<IssueV>,
            >(()),
            Err(v) => spec_audit_page(canonical@, page_path@, html@, parsed_views(parsed@)) == Err::<
                (),
                Seq<IssueV>,
            >(issue_views(v@)),
        },
{
    let (_, framing) = crate::audit::ld_json_blocks(html);
    let nodes = match graph_of_blocks(parsed, framing) {
        Ok(nodes) => nodes,
        Err(e) => {
            let mut issues: Vec<AuditIssue> = Vec::new();
            add_issue(&mut issues, "document", None, e);
            assert(issue_views(issues@) =~= seq![("document"@, None::<Seq<char>>, e@)]);
            return Err(issues);
        },
    };
    let ids = element_ids(html);
    let mut this_page = String::new();
    push_str(&mut this_page, canonical);
    push_str(&mut this_page, page_path);
    let lists = TypeLists::new();
    let h = crate::text::chars_of(html);
    let metas = crate::html::meta_contents(html);
    let page_lang = html_lang_exec(&h);
    let hrefs = anchor_hrefs(html);
    let mut issues: Vec<AuditIssue> = Vec::new();
    check_links(&hrefs, &ids, &mut issues);
    check_nodes(&nodes, canonical, this_page.as_str(), &ids, &lists, &mut issues);
    check_refs(&nodes, canonical, this_page.as_str(), &mut issues);
    check_all_positions(&nodes, &lists, &mut issues);
    check_mains(&nodes, &lists, &mut issues);
    check_metas(&nodes, &page_lang, &metas, &lists, &mut issues);
    check_all_keywords(&nodes, &metas, &mut issues);
    check_item_lists(&nodes, &h, this_page.as_str(), &mut issues);
    let ghost nv = views(nodes@);
    assert(issue_views(issues@) =~= spec_audit_issues(canonical@, page_path@, html@, nv));
    if issues.len() == 0 {
        Ok(())
    } else {
        Err(issues)
    }
}

// ---------------------------------------------------------------------------
// Parsing the blocks
// ---------------------------------------------------------------------------
/// What `serde_json::from_str::<serde_json::Value>` gives for a text, as the library's
/// JSON value (object members in the order serde_json's map holds them), or the
/// parser's error message.
pub uninterp spec fn json_parse(text: Seq<char>) -> Result<JsonV, Seq<char>>;

/// `serde_json::from_str::<serde_json::Value>`, the value converted variant by variant
/// into the library's `Json` (the items and members of arrays and objects by the same
/// conversion of their text) and the error into its message. The result is named by
/// `json_parse`; nothing more of it is stated.
#[verifier::external_body]
fn parse_json(text: &str) -> (r: Result<Json, String>)
    ensures
        match r {
            Ok(j) => json_parse(text@) == Ok::<JsonV, Seq<char>>(j.view()),
            Err(e) => json_parse(text@) == Err::<JsonV, Seq<char>>(e@),
        },
{
    let conv = |x: &Value| parse_json(&x.to_string());
    match serde_json::from_str::<Value>(text).map_err(|e| e.to_string())? {
        Null => Ok(Json::Null),
        Bool(b) => Ok(Json::Bool(b)),
        Number(n) => Ok(Json::Num(n.to_string(), n.as_u64())),
        Value::String(s) => Ok(Json::Str(s)),
        Array(a) => Result::from_iter(a.iter().map(conv)).map(Json::Arr),
        Object(m) => Result::from_iter(m.iter().map(|(k, x)| conv(x).map(|j| (k.clone(), j)))).map(Json::Obj),
    }
}

/// What each of the page's blocks parses to.
pub open spec fn page_parses(h: Seq<char>) -> Seq<Result<JsonV, Seq<char>>> {
    crate::audit::blocks_from(h, 0).0.map_values(|t: Seq<char>| json_parse(t))
}

/// Parses each of the page's JSON-LD blocks, in order.
fn parse_page_blocks(html: &str) -> (r: Vec<Result<Json, String>>)
    ensures
        parsed_views(r@) == page_parses(html@),
{
    let (blocks, _) = crate::audit::ld_json_blocks(html);
    let ghost bv = str_views(blocks@);
    let mut r: Vec<Result<Json, String>> = Vec::new();
    let mut k: usize = 0;
    while k < blocks.len()
        invariant
            k <= blocks@.len(),
            bv == str_views(blocks@),
            bv == crate::audit::blocks_from(html@, 0).0,
            parsed_views(r@) == bv.take(k as int).map_values(|t: Seq<char>| json_parse(t)),
        decreases blocks.len() - k,
    {
        let p = parse_json(blocks[k].as_str());
        let ghost before = r@;
        r.push(p);
        proof {
            assert(bv[k as int] == blocks@[k as int]@);
            assert(parsed_views(r@) =~= parsed_views(before).push(
                match p {
                    Ok(j) => Ok(j.view()),
                    Err(e) => Err(e@),
                },
            ));
            assert(bv.take(k + 1).map_values(|t: Seq<char>| json_parse(t)) =~= bv.take(
                k as int,
            ).map_values(|t: Seq<char>| json_parse(t)).push(json_parse(bv[k as int])));
        }
        k += 1;
    }
    assert(bv.take(blocks@.len() as int) == bv);
    r
}

/// The typed nodes of the page's JSON-LD graph, in order, or the error that stops the
/// audit: a block that does not parse, else a block that is not framed.
pub fn collect_graph(html: &str) -> (r: Result<Vec<Json>, String>)
    ensures
        match r {
            Ok(nodes) => spec_collect_graph(page_parses(html@), crate::audit::blocks_from(html@, 0).1)
                == Ok::<Seq<JsonV>, Seq<char>>(views(nodes@)),
            Err(e) => spec_collect_graph(page_parses(html@), crate::audit::blocks_from(html@, 0).1)
                == Err::<Seq<JsonV>, Seq<char>>(e@),
        },
{
    let parsed = parse_page_blocks(html);
    let (_, framing) = crate::audit::ld_json_blocks(html);
    graph_of_blocks(&parsed, framing)
}

/// Audits the structured data of a page against the page: its JSON-LD blocks are parsed
/// and every check runs on the graph; the page passes exactly when no check finds an
/// issue.
pub fn audit_page(canonical: &str, page_path: &str, html: &str) -> (r: Result<(), Vec<AuditIssue>>)
    ensures
        match r {
            Ok(()) => spec_audit_page(canonical@, page_path@, html@, page_parses(html@)) == Ok::<
                (),
                Seq<IssueV>,
            >(()),
            Err(v) => spec_audit_page(canonical@, page_path@, html@, page_parses(html@)) == Err::<
                (),
                Seq<IssueV>,
            >(issue_views(v@)),
        },
{
    let parsed = parse_page_blocks(html);
    audit_parsed_page(canonical, page_path, html, &parsed)
}

/// On a page whose `lang` is a node's `inLanguage`, an `og:locale` that is that language
/// followed by `_` and a region (`de_DE` for `de`), or the language itself, raises no
/// language issue.
pub proof fn law_regional_locales_agree_with_their_language(
    label: Seq<char>,
    node_id: Option<Seq<char>>,
    lang: Seq<char>,
    region: Seq<char>,
    metas: Seq<(Seq<char>, Seq<char>, Seq<char>)>,
)
    requires
        meta_value(metas, "og:locale"@) == Some(lang + "_"@ + region) || meta_value(metas, "og:locale"@)
            == Some(lang),
    ensures
        language_issues(label, node_id, lang, Some(lang), metas) == Seq::<IssueV>::empty(),
{
    let og = lang + "_"@ + region;
    assert(og.take((lang + "_"@).len() as int) =~= lang + "_"@);
    assert(language_issues(label, node_id, lang, Some(lang), metas) =~= Seq::<IssueV>::empty());
}

/// An `og:locale` that is neither a node's `inLanguage` nor a region of it raises exactly
/// one issue, which names both.
pub proof fn law_foreign_locales_are_flagged(
    label: Seq<char>,
    node_id: Option<Seq<char>>,
    lang: Seq<char>,
    og: Seq<char>,
    metas: Seq<(Seq<char>, Seq<char>, Seq<char>)>,
)
    requires
        meta_value(metas, "og:locale"@) == Some(og),
        og != lang,
        !(og.len() > lang.len() && og.take(lang.len() as int) == lang && og[lang.len() as int] == '_'),
    ensures
        language_issues(label, node_id, lang, Some(lang), metas) == seq![
            (label, node_id, "og:locale \""@ + og + "\" does not agree with inLanguage \""@ + lang + "\""@),
        ],
{
    reveal_strlit("_");
    let pre = lang + "_"@;
    assert(pre.len() == lang.len() + 1);
    assert(pre[lang.len() as int] == '_');
    assert(pre.take(lang.len() as int) =~= lang);
    if starts_with(og, pre) {
        assert(og.take(pre.len() as int) == pre);
        assert(og.take(lang.len() as int) =~= og.take(pre.len() as int).take(lang.len() as int));
        assert(og[lang.len() as int] == og.take(pre.len() as int)[lang.len() as int]);
        assert(false);
    }
    assert(!starts_with(og, pre));
    assert(language_issues(label, node_id, lang, Some(lang), metas) =~= seq![
        (label, node_id, "og:locale \""@ + og + "\" does not agree with inLanguage \""@ + lang + "\""@),
    ]);
}

} // verus!
