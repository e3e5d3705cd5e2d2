//! What the Markdown renderer decides: the table of contents, which code blocks are
//! diagrams, and the HTML that stands in for each diagram.
use comrak::nodes::NodeValue;
use comrak::options::{Extension, Render};
use comrak::{format_html, parse_document, Arena, Options};
use vstd::prelude::*;

use crate::text::{str_views, 
    chars_of, dec, find_char_from, find_char_from_exec, is_whitespace, is_ws, push_chars, push_dec,
    push_str, string_of, trim_ws, trim_ws_bounds, word_len, words, lemma_word_len,
};

verus! {

/// A table-of-contents entry: a level 2 or 3 heading and the id it links to.
pub struct TocItem {
    pub level: u8,
    pub text: String,
    pub id: String,
}

/// A rendered diagram, written next to the page as its own file.
pub struct DiagramAsset {
    pub file_name: String,
    pub svg: String,
}

/// The result of rendering an article body.
pub struct Rendered {
    pub html: String,
    pub toc: Vec<TocItem>,
    pub diagrams: Vec<DiagramAsset>,
}

// ---------------------------------------------------------------------------
// HTML escaping
// ---------------------------------------------------------------------------
/// The escaped form of one character.
pub open spec fn escape_char(c: char) -> Seq<char> {
    if c == '&' {
        "&amp;"@
    } else if c == '<' {
        "&lt;"@
    } else if c == '>' {
        "&gt;"@
    } else if c == '"' {
        "&quot;"@
    } else {
        seq![c]
    }
}

/// `s` with `&`, `<`, `>` and `"` replaced by their character references.
pub open spec fn spec_escape_html(s: Seq<char>) -> Seq<char>
    decreases s.len(),
{
    if s.len() == 0 {
        seq![]
    } else {
        spec_escape_html(s.drop_last()) + escape_char(s.last())
    }
}

/// Escapes text for use in HTML content and double-quoted attribute values.
pub fn escape_html(s: &str) -> (out: String)
    ensures
        out@ == spec_escape_html(s@),
{
    let v = chars_of(s);
    let mut out = String::new();
    let mut i: usize = 0;
    while i < v.len()
        invariant
            i <= v@.len(),
            v@ == s@,
            out@ == spec_escape_html(v@.take(i as int)),
        decreases v.len() - i,
    {
        let c = v[i];
        if c == '&' {
            push_str(&mut out, "&amp;");
        } else if c == '<' {
            push_str(&mut out, "&lt;");
        } else if c == '>' {
            push_str(&mut out, "&gt;");
        } else if c == '"' {
            push_str(&mut out, "&quot;");
        } else {
            out.push(c);
        }
        assert(v@.take(i + 1).drop_last() == v@.take(i as int));
        i += 1;
    }
    assert(v@.take(v@.len() as int) == v@);
    out
}

/// Escaping leaves text without `&`, `<`, `>` or `"` unchanged.
pub proof fn law_escape_is_identity_on_plain_text(s: Seq<char>)
    requires
        forall|i: int| 0 <= i < s.len() ==> !(#[trigger] s[i] == '&' || s[i] == '<' || s[i] == '>'
            || s[i] == '"'),
    ensures
        spec_escape_html(s) == s,
    decreases s.len(),
{
    if s.len() > 0 {
        assert forall|i: int| 0 <= i < s.drop_last().len() implies !(#[trigger] s.drop_last()[i]
            == '&' || s.drop_last()[i] == '<' || s.drop_last()[i] == '>' || s.drop_last()[i]
            == '"') by {
            assert(s.drop_last()[i] == s[i]);
        }
        law_escape_is_identity_on_plain_text(s.drop_last());
        assert(s == s.drop_last().push(s.last()));
    }
}

/// Escaped text never holds `<`, `>` or `"`, so it cannot open a tag or end an attribute.
pub proof fn law_escaped_text_has_no_markup(s: Seq<char>)
    ensures
        forall|i: int|
            0 <= i < spec_escape_html(s).len() ==> {
                let c = #[trigger] spec_escape_html(s)[i];
                c != '<' && c != '>' && c != '"'
            },
    decreases s.len(),
{
    if s.len() > 0 {
        law_escaped_text_has_no_markup(s.drop_last());
        let pre = spec_escape_html(s.drop_last());
        let e = escape_char(s.last());
        reveal_strlit("&amp;");
        reveal_strlit("&lt;");
        reveal_strlit("&gt;");
        reveal_strlit("&quot;");
        assert forall|i: int| 0 <= i < spec_escape_html(s).len() implies {
            let c = #[trigger] spec_escape_html(s)[i];
            c != '<' && c != '>' && c != '"'
        } by {
            if i < pre.len() {
                assert(spec_escape_html(s)[i] == pre[i]);
            } else {
                assert(spec_escape_html(s)[i] == e[i - pre.len()]);
            }
        }
    }
}

// ---------------------------------------------------------------------------
// Decisions taken while walking the document
// ---------------------------------------------------------------------------
/// Headings of level 2 and 3 enter the table of contents.
pub open spec fn spec_in_toc(level: u8) -> bool {
    2 <= level <= 3
}

/// The table-of-contents entry for a heading, if its level belongs there.
pub fn toc_item(level: u8, text: String, id: String) -> (r: Option<TocItem>)
    ensures
        r is Some <==> spec_in_toc(level),
        r matches Some(item) ==> item.level == level && item.text == text && item.id == id,
{
    if 2 <= level && level <= 3 {
        Some(TocItem { level, text, id })
    } else {
        None
    }
}

/// A fenced code block whose info string's first word is `mermaid` is a diagram.
pub open spec fn spec_is_mermaid(fenced: bool, info: Seq<char>) -> bool {
    fenced && words(info).len() > 0 && words(info)[0] == "mermaid"@
}

/// Whether a code block is a Mermaid diagram.
pub fn is_mermaid(fenced: bool, info: &str) -> (b: bool)
    ensures
        b == spec_is_mermaid(fenced, info@),
{
    if !fenced {
        return false;
    }
    let v = chars_of(info);
    let w = crate::text::word_bounds(&v, 0, v.len());
    assert(v@.subrange(0, v@.len() as int) == v@);
    if w.len() == 0 {
        return false;
    }
    let (a, b) = w[0];
    let m = chars_of("mermaid");
    crate::text::seq_eq(&v, a, b, &m)
}

/// The text after the first white space of the info string, trimmed.
pub open spec fn info_rest(info: Seq<char>) -> Option<Seq<char>> {
    let k = word_len(info);
    if k < info.len() {
        Some(trim_ws(info.skip(k + 1 as int)))
    } else {
        None
    }
}

/// The diagram's title: what follows the info string's first word, or `Diagram`.
pub open spec fn spec_diagram_title(info: Seq<char>) -> Seq<char> {
    match info_rest(info) {
        Some(rest) if rest.len() > 0 => rest,
        _ => "Diagram"@,
    }
}

/// The title of a diagram block with info string `info`, used as the image's alt text.
pub fn diagram_title(info: &str) -> (t: String)
    ensures
        t@ == spec_diagram_title(info@),
{
    let v = chars_of(info);
    let mut k: usize = 0;
    while k < v.len() && !is_whitespace(v[k])
        invariant
            k <= v@.len(),
            v@ == info@,
            forall|j: int| 0 <= j < k ==> !is_ws(#[trigger] v@[j]),
        decreases v.len() - k,
    {
        k += 1;
    }
    proof {
        lemma_word_len_is(v@, k as int);
    }
    if k < v.len() {
        let (a, b) = trim_ws_bounds(&v, k + 1, v.len());
        assert(v@.skip(k + 1) == v@.subrange(k + 1, v@.len() as int));
        if a < b {
            return string_of(&v, a, b);
        }
    }
    String::from_str("Diagram")
}

/// `word_len` is the index of the first white space.
proof fn lemma_word_len_is(s: Seq<char>, k: int)
    requires
        0 <= k <= s.len(),
        forall|j: int| 0 <= j < k ==> !is_ws(#[trigger] s[j]),
        k == s.len() || is_ws(s[k]),
    ensures
        word_len(s) == k,
    decreases k,
{
    if k > 0 {
        assert forall|j: int| 0 <= j < k - 1 implies !is_ws(#[trigger] s.drop_first()[j]) by {
            assert(s.drop_first()[j] == s[j + 1]);
        }
        if k < s.len() {
            assert(s.drop_first()[k - 1] == s[k]);
        }
        lemma_word_len_is(s.drop_first(), k - 1);
    }
}

/// `diagram-N` for the `no`-th diagram (counted from zero).
pub open spec fn spec_diagram_name(no: int) -> Seq<char> {
    "diagram-"@ + dec((no + 1) as nat)
}

/// The name shared by the two tab panels of the `no`-th diagram.
pub fn diagram_name(no: u64) -> (s: String)
    requires
        no < u64::MAX,
    ensures
        s@ == spec_diagram_name(no as int),
{
    let mut s = String::from_str("diagram-");
    push_dec(&mut s, no + 1);
    s
}

/// The file the `no`-th diagram is written to: `diagram-N.svg`.
pub fn diagram_file_name(no: u64) -> (s: String)
    requires
        no < u64::MAX,
    ensures
        s@ == spec_diagram_name(no as int) + ".svg"@,
{
    let mut s = diagram_name(no);
    push_str(&mut s, ".svg");
    s
}

/// The `width="N"` or `height="N"` attribute, or nothing.
pub open spec fn size_attr(name: Seq<char>, value: Option<u32>) -> Seq<char> {
    match value {
        Some(v) => seq![' '] + name + seq!['=', '"'] + dec(v as nat) + seq!['"'],
        None => seq![],
    }
}

/// The HTML figure that replaces a diagram's code block: two exclusive tab panels, one
/// with the image and one with the escaped source.
pub open spec fn spec_diagram_figure(
    src: Seq<char>,
    title: Seq<char>,
    source: Seq<char>,
    width: Option<u32>,
    height: Option<u32>,
    name: Seq<char>,
) -> Seq<char> {
    "<figure class=\"diagram tabs\">\n<details name=\""@ + name + "\" open>\n<summary>Diagram</summary>\n<div class=\"diagram-content\"><img src=\""@
        + src + "\" alt=\""@ + spec_escape_html(title) + "\""@ + size_attr("width"@, width) + size_attr(
        "height"@,
        height,
    ) + " loading=\"lazy\" decoding=\"async\"></div>\n</details>\n<details name=\""@ + name
        + "\">\n<summary>Code</summary>\n<div class=\"diagram-content\"><pre><code class=\"language-mermaid\">"@
        + spec_escape_html(source) + "</code></pre></div>\n</details>\n</figure>\n"@
}

/// Appends a size attribute.
fn push_size_attr(out: &mut String, name: &str, value: Option<u32>)
    ensures
        final(out)@ == old(out)@ + size_attr(name@, value),
{
    match value {
        Some(v) => {
            out.push(' ');
            push_str(out, name);
            out.push('=');
            out.push('"');
            push_dec(out, v as u64);
            out.push('"');
            assert(final(out)@ =~= old(out)@ + size_attr(name@, value));
        },
        None => {
            assert(old(out)@ + size_attr(name@, value) =~= old(out)@);
        },
    }
}

/// The figure for a diagram whose image is at `src` and whose pixel size is
/// `width` x `height` where known.
pub fn diagram_figure(
    src: &str,
    title: &str,
    source: &str,
    width: Option<u32>,
    height: Option<u32>,
    name: &str,
) -> (html: String)
    ensures
        html@ == spec_diagram_figure(src@, title@, source@, width, height, name@),
{
    let mut out = String::from_str(
        "<figure class=\"diagram tabs\">\n<details name=\"",
    );
    push_str(&mut out, name);
    push_str(
        &mut out,
        "\" open>\n<summary>Diagram</summary>\n<div class=\"diagram-content\"><img src=\"",
    );
    push_str(&mut out, src);
    push_str(&mut out, "\" alt=\"");
    let t = escape_html(title);
    push_str(&mut out, t.as_str());
    push_str(&mut out, "\"");
    push_size_attr(&mut out, "width", width);
    push_size_attr(&mut out, "height", height);
    push_str(&mut out, " loading=\"lazy\" decoding=\"async\"></div>\n</details>\n<details name=\"");
    push_str(&mut out, name);
    push_str(
        &mut out,
        "\">\n<summary>Code</summary>\n<div class=\"diagram-content\"><pre><code class=\"language-mermaid\">",
    );
    let e = escape_html(source);
    push_str(&mut out, e.as_str());
    push_str(&mut out, "</code></pre></div>\n</details>\n</figure>\n");
    assert(out@ =~= spec_diagram_figure(src@, title@, source@, width, height, name@));
    out
}

// ---------------------------------------------------------------------------
// The root attributes of an SVG document
// ---------------------------------------------------------------------------
/// The text of `svg` before its first `>` (the root tag's inside, from `<svg`).
pub open spec fn svg_root(svg: Seq<char>) -> Seq<char> {
    match find_char_from(svg, '>', 0) {
        Some(i) => svg.take(i),
        None => svg,
    }
}

/// The value of attribute `name` in the root tag: after the first `name=`, up to the
/// closing quote when quoted, otherwise up to white space or the end.
pub open spec fn spec_svg_attr(svg: Seq<char>, name: Seq<char>) -> Option<Seq<char>> {
    let root = svg_root(svg);
    let marker = name + seq!['='];
    match crate::text::find(root, marker) {
        None => None,
        Some(pos) => {
            let rest = root.skip(pos + marker.len());
            if rest.len() > 0 && rest[0] == '"' {
                let body = rest.drop_first();
                Some(
                    match find_char_from(body, '"', 0) {
                        Some(e) => body.take(e),
                        None => body,
                    },
                )
            } else {
                Some(rest.take(crate::text::first_ws_or(rest, '>')))
            }
        },
    }
}

/// The value of the root tag's attribute `name` in an SVG document, as the renderer
/// reads a diagram's width, height and viewBox.
pub fn svg_attr(svg: &str, name: &str) -> (r: Option<String>)
    ensures
        r matches Some(v) ==> spec_svg_attr(svg@, name@) == Some(v@),
        r is None ==> spec_svg_attr(svg@, name@) is None,
{
    let v = chars_of(svg);
    let end = match find_char_from_exec(&v, '>', 0) {
        Some(i) => i,
        None => v.len(),
    };
    proof {
        crate::text::lemma_find_from(v@, seq!['>'], 0);
    }
    let root = crate::text::take_vec(&v, end);
    assert(root@ == svg_root(svg@)) by {
        if end == v@.len() {
            assert(v@.take(end as int) == v@);
        }
    }
    let mut marker = chars_of(name);
    marker.push('=');
    assert(marker@ =~= name@ + seq!['=']);
    match crate::text::find_exec(&root, &marker) {
        None => None,
        Some(pos) => {
            proof {
                crate::text::lemma_find_from(root@, marker@, 0);
            }
            let start = pos + marker.len();
            if start < root.len() && root[start] == '"' {
                let b = match find_char_from_exec(&root, '"', start + 1) {
                    Some(e) => e,
                    None => root.len(),
                };
                proof {
                    crate::text::lemma_find_from(root@, seq!['"'], start + 1);
                    crate::text::lemma_find_shift(root@, seq!['"'], start + 1, 0);
                }
                assert(root@.skip(start as int).drop_first() == root@.skip(start + 1));
                let r = string_of(&root, start + 1, b);
                assert(r@ == spec_svg_attr(svg@, name@)->0) by {
                    let body = root@.skip(start + 1);
                    if b < root@.len() {
                        assert(body.take(b - (start + 1)) == root@.subrange(start + 1, b as int));
                    } else {
                        assert(body == root@.subrange(start + 1, b as int));
                    }
                }
                Some(r)
            } else {
                let e = crate::text::first_ws_or_exec(&root, start, '>');
                let r = string_of(&root, start, e);
                assert(r@ == spec_svg_attr(svg@, name@)->0) by {
                    assert(root@.skip(start as int).take(e - start) == root@.subrange(start as int, e as int));
                }
                Some(r)
            }
        },
    }
}

// ---------------------------------------------------------------------------
// Rendering a Markdown body
// ---------------------------------------------------------------------------
/// The comrak parse settings the site uses.
pub struct MarkdownSettings {
    pub front_matter_delimiter: String,
    /// The text put before each heading's anchor in its id.
    pub heading_id_prefix: String,
    pub table: bool,
    pub tasklist: bool,
    pub strikethrough: bool,
    pub autolink: bool,
}

impl MarkdownSettings {
    /// The settings as a tuple, in field order.
    pub open spec fn view(&self) -> (Seq<char>, Seq<char>, bool, bool, bool, bool) {
        (
            self.front_matter_delimiter@,
            self.heading_id_prefix@,
            self.table,
            self.tasklist,
            self.strikethrough,
            self.autolink,
        )
    }
}

/// The site's settings as a tuple: `+++` front matter, heading ids without a prefix,
/// tables, task lists, strikethrough and autolinks.
pub open spec fn site_settings() -> (Seq<char>, Seq<char>, bool, bool, bool, bool) {
    ("+++"@, ""@, true, true, true, true)
}

/// The site's settings: `+++` front matter, heading ids without a prefix, tables, task
/// lists, strikethrough and autolinks.
pub fn site_markdown_settings() -> (r: MarkdownSettings)
    ensures
        r.view() == site_settings(),
{
    MarkdownSettings {
        front_matter_delimiter: String::from_str("+++"),
        heading_id_prefix: String::from_str(""),
        table: true,
        tasklist: true,
        strikethrough: true,
        autolink: true,
    }
}

/// A node of the parsed document, as the render reads it.
pub enum MdBlock {
    /// A heading: its level and its text.
    Heading { level: u8, text: String },
    /// A code block: whether it is fenced, its info string and its text.
    Code { fenced: bool, info: String, literal: String },
    /// Any other node.
    Other,
}

/// The mathematical form of a node.
pub ghost enum MdBlockV {
    Heading(u8, Seq<char>),
    Code(bool, Seq<char>, Seq<char>),
    Other,
}

impl MdBlock {
    /// The mathematical form of this node.
    pub open spec fn view(&self) -> MdBlockV {
        match self {
            MdBlock::Heading { level, text } => MdBlockV::Heading(*level, text@),
            MdBlock::Code { fenced, info, literal } => MdBlockV::Code(*fenced, info@, literal@),
            MdBlock::Other => MdBlockV::Other,
        }
    }
}

/// The views of a list of nodes.
pub open spec fn blocks_view(s: Seq<MdBlock>) -> Seq<MdBlockV> {
    s.map_values(|b: MdBlock| b.view())
}

/// What comrak's `parse_document` gives for a body under the settings: every node in
/// document order (`descendants`), the document itself first.
pub uninterp spec fn md_blocks(body: Seq<char>, settings: (Seq<char>, Seq<char>, bool, bool, bool, bool)) -> Seq<
    MdBlockV,
>;

/// `comrak::parse_document` with the settings' extensions (the other options at their
/// defaults), each node read as a heading (level and `collect_text`), a code block
/// (fenced flag, info string, text) or another node. The result is named by
/// `md_blocks`; nothing more of it is stated.
#[verifier::external_body]
fn markdown_blocks(body: &str, s: &MarkdownSettings) -> (r: Vec<MdBlock>)
    ensures
        blocks_view(r@) == md_blocks(body@, s.view()),
{
    let mut o = Options::default();
    o.extension = Extension { front_matter_delimiter: Some(s.front_matter_delimiter.clone()),
        header_id_prefix: Some(s.heading_id_prefix.clone()), table: s.table, tasklist: s.tasklist,
        strikethrough: s.strikethrough, autolink: s.autolink, ..o.extension };
    let arena = Arena::new();
    parse_document(&arena, body, &o).descendants().map(|n| match &n.data.borrow().value {
        NodeValue::Heading(h) => MdBlock::Heading { level: h.level, text: n.collect_text() },
        NodeValue::CodeBlock(c) => MdBlock::Code { fenced: c.fenced, info: c.info.clone(), literal: c.literal.clone() },
        _ => MdBlock::Other,
    }).collect()
}

/// comrak's render options (raw HTML, line breaks and the like), carried through as
/// they come.
#[verifier::external_type_specification]
#[verifier::external_body]
pub struct ExRenderOptions(Render);

/// The views of figures: each one's node position and its HTML.
pub open spec fn figures_view(s: Seq<(usize, String)>) -> Seq<(int, Seq<char>)> {
    s.map_values(|f: (usize, String)| (f.0 as int, f.1@))
}

/// The HTML of the figure that stands at node position `j`, if any.
pub open spec fn figure_at(figs: Seq<(int, Seq<char>)>, j: int) -> Option<Seq<char>>
    decreases figs.len(),
{
    if figs.len() == 0 {
        None
    } else if figs.last().0 == j {
        Some(figs.last().1)
    } else {
        figure_at(figs.drop_last(), j)
    }
}

/// The mark a node leaves in the formatted page: the figure that stands in its place,
/// or, for a heading, its opening tag up to its id, `prefix` and its anchor (`nh`
/// headings come before it).
pub open spec fn node_mark(
    b: MdBlockV,
    nh: int,
    prefix: Seq<char>,
    anchors: Seq<Seq<char>>,
    figure: Option<Seq<char>>,
) -> Seq<Seq<char>> {
    match figure {
        Some(f) => seq![f],
        None => match b {
            MdBlockV::Heading(l, _) => seq!["<h"@ + dec(l as nat) + " id=\""@ + prefix + anchors[nh] + "\""@],
            _ => seq![],
        },
    }
}

/// The marks the nodes leave in the formatted page, in document order.
pub open spec fn page_marks(
    bs: Seq<MdBlockV>,
    prefix: Seq<char>,
    anchors: Seq<Seq<char>>,
    figs: Seq<(int, Seq<char>)>,
) -> Seq<Seq<char>>
    decreases bs.len(),
{
    if bs.len() == 0 {
        seq![]
    } else {
        page_marks(bs.drop_last(), prefix, anchors, figs) + node_mark(
            bs.last(),
            headings(bs.drop_last()).len() as int,
            prefix,
            anchors,
            figure_at(figs, bs.len() - 1),
        )
    }
}

/// Whether the texts `parts` occur in `h` one after another, without overlapping.
pub open spec fn appears_in_order(h: Seq<char>, parts: Seq<Seq<char>>) -> bool
    decreases parts.len(),
{
    if parts.len() == 0 {
        true
    } else {
        exists|i: int|
            0 <= i && i + parts[0].len() <= h.len() && #[trigger] h.subrange(i, i + parts[0].len())
                == parts[0] && appears_in_order(h.subrange(i + parts[0].len(), h.len() as int), parts.drop_first())
    }
}

/// The anchors comrak gives the headings among the nodes, in order.
pub open spec fn page_anchors(bs: Seq<MdBlockV>) -> Seq<Seq<char>> {
    heading_anchors(headings(bs).map_values(|h: (u8, Seq<char>)| h.1))
}

/// `comrak::parse_document` with the settings' extensions (the other options at their
/// defaults), then each node at a figure's position replaced by a raw node holding the
/// figure (`insert_before`, then `detach`), then `comrak::format_html` with the same
/// extensions and the given render options.
///
/// The formatter writes into a `String`, which never fails, and makes no error of its
/// own, so the result is always `Some`. It walks the nodes in document order, writes a
/// raw node's text as it is, and opens each heading with `<hN id="`, the settings'
/// prefix, the heading's anchor and `"`, the anchors coming from one `Anchorizer` over
/// the headings' texts in order. The rest of the page is not stated: it depends on the
/// render options (raw HTML, link filtering), which reach this function as comrak's own
/// value and are not seen here. The positions must be those of code blocks of the parse
/// (never the document itself, never inside an image), in increasing order.
#[verifier::external_body]
fn format_markdown(
    body: &str,
    s: &MarkdownSettings,
    options: &Render,
    figures: Vec<(usize, String)>,
) -> (r: Option<String>)
    requires
        forall|i: int|
            0 <= i < figures@.len() ==> (#[trigger] figures@[i]).0 < md_blocks(body@, s.view()).len()
                && md_blocks(body@, s.view())[figures@[i].0 as int] is Code,
        forall|i: int, j: int| 0 <= i < j < figures@.len() ==> figures@[i].0 < figures@[j].0,
    ensures
        r is Some,
        appears_in_order(
            r.unwrap()@,
            page_marks(
                md_blocks(body@, s.view()),
                s.heading_id_prefix@,
                page_anchors(md_blocks(body@, s.view())),
                figures_view(figures@),
            ),
        ),
{
    let mut o = Options::default();
    o.extension = Extension { front_matter_delimiter: Some(s.front_matter_delimiter.clone()),
        header_id_prefix: Some(s.heading_id_prefix.clone()), table: s.table, tasklist: s.tasklist,
        strikethrough: s.strikethrough, autolink: s.autolink, ..o.extension };
    let arena = Arena::new();
    let nodes: Vec<_> = parse_document(&arena, body, &o).descendants().collect();
    for (i, f) in figures {
        nodes[i].insert_before(arena.alloc(NodeValue::Raw(f).into()));
        nodes[i].detach();
    }
    o.render = *options;
    let mut html = String::new();
    format_html(nodes[0], &o, &mut html).ok()?;
    Some(html)
}

/// What comrak's `Anchorizer` gives, one call per text in order, for a list of heading
/// texts.
pub uninterp spec fn heading_anchors(texts: Seq<Seq<char>>) -> Seq<Seq<char>>;

/// `comrak::Anchorizer::anchorize` on each text in order, with one anchorizer, so that
/// repeated texts get numbered anchors. One anchor per text; the anchors themselves are
/// named by `heading_anchors`.
#[verifier::external_body]
fn anchorize(texts: &Vec<String>) -> (r: Vec<String>)
    ensures
        str_views(r@) == heading_anchors(str_views(texts@)),
        r@.len() == texts@.len(),
{
    let mut anchorizer = comrak::Anchorizer::new();
    texts.iter().map(|t| anchorizer.anchorize(t)).collect()
}

/// The headings among the nodes, as (level, text), in order.
pub open spec fn headings(bs: Seq<MdBlockV>) -> Seq<(u8, Seq<char>)>
    decreases bs.len(),
{
    if bs.len() == 0 {
        seq![]
    } else {
        headings(bs.drop_last()) + match bs.last() {
            MdBlockV::Heading(l, t) => seq![(l, t)],
            _ => seq![],
        }
    }
}

/// The table of contents: the second- and third-level headings, each with the anchor of
/// its position among all headings.
pub open spec fn toc_entries(hs: Seq<(u8, Seq<char>)>, ids: Seq<Seq<char>>) -> Seq<
    (u8, Seq<char>, Seq<char>),
>
    decreases hs.len(),
{
    if hs.len() == 0 {
        seq![]
    } else {
        toc_entries(hs.drop_last(), ids) + if spec_in_toc(hs.last().0) {
            seq![(hs.last().0, hs.last().1, ids[hs.len() - 1])]
        } else {
            seq![]
        }
    }
}

/// The Mermaid diagrams among the nodes: each node's position, its source without
/// trailing white space, and its title.
pub open spec fn mermaid_blocks(bs: Seq<MdBlockV>) -> Seq<(int, Seq<char>, Seq<char>)>
    decreases bs.len(),
{
    if bs.len() == 0 {
        seq![]
    } else {
        mermaid_blocks(bs.drop_last()) + match bs.last() {
            MdBlockV::Code(f, info, lit) => if spec_is_mermaid(f, info) {
                seq![((bs.len() - 1) as int, crate::text::trim_end_ws(lit), spec_diagram_title(info))]
            } else {
                seq![]
            },
            _ => seq![],
        }
    }
}

/// A Mermaid block to render: its node's position, its source and its title.
pub struct MermaidBlock {
    pub node: usize,
    pub source: String,
    pub title: String,
}

/// What the render decides before the diagrams are drawn: the table of contents and the
/// diagrams to draw.
pub struct RenderPlan {
    pub toc: Vec<TocItem>,
    pub diagrams: Vec<MermaidBlock>,
}

/// The mathematical form of table-of-contents entries.
pub open spec fn toc_view(s: Seq<TocItem>) -> Seq<(u8, Seq<char>, Seq<char>)> {
    s.map_values(|t: TocItem| (t.level, t.text@, t.id@))
}

/// The mathematical form of Mermaid blocks.
pub open spec fn mermaid_view(s: Seq<MermaidBlock>) -> Seq<(int, Seq<char>, Seq<char>)> {
    s.map_values(|m: MermaidBlock| (m.node as int, m.source@, m.title@))
}

/// The plan of a body's render, from its parsed nodes.
pub open spec fn spec_plan(bs: Seq<MdBlockV>) -> (Seq<(u8, Seq<char>, Seq<char>)>, Seq<(int, Seq<char>, Seq<char>)>) {
    let hs = headings(bs);
    (toc_entries(hs, heading_anchors(hs.map_values(|h: (u8, Seq<char>)| h.1))), mermaid_blocks(bs))
}

/// `s` without trailing white space.
fn trim_end_string(s: &str) -> (r: String)
    ensures
        r@ == crate::text::trim_end_ws(s@),
{
    let v = chars_of(s);
    let mut b = v.len();
    assert(v@.subrange(0, v@.len() as int) == v@);
    while b > 0 && is_whitespace(v[b - 1])
        invariant
            b <= v@.len(),
            crate::text::trim_end_ws(v@.subrange(0, b as int)) == crate::text::trim_end_ws(v@),
        decreases b,
    {
        assert(v@.subrange(0, b as int).drop_last() == v@.subrange(0, b - 1));
        b -= 1;
    }
    assert(crate::text::trim_end_ws(v@.subrange(0, b as int)) == v@.subrange(0, b as int));
    string_of(&v, 0, b)
}

/// Parses a Markdown body and decides its table of contents (the anchors of its
/// headings) and the Mermaid blocks that become diagrams.
pub fn plan_render(body: &str) -> (r: RenderPlan)
    ensures
        (toc_view(r.toc@), mermaid_view(r.diagrams@)) == spec_plan(
            md_blocks(body@, site_settings()),
        ),
{
    let settings = site_markdown_settings();
    let blocks = markdown_blocks(body, &settings);
    let ghost bs = blocks_view(blocks@);
    let mut levels: Vec<u8> = Vec::new();
    let mut texts: Vec<String> = Vec::new();
    let mut diagrams: Vec<MermaidBlock> = Vec::new();
    let mut k: usize = 0;
    while k < blocks.len()
        invariant
            k <= blocks@.len(),
            bs == blocks_view(blocks@),
            levels@.len() == texts@.len(),
            headings(bs.take(k as int)) == Seq::new(
                levels@.len(),
                |j: int| (levels@[j], texts@[j]@),
            ),
            mermaid_view(diagrams@) == mermaid_blocks(bs.take(k as int)),
        decreases blocks.len() - k,
    {
        proof {
            assert(bs.take(k + 1).drop_last() == bs.take(k as int));
            assert(bs.take(k + 1).last() == blocks@[k as int].view());
        }
        let ghost old_l = levels@;
        let ghost old_t = texts@;
        let ghost old_d = mermaid_view(diagrams@);
        match &blocks[k] {
            MdBlock::Heading { level, text } => {
                levels.push(*level);
                texts.push(text.clone());
                assert(Seq::new(levels@.len(), |j: int| (levels@[j], texts@[j]@)) =~= Seq::new(
                    old_l.len(),
                    |j: int| (old_l[j], old_t[j]@),
                ).push((*level, text@)));
                assert(mermaid_view(diagrams@) =~= mermaid_blocks(bs.take(k + 1)));
            },
            MdBlock::Code { fenced, info, literal } => {
                if is_mermaid(*fenced, info.as_str()) {
                    let m = MermaidBlock {
                        node: k,
                        source: trim_end_string(literal.as_str()),
                        title: diagram_title(info.as_str()),
                    };
                    diagrams.push(m);
                }
                assert(mermaid_view(diagrams@) =~= mermaid_blocks(bs.take(k + 1)));
                assert(Seq::new(levels@.len(), |j: int| (levels@[j], texts@[j]@)) =~= headings(
                    bs.take(k + 1),
                ));
            },
            MdBlock::Other => {
                assert(mermaid_view(diagrams@) =~= mermaid_blocks(bs.take(k + 1)));
                assert(Seq::new(levels@.len(), |j: int| (levels@[j], texts@[j]@)) =~= headings(
                    bs.take(k + 1),
                ));
            },
        }
        k += 1;
    }
    assert(bs.take(blocks@.len() as int) == bs);
    let ghost hs = headings(bs);
    assert(hs.map_values(|h: (u8, Seq<char>)| h.1) =~= str_views(texts@));
    let ids = anchorize(&texts);
    let ghost iv = str_views(ids@);
    let mut toc: Vec<TocItem> = Vec::new();
    let mut j: usize = 0;
    while j < levels.len()
        invariant
            j <= levels@.len(),
            levels@.len() == texts@.len(),
            ids@.len() == texts@.len(),
            iv == str_views(ids@),
            hs == Seq::new(levels@.len(), |i: int| (levels@[i], texts@[i]@)),
            toc_view(toc@) == toc_entries(hs.take(j as int), iv),
        decreases levels.len() - j,
    {
        proof {
            assert(hs.take(j + 1).drop_last() == hs.take(j as int));
            assert(hs.take(j + 1).last() == (levels@[j as int], texts@[j as int]@));
        }
        let ghost before = toc_view(toc@);
        match toc_item(levels[j], texts[j].clone(), ids[j].clone()) {
            Some(item) => {
                toc.push(item);
                assert(toc_view(toc@) =~= before.push((levels@[j as int], texts@[j as int]@, iv[j as int])));
            },
            None => {
                assert(toc_view(toc@) =~= before);
            },
        }
        assert(toc_view(toc@) =~= toc_entries(hs.take(j + 1), iv));
        j += 1;
    }
    assert(hs.take(levels@.len() as int) == hs);
    RenderPlan { toc, diagrams }
}

/// A drawn diagram: its SVG and its pixel size where known.
pub struct DiagramImage {
    pub svg: String,
    pub width: Option<u32>,
    pub height: Option<u32>,
}

/// The figure that replaces the `k`-th diagram's node.
pub open spec fn figure_of(
    k: int,
    m: (int, Seq<char>, Seq<char>),
    base: Seq<char>,
    image: (Seq<char>, Option<u32>, Option<u32>),
) -> Seq<char> {
    spec_diagram_figure(
        crate::site::spec_concat(base, spec_diagram_name(k) + ".svg"@),
        m.2,
        m.1,
        image.1,
        image.2,
        spec_diagram_name(k),
    )
}

/// The mathematical form of drawn diagrams.
pub open spec fn images_view(s: Seq<DiagramImage>) -> Seq<(Seq<char>, Option<u32>, Option<u32>)> {
    s.map_values(|d: DiagramImage| (d.svg@, d.width, d.height))
}

/// The mathematical form of diagram assets.
pub open spec fn assets_view(s: Seq<DiagramAsset>) -> Seq<(Seq<char>, Seq<char>)> {
    s.map_values(|d: DiagramAsset| (d.file_name@, d.svg@))
}

/// The figures that replace the diagrams' nodes, as (node position, HTML), and the
/// diagram files `diagram-N.svg`, for diagrams drawn as `images` and published under
/// `diagram_base`.
pub fn diagram_figures(
    diagrams: &Vec<MermaidBlock>,
    diagram_base: &str,
    images: &Vec<DiagramImage>,
) -> (r: (Vec<(usize, String)>, Vec<DiagramAsset>))
    requires
        images@.len() == diagrams@.len(),
    ensures
        r.0@.map_values(|f: (usize, String)| (f.0 as int, f.1@)) == Seq::new(
            diagrams@.len(),
            |k: int|
                (
                    mermaid_view(diagrams@)[k].0,
                    figure_of(k, mermaid_view(diagrams@)[k], diagram_base@, images_view(images@)[k]),
                ),
        ),
        assets_view(r.1@) == Seq::new(
            diagrams@.len(),
            |k: int| (spec_diagram_name(k) + ".svg"@, images_view(images@)[k].0),
        ),
{
    let mut figures: Vec<(usize, String)> = Vec::new();
    let mut assets: Vec<DiagramAsset> = Vec::new();
    let mut k: usize = 0;
    while k < diagrams.len()
        invariant
            k <= diagrams@.len(),
            images@.len() == diagrams@.len(),
            figures@.len() == k,
            assets@.len() == k,
            forall|j: int|
                0 <= j < k ==> (#[trigger] figures@[j]).0 as int == mermaid_view(diagrams@)[j].0
                    && figures@[j].1@ == figure_of(
                    j,
                    mermaid_view(diagrams@)[j],
                    diagram_base@,
                    images_view(images@)[j],
                ),
            forall|j: int|
                0 <= j < k ==> (#[trigger] assets@[j]).file_name@ == spec_diagram_name(j) + ".svg"@
                    && assets@[j].svg@ == images@[j].svg@,
        decreases diagrams.len() - k,
    {
        assert(k < diagrams@.len());
        let no = k as u64;
        let file_name = diagram_file_name(no);
        let src = crate::site::concat(diagram_base, file_name.as_str());
        let d = &diagrams[k];
        let image = &images[k];
        let figure = diagram_figure(
            src.as_str(),
            d.title.as_str(),
            d.source.as_str(),
            image.width,
            image.height,
            diagram_name(no).as_str(),
        );
        figures.push((d.node, figure));
        assets.push(DiagramAsset { file_name, svg: image.svg.clone() });
        k += 1;
    }
    assert(figures@.map_values(|f: (usize, String)| (f.0 as int, f.1@)) =~= Seq::new(
        diagrams@.len(),
        |k: int|
            (
                mermaid_view(diagrams@)[k].0,
                figure_of(k, mermaid_view(diagrams@)[k], diagram_base@, images_view(images@)[k]),
            ),
    ));
    assert(assets_view(assets@) =~= Seq::new(
        diagrams@.len(),
        |k: int| (spec_diagram_name(k) + ".svg"@, images_view(images@)[k].0),
    ));
    (figures, assets)
}

/// Each Mermaid diagram stands at the position of a code block among the nodes, and the
/// positions increase.
proof fn lemma_mermaid_nodes(bs: Seq<MdBlockV>)
    ensures
        forall|k: int|
            0 <= k < mermaid_blocks(bs).len() ==> 0 <= (#[trigger] mermaid_blocks(bs)[k]).0 < bs.len()
                && bs[mermaid_blocks(bs)[k].0] is Code,
        forall|k1: int, k2: int|
            0 <= k1 < k2 < mermaid_blocks(bs).len() ==> (#[trigger] mermaid_blocks(bs)[k1]).0 < (
            #[trigger] mermaid_blocks(bs)[k2]).0,
    decreases bs.len(),
{
    if bs.len() > 0 {
        let pre = bs.drop_last();
        lemma_mermaid_nodes(pre);
        let n = mermaid_blocks(pre).len();
        assert forall|k: int| 0 <= k < n implies #[trigger] mermaid_blocks(bs)[k] == mermaid_blocks(pre)[k] by {
        }
        assert forall|k: int| 0 <= k < mermaid_blocks(bs).len() implies 0 <= (#[trigger] mermaid_blocks(
            bs,
        )[k]).0 < bs.len() && bs[mermaid_blocks(bs)[k].0] is Code by {
            if k < n {
                assert(bs[mermaid_blocks(pre)[k].0] == pre[mermaid_blocks(pre)[k].0]);
            }
        }
        assert forall|k1: int, k2: int|
            0 <= k1 < k2 < mermaid_blocks(bs).len() implies (#[trigger] mermaid_blocks(bs)[k1]).0 < (
            #[trigger] mermaid_blocks(bs)[k2]).0 by {
            if k2 >= n {
                assert(mermaid_blocks(bs)[k2].0 == bs.len() - 1);
                assert(mermaid_blocks(pre)[k1].0 < pre.len());
            }
        }
    }
}

/// The error `render` gives when the drawn diagrams do not match the body's diagrams.
pub open spec fn diagram_count_error() -> Seq<char> {
    "the drawn diagrams do not match the body's diagrams"@
}

/// The figures of a body's diagrams, each at its node's position, for diagrams drawn as
/// `images` and published under `base`.
pub open spec fn page_figures(
    diagrams: Seq<(int, Seq<char>, Seq<char>)>,
    base: Seq<char>,
    images: Seq<(Seq<char>, Option<u32>, Option<u32>)>,
) -> Seq<(int, Seq<char>)> {
    Seq::new(
        diagrams.len(),
        |k: int| (diagrams[k].0, figure_of(k, diagrams[k], base, images[k])),
    )
}

/// Renders a Markdown body whose Mermaid diagrams were drawn as `images`, in the order
/// `plan_render` lists them: the HTML, the table of contents and the diagram files,
/// published under `diagram_base`. In the HTML each diagram's code block is replaced by
/// its figure; the figures and the headings' opening tags with their ids occur in it in
/// document order.
pub fn render(
    body: &str,
    diagram_base: &str,
    options: &Render,
    images: &Vec<DiagramImage>,
) -> (r: Result<Rendered, String>)
    ensures
        ({
            let bs = md_blocks(body@, site_settings());
            let plan = spec_plan(bs);
            if images@.len() != plan.1.len() {
                r matches Err(e) && e@ == diagram_count_error()
            } else {
                r matches Ok(out) && toc_view(out.toc@) == plan.0 && assets_view(out.diagrams@)
                    == Seq::new(
                    plan.1.len(),
                    |k: int| (spec_diagram_name(k) + ".svg"@, images_view(images@)[k].0),
                ) && appears_in_order(
                    out.html@,
                    page_marks(bs, ""@, page_anchors(bs), page_figures(plan.1, diagram_base@, images_view(images@))),
                )
            }
        }),
{
    let plan = plan_render(body);
    if images.len() != plan.diagrams.len() {
        return Err(String::from_str("the drawn diagrams do not match the body's diagrams"));
    }
    let (figures, diagrams) = diagram_figures(&plan.diagrams, diagram_base, images);
    let settings = site_markdown_settings();
    let ghost bs = md_blocks(body@, settings.view());
    let ghost target = page_figures(mermaid_view(plan.diagrams@), diagram_base@, images_view(images@));
    proof {
        let fv = figures@.map_values(|f: (usize, String)| (f.0 as int, f.1@));
        assert(fv.len() == figures@.len());
        assert(figures_view(figures@) =~= target);
        lemma_mermaid_nodes(bs);
        assert(mermaid_view(plan.diagrams@) == mermaid_blocks(bs));
        assert forall|i: int| 0 <= i < figures@.len() implies (#[trigger] figures@[i]).0 < bs.len()
            && bs[figures@[i].0 as int] is Code by {
            assert(figures_view(figures@)[i].0 == target[i].0);
        }
        assert forall|i: int, j: int| 0 <= i < j < figures@.len() implies figures@[i].0 < figures@[j].0 by {
            assert(figures_view(figures@)[i].0 == target[i].0);
            assert(figures_view(figures@)[j].0 == target[j].0);
            assert(target[i].0 == mermaid_blocks(bs)[i].0);
            assert(target[j].0 == mermaid_blocks(bs)[j].0);
        }
    }
    match format_markdown(body, &settings, options, figures) {
        Some(html) => Ok(Rendered { html, toc: plan.toc, diagrams }),
        None => Err(String::from_str("the Markdown document could not be formatted")),
    }
}

} // verus!
