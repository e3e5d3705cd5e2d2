//! What the site build computes besides its pages: file paths and the encoded contact
//! address.
use vstd::prelude::*;

use crate::text::push_str;
use vstd::string::StringSliceAdditionalSpecFns;

verus! {

/// `p/f`.
pub open spec fn spec_concat(p: Seq<char>, f: Seq<char>) -> Seq<char> {
    p + seq!['/'] + f
}

/// Joins a directory and a file name with a slash.
pub fn concat(p: &str, f: &str) -> (r: String)
    ensures
        r@ == spec_concat(p@, f@),
{
    let mut r = String::new();
    push_str(&mut r, p);
    r.push('/');
    push_str(&mut r, f);
    r
}

/// The character of the standard base64 alphabet for the six-bit value `v`.
pub open spec fn b64_char(v: int) -> char {
    if v < 26 {
        ('A' as int + v) as char
    } else if v < 52 {
        ('a' as int + (v - 26)) as char
    } else if v < 62 {
        ('0' as int + (v - 52)) as char
    } else if v == 62 {
        '+'
    } else {
        '/'
    }
}

/// Standard base64 (RFC 4648 alphabet, padded with `=`): each group of three bytes
/// becomes four characters, and a final group of one or two bytes is padded.
pub open spec fn b64(b: Seq<u8>) -> Seq<char>
    decreases b.len(),
{
    if b.len() == 0 {
        seq![]
    } else if b.len() == 1 {
        let x = b[0] as int;
        seq![b64_char(x / 4), b64_char((x % 4) * 16), '=', '=']
    } else if b.len() == 2 {
        let (x, y) = (b[0] as int, b[1] as int);
        seq![b64_char(x / 4), b64_char((x % 4) * 16 + y / 16), b64_char((y % 16) * 4), '=']
    } else {
        let (x, y, z) = (b[0] as int, b[1] as int, b[2] as int);
        seq![
            b64_char(x / 4),
            b64_char((x % 4) * 16 + y / 16),
            b64_char((y % 16) * 4 + z / 64),
            b64_char(z % 64),
        ] + b64(b.skip(3))
    }
}

/// The length of the encoding: four characters for every group of up to three bytes.
pub proof fn law_b64_length(b: Seq<u8>)
    ensures
        b64(b).len() == (b.len() + 2) / 3 * 4,
    decreases b.len(),
{
    if b.len() > 2 {
        law_b64_length(b.skip(3));
    }
}

/// `base64::engine::general_purpose::STANDARD.encode`: the standard alphabet with
/// padding, as `b64` states. The crate panics when the encoded length overflows `usize`,
/// which the precondition rules out.
#[verifier::external_body]
fn base64_standard(bytes: &[u8]) -> (r: String)
    requires
        (bytes@.len() + 2) / 3 * 4 <= usize::MAX,
    ensures
        r@ == b64(bytes@),
{
    base64::Engine::encode(&base64::engine::general_purpose::STANDARD, bytes)
}

/// The contact address as the pages carry it: its UTF-8 bytes in standard base64.
pub fn encode_email(email: &str) -> (r: String)
    requires
        (email.spec_bytes().len() + 2) / 3 * 4 <= usize::MAX,
    ensures
        r@ == b64(email.spec_bytes()),
{
    base64_standard(email.as_bytes())
}

/// The minifier settings the pages are written with, as plain values.
pub struct MinifySettings {
    pub minify_css: bool,
    pub minify_js: bool,
    pub minify_doctype: bool,
    pub allow_removing_spaces_between_attributes: bool,
    pub allow_noncompliant_unquoted_attribute_values: bool,
}

impl MinifySettings {
    /// The settings as a tuple, in field order.
    pub open spec fn view(&self) -> (bool, bool, bool, bool, bool) {
        (
            self.minify_css,
            self.minify_js,
            self.minify_doctype,
            self.allow_removing_spaces_between_attributes,
            self.allow_noncompliant_unquoted_attribute_values,
        )
    }
}

/// The site's settings: CSS is minified and scripts are not; the doctype, the spaces
/// between attributes and spec-compliant attribute quoting are kept.
pub fn site_minify_settings() -> (r: MinifySettings)
    ensures
        r.view() == (true, false, false, false, false),
{
    MinifySettings {
        minify_css: true,
        minify_js: false,
        minify_doctype: false,
        allow_removing_spaces_between_attributes: false,
        allow_noncompliant_unquoted_attribute_values: false,
    }
}

/// What `minify_html::minify` returns for the UTF-8 bytes of a document under the given
/// settings (the other settings at their defaults).
pub uninterp spec fn minified(text: Seq<char>, settings: (bool, bool, bool, bool, bool)) -> Seq<u8>;

/// `minify_html::minify` on the UTF-8 bytes of `text`, with a configuration whose named
/// fields are taken from `settings` and whose other fields keep `Cfg::new()`'s values.
/// The input is always valid UTF-8, which the minifier's CSS handling expects. The result
/// is named by `minified`; nothing more of it is stated.
#[verifier::external_body]
fn minify_text(text: &str, settings: &MinifySettings) -> (r: Vec<u8>)
    ensures
        r@ == minified(text@, settings.view()),
{
    let mut cfg = minify_html::Cfg::new();
    cfg.minify_css = settings.minify_css;
    cfg.minify_js = settings.minify_js;
    cfg.minify_doctype = settings.minify_doctype;
    cfg.allow_removing_spaces_between_attributes = settings.allow_removing_spaces_between_attributes;
    cfg.allow_noncompliant_unquoted_attribute_values = settings.allow_noncompliant_unquoted_attribute_values;
    minify_html::minify(text.as_bytes(), &cfg)
}

/// A rendered page as it is written out: its UTF-8 bytes minified with the site's
/// settings.
pub fn minify_page(html: &str) -> (r: Vec<u8>)
    ensures
        r@ == minified(html@, (true, false, false, false, false)),
{
    let settings = site_minify_settings();
    minify_text(html, &settings)
}

} // verus!
