//! Site routes and the identifiers and URLs derived from them.
use vstd::prelude::*;

use crate::text::{chars_of, push_str, trim_end_char, trim_end_char_len, push_chars};

verus! {

/// The fragment naming a page's main node.
pub const SLICE_PAGE: &'static str = "page";

/// The fragment naming the site owner's node.
pub const SLICE_PERSON: &'static str = "person";

/// A site path such as `/blog/`.
pub struct Route<'a> {
    pub path: &'a str,
}

/// `path#slice`.
pub open spec fn spec_href(path: Seq<char>, slice: Seq<char>) -> Seq<char> {
    path + seq!['#'] + slice
}

/// The canonical URL of `path` under the site root `base` (trailing slashes of `base`
/// dropped).
pub open spec fn spec_canonical(base: Seq<char>, path: Seq<char>) -> Seq<char> {
    trim_end_char(base, '/') + path
}

/// The absolute identifier `base/path#slice`.
pub open spec fn spec_id(base: Seq<char>, path: Seq<char>, slice: Seq<char>) -> Seq<char> {
    spec_canonical(base, path) + seq!['#'] + slice
}

impl Route<'static> {
    /// The home page route `/`.
    pub fn home() -> (r: Self)
        ensures
            r.path@ == "/"@,
    {
        Route { path: "/" }
    }

    /// The blog index route `/blog/`.
    pub fn blog() -> (r: Self)
        ensures
            r.path@ == "/blog/"@,
    {
        Route { path: "/blog/" }
    }

    /// The tag hub route `/blog/tags/`.
    pub fn tags_hub() -> (r: Self)
        ensures
            r.path@ == "/blog/tags/"@,
    {
        Route { path: "/blog/tags/" }
    }
}

/// Appends `base` without its trailing slashes.
fn push_trimmed_base(out: &mut String, base: &str)
    ensures
        final(out)@ == old(out)@ + trim_end_char(base@, '/'),
{
    let v = chars_of(base);
    let n = trim_end_char_len(&v, v.len(), '/');
    assert(v@.subrange(0, v@.len() as int) == v@);
    push_chars(out, &v, 0, n);
    assert(v@.subrange(0, n as int) == trim_end_char(base@, '/'));
}

impl<'a> Route<'a> {
    /// A route for `path`.
    pub fn new(path: &'a str) -> (r: Self)
        ensures
            r.path == path,
    {
        Route { path }
    }

    /// The same-site link `path#slice`.
    pub fn href(&self, slice: &str) -> (s: String)
        ensures
            s@ == spec_href(self.path@, slice@),
    {
        let mut s = String::new();
        push_str(&mut s, self.path);
        s.push('#');
        push_str(&mut s, slice);
        s
    }

    /// The absolute node identifier `canonical/path#slice`.
    pub fn id(&self, canonical: &str, slice: &str) -> (s: String)
        ensures
            s@ == spec_id(canonical@, self.path@, slice@),
    {
        let mut s = String::new();
        push_trimmed_base(&mut s, canonical);
        push_str(&mut s, self.path);
        s.push('#');
        push_str(&mut s, slice);
        assert(s@ =~= spec_id(canonical@, self.path@, slice@));
        s
    }

    /// The absolute URL `base/path`.
    pub fn canonical(&self, base: &str) -> (s: String)
        ensures
            s@ == spec_canonical(base@, self.path@),
    {
        let mut s = String::new();
        push_trimmed_base(&mut s, base);
        push_str(&mut s, self.path);
        assert(s@ =~= spec_canonical(base@, self.path@));
        s
    }
}

/// Trailing slashes on the site root never change a route's URL or identifiers: the root
/// written with one more slash gives the same result.
pub proof fn law_trailing_slash_is_ignored(base: Seq<char>, path: Seq<char>, slice: Seq<char>)
    ensures
        spec_canonical(base.push('/'), path) == spec_canonical(base, path),
        spec_id(base.push('/'), path, slice) == spec_id(base, path, slice),
{
    assert(base.push('/').drop_last() == base);
}

/// A route's identifier is its canonical URL followed by `#slice`.
pub proof fn law_id_is_canonical_with_fragment(base: Seq<char>, path: Seq<char>, slice: Seq<char>)
    ensures
        spec_id(base, path, slice) == spec_canonical(base, path) + seq!['#'] + slice,
        spec_id(base, path, slice) == trim_end_char(base, '/') + spec_href(path, slice),
{
    assert(trim_end_char(base, '/') + spec_href(path, slice) =~= spec_id(base, path, slice));
}

} // verus!
