//! Names of the files packed into the site archive: paths relative to the output
//! directory, joined with forward slashes.
use vstd::prelude::*;

use crate::order::{lemma_lex_irreflexive, lemma_lex_total, lemma_lex_transitive, lex_lt};
use crate::text::{chars_of, find_char_from, find_char_from_exec, lemma_find_from, push_chars, push_str, slice_vec};

verus! {

/// One component of a `/`-separated path, as `std::path::Component` sees it.
pub ghost enum Comp {
    Root,
    Cur,
    Parent,
    Normal(Seq<char>),
}

/// The pieces of `p` between slashes, empty ones included.
pub open spec fn pieces(p: Seq<char>) -> Seq<Seq<char>>
    decreases p.len(),
{
    match find_char_from(p, '/', 0) {
        None => seq![p],
        Some(k) => {
            proof {
                lemma_find_from(p, seq!['/'], 0);
            }
            seq![p.take(k)] + pieces(p.skip(k + 1))
        },
    }
}

/// The component a non-empty piece stands for.
pub open spec fn piece_comp(x: Seq<char>) -> Comp {
    if x == ".."@ {
        Comp::Parent
    } else {
        Comp::Normal(x)
    }
}

/// The components of the pieces, with empty pieces and `.` dropped.
pub open spec fn inner_comps(ps: Seq<Seq<char>>) -> Seq<Comp>
    decreases ps.len(),
{
    if ps.len() == 0 {
        seq![]
    } else {
        let head = if ps[0].len() == 0 || ps[0] == "."@ {
            seq![]
        } else {
            seq![piece_comp(ps[0])]
        };
        head + inner_comps(ps.drop_first())
    }
}

/// The components of path `p`: a root for a leading `/`, a current-directory component
/// for a leading `.` piece, then every other non-empty piece except `.`.
pub open spec fn comps(p: Seq<char>) -> Seq<Comp> {
    let ps = pieces(p);
    let lead = if p.len() > 0 && p[0] == '/' {
        seq![Comp::Root]
    } else if ps[0] == "."@ {
        seq![Comp::Cur]
    } else {
        seq![]
    };
    lead + inner_comps(ps)
}

/// The names of the normal components, in order.
pub open spec fn normal_names(cs: Seq<Comp>) -> Seq<Seq<char>>
    decreases cs.len(),
{
    if cs.len() == 0 {
        seq![]
    } else {
        let head = match cs[0] {
            Comp::Normal(x) => seq![x],
            _ => seq![],
        };
        head + normal_names(cs.drop_first())
    }
}

/// `names` joined with `/`.
pub open spec fn join_slash(names: Seq<Seq<char>>) -> Seq<char>
    decreases names.len(),
{
    if names.len() == 0 {
        seq![]
    } else if names.len() == 1 {
        names[0]
    } else {
        names[0] + seq!['/'] + join_slash(names.drop_first())
    }
}

/// The archive entry name of `file` under the directory `base`: an error when `file` does
/// not lie under `base` or names no file below it.
pub open spec fn spec_archive_name(file: Seq<char>, base: Seq<char>) -> Result<Seq<char>, Seq<char>> {
    let fc = comps(file);
    let bc = comps(base);
    if bc.len() <= fc.len() && fc.take(bc.len() as int) == bc {
        let names = normal_names(fc.skip(bc.len() as int));
        if names.len() == 0 {
            Err(file + " has no archive name"@)
        } else {
            Ok(join_slash(names))
        }
    } else {
        Err(file + " is outside the output directory"@)
    }
}

/// An executable path component.
enum PathPart {
    Root,
    Cur,
    Parent,
    Normal(Vec<char>),
}

impl PathPart {
    spec fn view(&self) -> Comp {
        match self {
            PathPart::Root => Comp::Root,
            PathPart::Cur => Comp::Cur,
            PathPart::Parent => Comp::Parent,
            PathPart::Normal(v) => Comp::Normal(v@),
        }
    }
}

/// The views of a list of parts.
spec fn parts_view(v: Seq<PathPart>) -> Seq<Comp> {
    v.map_values(|p: PathPart| p.view())
}

/// Whether `v[a..b]` is `..` and whether it is `.`.
fn piece_kind(v: &Vec<char>, a: usize, b: usize) -> (r: (bool, bool))
    requires
        a <= b <= v@.len(),
    ensures
        r.0 == (v@.subrange(a as int, b as int) == ".."@),
        r.1 == (v@.subrange(a as int, b as int) == "."@),
{
    let dd = chars_of("..");
    let d = chars_of(".");
    (crate::text::seq_eq(v, a, b, &dd), crate::text::seq_eq(v, a, b, &d))
}

/// The pieces of `p[from..]`, as components.
proof fn lemma_pieces_step(p: Seq<char>, from: int, k: int)
    requires
        0 <= from <= k < p.len(),
        p[k] == '/',
        forall|j: int| from <= j < k ==> p[j] != '/',
    ensures
        pieces(p.skip(from)) == seq![p.subrange(from, k)] + pieces(p.skip(k + 1)),
{
    let q = p.skip(from);
    lemma_find_from(q, seq!['/'], 0);
    assert(q.subrange(k - from, k - from + 1) =~= seq!['/']);
    assert(crate::text::occurs_at(q, seq!['/'], k - from));
    match find_char_from(q, '/', 0) {
        Some(j) => {
            if j != k - from {
                assert(q.subrange(j, j + 1)[0] == q[j]);
                assert(q[j] == p[from + j]);
            }
        },
        None => {},
    }
    assert(find_char_from(q, '/', 0) == Some(k - from));
    assert(q.take(k - from) == p.subrange(from, k));
    assert(q.skip(k - from + 1) == p.skip(k + 1));
}

/// The components of one piece.
pub open spec fn piece_head(x: Seq<char>) -> Seq<Comp> {
    if x.len() == 0 || x == "."@ {
        seq![]
    } else {
        seq![piece_comp(x)]
    }
}

/// `inner_comps` of a piece followed by more pieces.
proof fn lemma_inner_comps_cons(x: Seq<char>, rest: Seq<Seq<char>>)
    ensures
        inner_comps(seq![x] + rest) == piece_head(x) + inner_comps(rest),
{
    assert((seq![x] + rest).drop_first() == rest);
    assert((seq![x] + rest)[0] == x);
}

/// The last piece, when no slash follows.
proof fn lemma_pieces_last(p: Seq<char>, from: int)
    requires
        0 <= from <= p.len(),
        forall|j: int| from <= j < p.len() ==> p[j] != '/',
    ensures
        pieces(p.skip(from)) == seq![p.skip(from)],
{
    let q = p.skip(from);
    lemma_find_from(q, seq!['/'], 0);
    match find_char_from(q, '/', 0) {
        Some(j) => {
            assert(q.subrange(j, j + 1)[0] == q[j]);
            assert(q[j] == p[from + j]);
        },
        None => {},
    }
}

/// The components of a path.
fn path_comps(p: &str) -> (r: Vec<PathPart>)
    ensures
        parts_view(r@) == comps(p@),
{
    let v = chars_of(p);
    let ghost ps = pieces(v@);
    let mut r: Vec<PathPart> = Vec::new();
    // The leading component.
    let rooted = v.len() > 0 && v[0] == '/';
    let first_end = match find_char_from_exec(&v, '/', 0) {
        Some(k) => k,
        None => v.len(),
    };
    proof {
        lemma_find_from(v@, seq!['/'], 0);
        assert(v@.skip(0) == v@);
        if first_end < v@.len() {
            assert forall|j: int| 0 <= j < first_end implies v@[j] != '/' by {
                assert(!crate::text::occurs_at(v@, seq!['/'], j));
                assert(v@.subrange(j, j + 1) =~= seq![v@[j]]);
            }
            assert(v@.subrange(first_end as int, first_end + 1)[0] == v@[first_end as int]);
            lemma_pieces_step(v@, 0, first_end as int);
        } else {
            assert forall|j: int| 0 <= j < v@.len() implies v@[j] != '/' by {
                assert(!crate::text::occurs_at(v@, seq!['/'], j));
                assert(v@.subrange(j, j + 1) =~= seq![v@[j]]);
            }
            lemma_pieces_last(v@, 0);
            assert(v@.subrange(0, first_end as int) == v@);
        }
        assert(ps[0] == v@.subrange(0, first_end as int));
    }
    let (_, first_is_dot) = piece_kind(&v, 0, first_end);
    if rooted {
        r.push(PathPart::Root);
    } else if first_is_dot {
        r.push(PathPart::Cur);
    }
    let ghost lead = parts_view(r@);
    assert(lead + inner_comps(ps) == comps(v@));
    // Every piece in turn.
    let mut a: usize = 0;
    assert(v@.skip(0) == v@);
    loop
        invariant
            a <= v@.len(),
            v@ == p@,
            ps == pieces(v@),
            lead + inner_comps(ps) == comps(v@),
            parts_view(r@) + inner_comps(pieces(v@.skip(a as int))) == comps(v@),
        decreases v@.len() - a,
    {
        let b = match find_char_from_exec(&v, '/', a) {
            Some(k) => k,
            None => v.len(),
        };
        proof {
            lemma_find_from(v@, seq!['/'], a as int);
            assert forall|j: int| a <= j < b implies v@[j] != '/' by {
                assert(!crate::text::occurs_at(v@, seq!['/'], j));
                assert(v@.subrange(j, j + 1) =~= seq![v@[j]]);
            }
            if b < v@.len() {
                assert(v@.subrange(b as int, b + 1)[0] == v@[b as int]);
                lemma_pieces_step(v@, a as int, b as int);
            } else {
                lemma_pieces_last(v@, a as int);
                assert(v@.skip(a as int) == v@.subrange(a as int, b as int));
            }
        }
        let ghost piece = v@.subrange(a as int, b as int);
        let ghost rest = if b < v@.len() { pieces(v@.skip(b + 1)) } else { Seq::empty() };
        assert(pieces(v@.skip(a as int)) == seq![piece] + rest);
        assert((seq![piece] + rest).drop_first() == rest);
        let (is_parent, is_dot) = piece_kind(&v, a, b);
        let ghost before = parts_view(r@);
        if b > a && !is_dot {
            if is_parent {
                r.push(PathPart::Parent);
            } else {
                r.push(PathPart::Normal(slice_vec(&v, a, b)));
            }
            assert(parts_view(r@) =~= before + piece_head(piece));
        } else {
            assert(parts_view(r@) =~= before + piece_head(piece));
        }
        proof {
            lemma_inner_comps_cons(piece, rest);
            assert(parts_view(r@) + inner_comps(rest) =~= before + inner_comps(pieces(v@.skip(a as int))));
        }
        if b >= v.len() {
            proof {
                assert(inner_comps(rest) =~= Seq::<Comp>::empty());
                assert(parts_view(r@) =~= parts_view(r@) + inner_comps(rest));
                assert(before + inner_comps(pieces(v@.skip(a as int))) == comps(v@));
                assert(parts_view(r@) == comps(v@));
            }
            return r;
        }
        a = b + 1;
    }
}

/// The names of the normal components in `parts[from..]`.
fn normal_names_exec(parts: &Vec<PathPart>, from: usize) -> (r: Vec<Vec<char>>)
    requires
        from <= parts@.len(),
    ensures
        r@.map_values(|x: Vec<char>| x@) == normal_names(parts_view(parts@).skip(from as int)),
{
    let mut r: Vec<Vec<char>> = Vec::new();
    let mut i = parts.len();
    let ghost all = parts_view(parts@);
    // Walk backwards so each step prepends to the result.
    let mut rev: Vec<Vec<char>> = Vec::new();
    while i > from
        invariant
            from <= i <= parts@.len(),
            all == parts_view(parts@),
            rev@.map_values(|x: Vec<char>| x@).reverse() == normal_names(all.skip(i as int)),
        decreases i,
    {
        i -= 1;
        assert(all.skip(i as int).drop_first() == all.skip(i + 1));
        assert(all.skip(i as int)[0] == all[i as int]);
        match &parts[i] {
            PathPart::Normal(x) => {
                let ghost old_rev = rev@;
                rev.push(slice_vec(x, 0, x.len()));
                proof {
                    assert(x@.subrange(0, x@.len() as int) == x@);
                    assert(rev@.map_values(|y: Vec<char>| y@) == old_rev.map_values(|y: Vec<char>| y@).push(x@));
                    assert(old_rev.map_values(|y: Vec<char>| y@).push(x@).reverse() =~= seq![x@]
                        + old_rev.map_values(|y: Vec<char>| y@).reverse());
                }
            },
            _ => {},
        }
    }
    let mut k = rev.len();
    while k > 0
        invariant
            k <= rev@.len(),
            r@.map_values(|x: Vec<char>| x@) == rev@.map_values(|x: Vec<char>| x@).reverse().take(
                (rev@.len() - k) as int,
            ),
        decreases k,
    {
        k -= 1;
        let ghost old_r = r@;
        r.push(slice_vec(&rev[k], 0, rev[k].len()));
        proof {
            let rv = rev@.map_values(|x: Vec<char>| x@);
            assert(rev@[k as int]@.subrange(0, rev@[k as int]@.len() as int) == rev@[k as int]@);
            assert(rv.reverse().take((rev@.len() - k) as int) =~= rv.reverse().take(
                (rev@.len() - k - 1) as int,
            ).push(rv[k as int]));
            assert(r@.map_values(|x: Vec<char>| x@) =~= old_r.map_values(|x: Vec<char>| x@).push(
                rv[k as int],
            ));
        }
    }
    assert(rev@.map_values(|x: Vec<char>| x@).reverse().take(rev@.len() as int) == rev@.map_values(
        |x: Vec<char>| x@,
    ).reverse());
    r
}

/// Whether the first `bc.len()` parts of `fc` are `bc`.
fn parts_prefix(fc: &Vec<PathPart>, bc: &Vec<PathPart>) -> (b: bool)
    ensures
        b == (bc@.len() <= fc@.len() && parts_view(fc@).take(bc@.len() as int) == parts_view(bc@)),
{
    if bc.len() > fc.len() {
        return false;
    }
    let mut i: usize = 0;
    while i < bc.len()
        invariant
            bc@.len() <= fc@.len(),
            i <= bc@.len(),
            forall|k: int| 0 <= k < i ==> fc@[k].view() == bc@[k].view(),
        decreases bc.len() - i,
    {
        let same = match (&fc[i], &bc[i]) {
            (PathPart::Root, PathPart::Root) => true,
            (PathPart::Cur, PathPart::Cur) => true,
            (PathPart::Parent, PathPart::Parent) => true,
            (PathPart::Normal(x), PathPart::Normal(y)) => {
                let e = crate::text::seq_eq(x, 0, x.len(), y);
                assert(x@.subrange(0, x@.len() as int) == x@);
                e
            },
            _ => false,
        };
        if !same {
            assert(parts_view(fc@).take(bc@.len() as int)[i as int] != parts_view(bc@)[i as int]);
            return false;
        }
        i += 1;
    }
    assert(parts_view(fc@).take(bc@.len() as int) =~= parts_view(bc@));
    true
}

/// The archive entry name of `file` relative to the output directory `base`, with
/// forward slashes between its components.
pub fn archive_name(file: &str, base: &str) -> (r: Result<String, String>)
    ensures
        r matches Ok(name) ==> spec_archive_name(file@, base@) == Ok::<Seq<char>, Seq<char>>(name@),
        r matches Err(e) ==> spec_archive_name(file@, base@) == Err::<Seq<char>, Seq<char>>(e@),
{
    let fc = path_comps(file);
    let bc = path_comps(base);
    if !parts_prefix(&fc, &bc) {
        let mut e = String::new();
        push_str(&mut e, file);
        push_str(&mut e, " is outside the output directory");
        return Err(e);
    }
    let names = normal_names_exec(&fc, bc.len());
    assert(fc@.len() == parts_view(fc@).len());
    if names.len() == 0 {
        let mut e = String::new();
        push_str(&mut e, file);
        push_str(&mut e, " has no archive name");
        return Err(e);
    }
    let ghost nv = names@.map_values(|x: Vec<char>| x@);
    let mut out = String::new();
    let mut i = names.len();
    // Build the join from the back: `join(names[i..])`.
    let first_last = i - 1;
    push_chars(&mut out, &names[first_last], 0, names[first_last].len());
    assert(names@[first_last as int]@.subrange(0, names@[first_last as int]@.len() as int)
        == names@[first_last as int]@);
    assert(nv.skip(first_last as int) =~= seq![nv[first_last as int]]);
    i = first_last;
    while i > 0
        invariant
            0 <= i < names@.len(),
            nv == names@.map_values(|x: Vec<char>| x@),
            out@ == join_slash(nv.skip(i as int)),
        decreases i,
    {
        i -= 1;
        let mut next = String::new();
        push_chars(&mut next, &names[i], 0, names[i].len());
        next.push('/');
        push_str(&mut next, out.as_str());
        proof {
            assert(names@[i as int]@.subrange(0, names@[i as int]@.len() as int) == names@[i as int]@);
            assert(nv.skip(i as int).drop_first() == nv.skip(i + 1));
            assert(nv.skip(i as int)[0] == nv[i as int]);
        }
        out = next;
    }
    assert(nv.skip(0) == nv);
    Ok(out)
}

// ---------------------------------------------------------------------------
// Archive names are relative
// ---------------------------------------------------------------------------
/// `x` is a name a normal component can have: not empty, without a slash.
pub open spec fn plain_name(x: Seq<char>) -> bool {
    x.len() > 0 && forall|j: int| 0 <= j < x.len() ==> x[j] != '/'
}

/// No piece holds a slash.
proof fn lemma_pieces_have_no_slash(p: Seq<char>)
    ensures
        forall|k: int, j: int|
            0 <= k < pieces(p).len() && 0 <= j < pieces(p)[k].len() ==> #[trigger] pieces(p)[k][j]
                != '/',
    decreases p.len(),
{
    lemma_find_from(p, seq!['/'], 0);
    match find_char_from(p, '/', 0) {
        None => {
            assert forall|j: int| 0 <= j < p.len() implies p[j] != '/' by {
                assert(!crate::text::occurs_at(p, seq!['/'], j));
                assert(p.subrange(j, j + 1) == seq![p[j]]);
            }
        },
        Some(k) => {
            lemma_pieces_have_no_slash(p.skip(k + 1));
            assert forall|j: int| 0 <= j < k implies p[j] != '/' by {
                assert(!crate::text::occurs_at(p, seq!['/'], j));
                assert(p.subrange(j, j + 1) == seq![p[j]]);
            }
            let ps = pieces(p);
            assert forall|i: int, j: int|
                0 <= i < ps.len() && 0 <= j < ps[i].len() implies #[trigger] ps[i][j] != '/' by {
                if i > 0 {
                    assert(ps[i] == pieces(p.skip(k + 1))[i - 1]);
                }
            }
        },
    }
}

/// The normal components made from slash-free pieces have plain names.
proof fn lemma_inner_comps_plain(ps: Seq<Seq<char>>)
    requires
        forall|k: int, j: int| 0 <= k < ps.len() && 0 <= j < ps[k].len() ==> #[trigger] ps[k][j] != '/',
    ensures
        forall|i: int|
            0 <= i < inner_comps(ps).len() ==> (#[trigger] inner_comps(ps)[i] matches Comp::Normal(x)
                ==> plain_name(x)),
    decreases ps.len(),
{
    if ps.len() > 0 {
        let rest = ps.drop_first();
        assert forall|k: int, j: int|
            0 <= k < rest.len() && 0 <= j < rest[k].len() implies #[trigger] rest[k][j] != '/' by {
            assert(rest[k] == ps[k + 1]);
        }
        lemma_inner_comps_plain(rest);
        let head = if ps[0].len() == 0 || ps[0] == "."@ {
            seq![]
        } else {
            seq![piece_comp(ps[0])]
        };
        let cs = inner_comps(ps);
        assert(cs == head + inner_comps(rest));
        assert forall|i: int| 0 <= i < cs.len() implies (#[trigger] cs[i] matches Comp::Normal(x)
            ==> plain_name(x)) by {
            if i >= head.len() {
                assert(cs[i] == inner_comps(rest)[i - head.len()]);
            } else {
                assert(ps[0].len() > 0);
                assert forall|j: int| 0 <= j < ps[0].len() implies ps[0][j] != '/' by {
                    assert(ps[0][j] == ps[0][j]);
                }
            }
        }
    }
}

/// The names of components whose normal names are plain are plain.
proof fn lemma_normal_names_plain(cs: Seq<Comp>)
    requires
        forall|i: int| 0 <= i < cs.len() ==> (#[trigger] cs[i] matches Comp::Normal(x) ==> plain_name(x)),
    ensures
        forall|i: int| 0 <= i < normal_names(cs).len() ==> plain_name(#[trigger] normal_names(cs)[i]),
    decreases cs.len(),
{
    if cs.len() > 0 {
        let rest = cs.drop_first();
        assert forall|i: int| 0 <= i < rest.len() implies (#[trigger] rest[i] matches Comp::Normal(x)
            ==> plain_name(x)) by {
            assert(rest[i] == cs[i + 1]);
        }
        lemma_normal_names_plain(rest);
        let head = match cs[0] {
            Comp::Normal(x) => seq![x],
            _ => seq![],
        };
        assert(normal_names(cs) == head + normal_names(rest));
        assert forall|i: int| 0 <= i < normal_names(cs).len() implies plain_name(
            #[trigger] normal_names(cs)[i],
        ) by {
            if i >= head.len() {
                assert(normal_names(cs)[i] == normal_names(rest)[i - head.len()]);
            }
        }
    }
}

/// A join of plain names starts with the first name's first character.
proof fn lemma_join_starts(names: Seq<Seq<char>>)
    requires
        names.len() > 0,
        names[0].len() > 0,
    ensures
        join_slash(names).len() > 0,
        join_slash(names)[0] == names[0][0],
{
}

/// An archive name is relative: it is not empty and does not start with a slash, so it
/// never escapes the archive's root.
pub proof fn law_archive_names_are_relative(file: Seq<char>, base: Seq<char>)
    requires
        spec_archive_name(file, base) is Ok,
    ensures
        spec_archive_name(file, base)->Ok_0.len() > 0,
        spec_archive_name(file, base)->Ok_0[0] != '/',
{
    let fc = comps(file);
    let bc = comps(base);
    let ps = pieces(file);
    lemma_pieces_have_no_slash(file);
    lemma_inner_comps_plain(ps);
    let lead = if file.len() > 0 && file[0] == '/' {
        seq![Comp::Root]
    } else if ps[0] == "."@ {
        seq![Comp::Cur]
    } else {
        seq![]
    };
    assert(fc == lead + inner_comps(ps));
    assert forall|i: int| 0 <= i < fc.len() implies (#[trigger] fc[i] matches Comp::Normal(x)
        ==> plain_name(x)) by {
        if i >= lead.len() {
            assert(fc[i] == inner_comps(ps)[i - lead.len()]);
        }
    }
    let tail = fc.skip(bc.len() as int);
    assert forall|i: int| 0 <= i < tail.len() implies (#[trigger] tail[i] matches Comp::Normal(x)
        ==> plain_name(x)) by {
        assert(tail[i] == fc[i + bc.len()]);
    }
    lemma_normal_names_plain(tail);
    let names = normal_names(tail);
    assert(plain_name(names[0]));
    lemma_join_starts(names);
}

// ---------------------------------------------------------------------------
// The archive's entries
// ---------------------------------------------------------------------------
/// The rank of a component in std's path order: a root, then `.`, then `..`, then names.
pub open spec fn comp_rank(c: Comp) -> int {
    match c {
        Comp::Root => 1,
        Comp::Cur => 2,
        Comp::Parent => 3,
        Comp::Normal(_) => 4,
    }
}

/// `a` sorts before `b` as std orders path components; names character by character.
pub open spec fn comp_lt(a: Comp, b: Comp) -> bool {
    ||| comp_rank(a) < comp_rank(b)
    ||| (a matches Comp::Normal(x) && b matches Comp::Normal(y) && lex_lt(x, y))
}

/// `a` sorts before `b` as std orders paths: component by component.
pub open spec fn comps_lt(a: Seq<Comp>, b: Seq<Comp>) -> bool
    decreases a.len(),
{
    if b.len() == 0 {
        false
    } else if a.len() == 0 {
        true
    } else if comp_lt(a[0], b[0]) {
        true
    } else if a[0] == b[0] {
        comps_lt(a.drop_first(), b.drop_first())
    } else {
        false
    }
}

/// The component order is a strict total order.
proof fn lemma_comp_order(a: Comp, b: Comp, c: Comp)
    ensures
        !comp_lt(a, a),
        comp_lt(a, b) && comp_lt(b, c) ==> comp_lt(a, c),
        a != b ==> comp_lt(a, b) || comp_lt(b, a),
        !(comp_lt(a, b) && comp_lt(b, a)),
{
    if let Comp::Normal(x) = a {
        lemma_lex_irreflexive(x);
        if let Comp::Normal(y) = b {
            lemma_lex_total(x, y);
            if let Comp::Normal(z) = c {
                if lex_lt(x, y) && lex_lt(y, z) {
                    lemma_lex_transitive(x, y, z);
                }
            }
        }
    }
}

/// The path order is a strict total order.
proof fn lemma_comps_order(a: Seq<Comp>, b: Seq<Comp>, c: Seq<Comp>)
    ensures
        !comps_lt(a, a),
        comps_lt(a, b) && comps_lt(b, c) ==> comps_lt(a, c),
        a != b ==> comps_lt(a, b) || comps_lt(b, a),
        !(comps_lt(a, b) && comps_lt(b, a)),
    decreases a.len(),
{
    if a.len() > 0 {
        lemma_comp_order(a[0], a[0], a[0]);
        if b.len() > 0 {
            lemma_comp_order(a[0], b[0], a[0]);
            if c.len() > 0 {
                lemma_comp_order(a[0], b[0], c[0]);
                lemma_comp_order(b[0], c[0], a[0]);
            }
            if c.len() > 0 {
                lemma_comps_order(a.drop_first(), b.drop_first(), c.drop_first());
            } else {
                lemma_comps_order(a.drop_first(), b.drop_first(), Seq::empty());
            }
            if a != b && a[0] == b[0] {
                assert(a == seq![a[0]] + a.drop_first());
                assert(b == seq![b[0]] + b.drop_first());
            }
        } else {
            lemma_comps_order(a.drop_first(), a.drop_first(), a.drop_first());
        }
    } else if b.len() == 0 {
        assert(a == b);
    }
}

/// The key an archive entry is ordered by: its name, then its file's path.
pub open spec fn entry_lt(a: (Seq<char>, Seq<Comp>), b: (Seq<char>, Seq<Comp>)) -> bool {
    lex_lt(a.0, b.0) || (a.0 == b.0 && comps_lt(a.1, b.1))
}

/// The entry order is a strict total order.
proof fn lemma_entry_order(
    a: (Seq<char>, Seq<Comp>),
    b: (Seq<char>, Seq<Comp>),
    c: (Seq<char>, Seq<Comp>),
)
    ensures
        !entry_lt(a, a),
        entry_lt(a, b) && entry_lt(b, c) ==> entry_lt(a, c),
        a != b ==> entry_lt(a, b) || entry_lt(b, a),
        !(entry_lt(a, b) && entry_lt(b, a)),
{
    lemma_lex_irreflexive(a.0);
    lemma_lex_total(a.0, b.0);
    lemma_lex_total(b.0, c.0);
    lemma_lex_total(a.0, c.0);
    if lex_lt(a.0, b.0) && lex_lt(b.0, c.0) {
        lemma_lex_transitive(a.0, b.0, c.0);
    }
    lemma_comps_order(a.1, b.1, c.1);
}

/// The error of the first file, in order, that has no archive name.
pub open spec fn first_name_error(files: Seq<Seq<char>>, base: Seq<char>) -> Option<Seq<char>>
    decreases files.len(),
{
    if files.len() == 0 {
        None
    } else {
        match spec_archive_name(files[0], base) {
            Err(e) => Some(e),
            Ok(_) => first_name_error(files.drop_first(), base),
        }
    }
}

/// The key of file `i`.
pub open spec fn file_key(files: Seq<Seq<char>>, base: Seq<char>, i: int) -> (Seq<char>, Seq<Comp>) {
    (spec_archive_name(files[i], base)->Ok_0, comps(files[i]))
}

/// The key of an entry `(name, file index)`.
pub open spec fn entry_key(
    files: Seq<Seq<char>>,
    base: Seq<char>,
    e: (Seq<char>, usize),
) -> (Seq<char>, Seq<Comp>) {
    (e.0, comps(files[e.1 as int]))
}

/// Some entry has the key of file `i`.
pub open spec fn listed(r: Seq<(Seq<char>, usize)>, files: Seq<Seq<char>>, base: Seq<char>, i: int) -> bool {
    exists|p: int| 0 <= p < r.len() && entry_key(files, base, #[trigger] r[p]) == file_key(files, base, i)
}

/// `r` lists the first `n` files of `files` as the archive holds them: each entry is a
/// file's name and index, the entries strictly ascend by name and then by path (so equal
/// files appear once), every file's key is listed, and each entry names the first file
/// with its key.
pub open spec fn is_entry_plan(
    r: Seq<(Seq<char>, usize)>,
    files: Seq<Seq<char>>,
    base: Seq<char>,
    n: int,
) -> bool {
    &&& forall|p: int|
        0 <= p < r.len() ==> (#[trigger] r[p]).1 < n && r[p].0 == spec_archive_name(
            files[r[p].1 as int],
            base,
        )->Ok_0
    &&& forall|p: int, q: int|
        0 <= p < q < r.len() ==> entry_lt(
            entry_key(files, base, #[trigger] r[p]),
            entry_key(files, base, #[trigger] r[q]),
        )
    &&& forall|i: int| 0 <= i < n ==> #[trigger] listed(r, files, base, i)
    &&& forall|p: int, j: int|
        0 <= p < r.len() && 0 <= j < (#[trigger] r[p]).1 ==> #[trigger] file_key(files, base, j)
            != entry_key(files, base, r[p])
}

/// The views of planned entries.
pub open spec fn plan_view(r: Seq<(String, usize)>) -> Seq<(Seq<char>, usize)> {
    r.map_values(|e: (String, usize)| (e.0@, e.1))
}

/// Compares two paths' components in std's order.
fn parts_order(a: &Vec<PathPart>, b: &Vec<PathPart>) -> (r: crate::order::Order)
    ensures
        r == crate::order::Order::Less <==> comps_lt(parts_view(a@), parts_view(b@)),
        r == crate::order::Order::Equal <==> parts_view(a@) == parts_view(b@),
{
    let ghost av = parts_view(a@);
    let ghost bv = parts_view(b@);
    let mut i: usize = 0;
    assert(av.skip(0) == av && bv.skip(0) == bv);
    while i < a.len() && i < b.len()
        invariant
            i <= a@.len(),
            i <= b@.len(),
            av == parts_view(a@),
            bv == parts_view(b@),
            av.take(i as int) == bv.take(i as int),
            comps_lt(av, bv) == comps_lt(av.skip(i as int), bv.skip(i as int)),
        decreases a.len() - i,
    {
        let ghost x = av[i as int];
        let ghost y = bv[i as int];
        proof {
            lemma_comp_order(x, y, x);
            assert(av.skip(i as int)[0] == x);
            assert(bv.skip(i as int)[0] == y);
            assert(av.skip(i as int).drop_first() == av.skip(i + 1));
            assert(bv.skip(i as int).drop_first() == bv.skip(i + 1));
        }
        let ra = part_rank(&a[i]);
        let rb = part_rank(&b[i]);
        if ra < rb {
            return crate::order::Order::Less;
        }
        if ra > rb {
            proof {
                lemma_comps_order(av, bv, av);
            }
            return crate::order::Order::Greater;
        }
        match (&a[i], &b[i]) {
            (PathPart::Normal(x), PathPart::Normal(y)) => {
                match crate::order::lex_order(x, y) {
                    crate::order::Order::Less => {
                        return crate::order::Order::Less;
                    },
                    crate::order::Order::Greater => {
                        proof {
                            lemma_lex_total(x@, y@);
                            lemma_comps_order(av, bv, av);
                        }
                        return crate::order::Order::Greater;
                    },
                    crate::order::Order::Equal => {},
                }
            },
            _ => {},
        }
        assert(av.take(i + 1) == av.take(i as int).push(x));
        assert(bv.take(i + 1) == bv.take(i as int).push(y));
        i += 1;
    }
    if a.len() == b.len() {
        assert(av == av.take(i as int));
        assert(bv == bv.take(i as int));
        proof {
            lemma_comps_order(av, bv, av);
        }
        crate::order::Order::Equal
    } else if a.len() < b.len() {
        assert(av == av.take(i as int));
        assert(av != bv);
        crate::order::Order::Less
    } else {
        assert(bv == bv.take(i as int));
        assert(av != bv);
        proof {
            lemma_comps_order(av, bv, av);
        }
        crate::order::Order::Greater
    }
}

/// The rank of a part.
fn part_rank(p: &PathPart) -> (r: u8)
    ensures
        r == comp_rank(p.view()),
{
    match p {
        PathPart::Root => 1,
        PathPart::Cur => 2,
        PathPart::Parent => 3,
        PathPart::Normal(_) => 4,
    }
}

/// Compares two entry keys: by name, then by path.
fn entry_order(n1: &str, p1: &Vec<PathPart>, n2: &str, p2: &Vec<PathPart>) -> (r: crate::order::Order)
    ensures
        r == crate::order::Order::Less <==> entry_lt((n1@, parts_view(p1@)), (n2@, parts_view(p2@))),
        r == crate::order::Order::Equal <==> (n1@, parts_view(p1@)) == (n2@, parts_view(p2@)),
{
    let a = chars_of(n1);
    let b = chars_of(n2);
    proof {
        lemma_lex_total(a@, b@);
        lemma_lex_irreflexive(a@);
        lemma_comps_order(parts_view(p1@), parts_view(p2@), parts_view(p1@));
    }
    match crate::order::lex_order(&a, &b) {
        crate::order::Order::Less => crate::order::Order::Less,
        crate::order::Order::Greater => crate::order::Order::Greater,
        crate::order::Order::Equal => {
            assert(a@ == b@) by {
                lemma_lex_total(a@, b@);
            }
            parts_order(p1, p2)
        },
    }
}

/// Inserting file `i` at the first entry that does not sort before it keeps the plan.
proof fn lemma_insert_plan(
    r: Seq<(Seq<char>, usize)>,
    files: Seq<Seq<char>>,
    base: Seq<char>,
    i: int,
    pos: int,
)
    requires
        0 <= i < files.len(),
        i < usize::MAX,
        spec_archive_name(files[i], base) is Ok,
        is_entry_plan(r, files, base, i),
        0 <= pos <= r.len(),
        forall|p: int| 0 <= p < pos ==> entry_lt(entry_key(files, base, #[trigger] r[p]), file_key(files, base, i)),
        pos < r.len() ==> entry_lt(file_key(files, base, i), entry_key(files, base, r[pos])),
    ensures
        is_entry_plan(
            r.insert(pos, (spec_archive_name(files[i], base)->Ok_0, i as usize)),
            files,
            base,
            i + 1,
        ),
{
    let x = (spec_archive_name(files[i], base)->Ok_0, i as usize);
    let r2 = r.insert(pos, x);
    let ki = file_key(files, base, i);
    assert(entry_key(files, base, x) == ki);
    assert forall|p: int| 0 <= p < r2.len() implies (#[trigger] r2[p]).1 < i + 1 && r2[p].0
        == spec_archive_name(files[r2[p].1 as int], base)->Ok_0 by {
        if p < pos {
            assert(r2[p] == r[p]);
        } else if p > pos {
            assert(r2[p] == r[p - 1]);
        }
    }
    assert forall|p: int, q: int| 0 <= p < q < r2.len() implies entry_lt(
        entry_key(files, base, #[trigger] r2[p]),
        entry_key(files, base, #[trigger] r2[q]),
    ) by {
        if q < pos {
            assert(r2[p] == r[p] && r2[q] == r[q]);
        } else if q == pos {
            assert(r2[p] == r[p]);
        } else if p > pos {
            assert(r2[p] == r[p - 1] && r2[q] == r[q - 1]);
        } else if p == pos {
            assert(r2[q] == r[q - 1]);
            if q - 1 > pos {
                lemma_entry_order(ki, entry_key(files, base, r[pos]), entry_key(files, base, r[q - 1]));
            }
        } else {
            assert(r2[p] == r[p] && r2[q] == r[q - 1]);
            if q - 1 > pos {
                lemma_entry_order(entry_key(files, base, r[p]), ki, entry_key(files, base, r[pos]));
                lemma_entry_order(entry_key(files, base, r[p]), entry_key(files, base, r[pos]), entry_key(files, base, r[q - 1]));
            } else {
                lemma_entry_order(entry_key(files, base, r[p]), ki, entry_key(files, base, r[pos]));
            }
        }
    }
    assert forall|j: int| 0 <= j < i + 1 implies #[trigger] listed(r2, files, base, j) by {
        if j == i {
            assert(r2[pos] == x);
        } else {
            assert(listed(r, files, base, j));
            let p = choose|p: int| 0 <= p < r.len() && entry_key(files, base, #[trigger] r[p]) == file_key(files, base, j);
            if p < pos {
                assert(r2[p] == r[p]);
            } else {
                assert(r2[p + 1] == r[p]);
            }
        }
    }
    assert forall|p: int, j: int|
        0 <= p < r2.len() && 0 <= j < (#[trigger] r2[p]).1 implies #[trigger] file_key(files, base, j)
        != entry_key(files, base, r2[p]) by {
        if p < pos {
            assert(r2[p] == r[p]);
        } else if p > pos {
            assert(r2[p] == r[p - 1]);
        } else {
            if file_key(files, base, j) == ki {
                assert(listed(r, files, base, j));
                let q = choose|q: int| 0 <= q < r.len() && entry_key(files, base, #[trigger] r[q]) == file_key(files, base, j);
                lemma_entry_order(ki, ki, ki);
                if q > pos {
                    lemma_entry_order(ki, entry_key(files, base, r[pos]), entry_key(files, base, r[q]));
                }
            }
        }
    }
}

/// The entries of the site archive: for the files in order, the first that has no archive
/// name gives the error; otherwise each distinct (name, path) once, ascending by name and
/// then by path, with the index of the first file that has it.
pub fn archive_entries(files: &Vec<String>, base: &str) -> (r: Result<Vec<(String, usize)>, String>)
    ensures
        match first_name_error(crate::text::str_views(files@), base@) {
            Some(e) => r matches Err(m) && m@ == e,
            None => r matches Ok(v) && is_entry_plan(
                plan_view(v@),
                crate::text::str_views(files@),
                base@,
                files@.len() as int,
            ),
        },
{
    let ghost fv = crate::text::str_views(files@);
    let mut names: Vec<String> = Vec::new();
    let mut parts: Vec<Vec<PathPart>> = Vec::new();
    let mut k: usize = 0;
    assert(fv.skip(0) == fv);
    while k < files.len()
        invariant
            k <= files@.len(),
            fv == crate::text::str_views(files@),
            names@.len() == k,
            parts@.len() == k,
            forall|j: int|
                0 <= j < k ==> spec_archive_name(fv[j], base@) == Ok::<Seq<char>, Seq<char>>(
                    (#[trigger] names@[j])@,
                ),
            forall|j: int| 0 <= j < k ==> parts_view((#[trigger] parts@[j])@) == comps(fv[j]),
            first_name_error(fv, base@) == first_name_error(fv.skip(k as int), base@),
        decreases files.len() - k,
    {
        assert(fv.skip(k as int)[0] == fv[k as int]);
        assert(fv.skip(k as int).drop_first() == fv.skip(k + 1));
        assert(fv[k as int] == files@[k as int]@);
        let n = match archive_name(files[k].as_str(), base) {
            Err(e) => {
                return Err(e);
            },
            Ok(n) => n,
        };
        assert(spec_archive_name(fv[k as int], base@) == Ok::<Seq<char>, Seq<char>>(n@));
        let ghost old_names = names@;
        names.push(n);
        assert(forall|j: int| 0 <= j < k ==> names@[j] == old_names[j]);
        parts.push(path_comps(files[k].as_str()));
        k += 1;
    }
    assert(fv.skip(files@.len() as int).len() == 0);
    let mut r: Vec<(String, usize)> = Vec::new();
    let mut i: usize = 0;
    while i < files.len()
        invariant
            i <= files@.len(),
            fv == crate::text::str_views(files@),
            names@.len() == files@.len(),
            parts@.len() == files@.len(),
            forall|j: int|
                0 <= j < files@.len() ==> spec_archive_name(fv[j], base@) == Ok::<
                    Seq<char>,
                    Seq<char>,
                >((#[trigger] names@[j])@),
            forall|j: int| 0 <= j < files@.len() ==> parts_view((#[trigger] parts@[j])@) == comps(fv[j]),
            forall|p: int| 0 <= p < r@.len() ==> (#[trigger] r@[p]).1 < i,
            is_entry_plan(plan_view(r@), fv, base@, i as int),
        decreases files.len() - i,
    {
        let ghost rv = plan_view(r@);
        let ghost ki = file_key(fv, base@, i as int);
        assert(ki == (names@[i as int]@, parts_view(parts@[i as int]@)));
        let mut pos: usize = 0;
        let mut same = false;
        while pos < r.len()
            invariant_except_break
                !same,
            invariant
                pos <= r@.len(),
                rv == plan_view(r@),
                i < files@.len(),
                ki == (names@[i as int]@, parts_view(parts@[i as int]@)),
                names@.len() == files@.len(),
                parts@.len() == files@.len(),
                forall|j: int| 0 <= j < files@.len() ==> parts_view((#[trigger] parts@[j])@) == comps(fv[j]),
                forall|p: int| 0 <= p < r@.len() ==> (#[trigger] r@[p]).1 < i,
                forall|p: int| 0 <= p < pos ==> entry_lt(entry_key(fv, base@, #[trigger] rv[p]), ki),
            ensures
                pos <= r@.len(),
                forall|p: int| 0 <= p < pos ==> entry_lt(entry_key(fv, base@, #[trigger] rv[p]), ki),
                same ==> pos < r@.len() && entry_key(fv, base@, rv[pos as int]) == ki,
                !same && pos < r@.len() ==> entry_lt(ki, entry_key(fv, base@, rv[pos as int])),
            decreases r.len() - pos,
        {
            let fi = r[pos].1;
            assert(rv[pos as int] == (r@[pos as int].0@, fi));
            assert(entry_key(fv, base@, rv[pos as int]) == (r@[pos as int].0@, parts_view(parts@[fi as int]@)));
            match entry_order(r[pos].0.as_str(), &parts[fi], names[i].as_str(), &parts[i]) {
                crate::order::Order::Less => {},
                crate::order::Order::Equal => {
                    same = true;
                    break;
                },
                crate::order::Order::Greater => {
                    proof {
                        lemma_entry_order(entry_key(fv, base@, rv[pos as int]), ki, ki);
                    }
                    break;
                },
            }
            pos += 1;
        }
        if same {
            proof {
                assert(listed(rv, fv, base@, i as int));
                assert forall|j: int| 0 <= j < i + 1 implies #[trigger] listed(rv, fv, base@, j) by {
                    if j < i {
                        assert(listed(rv, fv, base@, j));
                    }
                }
            }
        } else {
            proof {
                lemma_insert_plan(rv, fv, base@, i as int, pos as int);
            }
            let ghost x = (names@[i as int]@, i);
            r.insert(pos, (names[i].clone(), i));
            assert(plan_view(r@) =~= rv.insert(pos as int, (spec_archive_name(fv[i as int], base@)->Ok_0, i)));
        }
        i += 1;
    }
    Ok(r)
}

} // verus!
