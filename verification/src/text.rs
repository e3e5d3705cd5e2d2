//! Character-level helpers shared by the rest of the library.
//!
//! Strings are modelled by their `Seq<char>` views; every search, trim and
//! split below is stated over those views.
use vstd::prelude::*;

verus! {

/// `String::push` appends one character to the string's view.
pub assume_specification[ String::push ](s: &mut String, ch: char)
    ensures
        final(s)@ == old(s)@.push(ch),
;

// ---------------------------------------------------------------------------
// Character classes
// ---------------------------------------------------------------------------
/// The Unicode `White_Space` property, which `char::is_whitespace` tests.
pub open spec fn is_ws(c: char) -> bool {
    let u = c as u32;
    ||| 0x09 <= u <= 0x0D
    ||| u == 0x20
    ||| u == 0x85
    ||| u == 0xA0
    ||| u == 0x1680
    ||| 0x2000 <= u <= 0x200A
    ||| u == 0x2028
    ||| u == 0x2029
    ||| u == 0x202F
    ||| u == 0x205F
    ||| u == 0x3000
}

/// Whether `c` is a Unicode white-space character.
pub fn is_whitespace(c: char) -> (b: bool)
    ensures
        b == is_ws(c),
{
    let u = c as u32;
    (0x09 <= u && u <= 0x0D) || u == 0x20 || u == 0x85 || u == 0xA0 || u == 0x1680 || (0x2000 <= u
        && u <= 0x200A) || u == 0x2028 || u == 0x2029 || u == 0x202F || u == 0x205F || u == 0x3000
}

/// An ASCII decimal digit.
pub open spec fn is_digit(c: char) -> bool {
    '0' <= c <= '9'
}

/// Whether `c` is an ASCII decimal digit.
pub fn is_ascii_digit(c: char) -> (b: bool)
    ensures
        b == is_digit(c),
{
    '0' <= c && c <= '9'
}

// ---------------------------------------------------------------------------
// Conversions between `&str`, `String` and `Vec<char>`
// ---------------------------------------------------------------------------
/// The characters of `s`, in order.
pub fn chars_of(s: &str) -> (v: Vec<char>)
    ensures
        v@ == s@,
{
    let mut v: Vec<char> = Vec::new();
    for c in it: s.chars()
        invariant
            v@ == it.seq().take(it.index() as int),
    {
        v.push(c);
    }
    v
}

/// Appends the characters `v[from..to]` to `out`.
pub fn push_chars(out: &mut String, v: &Vec<char>, from: usize, to: usize)
    requires
        from <= to <= v@.len(),
    ensures
        final(out)@ == old(out)@ + v@.subrange(from as int, to as int),
{
    let mut i = from;
    while i < to
        invariant
            from <= i <= to <= v@.len(),
            out@ == old(out)@ + v@.subrange(from as int, i as int),
        decreases to - i,
    {
        out.push(v[i]);
        assert(v@.subrange(from as int, i + 1) == v@.subrange(from as int, i as int).push(v@[i as int]));
        i += 1;
    }
}

/// A new string holding `v[from..to]`.
pub fn string_of(v: &Vec<char>, from: usize, to: usize) -> (s: String)
    requires
        from <= to <= v@.len(),
    ensures
        s@ == v@.subrange(from as int, to as int),
{
    let mut s = String::new();
    push_chars(&mut s, v, from, to);
    s
}

/// A new string holding all of `v`.
pub fn string_of_all(v: &Vec<char>) -> (s: String)
    ensures
        s@ == v@,
{
    let s = string_of(v, 0, v.len());
    assert(v@.subrange(0, v@.len() as int) == v@);
    s
}

/// The texts of a list of strings.
pub open spec fn str_views(s: Seq<String>) -> Seq<Seq<char>> {
    s.map_values(|x: String| x@)
}

/// Appends a string slice.
pub fn push_str(out: &mut String, s: &str)
    ensures
        final(out)@ == old(out)@ + s@,
{
    out.append(s);
}

/// Whether two strings hold the same characters.
pub fn str_eq(a: &str, b: &str) -> (r: bool)
    ensures
        r == (a@ == b@),
{
    let x = chars_of(a);
    let y = chars_of(b);
    assert(x@.subrange(0, x@.len() as int) == x@);
    seq_eq(&x, 0, x.len(), &y)
}

/// Whether `a[from..to]` equals `b`.
pub fn seq_eq(a: &Vec<char>, from: usize, to: usize, b: &Vec<char>) -> (r: bool)
    requires
        from <= to <= a@.len(),
    ensures
        r == (a@.subrange(from as int, to as int) == b@),
{
    if to - from != b.len() {
        return false;
    }
    let mut i: usize = 0;
    while i < b.len()
        invariant
            from <= to <= a@.len(),
            to - from == b@.len(),
            i <= b@.len(),
            forall|k: int| 0 <= k < i ==> a@[from + k] == b@[k],
        decreases b.len() - i,
    {
        if a[from + i] != b[i] {
            assert(a@.subrange(from as int, to as int)[i as int] != b@[i as int]);
            return false;
        }
        i += 1;
    }
    assert(a@.subrange(from as int, to as int) =~= b@);
    true
}

// ---------------------------------------------------------------------------
// Searching
// ---------------------------------------------------------------------------
/// `p` occurs in `s` starting at index `i`.
pub open spec fn occurs_at(s: Seq<char>, p: Seq<char>, i: int) -> bool {
    0 <= i && i + p.len() <= s.len() && s.subrange(i, i + p.len()) == p
}

/// The first index at or after `from` where `p` occurs in `s` (what `str::find` returns
/// on `s[from..]`, shifted by `from`).
pub open spec fn find_from(s: Seq<char>, p: Seq<char>, from: int) -> Option<int>
    decreases s.len() + 1 - from,
{
    if from < 0 || from + p.len() > s.len() {
        None
    } else if occurs_at(s, p, from) {
        Some(from)
    } else {
        find_from(s, p, from + 1)
    }
}

/// The first index where `p` occurs in `s`.
pub open spec fn find(s: Seq<char>, p: Seq<char>) -> Option<int> {
    find_from(s, p, 0)
}

/// `s` contains `p`.
pub open spec fn contains(s: Seq<char>, p: Seq<char>) -> bool {
    find(s, p) is Some
}

/// What `find_from` returns is an occurrence, and no earlier one exists.
pub proof fn lemma_find_from(s: Seq<char>, p: Seq<char>, from: int)
    requires
        0 <= from,
    ensures
        find_from(s, p, from) matches Some(i) ==> from <= i && occurs_at(s, p, i) && forall|j: int|
            from <= j < i ==> !occurs_at(s, p, j),
        find_from(s, p, from) is None ==> forall|j: int| from <= j ==> !occurs_at(s, p, j),
    decreases s.len() + 1 - from,
{
    if from + p.len() > s.len() {
    } else if occurs_at(s, p, from) {
    } else {
        lemma_find_from(s, p, from + 1);
    }
}

/// Whether `p` occurs in `s` at `i`.
pub fn occurs_at_exec(s: &Vec<char>, p: &Vec<char>, i: usize) -> (r: bool)
    ensures
        r == occurs_at(s@, p@, i as int),
{
    if i > s.len() || p.len() > s.len() - i {
        return false;
    }
    seq_eq(s, i, i + p.len(), p)
}

/// The first index at or after `from` where `p` occurs in `s`.
pub fn find_from_exec(s: &Vec<char>, p: &Vec<char>, from: usize) -> (r: Option<usize>)
    ensures
        r matches Some(i) ==> find_from(s@, p@, from as int) == Some(i as int),
        r is None ==> find_from(s@, p@, from as int) is None,
{
    if p.len() == 0 {
        if from <= s.len() {
            assert(s@.subrange(from as int, from as int) =~= p@);
            return Some(from);
        } else {
            return None;
        }
    }
    if p.len() > s.len() {
        return None;
    }
    let mut i = from;
    while i <= s.len() - p.len()
        invariant
            from <= i,
            1 <= p@.len() <= s@.len(),
            find_from(s@, p@, from as int) == find_from(s@, p@, i as int),
        decreases s.len() + 1 - i,
    {
        if occurs_at_exec(s, p, i) {
            return Some(i);
        }
        i += 1;
    }
    None
}

/// The first index of `p` in `s`.
pub fn find_exec(s: &Vec<char>, p: &Vec<char>) -> (r: Option<usize>)
    ensures
        r matches Some(i) ==> find(s@, p@) == Some(i as int),
        r is None ==> find(s@, p@) is None,
{
    find_from_exec(s, p, 0)
}

/// Whether `s` contains the literal `p`.
pub fn contains_str(s: &Vec<char>, p: &str) -> (r: bool)
    ensures
        r == contains(s@, p@),
{
    let pv = chars_of(p);
    find_exec(s, &pv).is_some()
}

/// The first index at or after `from` holding `c`.
pub open spec fn find_char_from(s: Seq<char>, c: char, from: int) -> Option<int> {
    find_from(s, seq![c], from)
}

/// The first index at or after `from` where `c` stands.
pub fn find_char_from_exec(s: &Vec<char>, c: char, from: usize) -> (r: Option<usize>)
    ensures
        r matches Some(i) ==> find_char_from(s@, c, from as int) == Some(i as int),
        r is None ==> find_char_from(s@, c, from as int) is None,
{
    let mut i = from;
    while i < s.len()
        invariant
            from <= i,
            find_char_from(s@, c, from as int) == find_char_from(s@, c, i as int),
        decreases s.len() - i,
    {
        if s[i] == c {
            assert(s@.subrange(i as int, i + 1) =~= seq![c]);
            return Some(i);
        }
        assert(!occurs_at(s@, seq![c], i as int)) by {
            if occurs_at(s@, seq![c], i as int) {
                assert(s@.subrange(i as int, i + 1)[0] == s@[i as int]);
            }
        }
        i += 1;
    }
    None
}

// ---------------------------------------------------------------------------
// Trimming
// ---------------------------------------------------------------------------
/// `s` with every trailing `c` removed (`str::trim_end_matches(c)`).
pub open spec fn trim_end_char(s: Seq<char>, c: char) -> Seq<char>
    decreases s.len(),
{
    if s.len() > 0 && s.last() == c {
        trim_end_char(s.drop_last(), c)
    } else {
        s
    }
}

/// `s` with every leading `c` removed (`str::trim_start_matches(c)`).
pub open spec fn trim_start_char(s: Seq<char>, c: char) -> Seq<char>
    decreases s.len(),
{
    if s.len() > 0 && s[0] == c {
        trim_start_char(s.drop_first(), c)
    } else {
        s
    }
}

/// `s` with trailing white space removed (`str::trim_end`).
pub open spec fn trim_end_ws(s: Seq<char>) -> Seq<char>
    decreases s.len(),
{
    if s.len() > 0 && is_ws(s.last()) {
        trim_end_ws(s.drop_last())
    } else {
        s
    }
}

/// `s` with leading white space removed (`str::trim_start`).
pub open spec fn trim_start_ws(s: Seq<char>) -> Seq<char>
    decreases s.len(),
{
    if s.len() > 0 && is_ws(s[0]) {
        trim_start_ws(s.drop_first())
    } else {
        s
    }
}

/// `s` with white space removed at both ends (`str::trim`).
pub open spec fn trim_ws(s: Seq<char>) -> Seq<char> {
    trim_start_ws(trim_end_ws(s))
}

/// The length of `s[..to]` once trailing `c` are removed.
pub fn trim_end_char_len(s: &Vec<char>, to: usize, c: char) -> (n: usize)
    requires
        to <= s@.len(),
    ensures
        n <= to,
        s@.subrange(0, n as int) == trim_end_char(s@.subrange(0, to as int), c),
{
    let mut n = to;
    while n > 0 && s[n - 1] == c
        invariant
            n <= to <= s@.len(),
            trim_end_char(s@.subrange(0, n as int), c) == trim_end_char(s@.subrange(0, to as int), c),
        decreases n,
    {
        assert(s@.subrange(0, n as int).drop_last() == s@.subrange(0, n - 1));
        n -= 1;
    }
    n
}

/// `s` with trailing `c` removed.
pub fn trim_end_matches_char(s: &str, c: char) -> (r: String)
    ensures
        r@ == trim_end_char(s@, c),
{
    let v = chars_of(s);
    let n = trim_end_char_len(&v, v.len(), c);
    assert(v@.subrange(0, v@.len() as int) == v@);
    string_of(&v, 0, n)
}

/// The bounds `[a, b)` of `s[from..to]` with white space trimmed at both ends.
pub fn trim_ws_bounds(s: &Vec<char>, from: usize, to: usize) -> (r: (usize, usize))
    requires
        from <= to <= s@.len(),
    ensures
        from <= r.0 <= r.1 <= to,
        s@.subrange(r.0 as int, r.1 as int) == trim_ws(s@.subrange(from as int, to as int)),
{
    let mut b = to;
    while b > from && is_whitespace(s[b - 1])
        invariant
            from <= b <= to <= s@.len(),
            trim_end_ws(s@.subrange(from as int, b as int)) == trim_end_ws(
                s@.subrange(from as int, to as int),
            ),
        decreases b,
    {
        assert(s@.subrange(from as int, b as int).drop_last() == s@.subrange(from as int, b - 1));
        b -= 1;
    }
    assert(trim_end_ws(s@.subrange(from as int, b as int)) == s@.subrange(from as int, b as int));
    let mut a = from;
    while a < b && is_whitespace(s[a])
        invariant
            from <= a <= b <= to <= s@.len(),
            trim_start_ws(s@.subrange(a as int, b as int)) == trim_ws(
                s@.subrange(from as int, to as int),
            ),
        decreases b - a,
    {
        assert(s@.subrange(a as int, b as int).drop_first() == s@.subrange(a + 1, b as int));
        a += 1;
    }
    (a, b)
}

// ---------------------------------------------------------------------------
// Words (`str::split_whitespace`)
// ---------------------------------------------------------------------------
/// The number of leading characters of `s` that are not white space.
pub open spec fn word_len(s: Seq<char>) -> nat
    decreases s.len(),
{
    if s.len() == 0 || is_ws(s[0]) {
        0
    } else {
        1 + word_len(s.drop_first())
    }
}

/// The white-space separated words of `s`, in order.
pub open spec fn words(s: Seq<char>) -> Seq<Seq<char>>
    decreases s.len(),
{
    if s.len() == 0 {
        seq![]
    } else if is_ws(s[0]) {
        words(s.drop_first())
    } else {
        let k = word_len(s);
        proof {
            lemma_word_len(s);
        }
        seq![s.take(k as int)] + words(s.skip(k as int))
    }
}

/// `word_len` is bounded by the length and ends at white space or at the end.
pub proof fn lemma_word_len(s: Seq<char>)
    ensures
        word_len(s) <= s.len(),
        s.len() > 0 && !is_ws(s[0]) ==> word_len(s) > 0,
        word_len(s) < s.len() ==> is_ws(s[word_len(s) as int]),
        forall|i: int| 0 <= i < word_len(s) ==> !is_ws(#[trigger] s[i]),
    decreases s.len(),
{
    if s.len() > 0 && !is_ws(s[0]) {
        lemma_word_len(s.drop_first());
        assert forall|i: int| 0 <= i < word_len(s) implies !is_ws(#[trigger] s[i]) by {
            if i > 0 {
                assert(s[i] == s.drop_first()[i - 1]);
            }
        }
    }
}

/// The words of `s` joined by single spaces.
pub open spec fn join_words(w: Seq<Seq<char>>) -> Seq<char>
    decreases w.len(),
{
    if w.len() == 0 {
        seq![]
    } else if w.len() == 1 {
        w[0]
    } else {
        join_words(w.drop_last()) + seq![' '] + w.last()
    }
}

/// `words` of a sequence that starts with a word of length `k` followed by white space or
/// the end.
proof fn lemma_words_split(s: Seq<char>, k: int)
    requires
        0 < k <= s.len(),
        forall|i: int| 0 <= i < k ==> !is_ws(#[trigger] s[i]),
        k == s.len() || is_ws(s[k]),
    ensures
        words(s) == seq![s.take(k)] + words(s.skip(k)),
{
    lemma_word_len_exact(s, k);
}

/// `word_len` is exactly the run of non white space.
proof fn lemma_word_len_exact(s: Seq<char>, k: int)
    requires
        0 <= k <= s.len(),
        forall|i: int| 0 <= i < k ==> !is_ws(#[trigger] s[i]),
        k == s.len() || is_ws(s[k]),
    ensures
        word_len(s) == k,
    decreases k,
{
    if k > 0 {
        assert forall|i: int| 0 <= i < k - 1 implies !is_ws(#[trigger] s.drop_first()[i]) by {
            assert(s.drop_first()[i] == s[i + 1]);
        }
        if k < s.len() {
            assert(s.drop_first()[k - 1] == s[k]);
        }
        lemma_word_len_exact(s.drop_first(), k - 1);
    }
}

/// The words of `s[from..to]`, returned as index ranges into `s`.
pub fn word_bounds(s: &Vec<char>, from: usize, to: usize) -> (r: Vec<(usize, usize)>)
    requires
        from <= to <= s@.len(),
    ensures
        r@.len() == words(s@.subrange(from as int, to as int)).len(),
        forall|j: int|
            0 <= j < r@.len() ==> {
                &&& from <= (#[trigger] r@[j]).0 <= r@[j].1 <= to
                &&& s@.subrange(r@[j].0 as int, r@[j].1 as int) == words(
                    s@.subrange(from as int, to as int),
                )[j]
            },
{
    let ghost whole = s@.subrange(from as int, to as int);
    let mut r: Vec<(usize, usize)> = Vec::new();
    let mut i = from;
    while i < to
        invariant
            from <= i <= to <= s@.len(),
            whole == s@.subrange(from as int, to as int),
            words(whole) == r@.map_values(|p: (usize, usize)| s@.subrange(p.0 as int, p.1 as int))
                + words(s@.subrange(i as int, to as int)),
            forall|j: int|
                0 <= j < r@.len() ==> from <= (#[trigger] r@[j]).0 <= r@[j].1 <= i,
        decreases to - i,
    {
        let ghost rest = s@.subrange(i as int, to as int);
        if is_whitespace(s[i]) {
            assert(rest.drop_first() == s@.subrange(i + 1, to as int));
            i += 1;
        } else {
            let start = i;
            while i < to && !is_whitespace(s[i])
                invariant
                    start <= i <= to <= s@.len(),
                    forall|k: int| start <= k < i ==> !is_ws(#[trigger] s@[k]),
                decreases to - i,
            {
                i += 1;
            }
            proof {
                let k = i - start;
                assert forall|m: int| 0 <= m < k implies !is_ws(#[trigger] rest[m]) by {
                    assert(rest[m] == s@[start + m]);
                }
                if k < rest.len() {
                    assert(rest[k] == s@[i as int]);
                }
                lemma_words_split(rest, k);
                assert(rest.take(k) == s@.subrange(start as int, i as int));
                assert(rest.skip(k) == s@.subrange(i as int, to as int));
            }
            let ghost old_r = r@;
            r.push((start, i));
            proof {
                let f = |p: (usize, usize)| s@.subrange(p.0 as int, p.1 as int);
                assert(r@.map_values(f) == old_r.map_values(f).push(
                    s@.subrange(start as int, i as int),
                ));
            }
        }
    }
    proof {
        let f = |p: (usize, usize)| s@.subrange(p.0 as int, p.1 as int);
        assert(s@.subrange(i as int, to as int).len() == 0);
        assert(words(whole) == r@.map_values(f));
        assert forall|j: int| 0 <= j < r@.len() implies s@.subrange(
            (#[trigger] r@[j]).0 as int,
            r@[j].1 as int,
        ) == words(whole)[j] by {
            assert(r@.map_values(f)[j] == f(r@[j]));
        }
    }
    r
}

// ---------------------------------------------------------------------------
// Decimal numbers
// ---------------------------------------------------------------------------
/// The ASCII digit for `d < 10`.
pub open spec fn digit_char(d: nat) -> char {
    (('0' as u32) + d) as char
}

/// The decimal digits of `n`, most significant first, without leading zeros.
pub open spec fn dec(n: nat) -> Seq<char>
    decreases n,
{
    if n < 10 {
        seq![digit_char(n)]
    } else {
        dec(n / 10).push(digit_char(n % 10))
    }
}

/// `s` left-padded with `'0'` to at least `w` characters.
pub open spec fn zero_pad(s: Seq<char>, w: nat) -> Seq<char> {
    if s.len() >= w {
        s
    } else {
        Seq::new((w - s.len()) as nat, |_i: int| '0') + s
    }
}

/// How Rust prints the integer `v` with `{:0w}`: the sign, then zeros, then the digits,
/// at least `w` characters in all.
pub open spec fn fmt_int(v: int, w: nat) -> Seq<char> {
    if v < 0 {
        seq!['-'] + zero_pad(dec((-v) as nat), if w >= 1 { (w - 1) as nat } else { 0 })
    } else {
        zero_pad(dec(v as nat), w)
    }
}

/// Every decimal has at least one digit.
pub proof fn lemma_dec_len(n: nat)
    ensures
        dec(n).len() >= 1,
        n < 10 ==> dec(n).len() == 1,
        10 <= n < 100 ==> dec(n).len() == 2,
    decreases n,
{
    if n >= 10 {
        lemma_dec_len(n / 10);
    }
}

/// The digit for `d`.
fn digit(d: u64) -> (c: char)
    requires
        d < 10,
    ensures
        c == digit_char(d as nat),
{
    let c: char = match d {
        0 => '0',
        1 => '1',
        2 => '2',
        3 => '3',
        4 => '4',
        5 => '5',
        6 => '6',
        7 => '7',
        8 => '8',
        _ => '9',
    };
    c
}

/// Appends the decimal digits of `n`.
pub fn push_dec(out: &mut String, n: u64)
    ensures
        final(out)@ == old(out)@ + dec(n as nat),
    decreases n,
{
    if n >= 10 {
        push_dec(out, n / 10);
    }
    out.push(digit(n % 10));
}

/// The number of decimal digits of `n`.
pub fn dec_len(n: u64) -> (k: usize)
    ensures
        k == dec(n as nat).len(),
    decreases n,
{
    if n < 10 {
        1
    } else {
        proof {
            lemma_dec_len(n as nat / 10);
            lemma_dec_bounded(n as nat / 10);
        }
        dec_len(n / 10) + 1
    }
}

/// A `u64` has at most twenty digits.
proof fn lemma_dec_bounded(n: nat)
    requires
        n <= u64::MAX,
    ensures
        dec(n).len() <= 20,
    decreases n,
{
    if n >= 10 {
        lemma_dec_bounded(n / 10);
        if n / 10 < 10 {
        } else {
            lemma_dec_small(n);
        }
    }
}

/// The digit count grows by one for each factor of ten.
proof fn lemma_dec_small(n: nat)
    requires
        n <= u64::MAX,
    ensures
        dec(n).len() <= 20,
{
    reveal_with_fuel(pow10, 21);
    assert(pow10(20) == 100_000_000_000_000_000_000nat);
    lemma_dec_pow(n, 20);
}

/// `dec(n)` has at most `k` digits when `n < 10^k`.
proof fn lemma_dec_pow(n: nat, k: nat)
    requires
        n < pow10(k),
        k >= 1,
    ensures
        dec(n).len() <= k,
    decreases k,
{
    if n >= 10 {
        assert(pow10(k) == 10 * pow10((k - 1) as nat));
        if k == 1 {
        } else {
            assert(n / 10 < pow10((k - 1) as nat));
            lemma_dec_pow(n / 10, (k - 1) as nat);
        }
    }
}

/// Ten to the power `k`.
pub open spec fn pow10(k: nat) -> nat
    decreases k,
{
    if k == 0 {
        1
    } else {
        10 * pow10((k - 1) as nat)
    }
}

/// Appends `n` zero-padded to `w` characters.
pub fn push_dec_padded(out: &mut String, n: u64, w: usize)
    ensures
        final(out)@ == old(out)@ + zero_pad(dec(n as nat), w as nat),
{
    let k = dec_len(n);
    let ghost start = out@;
    let mut i = k;
    while i < w
        invariant
            k <= i <= w || (w <= k && i == k),
            out@ == start + Seq::new((i - k) as nat, |_j: int| '0'),
        decreases w - i,
    {
        out.push('0');
        assert(Seq::new((i + 1 - k) as nat, |_j: int| '0') == Seq::new(
            (i - k) as nat,
            |_j: int| '0',
        ).push('0'));
        i += 1;
    }
    push_dec(out, n);
    proof {
        if k >= w {
            assert(Seq::new(0nat, |_j: int| '0') + dec(n as nat) == dec(n as nat));
        }
    }
}

/// Appends a signed integer formatted as `{:0w}`.
pub fn push_int_padded(out: &mut String, v: i64, w: usize)
    ensures
        final(out)@ == old(out)@ + fmt_int(v as int, w as nat),
{
    if v < 0 {
        out.push('-');
        let m: u64 = ((-(v + 1)) as u64) + 1;
        push_dec_padded(out, m, if w >= 1 { w - 1 } else { 0 });
        proof {
            assert(m == -v);
        }
    } else {
        push_dec_padded(out, v as u64, w);
    }
}

// ---------------------------------------------------------------------------
// Small sequence utilities
// ---------------------------------------------------------------------------
/// Searching in a suffix is searching in the whole from the suffix's start.
pub proof fn lemma_find_shift(s: Seq<char>, p: Seq<char>, k: int, j: int)
    requires
        0 <= k <= s.len(),
        0 <= j,
    ensures
        find_from(s.skip(k), p, j) == match find_from(s, p, j + k) {
            Some(i) => Some(i - k),
            None => None,
        },
    decreases s.len() + 1 - (j + k),
{
    let t = s.skip(k);
    if j + p.len() > t.len() {
    } else {
        assert(t.subrange(j, j + p.len()) == s.subrange(j + k, j + k + p.len()));
        if occurs_at(t, p, j) {
        } else {
            lemma_find_shift(s, p, k, j + 1);
        }
    }
}

/// A copy of `v[..n]`.
pub fn take_vec(v: &Vec<char>, n: usize) -> (r: Vec<char>)
    requires
        n <= v@.len(),
    ensures
        r@ == v@.take(n as int),
{
    let mut r: Vec<char> = Vec::new();
    let mut i: usize = 0;
    while i < n
        invariant
            i <= n <= v@.len(),
            r@ == v@.take(i as int),
        decreases n - i,
    {
        r.push(v[i]);
        assert(v@.take(i + 1) == v@.take(i as int).push(v@[i as int]));
        i += 1;
    }
    r
}

/// A copy of `v[from..to]`.
pub fn slice_vec(v: &Vec<char>, from: usize, to: usize) -> (r: Vec<char>)
    requires
        from <= to <= v@.len(),
    ensures
        r@ == v@.subrange(from as int, to as int),
{
    let mut r: Vec<char> = Vec::new();
    let mut i: usize = from;
    while i < to
        invariant
            from <= i <= to <= v@.len(),
            r@ == v@.subrange(from as int, i as int),
        decreases to - i,
    {
        r.push(v[i]);
        assert(v@.subrange(from as int, i + 1) == v@.subrange(from as int, i as int).push(v@[i as int]));
        i += 1;
    }
    r
}

/// The number of leading characters of `s` that are neither white space nor `c`.
pub open spec fn first_ws_or(s: Seq<char>, c: char) -> int
    decreases s.len(),
{
    if s.len() == 0 || is_ws(s[0]) || s[0] == c {
        0
    } else {
        1 + first_ws_or(s.drop_first(), c)
    }
}

/// `first_ws_or` stays within the sequence.
pub proof fn lemma_first_ws_or(s: Seq<char>, c: char)
    ensures
        0 <= first_ws_or(s, c) <= s.len(),
    decreases s.len(),
{
    if s.len() > 0 && !is_ws(s[0]) && s[0] != c {
        lemma_first_ws_or(s.drop_first(), c);
    }
}

/// The index of the first white space or `c` at or after `from`, or the end.
pub fn first_ws_or_exec(v: &Vec<char>, from: usize, c: char) -> (e: usize)
    requires
        from <= v@.len(),
    ensures
        from <= e <= v@.len(),
        e - from == first_ws_or(v@.skip(from as int), c),
{
    let mut i = from;
    while i < v.len() && !is_whitespace(v[i]) && v[i] != c
        invariant
            from <= i <= v@.len(),
            first_ws_or(v@.skip(from as int), c) == (i - from) + first_ws_or(v@.skip(i as int), c),
        decreases v.len() - i,
    {
        assert(v@.skip(i as int).drop_first() == v@.skip(i + 1));
        i += 1;
    }
    i
}

} // verus!
