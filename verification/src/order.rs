//! Lexicographic order on character sequences and a stable sort on keys.
use vstd::prelude::*;

verus! {

/// `a` sorts strictly before `b`, character by character (the order of `str` in Rust,
/// since UTF-8 keeps code point order).
pub open spec fn lex_lt(a: Seq<char>, b: Seq<char>) -> bool
    decreases a.len(),
{
    if b.len() == 0 {
        false
    } else if a.len() == 0 {
        true
    } else if a[0] < b[0] {
        true
    } else if a[0] == b[0] {
        lex_lt(a.drop_first(), b.drop_first())
    } else {
        false
    }
}

/// No sequence sorts before itself.
pub proof fn lemma_lex_irreflexive(a: Seq<char>)
    ensures
        !lex_lt(a, a),
    decreases a.len(),
{
    if a.len() > 0 {
        lemma_lex_irreflexive(a.drop_first());
    }
}

/// The order is transitive.
pub proof fn lemma_lex_transitive(a: Seq<char>, b: Seq<char>, c: Seq<char>)
    requires
        lex_lt(a, b),
        lex_lt(b, c),
    ensures
        lex_lt(a, c),
    decreases a.len(),
{
    if a.len() > 0 && b.len() > 0 && c.len() > 0 && a[0] == b[0] && b[0] == c[0] {
        lemma_lex_transitive(a.drop_first(), b.drop_first(), c.drop_first());
    }
}

/// Two different sequences are ordered one way or the other, never both.
pub proof fn lemma_lex_total(a: Seq<char>, b: Seq<char>)
    ensures
        a != b ==> (lex_lt(a, b) || lex_lt(b, a)),
        !(lex_lt(a, b) && lex_lt(b, a)),
    decreases a.len(),
{
    if a.len() > 0 && b.len() > 0 {
        if a[0] == b[0] {
            lemma_lex_total(a.drop_first(), b.drop_first());
            if a != b {
                assert(a == seq![a[0]] + a.drop_first());
                assert(b == seq![b[0]] + b.drop_first());
            }
        }
    } else if a.len() == 0 && b.len() == 0 {
        assert(a == b);
    }
}

/// The outcome of comparing two values.
#[derive(Clone, Copy, Debug, PartialEq, Eq, Structural)]
pub enum Order {
    Less,
    Equal,
    Greater,
}

/// Compares `a` and `b` lexicographically.
pub fn lex_order(a: &Vec<char>, b: &Vec<char>) -> (r: Order)
    ensures
        r == Order::Less <==> lex_lt(a@, b@),
        r == Order::Equal <==> a@ == b@,
        r == Order::Greater <==> lex_lt(b@, a@),
{
    proof {
        lemma_lex_total(a@, b@);
        lemma_lex_irreflexive(a@);
    }
    let mut i: usize = 0;
    assert(a@.skip(0) == a@ && b@.skip(0) == b@);
    while i < a.len() && i < b.len()
        invariant
            i <= a@.len(),
            i <= b@.len(),
            a@.take(i as int) == b@.take(i as int),
            lex_lt(a@, b@) == lex_lt(a@.skip(i as int), b@.skip(i as int)),
            lex_lt(b@, a@) == lex_lt(b@.skip(i as int), a@.skip(i as int)),
        decreases a.len() - i,
    {
        let x = a[i];
        let y = b[i];
        assert(a@.skip(i as int)[0] == x && b@.skip(i as int)[0] == y);
        if x < y {
            return Order::Less;
        }
        if y < x {
            return Order::Greater;
        }
        assert(x == y);
        assert(a@.skip(i as int).drop_first() == a@.skip(i + 1));
        assert(b@.skip(i as int).drop_first() == b@.skip(i + 1));
        assert(a@.take(i + 1) == a@.take(i as int).push(x));
        assert(b@.take(i + 1) == b@.take(i as int).push(y));
        i += 1;
    }
    if i < b.len() {
        assert(a@.skip(i as int).len() == 0);
        Order::Less
    } else if i < a.len() {
        assert(b@.skip(i as int).len() == 0);
        Order::Greater
    } else {
        assert(a@ == a@.take(i as int));
        assert(b@ == b@.take(i as int));
        Order::Equal
    }
}

// ---------------------------------------------------------------------------
// Sort keys
// ---------------------------------------------------------------------------
/// A sort key: a number that sorts descending, then two texts that sort ascending.
pub struct SortKey {
    pub rank: u64,
    pub first: Vec<char>,
    pub second: Vec<char>,
}

/// The mathematical form of a sort key.
pub type KeyView = (int, Seq<char>, Seq<char>);

impl SortKey {
    pub open spec fn view(&self) -> KeyView {
        (self.rank as int, self.first@, self.second@)
    }
}

/// `a` sorts strictly before `b`: higher rank first, then by the first text, then by the
/// second.
pub open spec fn key_lt(a: KeyView, b: KeyView) -> bool {
    ||| a.0 > b.0
    ||| a.0 == b.0 && lex_lt(a.1, b.1)
    ||| a.0 == b.0 && a.1 == b.1 && lex_lt(a.2, b.2)
}

/// The key order is a strict total order.
pub proof fn lemma_key_order(a: KeyView, b: KeyView, c: KeyView)
    ensures
        !key_lt(a, a),
        key_lt(a, b) && key_lt(b, c) ==> key_lt(a, c),
        a != b ==> key_lt(a, b) || key_lt(b, a),
        !(key_lt(a, b) && key_lt(b, a)),
{
    lemma_lex_irreflexive(a.1);
    lemma_lex_irreflexive(a.2);
    lemma_lex_total(a.1, b.1);
    lemma_lex_total(a.2, b.2);
    lemma_lex_total(b.1, c.1);
    lemma_lex_total(a.1, c.1);
    if key_lt(a, b) && key_lt(b, c) {
        if a.0 == b.0 && b.0 == c.0 {
            if lex_lt(a.1, b.1) && lex_lt(b.1, c.1) {
                lemma_lex_transitive(a.1, b.1, c.1);
            }
            if a.1 == b.1 && b.1 == c.1 && lex_lt(a.2, b.2) && lex_lt(b.2, c.2) {
                lemma_lex_transitive(a.2, b.2, c.2);
            }
        }
    }
    if a != b && a.0 == b.0 && a.1 == b.1 {
        assert(a.2 != b.2);
    }
}

/// Compares two keys.
pub fn key_order(a: &SortKey, b: &SortKey) -> (r: Order)
    ensures
        r == Order::Less <==> key_lt(a.view(), b.view()),
        r == Order::Equal <==> a.view() == b.view(),
        r == Order::Greater <==> key_lt(b.view(), a.view()),
{
    proof {
        lemma_key_order(a.view(), b.view(), a.view());
    }
    if a.rank > b.rank {
        return Order::Less;
    }
    if a.rank < b.rank {
        return Order::Greater;
    }
    match lex_order(&a.first, &b.first) {
        Order::Less => Order::Less,
        Order::Greater => Order::Greater,
        Order::Equal => lex_order(&a.second, &b.second),
    }
}

/// The keys of `keys` at the positions of `order`.
pub open spec fn keys_view(keys: Seq<SortKey>) -> Seq<KeyView> {
    keys.map_values(|k: SortKey| k.view())
}

/// `order` lists every index below `n` exactly once.
pub open spec fn is_permutation(order: Seq<usize>, n: int) -> bool {
    &&& order.len() == n
    &&& forall|p: int| 0 <= p < n ==> (#[trigger] order[p]) < n
    &&& forall|p: int, q: int| 0 <= p < q < n ==> order[p] != order[q]
}

/// `order` visits the keys in key order, and keys that are equal in the order they came in.
pub open spec fn is_stably_sorted(order: Seq<usize>, keys: Seq<KeyView>) -> bool {
    forall|p: int, q: int|
        #![trigger order[p], order[q]]
        0 <= p < q < order.len() ==> {
            let a = keys[order[p] as int];
            let b = keys[order[q] as int];
            key_lt(a, b) || (a == b && order[p] < order[q])
        }
}

/// A permutation of `0..keys.len()` that visits the keys in stable key order.
pub fn stable_sort_order(keys: &Vec<SortKey>) -> (order: Vec<usize>)
    ensures
        is_permutation(order@, keys@.len() as int),
        is_stably_sorted(order@, keys_view(keys@)),
{
    let ghost kv = keys_view(keys@);
    let mut order: Vec<usize> = Vec::new();
    let mut i: usize = 0;
    while i < keys.len()
        invariant
            i <= keys@.len(),
            kv == keys_view(keys@),
            is_permutation(order@, i as int),
            is_stably_sorted(order@, kv),
        decreases keys.len() - i,
    {
        let mut pos = order.len();
        while pos > 0 && key_order(&keys[order[pos - 1]], &keys[i]) == Order::Greater
            invariant
                pos <= order@.len() == i,
                i < keys@.len(),
                kv == keys_view(keys@),
                is_permutation(order@, i as int),
                is_stably_sorted(order@, kv),
                forall|p: int| pos <= p < order@.len() ==> key_lt(kv[i as int], kv[order@[p] as int]),
            decreases pos,
        {
            pos -= 1;
        }
        proof {
            if pos > 0 {
                let last = kv[order@[pos - 1] as int];
                lemma_key_order(last, kv[i as int], last);
                assert forall|p: int| 0 <= p < pos implies (key_lt(kv[order@[p] as int], kv[i as int])
                    || kv[order@[p] as int] == kv[i as int]) by {
                    if p < pos - 1 {
                        let a = kv[order@[p] as int];
                        lemma_key_order(a, last, kv[i as int]);
                        lemma_key_order(a, kv[i as int], a);
                        lemma_key_order(last, kv[i as int], last);
                    }
                }
            }
        }
        let ghost old_order = order@;
        order.insert(pos, i);
        proof {
            assert forall|p: int| 0 <= p < i + 1 implies (#[trigger] order@[p]) < i + 1 by {
                if p < pos {
                    assert(order@[p] == old_order[p]);
                } else if p > pos {
                    assert(order@[p] == old_order[p - 1]);
                }
            }
            assert forall|p: int, q: int| 0 <= p < q < i + 1 implies order@[p] != order@[q] by {
                if p < pos && q < pos {
                } else if p < pos && q == pos {
                    assert(old_order[p] < i);
                } else if p < pos && q > pos {
                    assert(order@[q] == old_order[q - 1]);
                } else if p == pos {
                    assert(order@[q] == old_order[q - 1]);
                    assert(old_order[q - 1] < i);
                } else {
                    assert(order@[p] == old_order[p - 1]);
                    assert(order@[q] == old_order[q - 1]);
                }
            }
            assert forall|p: int, q: int|
                #![trigger order@[p], order@[q]]
                0 <= p < q < order@.len() implies {
                let a = kv[order@[p] as int];
                let b = kv[order@[q] as int];
                key_lt(a, b) || (a == b && order@[p] < order@[q])
            } by {
                if p < pos && q < pos {
                } else if p < pos && q == pos {
                    assert(old_order[p] < i);
                } else if p < pos && q > pos {
                    assert(order@[q] == old_order[q - 1]);
                } else if p == pos {
                    assert(order@[q] == old_order[q - 1]);
                } else {
                    assert(order@[p] == old_order[p - 1]);
                    assert(order@[q] == old_order[q - 1]);
                }
            }
        }
        i += 1;
    }
    order
}

/// Every index below `n` is visited by a permutation of `0..n`.
pub proof fn lemma_permutation_onto(order: Seq<usize>, n: int, h: int) -> (q: int)
    requires
        is_permutation(order, n),
        0 <= h < n,
    ensures
        0 <= q < n,
        order[q] == h,
{
    let img = Set::new(|x: int| exists|p: int| 0 <= p < n && order[p] as int == x);
    if !img.contains(h) {
        // The image misses `h`, so `n` distinct values lie in `n - 1` slots.
        lemma_pigeonhole(order, n, h);
    }
    choose|p: int| 0 <= p < n && order[p] as int == h
}

/// `n` distinct indices below `n` cannot all avoid `h`.
proof fn lemma_pigeonhole(order: Seq<usize>, n: int, h: int)
    requires
        is_permutation(order, n),
        0 <= h < n,
    ensures
        exists|p: int| 0 <= p < n && order[p] as int == h,
{
    let s = order.take(n).map_values(|x: usize| x as int).to_set();
    let full = Set::new(|x: int| 0 <= x < n);
    let seqi = order.map_values(|x: usize| x as int);
    assert(order.take(n) == order);
    assert(seqi.no_duplicates()) by {
        assert forall|p: int, q: int| 0 <= p < seqi.len() && 0 <= q < seqi.len() && p != q implies seqi[p] != seqi[q] by {
            if p < q {
                assert(order[p] != order[q]);
            } else {
                assert(order[q] != order[p]);
            }
        }
    }
    seqi.unique_seq_to_set();
    assert(seqi.to_set().len() == n);
    assert(seqi.to_set().subset_of(full)) by {
        assert forall|x: int| seqi.to_set().contains(x) implies full.contains(x) by {
            let p = choose|p: int| 0 <= p < seqi.len() && seqi[p] == x;
            assert(order[p] < n);
        }
    }
    vstd::set_lib::lemma_int_range(0, n);
    assert(full == vstd::set_lib::set_int_range(0, n));
    if !seqi.to_set().contains(h) {
        vstd::set_lib::lemma_len_subset(seqi.to_set().insert(h), full);
        assert(false);
    }
    assert(seqi.contains(h));
    let p = choose|p: int| 0 <= p < seqi.len() && seqi[p] == h;
    assert(order[p] as int == h);
}

} // verus!
