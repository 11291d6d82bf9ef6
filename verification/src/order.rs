//! Lexicographic order on character sequences (the order of `String`'s `Ord`).
use vstd::prelude::*;

verus! {

/// `a` sorts strictly before `b`, comparing characters left to right.
pub open spec fn seq_lt(a: Seq<char>, b: Seq<char>) -> bool
    decreases a.len(),
{
    if a.len() == 0 {
        b.len() > 0
    } else if b.len() == 0 {
        false
    } else if a[0] < b[0] {
        true
    } else if a[0] > b[0] {
        false
    } else {
        seq_lt(a.drop_first(), b.drop_first())
    }
}

/// Every element sorts strictly before every later one.
pub open spec fn strictly_sorted(s: Seq<Seq<char>>) -> bool {
    forall|i: int, j: int| 0 <= i < j < s.len() ==> seq_lt(#[trigger] s[i], #[trigger] s[j])
}

pub proof fn lemma_lt_irreflexive(a: Seq<char>)
    ensures
        !seq_lt(a, a),
    decreases a.len(),
{
    if a.len() > 0 {
        lemma_lt_irreflexive(a.drop_first());
    }
}

pub proof fn lemma_lt_total(a: Seq<char>, b: Seq<char>)
    ensures
        a == b || seq_lt(a, b) || seq_lt(b, a),
        !(seq_lt(a, b) && seq_lt(b, a)),
    decreases a.len(),
{
    if a.len() > 0 && b.len() > 0 && a[0] == b[0] {
        lemma_lt_total(a.drop_first(), b.drop_first());
        if a.drop_first() == b.drop_first() {
            assert forall|k: int| 0 <= k < a.len() implies a[k] == b[k] by {
                if k > 0 {
                    assert(a[k] == a.drop_first()[k - 1]);
                    assert(b[k] == b.drop_first()[k - 1]);
                }
            }
            assert(a =~= b);
        }
    } else if a.len() > 0 && b.len() > 0 {
        assert(a[0] != b[0]);
    } else if a.len() == 0 && b.len() == 0 {
        assert(a =~= b);
    }
}

pub proof fn lemma_lt_transitive(a: Seq<char>, b: Seq<char>, c: Seq<char>)
    requires
        seq_lt(a, b),
        seq_lt(b, c),
    ensures
        seq_lt(a, c),
    decreases a.len(),
{
    if a.len() > 0 && b.len() > 0 && c.len() > 0 {
        if a[0] == b[0] && b[0] == c[0] {
            lemma_lt_transitive(a.drop_first(), b.drop_first(), c.drop_first());
        }
    }
}

/// Result of comparing two character sequences.
#[derive(Clone, Copy, Debug, PartialEq, Eq, Structural)]
pub enum Order {
    Less,
    Equal,
    Greater,
}

/// Compares `a` and `b` lexicographically.
pub fn compare_chars(a: &[char], b: &[char]) -> (r: Order)
    ensures
        (r == Order::Less) == seq_lt(a@, b@),
        (r == Order::Equal) == (a@ == b@),
        (r == Order::Greater) == seq_lt(b@, a@),
{
    let mut i: usize = 0;
    assert(a@.skip(0) == a@);
    assert(b@.skip(0) == b@);
    while i < a.len() && i < b.len()
        invariant
            i <= a@.len(),
            i <= b@.len(),
            a@.take(i as int) == b@.take(i as int),
            seq_lt(a@, b@) == seq_lt(a@.skip(i as int), b@.skip(i as int)),
            seq_lt(b@, a@) == seq_lt(b@.skip(i as int), a@.skip(i as int)),
        decreases a@.len() - i,
    {
        let x = a[i];
        let y = b[i];
        assert(a@.skip(i as int)[0] == a@[i as int]);
        assert(b@.skip(i as int)[0] == b@[i as int]);
        if x < y {
            proof {
                lemma_lt_total(a@, b@);
                if a@ == b@ {
                    assert(a@[i as int] == b@[i as int]);
                }
            }
            return Order::Less;
        }
        if x > y {
            proof {
                lemma_lt_total(a@, b@);
                if a@ == b@ {
                    assert(a@[i as int] == b@[i as int]);
                }
            }
            return Order::Greater;
        }
        proof {
            assert(a@.skip(i as int).drop_first() == a@.skip(i as int + 1));
            assert(b@.skip(i as int).drop_first() == b@.skip(i as int + 1));
            assert(a@[i as int] == b@[i as int]);
            assert(a@.take(i as int + 1) == a@.take(i as int).push(a@[i as int]));
            assert(b@.take(i as int + 1) == b@.take(i as int).push(b@[i as int]));
        }
        i = i + 1;
    }
    proof {
        lemma_lt_total(a@, b@);
    }
    if a.len() == b.len() {
        assert(a@ == a@.take(i as int));
        assert(b@ == b@.take(i as int));
        Order::Equal
    } else if a.len() < b.len() {
        assert(a@.skip(i as int).len() == 0);
        assert(a@ != b@);
        Order::Less
    } else {
        assert(b@.skip(i as int).len() == 0);
        assert(a@ != b@);
        Order::Greater
    }
}

} // verus!

verus! {

pub proof fn lemma_push_to_set<A>(s: Seq<A>, x: A)
    ensures
        s.push(x).to_set() == s.to_set().insert(x),
{
    assert forall|y: A| s.push(x).to_set().contains(y) implies s.to_set().insert(x).contains(y) by {
        let k = choose|k: int| 0 <= k < s.push(x).len() && s.push(x)[k] == y;
        if k < s.len() {
            assert(s[k] == y);
        }
    }
    assert forall|y: A| s.to_set().insert(x).contains(y) implies s.push(x).to_set().contains(y) by {
        if y == x {
            assert(s.push(x)[s.len() as int] == y);
        } else {
            let k = choose|k: int| 0 <= k < s.len() && s[k] == y;
            assert(s.push(x)[k] == y);
        }
    }
    assert(s.push(x).to_set() =~= s.to_set().insert(x));
}

} // verus!

verus! {

/// Sort keys: a text, then a number.
pub open spec fn key_lt(a: (Seq<char>, u64), b: (Seq<char>, u64)) -> bool {
    seq_lt(a.0, b.0) || (a.0 == b.0 && a.1 < b.1)
}

/// Position `i` comes before position `j` in a stable sort by key: a
/// smaller key, or an equal key and an earlier position.
pub open spec fn ranked_before(keys: Seq<(Seq<char>, u64)>, i: int, j: int) -> bool {
    key_lt(keys[i], keys[j]) || (keys[i] == keys[j] && i < j)
}

/// `o` lists every position of `keys` once, in stable ascending key order.
pub open spec fn sorted_order(keys: Seq<(Seq<char>, u64)>, o: Seq<usize>) -> bool {
    &&& o.len() == keys.len()
    &&& forall|a: int| 0 <= a < o.len() ==> (#[trigger] o[a]) < keys.len()
    &&& forall|a: int, b: int| 0 <= a < b < o.len() ==> ranked_before(keys, #[trigger] o[a] as int, #[trigger] o[b] as int)
}

pub proof fn lemma_key_order(a: (Seq<char>, u64), b: (Seq<char>, u64), c: (Seq<char>, u64))
    ensures
        !key_lt(a, a),
        a == b || key_lt(a, b) || key_lt(b, a),
        !(key_lt(a, b) && key_lt(b, a)),
        key_lt(a, b) && key_lt(b, c) ==> key_lt(a, c),
{
    lemma_lt_irreflexive(a.0);
    lemma_lt_total(a.0, b.0);
    lemma_lt_total(b.0, c.0);
    lemma_lt_total(a.0, c.0);
    if seq_lt(a.0, b.0) && seq_lt(b.0, c.0) {
        lemma_lt_transitive(a.0, b.0, c.0);
    }
    if a.0 == b.0 && a.1 == b.1 {
        assert(a == b);
    }
}

pub proof fn lemma_ranked(keys: Seq<(Seq<char>, u64)>, i: int, j: int, k: int)
    ensures
        !ranked_before(keys, i, i),
        i != j ==> ranked_before(keys, i, j) || ranked_before(keys, j, i),
        !(ranked_before(keys, i, j) && ranked_before(keys, j, i)),
        ranked_before(keys, i, j) && ranked_before(keys, j, k) ==> ranked_before(keys, i, k),
{
    lemma_key_order(keys[i], keys[j], keys[k]);
    lemma_key_order(keys[j], keys[k], keys[i]);
    lemma_key_order(keys[k], keys[i], keys[j]);
    lemma_key_order(keys[i], keys[k], keys[j]);
}

fn key_less(a: &(Vec<char>, u64), b: &(Vec<char>, u64)) -> (r: bool)
    ensures
        r == key_lt((a.0@, a.1), (b.0@, b.1)),
{
    match compare_chars(a.0.as_slice(), b.0.as_slice()) {
        Order::Less => true,
        Order::Greater => false,
        Order::Equal => a.1 < b.1,
    }
}

pub open spec fn key_views(keys: Seq<(Vec<char>, u64)>) -> Seq<(Seq<char>, u64)> {
    keys.map_values(|k: (Vec<char>, u64)| (k.0@, k.1))
}

/// The positions of `keys` in stable ascending key order (see
/// [`sorted_order`]).
pub fn sort_order(keys: &Vec<(Vec<char>, u64)>) -> (o: Vec<usize>)
    ensures
        sorted_order(key_views(keys@), o@),
{
    let ghost kv = key_views(keys@);
    let mut o: Vec<usize> = Vec::new();
    let mut i: usize = 0;
    while i < keys.len()
        invariant
            i <= keys@.len(),
            kv == key_views(keys@),
            o@.len() == i,
            forall|a: int| 0 <= a < o@.len() ==> (#[trigger] o@[a]) < i,
            forall|a: int, b: int| 0 <= a < b < o@.len() ==> ranked_before(kv, #[trigger] o@[a] as int, #[trigger] o@[b] as int),
        decreases keys@.len() - i,
    {
        let mut p: usize = 0;
        while p < o.len() && !key_less(&keys[i], &keys[o[p]])
            invariant
                i < keys@.len(),
                kv == key_views(keys@),
                p <= o@.len(),
                o@.len() == i,
                forall|a: int| 0 <= a < o@.len() ==> (#[trigger] o@[a]) < i,
                forall|a: int| 0 <= a < p ==> !key_lt(kv[i as int], kv[#[trigger] o@[a] as int]),
            decreases o@.len() - p,
        {
            assert(kv[i as int] == (keys@[i as int].0@, keys@[i as int].1));
            assert(kv[o@[p as int] as int] == (keys@[o@[p as int] as int].0@, keys@[o@[p as int] as int].1));
            p = p + 1;
        }
        proof {
            if p < o@.len() {
                assert(kv[i as int] == (keys@[i as int].0@, keys@[i as int].1));
                assert(kv[o@[p as int] as int] == (keys@[o@[p as int] as int].0@, keys@[o@[p as int] as int].1));
                assert(key_lt(kv[i as int], kv[o@[p as int] as int]));
            }
        }
        let ghost before = o@;
        o.insert(p, i);
        proof {
            assert(o@ == before.take(p as int).push(i) + before.skip(p as int));
            assert forall|a: int| 0 <= a < o@.len() implies (#[trigger] o@[a]) < i + 1 by {
                if a < p {
                    assert(o@[a] == before[a]);
                } else if a > p {
                    assert(o@[a] == before[a - 1]);
                }
            }
            assert forall|a: int, b: int| 0 <= a < b < o@.len() implies ranked_before(kv, #[trigger] o@[a] as int, #[trigger] o@[b] as int) by {
                let x = o@[a] as int;
                let y = o@[b] as int;
                if b < p {
                    assert(o@[a] == before[a] && o@[b] == before[b]);
                } else if a > p {
                    assert(o@[a] == before[a - 1] && o@[b] == before[b - 1]);
                } else if a < p && b > p {
                    assert(o@[a] == before[a] && o@[b] == before[b - 1]);
                } else if a == p {
                    assert(y == before[b - 1] as int);
                    assert(key_lt(kv[i as int], kv[before[p as int] as int]));
                    if b - 1 > p {
                        assert(ranked_before(kv, before[p as int] as int, before[b - 1] as int));
                    }
                    lemma_key_order(kv[i as int], kv[before[p as int] as int], kv[y]);
                } else {
                    assert(b == p);
                    assert(x == before[a] as int);
                    assert(!key_lt(kv[i as int], kv[x]));
                    lemma_key_order(kv[x], kv[i as int], kv[x]);
                }
            }
        }
        i = i + 1;
    }
    o
}

pub proof fn lemma_order_covers(keys: Seq<(Seq<char>, u64)>, o: Seq<usize>)
    requires
        sorted_order(keys, o),
    ensures
        forall|x: usize| x < keys.len() ==> #[trigger] o.contains(x),
        o.no_duplicates(),
{
    let n = keys.len() as int;
    assert forall|a: int, b: int| 0 <= a < o.len() && 0 <= b < o.len() && a != b implies o[a] != o[b] by {
        if a < b {
            assert(ranked_before(keys, o[a] as int, o[b] as int));
            lemma_ranked(keys, o[a] as int, o[b] as int, o[b] as int);
        } else {
            assert(ranked_before(keys, o[b] as int, o[a] as int));
            lemma_ranked(keys, o[b] as int, o[a] as int, o[a] as int);
        }
    }
    let t = o.map_values(|v: usize| v as int);
    assert forall|a: int, b: int| 0 <= a < b < t.len() implies t[a] != t[b] by {
        assert(o[a] != o[b]);
    }
    t.unique_seq_to_set();
    vstd::seq_lib::seq_to_set_is_finite(t);
    vstd::set_lib::lemma_int_range(0, n);
    let r = vstd::set_lib::set_int_range(0, n);
    assert(t.to_set().subset_of(r)) by {
        assert forall|x: int| t.to_set().contains(x) implies r.contains(x) by {
            let a = choose|a: int| 0 <= a < t.len() && t[a] == x;
            assert(o[a] < keys.len());
        }
    }
    vstd::set_lib::lemma_subset_equality(t.to_set(), r);
    assert forall|x: usize| x < keys.len() implies #[trigger] o.contains(x) by {
        assert(r.contains(x as int));
        assert(t.to_set().contains(x as int));
        let a = choose|a: int| 0 <= a < t.len() && t[a] == x as int;
        assert(o[a] == x);
    }
}

proof fn lemma_orders_agree(keys: Seq<(Seq<char>, u64)>, o1: Seq<usize>, o2: Seq<usize>, k: int)
    requires
        sorted_order(keys, o1),
        sorted_order(keys, o2),
        0 <= k <= o1.len(),
    ensures
        forall|j: int| 0 <= j < k ==> o1[j] == o2[j],
    decreases k,
{
    if k > 0 {
        lemma_orders_agree(keys, o1, o2, k - 1);
        let a = k - 1;
        let x = o1[a] as int;
        let y = o2[a] as int;
        if x != y {
            lemma_order_covers(keys, o1);
            lemma_order_covers(keys, o2);
            lemma_ranked(keys, x, y, x);
            if ranked_before(keys, x, y) {
                assert(o2.contains(x as usize));
                let b = choose|b: int| 0 <= b < o2.len() && o2[b] == x as usize;
                if b < a {
                    assert(o1[b] == o2[b]);
                    assert(o1[b] == o1[a]);
                } else {
                    assert(b != a);
                    assert(ranked_before(keys, o2[a] as int, o2[b] as int));
                }
            } else {
                assert(o1.contains(y as usize));
                let b = choose|b: int| 0 <= b < o1.len() && o1[b] == y as usize;
                if b < a {
                    assert(o1[b] == o2[b]);
                    assert(o2[b] == o2[a]);
                } else {
                    assert(b != a);
                    assert(ranked_before(keys, o1[a] as int, o1[b] as int));
                }
            }
        }
    }
}

/// A stable sort's order is determined by the keys: any two orders that
/// list every position once in stable ascending key order are the same.
pub proof fn law_sorted_order_unique(keys: Seq<(Seq<char>, u64)>, o1: Seq<usize>, o2: Seq<usize>)
    requires
        sorted_order(keys, o1),
        sorted_order(keys, o2),
    ensures
        o1 == o2,
{
    lemma_orders_agree(keys, o1, o2, o1.len() as int);
    assert(o1 =~= o2);
}

/// Some order lists the positions in stable ascending key order.
pub proof fn lemma_stable_order_exists(keys: Seq<(Seq<char>, u64)>)
    requires
        keys.len() <= usize::MAX,
    ensures
        exists|o: Seq<usize>| sorted_order(keys, o),
    decreases keys.len(),
{
    if keys.len() > 0 {
        let d = keys.drop_last();
        lemma_stable_order_exists(d);
        let o = choose|o: Seq<usize>| sorted_order(d, o);
        let n = d.len() as int;
        let p = count_not_above(keys, o, n);
        lemma_count_not_above(keys, o, n, p);
        let o2 = o.take(p).push(n as usize) + o.skip(p);
        assert forall|a: int| 0 <= a < o2.len() implies (#[trigger] o2[a]) < keys.len() by {
            if a < p {
                assert(o2[a] == o[a]);
            } else if a > p {
                assert(o2[a] == o[a - 1]);
            }
        }
        assert forall|a: int, b: int| 0 <= a < b < o2.len() implies ranked_before(keys, #[trigger] o2[a] as int, #[trigger] o2[b] as int) by {
            let x = o2[a] as int;
            let y = o2[b] as int;
            if b < p {
                assert(o2[a] == o[a] && o2[b] == o[b]);
                assert(ranked_before(d, x, y));
                assert(d[x] == keys[x] && d[y] == keys[y]);
            } else if a > p {
                assert(o2[a] == o[a - 1] && o2[b] == o[b - 1]);
                assert(ranked_before(d, x, y));
                assert(d[x] == keys[x] && d[y] == keys[y]);
            } else if a < p && b > p {
                assert(o2[a] == o[a] && o2[b] == o[b - 1]);
                assert(ranked_before(d, x, y));
                assert(d[x] == keys[x] && d[y] == keys[y]);
            } else if a == p {
                assert(y == o[b - 1] as int);
                assert(key_lt(keys[n], keys[o[p] as int]));
                if b - 1 > p {
                    assert(ranked_before(d, o[p] as int, o[b - 1] as int));
                    assert(d[o[p] as int] == keys[o[p] as int] && d[y] == keys[y]);
                }
                lemma_key_order(keys[n], keys[o[p] as int], keys[y]);
            } else {
                assert(x == o[a] as int);
                assert(!key_lt(keys[n], keys[x]));
                lemma_key_order(keys[x], keys[n], keys[x]);
            }
        }
        assert(sorted_order(keys, o2));
    } else {
        assert(sorted_order(keys, Seq::<usize>::empty()));
    }
}

/// How many leading positions of `o` do not have a key above `keys[n]`,
/// stopping at the first that does.
spec fn count_not_above(keys: Seq<(Seq<char>, u64)>, o: Seq<usize>, n: int) -> int
    decreases o.len(),
{
    if o.len() == 0 {
        0
    } else if key_lt(keys[n], keys[o[0] as int]) {
        0
    } else {
        1 + count_not_above(keys, o.skip(1), n)
    }
}

proof fn lemma_count_not_above(keys: Seq<(Seq<char>, u64)>, o: Seq<usize>, n: int, p: int)
    requires
        p == count_not_above(keys, o, n),
    ensures
        0 <= p <= o.len(),
        forall|a: int| 0 <= a < p ==> !key_lt(keys[n], keys[#[trigger] o[a] as int]),
        p < o.len() ==> key_lt(keys[n], keys[o[p] as int]),
    decreases o.len(),
{
    if o.len() > 0 && !key_lt(keys[n], keys[o[0] as int]) {
        let t = o.skip(1);
        lemma_count_not_above(keys, t, n, count_not_above(keys, t, n));
        assert forall|a: int| 0 <= a < p implies !key_lt(keys[n], keys[#[trigger] o[a] as int]) by {
            if a > 0 {
                assert(o[a] == t[a - 1]);
            }
        }
        if p < o.len() {
            assert(o[p] == t[p - 1]);
        }
    }
}

} // verus!

