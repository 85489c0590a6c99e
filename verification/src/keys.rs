//! Text keys (room tokens and identity tokens) and the order in which the
//! room registry keeps them: code point by code point, the order of
//! `String` under `Ord`.
use vstd::prelude::*;

verus! {

/// `a` sorts strictly before `b`: at the first position where they differ
/// `a` holds the smaller character, or `a` is a proper prefix of `b`.
pub open spec fn key_lt(a: Seq<char>, b: Seq<char>) -> bool {
    exists|n: int| #[trigger] first_difference(a, b, n) && {
        ||| (n == a.len() && n < b.len())
        ||| (n < a.len() && n < b.len() && (a[n] as u32) < (b[n] as u32))
    }
}

/// `a` and `b` agree on their first `n` characters, and `n` is within both.
pub open spec fn first_difference(a: Seq<char>, b: Seq<char>, n: int) -> bool {
    &&& 0 <= n <= a.len()
    &&& n <= b.len()
    &&& forall|j: int| 0 <= j < n ==> a[j] == b[j]
}

/// The three ways two keys can stand to each other.
#[derive(PartialEq, Eq, Structural, Clone, Copy, Debug)]
pub enum KeyOrder {
    Less,
    Equal,
    Greater,
}

/// Compares two keys character by character.
pub fn key_order(a: &str, b: &str) -> (o: KeyOrder)
    ensures
        o == KeyOrder::Less <==> key_lt(a@, b@),
        o == KeyOrder::Equal <==> a@ == b@,
        o == KeyOrder::Greater <==> key_lt(b@, a@),
{
    let la = a.unicode_len();
    let lb = b.unicode_len();
    let mut i: usize = 0;
    while i < la && i < lb
        invariant
            la == a@.len(),
            lb == b@.len(),
            i <= la,
            i <= lb,
            forall|j: int| 0 <= j < i ==> a@[j] == b@[j],
        decreases la - i,
    {
        let ca = a.get_char(i);
        let cb = b.get_char(i);
        if (ca as u32) < (cb as u32) {
            proof {
                assert(first_difference(a@, b@, i as int));
                lemma_key_lt_asym(a@, b@);
                assert(a@ != b@) by { assert(a@[i as int] != b@[i as int]); }
            }
            return KeyOrder::Less;
        } else if (cb as u32) < (ca as u32) {
            proof {
                assert(first_difference(b@, a@, i as int));
                lemma_key_lt_asym(b@, a@);
                assert(a@ != b@) by { assert(a@[i as int] != b@[i as int]); }
            }
            return KeyOrder::Greater;
        }
        proof {
            assert((ca as u32) == (cb as u32));
        }
        i = i + 1;
    }
    if la < lb {
        proof {
            lemma_common_prefix_not_lt(a@, b@, i as int);
            assert(first_difference(a@, b@, i as int));
            assert(a@ != b@);
        }
        KeyOrder::Less
    } else if lb < la {
        proof {
            lemma_common_prefix_not_lt(b@, a@, i as int);
            assert(first_difference(b@, a@, i as int));
            assert(a@ != b@);
        }
        KeyOrder::Greater
    } else {
        proof {
            assert(a@ =~= b@);
            lemma_key_lt_irreflexive(a@);
        }
        KeyOrder::Equal
    }
}

/// Two keys that agree on a prefix ending where the first one ends are not
/// in reverse order.
proof fn lemma_common_prefix_not_lt(a: Seq<char>, b: Seq<char>, i: int)
    requires
        0 <= i <= a.len(),
        i <= b.len(),
        i == a.len() || i == b.len(),
        forall|j: int| 0 <= j < i ==> a[j] == b[j],
        a.len() <= b.len(),
    ensures
        !key_lt(b, a),
{
    if key_lt(b, a) {
        let n = choose|n: int| #[trigger] first_difference(b, a, n) && {
            ||| (n == b.len() && n < a.len())
            ||| (n < b.len() && n < a.len() && (b[n] as u32) < (a[n] as u32))
        };
        assert(b[n] == a[n]);
    }
}

/// No key sorts before itself.
pub proof fn lemma_key_lt_irreflexive(a: Seq<char>)
    ensures
        !key_lt(a, a),
{
}

/// Two keys never sort before each other.
pub proof fn lemma_key_lt_asym(a: Seq<char>, b: Seq<char>)
    ensures
        key_lt(a, b) ==> !key_lt(b, a),
{
    if key_lt(a, b) && key_lt(b, a) {
        let n = choose|n: int| #[trigger] first_difference(a, b, n) && {
            ||| (n == a.len() && n < b.len())
            ||| (n < a.len() && n < b.len() && (a[n] as u32) < (b[n] as u32))
        };
        let m = choose|m: int| #[trigger] first_difference(b, a, m) && {
            ||| (m == b.len() && m < a.len())
            ||| (m < b.len() && m < a.len() && (b[m] as u32) < (a[m] as u32))
        };
        if n < m {
            assert(a[n] == b[n]);
        } else if m < n {
            assert(a[m] == b[m]);
        }
    }
}

/// The order of keys is transitive.
pub proof fn lemma_key_lt_transitive(a: Seq<char>, b: Seq<char>, c: Seq<char>)
    requires
        key_lt(a, b),
        key_lt(b, c),
    ensures
        key_lt(a, c),
{
    let n = choose|n: int| #[trigger] first_difference(a, b, n) && {
        ||| (n == a.len() && n < b.len())
        ||| (n < a.len() && n < b.len() && (a[n] as u32) < (b[n] as u32))
    };
    let m = choose|m: int| #[trigger] first_difference(b, c, m) && {
        ||| (m == b.len() && m < c.len())
        ||| (m < b.len() && m < c.len() && (b[m] as u32) < (c[m] as u32))
    };
    let k = if n < m { n } else { m };
    assert(first_difference(a, c, k));
}

} // verus!

verus! {

/// A sequence of keyed entries whose keys strictly increase.
pub open spec fn keys_sorted<V>(s: Seq<(Seq<char>, V)>) -> bool {
    forall|i: int, j: int| 0 <= i < j < s.len() ==> key_lt(#[trigger] s[i].0, #[trigger] s[j].0)
}

/// Some entry of `s` has the key `k`.
pub open spec fn has_key<V>(s: Seq<(Seq<char>, V)>, k: Seq<char>) -> bool {
    exists|i: int| 0 <= i < s.len() && #[trigger] s[i].0 == k
}

/// The map from each key of `s` to the value stored beside it.
pub open spec fn entries_map<V>(s: Seq<(Seq<char>, V)>) -> Map<Seq<char>, V> {
    Map::new(
        |k: Seq<char>| has_key(s, k),
        |k: Seq<char>| s[choose|i: int| 0 <= i < s.len() && #[trigger] s[i].0 == k].1,
    )
}

/// In a sorted sequence, the map holds each entry's value under its key.
pub proof fn lemma_entries_map_at<V>(s: Seq<(Seq<char>, V)>, i: int)
    requires
        keys_sorted(s),
        0 <= i < s.len(),
    ensures
        entries_map(s).dom().contains(s[i].0),
        entries_map(s)[s[i].0] == s[i].1,
{
    let k = s[i].0;
    assert(has_key(s, k));
    let j = choose|j: int| 0 <= j < s.len() && #[trigger] s[j].0 == k;
    if j < i {
        lemma_key_lt_irreflexive(k);
        assert(key_lt(s[j].0, s[i].0));
    } else if i < j {
        lemma_key_lt_irreflexive(k);
        assert(key_lt(s[i].0, s[j].0));
    }
}

/// Inserting an entry at the place its key belongs keeps the sequence sorted
/// and adds the entry to the map.
pub proof fn lemma_entries_insert<V>(s: Seq<(Seq<char>, V)>, p: int, k: Seq<char>, v: V)
    requires
        keys_sorted(s),
        0 <= p <= s.len(),
        forall|i: int| 0 <= i < p ==> key_lt(#[trigger] s[i].0, k),
        forall|i: int| p <= i < s.len() ==> key_lt(k, #[trigger] s[i].0),
    ensures
        keys_sorted(s.insert(p, (k, v))),
        entries_map(s.insert(p, (k, v))) == entries_map(s).insert(k, v),
        !entries_map(s).dom().contains(k),
{
    let t = s.insert(p, (k, v));
    assert forall|i: int, j: int| 0 <= i < j < t.len() implies key_lt(#[trigger] t[i].0, #[trigger] t[j].0) by {
        if j < p {
            assert(t[i] == s[i] && t[j] == s[j]);
        } else if j == p {
            assert(t[i] == s[i]);
        } else if i == p {
            assert(t[j] == s[j - 1]);
        } else if i < p {
            assert(t[i] == s[i] && t[j] == s[j - 1]);
            lemma_key_lt_transitive(s[i].0, k, s[j - 1].0);
        } else {
            assert(t[i] == s[i - 1] && t[j] == s[j - 1]);
        }
    }
    assert forall|i: int| 0 <= i < s.len() implies s[i].0 != k by {
        lemma_key_lt_irreflexive(k);
    }
    let m = entries_map(s);
    let mt = entries_map(t);
    assert forall|x: Seq<char>| #[trigger] mt.dom().contains(x) <==> m.insert(k, v).dom().contains(x) by {
        if has_key(t, x) {
            let i = choose|i: int| 0 <= i < t.len() && #[trigger] t[i].0 == x;
            if i < p {
                assert(t[i] == s[i]);
            } else if i > p {
                assert(t[i] == s[i - 1]);
            }
        }
        if has_key(s, x) {
            let i = choose|i: int| 0 <= i < s.len() && #[trigger] s[i].0 == x;
            if i < p {
                assert(t[i] == s[i]);
            } else {
                assert(t[i + 1] == s[i]);
            }
        }
        if x == k {
            assert(t[p].0 == k);
        }
    }
    assert forall|x: Seq<char>| #[trigger] mt.dom().contains(x) implies mt[x] == m.insert(k, v)[x] by {
        let i = choose|i: int| 0 <= i < t.len() && #[trigger] t[i].0 == x;
        lemma_entries_map_at(t, i);
        if i < p {
            assert(t[i] == s[i]);
            lemma_entries_map_at(s, i);
        } else if i > p {
            assert(t[i] == s[i - 1]);
            lemma_entries_map_at(s, i - 1);
        }
    }
    assert(mt =~= m.insert(k, v));
}

/// Replacing the value of an entry keeps the sequence sorted and updates the map.
pub proof fn lemma_entries_update<V>(s: Seq<(Seq<char>, V)>, p: int, v: V)
    requires
        keys_sorted(s),
        0 <= p < s.len(),
    ensures
        keys_sorted(s.update(p, (s[p].0, v))),
        entries_map(s.update(p, (s[p].0, v))) == entries_map(s).insert(s[p].0, v),
{
    let k = s[p].0;
    let t = s.update(p, (k, v));
    assert forall|i: int, j: int| 0 <= i < j < t.len() implies key_lt(#[trigger] t[i].0, #[trigger] t[j].0) by {
        assert(t[i].0 == s[i].0 && t[j].0 == s[j].0);
    }
    let m = entries_map(s);
    let mt = entries_map(t);
    assert forall|x: Seq<char>| #[trigger] mt.dom().contains(x) <==> m.insert(k, v).dom().contains(x) by {
        if has_key(t, x) {
            let i = choose|i: int| 0 <= i < t.len() && #[trigger] t[i].0 == x;
            assert(s[i].0 == x);
        }
        if has_key(s, x) {
            let i = choose|i: int| 0 <= i < s.len() && #[trigger] s[i].0 == x;
            assert(t[i].0 == x);
        }
        if x == k {
            assert(t[p].0 == k);
        }
    }
    assert forall|x: Seq<char>| #[trigger] mt.dom().contains(x) implies mt[x] == m.insert(k, v)[x] by {
        let i = choose|i: int| 0 <= i < t.len() && #[trigger] t[i].0 == x;
        lemma_entries_map_at(t, i);
        if i != p {
            lemma_entries_map_at(s, i);
            lemma_key_lt_irreflexive(k);
            if i < p {
                assert(key_lt(s[i].0, s[p].0));
            } else {
                assert(key_lt(s[p].0, s[i].0));
            }
        }
    }
    assert(mt =~= m.insert(k, v));
}

/// Removing an entry keeps the sequence sorted and removes its key from the map.
pub proof fn lemma_entries_remove<V>(s: Seq<(Seq<char>, V)>, p: int)
    requires
        keys_sorted(s),
        0 <= p < s.len(),
    ensures
        keys_sorted(s.remove(p)),
        entries_map(s.remove(p)) == entries_map(s).remove(s[p].0),
{
    let k = s[p].0;
    let t = s.remove(p);
    assert forall|i: int, j: int| 0 <= i < j < t.len() implies key_lt(#[trigger] t[i].0, #[trigger] t[j].0) by {
        if j < p {
            assert(t[i] == s[i] && t[j] == s[j]);
        } else if i < p {
            assert(t[i] == s[i] && t[j] == s[j + 1]);
        } else {
            assert(t[i] == s[i + 1] && t[j] == s[j + 1]);
        }
    }
    lemma_key_lt_irreflexive(k);
    let m = entries_map(s);
    let mt = entries_map(t);
    assert forall|x: Seq<char>| #[trigger] mt.dom().contains(x) <==> m.remove(k).dom().contains(x) by {
        if has_key(t, x) {
            let i = choose|i: int| 0 <= i < t.len() && #[trigger] t[i].0 == x;
            if i < p {
                assert(t[i] == s[i]);
                assert(key_lt(s[i].0, s[p].0));
            } else {
                assert(t[i] == s[i + 1]);
                assert(key_lt(s[p].0, s[i + 1].0));
            }
        }
        if has_key(s, x) && x != k {
            let i = choose|i: int| 0 <= i < s.len() && #[trigger] s[i].0 == x;
            if i < p {
                assert(t[i] == s[i]);
            } else {
                assert(i != p);
                assert(t[i - 1] == s[i]);
            }
        }
    }
    assert forall|x: Seq<char>| #[trigger] mt.dom().contains(x) implies mt[x] == m.remove(k)[x] by {
        let i = choose|i: int| 0 <= i < t.len() && #[trigger] t[i].0 == x;
        lemma_entries_map_at(t, i);
        if i < p {
            assert(t[i] == s[i]);
            lemma_entries_map_at(s, i);
        } else {
            assert(t[i] == s[i + 1]);
            lemma_entries_map_at(s, i + 1);
        }
    }
    assert(mt =~= m.remove(k));
}

/// A key that no entry carries is not in the map.
pub proof fn lemma_entries_absent<V>(s: Seq<(Seq<char>, V)>, k: Seq<char>)
    requires
        forall|i: int| 0 <= i < s.len() ==> #[trigger] s[i].0 != k,
    ensures
        !entries_map(s).dom().contains(k),
{
}

} // verus!

verus! {

/// The place of key `k` in a sorted sequence: the first position whose key
/// does not sort before `k`.
pub open spec fn insertion_point<V>(s: Seq<(Seq<char>, V)>, k: Seq<char>) -> int {
    choose|p: int| is_insertion_point(s, k, p)
}

/// Every key before `p` sorts before `k`, and no key from `p` on does.
pub open spec fn is_insertion_point<V>(s: Seq<(Seq<char>, V)>, k: Seq<char>, p: int) -> bool {
    &&& 0 <= p <= s.len()
    &&& forall|i: int| 0 <= i < p ==> key_lt(#[trigger] s[i].0, k)
    &&& forall|i: int| p <= i < s.len() ==> !key_lt(#[trigger] s[i].0, k)
}

/// `s` with `k` holding `v`: the entry of `k` replaced, or a new entry put
/// in its place in key order.
pub open spec fn put_entry<V>(s: Seq<(Seq<char>, V)>, k: Seq<char>, v: V) -> Seq<(Seq<char>, V)> {
    let p = insertion_point(s, k);
    if p < s.len() && s[p].0 == k {
        s.update(p, (k, v))
    } else {
        s.insert(p, (k, v))
    }
}

/// `s` without the entry of `k` (unchanged where there is none).
pub open spec fn remove_entry<V>(s: Seq<(Seq<char>, V)>, k: Seq<char>) -> Seq<(Seq<char>, V)> {
    let p = insertion_point(s, k);
    if p < s.len() && s[p].0 == k {
        s.remove(p)
    } else {
        s
    }
}

/// In a sorted sequence, a position with the insertion point's property is
/// the insertion point.
pub proof fn lemma_insertion_point<V>(s: Seq<(Seq<char>, V)>, k: Seq<char>, q: int)
    requires
        keys_sorted(s),
        is_insertion_point(s, k, q),
    ensures
        insertion_point(s, k) == q,
{
    let p = insertion_point(s, k);
    assert(is_insertion_point(s, k, p));
    if p < q {
        assert(key_lt(s[p].0, k));
    } else if q < p {
        assert(key_lt(s[q].0, k));
    }
}

/// Found by a scan of a sorted sequence: all keys before `q` are smaller,
/// and `q` holds `k` or every key from `q` on is greater.
pub proof fn lemma_scan_is_insertion_point<V>(s: Seq<(Seq<char>, V)>, k: Seq<char>, q: int, found: bool)
    requires
        keys_sorted(s),
        0 <= q <= s.len(),
        forall|i: int| 0 <= i < q ==> key_lt(#[trigger] s[i].0, k),
        found ==> q < s.len() && s[q].0 == k,
        !found ==> forall|i: int| q <= i < s.len() ==> key_lt(k, #[trigger] s[i].0),
    ensures
        insertion_point(s, k) == q,
{
    assert forall|i: int| q <= i < s.len() implies !key_lt(#[trigger] s[i].0, k) by {
        if found {
            lemma_key_lt_irreflexive(k);
            if i > q {
                assert(key_lt(s[q].0, s[i].0));
                lemma_key_lt_asym(k, s[i].0);
            }
        } else {
            lemma_key_lt_asym(k, s[i].0);
        }
    }
    lemma_insertion_point(s, k, q);
}

/// Putting an entry keeps a sorted sequence sorted and sets the key in the map.
pub proof fn lemma_put_entry<V>(s: Seq<(Seq<char>, V)>, k: Seq<char>, v: V)
    requires
        keys_sorted(s),
    ensures
        keys_sorted(put_entry(s, k, v)),
        entries_map(put_entry(s, k, v)) == entries_map(s).insert(k, v),
{
    lemma_scan_position(s, k);
    let p = insertion_point(s, k);
    if p < s.len() && s[p].0 == k {
        lemma_entries_update(s, p, v);
    } else {
        assert forall|i: int| p <= i < s.len() implies key_lt(k, #[trigger] s[i].0) by {
            if i == p {
                lemma_key_order_total(s[p].0, k);
            } else {
                lemma_key_order_total(s[p].0, k);
                assert(key_lt(s[p].0, s[i].0));
                lemma_key_lt_transitive(k, s[p].0, s[i].0);
            }
        }
        lemma_entries_insert(s, p, k, v);
    }
}

/// Removing an entry keeps a sorted sequence sorted and removes the key from the map.
pub proof fn lemma_remove_entry<V>(s: Seq<(Seq<char>, V)>, k: Seq<char>)
    requires
        keys_sorted(s),
    ensures
        keys_sorted(remove_entry(s, k)),
        entries_map(remove_entry(s, k)) == entries_map(s).remove(k),
{
    lemma_scan_position(s, k);
    let p = insertion_point(s, k);
    if p < s.len() && s[p].0 == k {
        lemma_entries_remove(s, p);
    } else {
        assert forall|i: int| 0 <= i < s.len() implies #[trigger] s[i].0 != k by {
            lemma_key_lt_irreflexive(k);
            if i >= p && s[i].0 == k {
                if i > p {
                    lemma_key_order_total(s[p].0, k);
                    assert(key_lt(s[p].0, s[i].0));
                }
            }
        }
        lemma_entries_absent(s, k);
        assert(entries_map(s).remove(k) =~= entries_map(s));
    }
}

/// The position a scan of a sorted sequence stops at.
pub open spec fn scan_position<V>(s: Seq<(Seq<char>, V)>, k: Seq<char>) -> int
    decreases s.len(),
{
    if s.len() == 0 {
        0
    } else if key_lt(s.last().0, k) {
        s.len() as int
    } else {
        scan_position(s.drop_last(), k)
    }
}

/// Every sorted sequence has an insertion point for every key.
pub proof fn lemma_scan_position<V>(s: Seq<(Seq<char>, V)>, k: Seq<char>)
    requires
        keys_sorted(s),
    ensures
        is_insertion_point(s, k, scan_position(s, k)),
        insertion_point(s, k) == scan_position(s, k),
    decreases s.len(),
{
    if s.len() > 0 {
        let init = s.drop_last();
        assert(keys_sorted(init)) by {
            assert forall|i: int, j: int| 0 <= i < j < init.len() implies key_lt(#[trigger] init[i].0, #[trigger] init[j].0) by {
                assert(init[i] == s[i] && init[j] == s[j]);
            }
        }
        lemma_scan_position(init, k);
        let n = s.len() - 1;
        if key_lt(s[n].0, k) {
            assert forall|i: int| 0 <= i < s.len() implies key_lt(#[trigger] s[i].0, k) by {
                if i < n {
                    lemma_key_lt_transitive(s[i].0, s[n].0, k);
                }
            }
        } else {
            let q = scan_position(init, k);
            assert forall|i: int| 0 <= i < q implies key_lt(#[trigger] s[i].0, k) by {
                assert(init[i] == s[i]);
            }
            assert forall|i: int| q <= i < s.len() implies !key_lt(#[trigger] s[i].0, k) by {
                if i < n {
                    assert(init[i] == s[i]);
                }
            }
        }
    }
    lemma_insertion_point(s, k, scan_position(s, k));
}

/// Two different keys are ordered one way or the other.
pub proof fn lemma_key_order_total(a: Seq<char>, b: Seq<char>)
    ensures
        a == b || key_lt(a, b) || key_lt(b, a),
{
    if a != b {
        lemma_first_difference_index(a, b, 0);
        let n = first_difference_index(a, b, 0);
        assert(first_difference(b, a, n));
        if n == a.len() && n == b.len() {
            assert(a =~= b);
        } else if n == a.len() {
            assert(key_lt(a, b));
        } else if n == b.len() {
            assert(key_lt(b, a));
        } else {
            let x = a[n];
            let y = b[n];
            assert(x != y);
            assert((x as u32) != (y as u32)) by {
                vstd::utf8::char_u32_cast(x, x as u32);
                vstd::utf8::char_u32_cast(y, y as u32);
            }
            if (x as u32) < (y as u32) {
                assert(key_lt(a, b));
            } else {
                assert(key_lt(b, a));
            }
        }
    }
}

/// The first place from `i` on where `a` and `b` differ or one ends.
spec fn first_difference_index(a: Seq<char>, b: Seq<char>, i: nat) -> int
    decreases a.len() - i,
{
    if i >= a.len() || i >= b.len() || a[i as int] != b[i as int] {
        i as int
    } else {
        first_difference_index(a, b, i + 1)
    }
}

proof fn lemma_first_difference_index(a: Seq<char>, b: Seq<char>, i: nat)
    requires
        i <= a.len(),
        i <= b.len(),
        forall|j: int| 0 <= j < i ==> a[j] == b[j],
    ensures
        ({
            let n = first_difference_index(a, b, i);
            &&& first_difference(a, b, n)
            &&& (n == a.len() || n == b.len() || a[n] != b[n])
            &&& forall|m: int| 0 <= m < n ==> !(m == a.len() || m == b.len() || a[m] != b[m])
        }),
    decreases a.len() - i,
{
    if !(i >= a.len() || i >= b.len() || a[i as int] != b[i as int]) {
        lemma_first_difference_index(a, b, i + 1);
    }
}

} // verus!
