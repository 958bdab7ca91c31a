//! Price-keyed tables kept as sequences sorted by strictly increasing price.
//!
//! Footprints, volume profiles, TPO profiles and the two sides of the order book
//! are all maps from a price to some value; they are stored as a `Vec` of
//! `(price, value)` pairs whose prices strictly increase, which gives ordered
//! iteration and a unique entry per price.
//!
//! Every one of these tables is read in price order by position: the best
//! levels and the ordered snapshot of the book, the value area grown row by row
//! from the point of control, the fixed window around an anchor. The contracts
//! over them are therefore stated over the sorted sequence itself. vstd models
//! a `BTreeMap` only as an unordered `Map` and specifies no first or last key
//! and no range, so an ordered map would give these readings no contract
//! without a full ordered copy of its entries.
use vstd::prelude::*;

verus! {

/// Prices strictly increase along the table.
pub open spec fn keys_sorted<V>(s: Seq<(i64, V)>) -> bool {
    forall|i: int, j: int| 0 <= i < j < s.len() ==> #[trigger] s[i].0 < #[trigger] s[j].0
}

/// The table has an entry at price `p`.
pub open spec fn has_key<V>(s: Seq<(i64, V)>, p: i64) -> bool {
    exists|i: int| 0 <= i < s.len() && #[trigger] s[i].0 == p
}

/// The value stored at price `p`, if any.
pub open spec fn lookup<V>(s: Seq<(i64, V)>, p: i64) -> Option<V> {
    if has_key(s, p) {
        Some(s[choose|i: int| 0 <= i < s.len() && #[trigger] s[i].0 == p].1)
    } else {
        None
    }
}

/// The value stored at price `p`, or `d` when there is none.
pub open spec fn lookup_or<V>(s: Seq<(i64, V)>, p: i64, d: V) -> V {
    match lookup(s, p) {
        Some(v) => v,
        None => d,
    }
}

/// In a sorted table, the entry at index `i` is what `lookup` finds at its price.
pub proof fn lemma_lookup_at<V>(s: Seq<(i64, V)>, i: int)
    requires
        keys_sorted(s),
        0 <= i < s.len(),
    ensures
        has_key(s, s[i].0),
        lookup(s, s[i].0) == Some(s[i].1),
{
    assert(s[i].0 == s[i].0);
    let j = choose|j: int| 0 <= j < s.len() && #[trigger] s[j].0 == s[i].0;
    if j < i {
        assert(s[j].0 < s[i].0);
    } else if i < j {
        assert(s[i].0 < s[j].0);
    }
}

/// Every entry of a sorted table is what `lookup` finds at its price.
pub proof fn lemma_lookup_all<V>(s: Seq<(i64, V)>)
    requires
        keys_sorted(s),
    ensures
        forall|i: int| 0 <= i < s.len() ==> lookup(s, #[trigger] s[i].0) == Some(s[i].1),
{
    assert forall|i: int| 0 <= i < s.len() implies lookup(s, #[trigger] s[i].0) == Some(s[i].1) by {
        lemma_lookup_at(s, i);
    }
}

/// Inserting a new price at its sorted position keeps the table sorted and adds
/// exactly that entry.
pub proof fn lemma_insert<V>(s: Seq<(i64, V)>, i: int, p: i64, v: V)
    requires
        keys_sorted(s),
        0 <= i <= s.len(),
        forall|j: int| 0 <= j < i ==> #[trigger] s[j].0 < p,
        forall|j: int| i <= j < s.len() ==> #[trigger] s[j].0 > p,
    ensures
        keys_sorted(s.insert(i, (p, v))),
        forall|q: i64| #[trigger]
            lookup(s.insert(i, (p, v)), q) == if q == p {
                Some(v)
            } else {
                lookup(s, q)
            },
{
    let t = s.insert(i, (p, v));
    assert forall|a: int, b: int| 0 <= a < b < t.len() implies #[trigger] t[a].0 < #[trigger] t[b].0 by {
        if b < i {
        } else if b == i {
        } else if a < i {
        } else if a == i {
        } else {
            assert(t[a] == s[a - 1]);
            assert(t[b] == s[b - 1]);
        }
    }
    lemma_lookup_all(s);
    lemma_lookup_all(t);
    assert forall|q: i64| #[trigger]
        lookup(t, q) == if q == p {
            Some(v)
        } else {
            lookup(s, q)
        } by {
        if q == p {
            assert(t[i].0 == p);
        } else if has_key(s, q) {
            let j = choose|j: int| 0 <= j < s.len() && #[trigger] s[j].0 == q;
            if j < i {
                assert(t[j] == s[j]);
            } else {
                assert(t[j + 1] == s[j]);
            }
        } else if has_key(t, q) {
            let j = choose|j: int| 0 <= j < t.len() && #[trigger] t[j].0 == q;
            if j < i {
                assert(t[j] == s[j]);
            } else if j > i {
                assert(t[j] == s[j - 1]);
            }
        }
    }
}

/// Replacing the value of an existing entry keeps the table sorted and changes
/// only that price.
pub proof fn lemma_update<V>(s: Seq<(i64, V)>, i: int, v: V)
    requires
        keys_sorted(s),
        0 <= i < s.len(),
    ensures
        keys_sorted(s.update(i, (s[i].0, v))),
        forall|q: i64| #[trigger]
            lookup(s.update(i, (s[i].0, v)), q) == if q == s[i].0 {
                Some(v)
            } else {
                lookup(s, q)
            },
{
    let p = s[i].0;
    let t = s.update(i, (p, v));
    assert forall|a: int, b: int| 0 <= a < b < t.len() implies #[trigger] t[a].0 < #[trigger] t[b].0 by {
        assert(t[a].0 == s[a].0);
        assert(t[b].0 == s[b].0);
    }
    lemma_lookup_all(s);
    lemma_lookup_all(t);
    assert forall|q: i64| #[trigger]
        lookup(t, q) == if q == p {
            Some(v)
        } else {
            lookup(s, q)
        } by {
        if q == p {
            assert(t[i].0 == p);
        } else if has_key(s, q) {
            let j = choose|j: int| 0 <= j < s.len() && #[trigger] s[j].0 == q;
            assert(t[j] == s[j]);
        } else if has_key(t, q) {
            let j = choose|j: int| 0 <= j < t.len() && #[trigger] t[j].0 == q;
            assert(t[j] == s[j]);
        }
    }
}

/// Removing an entry keeps the table sorted and drops exactly that price.
pub proof fn lemma_remove<V>(s: Seq<(i64, V)>, i: int)
    requires
        keys_sorted(s),
        0 <= i < s.len(),
    ensures
        keys_sorted(s.remove(i)),
        forall|q: i64| #[trigger]
            lookup(s.remove(i), q) == if q == s[i].0 {
                None
            } else {
                lookup(s, q)
            },
{
    let p = s[i].0;
    let t = s.remove(i);
    assert forall|a: int, b: int| 0 <= a < b < t.len() implies #[trigger] t[a].0 < #[trigger] t[b].0 by {
        if b < i {
        } else if a < i {
            assert(t[b] == s[b + 1]);
        } else {
            assert(t[a] == s[a + 1]);
            assert(t[b] == s[b + 1]);
        }
    }
    lemma_lookup_all(s);
    lemma_lookup_all(t);
    assert forall|q: i64| #[trigger]
        lookup(t, q) == if q == p {
            None
        } else {
            lookup(s, q)
        } by {
        if has_key(t, q) {
            let j = choose|j: int| 0 <= j < t.len() && #[trigger] t[j].0 == q;
            if j < i {
                assert(t[j] == s[j]);
                assert(s[j].0 < s[i].0);
            } else {
                assert(t[j] == s[j + 1]);
                assert(s[i].0 < s[j + 1].0);
            }
        } else if has_key(s, q) {
            let j = choose|j: int| 0 <= j < s.len() && #[trigger] s[j].0 == q;
            if j < i {
                assert(t[j] == s[j]);
            } else if j > i {
                assert(t[j - 1] == s[j]);
            }
        }
    }
}

/// Where a price stands in a sorted table.
///
/// `Ok(i)`: the entry at `i` has price `p`. `Err(i)`: there is no entry at `p`,
/// and `i` is the index at which it would be inserted to keep the order.
pub fn find<V>(v: &Vec<(i64, V)>, p: i64) -> (r: Result<usize, usize>)
    requires
        keys_sorted(v@),
    ensures
        match r {
            Ok(i) => i < v@.len() && v@[i as int].0 == p,
            Err(i) => {
                &&& i <= v@.len()
                &&& forall|j: int| 0 <= j < i ==> #[trigger] v@[j].0 < p
                &&& forall|j: int| i <= j < v@.len() ==> #[trigger] v@[j].0 > p
                &&& !has_key(v@, p)
            },
        },
{
    let mut lo: usize = 0;
    let mut hi: usize = v.len();
    while lo < hi
        invariant
            keys_sorted(v@),
            lo <= hi <= v@.len(),
            forall|j: int| 0 <= j < lo ==> #[trigger] v@[j].0 < p,
            forall|j: int| hi <= j < v@.len() ==> #[trigger] v@[j].0 > p,
        decreases hi - lo,
    {
        let mid = lo + (hi - lo) / 2;
        let k = v[mid].0;
        if k == p {
            return Ok(mid);
        } else if k < p {
            lo = mid + 1;
        } else {
            hi = mid;
        }
    }
    proof {
        assert forall|j: int| 0 <= j < v@.len() implies #[trigger] v@[j].0 != p by {
            if j < lo {
            } else {
            }
        }
    }
    Err(lo)
}

/// The first entry of a non-empty sorted table holds its smallest price.
proof fn lemma_first_is_least<V>(s: Seq<(i64, V)>, p: i64)
    requires
        keys_sorted(s),
        has_key(s, p),
    ensures
        s.len() > 0,
        s[0].0 <= p,
{
    let j = choose|j: int| 0 <= j < s.len() && #[trigger] s[j].0 == p;
    if j > 0 {
        assert(s[0].0 < s[j].0);
    }
}

/// Two sorted tables that hold the same entry at every price are equal.
pub proof fn lemma_table_ext<V>(a: Seq<(i64, V)>, b: Seq<(i64, V)>)
    requires
        keys_sorted(a),
        keys_sorted(b),
        forall|q: i64| #[trigger] lookup(a, q) == lookup(b, q),
    ensures
        a == b,
    decreases a.len() + b.len(),
{
    if a.len() == 0 && b.len() == 0 {
        assert(a =~= b);
    } else if a.len() == 0 {
        lemma_lookup_at(b, 0);
        assert(lookup(a, b[0].0) == lookup(b, b[0].0));
    } else if b.len() == 0 {
        lemma_lookup_at(a, 0);
        assert(lookup(a, a[0].0) == lookup(b, a[0].0));
    } else {
        lemma_lookup_at(a, 0);
        lemma_lookup_at(b, 0);
        assert(lookup(a, a[0].0) == lookup(b, a[0].0));
        assert(lookup(a, b[0].0) == lookup(b, b[0].0));
        lemma_first_is_least(b, a[0].0);
        lemma_first_is_least(a, b[0].0);
        assert(a[0].0 == b[0].0);
        assert(a[0] == b[0]);
        lemma_remove(a, 0);
        lemma_remove(b, 0);
        assert forall|q: i64| #[trigger] lookup(a.remove(0), q) == lookup(b.remove(0), q) by {
            assert(lookup(a, q) == lookup(b, q));
        }
        lemma_table_ext(a.remove(0), b.remove(0));
        assert forall|i: int| 0 <= i < a.len() implies a[i] == b[i] by {
            if i > 0 {
                assert(a[i] == a.remove(0)[i - 1]);
                assert(b[i] == b.remove(0)[i - 1]);
            }
        }
        assert(a.len() == a.remove(0).len() + 1);
        assert(a =~= b);
    }
}

} // verus!
