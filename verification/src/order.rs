//! Stable sorting by an integer key.

use vstd::prelude::*;

verus! {

/// `sorted` with `x` put behind every item whose key is not greater than
/// that of `x`, and before the items behind those.
pub open spec fn insert_by_key<V>(sorted: Seq<(int, V)>, x: (int, V)) -> Seq<(int, V)>
    decreases sorted.len(),
{
    if sorted.len() == 0 {
        seq![x]
    } else if sorted.last().0 <= x.0 {
        sorted.push(x)
    } else {
        insert_by_key(sorted.drop_last(), x).push(sorted.last())
    }
}

/// The items of `s` in ascending order of their keys; items with equal keys
/// keep the order they have in `s`.
pub open spec fn sorted_by_key<V>(s: Seq<(int, V)>) -> Seq<(int, V)>
    decreases s.len(),
{
    if s.len() == 0 {
        Seq::empty()
    } else {
        insert_by_key(sorted_by_key(s.drop_last()), s.last())
    }
}

/// The keys of `s` never fall.
pub open spec fn is_ascending<V>(s: Seq<(int, V)>) -> bool {
    forall|i: int, j: int| 0 <= i < j < s.len() ==> (#[trigger] s[i]).0 <= (#[trigger] s[j]).0
}

/// The items with their keys as integers and their values as views.
pub open spec fn keyed_views<T: View>(s: Seq<(i128, T)>) -> Seq<(int, T::V)> {
    s.map_values(|p: (i128, T)| (p.0 as int, p.1@))
}

/// The values of keyed items, without the keys.
pub open spec fn values_of<V>(s: Seq<(int, V)>) -> Seq<V> {
    s.map_values(|p: (int, V)| p.1)
}

/// Inserting by key is inserting at the position where the greater keys begin.
pub proof fn lemma_insert_by_key_at<V>(s: Seq<(int, V)>, x: (int, V), pos: int)
    requires
        0 <= pos <= s.len(),
        forall|k: int| pos <= k < s.len() ==> (#[trigger] s[k]).0 > x.0,
        pos > 0 ==> s[pos - 1].0 <= x.0,
    ensures
        insert_by_key(s, x) == s.insert(pos, x),
    decreases s.len(),
{
    if s.len() == 0 {
        assert(s.insert(pos, x) =~= seq![x]);
    } else if pos == s.len() {
        assert(s.insert(pos, x) =~= s.push(x));
    } else {
        assert(s.last() == s[s.len() - 1]);
        let t = s.drop_last();
        assert forall|k: int| pos <= k < t.len() implies (#[trigger] t[k]).0 > x.0 by {
            assert(t[k] == s[k]);
        }
        if pos > 0 {
            assert(t[pos - 1] == s[pos - 1]);
        }
        lemma_insert_by_key_at(t, x, pos);
        assert(t.insert(pos, x).push(s.last()) =~= s.insert(pos, x));
    }
}

/// Inserting by key keeps an ascending sequence ascending, and holds the
/// items of the sequence and the new one, no others.
pub proof fn lemma_insert_by_key<V>(s: Seq<(int, V)>, x: (int, V))
    requires
        is_ascending(s),
    ensures
        is_ascending(insert_by_key(s, x)),
        insert_by_key(s, x).len() == s.len() + 1,
        forall|y: (int, V)| #[trigger] insert_by_key(s, x).contains(y) <==> (s.contains(y) || y == x),
    decreases s.len(),
{
    let r = insert_by_key(s, x);
    if s.len() == 0 {
        assert(r[0] == x);
        assert forall|y: (int, V)| #[trigger] r.contains(y) <==> (s.contains(y) || y == x) by {
            if r.contains(y) {
                let k = choose|k: int| 0 <= k < r.len() && r[k] == y;
                assert(r[k] == x);
            }
            if y == x {
                assert(r[0] == y);
            }
        }
    } else if s.last().0 <= x.0 {
        assert forall|i: int, j: int| 0 <= i < j < r.len() implies (#[trigger] r[i]).0 <= (
        #[trigger] r[j]).0 by {
            if j == s.len() {
                assert(r[i] == s[i]);
                if i < s.len() - 1 {
                    assert(s[i].0 <= s[s.len() - 1].0);
                }
            } else {
                assert(r[i] == s[i] && r[j] == s[j]);
            }
        }
        assert forall|y: (int, V)| #[trigger] r.contains(y) <==> (s.contains(y) || y == x) by {
            if r.contains(y) {
                let k = choose|k: int| 0 <= k < r.len() && r[k] == y;
                if k < s.len() {
                    assert(s[k] == y);
                }
            }
            if s.contains(y) {
                let k = choose|k: int| 0 <= k < s.len() && s[k] == y;
                assert(r[k] == y);
            }
            if y == x {
                assert(r[s.len() as int] == y);
            }
        }
    } else {
        let t = s.drop_last();
        assert(is_ascending(t)) by {
            assert forall|i: int, j: int| 0 <= i < j < t.len() implies (#[trigger] t[i]).0 <= (
            #[trigger] t[j]).0 by {
                assert(t[i] == s[i] && t[j] == s[j]);
            }
        }
        lemma_insert_by_key(t, x);
        let u = insert_by_key(t, x);
        assert forall|i: int, j: int| 0 <= i < j < r.len() implies (#[trigger] r[i]).0 <= (
        #[trigger] r[j]).0 by {
            if j == u.len() {
                assert(r[i] == u[i]);
                assert(u.contains(u[i]));
                if u[i] != x {
                    assert(t.contains(u[i]));
                    let k = choose|k: int| 0 <= k < t.len() && t[k] == u[i];
                    assert(s[k] == u[i]);
                    assert(s[k].0 <= s[s.len() - 1].0);
                }
            } else {
                assert(r[i] == u[i] && r[j] == u[j]);
            }
        }
        assert forall|y: (int, V)| #[trigger] r.contains(y) <==> (s.contains(y) || y == x) by {
            if r.contains(y) {
                let k = choose|k: int| 0 <= k < r.len() && r[k] == y;
                if k < u.len() {
                    assert(u[k] == y);
                    assert(u.contains(y));
                    if t.contains(y) {
                        let m = choose|m: int| 0 <= m < t.len() && t[m] == y;
                        assert(s[m] == y);
                    }
                } else {
                    assert(s[s.len() - 1] == y);
                }
            }
            if s.contains(y) {
                let k = choose|k: int| 0 <= k < s.len() && s[k] == y;
                if k < t.len() {
                    assert(t[k] == y);
                    assert(t.contains(y));
                    assert(u.contains(y));
                    let m = choose|m: int| 0 <= m < u.len() && u[m] == y;
                    assert(r[m] == y);
                } else {
                    assert(r[u.len() as int] == y);
                }
            }
            if y == x {
                assert(u.contains(x));
                let m = choose|m: int| 0 <= m < u.len() && u[m] == x;
                assert(r[m] == y);
            }
        }
    }
}

/// Sorting yields an ascending sequence of the very items that were given.
pub proof fn lemma_sorted_by_key<V>(s: Seq<(int, V)>)
    ensures
        is_ascending(sorted_by_key(s)),
        sorted_by_key(s).len() == s.len(),
        forall|y: (int, V)| #[trigger] sorted_by_key(s).contains(y) <==> s.contains(y),
    decreases s.len(),
{
    if s.len() > 0 {
        let t = s.drop_last();
        lemma_sorted_by_key(t);
        lemma_insert_by_key(sorted_by_key(t), s.last());
        let r = sorted_by_key(s);
        assert forall|y: (int, V)| #[trigger] r.contains(y) <==> s.contains(y) by {
            if r.contains(y) && y != s.last() {
                assert(sorted_by_key(t).contains(y));
                assert(t.contains(y));
                let k = choose|k: int| 0 <= k < t.len() && t[k] == y;
                assert(s[k] == y);
            }
            if y == s.last() {
                assert(s[s.len() - 1] == y);
            }
            if s.contains(y) {
                let k = choose|k: int| 0 <= k < s.len() && s[k] == y;
                if k < t.len() {
                    assert(t[k] == y);
                    assert(t.contains(y));
                }
            }
        }
    }
}

/// Puts `item` into the sorted `out` by its key.
pub fn insert_sorted<T: View>(out: &mut Vec<(i128, T)>, key: i128, item: T)
    ensures
        keyed_views(final(out)@) == insert_by_key(keyed_views(old(out)@), (key as int, item@)),
{
    let mut pos: usize = out.len();
    while pos > 0 && out[pos - 1].0 > key
        invariant
            pos <= out.len(),
            out@ == old(out)@,
            forall|k: int| pos <= k < out.len() ==> (#[trigger] out@[k]).0 > key,
        decreases pos,
    {
        pos = pos - 1;
    }
    let ghost before = keyed_views(out@);
    out.insert(pos, (key, item));
    proof {
        assert forall|k: int| pos <= k < before.len() implies (#[trigger] before[k]).0 > key by {
            assert(old(out)@[k].0 > key);
        }
        lemma_insert_by_key_at(before, (key as int, item@), pos as int);
        assert(keyed_views(out@) =~= before.insert(pos as int, (key as int, item@)));
    }
}

} // verus!
