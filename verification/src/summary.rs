//! Counting tags: how often each tag is carried, and which are carried most.

use crate::order::{insert_sorted, keyed_views, sorted_by_key, values_of};
use crate::records::{is_key, occurrences};
use crate::text::{lemma_views_push, views, Duplicate};
use vstd::prelude::*;

verus! {

/// A tag with the number of times tasks carry it. The counts of a summary
/// stand in a vector, in the order in which the tags appear first: a hash
/// map with strings for keys has no meaning that Verus could prove
/// anything of, and no order of its own.
#[derive(Debug)]
pub struct TagCount {
    pub tag: String,
    pub count: usize,
}

impl View for TagCount {
    type V = (Seq<char>, nat);

    open spec fn view(&self) -> (Seq<char>, nat) {
        (self.tag@, self.count as nat)
    }
}

impl Duplicate for TagCount {
    fn duplicate(&self) -> (r: TagCount) {
        TagCount { tag: self.tag.clone(), count: self.count }
    }
}

impl Clone for TagCount {
    fn clone(&self) -> (r: TagCount)
        ensures
            r@ == self@,
    {
        self.duplicate()
    }
}

/// How many tags a summary names at most.
pub const TOP_TAGS: usize = 10;

/// The tags of `tags`, each once, in the order in which they appear first.
pub open spec fn first_appearances(tags: Seq<Seq<char>>) -> Seq<Seq<char>>
    decreases tags.len(),
{
    if tags.len() == 0 {
        Seq::empty()
    } else if tags.drop_last().contains(tags.last()) {
        first_appearances(tags.drop_last())
    } else {
        first_appearances(tags.drop_last()).push(tags.last())
    }
}

/// Each tag of `tags` with the number of times it stands there, in the
/// order in which the tags appear first.
pub open spec fn tag_counts(tags: Seq<Seq<char>>) -> Seq<(Seq<char>, nat)> {
    first_appearances(tags).map_values(|t: Seq<char>| (t, occurrences(tags, t)))
}

/// The counts, each with a key that falls as the count rises.
pub open spec fn keyed_by_count(counts: Seq<(Seq<char>, nat)>) -> Seq<(int, (Seq<char>, nat))> {
    counts.map_values(|c: (Seq<char>, nat)| (-(c.1 as int), c))
}

/// The first `n` items of `s`, or all of them where there are fewer.
pub open spec fn first_n<T>(s: Seq<T>, n: int) -> Seq<T> {
    if s.len() <= n {
        s
    } else {
        s.take(n)
    }
}

/// The ten tags that stand most often in `tags`, from the most frequent on;
/// tags of equal count in the order in which they appear first.
pub open spec fn top_tags(tags: Seq<Seq<char>>) -> Seq<(Seq<char>, nat)> {
    first_n(values_of(sorted_by_key(keyed_by_count(tag_counts(tags)))), TOP_TAGS as int)
}

/// The first appearances of tags hold every tag, and each once.
pub proof fn lemma_first_appearances(tags: Seq<Seq<char>>)
    ensures
        forall|t: Seq<char>| #[trigger] first_appearances(tags).contains(t) <==> tags.contains(t),
        first_appearances(tags).no_duplicates(),
        first_appearances(tags).len() <= tags.len(),
    decreases tags.len(),
{
    let out = first_appearances(tags);
    if tags.len() > 0 {
        let head = tags.drop_last();
        let last = tags.last();
        lemma_first_appearances(head);
        let inner = first_appearances(head);
        assert forall|t: Seq<char>| #[trigger] out.contains(t) <==> tags.contains(t) by {
            if out.contains(t) {
                let k = choose|k: int| 0 <= k < out.len() && out[k] == t;
                if k < inner.len() {
                    assert(inner[k] == t);
                    assert(inner.contains(t));
                    assert(head.contains(t));
                    let m = choose|m: int| 0 <= m < head.len() && head[m] == t;
                    assert(tags[m] == t);
                } else {
                    assert(tags[tags.len() - 1] == t);
                }
            }
            if tags.contains(t) {
                let m = choose|m: int| 0 <= m < tags.len() && tags[m] == t;
                if m < head.len() {
                    assert(head[m] == t);
                    assert(head.contains(t));
                    assert(inner.contains(t));
                    let k = choose|k: int| 0 <= k < inner.len() && inner[k] == t;
                    assert(out[k] == t);
                } else if head.contains(last) {
                    assert(inner.contains(t));
                } else {
                    assert(out[inner.len() as int] == t);
                }
            }
        }
        if !head.contains(last) {
            assert forall|i: int, j: int| 0 <= i < out.len() && 0 <= j < out.len() && i != j implies out[i]
                != out[j] by {
                if i == inner.len() {
                    assert(inner[j] == out[j]);
                    assert(inner.contains(out[j]));
                } else if j == inner.len() {
                    assert(inner[i] == out[i]);
                    assert(inner.contains(out[i]));
                } else {
                    assert(inner[i] == out[i] && inner[j] == out[j]);
                }
            }
        }
    }
}

/// One more tag counts once more.
pub proof fn lemma_occurrences_push(tags: Seq<Seq<char>>, tag: Seq<char>, key: Seq<char>)
    ensures
        occurrences(tags.push(tag), key) == occurrences(tags, key) + if tag == key {
            1nat
        } else {
            0nat
        },
        occurrences(tags, key) <= tags.len(),
        !tags.contains(key) ==> occurrences(tags, key) == 0,
{
    let p = is_key(key);
    tags.lemma_filter_push(tag, p);
    tags.lemma_filter_len(p);
    if !tags.contains(key) {
        assert(tags.all(|x: Seq<char>| !p(x))) by {
            assert forall|i: int| 0 <= i < tags.len() implies !p(#[trigger] tags[i]) by {
                assert(tags.contains(tags[i]));
            }
        }
        tags.lemma_all_neg_filter_empty(p);
    }
}

/// Counts the tags.
pub fn count_tags(tags: &Vec<&String>) -> (counts: Vec<TagCount>)
    ensures
        views(counts@) == tag_counts(views(tags@)),
{
    let ghost all = views(tags@);
    let mut counts: Vec<TagCount> = Vec::new();
    let mut i: usize = 0;
    proof {
        assert(all.take(0) =~= Seq::empty());
        assert(views(counts@) =~= tag_counts(all.take(0)));
    }
    while i < tags.len()
        invariant
            i <= tags.len(),
            all == views(tags@),
            views(counts@) == tag_counts(all.take(i as int)),
        decreases tags.len() - i,
    {
        let tag: &String = tags[i];
        let ghost seen = all.take(i as int);
        let ghost names = first_appearances(seen);
        let ghost before = views(counts@);
        proof {
            assert(all.take(i + 1).drop_last() =~= seen);
            assert(all.take(i + 1).last() == tag@);
            assert(seen.push(tag@) =~= all.take(i + 1));
            lemma_first_appearances(seen);
            assert(views(counts@).len() == names.len());
            assert(counts@.len() == names.len());
        }
        let mut k: usize = 0;
        while k < counts.len() && counts[k].tag != *tag
            invariant
                k <= counts.len(),
                before == views(counts@),
                forall|m: int| 0 <= m < k ==> (#[trigger] before[m]).0 != tag@,
            decreases counts.len() - k,
        {
            k = k + 1;
        }
        if k < counts.len() {
            proof {
                assert(before[k as int].0 == tag@);
                assert(names[k as int] == tag@);
                assert(names.contains(tag@));
                assert(seen.contains(tag@));
                lemma_occurrences_push(seen, tag@, tag@);
            }
            let old_count = counts.remove(k);
            let new_count = TagCount { tag: old_count.tag, count: old_count.count + 1 };
            counts.insert(k, new_count);
            proof {
                let after = views(counts@);
                let wanted = tag_counts(all.take(i + 1));
                assert(after.len() == wanted.len());
                assert forall|m: int| 0 <= m < after.len() implies after[m] == wanted[m] by {
                    lemma_occurrences_push(seen, tag@, names[m]);
                    if m == k {
                    } else {
                        assert(after[m] == before[m]);
                        assert(names[m] != names[k as int]);
                    }
                }
                assert(after =~= wanted);
            }
        } else {
            proof {
                if seen.contains(tag@) {
                    assert(names.contains(tag@));
                    let m = choose|m: int| 0 <= m < names.len() && names[m] == tag@;
                    assert(before[m].0 == tag@);
                }
                lemma_occurrences_push(seen, tag@, tag@);
            }
            let ghost raw = counts@;
            let fresh = TagCount { tag: tag.clone(), count: 1 };
            counts.push(fresh);
            proof {
                lemma_views_push(raw, fresh);
                let after = views(counts@);
                let wanted = tag_counts(all.take(i + 1));
                assert(after.len() == wanted.len());
                assert forall|m: int| 0 <= m < after.len() implies after[m] == wanted[m] by {
                    if m < names.len() {
                        lemma_occurrences_push(seen, tag@, names[m]);
                        assert(after[m] == before[m]);
                        assert(names.contains(names[m]));
                    }
                }
                assert(after =~= wanted);
            }
        }
        i = i + 1;
    }
    assert(all.take(tags.len() as int) =~= all);
    counts
}

/// The pairs of a tag and a number, as values.
pub open spec fn pair_views(pairs: Seq<(String, usize)>) -> Seq<(Seq<char>, nat)> {
    pairs.map_values(|p: (String, usize)| (p.0@, p.1 as nat))
}

/// The ten most frequent of the counted tags.
pub fn most_frequent(counts: &Vec<TagCount>) -> (top: Vec<(String, usize)>)
    ensures
        pair_views(top@) == first_n(
            values_of(sorted_by_key(keyed_by_count(views(counts@)))),
            TOP_TAGS as int,
        ),
{
    let ghost all = views(counts@);
    let ghost keyed_all = keyed_by_count(all);
    let mut keyed: Vec<(i128, &TagCount)> = Vec::new();
    let mut i: usize = 0;
    proof {
        assert(keyed_all.take(0) =~= Seq::empty());
        assert(keyed_views(keyed@) =~= Seq::empty());
    }
    while i < counts.len()
        invariant
            i <= counts.len(),
            all == views(counts@),
            keyed_all == keyed_by_count(all),
            keyed_views(keyed@) == sorted_by_key(keyed_all.take(i as int)),
        decreases counts.len() - i,
    {
        let count: &TagCount = &counts[i];
        proof {
            assert(keyed_all.take(i + 1).drop_last() =~= keyed_all.take(i as int));
            assert(keyed_all.take(i + 1).last() == (-(count.count as int), count@));
        }
        insert_sorted(&mut keyed, -(count.count as i128), count);
        i = i + 1;
    }
    assert(keyed_all.take(counts.len() as int) =~= keyed_all);
    let ghost sorted = values_of(keyed_views(keyed@));
    let limit: usize = if keyed.len() <= TOP_TAGS {
        keyed.len()
    } else {
        TOP_TAGS
    };
    let mut top: Vec<(String, usize)> = Vec::new();
    let mut k: usize = 0;
    assert(pair_views(top@) =~= sorted.take(0));
    while k < limit
        invariant
            k <= limit <= keyed.len(),
            sorted == values_of(keyed_views(keyed@)),
            pair_views(top@) == sorted.take(k as int),
        decreases limit - k,
    {
        let count: &TagCount = keyed[k].1;
        let ghost before = pair_views(top@);
        let pair = (count.tag.clone(), count.count);
        top.push(pair);
        proof {
            assert(keyed_views(keyed@)[k as int].1 == count@);
            assert(sorted[k as int] == count@);
            assert(pair_views(top@) =~= before.push((pair.0@, pair.1 as nat)));
            assert(pair_views(top@) =~= sorted.take(k + 1));
        }
        k = k + 1;
    }
    proof {
        if sorted.len() <= TOP_TAGS {
            assert(sorted.take(limit as int) =~= sorted);
        }
    }
    top
}

} // verus!
