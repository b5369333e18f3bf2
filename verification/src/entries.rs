//! Entries in ascending key order: how tags and fields are kept, so that
//! they are written in one order whatever the order in which they came.

use crate::text::{
    lemma_text_lt_asymmetric, lemma_text_lt_irreflexive, lemma_text_lt_total,
    lemma_text_lt_transitive, order_of, text_lt, TextOrder,
};
use vstd::prelude::*;

verus! {

/// Entries are in strictly ascending key order, so no key occurs twice.
pub open spec fn ascending<W>(entries: Seq<(Seq<char>, W)>) -> bool {
    forall|i: int, j: int| 0 <= i < j < entries.len() ==> text_lt(entries[i].0, entries[j].0)
}

/// The entries with `(key, value)` put in its place: a new entry goes where
/// the order asks, an entry that already has the key is replaced.
pub open spec fn put<W>(entries: Seq<(Seq<char>, W)>, key: Seq<char>, value: W) -> Seq<
    (Seq<char>, W),
>
    decreases entries.len(),
{
    if entries.len() == 0 {
        seq![(key, value)]
    } else if text_lt(entries[0].0, key) {
        seq![entries[0]] + put(entries.drop_first(), key, value)
    } else if entries[0].0 == key {
        seq![(key, value)] + entries.drop_first()
    } else {
        seq![(key, value)] + entries
    }
}

/// The mapping that a sequence of entries stands for; of two entries with one
/// key the later one counts.
pub open spec fn as_map<W>(entries: Seq<(Seq<char>, W)>) -> Map<Seq<char>, W>
    decreases entries.len(),
{
    if entries.len() == 0 {
        Map::empty()
    } else {
        as_map(entries.drop_last()).insert(entries.last().0, entries.last().1)
    }
}

/// `put` keeps the order, and brings in nothing but the new entry: every
/// other entry of the result is an entry that was there, under another key.
pub proof fn lemma_put_keys<W>(entries: Seq<(Seq<char>, W)>, key: Seq<char>, value: W)
    requires
        ascending(entries),
    ensures
        ascending(put(entries, key, value)),
        forall|i: int|
            0 <= i < put(entries, key, value).len() ==> {
                ||| #[trigger] put(entries, key, value)[i] == (key, value)
                ||| exists|j: int|
                    0 <= j < entries.len() && entries[j] == put(entries, key, value)[i]
                        && entries[j].0 != key
            },
    decreases entries.len(),
{
    let out = put(entries, key, value);
    if entries.len() == 0 {
    } else if text_lt(entries[0].0, key) {
        let rest = entries.drop_first();
        lemma_put_keys(rest, key, value);
        let tail = put(rest, key, value);
        assert(out =~= seq![entries[0]] + tail);
        assert forall|i: int, j: int| 0 <= i < j < out.len() implies text_lt(
            out[i].0,
            out[j].0,
        ) by {
            if i == 0 {
                let e = tail[j - 1];
                if e == (key, value) {
                } else {
                    let w = choose|w: int| 0 <= w < rest.len() && rest[w] == e && rest[w].0 != key;
                    assert(rest[w] == entries[w + 1]);
                }
            } else {
                assert(out[i] == tail[i - 1]);
                assert(out[j] == tail[j - 1]);
            }
        }
        assert forall|i: int| 0 <= i < out.len() implies {
            ||| #[trigger] out[i] == (key, value)
            ||| exists|j: int| 0 <= j < entries.len() && entries[j] == out[i] && entries[j].0 != key
        } by {
            if i == 0 {
                lemma_text_lt_irreflexive(key);
                assert(entries[0] == out[0] && entries[0].0 != key);
            } else {
                let e = tail[i - 1];
                assert(out[i] == e);
                if e != (key, value) {
                    let w = choose|w: int| 0 <= w < rest.len() && rest[w] == e && rest[w].0 != key;
                    assert(entries[w + 1] == out[i] && entries[w + 1].0 != key);
                }
            }
        }
    } else if entries[0].0 == key {
        let rest = entries.drop_first();
        assert(out =~= seq![(key, value)] + rest);
        assert forall|i: int, j: int| 0 <= i < j < out.len() implies text_lt(
            out[i].0,
            out[j].0,
        ) by {
            assert(out[j] == entries[j]);
            if i > 0 {
                assert(out[i] == entries[i]);
            }
        }
        assert forall|i: int| 0 <= i < out.len() implies {
            ||| #[trigger] out[i] == (key, value)
            ||| exists|j: int| 0 <= j < entries.len() && entries[j] == out[i] && entries[j].0 != key
        } by {
            if i > 0 {
                lemma_text_lt_irreflexive(key);
                assert(text_lt(entries[0].0, entries[i].0));
                assert(entries[i] == out[i] && entries[i].0 != key);
            }
        }
    } else {
        lemma_text_lt_total(entries[0].0, key);
        assert(out =~= seq![(key, value)] + entries);
        assert forall|i: int, j: int| 0 <= i < j < out.len() implies text_lt(
            out[i].0,
            out[j].0,
        ) by {
            assert(out[j] == entries[j - 1]);
            if i == 0 {
                if j - 1 > 0 {
                    lemma_text_lt_transitive(key, entries[0].0, entries[j - 1].0);
                }
            } else {
                assert(out[i] == entries[i - 1]);
            }
        }
        assert forall|i: int| 0 <= i < out.len() implies {
            ||| #[trigger] out[i] == (key, value)
            ||| exists|j: int| 0 <= j < entries.len() && entries[j] == out[i] && entries[j].0 != key
        } by {
            if i > 0 {
                lemma_text_lt_irreflexive(key);
                if i - 1 > 0 {
                    lemma_text_lt_transitive(key, entries[0].0, entries[i - 1].0);
                }
                assert(entries[i - 1] == out[i] && entries[i - 1].0 != key);
            }
        }
    }
}

/// A mapping built from entries holds exactly the keys of the entries.
pub proof fn lemma_as_map_keys<W>(entries: Seq<(Seq<char>, W)>)
    ensures
        forall|k: Seq<char>|
            as_map(entries).dom().contains(k) <==> exists|i: int|
                0 <= i < entries.len() && #[trigger] entries[i].0 == k,
    decreases entries.len(),
{
    if entries.len() > 0 {
        let front = entries.drop_last();
        lemma_as_map_keys(front);
        assert(as_map(entries).dom() =~= as_map(front).dom().insert(entries.last().0));
        assert forall|k: Seq<char>| as_map(entries).dom().contains(k) implies exists|i: int|
            0 <= i < entries.len() && #[trigger] entries[i].0 == k by {
            if k == entries.last().0 {
                assert(entries[entries.len() - 1].0 == k);
            } else {
                let i = choose|i: int| 0 <= i < front.len() && #[trigger] front[i].0 == k;
                assert(entries[i].0 == k);
            }
        }
        assert forall|k: Seq<char>|
            (exists|i: int|
                0 <= i < entries.len() && #[trigger] entries[i].0 == k) implies as_map(
            entries,
        ).dom().contains(k) by {
            let i = choose|i: int| 0 <= i < entries.len() && #[trigger] entries[i].0 == k;
            if i < entries.len() - 1 {
                assert(front[i].0 == k);
            }
        }
    }
}

/// In ascending entries, each entry's value is what the mapping gives its key.
pub proof fn lemma_as_map_values<W>(entries: Seq<(Seq<char>, W)>)
    requires
        ascending(entries),
    ensures
        forall|i: int|
            0 <= i < entries.len() ==> as_map(entries).dom().contains(#[trigger] entries[i].0)
                && as_map(entries)[entries[i].0] == entries[i].1,
    decreases entries.len(),
{
    if entries.len() > 0 {
        let front = entries.drop_last();
        lemma_as_map_values(front);
        assert forall|i: int| 0 <= i < entries.len() implies as_map(entries).dom().contains(
            #[trigger] entries[i].0,
        ) && as_map(entries)[entries[i].0] == entries[i].1 by {
            if i < entries.len() - 1 {
                assert(front[i] == entries[i]);
                assert(text_lt(entries[i].0, entries.last().0));
                lemma_text_lt_irreflexive(entries[i].0);
            }
        }
    }
}

/// Ascending entries are determined by the mapping they stand for: the order
/// in which the entries were put does not show.
pub proof fn lemma_ascending_unique<W>(a: Seq<(Seq<char>, W)>, b: Seq<(Seq<char>, W)>)
    requires
        ascending(a),
        ascending(b),
        as_map(a) == as_map(b),
    ensures
        a == b,
    decreases a.len(),
{
    lemma_as_map_keys(a);
    lemma_as_map_keys(b);
    lemma_as_map_values(a);
    lemma_as_map_values(b);
    if a.len() == 0 {
        if b.len() > 0 {
            assert(as_map(b).dom().contains(b[0].0));
            assert(false);
        }
        assert(a =~= b);
    } else if b.len() == 0 {
        assert(as_map(a).dom().contains(a[0].0));
        assert(false);
    } else {
        let x = a.last();
        let y = b.last();
        // The last entry of each holds the greatest key of the common mapping.
        assert(as_map(b).dom().contains(x.0));
        let i = choose|i: int| 0 <= i < b.len() && #[trigger] b[i].0 == x.0;
        assert(as_map(a).dom().contains(y.0));
        let j = choose|j: int| 0 <= j < a.len() && #[trigger] a[j].0 == y.0;
        if x.0 != y.0 {
            assert(text_lt(b[i].0, y.0));
            assert(text_lt(a[j].0, x.0));
            lemma_text_lt_asymmetric(x.0, y.0);
            assert(false);
        }
        assert(a[a.len() - 1].0 == x.0);
        assert(b[b.len() - 1].0 == y.0);
        assert(x.1 == y.1);
        assert(x == y);
        let fa = a.drop_last();
        let fb = b.drop_last();
        lemma_as_map_keys(fa);
        lemma_as_map_keys(fb);
        assert(!as_map(fa).dom().contains(x.0)) by {
            if as_map(fa).dom().contains(x.0) {
                let w = choose|w: int| 0 <= w < fa.len() && #[trigger] fa[w].0 == x.0;
                assert(text_lt(a[w].0, a[a.len() - 1].0));
                lemma_text_lt_irreflexive(x.0);
            }
        }
        assert(!as_map(fb).dom().contains(x.0)) by {
            if as_map(fb).dom().contains(x.0) {
                let w = choose|w: int| 0 <= w < fb.len() && #[trigger] fb[w].0 == x.0;
                assert(text_lt(b[w].0, b[b.len() - 1].0));
                lemma_text_lt_irreflexive(x.0);
            }
        }
        assert(as_map(fa) =~= as_map(a).remove(x.0));
        assert(as_map(fb) =~= as_map(b).remove(x.0));
        lemma_ascending_unique(fa, fb);
        assert(a =~= fa.push(x));
        assert(b =~= fb.push(y));
    }
}

/// `put` does to the entries what `insert` does to the mapping.
pub proof fn lemma_put_map<W>(entries: Seq<(Seq<char>, W)>, key: Seq<char>, value: W)
    requires
        ascending(entries),
    ensures
        as_map(put(entries, key, value)) == as_map(entries).insert(key, value),
{
    let out = put(entries, key, value);
    lemma_put_keys(entries, key, value);
    lemma_put_place(entries, key, value);
    lemma_as_map_keys(entries);
    lemma_as_map_keys(out);
    lemma_as_map_values(entries);
    lemma_as_map_values(out);
    let want = as_map(entries).insert(key, value);
    assert forall|k: Seq<char>| as_map(out).dom().contains(k) <==> want.dom().contains(k) by {
        if as_map(out).dom().contains(k) {
            let i = choose|i: int| 0 <= i < out.len() && #[trigger] out[i].0 == k;
            if out[i] != (key, value) {
                let j = choose|j: int|
                    0 <= j < entries.len() && entries[j] == out[i] && entries[j].0 != key;
                assert(entries[j].0 == k);
            }
        }
        if want.dom().contains(k) {
            if k == key {
                let p = choose|p: int| 0 <= p < out.len() && out[p] == (key, value);
                assert(out[p].0 == k);
            } else {
                let j = choose|j: int| 0 <= j < entries.len() && #[trigger] entries[j].0 == k;
                let p = choose|p: int| 0 <= p < out.len() && out[p] == entries[j];
                assert(out[p].0 == k);
            }
        }
    }
    assert forall|k: Seq<char>| as_map(out).dom().contains(k) implies as_map(out)[k]
        == want[k] by {
        let i = choose|i: int| 0 <= i < out.len() && #[trigger] out[i].0 == k;
        if out[i] != (key, value) {
            let j = choose|j: int|
                0 <= j < entries.len() && entries[j] == out[i] && entries[j].0 != key;
            assert(entries[j].0 == k);
        }
    }
    assert(as_map(out) =~= want);
}

/// `put` loses nothing: the new entry is there, and so is every entry with
/// another key.
pub proof fn lemma_put_place<W>(entries: Seq<(Seq<char>, W)>, key: Seq<char>, value: W)
    ensures
        exists|p: int|
            0 <= p < put(entries, key, value).len() && put(entries, key, value)[p] == (key, value),
        forall|j: int|
            0 <= j < entries.len() && (#[trigger] entries[j]).0 != key ==> exists|p: int|
                0 <= p < put(entries, key, value).len() && put(entries, key, value)[p]
                    == entries[j],
    decreases entries.len(),
{
    let out = put(entries, key, value);
    if entries.len() == 0 {
        assert(out[0] == (key, value));
    } else if text_lt(entries[0].0, key) {
        let rest = entries.drop_first();
        let tail = put(rest, key, value);
        lemma_put_place(rest, key, value);
        assert(out =~= seq![entries[0]] + tail);
        let q = choose|q: int| 0 <= q < tail.len() && tail[q] == (key, value);
        assert(out[q + 1] == (key, value));
        assert forall|j: int|
            0 <= j < entries.len() && (#[trigger] entries[j]).0 != key implies exists|p: int|
            0 <= p < out.len() && out[p] == entries[j] by {
            if j == 0 {
                assert(out[0] == entries[0]);
            } else {
                assert(rest[j - 1] == entries[j]);
                let q2 = choose|q2: int| 0 <= q2 < tail.len() && tail[q2] == rest[j - 1];
                assert(out[q2 + 1] == entries[j]);
            }
        }
    } else if entries[0].0 == key {
        assert(out =~= seq![(key, value)] + entries.drop_first());
        assert(out[0] == (key, value));
        assert forall|j: int|
            0 <= j < entries.len() && (#[trigger] entries[j]).0 != key implies exists|p: int|
            0 <= p < out.len() && out[p] == entries[j] by {
            assert(out[j] == entries[j]);
        }
    } else {
        assert(out =~= seq![(key, value)] + entries);
        assert(out[0] == (key, value));
        assert forall|j: int|
            0 <= j < entries.len() && (#[trigger] entries[j]).0 != key implies exists|p: int|
            0 <= p < out.len() && out[p] == entries[j] by {
            assert(out[j + 1] == entries[j]);
        }
    }
}

/// Two entries with different keys can be put in either order.
pub proof fn lemma_put_commutes<W>(
    entries: Seq<(Seq<char>, W)>,
    k1: Seq<char>,
    v1: W,
    k2: Seq<char>,
    v2: W,
)
    requires
        ascending(entries),
        k1 != k2,
    ensures
        put(put(entries, k1, v1), k2, v2) == put(put(entries, k2, v2), k1, v1),
{
    let a = put(entries, k1, v1);
    let b = put(entries, k2, v2);
    lemma_put_keys(entries, k1, v1);
    lemma_put_keys(entries, k2, v2);
    lemma_put_keys(a, k2, v2);
    lemma_put_keys(b, k1, v1);
    lemma_put_map(entries, k1, v1);
    lemma_put_map(entries, k2, v2);
    lemma_put_map(a, k2, v2);
    lemma_put_map(b, k1, v1);
    assert(as_map(entries).insert(k1, v1).insert(k2, v2) =~= as_map(entries).insert(
        k2,
        v2,
    ).insert(k1, v1));
    lemma_ascending_unique(put(a, k2, v2), put(b, k1, v1));
}

/// The entries of a vector of keyed items, each key and item taken by its view.
pub open spec fn keyed<V: View>(items: Seq<(String, V)>) -> Seq<(Seq<char>, V::V)> {
    items.map_values(|e: (String, V)| (e.0@, e.1@))
}

/// Puts `(key, value)` into a vector of entries in ascending key order.
pub fn put_entry<V: View>(entries: &mut Vec<(String, V)>, key: String, value: V)
    requires
        ascending(keyed(old(entries)@)),
    ensures
        keyed(final(entries)@) == put(keyed(old(entries)@), key@, value@),
        ascending(keyed(final(entries)@)),
{
    let ghost before = keyed(entries@);
    proof {
        lemma_put_keys(before, key@, value@);
        assert(before.skip(0) =~= before);
    }
    let mut i: usize = 0;
    while i < entries.len()
        invariant
            i <= entries.len(),
            entries@ == old(entries)@,
            before == keyed(entries@),
            ascending(put(before, key@, value@)),
            put(before, key@, value@) == before.take(i as int) + put(
                before.skip(i as int),
                key@,
                value@,
            ),
        decreases entries.len() - i,
    {
        let ghost here = before.skip(i as int);
        assert(here[0] == before[i as int]);
        assert(before[i as int].0 == entries@[i as int].0@);
        match order_of(entries[i].0.as_str(), key.as_str()) {
            TextOrder::Before => {
                proof {
                    assert(here.drop_first() =~= before.skip(i + 1));
                    assert(before.take(i as int) + (seq![here[0]] + put(
                        before.skip(i + 1),
                        key@,
                        value@,
                    )) =~= before.take(i + 1) + put(before.skip(i + 1), key@, value@));
                }
                i = i + 1;
            },
            TextOrder::Same => {
                proof {
                    lemma_text_lt_irreflexive(key@);
                    assert(here.drop_first() =~= before.skip(i + 1));
                }
                entries[i] = (key, value);
                assert(keyed(entries@) =~= before.take(i as int) + (seq![(key@, value@)]
                    + before.skip(i + 1)));
                return ;
            },
            TextOrder::After => {
                proof {
                    lemma_text_lt_asymmetric(key@, here[0].0);
                }
                entries.insert(i, (key, value));
                assert(keyed(entries@) =~= before.take(i as int) + (seq![(key@, value@)]
                    + before.skip(i as int)));
                return ;
            },
        }
    }
    proof {
        assert(before.skip(i as int) =~= Seq::empty());
        assert(before.take(i as int) =~= before);
    }
    entries.push((key, value));
    assert(keyed(entries@) =~= before + seq![(key@, value@)]);
}

} // verus!
