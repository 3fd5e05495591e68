use vstd::prelude::*;
use crate::text::{lemma_lt_asymmetric, lemma_lt_irreflexive, lemma_lt_total, lemma_lt_transitive, seq_lt, str_eq, str_lt};

verus! {

/// Keys strictly increase along the list: they are distinct and sorted.
pub open spec fn keys_sorted<V>(v: Seq<(String, V)>) -> bool {
    forall|i: int, j: int| 0 <= i < j < v.len() ==> seq_lt(#[trigger] v[i].0@, #[trigger] v[j].0@)
}

/// Some entry of the list has key `k`.
pub open spec fn has_key<V>(v: Seq<(String, V)>, k: Seq<char>) -> bool {
    exists|i: int| 0 <= i < v.len() && #[trigger] v[i].0@ == k
}

/// The list is a sorted, duplicate-free listing of the map `m`.
pub open spec fn represents<V: View>(v: Seq<(String, V)>, m: Map<Seq<char>, V::V>) -> bool {
    &&& keys_sorted(v)
    &&& forall|k: Seq<char>| #[trigger] m.contains_key(k) <==> has_key(v, k)
    &&& forall|i: int| 0 <= i < v.len() ==> m[#[trigger] v[i].0@] == v[i].1@
}

/// The map that a list of entries describes when later entries override earlier ones.
pub open spec fn table_of<V: View>(s: Seq<(String, V)>) -> Map<Seq<char>, V::V>
    decreases s.len(),
{
    if s.len() == 0 {
        Map::empty()
    } else {
        table_of(s.drop_last()).insert(s.last().0@, s.last().1@)
    }
}

/// Where key `k` stands in a sorted list, or where it would be inserted.
pub fn find_slot<V>(v: &Vec<(String, V)>, k: &str) -> (r: (usize, bool))
    requires
        keys_sorted(v@),
    ensures
        r.0 <= v.len(),
        r.1 ==> r.0 < v.len() && v@[r.0 as int].0@ == k@,
        forall|i: int| 0 <= i < r.0 ==> seq_lt(#[trigger] v@[i].0@, k@),
        forall|i: int| r.0 < i < v.len() ==> seq_lt(k@, #[trigger] v@[i].0@),
        !r.1 && r.0 < v.len() ==> seq_lt(k@, v@[r.0 as int].0@),
        r.1 == has_key(v@, k@),
{
    let mut i: usize = 0;
    while i < v.len() && str_lt(v[i].0.as_str(), k)
        invariant
            i <= v.len(),
            keys_sorted(v@),
            forall|j: int| 0 <= j < i ==> seq_lt(#[trigger] v@[j].0@, k@),
        decreases v.len() - i,
    {
        i = i + 1;
    }
    if i == v.len() {
        proof {
            lemma_lt_irreflexive(k@, 0);
        }
        return (i, false);
    }
    let found = str_eq(v[i].0.as_str(), k);
    proof {
        let ki = v@[i as int].0@;
        if !found {
            assert(ki.subrange(0, 0) =~= k@.subrange(0, 0));
            lemma_lt_total(ki, k@, 0);
        }
        assert forall|j: int| i < j < v.len() implies seq_lt(k@, #[trigger] v@[j].0@) by {
            assert(seq_lt(ki, v@[j].0@));
            if !found {
                lemma_lt_transitive(k@, ki, v@[j].0@, 0);
            }
        }
        lemma_lt_irreflexive(k@, 0);
    }
    (i, found)
}

/// Inserting a new key at its sorted place keeps the listing exact.
pub proof fn lemma_insert_at<V: View>(
    old: Seq<(String, V)>,
    new: Seq<(String, V)>,
    p: int,
    e: (String, V),
    m: Map<Seq<char>, V::V>,
)
    requires
        represents(old, m),
        0 <= p <= old.len(),
        new == old.insert(p, e),
        forall|i: int| 0 <= i < p ==> seq_lt(#[trigger] old[i].0@, e.0@),
        forall|i: int| p <= i < old.len() ==> seq_lt(e.0@, #[trigger] old[i].0@),
    ensures
        represents(new, m.insert(e.0@, e.1@)),
{
    let m2 = m.insert(e.0@, e.1@);
    assert forall|i: int, j: int| 0 <= i < j < new.len() implies seq_lt(
        #[trigger] new[i].0@,
        #[trigger] new[j].0@,
    ) by {
        if i < p && j == p {
        } else if i < p && j > p {
            assert(new[j] == old[j - 1]);
        } else if i == p {
            assert(new[j] == old[j - 1]);
        } else if i > p {
            assert(new[i] == old[i - 1]);
            assert(new[j] == old[j - 1]);
        }
    }
    assert forall|k: Seq<char>| #[trigger] m2.contains_key(k) <==> has_key(new, k) by {
        if m.contains_key(k) {
            let i = choose|i: int| 0 <= i < old.len() && #[trigger] old[i].0@ == k;
            if i < p {
                assert(new[i] == old[i]);
            } else {
                assert(new[i + 1] == old[i]);
            }
        }
        if k == e.0@ {
            assert(new[p] == e);
        }
        if has_key(new, k) {
            let i = choose|i: int| 0 <= i < new.len() && #[trigger] new[i].0@ == k;
            if i < p {
                assert(new[i] == old[i]);
                assert(has_key(old, k));
            } else if i > p {
                assert(new[i] == old[i - 1]);
                assert(has_key(old, k));
            }
        }
    }
    assert forall|i: int| 0 <= i < new.len() implies m2[#[trigger] new[i].0@] == new[i].1@ by {
        if i < p {
            assert(new[i] == old[i]);
            lemma_lt_asymmetric(old[i].0@, e.0@);
            lemma_lt_irreflexive(e.0@, 0);
        } else if i > p {
            assert(new[i] == old[i - 1]);
            lemma_lt_irreflexive(e.0@, 0);
        }
    }
}

/// Replacing the value of a present key keeps the listing exact.
pub proof fn lemma_replace_at<V: View>(
    old: Seq<(String, V)>,
    new: Seq<(String, V)>,
    p: int,
    e: (String, V),
    m: Map<Seq<char>, V::V>,
)
    requires
        represents(old, m),
        0 <= p < old.len(),
        old[p].0@ == e.0@,
        new == old.update(p, e),
    ensures
        represents(new, m.insert(e.0@, e.1@)),
{
    let m2 = m.insert(e.0@, e.1@);
    assert forall|i: int, j: int| 0 <= i < j < new.len() implies seq_lt(
        #[trigger] new[i].0@,
        #[trigger] new[j].0@,
    ) by {
        assert(seq_lt(old[i].0@, old[j].0@));
    }
    assert forall|k: Seq<char>| #[trigger] m2.contains_key(k) <==> has_key(new, k) by {
        if m.contains_key(k) {
            let i = choose|i: int| 0 <= i < old.len() && #[trigger] old[i].0@ == k;
            assert(new[i].0@ == k);
        }
        if k == e.0@ {
            assert(new[p].0@ == k);
        }
        if has_key(new, k) {
            let i = choose|i: int| 0 <= i < new.len() && #[trigger] new[i].0@ == k;
            assert(old[i].0@ == k);
        }
    }
    assert forall|i: int| 0 <= i < new.len() implies m2[#[trigger] new[i].0@] == new[i].1@ by {
        if i != p {
            if i < p {
                assert(seq_lt(old[i].0@, old[p].0@));
            } else {
                assert(seq_lt(old[p].0@, old[i].0@));
            }
            lemma_lt_irreflexive(e.0@, 0);
        }
    }
}

/// Dropping the first entry of a listing lists the map without its least key.
pub proof fn lemma_listing_drop_first<V: View>(v: Seq<(String, V)>, m: Map<Seq<char>, V::V>)
    requires
        represents(v, m),
        v.len() > 0,
    ensures
        represents(v.drop_first(), m.remove(v[0].0@)),
{
    let d = v.drop_first();
    let k0 = v[0].0@;
    let m2 = m.remove(k0);
    assert forall|i: int, j: int| 0 <= i < j < d.len() implies seq_lt(
        #[trigger] d[i].0@,
        #[trigger] d[j].0@,
    ) by {
        assert(seq_lt(v[i + 1].0@, v[j + 1].0@));
    }
    assert forall|k: Seq<char>| #[trigger] m2.contains_key(k) <==> has_key(d, k) by {
        if m2.contains_key(k) {
            assert(m.contains_key(k));
            let i = choose|i: int| 0 <= i < v.len() && #[trigger] v[i].0@ == k;
            assert(i != 0);
            assert(d[i - 1].0@ == k);
        }
        if has_key(d, k) {
            let j = choose|j: int| 0 <= j < d.len() && #[trigger] d[j].0@ == k;
            assert(v[j + 1].0@ == k);
            assert(seq_lt(v[0].0@, v[j + 1].0@));
            lemma_lt_irreflexive(k, 0);
            assert(has_key(v, k));
        }
    }
    assert forall|i: int| 0 <= i < d.len() implies m2[#[trigger] d[i].0@] == d[i].1@ by {
        assert(d[i] == v[i + 1]);
        assert(seq_lt(v[0].0@, v[i + 1].0@));
        lemma_lt_irreflexive(k0, 0);
    }
}

/// Two sorted listings of the same map agree entry for entry: the listing is fixed by the
/// map alone, whatever order its entries were added in.
pub proof fn lemma_listing_unique<V: View>(
    v1: Seq<(String, V)>,
    v2: Seq<(String, V)>,
    m: Map<Seq<char>, V::V>,
)
    requires
        represents(v1, m),
        represents(v2, m),
    ensures
        v1.len() == v2.len(),
        forall|i: int| 0 <= i < v1.len() ==> #[trigger] v1[i].0@ == v2[i].0@ && v1[i].1@ == v2[i].1@,
    decreases v1.len(),
{
    if v1.len() == 0 || v2.len() == 0 {
        if v1.len() > 0 {
            assert(has_key(v1, v1[0].0@));
            assert(m.contains_key(v1[0].0@));
        }
        if v2.len() > 0 {
            assert(has_key(v2, v2[0].0@));
            assert(m.contains_key(v2[0].0@));
        }
    } else {
        let k1 = v1[0].0@;
        let k2 = v2[0].0@;
        if k1 != k2 {
            assert(has_key(v1, k1));
            assert(has_key(v2, k2));
            assert(m.contains_key(k1));
            assert(m.contains_key(k2));
            assert(has_key(v2, k1));
            assert(has_key(v1, k2));
            let j2 = choose|j: int| 0 <= j < v2.len() && #[trigger] v2[j].0@ == k1;
            let j1 = choose|j: int| 0 <= j < v1.len() && #[trigger] v1[j].0@ == k2;
            assert(seq_lt(v2[0].0@, v2[j2].0@));
            assert(seq_lt(v1[0].0@, v1[j1].0@));
            lemma_lt_asymmetric(k1, k2);
        }
        lemma_listing_drop_first(v1, m);
        lemma_listing_drop_first(v2, m);
        lemma_listing_unique(v1.drop_first(), v2.drop_first(), m.remove(k1));
        assert forall|i: int| 0 <= i < v1.len() implies #[trigger] v1[i].0@ == v2[i].0@
            && v1[i].1@ == v2[i].1@ by {
            if i > 0 {
                assert(v1[i] == v1.drop_first()[i - 1]);
                assert(v2[i] == v2.drop_first()[i - 1]);
            } else {
                assert(has_key(v1, k1));
                assert(m[k1] == v1[0].1@);
                assert(m[k1] == v2[0].1@);
            }
        }
    }
}

} // verus!
