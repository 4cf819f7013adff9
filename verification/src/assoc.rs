//! Association lists with distinct keys, read as finite maps.
use vstd::prelude::*;

verus! {

/// The keys of an association list, in order.
pub open spec fn assoc_keys<K, V>(s: Seq<(K, V)>) -> Seq<K> {
    s.map_values(|p: (K, V)| p.0)
}

/// The map an association list stands for (a later pair wins over an earlier one).
pub open spec fn assoc_map<K, V>(s: Seq<(K, V)>) -> Map<K, V>
    decreases s.len(),
{
    if s.len() == 0 {
        Map::empty()
    } else {
        assoc_map(s.drop_last()).insert(s.last().0, s.last().1)
    }
}

proof fn lemma_assoc_dom_at<K, V>(s: Seq<(K, V)>, k: K)
    ensures
        assoc_map(s).dom().contains(k) <==> assoc_keys(s).contains(k),
    decreases s.len(),
{
    let ks = assoc_keys(s);
    assert(ks.len() == s.len());
    if s.len() > 0 {
        let d = s.drop_last();
        let kd = assoc_keys(d);
        assert(kd.len() == d.len());
        lemma_assoc_dom_at(d, k);
        assert(ks =~= kd.push(s.last().0));
        if k == s.last().0 {
            assert(ks[s.len() - 1] == k);
        } else {
            if kd.contains(k) {
                let j = choose|j: int| 0 <= j < kd.len() && kd[j] == k;
                assert(ks[j] == kd[j]);
            }
            if ks.contains(k) {
                let j = choose|j: int| 0 <= j < ks.len() && ks[j] == k;
                assert(j < d.len());
                assert(kd[j] == ks[j]);
            }
        }
    } else {
        if ks.contains(k) {
            let j = choose|j: int| 0 <= j < ks.len() && ks[j] == k;
        }
    }
}

pub proof fn lemma_assoc_dom<K, V>(s: Seq<(K, V)>)
    ensures
        forall|k: K| #[trigger] assoc_map(s).dom().contains(k) <==> assoc_keys(s).contains(k),
{
    assert forall|k: K| #[trigger] assoc_map(s).dom().contains(k) <==> assoc_keys(s).contains(k) by {
        lemma_assoc_dom_at(s, k);
    }
}

pub proof fn lemma_assoc_index<K, V>(s: Seq<(K, V)>, i: int)
    requires
        0 <= i < s.len(),
        assoc_keys(s).no_duplicates(),
    ensures
        assoc_map(s).dom().contains(s[i].0),
        assoc_map(s)[s[i].0] == s[i].1,
    decreases s.len(),
{
    let d = s.drop_last();
    if i < s.len() - 1 {
        assert(assoc_keys(d).no_duplicates()) by {
            assert forall|a: int, b: int| 0 <= a < assoc_keys(d).len() && 0 <= b < assoc_keys(d).len() && a != b
                implies assoc_keys(d)[a] != assoc_keys(d)[b] by {
                assert(assoc_keys(d)[a] == assoc_keys(s)[a]);
                assert(assoc_keys(d)[b] == assoc_keys(s)[b]);
            }
        }
        lemma_assoc_index(d, i);
        assert(assoc_keys(s)[i] != assoc_keys(s)[s.len() - 1]);
        assert(d[i] == s[i]);
    }
}

pub proof fn lemma_assoc_keys_drop_last<K, V>(s: Seq<(K, V)>)
    requires
        s.len() > 0,
        assoc_keys(s).no_duplicates(),
    ensures
        assoc_keys(s.drop_last()).no_duplicates(),
        !assoc_keys(s.drop_last()).contains(s.last().0),
{
    let d = s.drop_last();
    assert forall|a: int, b: int| 0 <= a < assoc_keys(d).len() && 0 <= b < assoc_keys(d).len() && a != b
        implies assoc_keys(d)[a] != assoc_keys(d)[b] by {
        assert(assoc_keys(d)[a] == assoc_keys(s)[a]);
        assert(assoc_keys(d)[b] == assoc_keys(s)[b]);
    }
    if assoc_keys(d).contains(s.last().0) {
        let j = choose|j: int| 0 <= j < assoc_keys(d).len() && assoc_keys(d)[j] == s.last().0;
        assert(assoc_keys(s)[j] == assoc_keys(s)[s.len() - 1]);
    }
}

pub proof fn lemma_assoc_push<K, V>(s: Seq<(K, V)>, p: (K, V))
    requires
        assoc_keys(s).no_duplicates(),
        !assoc_keys(s).contains(p.0),
    ensures
        assoc_keys(s.push(p)).no_duplicates(),
        assoc_map(s.push(p)) == assoc_map(s).insert(p.0, p.1),
        assoc_keys(s.push(p)) == assoc_keys(s).push(p.0),
{
    assert(s.push(p).drop_last() =~= s);
    assert(assoc_keys(s.push(p)) =~= assoc_keys(s).push(p.0));
    assert forall|a: int, b: int| 0 <= a < assoc_keys(s.push(p)).len() && 0 <= b < assoc_keys(s.push(p)).len() && a != b
        implies assoc_keys(s.push(p))[a] != assoc_keys(s.push(p))[b] by {
        if a == s.len() {
            assert(assoc_keys(s)[b] != p.0);
        } else if b == s.len() {
            assert(assoc_keys(s)[a] != p.0);
        }
    }
}

pub proof fn lemma_assoc_remove<K, V>(s: Seq<(K, V)>, i: int)
    requires
        0 <= i < s.len(),
        assoc_keys(s).no_duplicates(),
    ensures
        assoc_keys(s.remove(i)).no_duplicates(),
        assoc_map(s.remove(i)) == assoc_map(s).remove(s[i].0),
        !assoc_keys(s.remove(i)).contains(s[i].0),
    decreases s.len(),
{
    let d = s.drop_last();
    let r = s.remove(i);
    lemma_assoc_keys_drop_last(s);
    lemma_assoc_dom(d);
    assert forall|a: int, b: int| 0 <= a < assoc_keys(r).len() && 0 <= b < assoc_keys(r).len() && a != b
        implies assoc_keys(r)[a] != assoc_keys(r)[b] by {
        let a2 = if a < i { a } else { a + 1 };
        let b2 = if b < i { b } else { b + 1 };
        assert(assoc_keys(r)[a] == assoc_keys(s)[a2]);
        assert(assoc_keys(r)[b] == assoc_keys(s)[b2]);
    }
    if assoc_keys(r).contains(s[i].0) {
        let j = choose|j: int| 0 <= j < assoc_keys(r).len() && assoc_keys(r)[j] == s[i].0;
        let j2 = if j < i { j } else { j + 1 };
        assert(assoc_keys(r)[j] == assoc_keys(s)[j2]);
        assert(assoc_keys(s)[i] == s[i].0);
    }
    if i == s.len() - 1 {
        assert(r =~= d);
        assert(!assoc_map(d).dom().contains(s.last().0));
        assert(assoc_map(r) =~= assoc_map(s).remove(s[i].0));
    } else {
        lemma_assoc_remove(d, i);
        assert(r =~= d.remove(i).push(s.last()));
        assert(r.drop_last() =~= d.remove(i));
        assert(d[i] == s[i]);
        assert(assoc_keys(s)[i] != assoc_keys(s)[s.len() - 1]);
        assert(assoc_map(r) =~= assoc_map(s).remove(s[i].0));
    }
}

/// With distinct keys, the map has one entry per pair.
pub proof fn lemma_assoc_len<K, V>(s: Seq<(K, V)>)
    requires
        assoc_keys(s).no_duplicates(),
    ensures
        assoc_map(s).dom().finite(),
        assoc_map(s).dom().len() == s.len(),
    decreases s.len(),
{
    if s.len() == 0 {
        assert(assoc_map(s).dom() =~= Set::<K>::empty());
    } else {
        let d = s.drop_last();
        lemma_assoc_keys_drop_last(s);
        lemma_assoc_len(d);
        lemma_assoc_dom(d);
        assert(assoc_map(s).dom() =~= assoc_map(d).dom().insert(s.last().0));
    }
}


} // verus!
