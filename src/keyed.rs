use vstd::prelude::*;

verus! {

/// The map that a list of key/value entries stands for; of two entries with
/// one key, the later one counts.
pub open spec fn assoc<K, V>(s: Seq<(K, V)>) -> Map<K, V>
    decreases s.len(),
{
    if s.len() == 0 {
        Map::empty()
    } else {
        assoc(s.drop_last()).insert(s.last().0, s.last().1)
    }
}

/// No key occurs twice among the entries.
pub open spec fn keys_unique<K, V>(s: Seq<(K, V)>) -> bool {
    forall|i: int, j: int| 0 <= i < j < s.len() ==> #[trigger] s[i].0 != #[trigger] s[j].0
}

/// No entry has the key `k`.
pub open spec fn key_absent<K, V>(s: Seq<(K, V)>, k: K) -> bool {
    forall|i: int| 0 <= i < s.len() ==> #[trigger] s[i].0 != k
}

pub proof fn lemma_assoc_lacks<K, V>(s: Seq<(K, V)>, k: K)
    requires
        key_absent(s, k),
    ensures
        !assoc(s).contains_key(k),
    decreases s.len(),
{
    if s.len() > 0 {
        assert(s.last() == s[s.len() - 1]);
        lemma_assoc_lacks(s.drop_last(), k);
    }
}

pub proof fn lemma_assoc_has<K, V>(s: Seq<(K, V)>, i: int)
    requires
        keys_unique(s),
        0 <= i < s.len(),
    ensures
        assoc(s).contains_key(s[i].0),
        assoc(s)[s[i].0] == s[i].1,
    decreases s.len(),
{
    if i < s.len() - 1 {
        assert(s.drop_last()[i] == s[i]);
        lemma_assoc_has(s.drop_last(), i);
        assert(s[i].0 != s[s.len() - 1].0);
    }
}

pub proof fn lemma_assoc_push<K, V>(s: Seq<(K, V)>, k: K, v: V)
    requires
        keys_unique(s),
        key_absent(s, k),
    ensures
        assoc(s.push((k, v))) == assoc(s).insert(k, v),
        keys_unique(s.push((k, v))),
{
    assert(s.push((k, v)).drop_last() =~= s);
    let t = s.push((k, v));
    assert forall|i: int, j: int| 0 <= i < j < t.len() implies #[trigger] t[i].0 != #[trigger] t[j].0 by {
        if j == s.len() {
            assert(t[i] == s[i]);
        } else {
            assert(t[i] == s[i] && t[j] == s[j]);
        }
    }
}

pub proof fn lemma_assoc_remove<K, V>(s: Seq<(K, V)>, i: int)
    requires
        keys_unique(s),
        0 <= i < s.len(),
    ensures
        assoc(s.remove(i)) == assoc(s).remove(s[i].0),
        keys_unique(s.remove(i)),
        key_absent(s.remove(i), s[i].0),
    decreases s.len(),
{
    let k = s[i].0;
    let r = s.remove(i);
    assert forall|a: int, b: int| 0 <= a < b < r.len() implies #[trigger] r[a].0 != #[trigger] r[b].0 by {
        let a2 = if a < i { a } else { a + 1 };
        let b2 = if b < i { b } else { b + 1 };
        assert(r[a] == s[a2] && r[b] == s[b2]);
    }
    assert forall|a: int| 0 <= a < r.len() implies #[trigger] r[a].0 != k by {
        let a2 = if a < i { a } else { a + 1 };
        assert(r[a] == s[a2]);
    }
    if i == s.len() - 1 {
        assert(r =~= s.drop_last());
        lemma_assoc_lacks(r, k);
        assert(assoc(r) =~= assoc(s).remove(k));
    } else {
        let d = s.drop_last();
        assert(r.drop_last() =~= d.remove(i));
        assert(r.last() == s.last());
        assert(d[i] == s[i]);
        lemma_assoc_remove(d, i);
        assert(s.last().0 != k);
        assert(assoc(r) =~= assoc(s).remove(k));
    }
}

pub proof fn lemma_assoc_len<K, V>(s: Seq<(K, V)>)
    requires
        keys_unique(s),
    ensures
        assoc(s).dom().finite(),
        assoc(s).len() == s.len(),
    decreases s.len(),
{
    if s.len() > 0 {
        let d = s.drop_last();
        let k = s.last().0;
        assert forall|i: int| 0 <= i < d.len() implies #[trigger] d[i].0 != k by {
            assert(d[i] == s[i]);
            assert(s[i].0 != s[s.len() - 1].0);
        }
        lemma_assoc_len(d);
        lemma_assoc_lacks(d, k);
        assert(assoc(s).dom() =~= assoc(d).dom().insert(k));
    }
}

} // verus!
