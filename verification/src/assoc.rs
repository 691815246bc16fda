//! Association lists over string keys, read as mathematical maps.
//!
//! Label sets and the services listing both keep `(key, value)` pairs in a
//! vector whose keys stay unique; these spec functions say what such a list
//! means as a `Map` and how replacing a key's value acts on that map.

use vstd::prelude::*;
use vstd::map::*;

verus! {

/// Some pair of `s` carries the key `k`.
pub open spec fn key_present<V>(s: Seq<(Seq<char>, V)>, k: Seq<char>) -> bool {
    exists|i: int| 0 <= i < s.len() && s[i].0 == k
}

/// No key occurs in two pairs.
pub open spec fn unique_keys<V>(s: Seq<(Seq<char>, V)>) -> bool {
    forall|i: int, j: int| 0 <= i < j < s.len() ==> s[i].0 != s[j].0
}

/// The map an association list denotes; a later pair overrides an earlier
/// one with the same key (irrelevant wherever `unique_keys` holds).
pub open spec fn assoc_map<V>(s: Seq<(Seq<char>, V)>) -> Map<Seq<char>, V>
    decreases s.len(),
{
    if s.len() == 0 {
        Map::empty()
    } else {
        assoc_map(s.drop_last()).insert(s.last().0, s.last().1)
    }
}

/// `s` without the pair carrying `k` (without any change when no pair does).
pub open spec fn remove_key<V>(s: Seq<(Seq<char>, V)>, k: Seq<char>) -> Seq<(Seq<char>, V)>
    decreases s.len(),
{
    if s.len() == 0 {
        s
    } else if s.last().0 == k {
        s.drop_last()
    } else {
        remove_key(s.drop_last(), k) + seq![s.last()]
    }
}

/// Replacing a key's value: drop the old pair, append the new one.
pub open spec fn assoc_set<V>(s: Seq<(Seq<char>, V)>, k: Seq<char>, v: V) -> Seq<(Seq<char>, V)> {
    remove_key(s, k).push((k, v))
}

/// The position of the stored pair carrying `key`, if any pair does.
pub(crate) fn find_key_idx<V>(pairs: &Vec<(String, V)>, key: &String) -> (r: Option<usize>)
    ensures
        match r {
            Some(j) => j < pairs@.len() && pairs@[j as int].0@ == key@,
            None => forall|j: int| 0 <= j < pairs@.len() ==> (#[trigger] pairs@[j].0)@ != key@,
        },
{
    let n = pairs.len();
    let mut i: usize = 0;
    while i < n
        invariant
            n == pairs@.len(),
            i <= n,
            forall|j: int| 0 <= j < i ==> (#[trigger] pairs@[j].0)@ != key@,
        decreases n - i,
    {
        if pairs[i].0 == *key {
            return Some(i);
        }
        i += 1;
    }
    None
}

/// A key lies in the denoted map exactly when some pair carries it.
pub proof fn lemma_assoc_map_dom<V>(s: Seq<(Seq<char>, V)>, k: Seq<char>)
    ensures
        assoc_map(s).contains_key(k) <==> key_present(s, k),
    decreases s.len(),
{
    if s.len() > 0 {
        lemma_assoc_map_dom(s.drop_last(), k);
        if key_present(s.drop_last(), k) {
            let i = choose|i: int| 0 <= i < s.drop_last().len() && s.drop_last()[i].0 == k;
            assert(s[i].0 == k);
        }
        if s.last().0 == k {
            assert(s[s.len() - 1].0 == k);
        }
        if assoc_map(s).contains_key(k) && s.last().0 != k {
            assert(assoc_map(s.drop_last()).contains_key(k));
        }
        if key_present(s, k) && s.last().0 != k {
            let i = choose|i: int| 0 <= i < s.len() && s[i].0 == k;
            assert(s.drop_last()[i].0 == k);
        }
    }
}

/// When the only pair carrying `k` stands at `i`, `remove_key` is exactly the
/// removal of that position.
pub proof fn lemma_remove_key_at<V>(s: Seq<(Seq<char>, V)>, k: Seq<char>, i: int)
    requires
        unique_keys(s),
        0 <= i < s.len(),
        s[i].0 == k,
    ensures
        remove_key(s, k) == s.remove(i),
    decreases s.len(),
{
    if s.last().0 == k {
        assert(i == s.len() - 1);
        assert(remove_key(s, k) =~= s.remove(i));
    } else {
        assert(i < s.len() - 1);
        assert(s.drop_last()[i].0 == k);
        lemma_remove_key_at(s.drop_last(), k, i);
        assert(remove_key(s, k) =~= s.remove(i));
    }
}

/// When no pair carries `k`, `remove_key` changes nothing.
pub proof fn lemma_remove_key_none<V>(s: Seq<(Seq<char>, V)>, k: Seq<char>)
    requires
        !key_present(s, k),
    ensures
        remove_key(s, k) == s,
    decreases s.len(),
{
    if s.len() > 0 {
        assert(s[s.len() - 1].0 != k);
        assert(forall|i: int|
            0 <= i < s.drop_last().len() ==> s.drop_last()[i].0 == #[trigger] s[i].0);
        lemma_remove_key_none(s.drop_last(), k);
        assert(remove_key(s, k) =~= s);
    }
}

/// Removing a key from a unique-keyed list removes it from the denoted map
/// and touches nothing else.
pub proof fn lemma_remove_key<V>(s: Seq<(Seq<char>, V)>, k: Seq<char>)
    requires
        unique_keys(s),
    ensures
        unique_keys(remove_key(s, k)),
        assoc_map(remove_key(s, k)) == assoc_map(s).remove(k),
        forall|x: Seq<char>|
            #[trigger] key_present(remove_key(s, k), x) <==> key_present(s, x) && x != k,
    decreases s.len(),
{
    if s.len() == 0 {
        assert(assoc_map(remove_key(s, k)) =~= assoc_map(s).remove(k));
        assert(forall|x: Seq<char>| !key_present(remove_key(s, k), x) && !key_present(s, x));
    } else if s.last().0 == k {
        let r = s.drop_last();
        assert(remove_key(s, k) == r);
        assert(unique_keys(r)) by {
            assert(forall|i: int, j: int|
                0 <= i < j < r.len() ==> #[trigger] r[i].0 != #[trigger] r[j].0) by {
                assert(forall|i: int| 0 <= i < r.len() ==> r[i] == #[trigger] s[i]);
            }
        }
        assert(!key_present(r, k)) by {
            if key_present(r, k) {
                let i = choose|i: int| 0 <= i < r.len() && r[i].0 == k;
                assert(s[i].0 == k && s[s.len() - 1].0 == k && i < s.len() - 1);
            }
        }
        lemma_assoc_map_dom(r, k);
        assert(assoc_map(r) =~= assoc_map(s).remove(k));
        assert(forall|x: Seq<char>|
            #[trigger] key_present(r, x) <==> key_present(s, x) && x != k) by {
            assert(forall|x: Seq<char>| #[trigger] key_present(r, x) ==> key_present(s, x)) by {
                assert(forall|i: int| 0 <= i < r.len() ==> r[i] == #[trigger] s[i]);
            }
            assert(forall|x: Seq<char>|
                key_present(s, x) && x != k ==> #[trigger] key_present(r, x)) by {
                assert(forall|i: int| 0 <= i < r.len() ==> #[trigger] s[i] == r[i]);
            }
        }
    } else {
        let r = s.drop_last();
        let p = s.last();
        assert(unique_keys(r)) by {
            assert(forall|i: int| 0 <= i < r.len() ==> r[i] == #[trigger] s[i]);
        }
        lemma_remove_key(r, k);
        let rr = remove_key(r, k);
        assert(remove_key(s, k) == rr + seq![p]);
        assert((rr + seq![p]).drop_last() =~= rr);
        assert((rr + seq![p]).last() == p);
        assert(assoc_map(rr + seq![p]) == assoc_map(rr).insert(p.0, p.1));
        assert(assoc_map(rr).insert(p.0, p.1) =~= assoc_map(s).remove(k)) by {
            assert(assoc_map(rr) == assoc_map(r).remove(k));
            assert(assoc_map(s) == assoc_map(r).insert(p.0, p.1));
            assert(p.0 != k);
        }
        assert(!key_present(r, p.0)) by {
            if key_present(r, p.0) {
                let i = choose|i: int| 0 <= i < r.len() && r[i].0 == p.0;
                assert(s[i].0 == s[s.len() - 1].0 && i < s.len() - 1);
            }
        }
        assert(unique_keys(rr + seq![p])) by {
            let t = rr + seq![p];
            assert(forall|i: int| 0 <= i < rr.len() ==> t[i] == #[trigger] rr[i]);
            assert(t[t.len() - 1] == p);
            assert(forall|i: int| 0 <= i < rr.len() ==> #[trigger] rr[i].0 != p.0) by {
                assert(forall|i: int|
                    0 <= i < rr.len() && #[trigger] rr[i].0 == p.0 ==> key_present(rr, p.0));
            }
        }
        let t = rr + seq![p];
        assert forall|x: Seq<char>| #[trigger] key_present(t, x) implies key_present(s, x) && x
            != k by {
            let i = choose|i: int| 0 <= i < t.len() && t[i].0 == x;
            if i < rr.len() {
                assert(rr[i].0 == x);
                assert(key_present(rr, x));
                assert(key_present(r, x) && x != k);
                let j = choose|j: int| 0 <= j < r.len() && r[j].0 == x;
                assert(s[j].0 == x);
            } else {
                assert(t[i] == p);
                assert(s[s.len() - 1].0 == x);
                assert(x != k);
            }
        }
        assert forall|x: Seq<char>| key_present(s, x) && x != k implies #[trigger] key_present(
            t,
            x,
        ) by {
            let i = choose|i: int| 0 <= i < s.len() && s[i].0 == x;
            if i < s.len() - 1 {
                assert(r[i].0 == x);
                assert(key_present(r, x));
                assert(key_present(rr, x));
                let j = choose|j: int| 0 <= j < rr.len() && rr[j].0 == x;
                assert(t[j].0 == x);
            } else {
                assert(t[t.len() - 1].0 == x);
            }
        }
    }
}

/// Setting a key on a unique-keyed list keeps the keys unique and acts on
/// the denoted map as `insert`.
pub proof fn lemma_assoc_set<V>(s: Seq<(Seq<char>, V)>, k: Seq<char>, v: V)
    requires
        unique_keys(s),
    ensures
        unique_keys(assoc_set(s, k, v)),
        assoc_map(assoc_set(s, k, v)) == assoc_map(s).insert(k, v),
        forall|x: Seq<char>|
            #[trigger] key_present(assoc_set(s, k, v), x) <==> key_present(s, x) || x == k,
{
    lemma_remove_key(s, k);
    let rr = remove_key(s, k);
    let t = assoc_set(s, k, v);
    assert(t == rr.push((k, v)));
    assert(t.drop_last() =~= rr);
    assert(t.last() == (k, v));
    assert(assoc_map(t) == assoc_map(rr).insert(k, v));
    assert(assoc_map(rr).insert(k, v) =~= assoc_map(s).insert(k, v));
    assert(unique_keys(t)) by {
        assert(forall|i: int| 0 <= i < rr.len() ==> t[i] == #[trigger] rr[i]);
        assert(t[t.len() - 1] == (k, v));
        assert(forall|i: int| 0 <= i < rr.len() ==> #[trigger] rr[i].0 != k) by {
            assert(forall|i: int|
                0 <= i < rr.len() && #[trigger] rr[i].0 == k ==> key_present(rr, k));
        }
    }
    assert forall|x: Seq<char>| #[trigger] key_present(t, x) <==> key_present(s, x) || x
        == k by {
        if key_present(t, x) {
            let i = choose|i: int| 0 <= i < t.len() && t[i].0 == x;
            if i < rr.len() {
                assert(rr[i].0 == x);
                assert(key_present(rr, x));
            } else {
                assert(t[i] == (k, v));
            }
        }
        if x == k {
            assert(t[t.len() - 1].0 == x);
        }
        if key_present(s, x) && x != k {
            assert(key_present(rr, x));
            let j = choose|j: int| 0 <= j < rr.len() && rr[j].0 == x;
            assert(t[j].0 == x);
        }
    }
}

} // verus!
