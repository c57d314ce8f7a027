//! A small map from string keys to values, kept as a list of pairs in
//! which no key occurs twice; its meaning is a `Map` from the keys' text.

use crate::text::{eq_str, to_chars};
use vstd::prelude::*;

verus! {

/// The map a list of pairs stands for (a later pair wins).
pub open spec fn keyed_map<T>(s: Seq<(String, T)>) -> Map<Seq<char>, T>
    decreases s.len(),
{
    if s.len() == 0 {
        Map::empty()
    } else {
        keyed_map(s.drop_last()).insert(s.last().0@, s.last().1)
    }
}

/// No key occurs twice.
pub open spec fn unique_keys<T>(s: Seq<(String, T)>) -> bool {
    forall|i: int, j: int| 0 <= i < j < s.len() ==> s[i].0@ != s[j].0@
}

/// A key is in the map exactly when some pair has it.
pub proof fn lemma_keyed_dom<T>(s: Seq<(String, T)>, k: Seq<char>)
    ensures
        keyed_map(s).dom().contains(k) <==> exists|i: int| 0 <= i < s.len() && s[i].0@ == k,
    decreases s.len(),
{
    if s.len() > 0 {
        lemma_keyed_dom(s.drop_last(), k);
        if keyed_map(s).dom().contains(k) && s.last().0@ != k {
            let i = choose|i: int| 0 <= i < s.drop_last().len() && s.drop_last()[i].0@ == k;
            assert(s[i].0@ == k);
        }
        if exists|i: int| 0 <= i < s.len() && s[i].0@ == k {
            let i = choose|i: int| 0 <= i < s.len() && s[i].0@ == k;
            if i < s.len() - 1 {
                assert(s.drop_last()[i].0@ == k);
            }
        }
    }
}

/// With unique keys, each pair's key maps to its value.
pub proof fn lemma_keyed_index<T>(s: Seq<(String, T)>, i: int)
    requires
        unique_keys(s),
        0 <= i < s.len(),
    ensures
        keyed_map(s).dom().contains(s[i].0@),
        keyed_map(s)[s[i].0@] == s[i].1,
    decreases s.len(),
{
    if i < s.len() - 1 {
        lemma_keyed_index(s.drop_last(), i);
    }
}

/// Removing a pair removes its key.
pub proof fn lemma_keyed_remove<T>(s: Seq<(String, T)>, i: int)
    requires
        unique_keys(s),
        0 <= i < s.len(),
    ensures
        keyed_map(s.remove(i)) == keyed_map(s).remove(s[i].0@),
        unique_keys(s.remove(i)),
    decreases s.len(),
{
    let k = s[i].0@;
    if i == s.len() - 1 {
        assert(s.remove(i) =~= s.drop_last());
        assert(!keyed_map(s.drop_last()).dom().contains(k)) by {
            lemma_keyed_dom(s.drop_last(), k);
        }
        assert(keyed_map(s.remove(i)) =~= keyed_map(s).remove(k));
    } else {
        lemma_keyed_remove(s.drop_last(), i);
        assert(s.remove(i).drop_last() =~= s.drop_last().remove(i));
        assert(s.remove(i).last() == s.last());
        assert(keyed_map(s.remove(i)) =~= keyed_map(s).remove(k));
    }
}

/// Replacing a pair by one with the same key overwrites that key.
pub proof fn lemma_keyed_update<T>(s: Seq<(String, T)>, i: int, k: String, v: T)
    requires
        unique_keys(s),
        0 <= i < s.len(),
        k@ == s[i].0@,
    ensures
        keyed_map(s.update(i, (k, v))) == keyed_map(s).insert(k@, v),
        unique_keys(s.update(i, (k, v))),
    decreases s.len(),
{
    let t = s.update(i, (k, v));
    if i == s.len() - 1 {
        assert(t.drop_last() =~= s.drop_last());
        assert(keyed_map(t) =~= keyed_map(s).insert(k@, v));
    } else {
        lemma_keyed_update(s.drop_last(), i, k, v);
        assert(t.drop_last() =~= s.drop_last().update(i, (k, v)));
        assert(keyed_map(t) =~= keyed_map(s).insert(k@, v));
    }
}

/// Where a key is, if anywhere.
pub fn find_key<T>(v: &Vec<(String, T)>, k: &str) -> (r: Option<usize>)
    ensures
        match r {
            Some(i) => i < v@.len() && v@[i as int].0@ == k@,
            None => forall|i: int| 0 <= i < v@.len() ==> v@[i].0@ != k@,
        },
{
    let mut i: usize = 0;
    while i < v.len()
        invariant
            i <= v@.len(),
            forall|j: int| 0 <= j < i ==> v@[j].0@ != k@,
        decreases v.len() - i,
    {
        let kv = to_chars(v[i].0.as_str());
        if eq_str(kv.as_slice(), k) {
            return Some(i);
        }
        i = i + 1;
    }
    None
}

/// Whether the key is present.
pub fn contains_key<T>(v: &Vec<(String, T)>, k: &str) -> (r: bool)
    ensures
        r == keyed_map(v@).dom().contains(k@),
{
    proof {
        lemma_keyed_dom(v@, k@);
    }
    match find_key(v, k) {
        Some(_) => true,
        None => false,
    }
}

/// Removes a key and gives back its value.
pub fn remove_key<T>(v: &mut Vec<(String, T)>, k: &str) -> (r: Option<T>)
    requires
        unique_keys(old(v)@),
    ensures
        unique_keys(final(v)@),
        keyed_map(final(v)@) == keyed_map(old(v)@).remove(k@),
        final(v)@ == old(v)@ || exists|i: int| 0 <= i < old(v)@.len() && final(v)@ == old(v)@.remove(i),
        r == (if keyed_map(old(v)@).dom().contains(k@) {
            Some(keyed_map(old(v)@)[k@])
        } else {
            None
        }),
{
    proof {
        lemma_keyed_dom(v@, k@);
    }
    match find_key(v, k) {
        Some(i) => {
            proof {
                lemma_keyed_index(v@, i as int);
                lemma_keyed_remove(v@, i as int);
            }
            let (_, val) = v.remove(i);
            Some(val)
        },
        None => {
            assert(keyed_map(v@).remove(k@) =~= keyed_map(v@));
            None
        },
    }
}

/// Sets a key's value, replacing any value it had.
pub fn insert_key<T>(v: &mut Vec<(String, T)>, k: String, val: T)
    requires
        unique_keys(old(v)@),
    ensures
        unique_keys(final(v)@),
        keyed_map(final(v)@) == keyed_map(old(v)@).insert(k@, val),
{
    proof {
        lemma_keyed_dom(v@, k@);
    }
    match find_key(v, k.as_str()) {
        Some(i) => {
            let ghost before = v@;
            proof {
                lemma_keyed_update(before, i as int, k, val);
            }
            v.set(i, (k, val));
        },
        None => {
            let ghost before = v@;
            v.push((k, val));
            assert(v@.drop_last() =~= before);
        },
    }
}

} // verus!
