//! A small header table: lower-case names mapped to values, kept in
//! ascending name order so that writing it out is deterministic.
//!
//! The table is modelled as a `Map<Seq<char>, Seq<char>>`; its entries are
//! stored in a vector whose names are strictly increasing in code-point
//! order, which also makes every name occur once.

use vstd::prelude::*;

verus! {

// ---------------------------------------------------------------------------
// Name order
// ---------------------------------------------------------------------------

/// Lexicographic order on character sequences by code point: the order of
/// `String`'s `Ord`.
pub open spec fn name_lt(a: Seq<char>, b: Seq<char>) -> bool
    decreases a.len(),
{
    if a.len() == 0 {
        b.len() > 0
    } else if b.len() == 0 {
        false
    } else if a[0] != b[0] {
        a[0] < b[0]
    } else {
        name_lt(a.drop_first(), b.drop_first())
    }
}

/// No sequence comes before itself.
pub proof fn lemma_name_lt_irreflexive(a: Seq<char>)
    ensures
        !name_lt(a, a),
    decreases a.len(),
{
    if a.len() > 0 {
        lemma_name_lt_irreflexive(a.drop_first());
    }
}

/// Two different sequences are ordered one way or the other.
pub proof fn lemma_name_lt_total(a: Seq<char>, b: Seq<char>)
    ensures
        a == b || name_lt(a, b) || name_lt(b, a),
    decreases a.len(),
{
    if a.len() > 0 && b.len() > 0 && a[0] == b[0] {
        lemma_name_lt_total(a.drop_first(), b.drop_first());
        if a.drop_first() == b.drop_first() {
            assert(a =~= seq![a[0]] + a.drop_first());
            assert(b =~= seq![b[0]] + b.drop_first());
        }
    } else if a.len() == 0 && b.len() == 0 {
        assert(a =~= b);
    }
}

/// The order is transitive.
pub proof fn lemma_name_lt_transitive(a: Seq<char>, b: Seq<char>, c: Seq<char>)
    requires
        name_lt(a, b),
        name_lt(b, c),
    ensures
        name_lt(a, c),
    decreases a.len(),
{
    if a.len() > 0 && b.len() > 0 && c.len() > 0 && a[0] == b[0] && b[0] == c[0] {
        lemma_name_lt_transitive(a.drop_first(), b.drop_first(), c.drop_first());
    }
}

/// The order never holds both ways.
pub proof fn lemma_name_lt_asymmetric(a: Seq<char>, b: Seq<char>)
    requires
        name_lt(a, b),
    ensures
        !name_lt(b, a),
{
    if name_lt(b, a) {
        lemma_name_lt_transitive(a, b, a);
        lemma_name_lt_irreflexive(a);
    }
}

/// Executable name comparison.
pub fn str_lt(a: &str, b: &str) -> (r: bool)
    ensures
        r == name_lt(a@, b@),
{
    let na = a.unicode_len();
    let nb = b.unicode_len();
    let mut i: usize = 0;
    assert(a@.skip(0) =~= a@);
    assert(b@.skip(0) =~= b@);
    while i < na && i < nb
        invariant
            na == a@.len(),
            nb == b@.len(),
            i <= na,
            i <= nb,
            a@.take(i as int) == b@.take(i as int),
            name_lt(a@, b@) == name_lt(a@.skip(i as int), b@.skip(i as int)),
        decreases na - i,
    {
        let ca = a.get_char(i);
        let cb = b.get_char(i);
        assert(a@.skip(i as int)[0] == ca);
        assert(b@.skip(i as int)[0] == cb);
        if ca != cb {
            return ca < cb;
        }
        assert(a@.skip(i as int).drop_first() =~= a@.skip(i + 1));
        assert(b@.skip(i as int).drop_first() =~= b@.skip(i + 1));
        assert(a@.take(i + 1) =~= a@.take(i as int).push(ca));
        assert(b@.take(i + 1) =~= b@.take(i as int).push(cb));
        i = i + 1;
    }
    i == na && i < nb
}

/// Executable name equality.
pub fn str_eq(a: &str, b: &str) -> (r: bool)
    ensures
        r == (a@ == b@),
{
    let na = a.unicode_len();
    let nb = b.unicode_len();
    if na != nb {
        return false;
    }
    let mut i: usize = 0;
    while i < na
        invariant
            na == a@.len(),
            nb == b@.len(),
            na == nb,
            i <= na,
            forall|j: int| 0 <= j < i ==> a@[j] == b@[j],
        decreases na - i,
    {
        if a.get_char(i) != b.get_char(i) {
            return false;
        }
        i = i + 1;
    }
    assert(a@ =~= b@);
    true
}

// ---------------------------------------------------------------------------
// The table
// ---------------------------------------------------------------------------

/// The names of entries, as sequences.
pub open spec fn names_of(s: Seq<(String, String)>) -> Seq<Seq<char>> {
    Seq::new(s.len(), |i: int| s[i].0@)
}

/// Names strictly increase along the entries.
pub open spec fn strictly_sorted(names: Seq<Seq<char>>) -> bool {
    forall|i: int, j: int| 0 <= i < j < names.len() ==> name_lt(#[trigger] names[i], #[trigger] names[j])
}

/// Whether the entries hold the name.
pub open spec fn has_name(s: Seq<(String, String)>, k: Seq<char>) -> bool {
    exists|i: int| 0 <= i < s.len() && (#[trigger] s[i]).0@ == k
}

/// An index at which the entries hold the name.
pub open spec fn name_index(s: Seq<(String, String)>, k: Seq<char>) -> int {
    choose|i: int| 0 <= i < s.len() && (#[trigger] s[i]).0@ == k
}

/// The map that entries with distinct names stand for.
pub open spec fn map_of(s: Seq<(String, String)>) -> Map<Seq<char>, Seq<char>> {
    Map::new(|k: Seq<char>| has_name(s, k), |k: Seq<char>| s[name_index(s, k)].1@)
}

/// In strictly sorted entries a name occurs at one index only.
proof fn lemma_unique_index(s: Seq<(String, String)>, i: int, j: int)
    requires
        strictly_sorted(names_of(s)),
        0 <= i < s.len(),
        0 <= j < s.len(),
        s[i].0@ == s[j].0@,
    ensures
        i == j,
{
    if i < j {
        assert(name_lt(names_of(s)[i], names_of(s)[j]));
        lemma_name_lt_irreflexive(s[i].0@);
    } else if j < i {
        assert(name_lt(names_of(s)[j], names_of(s)[i]));
        lemma_name_lt_irreflexive(s[i].0@);
    }
}

/// The value that the map gives for the name at an index.
proof fn lemma_map_at(s: Seq<(String, String)>, i: int)
    requires
        strictly_sorted(names_of(s)),
        0 <= i < s.len(),
    ensures
        map_of(s).dom().contains(s[i].0@),
        map_of(s)[s[i].0@] == s[i].1@,
{
    let k = s[i].0@;
    assert(has_name(s, k));
    let c = name_index(s, k);
    lemma_unique_index(s, i, c);
}

/// Header names mapped to values, names in ascending order. A vector of
/// pairs kept sorted and free of repeated names stands in for a
/// `BTreeMap<String, String>`: vstd gives a map keyed by `String` no
/// specification that lets lookups and inserts be proved, while the sorted
/// vector's behaviour is proved here and its view is the same map.
pub struct HeaderMap {
    entries: Vec<(String, String)>,
}

impl HeaderMap {
    #[verifier::type_invariant]
    closed spec fn sorted(&self) -> bool {
        strictly_sorted(names_of(self.entries@))
    }

    /// The table as a map from names to values.
    pub closed spec fn map(&self) -> Map<Seq<char>, Seq<char>> {
        map_of(self.entries@)
    }

    /// The entries as (name, value) pairs in ascending name order.
    pub closed spec fn pairs(&self) -> Seq<(Seq<char>, Seq<char>)> {
        Seq::new(self.entries@.len(), |i: int| (self.entries@[i].0@, self.entries@[i].1@))
    }

    /// An empty table.
    pub fn new() -> (r: HeaderMap)
        ensures
            r.map() == Map::<Seq<char>, Seq<char>>::empty(),
    {
        let r = HeaderMap { entries: Vec::new() };
        assert(r.map() =~= Map::<Seq<char>, Seq<char>>::empty());
        r
    }

    /// The number of names in the table.
    pub fn len(&self) -> (n: usize)
        ensures
            n == self.map().len(),
    {
        proof {
            use_type_invariant(self);
            self.lemma_len();
        }
        self.entries.len()
    }

    proof fn lemma_len(&self)
        requires
            strictly_sorted(names_of(self.entries@)),
        ensures
            self.map().len() == self.entries@.len(),
            self.map().dom().finite(),
    {
        let s = self.entries@;
        let keys = names_of(s);
        assert(keys.no_duplicates()) by {
            assert forall|i: int, j: int| 0 <= i < keys.len() && 0 <= j < keys.len() && i != j
                implies keys[i] != keys[j] by {
                if keys[i] == keys[j] {
                    lemma_unique_index(s, i, j);
                }
            }
        }
        assert(self.map().dom() =~= keys.to_set()) by {
            assert forall|k: Seq<char>| self.map().dom().contains(k) implies keys.to_set().contains(k) by {
                let i = choose|i: int| 0 <= i < s.len() && (#[trigger] s[i]).0@ == k;
                assert(keys[i] == k);
            }
            assert forall|k: Seq<char>| keys.to_set().contains(k) implies self.map().dom().contains(k) by {
                let i = choose|i: int| 0 <= i < keys.len() && keys[i] == k;
                assert(s[i].0@ == k);
            }
        }
        keys.unique_seq_to_set();
    }

    /// The position of a name, if present.
    fn index_of(&self, name: &str) -> (r: Option<usize>)
        ensures
            match r {
                Some(i) => i < self.entries@.len() && self.entries@[i as int].0@ == name@,
                None => !has_name(self.entries@, name@),
            },
    {
        let n = self.entries.len();
        let mut i: usize = 0;
        while i < n
            invariant
                n == self.entries@.len(),
                i <= n,
                forall|j: int| 0 <= j < i ==> (#[trigger] self.entries@[j]).0@ != name@,
            decreases n - i,
        {
            if str_eq(self.entries[i].0.as_str(), name) {
                return Some(i);
            }
            i = i + 1;
        }
        None
    }

    /// The value stored under a name.
    pub fn get(&self, name: &str) -> (r: Option<&String>)
        ensures
            r.is_some() == self.map().dom().contains(name@),
            r.is_some() ==> r.unwrap()@ == self.map()[name@],
    {
        proof {
            use_type_invariant(self);
        }
        match self.index_of(name) {
            Some(i) => {
                proof {
                    lemma_map_at(self.entries@, i as int);
                }
                Some(&self.entries[i].1)
            },
            None => None,
        }
    }

    /// Whether a name is present.
    pub fn contains_key(&self, name: &str) -> (r: bool)
        ensures
            r == self.map().dom().contains(name@),
    {
        self.index_of(name).is_some()
    }

    /// The entries in ascending name order; they are exactly the map.
    pub fn entries(&self) -> (r: &[(String, String)])
        ensures
            forall|i: int, j: int|
                0 <= i < j < r@.len() ==> name_lt((#[trigger] r@[i]).0@, (#[trigger] r@[j]).0@),
            forall|k: Seq<char>|
                #[trigger] self.map().dom().contains(k) <==> exists|i: int|
                    0 <= i < r@.len() && (#[trigger] r@[i]).0@ == k,
            forall|i: int|
                0 <= i < r@.len() ==> self.map()[(#[trigger] r@[i]).0@] == r@[i].1@,
            r@.len() == self.pairs().len(),
            forall|i: int| 0 <= i < r@.len() ==> self.pairs()[i] == ((#[trigger] r@[i]).0@, r@[i].1@),
    {
        proof {
            use_type_invariant(self);
            let s = self.entries@;
            assert forall|i: int, j: int| 0 <= i < j < s.len() implies name_lt(
                (#[trigger] s[i]).0@,
                (#[trigger] s[j]).0@,
            ) by {
                assert(names_of(s)[i] == s[i].0@);
                assert(names_of(s)[j] == s[j].0@);
            }
            assert forall|i: int| 0 <= i < s.len() implies self.map()[(#[trigger] s[i]).0@]
                == s[i].1@ by {
                lemma_map_at(s, i);
            }
        }
        self.entries.as_slice()
    }

    /// Sets the value of a name, replacing any earlier value.
    pub fn insert(&mut self, name: String, value: String)
        ensures
            final(self).map() == old(self).map().insert(name@, value@),
    {
        proof {
            use_type_invariant(&*self);
        }
        let n = self.entries.len();
        let ghost s = self.entries@;
        let mut i: usize = 0;
        while i < n && str_lt(self.entries[i].0.as_str(), name.as_str())
            invariant
                n == self.entries@.len(),
                s == self.entries@,
                i <= n,
                forall|j: int| 0 <= j < i ==> name_lt((#[trigger] s[j]).0@, name@),
            decreases n - i,
        {
            i = i + 1;
        }
        // Every entry at or after `i` has a name that is not below `name`.
        let at_name = i < n && str_eq(self.entries[i].0.as_str(), name.as_str());
        let mut entries = Vec::new();
        std::mem::swap(&mut entries, &mut self.entries);
        let ghost key = name@;
        let ghost val = value@;
        if at_name {
            entries.set(i, (name, value));
            proof {
                let t = entries@;
                assert(names_of(t) =~= names_of(s).update(i as int, key));
                assert(strictly_sorted(names_of(t))) by {
                    assert forall|a: int, b: int| 0 <= a < b < names_of(t).len() implies name_lt(
                        #[trigger] names_of(t)[a],
                        #[trigger] names_of(t)[b],
                    ) by {
                        assert(names_of(s)[a] == s[a].0@);
                        assert(names_of(s)[b] == s[b].0@);
                    }
                }
                assert(map_of(t) =~= map_of(s).insert(key, val)) by {
                    assert forall|k: Seq<char>| #[trigger] map_of(t).dom().contains(k) <==> map_of(s).insert(key, val).dom().contains(k) by {
                        if has_name(t, k) {
                            let c = choose|c: int| 0 <= c < t.len() && (#[trigger] t[c]).0@ == k;
                            assert(s[c].0@ == k || k == key);
                        }
                        if has_name(s, k) {
                            let c = choose|c: int| 0 <= c < s.len() && (#[trigger] s[c]).0@ == k;
                            assert(t[c].0@ == k || c == i);
                        }
                        if k == key {
                            assert(t[i as int].0@ == k);
                        }
                    }
                    assert forall|k: Seq<char>| #[trigger] map_of(t).dom().contains(k) implies map_of(t)[k] == map_of(s).insert(key, val)[k] by {
                        let c = choose|c: int| 0 <= c < t.len() && (#[trigger] t[c]).0@ == k;
                        lemma_map_at(t, c);
                        if c != i {
                            assert(t[c] == s[c]);
                            if k == key {
                                lemma_unique_index(t, c, i as int);
                            }
                            lemma_map_at(s, c);
                        }
                    }
                }
            }
        } else {
            entries.insert(i, (name, value));
            proof {
                let t = entries@;
                assert(strictly_sorted(names_of(t))) by {
                    assert forall|a: int, b: int| 0 <= a < b < names_of(t).len() implies name_lt(
                        #[trigger] names_of(t)[a],
                        #[trigger] names_of(t)[b],
                    ) by {
                        assert(names_of(t)[a] == t[a].0@);
                        assert(names_of(t)[b] == t[b].0@);
                        if b < i {
                            assert(names_of(s)[a] == s[a].0@);
                            assert(names_of(s)[b] == s[b].0@);
                        } else if b == i {
                            assert(t[a] == s[a]);
                        } else {
                            // b - 1 >= i: the entry there is not below `key`.
                            assert(t[b] == s[b - 1]);
                            assert(!name_lt(s[i as int].0@, key));
                            assert(s[i as int].0@ != key);
                            lemma_name_lt_total(s[i as int].0@, key);
                            if b - 1 > i {
                                assert(names_of(s)[i as int] == s[i as int].0@);
                                assert(names_of(s)[b - 1] == s[b - 1].0@);
                                lemma_name_lt_transitive(key, s[i as int].0@, s[b - 1].0@);
                            }
                            if a < i {
                                assert(t[a] == s[a]);
                                lemma_name_lt_transitive(s[a].0@, key, s[b - 1].0@);
                            } else if a > i {
                                assert(t[a] == s[a - 1]);
                                assert(names_of(s)[a - 1] == s[a - 1].0@);
                                assert(names_of(s)[b - 1] == s[b - 1].0@);
                            }
                        }
                    }
                }
                assert(!has_name(s, key)) by {
                    if has_name(s, key) {
                        let c = choose|c: int| 0 <= c < s.len() && (#[trigger] s[c]).0@ == key;
                        if c < i {
                            lemma_name_lt_irreflexive(key);
                        } else {
                            assert(s[i as int].0@ != key);
                            lemma_name_lt_total(s[i as int].0@, key);
                            assert(names_of(s)[i as int] == s[i as int].0@);
                            assert(names_of(s)[c] == s[c].0@);
                            lemma_name_lt_transitive(key, s[i as int].0@, s[c].0@);
                            lemma_name_lt_irreflexive(key);
                        }
                    }
                }
                assert(map_of(t) =~= map_of(s).insert(key, val)) by {
                    assert forall|k: Seq<char>| #[trigger] map_of(t).dom().contains(k) <==> map_of(s).insert(key, val).dom().contains(k) by {
                        if has_name(t, k) {
                            let c = choose|c: int| 0 <= c < t.len() && (#[trigger] t[c]).0@ == k;
                            if c < i {
                                assert(s[c] == t[c]);
                            } else if c > i {
                                assert(s[c - 1] == t[c]);
                            }
                        }
                        if has_name(s, k) {
                            let c = choose|c: int| 0 <= c < s.len() && (#[trigger] s[c]).0@ == k;
                            if c < i {
                                assert(t[c] == s[c]);
                            } else {
                                assert(t[c + 1] == s[c]);
                            }
                        }
                        if k == key {
                            assert(t[i as int].0@ == k);
                        }
                    }
                    assert forall|k: Seq<char>| #[trigger] map_of(t).dom().contains(k) implies map_of(t)[k] == map_of(s).insert(key, val)[k] by {
                        let c = choose|c: int| 0 <= c < t.len() && (#[trigger] t[c]).0@ == k;
                        lemma_map_at(t, c);
                        if c < i {
                            assert(t[c] == s[c]);
                            lemma_map_at(s, c);
                        } else if c > i {
                            assert(t[c] == s[c - 1]);
                            lemma_map_at(s, c - 1);
                        }
                    }
                }
            }
        }
        self.entries = entries;
    }

    /// Removes a name and its value.
    pub fn remove(&mut self, name: &str)
        ensures
            final(self).map() == old(self).map().remove(name@),
    {
        proof {
            use_type_invariant(&*self);
        }
        let ghost s = self.entries@;
        match self.index_of(name) {
            Some(i) => {
                let mut entries = Vec::new();
                std::mem::swap(&mut entries, &mut self.entries);
                entries.remove(i);
                proof {
                    let t = entries@;
                    let key = name@;
                    assert(strictly_sorted(names_of(t))) by {
                        assert forall|a: int, b: int| 0 <= a < b < names_of(t).len() implies name_lt(
                            #[trigger] names_of(t)[a],
                            #[trigger] names_of(t)[b],
                        ) by {
                            let a2 = if a < i { a } else { a + 1 };
                            let b2 = if b < i { b } else { b + 1 };
                            assert(t[a] == s[a2]);
                            assert(t[b] == s[b2]);
                            assert(names_of(s)[a2] == s[a2].0@);
                            assert(names_of(s)[b2] == s[b2].0@);
                        }
                    }
                    assert(map_of(t) =~= map_of(s).remove(key)) by {
                        assert forall|k: Seq<char>| #[trigger] map_of(t).dom().contains(k) <==> map_of(s).remove(key).dom().contains(k) by {
                            if has_name(t, k) {
                                let c = choose|c: int| 0 <= c < t.len() && (#[trigger] t[c]).0@ == k;
                                let c2 = if c < i { c } else { c + 1 };
                                assert(t[c] == s[c2]);
                                if k == key {
                                    lemma_unique_index(s, c2, i as int);
                                }
                            }
                            if has_name(s, k) && k != key {
                                let c = choose|c: int| 0 <= c < s.len() && (#[trigger] s[c]).0@ == k;
                                if c < i {
                                    assert(t[c] == s[c]);
                                } else {
                                    assert(c != i);
                                    assert(t[c - 1] == s[c]);
                                }
                            }
                        }
                        assert forall|k: Seq<char>| #[trigger] map_of(t).dom().contains(k) implies map_of(t)[k] == map_of(s).remove(key)[k] by {
                            let c = choose|c: int| 0 <= c < t.len() && (#[trigger] t[c]).0@ == k;
                            let c2 = if c < i { c } else { c + 1 };
                            assert(t[c] == s[c2]);
                            lemma_map_at(t, c);
                            lemma_map_at(s, c2);
                        }
                    }
                }
                self.entries = entries;
            },
            None => {
                proof {
                    assert(self.map() =~= self.map().remove(name@));
                }
            },
        }
    }

    /// A table built from pairs; a later pair wins over an earlier one of the
    /// same name.
    pub fn from_pairs(pairs: Vec<(String, String)>) -> (r: HeaderMap)
        ensures
            r.map() == inserted_all(Map::empty(), pairs@),
    {
        let mut r = HeaderMap::new();
        let n = pairs.len();
        let ghost all = pairs@;
        let mut items = pairs;
        let mut i: usize = 0;
        while i < n
            invariant
                n == all.len(),
                i <= n,
                items@ == all.skip(i as int),
                r.map() == inserted_all(Map::empty(), all.take(i as int)),
            decreases n - i,
        {
            let (k, v) = items.remove(0);
            assert((k, v) == all[i as int]);
            r.insert(k, v);
            assert(all.take(i + 1).drop_last() =~= all.take(i as int));
            assert(items@ =~= all.skip(i + 1));
            i = i + 1;
        }
        assert(all.take(n as int) =~= all);
        r
    }
}

/// The map after inserting each pair in turn.
pub open spec fn inserted_all(m: Map<Seq<char>, Seq<char>>, pairs: Seq<(String, String)>) -> Map<Seq<char>, Seq<char>>
    decreases pairs.len(),
{
    if pairs.len() == 0 {
        m
    } else {
        inserted_all(m, pairs.drop_last()).insert(pairs.last().0@, pairs.last().1@)
    }
}


/// Reading a name after setting it gives the value set; every other name
/// reads as before.
pub proof fn law_insert_then_get(before: HeaderMap, after: HeaderMap, name: Seq<char>, value: Seq<char>, other: Seq<char>)
    requires
        after.map() == before.map().insert(name, value),
    ensures
        after.map().dom().contains(name),
        after.map()[name] == value,
        other != name ==> (after.map().dom().contains(other) == before.map().dom().contains(other)),
        other != name && before.map().dom().contains(other) ==> after.map()[other] == before.map()[other],
{
}

/// A removed name is absent; every other name reads as before.
pub proof fn law_remove_then_get(before: HeaderMap, after: HeaderMap, name: Seq<char>, other: Seq<char>)
    requires
        after.map() == before.map().remove(name),
    ensures
        !after.map().dom().contains(name),
        other != name ==> (after.map().dom().contains(other) == before.map().dom().contains(other)),
        other != name && before.map().dom().contains(other) ==> after.map()[other] == before.map()[other],
{
}

} // verus!
