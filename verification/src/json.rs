//! JSON documents as plain values, and the path edit that body rewrite
//! rules perform on them.
//!
//! Parsing and printing are serde_json's; the library moves a parsed
//! document into its own tree one level at a time, edits it, and hands it
//! back the same way.

use crate::error::AppError;
use crate::headers::{lemma_name_lt_total, lemma_name_lt_transitive, name_lt, str_lt};
use crate::text::{
    concat, from_chars, parse_unsigned, parse_unsigned_max, split_by, split_chars, to_chars,
    views, eq_str, str_bytes,
};
use vstd::prelude::*;
use vstd::utf8::encode_utf8;

verus! {

// ---------------------------------------------------------------------------
// serde_json's types
// ---------------------------------------------------------------------------

#[verifier::external_type_specification]
#[verifier::external_body]
pub struct ExJsonValue(serde_json::Value);

// ---------------------------------------------------------------------------
// The tree
// ---------------------------------------------------------------------------

/// A JSON document. Numbers keep serde_json's representation.
pub enum JsonValue {
    Null,
    Bool(bool),
    Number(JsonNumber),
    Str(String),
    Array(Vec<JsonValue>),
    Object(Vec<(String, JsonValue)>),
}

/// The mathematical form of a JSON document; a number is the text that
/// serde_json prints for it.
pub enum JsonView {
    Null,
    Bool(bool),
    Number(Seq<char>),
    Str(Seq<char>),
    Array(Seq<JsonView>),
    Object(Seq<(Seq<char>, JsonView)>),
}

impl JsonValue {
    /// The document as a mathematical value.
    pub open spec fn tree(&self) -> JsonView
        decreases self, 1nat,
    {
        match self {
            JsonValue::Null => JsonView::Null,
            JsonValue::Bool(b) => JsonView::Bool(*b),
            JsonValue::Number(n) => JsonView::Number(n.text()),
            JsonValue::Str(s) => JsonView::Str(s@),
            JsonValue::Array(items) => {
                proof {
                    assert(decreases_to!(self => items));
                    assert(decreases_to!(items => items@));
                }
                JsonView::Array(trees(items@))
            },
            JsonValue::Object(entries) => {
                proof {
                    assert(decreases_to!(self => entries));
                    assert(decreases_to!(entries => entries@));
                }
                JsonView::Object(entry_trees(entries@))
            },
        }
    }
}

/// The trees of a sequence of documents.
pub open spec fn trees(s: Seq<JsonValue>) -> Seq<JsonView>
    decreases s, 0nat,
{
    if s.len() == 0 {
        Seq::empty()
    } else {
        proof {
            assert(decreases_to!(s => s[0]));
            assert(decreases_to!(s => s.drop_first()));
        }
        seq![s[0].tree()] + trees(s.drop_first())
    }
}

/// The trees of object entries, names by their view.
pub open spec fn entry_trees(s: Seq<(String, JsonValue)>) -> Seq<(Seq<char>, JsonView)>
    decreases s, 0nat,
{
    if s.len() == 0 {
        Seq::empty()
    } else {
        proof {
            assert(decreases_to!(s => s[0]));
            assert(decreases_to!(s[0] => s[0].1));
            assert(decreases_to!(s => s.drop_first()));
        }
        seq![(s[0].0@, s[0].1.tree())] + entry_trees(s.drop_first())
    }
}

/// `trees` is the pointwise tree of each document.
pub proof fn lemma_trees(s: Seq<JsonValue>)
    ensures
        trees(s).len() == s.len(),
        forall|i: int| 0 <= i < s.len() ==> #[trigger] trees(s)[i] == s[i].tree(),
    decreases s.len(),
{
    if s.len() > 0 {
        lemma_trees(s.drop_first());
        assert forall|i: int| 0 <= i < s.len() implies #[trigger] trees(s)[i] == s[i].tree() by {
            if i > 0 {
                assert(s.drop_first()[i - 1] == s[i]);
            }
        }
    }
}

/// `entry_trees` is the pointwise view of each entry.
pub proof fn lemma_entry_trees(s: Seq<(String, JsonValue)>)
    ensures
        entry_trees(s).len() == s.len(),
        forall|i: int|
            0 <= i < s.len() ==> #[trigger] entry_trees(s)[i] == (s[i].0@, s[i].1.tree()),
    decreases s.len(),
{
    if s.len() > 0 {
        lemma_entry_trees(s.drop_first());
        assert forall|i: int| 0 <= i < s.len() implies #[trigger] entry_trees(s)[i] == (
        s[i].0@, s[i].1.tree()) by {
            if i > 0 {
                assert(s.drop_first()[i - 1] == s[i]);
            }
        }
    }
}

// ---------------------------------------------------------------------------
// Paths
// ---------------------------------------------------------------------------

/// The parts that are not empty, in order.
pub open spec fn drop_empty(parts: Seq<Seq<char>>) -> Seq<Seq<char>>
    decreases parts.len(),
{
    if parts.len() == 0 {
        Seq::empty()
    } else if parts[0].len() == 0 {
        drop_empty(parts.drop_first())
    } else {
        seq![parts[0]] + drop_empty(parts.drop_first())
    }
}

/// The steps of a rule path: its dot-separated parts, empty ones dropped.
pub open spec fn path_parts(path: Seq<char>) -> Seq<Seq<char>> {
    drop_empty(split_by(path, seq!['.']))
}

/// A part read as an array index (`usize` parsing).
pub open spec fn index_part(part: Seq<char>) -> Option<nat> {
    parse_unsigned(part, usize::MAX as nat)
}

proof fn lemma_drop_empty_split(parts: Seq<Seq<char>>, k: int)
    requires
        0 <= k <= parts.len(),
    ensures
        drop_empty(parts) == drop_empty(parts.take(k)) + drop_empty(parts.skip(k)),
    decreases k,
{
    if k > 0 {
        lemma_drop_empty_split(parts.drop_first(), k - 1);
        assert(parts.take(k).drop_first() =~= parts.drop_first().take(k - 1));
        assert(parts.drop_first().skip(k - 1) =~= parts.skip(k));
        assert(parts.take(k)[0] == parts[0]);
        if parts[0].len() != 0 {
            assert(seq![parts[0]] + drop_empty(parts.drop_first().take(k - 1)) + drop_empty(
                parts.skip(k),
            ) =~= seq![parts[0]] + (drop_empty(parts.drop_first().take(k - 1)) + drop_empty(
                parts.skip(k),
            )));
        }
    } else {
        assert(parts.take(0) =~= Seq::<Seq<char>>::empty());
        assert(parts.skip(0) =~= parts);
        assert(drop_empty(parts.take(0)) =~= Seq::<Seq<char>>::empty());
        assert(Seq::<Seq<char>>::empty() + drop_empty(parts) =~= drop_empty(parts));
    }
}

/// The non-empty dot-separated parts of a path.
pub fn split_path(path: &str) -> (r: Vec<Vec<char>>)
    ensures
        views(r@) == path_parts(path@),
{
    let chars = to_chars(path);
    let dot = vec!['.'];
    let pieces = split_chars(chars.as_slice(), dot.as_slice());
    assert(dot@ =~= seq!['.']);
    let ghost all = views(pieces@);
    let mut out: Vec<Vec<char>> = Vec::new();
    let n = pieces.len();
    let mut i: usize = 0;
    while i < n
        invariant
            n == pieces@.len(),
            all == views(pieces@),
            i <= n,
            views(out@) == drop_empty(all.take(i as int)),
        decreases n - i,
    {
        proof {
            lemma_drop_empty_split(all.take(i + 1), i as int);
            assert(all.take(i + 1).take(i as int) =~= all.take(i as int));
            assert(all.take(i + 1).skip(i as int) =~= seq![all[i as int]]);
            assert(drop_empty(seq![all[i as int]].drop_first()) =~= Seq::<Seq<char>>::empty());
        }
        if pieces[i].len() > 0 {
            let piece = pieces[i].clone();
            out.push(piece);
            assert(views(out@) =~= drop_empty(all.take(i as int)) + seq![all[i as int]]);
        } else {
            assert(drop_empty(all.take(i as int)) + Seq::<Seq<char>>::empty() =~= drop_empty(
                all.take(i as int),
            ));
        }
        i = i + 1;
    }
    assert(all.take(n as int) =~= all);
    out
}

/// Reads a part as an array index.
pub fn parse_index(part: &[char]) -> (r: Option<usize>)
    ensures
        match r {
            Some(i) => index_part(part@) == Some(i as nat),
            None => index_part(part@) is None,
        },
{
    match parse_unsigned_max(part, usize::MAX as u64) {
        Some(x) => Some(x as usize),
        None => None,
    }
}

// ---------------------------------------------------------------------------
// Object entries
// ---------------------------------------------------------------------------

/// `i` is the first index whose name is `key`.
pub open spec fn first_key_at(entries: Seq<(Seq<char>, JsonView)>, key: Seq<char>, i: int) -> bool {
    &&& 0 <= i < entries.len()
    &&& entries[i].0 == key
    &&& forall|j: int| 0 <= j < i ==> (#[trigger] entries[j]).0 != key
}

/// The first index whose name is `key`.
pub open spec fn key_pos(entries: Seq<(Seq<char>, JsonView)>, key: Seq<char>) -> Option<int> {
    if exists|i: int| first_key_at(entries, key, i) {
        Some(choose|i: int| first_key_at(entries, key, i))
    } else {
        None
    }
}

/// The entries of an object, none for any other value.
pub open spec fn object_entries(node: JsonView) -> Seq<(Seq<char>, JsonView)> {
    match node {
        JsonView::Object(entries) => entries,
        _ => Seq::empty(),
    }
}

/// How many leading entries have names before `key`: where a new name
/// goes.
pub open spec fn lower_bound(entries: Seq<(Seq<char>, JsonView)>, key: Seq<char>) -> int
    decreases entries.len(),
{
    if entries.len() == 0 {
        0
    } else if name_lt(entries[0].0, key) {
        1 + lower_bound(entries.drop_first(), key)
    } else {
        0
    }
}

/// The value under `key` replaced, or the pair inserted in name order, as
/// serde_json's map inserts it.
pub open spec fn put(entries: Seq<(Seq<char>, JsonView)>, key: Seq<char>, v: JsonView) -> Seq<(Seq<char>, JsonView)> {
    match key_pos(entries, key) {
        Some(j) => entries.update(j, (key, v)),
        None => entries.insert(lower_bound(entries, key), (key, v)),
    }
}

/// A new name goes after the leading names that come before it.
pub proof fn lemma_lower_bound_range(entries: Seq<(Seq<char>, JsonView)>, key: Seq<char>)
    ensures
        0 <= lower_bound(entries, key) <= entries.len(),
        forall|i: int| 0 <= i < lower_bound(entries, key) ==> name_lt(#[trigger] entries[i].0, key),
    decreases entries.len(),
{
    if entries.len() > 0 && name_lt(entries[0].0, key) {
        lemma_lower_bound_range(entries.drop_first(), key);
        assert forall|i: int| 0 <= i < lower_bound(entries, key) implies name_lt(#[trigger] entries[i].0, key) by {
            if i > 0 {
                assert(entries.drop_first()[i - 1] == entries[i]);
            }
        }
    }
}

/// Among names in ascending order, none from the insertion point on comes
/// before the new name.
pub proof fn lemma_lower_bound_sorted(entries: Seq<(Seq<char>, JsonView)>, key: Seq<char>)
    requires
        keys_ascending(entries),
    ensures
        forall|i: int| lower_bound(entries, key) <= i < entries.len() ==> !name_lt(#[trigger] entries[i].0, key),
    decreases entries.len(),
{
    if entries.len() > 0 {
        let rest = entries.drop_first();
        assert(keys_ascending(rest)) by {
            assert forall|i: int, j: int| 0 <= i < j < rest.len() implies name_lt(#[trigger] rest[i].0, #[trigger] rest[j].0) by {
                assert(rest[i] == entries[i + 1] && rest[j] == entries[j + 1]);
            }
        }
        lemma_lower_bound_sorted(rest, key);
        lemma_lower_bound_range(rest, key);
        if name_lt(entries[0].0, key) {
            assert forall|i: int| lower_bound(entries, key) <= i < entries.len() implies !name_lt(#[trigger] entries[i].0, key) by {
                assert(rest[i - 1] == entries[i]);
            }
        } else {
            assert forall|i: int| 0 <= i < entries.len() implies !name_lt(#[trigger] entries[i].0, key) by {
                if i > 0 && name_lt(entries[i].0, key) {
                    assert(name_lt(entries[0].0, entries[i].0));
                    lemma_name_lt_transitive(entries[0].0, entries[i].0, key);
                }
            }
        }
    }
}

/// `put` keeps names in ascending order and sorted values sorted.
pub proof fn lemma_put_sorted(entries: Seq<(Seq<char>, JsonView)>, key: Seq<char>, v: JsonView)
    requires
        keys_ascending(entries),
        forall|i: int| 0 <= i < entries.len() ==> #[trigger] sorted_tree(entries[i].1),
        sorted_tree(v),
    ensures
        keys_ascending(put(entries, key, v)),
        forall|i: int| 0 <= i < put(entries, key, v).len() ==> #[trigger] sorted_tree(put(entries, key, v)[i].1),
{
    let e2 = put(entries, key, v);
    match key_pos(entries, key) {
        Some(j) => {
            let w = choose|i: int| first_key_at(entries, key, i);
            assert(first_key_at(entries, key, w));
            assert(e2 == entries.update(j, (key, v)));
            assert forall|a: int, b: int| 0 <= a < b < e2.len() implies name_lt(#[trigger] e2[a].0, #[trigger] e2[b].0) by {
                assert(e2[a].0 == entries[a].0 && e2[b].0 == entries[b].0);
            }
        },
        None => {
            let lb = lower_bound(entries, key);
            lemma_lower_bound_range(entries, key);
            lemma_lower_bound_sorted(entries, key);
            assert forall|i: int| 0 <= i < entries.len() implies (#[trigger] entries[i]).0 != key by {
                if entries[i].0 == key {
                    lemma_first_key_exists(entries, key, i);
                }
            }
            assert(e2 == entries.insert(lb, (key, v)));
            assert forall|i: int| lb <= i < entries.len() implies name_lt(key, #[trigger] entries[i].0) by {
                lemma_name_lt_total(key, entries[i].0);
            }
            assert forall|a: int, b: int| 0 <= a < b < e2.len() implies name_lt(#[trigger] e2[a].0, #[trigger] e2[b].0) by {
                if b < lb {
                    assert(e2[a] == entries[a] && e2[b] == entries[b]);
                } else if b == lb {
                    assert(e2[a] == entries[a]);
                } else if a < lb {
                    assert(e2[a] == entries[a] && e2[b] == entries[b - 1]);
                    assert(name_lt(entries[a].0, key));
                    assert(name_lt(key, entries[b - 1].0));
                    lemma_name_lt_transitive(entries[a].0, key, entries[b - 1].0);
                } else if a == lb {
                    assert(e2[b] == entries[b - 1]);
                } else {
                    assert(e2[a] == entries[a - 1] && e2[b] == entries[b - 1]);
                }
            }
            assert forall|i: int| 0 <= i < e2.len() implies #[trigger] sorted_tree(e2[i].1) by {
                if i < lb {
                    assert(e2[i] == entries[i]);
                } else if i > lb {
                    assert(e2[i] == entries[i - 1]);
                }
            }
        },
    }
}

/// Where a new name goes among the entries: after the leading ones whose
/// names come before it.
fn lower_bound_exec(entries: &Vec<(String, JsonValue)>, key: &str) -> (r: usize)
    ensures
        r as int == lower_bound(entry_trees(entries@), key@),
{
    proof {
        lemma_entry_trees(entries@);
    }
    let ghost t = entry_trees(entries@);
    let n = entries.len();
    let mut i: usize = 0;
    assert(t.skip(0) =~= t);
    while i < n && str_lt(entries[i].0.as_str(), key)
        invariant
            n == entries@.len(),
            t == entry_trees(entries@),
            t.len() == n,
            forall|k: int| 0 <= k < n ==> #[trigger] t[k] == (entries@[k].0@, entries@[k].1.tree()),
            i <= n,
            lower_bound(t, key@) == i + lower_bound(t.skip(i as int), key@),
        decreases n - i,
    {
        assert(t.skip(i as int)[0] == t[i as int]);
        assert(t.skip(i as int).drop_first() =~= t.skip(i + 1));
        i = i + 1;
    }
    if i < n {
        assert(t.skip(i as int)[0] == t[i as int]);
    }
    i
}

/// The first entry with the name, if any.
fn find_key(entries: &Vec<(String, JsonValue)>, key: &[char]) -> (r: Option<usize>)
    ensures
        match r {
            Some(j) => j < entries@.len() && key_pos(entry_trees(entries@), key@) == Some(j as int),
            None => key_pos(entry_trees(entries@), key@) is None,
        },
{
    proof {
        lemma_entry_trees(entries@);
    }
    let ghost t = entry_trees(entries@);
    let n = entries.len();
    let mut i: usize = 0;
    while i < n
        invariant
            n == entries@.len(),
            t == entry_trees(entries@),
            t.len() == n,
            forall|k: int| 0 <= k < n ==> #[trigger] t[k] == (entries@[k].0@, entries@[k].1.tree()),
            i <= n,
            forall|j: int| 0 <= j < i ==> (#[trigger] t[j]).0 != key@,
        decreases n - i,
    {
        if eq_str(key, entries[i].0.as_str()) {
            proof {
                assert(first_key_at(t, key@, i as int));
                let c = choose|c: int| first_key_at(t, key@, c);
                if c < i {
                    assert(t[c].0 != key@);
                } else if c > i {
                    assert(t[i as int].0 != key@);
                }
            }
            return Some(i);
        }
        i = i + 1;
    }
    proof {
        if exists|c: int| first_key_at(t, key@, c) {
            let c = choose|c: int| first_key_at(t, key@, c);
            assert(t[c].0 != key@);
        }
    }
    None
}

// ---------------------------------------------------------------------------
// Setting a value at a path
// ---------------------------------------------------------------------------

/// The message when a path is empty.
pub open spec fn empty_path_message() -> Seq<char> {
    "JSON 改写路径不能为空"@
}

/// The message when an inner index step meets something other than an array.
pub open spec fn need_array_message(path: Seq<char>, part: Seq<char>) -> Seq<char> {
    "路径 "@ + path + " 需要数组节点 "@ + part
}

/// The message when the last step is an index and meets something other
/// than an array.
pub open spec fn leaf_not_array_message(path: Seq<char>) -> Seq<char> {
    "路径 "@ + path + " 叶子节点不是数组"@
}

/// Sets `repl` at the steps `parts` of `node`. An index step needs an array
/// and misses when out of range; a name step turns anything but an object
/// into an empty object and creates the name when absent. The result is
/// the new document and whether the value was set, or the message of the
/// `InvalidInput` error.
pub open spec fn set_at(node: JsonView, parts: Seq<Seq<char>>, path: Seq<char>, repl: JsonView) -> Result<(JsonView, bool), Seq<char>>
    decreases parts.len(),
{
    if parts.len() == 0 {
        Ok((node, false))
    } else {
        let part = parts[0];
        if parts.len() == 1 {
            match index_part(part) {
                Some(i) => match node {
                    JsonView::Array(items) => if i < items.len() {
                        Ok((JsonView::Array(items.update(i as int, repl)), true))
                    } else {
                        Ok((node, false))
                    },
                    _ => Err(leaf_not_array_message(path)),
                },
                None => Ok((JsonView::Object(put(object_entries(node), part, repl)), true)),
            }
        } else {
            match index_part(part) {
                Some(i) => match node {
                    JsonView::Array(items) => if i < items.len() {
                        match set_at(items[i as int], parts.drop_first(), path, repl) {
                            Ok((child, hit)) => Ok((JsonView::Array(items.update(i as int, child)), hit)),
                            Err(m) => Err(m),
                        }
                    } else {
                        Ok((node, false))
                    },
                    _ => Err(need_array_message(path, part)),
                },
                None => {
                    let entries = object_entries(node);
                    let child = match key_pos(entries, part) {
                        Some(j) => entries[j].1,
                        None => JsonView::Object(Seq::empty()),
                    };
                    match set_at(child, parts.drop_first(), path, repl) {
                        Ok((c, hit)) => Ok((JsonView::Object(put(entries, part, c)), hit)),
                        Err(m) => Err(m),
                    }
                },
            }
        }
    }
}

/// The outcome of `set_json_path` for a path.
pub open spec fn set_path(node: JsonView, path: Seq<char>, repl: JsonView) -> Result<(JsonView, bool), Seq<char>> {
    let parts = path_parts(path);
    if parts.len() == 0 {
        Err(empty_path_message())
    } else {
        set_at(node, parts, path, repl)
    }
}

/// The value at the steps `parts` of `node`: an index step reads an array
/// element in range, a name step the first entry of that name in an
/// object; `None` when a step finds nothing.
pub open spec fn get_at(node: JsonView, parts: Seq<Seq<char>>) -> Option<JsonView>
    decreases parts.len(),
{
    if parts.len() == 0 {
        Some(node)
    } else {
        let part = parts[0];
        match index_part(part) {
            Some(i) => match node {
                JsonView::Array(items) => if i < items.len() {
                    get_at(items[i as int], parts.drop_first())
                } else {
                    None
                },
                _ => None,
            },
            None => match node {
                JsonView::Object(entries) => match key_pos(entries, part) {
                    Some(j) => get_at(entries[j].1, parts.drop_first()),
                    None => None,
                },
                _ => None,
            },
        }
    }
}

/// A name that occurs has a first occurrence.
pub proof fn lemma_first_key_exists(entries: Seq<(Seq<char>, JsonView)>, key: Seq<char>, i: int)
    requires
        0 <= i < entries.len(),
        entries[i].0 == key,
    ensures
        key_pos(entries, key) is Some,
    decreases i,
{
    if exists|j: int| 0 <= j < i && (#[trigger] entries[j]).0 == key {
        let j = choose|j: int| 0 <= j < i && (#[trigger] entries[j]).0 == key;
        lemma_first_key_exists(entries, key, j);
    } else {
        assert(first_key_at(entries, key, i));
    }
}

/// After `put`, the first entry of the name holds the value put.
pub proof fn lemma_put_then_find(entries: Seq<(Seq<char>, JsonView)>, key: Seq<char>, v: JsonView)
    ensures
        key_pos(put(entries, key, v), key) matches Some(j) && put(entries, key, v)[j] == (key, v),
{
    let e2 = put(entries, key, v);
    match key_pos(entries, key) {
        Some(j) => {
            let w = choose|i: int| first_key_at(entries, key, i);
            assert(first_key_at(entries, key, w));
            assert(first_key_at(e2, key, j));
            let w2 = choose|i: int| first_key_at(e2, key, i);
            if w2 < j {
                assert(e2[w2] == entries[w2]);
            } else if w2 > j {
                assert(e2[j].0 == key);
            }
        },
        None => {
            let n = entries.len() as int;
            let lb = lower_bound(entries, key);
            lemma_lower_bound_range(entries, key);
            assert forall|i: int| 0 <= i < n implies (#[trigger] entries[i]).0 != key by {
                if entries[i].0 == key {
                    lemma_first_key_exists(entries, key, i);
                }
            }
            assert(e2 == entries.insert(lb, (key, v)));
            assert forall|j: int| 0 <= j < lb implies (#[trigger] e2[j]).0 != key by {
                assert(e2[j] == entries[j]);
            }
            assert(first_key_at(e2, key, lb));
            let w2 = choose|i: int| first_key_at(e2, key, i);
            if w2 < lb {
                assert(e2[w2] == entries[w2]);
            } else if w2 > lb {
                assert(e2[lb].0 == key);
            }
        },
    }
}

/// The entries and values of a sorted object, or none for another value.
proof fn lemma_object_entries_sorted(node: JsonView)
    requires
        sorted_tree(node),
    ensures
        keys_ascending(object_entries(node)),
        forall|i: int| 0 <= i < object_entries(node).len() ==> #[trigger] sorted_tree(object_entries(node)[i].1),
{
    if let JsonView::Object(entries) = node {
        lemma_entries_sorted(entries);
    }
}

/// An array of sorted documents with one replaced by a sorted one is sorted.
proof fn lemma_array_update_sorted(items: Seq<JsonView>, i: int, x: JsonView)
    requires
        sorted_tree(JsonView::Array(items)),
        0 <= i < items.len(),
        sorted_tree(x),
    ensures
        sorted_tree(JsonView::Array(items.update(i, x))),
{
    lemma_all_sorted(items);
    lemma_all_sorted(items.update(i, x));
    assert forall|k: int| 0 <= k < items.len() implies #[trigger] sorted_tree(items.update(i, x)[k]) by {
        if k != i {
            assert(sorted_tree(items[k]));
        }
    }
}

/// An object after `put` of a sorted value is sorted.
proof fn lemma_put_object_sorted(entries: Seq<(Seq<char>, JsonView)>, key: Seq<char>, v: JsonView)
    requires
        keys_ascending(entries),
        forall|i: int| 0 <= i < entries.len() ==> #[trigger] sorted_tree(entries[i].1),
        sorted_tree(v),
    ensures
        sorted_tree(JsonView::Object(put(entries, key, v))),
{
    lemma_put_sorted(entries, key, v);
    lemma_entries_sorted(put(entries, key, v));
}

/// Setting a sorted value in a sorted document gives a sorted document:
/// a new name goes where serde_json's map puts it.
pub proof fn lemma_set_at_sorted(node: JsonView, parts: Seq<Seq<char>>, path: Seq<char>, repl: JsonView)
    requires
        sorted_tree(node),
        sorted_tree(repl),
    ensures
        set_at(node, parts, path, repl) matches Ok((t, _)) ==> sorted_tree(t),
    decreases parts.len(),
{
    if parts.len() > 0 {
        let part = parts[0];
        let rest = parts.drop_first();
        lemma_object_entries_sorted(node);
        if parts.len() == 1 {
            match index_part(part) {
                Some(i) => {
                    if let JsonView::Array(items) = node {
                        if i < items.len() {
                            lemma_array_update_sorted(items, i as int, repl);
                        }
                    }
                },
                None => {
                    lemma_put_object_sorted(object_entries(node), part, repl);
                },
            }
        } else {
            match index_part(part) {
                Some(i) => {
                    if let JsonView::Array(items) = node {
                        if i < items.len() {
                            lemma_all_sorted(items);
                            lemma_set_at_sorted(items[i as int], rest, path, repl);
                            if let Ok((c, _)) = set_at(items[i as int], rest, path, repl) {
                                lemma_array_update_sorted(items, i as int, c);
                            }
                        }
                    }
                },
                None => {
                    let entries = object_entries(node);
                    let child = match key_pos(entries, part) {
                        Some(j) => entries[j].1,
                        None => JsonView::Object(Seq::empty()),
                    };
                    if let Some(j) = key_pos(entries, part) {
                        let w = choose|i: int| first_key_at(entries, part, i);
                        assert(first_key_at(entries, part, w));
                        assert(sorted_tree(entries[j].1));
                    } else {
                        lemma_entries_sorted(Seq::<(Seq<char>, JsonView)>::empty());
                    }
                    lemma_set_at_sorted(child, rest, path, repl);
                    if let Ok((c, _)) = set_at(child, rest, path, repl) {
                        lemma_put_object_sorted(entries, part, c);
                    }
                },
            }
        }
    }
}

/// `set_path` of a sorted value in a sorted document gives a sorted one.
pub proof fn lemma_set_path_sorted(node: JsonView, path: Seq<char>, repl: JsonView)
    requires
        sorted_tree(node),
        sorted_tree(repl),
    ensures
        set_path(node, path, repl) matches Ok((t, _)) ==> sorted_tree(t),
{
    lemma_set_at_sorted(node, path_parts(path), path, repl);
}

/// A value set at a path (where the edit took place) is found there.
pub proof fn law_set_then_get(node: JsonView, parts: Seq<Seq<char>>, path: Seq<char>, repl: JsonView)
    requires
        set_at(node, parts, path, repl) matches Ok((_, hit)) && hit,
    ensures
        get_at(set_at(node, parts, path, repl)->Ok_0.0, parts) == Some(repl),
    decreases parts.len(),
{
    let part = parts[0];
    let rest = parts.drop_first();
    let n2 = set_at(node, parts, path, repl)->Ok_0.0;
    if parts.len() == 1 {
        assert(rest =~= Seq::<Seq<char>>::empty());
        assert(get_at(repl, rest) == Some(repl));
        match index_part(part) {
            Some(i) => {
                if let JsonView::Array(items) = node {
                    assert(n2 == JsonView::Array(items.update(i as int, repl)));
                    assert(items.update(i as int, repl)[i as int] == repl);
                }
            },
            None => {
                lemma_put_then_find(object_entries(node), part, repl);
                let e2 = put(object_entries(node), part, repl);
                assert(n2 == JsonView::Object(e2));
                let j = key_pos(e2, part)->0;
                assert(e2[j].1 == repl);
            },
        }
    } else {
        match index_part(part) {
            Some(i) => {
                if let JsonView::Array(items) = node {
                    law_set_then_get(items[i as int], rest, path, repl);
                    let c = set_at(items[i as int], rest, path, repl)->Ok_0.0;
                    assert(n2 == JsonView::Array(items.update(i as int, c)));
                    assert(items.update(i as int, c)[i as int] == c);
                }
            },
            None => {
                let entries = object_entries(node);
                let child = match key_pos(entries, part) {
                    Some(j) => entries[j].1,
                    None => JsonView::Object(Seq::empty()),
                };
                law_set_then_get(child, rest, path, repl);
                let c = set_at(child, rest, path, repl)->Ok_0.0;
                lemma_put_then_find(entries, part, c);
                let e2 = put(entries, part, c);
                assert(n2 == JsonView::Object(e2));
                let j = key_pos(e2, part)->0;
                assert(e2[j].1 == c);
            },
        }
    }
}

/// Below a fresh empty object a non-empty path is either set or refused.
proof fn lemma_empty_object_never_misses(parts: Seq<Seq<char>>, path: Seq<char>, repl: JsonView)
    requires
        parts.len() > 0,
    ensures
        !(set_at(JsonView::Object(Seq::empty()), parts, path, repl) matches Ok((_, hit)) && !hit),
    decreases parts.len(),
{
    if parts.len() > 1 {
        let part = parts[0];
        if index_part(part) is None {
            let entries = object_entries(JsonView::Object(Seq::empty()));
            assert(key_pos(entries, part) is None);
            lemma_empty_object_never_misses(parts.drop_first(), path, repl);
        }
    }
}

/// An edit that did not take place (an index out of range) leaves the
/// document as it was: arrays are never extended.
pub proof fn law_missed_edit_leaves_document(node: JsonView, parts: Seq<Seq<char>>, path: Seq<char>, repl: JsonView)
    requires
        set_at(node, parts, path, repl) matches Ok((_, hit)) && !hit,
    ensures
        set_at(node, parts, path, repl)->Ok_0.0 == node,
    decreases parts.len(),
{
    if parts.len() > 1 {
        let part = parts[0];
        let rest = parts.drop_first();
        match index_part(part) {
            Some(i) => {
                if let JsonView::Array(items) = node {
                    if i < items.len() {
                        law_missed_edit_leaves_document(items[i as int], rest, path, repl);
                        assert(items.update(i as int, items[i as int]) =~= items);
                    }
                }
            },
            None => {
                let entries = object_entries(node);
                match key_pos(entries, part) {
                    Some(j) => {
                        law_missed_edit_leaves_document(entries[j].1, rest, path, repl);
                        let w = choose|k: int| first_key_at(entries, part, k);
                        assert(first_key_at(entries, part, w));
                        assert(entries.update(j, (part, entries[j].1)) =~= entries);
                        if !(node is Object) {
                            assert(entries =~= Seq::<(Seq<char>, JsonView)>::empty());
                        }
                    },
                    None => {
                        lemma_empty_object_never_misses(rest, path, repl);
                    },
                }
            },
        }
    }
}

/// Whether an exec result stands for a spec result of a path edit.
pub open spec fn edit_matches(r: Result<(JsonValue, bool), AppError>, s: Result<(JsonView, bool), Seq<char>>) -> bool {
    match (r, s) {
        (Ok((t, hit)), Ok((tv, hv))) => t.tree() == tv && hit == hv,
        (Err(e), Err(m)) => e == AppError::InvalidInput(e->InvalidInput_0) && e->InvalidInput_0@ == m,
        _ => false,
    }
}

fn invalid_chars(v: &[char]) -> (e: AppError)
    ensures
        e is InvalidInput,
        e->InvalidInput_0@ == v@,
{
    AppError::InvalidInput(from_chars(v))
}

/// `path + " ..."` style message pieces.
fn message3(a: &str, b: &[char], c: &str) -> (r: Vec<char>)
    ensures
        r@ == a@ + b@ + c@,
{
    let av = to_chars(a);
    let cv = to_chars(c);
    let ab = concat(av.as_slice(), b);
    concat(ab.as_slice(), cv.as_slice())
}

fn set_at_exec(node: JsonValue, parts: &Vec<Vec<char>>, k: usize, path: &[char], repl: JsonValue) -> (r: Result<(JsonValue, bool), AppError>)
    requires
        k < parts@.len(),
    ensures
        edit_matches(r, set_at(node.tree(), views(parts@).skip(k as int), path@, repl.tree())),
    decreases parts@.len() - k,
{
    let ghost ps = views(parts@).skip(k as int);
    assert(ps[0] == parts@[k as int]@);
    assert(ps.len() == parts@.len() - k);
    let part = parts[k].as_slice();
    let last = parts.len() - k == 1;
    if !last {
        assert(ps.drop_first() =~= views(parts@).skip(k + 1));
    }
    match parse_index(part) {
        Some(i) => {
            match node {
                JsonValue::Array(mut items) => {
                    if i < items.len() {
                        proof {
                            lemma_trees(items@);
                        }
                        let ghost old_items = items@;
                        if last {
                            let _old = items.remove(i);
                            let ghost rt = repl.tree();
                            items.insert(i, repl);
                            proof {
                                lemma_trees(items@);
                                assert(items@ =~= old_items.update(i as int, items@[i as int]));
                                assert(trees(items@) =~= trees(old_items).update(i as int, rt));
                            }
                            Ok((JsonValue::Array(items), true))
                        } else {
                            let child = items.remove(i);
                            assert(child == old_items[i as int]);
                            match set_at_exec(child, parts, k + 1, path, repl) {
                                Ok((c, hit)) => {
                                    let ghost ct = c.tree();
                                    items.insert(i, c);
                                    proof {
                                        lemma_trees(items@);
                                        assert(items@ =~= old_items.update(i as int, items@[i as int]));
                                        assert(trees(items@) =~= trees(old_items).update(i as int, ct));
                                    }
                                    Ok((JsonValue::Array(items), hit))
                                },
                                Err(e) => Err(e),
                            }
                        }
                    } else {
                        proof {
                            lemma_trees(items@);
                        }
                        Ok((JsonValue::Array(items), false))
                    }
                },
                _ => {
                    if last {
                        let m = message3("路径 ", path, " 叶子节点不是数组");
                        Err(invalid_chars(m.as_slice()))
                    } else {
                        let m1 = message3("路径 ", path, " 需要数组节点 ");
                        let m = concat(m1.as_slice(), part);
                        Err(invalid_chars(m.as_slice()))
                    }
                },
            }
        },
        None => {
            let mut entries: Vec<(String, JsonValue)> = match node {
                JsonValue::Object(entries) => entries,
                _ => Vec::new(),
            };
            proof {
                lemma_entry_trees(entries@);
            }
            let ghost old_entries = entries@;
            let ghost et = entry_trees(old_entries);
            assert(et =~= object_entries(node.tree())) by {
                match node {
                    JsonValue::Object(_) => {},
                    _ => {
                        assert(et =~= Seq::<(Seq<char>, JsonView)>::empty());
                    },
                }
            }
            let pos = find_key(&entries, part);
            if last {
                let key = from_chars(part);
                let ghost rt = repl.tree();
                match pos {
                    Some(j) => {
                        let _old = entries.remove(j);
                        entries.insert(j, (key, repl));
                        proof {
                            lemma_entry_trees(entries@);
                            assert(entry_trees(entries@) =~= et.update(j as int, (part@, rt)));
                        }
                    },
                    None => {
                        let lb = lower_bound_exec(&entries, key.as_str());
                        proof {
                            lemma_lower_bound_range(et, part@);
                        }
                        entries.insert(lb, (key, repl));
                        proof {
                            lemma_entry_trees(entries@);
                            assert(entry_trees(entries@) =~= et.insert(lb as int, (part@, rt)));
                        }
                    },
                }
                Ok((JsonValue::Object(entries), true))
            } else {
                match pos {
                    Some(j) => {
                        let (name, child) = entries.remove(j);
                        assert(child.tree() == et[j as int].1);
                        assert(name@ == part@);
                        match set_at_exec(child, parts, k + 1, path, repl) {
                            Ok((c, hit)) => {
                                let ghost ct = c.tree();
                                entries.insert(j, (name, c));
                                proof {
                                    lemma_entry_trees(entries@);
                                    assert(entry_trees(entries@) =~= et.update(j as int, (part@, ct)));
                                }
                                Ok((JsonValue::Object(entries), hit))
                            },
                            Err(e) => Err(e),
                        }
                    },
                    None => {
                        let child = JsonValue::Object(Vec::new());
                        proof {
                            assert(entry_trees(Seq::<(String, JsonValue)>::empty()) =~= Seq::<(Seq<char>, JsonView)>::empty());
                        }
                        match set_at_exec(child, parts, k + 1, path, repl) {
                            Ok((c, hit)) => {
                                let ghost ct = c.tree();
                                let key = from_chars(part);
                                let lb = lower_bound_exec(&entries, key.as_str());
                                proof {
                                    lemma_lower_bound_range(et, part@);
                                }
                                entries.insert(lb, (key, c));
                                proof {
                                    lemma_entry_trees(entries@);
                                    assert(entry_trees(entries@) =~= et.insert(lb as int, (part@, ct)));
                                }
                                Ok((JsonValue::Object(entries), hit))
                            },
                            Err(e) => Err(e),
                        }
                    },
                }
            }
        },
    }
}

/// Sets `replacement` at the dot-separated `path` of `root` (empty parts are
/// skipped). Returns the edited document and whether the value was set;
/// an index past the end of an array leaves the document as it was.
pub fn set_json_path(root: JsonValue, path: &str, replacement: JsonValue) -> (r: Result<(JsonValue, bool), AppError>)
    ensures
        edit_matches(r, set_path(root.tree(), path@, replacement.tree())),
{
    let parts = split_path(path);
    if parts.len() == 0 {
        return Err(AppError::InvalidInput(String::from_str("JSON 改写路径不能为空")));
    }
    let pv = to_chars(path);
    assert(views(parts@).skip(0) =~= views(parts@));
    set_at_exec(root, &parts, 0, pv.as_slice(), replacement)
}

// ---------------------------------------------------------------------------
// Moving documents in and out of serde_json
// ---------------------------------------------------------------------------

/// The document that `serde_json::from_slice::<Value>` parses from bytes,
/// `None` when it rejects them.
pub uninterp spec fn json_doc(bytes: Seq<u8>) -> Option<JsonView>;

/// Whether bytes are a JSON text that serde_json accepts.
pub open spec fn is_json(bytes: Seq<u8>) -> bool {
    json_doc(bytes) is Some
}

/// What a `serde_json::Value` holds, as a document: each number as the
/// text serde_json prints for it, an object's entries in the order of its
/// map, which is by name.
pub uninterp spec fn value_tree(v: serde_json::Value) -> JsonView;

/// The compact text that `serde_json::to_string` prints for a value
/// holding the document.
pub uninterp spec fn json_printed(t: JsonView) -> Seq<char>;

/// Names in strictly ascending order, as Rust orders strings: the order
/// in which serde_json's map holds an object's entries.
pub open spec fn keys_ascending(entries: Seq<(Seq<char>, JsonView)>) -> bool {
    forall|i: int, j: int| 0 <= i < j < entries.len() ==> name_lt(#[trigger] entries[i].0, #[trigger] entries[j].0)
}

/// Whether every object of a document, at any depth, lists its names in
/// ascending order.
pub open spec fn sorted_tree(t: JsonView) -> bool
    decreases t, 1nat,
{
    match t {
        JsonView::Array(items) => {
            proof {
                assert(decreases_to!(t => items));
            }
            all_sorted(items)
        },
        JsonView::Object(entries) => {
            proof {
                assert(decreases_to!(t => entries));
            }
            keys_ascending(entries) && entries_sorted(entries)
        },
        _ => true,
    }
}

/// Whether each document of a sequence is sorted.
pub open spec fn all_sorted(s: Seq<JsonView>) -> bool
    decreases s, 0nat,
{
    if s.len() == 0 {
        true
    } else {
        proof {
            assert(decreases_to!(s => s[0]));
            assert(decreases_to!(s => s.drop_first()));
        }
        sorted_tree(s[0]) && all_sorted(s.drop_first())
    }
}

/// Whether the value of each entry is sorted.
pub open spec fn entries_sorted(s: Seq<(Seq<char>, JsonView)>) -> bool
    decreases s, 0nat,
{
    if s.len() == 0 {
        true
    } else {
        proof {
            assert(decreases_to!(s => s[0]));
            assert(decreases_to!(s[0] => s[0].1));
            assert(decreases_to!(s => s.drop_first()));
        }
        sorted_tree(s[0].1) && entries_sorted(s.drop_first())
    }
}

/// `all_sorted` holds exactly when each document is sorted.
pub proof fn lemma_all_sorted(s: Seq<JsonView>)
    ensures
        all_sorted(s) <==> forall|i: int| 0 <= i < s.len() ==> #[trigger] sorted_tree(s[i]),
    decreases s.len(),
{
    if s.len() > 0 {
        lemma_all_sorted(s.drop_first());
        if forall|i: int| 0 <= i < s.len() ==> #[trigger] sorted_tree(s[i]) {
            assert forall|i: int| 0 <= i < s.drop_first().len() implies #[trigger] sorted_tree(s.drop_first()[i]) by {
                assert(s.drop_first()[i] == s[i + 1]);
            }
            assert(sorted_tree(s[0]));
            assert(all_sorted(s));
        }
        if all_sorted(s) {
            assert forall|i: int| 0 <= i < s.len() implies #[trigger] sorted_tree(s[i]) by {
                if i > 0 {
                    assert(s.drop_first()[i - 1] == s[i]);
                }
            }
        }
    }
}

/// `entries_sorted` holds exactly when each entry's value is sorted.
pub proof fn lemma_entries_sorted(s: Seq<(Seq<char>, JsonView)>)
    ensures
        entries_sorted(s) <==> forall|i: int| 0 <= i < s.len() ==> #[trigger] sorted_tree(s[i].1),
    decreases s.len(),
{
    if s.len() > 0 {
        lemma_entries_sorted(s.drop_first());
        if forall|i: int| 0 <= i < s.len() ==> #[trigger] sorted_tree(s[i].1) {
            assert forall|i: int| 0 <= i < s.drop_first().len() implies #[trigger] sorted_tree(s.drop_first()[i].1) by {
                assert(s.drop_first()[i] == s[i + 1]);
            }
            assert(sorted_tree(s[0].1));
            assert(entries_sorted(s));
        }
        if entries_sorted(s) {
            assert forall|i: int| 0 <= i < s.len() implies #[trigger] sorted_tree(s[i].1) by {
                if i > 0 {
                    assert(s.drop_first()[i - 1] == s[i]);
                }
            }
        }
    }
}

/// A number as serde_json holds it, with the text serde_json prints for it.
pub struct JsonNumber {
    value: serde_json::Value,
    text: String,
}

impl JsonNumber {
    /// The value is the number the text names.
    #[verifier::type_invariant]
    spec fn held(self) -> bool {
        value_tree(self.value) == JsonView::Number(self.text@)
    }

    /// The text serde_json prints for the number.
    pub closed spec fn text(self) -> Seq<char> {
        self.text@
    }

    /// The number of an integer; its text is the integer in decimal.
    pub fn from_i64(n: i64) -> (r: JsonNumber)
        ensures
            r.text() == crate::text::dec_int(n as int),
    {
        let value = json_i64(n);
        let digits = crate::text::dec_i64(n);
        JsonNumber { value, text: from_chars(digits.as_slice()) }
    }

    /// The serde_json value of the number.
    fn into_value(self) -> (r: serde_json::Value)
        ensures
            value_tree(r) == JsonView::Number(self.text()),
    {
        proof {
            use_type_invariant(&self);
        }
        self.value
    }
}

/// `serde_json::Value::from(i64)`: a number value; serde_json prints an
/// integer in decimal, with a minus sign when negative.
#[verifier::external_body]
fn json_i64(n: i64) -> (r: serde_json::Value)
    ensures
        value_tree(r) == JsonView::Number(crate::text::dec_int(n as int)),
{
    serde_json::Value::from(n)
}

/// One level of a serde_json value; the children are still serde_json's,
/// and a number stays the value it is.
pub enum JsonNode {
    Null,
    Bool(bool),
    Number(serde_json::Value),
    Str(String),
    Array(Vec<serde_json::Value>),
    Object(Vec<(String, serde_json::Value)>),
}

/// The document a node is the top level of.
pub open spec fn node_tree(n: JsonNode) -> JsonView {
    match n {
        JsonNode::Null => JsonView::Null,
        JsonNode::Bool(b) => JsonView::Bool(b),
        JsonNode::Number(v) => value_tree(v),
        JsonNode::Str(s) => JsonView::Str(s@),
        JsonNode::Array(items) => JsonView::Array(Seq::new(items@.len(), |i: int| value_tree(items@[i]))),
        JsonNode::Object(entries) => JsonView::Object(
            Seq::new(entries@.len(), |i: int| (entries@[i].0@, value_tree(entries@[i].1))),
        ),
    }
}

/// `serde_json::from_slice::<Value>`: parses bytes into a document; the
/// error is serde_json's message. It succeeds exactly on the texts that
/// `json_doc` parses, and the value holds the document parsed.
#[verifier::external_body]
fn json_from_slice(bytes: &[u8]) -> (r: Result<serde_json::Value, String>)
    ensures
        r is Ok <==> json_doc(bytes@) is Some,
        r matches Ok(v) ==> json_doc(bytes@) == Some(value_tree(v)),
{
    serde_json::from_slice::<serde_json::Value>(bytes).map_err(|e| e.to_string())
}

/// Opens one level of a serde_json value (a match on `serde_json::Value`'s
/// variants; an object's entries come out of its map, by name). The node
/// holds the same document; a number node holds the number's value.
#[verifier::external_body]
fn json_open(v: serde_json::Value) -> (r: JsonNode)
    ensures
        node_tree(r) == value_tree(v),
        r matches JsonNode::Number(w) ==> value_tree(w) is Number,
        r is Object ==> keys_ascending(node_tree(r)->Object_0),
{
    match v {
        serde_json::Value::Null => JsonNode::Null,
        serde_json::Value::Bool(b) => JsonNode::Bool(b),
        serde_json::Value::Number(n) => JsonNode::Number(serde_json::Value::Number(n)),
        serde_json::Value::String(s) => JsonNode::Str(s),
        serde_json::Value::Array(items) => JsonNode::Array(items),
        serde_json::Value::Object(map) => JsonNode::Object(map.into_iter().collect()),
    }
}

/// `Display` of a `serde_json::Value`: for a number, the text serde_json
/// prints for it.
#[verifier::external_body]
fn number_text(v: &serde_json::Value) -> (r: String)
    requires
        value_tree(*v) is Number,
    ensures
        value_tree(*v) == JsonView::Number(r@),
{
    v.to_string()
}

/// Closes one level into a serde_json value. An object's entries, given in
/// ascending name order, are collected into `serde_json::Map`, which keeps
/// every one of them in that order; the value holds the node's document.
#[verifier::external_body]
fn json_close(n: JsonNode) -> (r: serde_json::Value)
    requires
        n is Object ==> keys_ascending(node_tree(n)->Object_0),
    ensures
        value_tree(r) == node_tree(n),
{
    match n {
        JsonNode::Null => serde_json::Value::Null,
        JsonNode::Bool(b) => serde_json::Value::Bool(b),
        JsonNode::Number(v) => v,
        JsonNode::Str(s) => serde_json::Value::String(s),
        JsonNode::Array(items) => serde_json::Value::Array(items),
        JsonNode::Object(entries) => serde_json::Value::Object(entries.into_iter().collect()),
    }
}

/// `serde_json::to_string`: the compact JSON text of a value. Its
/// documentation names two causes of failure, a `Serialize` impl that fails
/// and a map with keys that are not strings; `Value`'s impl fails only when
/// the writer does (here a `Vec`, which does not) and its map keys are
/// strings, so the call succeeds, with the text `json_printed` names.
#[verifier::external_body]
fn json_to_string(v: &serde_json::Value) -> (r: Result<String, String>)
    ensures
        r is Ok,
        r matches Ok(s) ==> s@ == json_printed(value_tree(*v)),
{
    serde_json::to_string(v).map_err(|e| e.to_string())
}

/// The elements of a vector in the same order, consumed one at a time from
/// the end.
fn reversed<T>(items: Vec<T>) -> (r: Vec<T>)
    ensures
        r@.len() == items@.len(),
        forall|i: int| 0 <= i < r@.len() ==> #[trigger] r@[i] == items@[items@.len() - 1 - i],
{
    let mut rest = items;
    let ghost all = rest@;
    let mut out: Vec<T> = Vec::new();
    while rest.len() > 0
        invariant
            rest@ == all.take(rest@.len() as int),
            rest@.len() + out@.len() == all.len(),
            forall|i: int| 0 <= i < out@.len() ==> #[trigger] out@[i] == all[all.len() - 1 - i],
        decreases rest@.len(),
    {
        let x = rest.pop().unwrap();
        out.push(x);
        assert(rest@ =~= all.take(rest@.len() as int));
    }
    out
}

/// Whether a document nests fewer than `fuel` levels: its own level and,
/// for an array or object, each child's within one level less.
pub open spec fn depth_within(v: JsonView, fuel: nat) -> bool
    decreases fuel,
{
    if fuel == 0 {
        false
    } else {
        match v {
            JsonView::Array(items) => forall|i: int|
                0 <= i < items.len() ==> depth_within(#[trigger] items[i], (fuel - 1) as nat),
            JsonView::Object(entries) => forall|i: int|
                0 <= i < entries.len() ==> depth_within(#[trigger] entries[i].1, (fuel - 1) as nat),
            _ => true,
        }
    }
}

/// A child nested too deeply makes its parent nested too deeply.
proof fn lemma_deep_child(v: JsonView, fuel: nat, child: JsonView)
    requires
        fuel > 0,
        match v {
            JsonView::Array(items) => items.contains(child),
            JsonView::Object(entries) => exists|i: int| 0 <= i < entries.len() && entries[i].1 == child,
            _ => false,
        },
        !depth_within(child, (fuel - 1) as nat),
    ensures
        !depth_within(v, fuel),
{
    match v {
        JsonView::Array(items) => {
            let i = choose|i: int| 0 <= i < items.len() && items[i] == child;
            assert(!depth_within(items[i], (fuel - 1) as nat));
        },
        JsonView::Object(entries) => {
            let i = choose|i: int| 0 <= i < entries.len() && entries[i].1 == child;
            assert(!depth_within(entries[i].1, (fuel - 1) as nat));
        },
        _ => {},
    }
}

proof fn lemma_trees_index(s: Seq<JsonValue>)
    ensures
        trees(s).len() == s.len(),
        forall|i: int| 0 <= i < s.len() ==> #[trigger] trees(s)[i] == s[i].tree(),
    decreases s.len(),
{
    if s.len() > 0 {
        lemma_trees_index(s.drop_first());
        assert forall|i: int| 0 <= i < s.len() implies #[trigger] trees(s)[i] == s[i].tree() by {
            if i > 0 {
                assert(s.drop_first()[i - 1] == s[i]);
            }
        }
    }
}

proof fn lemma_entry_trees_index(s: Seq<(String, JsonValue)>)
    ensures
        entry_trees(s).len() == s.len(),
        forall|i: int| 0 <= i < s.len() ==> #[trigger] entry_trees(s)[i] == (s[i].0@, s[i].1.tree()),
    decreases s.len(),
{
    if s.len() > 0 {
        lemma_entry_trees_index(s.drop_first());
        assert forall|i: int| 0 <= i < s.len() implies #[trigger] entry_trees(s)[i] == (s[i].0@, s[i].1.tree()) by {
            if i > 0 {
                assert(s.drop_first()[i - 1] == s[i]);
            }
        }
    }
}

/// Moves a serde_json document into the library's tree. `fuel` bounds the
/// nesting depth that is followed; `None` exactly when it runs out.
fn tree_of(v: serde_json::Value, fuel: usize) -> (r: Option<JsonValue>)
    ensures
        r is Some <==> depth_within(value_tree(v), fuel as nat),
        r matches Some(t) ==> t.tree() == value_tree(v) && sorted_tree(t.tree()),
    decreases fuel,
{
    let ghost vt = value_tree(v);
    if fuel == 0 {
        return None;
    }
    let next = fuel - 1;
    let node = json_open(v);
    let ghost nt = node_tree(node);
    match node {
        JsonNode::Null => Some(JsonValue::Null),
        JsonNode::Bool(b) => Some(JsonValue::Bool(b)),
        JsonNode::Number(w) => {
            let text = number_text(&w);
            Some(JsonValue::Number(JsonNumber { value: w, text }))
        },
        JsonNode::Str(s) => Some(JsonValue::Str(s)),
        JsonNode::Array(items) => {
            let ghost all = items@;
            let ghost kids = Seq::new(all.len(), |i: int| value_tree(all[i]));
            assert(vt == JsonView::Array(kids));
            let mut rest = reversed(items);
            let mut out: Vec<JsonValue> = Vec::new();
            while rest.len() > 0
                invariant
                    next < fuel,
                    next == fuel - 1,
                    rest@.len() + out@.len() == all.len(),
                    forall|i: int| 0 <= i < rest@.len() ==> #[trigger] rest@[i] == all[all.len() - 1 - i],
                    forall|j: int| 0 <= j < out@.len() ==> (#[trigger] out@[j]).tree() == kids[j] && sorted_tree(out@[j].tree())
                        && depth_within(out@[j].tree(), next as nat),
                    kids == Seq::new(all.len(), |i: int| value_tree(all[i])),
                    vt == JsonView::Array(kids),
                    vt == value_tree(v),
                decreases rest@.len(),
            {
                let k = out.len();
                let item = rest.pop().unwrap();
                assert(item == all[k as int]);
                match tree_of(item, next) {
                    Some(t) => {
                        let ghost before = out@;
                        out.push(t);
                        assert(forall|j: int| 0 <= j < before.len() ==> out@[j] == before[j]);
                    },
                    None => {
                        proof {
                            let f = fuel as nat;
                            assert((f - 1) as nat == next as nat);
                            assert(kids[k as int] == value_tree(all[k as int]));
                            assert(kids.contains(kids[k as int]));
                            lemma_deep_child(vt, f, kids[k as int]);
                        }
                        return None;
                    },
                }
            }
            proof {
                lemma_trees_index(out@);
                assert(trees(out@) =~= kids);
                lemma_all_sorted(trees(out@));
            }
            Some(JsonValue::Array(out))
        },
        JsonNode::Object(entries) => {
            let ghost all = entries@;
            let ghost kids = Seq::new(all.len(), |i: int| (all[i].0@, value_tree(all[i].1)));
            assert(vt == JsonView::Object(kids));
            assert(keys_ascending(kids));
            let mut rest = reversed(entries);
            let mut out: Vec<(String, JsonValue)> = Vec::new();
            while rest.len() > 0
                invariant
                    next < fuel,
                    next == fuel - 1,
                    rest@.len() + out@.len() == all.len(),
                    forall|i: int| 0 <= i < rest@.len() ==> #[trigger] rest@[i] == all[all.len() - 1 - i],
                    forall|j: int| 0 <= j < out@.len() ==> ((#[trigger] out@[j]).0@, out@[j].1.tree()) == kids[j]
                        && sorted_tree(out@[j].1.tree()) && depth_within(out@[j].1.tree(), next as nat),
                    kids == Seq::new(all.len(), |i: int| (all[i].0@, value_tree(all[i].1))),
                    vt == JsonView::Object(kids),
                    vt == value_tree(v),
                decreases rest@.len(),
            {
                let k = out.len();
                let (name, item) = rest.pop().unwrap();
                assert(name == all[k as int].0 && item == all[k as int].1);
                match tree_of(item, next) {
                    Some(t) => {
                        let ghost before = out@;
                        out.push((name, t));
                        assert(forall|j: int| 0 <= j < before.len() ==> out@[j] == before[j]);
                    },
                    None => {
                        proof {
                            let f = fuel as nat;
                            assert((f - 1) as nat == next as nat);
                            assert(kids[k as int].1 == value_tree(all[k as int].1));
                            lemma_deep_child(vt, f, kids[k as int].1);
                        }
                        return None;
                    },
                }
            }
            proof {
                lemma_entry_trees_index(out@);
                assert(entry_trees(out@) =~= kids);
                lemma_entries_sorted(entry_trees(out@));
            }
            Some(JsonValue::Object(out))
        },
    }
}

/// Moves a tree back into a serde_json document; `fuel` as for `tree_of`.
fn serde_of(t: JsonValue, fuel: usize) -> (r: Option<serde_json::Value>)
    requires
        sorted_tree(t.tree()),
    ensures
        r is Some <==> depth_within(t.tree(), fuel as nat),
        r matches Some(v) ==> value_tree(v) == t.tree(),
    decreases fuel,
{
    if fuel == 0 {
        return None;
    }
    let next = fuel - 1;
    let ghost tv = t.tree();
    match t {
        JsonValue::Null => Some(json_close(JsonNode::Null)),
        JsonValue::Bool(b) => Some(json_close(JsonNode::Bool(b))),
        JsonValue::Number(n) => Some(n.into_value()),
        JsonValue::Str(s) => Some(json_close(JsonNode::Str(s))),
        JsonValue::Array(items) => {
            let ghost all = items@;
            let n = items.len();
            proof {
                lemma_trees_index(all);
                assert(tv == JsonView::Array(trees(all)));
                lemma_all_sorted(trees(all));
            }
            let mut rest = reversed(items);
            let mut out: Vec<serde_json::Value> = Vec::new();
            let mut k: usize = 0;
            while rest.len() > 0
                invariant
                    next < fuel,
                    next == fuel - 1,
                    rest@.len() + k == all.len(),
                    out@.len() == k,
                    forall|i: int| 0 <= i < rest@.len() ==> #[trigger] rest@[i] == all[all.len() - 1 - i],
                    forall|j: int| 0 <= j < k ==> depth_within(#[trigger] all[j].tree(), next as nat),
                    forall|j: int| 0 <= j < k ==> value_tree(#[trigger] out@[j]) == all[j].tree(),
                    trees(all).len() == all.len(),
                    all.len() == n,
                    tv == JsonView::Array(trees(all)),
                    forall|i: int| 0 <= i < all.len() ==> sorted_tree(#[trigger] trees(all)[i]),
                    tv == t.tree(),
                    forall|i: int| 0 <= i < all.len() ==> #[trigger] trees(all)[i] == all[i].tree(),
                decreases rest@.len(),
            {
                let item = rest.pop().unwrap();
                assert(item == all[k as int]);
                assert(sorted_tree(trees(all)[k as int]));
                match serde_of(item, next) {
                    Some(v) => {
                        let ghost before = out@;
                        out.push(v);
                        assert(forall|j: int| 0 <= j < before.len() ==> out@[j] == before[j]);
                    },
                    None => {
                        proof {
                            let f = fuel as nat;
                            assert((f - 1) as nat == next as nat);
                            assert(trees(all).contains(trees(all)[k as int]));
                            lemma_deep_child(tv, f, trees(all)[k as int]);
                        }
                        return None;
                    },
                }
                k = k + 1;
            }
            assert forall|i: int| 0 <= i < trees(all).len() implies depth_within(#[trigger] trees(all)[i], next as nat) by {
                assert(trees(all)[i] == all[i].tree());
            }
            let ghost outs = out@;
            let r = json_close(JsonNode::Array(out));
            assert(Seq::new(outs.len(), |i: int| value_tree(outs[i])) =~= trees(all));
            Some(r)
        },
        JsonValue::Object(entries) => {
            let ghost all = entries@;
            let n = entries.len();
            proof {
                lemma_entry_trees_index(all);
                assert(tv == JsonView::Object(entry_trees(all)));
                lemma_entries_sorted(entry_trees(all));
            }
            let mut rest = reversed(entries);
            let mut out: Vec<(String, serde_json::Value)> = Vec::new();
            let mut k: usize = 0;
            while rest.len() > 0
                invariant
                    next < fuel,
                    next == fuel - 1,
                    rest@.len() + k == all.len(),
                    out@.len() == k,
                    forall|i: int| 0 <= i < rest@.len() ==> #[trigger] rest@[i] == all[all.len() - 1 - i],
                    forall|j: int| 0 <= j < k ==> depth_within(#[trigger] all[j].1.tree(), next as nat),
                    forall|j: int| 0 <= j < k ==> ((#[trigger] out@[j]).0@, value_tree(out@[j].1)) == entry_trees(all)[j],
                    entry_trees(all).len() == all.len(),
                    all.len() == n,
                    tv == JsonView::Object(entry_trees(all)),
                    keys_ascending(entry_trees(all)),
                    forall|i: int| 0 <= i < all.len() ==> sorted_tree(#[trigger] entry_trees(all)[i].1),
                    tv == t.tree(),
                    forall|i: int| 0 <= i < all.len() ==> #[trigger] entry_trees(all)[i] == (all[i].0@, all[i].1.tree()),
                decreases rest@.len(),
            {
                let (name, item) = rest.pop().unwrap();
                assert(name == all[k as int].0 && item == all[k as int].1);
                assert(sorted_tree(entry_trees(all)[k as int].1));
                match serde_of(item, next) {
                    Some(v) => {
                        let ghost before = out@;
                        out.push((name, v));
                        assert(forall|j: int| 0 <= j < before.len() ==> out@[j] == before[j]);
                    },
                    None => {
                        proof {
                            let f = fuel as nat;
                            assert((f - 1) as nat == next as nat);
                            lemma_deep_child(tv, f, entry_trees(all)[k as int].1);
                        }
                        return None;
                    },
                }
                k = k + 1;
            }
            assert forall|i: int| 0 <= i < entry_trees(all).len() implies depth_within(#[trigger] entry_trees(all)[i].1, next as nat) by {
                assert(entry_trees(all)[i] == (all[i].0@, all[i].1.tree()));
            }
            let ghost outs = out@;
            assert(Seq::new(outs.len(), |i: int| (outs[i].0@, value_tree(outs[i].1))) =~= entry_trees(all));
            let r = json_close(JsonNode::Object(out));
            Some(r)
        },
    }
}

/// The message of a document nested too deeply to be moved.
fn too_deep() -> (e: AppError)
    ensures
        e matches AppError::Json(m) && m@ == "recursion limit exceeded"@,
{
    AppError::Json(String::from_str("recursion limit exceeded"))
}

/// Parses JSON bytes into a tree: the document serde_json parses, unless it
/// nests `usize::MAX` levels or more, which is the nesting-limit error. A
/// text serde_json rejects is a `Json` error with its message.
pub fn parse_json(bytes: &[u8]) -> (r: Result<JsonValue, AppError>)
    ensures
        r is Ok <==> (json_doc(bytes@) matches Some(d) && depth_within(d, usize::MAX as nat)),
        r matches Ok(t) ==> json_doc(bytes@) == Some(t.tree()) && sorted_tree(t.tree()),
        r is Err ==> r->Err_0 is Json,
        (is_json(bytes@) && r is Err) ==> (r matches Err(AppError::Json(m)) && m@ == "recursion limit exceeded"@),
{
    match json_from_slice(bytes) {
        Ok(v) => match tree_of(v, usize::MAX) {
            Some(t) => Ok(t),
            None => Err(too_deep()),
        },
        Err(m) => Err(AppError::Json(m)),
    }
}

/// The compact JSON text of a tree whose objects list their names in
/// ascending order, as serde_json prints it; it fails only for a tree
/// nested `usize::MAX` levels or more.
pub fn json_text(t: JsonValue) -> (r: Result<String, AppError>)
    requires
        sorted_tree(t.tree()),
    ensures
        r is Ok <==> depth_within(t.tree(), usize::MAX as nat),
        r matches Ok(s) ==> s@ == json_printed(t.tree()),
        r is Err ==> (r matches Err(AppError::Json(m)) && m@ == "recursion limit exceeded"@),
{
    let ghost tv = t.tree();
    match serde_of(t, usize::MAX) {
        Some(v) => match json_to_string(&v) {
            Ok(s) => Ok(s),
            Err(m) => Err(AppError::Json(m)),
        },
        None => Err(too_deep()),
    }
}

/// Whether a text is JSON that serde_json accepts (its UTF-8 bytes parsed
/// as `serde_json::from_str` does).
pub fn is_json_text(text: &str) -> (r: bool)
    ensures
        r == is_json(encode_utf8(text@)),
{
    let bytes = str_bytes(text);
    json_from_slice(bytes.as_slice()).is_ok()
}

} // verus!
