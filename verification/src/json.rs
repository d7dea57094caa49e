//! JSON documents.
//!
//! `serde_json` reads and writes the texts. The rest of the library works on [`Json`], a plain
//! tree, whose meaning is a [`JsonTree`].
use crate::text::same;
use vstd::prelude::*;

verus! {

broadcast use vstd::map::group_map_axioms;

/// `serde_json::Value`.
#[verifier::external_type_specification]
#[verifier::external_body]
pub struct ExValue(serde_json::Value);

/// `serde_json::Number`.
#[verifier::external_type_specification]
#[verifier::external_body]
pub struct ExNumber(serde_json::Number);

/// `serde_json::Error`.
#[verifier::external_type_specification]
#[verifier::external_body]
pub struct ExError(serde_json::Error);

/// `serde_json::Map`.
#[verifier::external_type_specification]
#[verifier::external_body]
#[verifier::reject_recursive_types(K)]
#[verifier::reject_recursive_types(V)]
pub struct ExMap<K, V>(serde_json::Map<K, V>);

// ---------------------------------------------------------------------------------------------
// The model
// ---------------------------------------------------------------------------------------------
/// What a JSON document says. Numbers that are not integers of 64 bits are carried unread.
#[verifier::ext_equal]
pub ghost enum JsonTree {
    Null,
    Bool(bool),
    UInt(u64),
    /// A negative number.
    Int(i64),
    Real(serde_json::Number),
    Str(Seq<char>),
    Arr(Seq<JsonTree>),
    Obj(Map<Seq<char>, JsonTree>),
}

/// The integer of 64 bits that a number is, where it is one.
pub uninterp spec fn number_integer(n: serde_json::Number) -> Option<int>;

/// The document that a value holds.
pub uninterp spec fn value_tree(v: serde_json::Value) -> JsonTree;

/// The entries that a map holds.
pub uninterp spec fn map_entries(
    m: serde_json::Map<String, serde_json::Value>,
) -> Map<Seq<char>, JsonTree>;

/// The document that `serde_json::from_str` reads from a text, where it accepts it.
pub uninterp spec fn json_document(text: Seq<char>) -> Option<JsonTree>;

/// The text that `serde_json` writes for a document.
pub uninterp spec fn json_text(tree: JsonTree) -> Seq<char>;

pub open spec fn integer_tree(n: int) -> JsonTree {
    if n >= 0 {
        JsonTree::UInt(n as u64)
    } else {
        JsonTree::Int(n as i64)
    }
}

pub open spec fn number_tree(n: serde_json::Number) -> JsonTree {
    match number_integer(n) {
        Some(i) => integer_tree(i),
        None => JsonTree::Real(n),
    }
}

/// Whether arrays and objects are nested in `t` at most `depth` deep, with no number in it but
/// integers.
pub open spec fn is_plain(t: JsonTree, depth: nat) -> bool
    decreases depth,
{
    match t {
        JsonTree::Real(_) => false,
        JsonTree::Arr(items) => depth > 0 && forall|i: int|
            #![trigger items[i]]
            0 <= i < items.len() ==> is_plain(items[i], (depth - 1) as nat),
        JsonTree::Obj(entries) => depth > 0 && entries.dom().finite() && forall|k: Seq<char>|
            #![trigger entries[k]]
            entries.contains_key(k) ==> is_plain(entries[k], (depth - 1) as nat),
        _ => true,
    }
}

// ---------------------------------------------------------------------------------------------
// The outside crate
// ---------------------------------------------------------------------------------------------
/// One level of a `serde_json::Value`.
enum Node {
    Null,
    Bool(bool),
    Number(serde_json::Number),
    Str(String),
    Arr(Vec<serde_json::Value>),
    Obj(serde_json::Map<String, serde_json::Value>),
}

spec fn value_trees(s: Seq<serde_json::Value>) -> Seq<JsonTree> {
    Seq::new(s.len(), |i: int| value_tree(s[i]))
}

spec fn node_tree(n: Node) -> JsonTree {
    match n {
        Node::Null => JsonTree::Null,
        Node::Bool(b) => JsonTree::Bool(b),
        Node::Number(n) => number_tree(n),
        Node::Str(s) => JsonTree::Str(s@),
        Node::Arr(items) => JsonTree::Arr(value_trees(items@)),
        Node::Obj(map) => JsonTree::Obj(map_entries(map)),
    }
}

/// `serde_json::from_str`: the result depends on the text alone.
#[verifier::external_body]
fn value_from_text(text: &str) -> (r: Result<serde_json::Value, serde_json::Error>)
    ensures
        match r {
            Ok(v) => json_document(text@) == Some(value_tree(v)),
            Err(_) => json_document(text@) is None,
        },
{
    serde_json::from_str(text)
}

/// `Value::to_string`: the text depends on the document alone, and reads back as the document
/// where that holds no fraction and stays below the depth that the reader allows.
#[verifier::external_body]
fn text_from_value(v: &serde_json::Value) -> (r: String)
    ensures
        r@ == json_text(value_tree(*v)),
        is_plain(value_tree(*v), 127) ==> json_document(r@) == Some(value_tree(*v)),
{
    v.to_string()
}

/// The variants of `serde_json::Value`, told apart.
#[verifier::external_body]
fn open_value(v: serde_json::Value) -> (n: Node)
    ensures
        node_tree(n) == value_tree(v),
{
    match v {
        serde_json::Value::Null => Node::Null,
        serde_json::Value::Bool(b) => Node::Bool(b),
        serde_json::Value::Number(n) => Node::Number(n),
        serde_json::Value::String(s) => Node::Str(s),
        serde_json::Value::Array(items) => Node::Arr(items),
        serde_json::Value::Object(map) => Node::Obj(map),
    }
}

/// The variants of `serde_json::Value`, built.
#[verifier::external_body]
fn close_value(n: Node) -> (v: serde_json::Value)
    ensures
        value_tree(v) == node_tree(n),
{
    match n {
        Node::Null => serde_json::Value::Null,
        Node::Bool(b) => serde_json::Value::Bool(b),
        Node::Number(n) => serde_json::Value::Number(n),
        Node::Str(s) => serde_json::Value::String(s),
        Node::Arr(items) => serde_json::Value::Array(items),
        Node::Obj(map) => serde_json::Value::Object(map),
    }
}

/// `Number::as_u64`: the number, where it is an integer from zero to `u64::MAX`.
#[verifier::external_body]
fn number_as_u64(n: &serde_json::Number) -> (r: Option<u64>)
    ensures
        match r {
            Some(u) => number_integer(*n) == Some(u as int),
            None => number_integer(*n) matches Some(i) ==> i64::MIN <= i < 0,
        },
{
    n.as_u64()
}

/// `Number::as_i64`: the number, where it is an integer from `i64::MIN` to `i64::MAX`.
#[verifier::external_body]
fn number_as_i64(n: &serde_json::Number) -> (r: Option<i64>)
    ensures
        match r {
            Some(v) => number_integer(*n) == Some(v as int),
            None => number_integer(*n) matches Some(i) ==> i64::MAX < i <= u64::MAX,
        },
{
    n.as_i64()
}

/// `Number::from` on an unsigned integer.
#[verifier::external_body]
fn number_from_u64(u: u64) -> (n: serde_json::Number)
    ensures
        number_integer(n) == Some(u as int),
{
    serde_json::Number::from(u)
}

/// `Number::from` on a signed integer.
#[verifier::external_body]
fn number_from_i64(i: i64) -> (n: serde_json::Number)
    ensures
        number_integer(n) == Some(i as int),
{
    serde_json::Number::from(i)
}

/// `Number::clone`: the same number.
#[verifier::external_body]
fn number_copy(n: &serde_json::Number) -> (r: serde_json::Number)
    ensures
        r == *n,
{
    n.clone()
}

spec fn no_entries() -> Map<Seq<char>, JsonTree> {
    Map::empty()
}

/// `Map::new`: no entries.
#[verifier::external_body]
fn map_new() -> (m: serde_json::Map<String, serde_json::Value>)
    ensures
        map_entries(m) == no_entries(),
{
    serde_json::Map::new()
}

/// `Map::insert`: adds an entry, or replaces the one under the same key.
#[verifier::external_body]
fn map_insert(
    m: &mut serde_json::Map<String, serde_json::Value>,
    key: String,
    v: serde_json::Value,
)
    ensures
        map_entries(*final(m)) == map_entries(*old(m)).insert(key@, value_tree(v)),
{
    m.insert(key, v);
}

/// Whether `pairs` lists the entries of `m`, and nothing else.
spec fn lists_entries(pairs: Seq<(String, serde_json::Value)>, m: Map<Seq<char>, JsonTree>) -> bool {
    &&& m.dom().finite()
    &&& forall|i: int|
        #![trigger pairs[i]]
        0 <= i < pairs.len() ==> m.contains_key(pairs[i].0@) && m[pairs[i].0@] == value_tree(
            pairs[i].1,
        )
    &&& forall|k: Seq<char>|
        #![trigger m.contains_key(k)]
        m.contains_key(k) ==> exists|i: int| 0 <= i < pairs.len() && #[trigger] pairs[i].0@ == k
}

/// `Map::into_iter`: the entries.
#[verifier::external_body]
fn map_pairs(m: serde_json::Map<String, serde_json::Value>) -> (pairs: Vec<(String, serde_json::Value)>)
    ensures
        lists_entries(pairs@, map_entries(m)),
{
    m.into_iter().collect()
}

// ---------------------------------------------------------------------------------------------
// Documents of the library
// ---------------------------------------------------------------------------------------------
/// A JSON document. Where an object names a key more than once, the last entry counts.
pub enum Json {
    Null,
    Bool(bool),
    UInt(u64),
    Int(i64),
    Real(serde_json::Number),
    Str(String),
    Arr(Vec<Json>),
    Obj(Vec<(String, Json)>),
}

/// What the items of an array say.
pub open spec fn trees(s: Seq<Json>) -> Seq<JsonTree>
    decreases s,
{
    if s.len() == 0 {
        Seq::empty()
    } else {
        trees(s.drop_last()).push(tree(s.last()))
    }
}

/// What the entries of an object say.
pub open spec fn entries(s: Seq<(String, Json)>) -> Map<Seq<char>, JsonTree>
    decreases s,
{
    if s.len() == 0 {
        Map::empty()
    } else {
        entries(s.drop_last()).insert(s.last().0@, tree(s.last().1))
    }
}

/// What a document says.
pub open spec fn tree(j: Json) -> JsonTree
    decreases j,
{
    match j {
        Json::Null => JsonTree::Null,
        Json::Bool(b) => JsonTree::Bool(b),
        Json::UInt(u) => JsonTree::UInt(u),
        Json::Int(i) => integer_tree(i as int),
        Json::Real(n) => number_tree(n),
        Json::Str(s) => JsonTree::Str(s@),
        Json::Arr(items) => JsonTree::Arr(trees(items@)),
        Json::Obj(pairs) => JsonTree::Obj(entries(pairs@)),
    }
}

pub proof fn lemma_trees(s: Seq<Json>)
    ensures
        trees(s).len() == s.len(),
        forall|i: int| 0 <= i < s.len() ==> #[trigger] trees(s)[i] == tree(s[i]),
    decreases s.len(),
{
    if s.len() > 0 {
        lemma_trees(s.drop_last());
        assert forall|i: int| 0 <= i < s.len() implies #[trigger] trees(s)[i] == tree(s[i]) by {
            if i < s.len() - 1 {
                assert(trees(s)[i] == trees(s.drop_last())[i]);
                assert(s.drop_last()[i] == s[i]);
            }
        }
    }
}

/// The position of the entry that counts for `key`: the last one under it.
pub open spec fn entry_index(s: Seq<(String, Json)>, key: Seq<char>) -> Option<int>
    decreases s.len(),
{
    if s.len() == 0 {
        None
    } else if s.last().0@ == key {
        Some(s.len() - 1)
    } else {
        entry_index(s.drop_last(), key)
    }
}

pub proof fn lemma_entry_index(s: Seq<(String, Json)>, key: Seq<char>)
    ensures
        match entry_index(s, key) {
            Some(i) => 0 <= i < s.len() && s[i].0@ == key && entries(s).contains_key(key)
                && entries(s)[key] == tree(s[i].1),
            None => !entries(s).contains_key(key),
        },
        entries(s).dom().finite(),
    decreases s.len(),
{
    if s.len() > 0 {
        lemma_entry_index(s.drop_last(), key);
    }
}

fn json_of_value(v: serde_json::Value) -> (j: Json)
    ensures
        tree(j) == value_tree(v),
    decreases value_tree(v),
{
    let ghost whole = value_tree(v);
    match open_value(v) {
        Node::Null => Json::Null,
        Node::Bool(b) => Json::Bool(b),
        Node::Number(n) => match number_as_u64(&n) {
            Some(u) => Json::UInt(u),
            None => match number_as_i64(&n) {
                Some(i) => Json::Int(i),
                None => Json::Real(n),
            },
        },
        Node::Str(s) => Json::Str(s),
        Node::Arr(items) => {
            let ghost all = items@;
            let mut out: Vec<Json> = Vec::new();
            for item in it: items
                invariant
                    it.seq() == all,
                    whole == JsonTree::Arr(value_trees(all)),
                    whole == value_tree(v),
                    out@.len() == it.index(),
                    forall|k: int| 0 <= k < out@.len() ==> tree(#[trigger] out@[k]) == value_tree(all[k]),
            {
                assert(item == all[it.index()]);
                assert(value_trees(all)[it.index()] == value_tree(item));
                assert(decreases_to!(whole => whole->Arr_0));
                assert(decreases_to!(value_trees(all) => value_trees(all)[it.index()]));
                out.push(json_of_value(item));
            }
            proof {
                lemma_trees(out@);
                assert(trees(out@) =~= value_trees(all));
            }
            Json::Arr(out)
        },
        Node::Obj(map) => {
            let ghost m = map_entries(map);
            let pairs = map_pairs(map);
            let ghost all = pairs@;
            let mut out: Vec<(String, Json)> = Vec::new();
            for pair in it: pairs
                invariant
                    it.seq() == all,
                    lists_entries(all, m),
                    whole == JsonTree::Obj(m),
                    whole == value_tree(v),
                    out@.len() == it.index(),
                    forall|k: int|
                        #![trigger out@[k]]
                        0 <= k < out@.len() ==> out@[k].0@ == all[k].0@ && tree(out@[k].1)
                            == value_tree(all[k].1),
            {
                assert(pair == all[it.index()]);
                assert(m.contains_key(pair.0@) && m[pair.0@] == value_tree(pair.1));
                assert(decreases_to!(whole => whole->Obj_0));
                assert(decreases_to!(m => m[pair.0@]));
                let value = json_of_value(pair.1);
                out.push((pair.0, value));
            }
            proof {
                lemma_entries_from_pairs(out@, all, m);
            }
            Json::Obj(out)
        },
    }
}

proof fn lemma_entries_from_pairs(
    out: Seq<(String, Json)>,
    pairs: Seq<(String, serde_json::Value)>,
    m: Map<Seq<char>, JsonTree>,
)
    requires
        lists_entries(pairs, m),
        out.len() == pairs.len(),
        forall|k: int|
            #![trigger out[k]]
            0 <= k < out.len() ==> out[k].0@ == pairs[k].0@ && tree(out[k].1) == value_tree(
                pairs[k].1,
            ),
    ensures
        entries(out) == m,
{
    assert forall|key: Seq<char>|
        #[trigger] entries(out).contains_key(key) == m.contains_key(key) && (m.contains_key(key) ==> entries(
            out,
        )[key] == m[key]) by {
        lemma_entry_index(out, key);
        match entry_index(out, key) {
            Some(i) => {
                assert(out[i].0@ == pairs[i].0@);
            },
            None => {
                if m.contains_key(key) {
                    let i = choose|i: int| 0 <= i < pairs.len() && #[trigger] pairs[i].0@ == key;
                    lemma_entry_present(out, i);
                    assert(out[i].0@ == pairs[i].0@);
                }
            },
        }
    }
    assert forall|key: Seq<char>| #[trigger] entries(out).dom().contains(key) == m.dom().contains(
        key,
    ) by {
        assert(entries(out).contains_key(key) == m.contains_key(key));
    }
    assert forall|key: Seq<char>| m.dom().contains(key) implies #[trigger] entries(out)[key]
        == m[key] by {
        assert(entries(out).contains_key(key) == m.contains_key(key));
    }
    assert(entries(out) =~= m);
}

proof fn lemma_entry_present(s: Seq<(String, Json)>, i: int)
    requires
        0 <= i < s.len(),
    ensures
        entry_index(s, s[i].0@) is Some,
        entry_index(s, s[i].0@)->0 >= i,
    decreases s.len(),
{
    if i < s.len() - 1 {
        lemma_entry_present(s.drop_last(), i);
        assert(s.drop_last()[i] == s[i]);
    }
}

fn value_of_json(j: &Json) -> (v: serde_json::Value)
    ensures
        value_tree(v) == tree(*j),
    decreases j,
{
    match j {
        Json::Null => close_value(Node::Null),
        Json::Bool(b) => close_value(Node::Bool(*b)),
        Json::UInt(u) => close_value(Node::Number(number_from_u64(*u))),
        Json::Int(i) => close_value(Node::Number(number_from_i64(*i))),
        Json::Real(n) => close_value(Node::Number(number_copy(n))),
        Json::Str(s) => close_value(Node::Str(s.clone())),
        Json::Arr(items) => {
            let mut out: Vec<serde_json::Value> = Vec::new();
            let mut i: usize = 0;
            while i < items.len()
                invariant
                    i <= items@.len(),
                    *j == Json::Arr(*items),
                    out@.len() == i,
                    forall|k: int|
                        0 <= k < i ==> value_tree(#[trigger] out@[k]) == tree(items@[k]),
                decreases items.len() - i,
            {
                assert(decreases_to!(*j => j->Arr_0));
                assert(decreases_to!(*items => items@[i as int]));
                out.push(value_of_json(&items[i]));
                i += 1;
            }
            proof {
                lemma_trees(items@);
                assert(value_trees(out@) =~= trees(items@));
            }
            close_value(Node::Arr(out))
        },
        Json::Obj(pairs) => {
            let mut map = map_new();
            let mut i: usize = 0;
            assert(pairs@.take(0) =~= Seq::empty());
            while i < pairs.len()
                invariant
                    i <= pairs@.len(),
                    *j == Json::Obj(*pairs),
                    map_entries(map) == entries(pairs@.take(i as int)),
                decreases pairs.len() - i,
            {
                assert(decreases_to!(*j => j->Obj_0));
                assert(decreases_to!(*pairs => pairs@[i as int]));
                assert(decreases_to!(pairs@[i as int] => pairs@[i as int].1));
                let value = value_of_json(&pairs[i].1);
                map_insert(&mut map, pairs[i].0.clone(), value);
                assert(pairs@.take(i + 1).drop_last() =~= pairs@.take(i as int));
                i += 1;
            }
            assert(pairs@.take(i as int) =~= pairs@);
            close_value(Node::Obj(map))
        },
    }
}

/// Adds an entry to the entries of an object.
pub fn put(pairs: &mut Vec<(String, Json)>, key: &str, value: Json)
    ensures
        entries(final(pairs)@) == entries(old(pairs)@).insert(key@, tree(value)),
        final(pairs)@.len() == old(pairs)@.len() + 1,
{
    pairs.push((key.to_owned(), value));
    assert(pairs@.drop_last() =~= old(pairs)@);
}

/// The text `text`, or null.
pub open spec fn text_or_null(text: Option<Seq<char>>) -> JsonTree {
    match text {
        Some(s) => JsonTree::Str(s),
        None => JsonTree::Null,
    }
}

/// The document in `text`, where it is one.
pub fn parse(text: &str) -> (r: Option<Json>)
    ensures
        match r {
            Some(j) => json_document(text@) == Some(tree(j)),
            None => json_document(text@) is None,
        },
{
    match value_from_text(text) {
        Ok(v) => Some(json_of_value(v)),
        Err(_) => None,
    }
}

/// The text of a document.
pub fn render(j: &Json) -> (text: String)
    ensures
        text@ == json_text(tree(*j)),
        is_plain(tree(*j), 127) ==> json_document(text@) == Some(tree(*j)),
{
    let v = value_of_json(j);
    text_from_value(&v)
}

// ---------------------------------------------------------------------------------------------
// Reading documents
// ---------------------------------------------------------------------------------------------
/// The entry of an object under `key`.
pub open spec fn field(t: JsonTree, key: Seq<char>) -> Option<JsonTree> {
    match t {
        JsonTree::Obj(m) => if m.contains_key(key) {
            Some(m[key])
        } else {
            None
        },
        _ => None,
    }
}

pub open spec fn tree_u64(t: JsonTree) -> Option<u64> {
    match t {
        JsonTree::UInt(u) => Some(u),
        _ => None,
    }
}

pub open spec fn tree_i64(t: JsonTree) -> Option<i64> {
    match t {
        JsonTree::UInt(u) => if u <= i64::MAX {
            Some(u as i64)
        } else {
            None
        },
        JsonTree::Int(i) => Some(i),
        _ => None,
    }
}

pub open spec fn tree_str(t: JsonTree) -> Option<Seq<char>> {
    match t {
        JsonTree::Str(s) => Some(s),
        _ => None,
    }
}

pub open spec fn tree_items(t: JsonTree) -> Option<Seq<JsonTree>> {
    match t {
        JsonTree::Arr(items) => Some(items),
        _ => None,
    }
}

pub open spec fn field_u64(t: JsonTree, key: Seq<char>) -> Option<u64> {
    match field(t, key) {
        Some(f) => tree_u64(f),
        None => None,
    }
}

pub open spec fn field_str(t: JsonTree, key: Seq<char>) -> Option<Seq<char>> {
    match field(t, key) {
        Some(f) => tree_str(f),
        None => None,
    }
}

pub open spec fn field_items(t: JsonTree, key: Seq<char>) -> Option<Seq<JsonTree>> {
    match field(t, key) {
        Some(f) => tree_items(f),
        None => None,
    }
}

impl Json {
    /// The entry of an object under `key`.
    pub fn get(&self, key: &str) -> (r: Option<&Json>)
        ensures
            match r {
                Some(j) => field(tree(*self), key@) == Some(tree(*j)) && decreases_to!(*self => *j),
                None => field(tree(*self), key@) is None,
            },
    {
        match self {
            Json::Obj(pairs) => {
                let mut i: usize = pairs.len();
                assert(pairs@.take(i as int) =~= pairs@);
                proof {
                    lemma_entry_index(pairs@, key@);
                }
                while i > 0
                    invariant
                        i <= pairs@.len(),
                        *self == Json::Obj(*pairs),
                        entry_index(pairs@, key@) == entry_index(pairs@.take(i as int), key@),
                        match entry_index(pairs@, key@) {
                            Some(i) => 0 <= i < pairs@.len() && entries(pairs@).contains_key(key@)
                                && entries(pairs@)[key@] == tree(pairs@[i].1),
                            None => !entries(pairs@).contains_key(key@),
                        },
                    decreases i,
                {
                    assert(pairs@.take(i as int).drop_last() =~= pairs@.take(i - 1));
                    if same(pairs[i - 1].0.as_str(), key) {
                        assert(decreases_to!(*pairs => pairs@[i - 1]));
                        return Some(&pairs[i - 1].1);
                    }
                    i -= 1;
                }
                None
            },
            _ => None,
        }
    }

    pub fn as_u64(&self) -> (r: Option<u64>)
        ensures
            r == tree_u64(tree(*self)),
    {
        match self {
            Json::UInt(u) => Some(*u),
            Json::Int(i) => if *i >= 0 {
                Some(*i as u64)
            } else {
                None
            },
            Json::Real(n) => number_as_u64(n),
            _ => None,
        }
    }

    pub fn as_i64(&self) -> (r: Option<i64>)
        ensures
            r == tree_i64(tree(*self)),
    {
        match self {
            Json::UInt(u) => if *u <= i64::MAX as u64 {
                Some(*u as i64)
            } else {
                None
            },
            Json::Int(i) => Some(*i),
            Json::Real(n) => number_as_i64(n),
            _ => None,
        }
    }

    pub fn as_str(&self) -> (r: Option<&str>)
        ensures
            match r {
                Some(s) => tree_str(tree(*self)) == Some(s@),
                None => tree_str(tree(*self)) is None,
            },
    {
        match self {
            Json::Str(s) => Some(s.as_str()),
            Json::Real(n) => None,
            _ => None,
        }
    }

    /// The items of an array.
    pub fn as_array(&self) -> (r: Option<&Vec<Json>>)
        ensures
            match r {
                Some(items) => tree_items(tree(*self)) == Some(trees(items@)) && decreases_to!(
                    *self => *items
                ),
                None => tree_items(tree(*self)) is None,
            },
    {
        match self {
            Json::Arr(items) => Some(items),
            _ => None,
        }
    }

    pub fn u64_at(&self, key: &str) -> (r: Option<u64>)
        ensures
            r == field_u64(tree(*self), key@),
    {
        match self.get(key) {
            Some(j) => j.as_u64(),
            None => None,
        }
    }

    pub fn str_at(&self, key: &str) -> (r: Option<&str>)
        ensures
            match r {
                Some(s) => field_str(tree(*self), key@) == Some(s@),
                None => field_str(tree(*self), key@) is None,
            },
    {
        match self.get(key) {
            Some(j) => j.as_str(),
            None => None,
        }
    }

    pub fn array_at(&self, key: &str) -> (r: Option<&Vec<Json>>)
        ensures
            match r {
                Some(items) => field_items(tree(*self), key@) == Some(trees(items@)),
                None => field_items(tree(*self), key@) is None,
            },
    {
        match self.get(key) {
            Some(j) => j.as_array(),
            None => None,
        }
    }

    /// The same document once more.
    pub fn copy(&self) -> (r: Json)
        ensures
            tree(r) == tree(*self),
    {
        let v = value_of_json(self);
        json_of_value(v)
    }
}

} // verus!
