//! A JSON value as the parsers of this library read it.
use vstd::prelude::*;

verus! {

/// A JSON value.
#[derive(Debug)]
pub enum Json {
    Null,
    Bool(bool),
    /// A non-negative integer that fits in `u64`.
    Uint(u64),
    /// A negative integer that fits in `i64`.
    Int(i64),
    /// Any other number, by its decimal text: nothing here reads those.
    Real(String),
    Str(String),
    Arr(Vec<Json>),
    Obj(Vec<(String, Json)>),
}

/// Every value under key `key`, at any depth, in document order (a value
/// comes before what is found inside it).
pub open spec fn by_key(v: Json, key: Seq<char>) -> Seq<Json>
    decreases v, 0int,
{
    match v {
        Json::Obj(es) => by_key_entries(es@, key, 0),
        Json::Arr(items) => by_key_items(items@, key, 0),
        _ => seq![],
    }
}

pub open spec fn by_key_entries(es: Seq<(String, Json)>, key: Seq<char>, i: int) -> Seq<Json>
    decreases es, es.len() - i,
{
    if i < 0 || i >= es.len() {
        seq![]
    } else {
        let here: Seq<Json> = if es[i].0@ == key { seq![es[i].1] } else { seq![] };
        here + by_key(es[i].1, key) + by_key_entries(es, key, i + 1)
    }
}

pub open spec fn by_key_items(items: Seq<Json>, key: Seq<char>, i: int) -> Seq<Json>
    decreases items, items.len() - i,
{
    if i < 0 || i >= items.len() {
        seq![]
    } else {
        by_key(items[i], key) + by_key_items(items, key, i + 1)
    }
}


/// A value wrapped in an object under another key is searched as the value
/// itself: where a node sits in the tree does not change what is found.
pub proof fn lemma_by_key_in_object(es: Vec<(String, Json)>, key: Seq<char>)
    requires
        es@.len() == 1,
        es@[0].0@ != key,
    ensures
        by_key(Json::Obj(es), key) == by_key(es@[0].1, key),
{
    assert(by_key_entries(es@, key, 1) == Seq::<Json>::empty());
    assert(by_key(Json::Obj(es), key) == by_key_entries(es@, key, 0));
    assert(by_key_entries(es@, key, 0) =~= by_key(es@[0].1, key));
}

/// A value wrapped in an array of one is searched as the value itself.
pub proof fn lemma_by_key_in_array(items: Vec<Json>, key: Seq<char>)
    requires
        items@.len() == 1,
    ensures
        by_key(Json::Arr(items), key) == by_key(items@[0], key),
{
    assert(by_key_items(items@, key, 1) == Seq::<Json>::empty());
    assert(by_key(Json::Arr(items), key) == by_key_items(items@, key, 0));
    assert(by_key_items(items@, key, 0) =~= by_key(items@[0], key));
}

/// The values some references point to.
pub open spec fn derefs(s: Seq<&Json>) -> Seq<Json> {
    s.map_values(|x: &Json| *x)
}

/// Every value under `key`, at any depth, in document order.
pub fn collect_by_key<'a>(v: &'a Json, key: &str) -> (r: Vec<&'a Json>)
    ensures
        derefs(r@) == by_key(*v, key@),
    decreases *v,
{
    match v {
        Json::Obj(es) => {
            let mut out: Vec<&'a Json> = Vec::new();
            let mut i: usize = 0;
            while i < es.len()
                invariant
                    0 <= i <= es@.len(),
                    derefs(out@) + by_key_entries(es@, key@, i as int) == by_key_entries(es@, key@, 0),
                    *v == Json::Obj(*es),
                decreases es@.len() - i,
            {
                assert(decreases_to!(*v => v->Obj_0@[i as int].1));
                let ghost before = derefs(out@);
                if crate::text::str_eq(es[i].0.as_str(), key) {
                    out.push(&es[i].1);
                }
                let mut inner = collect_by_key(&es[i].1, key);
                out.append(&mut inner);
                proof {
                    let here: Seq<Json> = if es@[i as int].0@ == key@ { seq![es@[i as int].1] } else { seq![] };
                    assert(derefs(out@) =~= before + here + by_key(es@[i as int].1, key@));
                    assert(by_key_entries(es@, key@, i as int) == here + by_key(es@[i as int].1, key@)
                        + by_key_entries(es@, key@, i + 1));
                    assert(derefs(out@) + by_key_entries(es@, key@, i + 1) =~= before + by_key_entries(es@, key@, i as int));
                }
                i = i + 1;
            }
            proof {
                assert(derefs(out@) + by_key_entries(es@, key@, i as int) =~= derefs(out@));
            }
            out
        },
        Json::Arr(items) => {
            let mut out: Vec<&'a Json> = Vec::new();
            let mut i: usize = 0;
            while i < items.len()
                invariant
                    0 <= i <= items@.len(),
                    derefs(out@) + by_key_items(items@, key@, i as int) == by_key_items(items@, key@, 0),
                    *v == Json::Arr(*items),
                decreases items@.len() - i,
            {
                assert(decreases_to!(*v => v->Arr_0@[i as int]));
                let ghost before = derefs(out@);
                let mut inner = collect_by_key(&items[i], key);
                out.append(&mut inner);
                proof {
                    assert(derefs(out@) + by_key_items(items@, key@, i + 1) =~= before + by_key_items(items@, key@, i as int));
                }
                i = i + 1;
            }
            proof {
                assert(derefs(out@) + by_key_items(items@, key@, i as int) =~= derefs(out@));
            }
            out
        },
        _ => Vec::new(),
    }
}


/// The value of `key` in an object (the first entry with that key); nothing
/// for any other value (`Value::get`).
pub open spec fn get(v: Json, key: Seq<char>) -> Option<Json> {
    match v {
        Json::Obj(es) => get_from(es@, key, 0),
        _ => None,
    }
}

pub open spec fn get_from(es: Seq<(String, Json)>, key: Seq<char>, i: int) -> Option<Json>
    decreases es.len() - i,
{
    if i < 0 || i >= es.len() {
        None
    } else if es[i].0@ == key {
        Some(es[i].1)
    } else {
        get_from(es, key, i + 1)
    }
}

/// [`get`] on an optional value (`Option::and_then` with `Value::get`).
pub open spec fn and_get(o: Option<Json>, key: Seq<char>) -> Option<Json> {
    match o {
        Some(v) => get(v, key),
        None => None,
    }
}

/// The text of a string value.
pub open spec fn as_str(v: Json) -> Option<Seq<char>> {
    match v {
        Json::Str(s) => Some(s@),
        _ => None,
    }
}

/// The text of an optional string value.
pub open spec fn opt_str(o: Option<Json>) -> Option<Seq<char>> {
    match o {
        Some(v) => as_str(v),
        None => None,
    }
}

/// The items of an array value.
pub open spec fn as_array(v: Json) -> Option<Seq<Json>> {
    match v {
        Json::Arr(items) => Some(items@),
        _ => None,
    }
}

/// The value of `key` in an object.
pub fn get_key<'a>(v: &'a Json, key: &str) -> (r: Option<&'a Json>)
    ensures
        match r {
            Some(x) => get(*v, key@) == Some(*x),
            None => get(*v, key@) is None,
        },
{
    match v {
        Json::Obj(es) => {
            let mut i: usize = 0;
            while i < es.len()
                invariant
                    0 <= i <= es@.len(),
                    get_from(es@, key@, 0) == get_from(es@, key@, i as int),
                    *v == Json::Obj(*es),
                decreases es@.len() - i,
            {
                if crate::text::str_eq(es[i].0.as_str(), key) {
                    return Some(&es[i].1);
                }
                i = i + 1;
            }
            None
        },
        _ => None,
    }
}

/// [`get_key`] on an optional value.
pub fn get_opt<'a>(o: Option<&'a Json>, key: &str) -> (r: Option<&'a Json>)
    ensures
        match r {
            Some(x) => and_get(
                match o {
                    Some(y) => Some(*y),
                    None => None,
                },
                key@,
            ) == Some(*x),
            None => and_get(
                match o {
                    Some(y) => Some(*y),
                    None => None,
                },
                key@,
            ) is None,
        },
{
    match o {
        Some(v) => get_key(v, key),
        None => None,
    }
}

/// The text of a string value.
pub fn str_of(v: &Json) -> (r: Option<String>)
    ensures
        match r {
            Some(s) => as_str(*v) == Some(s@),
            None => as_str(*v) is None,
        },
{
    match v {
        Json::Str(s) => Some(s.clone()),
        _ => None,
    }
}

/// The first string under `key`, at any depth: in an object, each entry is
/// looked at in order, its own value first if the key matches and it is a
/// string, then what is inside it.
pub open spec fn first_str(v: Json, key: Seq<char>) -> Option<Seq<char>>
    decreases v, 0int,
{
    match v {
        Json::Obj(es) => first_str_entries(es@, key, 0),
        Json::Arr(items) => first_str_items(items@, key, 0),
        _ => None,
    }
}

pub open spec fn first_str_entries(es: Seq<(String, Json)>, key: Seq<char>, i: int) -> Option<Seq<char>>
    decreases es, es.len() - i,
{
    if i < 0 || i >= es.len() {
        None
    } else if es[i].0@ == key && as_str(es[i].1) is Some {
        as_str(es[i].1)
    } else {
        match first_str(es[i].1, key) {
            Some(s) => Some(s),
            None => first_str_entries(es, key, i + 1),
        }
    }
}

pub open spec fn first_str_items(items: Seq<Json>, key: Seq<char>, i: int) -> Option<Seq<char>>
    decreases items, items.len() - i,
{
    if i < 0 || i >= items.len() {
        None
    } else {
        match first_str(items[i], key) {
            Some(s) => Some(s),
            None => first_str_items(items, key, i + 1),
        }
    }
}

/// The first string under `key`, at any depth (see [`first_str`]).
pub fn find_str(v: &Json, key: &str) -> (r: Option<String>)
    ensures
        match r {
            Some(s) => first_str(*v, key@) == Some(s@),
            None => first_str(*v, key@) is None,
        },
    decreases *v,
{
    match v {
        Json::Obj(es) => {
            let mut i: usize = 0;
            while i < es.len()
                invariant
                    0 <= i <= es@.len(),
                    first_str_entries(es@, key@, 0) == first_str_entries(es@, key@, i as int),
                    *v == Json::Obj(*es),
                decreases es@.len() - i,
            {
                assert(decreases_to!(*v => v->Obj_0@[i as int].1));
                if crate::text::str_eq(es[i].0.as_str(), key) {
                    if let Json::Str(s) = &es[i].1 {
                        return Some(s.clone());
                    }
                }
                if let Some(found) = find_str(&es[i].1, key) {
                    return Some(found);
                }
                i = i + 1;
            }
            None
        },
        Json::Arr(items) => {
            let mut i: usize = 0;
            while i < items.len()
                invariant
                    0 <= i <= items@.len(),
                    first_str_items(items@, key@, 0) == first_str_items(items@, key@, i as int),
                    *v == Json::Arr(*items),
                decreases items@.len() - i,
            {
                assert(decreases_to!(*v => v->Arr_0@[i as int]));
                if let Some(found) = find_str(&items[i], key) {
                    return Some(found);
                }
                i = i + 1;
            }
            None
        },
        _ => None,
    }
}

/// The text of one run: its `text` string, or nothing.
pub open spec fn run_text(r: Json) -> Seq<char> {
    match opt_str(get(r, "text"@)) {
        Some(t) => t,
        None => seq![],
    }
}

/// The texts of the first `n` runs, one after the other.
pub open spec fn runs_upto(runs: Seq<Json>, n: int) -> Seq<char>
    decreases n,
{
    if n <= 0 {
        seq![]
    } else {
        runs_upto(runs, n - 1) + run_text(runs[n - 1])
    }
}

/// The text of an InnerTube text node, `{ "runs": [{ "text": ... }] }`: the
/// runs are split for styling, not content, so they are always wanted
/// together. Empty when there is no such node.
pub open spec fn runs_text_spec(node: Option<Json>) -> Seq<char> {
    match and_get(node, "runs"@) {
        Some(Json::Arr(runs)) => runs_upto(runs@, runs@.len() as int),
        _ => seq![],
    }
}

/// The text of an InnerTube text node (see [`runs_text_spec`]).
pub fn runs_text(node: Option<&Json>) -> (r: String)
    ensures
        r@ == runs_text_spec(
            match node {
                Some(n) => Some(*n),
                None => None,
            },
        ),
{
    let runs = match get_opt(node, "runs") {
        Some(Json::Arr(runs)) => runs,
        _ => {
            return String::new();
        },
    };
    let mut out: Vec<char> = Vec::new();
    let mut i: usize = 0;
    while i < runs.len()
        invariant
            0 <= i <= runs@.len(),
            out@ == runs_upto(runs@, i as int),
        decreases runs@.len() - i,
    {
        match get_key(&runs[i], "text") {
            Some(Json::Str(t)) => {
                let mut tv = crate::text::chars_of(t.as_str());
                out.append(&mut tv);
            },
            _ => {},
        }
        i = i + 1;
    }
    crate::text::string_of(out.as_slice())
}

proof fn lemma_runs_upto_flatten(runs: Seq<Json>, n: int)
    requires
        0 <= n <= runs.len(),
    ensures
        runs_upto(runs, n) == runs.take(n).map_values(|r: Json| run_text(r)).flatten(),
    decreases n,
{
    let f = |r: Json| run_text(r);
    if n == 0 {
        assert(runs.take(0).map_values(f) =~= Seq::<Seq<char>>::empty());
    } else {
        lemma_runs_upto_flatten(runs, n - 1);
        let m = runs.take(n - 1).map_values(f);
        assert(runs.take(n).map_values(f) =~= m.push(run_text(runs[n - 1])));
        m.lemma_flatten_push(run_text(runs[n - 1]));
    }
}

/// The text of a node is the texts of all its runs, in order, one after the
/// other: nothing is dropped, repeated or reordered.
pub proof fn lemma_runs_text_joins_all_runs(node: Json, runs: Vec<Json>)
    requires
        and_get(Some(node), "runs"@) == Some(Json::Arr(runs)),
    ensures
        runs_text_spec(Some(node)) == runs@.map_values(|r: Json| run_text(r)).flatten(),
        runs@.len() == 1 ==> runs_text_spec(Some(node)) == run_text(runs@[0]),
{
    lemma_runs_upto_flatten(runs@, runs@.len() as int);
    assert(runs@.take(runs@.len() as int) =~= runs@);
    if runs@.len() == 1 {
        let m = runs@.map_values(|r: Json| run_text(r));
        assert(m.len() == 1);
        m.lemma_flatten_singleton();
    }
}

/// The value of a non-negative integer (`Value::as_u64`).
pub open spec fn as_u64(v: Json) -> Option<u64> {
    match v {
        Json::Uint(n) => Some(n),
        _ => None,
    }
}

} // verus!
