use crate::text::str_eq;
use vstd::prelude::*;

verus! {

/// A JSON document: numbers are kept as their text.
pub enum JsonValue {
    Null,
    Bool(bool),
    Number(String),
    String(String),
    Array(Vec<JsonValue>),
    /// Members in the order they are held: for a parsed text, the order of
    /// their names (`serde_json` keeps objects sorted by key).
    Object(Vec<(String, JsonValue)>),
}

/// The mathematical value of a JSON document.
pub enum JsonView {
    Null,
    Bool(bool),
    Number(Seq<char>),
    Str(Seq<char>),
    Array(Seq<JsonView>),
    Object(Seq<(Seq<char>, JsonView)>),
}

/// The value of a document.
pub open spec fn view_of(j: JsonValue) -> JsonView
    decreases j, 0nat,
{
    match j {
        JsonValue::Null => JsonView::Null,
        JsonValue::Bool(b) => JsonView::Bool(b),
        JsonValue::Number(s) => JsonView::Number(s@),
        JsonValue::String(s) => JsonView::Str(s@),
        JsonValue::Array(a) => JsonView::Array(views_of(a@, a@.len() as int)),
        JsonValue::Object(m) => JsonView::Object(entry_views_of(m@, m@.len() as int)),
    }
}

/// The values of the first `n` documents of `a`.
pub open spec fn views_of(a: Seq<JsonValue>, n: int) -> Seq<JsonView>
    decreases a, n,
{
    if n <= 0 || n > a.len() {
        Seq::empty()
    } else {
        views_of(a, n - 1).push(view_of(a[n - 1]))
    }
}

/// The values of the first `n` members of `m`.
pub open spec fn entry_views_of(m: Seq<(String, JsonValue)>, n: int) -> Seq<(Seq<char>, JsonView)>
    decreases m, n,
{
    if n <= 0 || n > m.len() {
        Seq::empty()
    } else {
        proof {
            assert(decreases_to!(m => m[n - 1]));
        }
        entry_views_of(m, n - 1).push((m[n - 1].0@, view_of(m[n - 1].1)))
    }
}

/// The field names that a filter keeps.
pub open spec fn field_set(fields: Seq<String>) -> Set<Seq<char>> {
    Set::new(|k: Seq<char>| exists|i: int| 0 <= i < fields.len() && (#[trigger] fields[i])@ == k)
}

/// A document cut down to the given fields: in every object, a member named
/// `result` is kept and cut down in turn, a member whose name is a field is kept
/// whole, and every other member is dropped; arrays are cut down element by
/// element; with no fields the document is unchanged.
pub open spec fn filter_view(j: JsonView, f: Set<Seq<char>>) -> JsonView
    decreases j, 0nat,
{
    if f.is_empty() {
        j
    } else {
        match j {
            JsonView::Array(a) => JsonView::Array(filter_views(a, f, a.len() as int)),
            JsonView::Object(m) => JsonView::Object(filter_entries(m, f, m.len() as int)),
            _ => j,
        }
    }
}

/// The first `n` elements of an array, each cut down.
pub open spec fn filter_views(a: Seq<JsonView>, f: Set<Seq<char>>, n: int) -> Seq<JsonView>
    decreases a, n,
{
    if n <= 0 || n > a.len() {
        Seq::empty()
    } else {
        filter_views(a, f, n - 1).push(filter_view(a[n - 1], f))
    }
}

/// The members that are kept of the first `n` members of an object.
pub open spec fn filter_entries(m: Seq<(Seq<char>, JsonView)>, f: Set<Seq<char>>, n: int) -> Seq<
    (Seq<char>, JsonView),
>
    decreases m, n,
{
    if n <= 0 || n > m.len() {
        Seq::empty()
    } else {
        let rest = filter_entries(m, f, n - 1);
        let key = m[n - 1].0;
        if key == "result"@ {
            proof {
                assert(decreases_to!(m => m[n - 1]));
            }
            rest.push((key, filter_view(m[n - 1].1, f)))
        } else if f.contains(key) {
            rest.push(m[n - 1])
        } else {
            rest
        }
    }
}


/// The values of the first `n` documents, element by element.
pub proof fn lemma_views_of(a: Seq<JsonValue>, n: int)
    requires
        0 <= n <= a.len(),
    ensures
        views_of(a, n).len() == n,
        forall|k: int| 0 <= k < n ==> #[trigger] views_of(a, n)[k] == view_of(a[k]),
    decreases n,
{
    if n > 0 {
        lemma_views_of(a, n - 1);
    }
}

/// The values of the first `n` members, member by member.
pub proof fn lemma_entry_views_of(m: Seq<(String, JsonValue)>, n: int)
    requires
        0 <= n <= m.len(),
    ensures
        entry_views_of(m, n).len() == n,
        forall|k: int|
            0 <= k < n ==> #[trigger] entry_views_of(m, n)[k] == (m[k].0@, view_of(m[k].1)),
    decreases n,
{
    if n > 0 {
        lemma_entry_views_of(m, n - 1);
    }
}

/// The first `n` elements cut down, element by element.
pub proof fn lemma_filter_views(a: Seq<JsonView>, f: Set<Seq<char>>, n: int)
    requires
        0 <= n <= a.len(),
    ensures
        filter_views(a, f, n).len() == n,
        forall|k: int| 0 <= k < n ==> #[trigger] filter_views(a, f, n)[k] == filter_view(a[k], f),
    decreases n,
{
    if n > 0 {
        lemma_filter_views(a, f, n - 1);
    }
}

/// A field list is empty exactly when it names no field.
proof fn lemma_field_set_empty(fields: Seq<String>)
    ensures
        field_set(fields).is_empty() <==> fields.len() == 0,
{
    if fields.len() > 0 {
        assert(field_set(fields).contains(fields[0]@));
    } else {
        assert(field_set(fields) =~= Set::<Seq<char>>::empty());
    }
}

/// Cutting down looks only at the members it is told to look at.
proof fn lemma_filter_entries_prefix(
    x: Seq<(Seq<char>, JsonView)>,
    y: Seq<(Seq<char>, JsonView)>,
    f: Set<Seq<char>>,
    k: int,
)
    requires
        0 <= k <= x.len(),
        k <= y.len(),
        forall|i: int| 0 <= i < k ==> x[i] == y[i],
    ensures
        filter_entries(x, f, k) == filter_entries(y, f, k),
    decreases k,
{
    if k > 0 {
        lemma_filter_entries_prefix(x, y, f, k - 1);
    }
}

/// Cutting a document down twice to the same fields cuts it down once.
pub proof fn lemma_filter_idempotent(j: JsonView, f: Set<Seq<char>>)
    ensures
        filter_view(filter_view(j, f), f) == filter_view(j, f),
    decreases j, 0nat,
{
    if !f.is_empty() {
        match j {
            JsonView::Array(a) => {
                lemma_filter_views_idempotent(a, f, a.len() as int);
                lemma_filter_views(a, f, a.len() as int);
            },
            JsonView::Object(m) => {
                lemma_filter_entries_idempotent(m, f, m.len() as int);
            },
            _ => {},
        }
    }
}

/// The elements of an array cut down twice are those cut down once.
proof fn lemma_filter_views_idempotent(a: Seq<JsonView>, f: Set<Seq<char>>, n: int)
    requires
        0 <= n <= a.len(),
        !f.is_empty(),
    ensures
        filter_views(filter_views(a, f, n), f, n) == filter_views(a, f, n),
    decreases a, n,
{
    let once = filter_views(a, f, n);
    lemma_filter_views(a, f, n);
    lemma_filter_views(once, f, n);
    assert forall|k: int| 0 <= k < n implies #[trigger] filter_views(once, f, n)[k] == once[k] by {
        assert(decreases_to!(a => a[k]));
        lemma_filter_idempotent(a[k], f);
    }
    assert(filter_views(once, f, n) =~= once);
}

/// The members of an object cut down twice are those cut down once.
proof fn lemma_filter_entries_idempotent(m: Seq<(Seq<char>, JsonView)>, f: Set<Seq<char>>, n: int)
    requires
        0 <= n <= m.len(),
        !f.is_empty(),
    ensures
        filter_entries(filter_entries(m, f, n), f, filter_entries(m, f, n).len() as int)
            == filter_entries(m, f, n),
    decreases m, n,
{
    if n > 0 {
        lemma_filter_entries_idempotent(m, f, n - 1);
        let prev = filter_entries(m, f, n - 1);
        let cur = filter_entries(m, f, n);
        let key = m[n - 1].0;
        if key == "result"@ || f.contains(key) {
            assert(cur.drop_last() == prev);
            lemma_filter_entries_prefix(cur, prev, f, prev.len() as int);
            if key == "result"@ {
                assert(decreases_to!(m => m[n - 1]));
                assert(decreases_to!(m[n - 1] => m[n - 1].1));
                lemma_filter_idempotent(m[n - 1].1, f);
            }
        }
    }
}

/// With no fields, a document is left as it is.
pub proof fn lemma_filter_no_fields(j: JsonView)
    ensures
        filter_view(j, Set::<Seq<char>>::empty()) == j,
{
}

/// Whether `key` is one of the fields.
pub fn has_field(fields: &Vec<String>, key: &str) -> (r: bool)
    ensures
        r == field_set(fields@).contains(key@),
{
    let mut i: usize = 0;
    while i < fields.len()
        invariant
            i <= fields@.len(),
            forall|j: int| 0 <= j < i ==> (#[trigger] fields@[j])@ != key@,
        decreases fields@.len() - i,
    {
        if str_eq(fields[i].as_str(), key) {
            assert(field_set(fields@).contains(key@));
            return true;
        }
        i = i + 1;
    }
    false
}

/// A copy of a document.
pub fn copy_json(json: &JsonValue) -> (r: JsonValue)
    ensures
        view_of(r) == view_of(*json),
    decreases json,
{
    match json {
        JsonValue::Null => JsonValue::Null,
        JsonValue::Bool(b) => JsonValue::Bool(*b),
        JsonValue::Number(s) => JsonValue::Number(s.clone()),
        JsonValue::String(s) => JsonValue::String(s.clone()),
        JsonValue::Array(a) => {
            let mut out: Vec<JsonValue> = Vec::new();
            let mut i: usize = 0;
            while i < a.len()
                invariant
                    i <= a@.len(),
                    out@.len() == i,
                    *json == JsonValue::Array(*a),
                    forall|k: int| 0 <= k < i ==> #[trigger] view_of(out@[k]) == view_of(a@[k]),
                decreases a@.len() - i,
            {
                proof {
                    assert(decreases_to!(*json => (*json)->Array_0));
                    assert(decreases_to!(*a => a@));
                    assert(decreases_to!(a@ => a@[i as int]));
                }
                let e = copy_json(&a[i]);
                out.push(e);
                i = i + 1;
            }
            proof {
                lemma_views_of(out@, out@.len() as int);
                lemma_views_of(a@, a@.len() as int);
                assert(views_of(out@, out@.len() as int) =~= views_of(a@, a@.len() as int));
            }
            JsonValue::Array(out)
        },
        JsonValue::Object(m) => {
            let mut out: Vec<(String, JsonValue)> = Vec::new();
            let mut i: usize = 0;
            while i < m.len()
                invariant
                    i <= m@.len(),
                    *json == JsonValue::Object(*m),
                    out@.len() == i,
                    forall|k: int|
                        0 <= k < i ==> #[trigger] (out@[k].0)@ == (m@[k].0)@ && view_of(out@[k].1)
                            == view_of(m@[k].1),
                decreases m@.len() - i,
            {
                proof {
                    assert(decreases_to!(*json => (*json)->Object_0));
                    assert(decreases_to!(*m => m@));
                    assert(decreases_to!(m@ => m@[i as int]));
                    assert(decreases_to!(m@[i as int] => m@[i as int].1));
                }
                let v = copy_json(&m[i].1);
                let k = m[i].0.clone();
                out.push((k, v));
                i = i + 1;
            }
            proof {
                lemma_entry_views_of(out@, out@.len() as int);
                lemma_entry_views_of(m@, m@.len() as int);
                assert(entry_views_of(out@, out@.len() as int) =~= entry_views_of(
                    m@,
                    m@.len() as int,
                ));
            }
            JsonValue::Object(out)
        },
    }
}

/// The document cut down to the given fields (see `filter_view`).
pub fn filter_json_fields_ref(json: &JsonValue, fields: &Vec<String>) -> (r: JsonValue)
    ensures
        view_of(r) == filter_view(view_of(*json), field_set(fields@)),
    decreases json,
{
    let ghost f = field_set(fields@);
    proof {
        lemma_field_set_empty(fields@);
    }
    if fields.len() == 0 {
        return copy_json(json);
    }
    match json {
        JsonValue::Array(a) => {
            let mut out: Vec<JsonValue> = Vec::new();
            let mut i: usize = 0;
            while i < a.len()
                invariant
                    i <= a@.len(),
                    out@.len() == i,
                    *json == JsonValue::Array(*a),
                    f == field_set(fields@),
                    forall|k: int|
                        0 <= k < i ==> #[trigger] view_of(out@[k]) == filter_view(view_of(a@[k]), f),
                decreases a@.len() - i,
            {
                proof {
                    assert(decreases_to!(*json => (*json)->Array_0));
                    assert(decreases_to!(*a => a@));
                    assert(decreases_to!(a@ => a@[i as int]));
                }
                let e = filter_json_fields_ref(&a[i], fields);
                out.push(e);
                i = i + 1;
            }
            proof {
                let va = views_of(a@, a@.len() as int);
                lemma_views_of(out@, out@.len() as int);
                lemma_views_of(a@, a@.len() as int);
                lemma_filter_views(va, f, va.len() as int);
                assert(views_of(out@, out@.len() as int) =~= filter_views(va, f, va.len() as int));
            }
            JsonValue::Array(out)
        },
        JsonValue::Object(m) => {
            let ghost vm = entry_views_of(m@, m@.len() as int);
            proof {
                lemma_entry_views_of(m@, m@.len() as int);
            }
            let mut out: Vec<(String, JsonValue)> = Vec::new();
            let mut i: usize = 0;
            while i < m.len()
                invariant
                    i <= m@.len(),
                    *json == JsonValue::Object(*m),
                    f == field_set(fields@),
                    !f.is_empty(),
                    vm == entry_views_of(m@, m@.len() as int),
                    vm.len() == m@.len(),
                    forall|k: int|
                        0 <= k < m@.len() ==> #[trigger] vm[k] == ((m@[k].0)@, view_of(m@[k].1)),
                    entry_views_of(out@, out@.len() as int) == filter_entries(vm, f, i as int),
                decreases m@.len() - i,
            {
                proof {
                    assert(decreases_to!(*json => (*json)->Object_0));
                    assert(decreases_to!(*m => m@));
                    assert(decreases_to!(m@ => m@[i as int]));
                    assert(decreases_to!(m@[i as int] => m@[i as int].1));
                    lemma_entry_views_of(out@, out@.len() as int);
                }
                let ghost before = out@;
                let key = m[i].0.as_str();
                if str_eq(key, "result") {
                    let v = filter_json_fields_ref(&m[i].1, fields);
                    out.push((m[i].0.clone(), v));
                } else if has_field(fields, key) {
                    let v = copy_json(&m[i].1);
                    out.push((m[i].0.clone(), v));
                }
                proof {
                    lemma_entry_views_of(out@, out@.len() as int);
                    if out@.len() > before.len() {
                        assert(entry_views_of(out@, out@.len() as int) =~= entry_views_of(
                            before,
                            before.len() as int,
                        ).push(entry_views_of(out@, out@.len() as int).last()));
                    }
                }
                i = i + 1;
            }
            proof {
                assert(filter_view(view_of(*json), f) == JsonView::Object(
                    filter_entries(vm, f, vm.len() as int),
                ));
            }
            JsonValue::Object(out)
        },
        _ => copy_json(json),
    }
}

/// The document cut down to the given fields: in every object, a member named
/// `result` is kept and cut down in turn, a member named by a field is kept whole,
/// every other member is dropped; arrays are cut down element by element; with
/// no fields the document is returned as it is.
pub fn filter_json_fields(json: JsonValue, fields: &Vec<String>) -> (r: JsonValue)
    ensures
        view_of(r) == filter_view(view_of(json), field_set(fields@)),
{
    filter_json_fields_ref(&json, fields)
}

/// Declares `serde_json::Value`, which only the conversion into `JsonValue` reads.
#[verifier::external_type_specification]
#[verifier::external_body]
pub struct ExSerdeJsonValue(serde_json::Value);

/// Converts a `serde_json::Value` into the library's document form, variant by
/// variant (numbers by their text). It is the conversion step of `parse_json`;
/// nothing is claimed of it on its own.
#[verifier::external_body]
fn from_serde_value(v: serde_json::Value) -> JsonValue {
    match v {
        serde_json::Value::Null => JsonValue::Null,
        serde_json::Value::Bool(b) => JsonValue::Bool(b),
        serde_json::Value::Number(n) => JsonValue::Number(n.to_string()),
        serde_json::Value::String(s) => JsonValue::String(s),
        serde_json::Value::Array(a) => JsonValue::Array(a.into_iter().map(from_serde_value).collect()),
        serde_json::Value::Object(m) => JsonValue::Object(
            m.into_iter().map(|(k, x)| (k, from_serde_value(x))).collect(),
        ),
    }
}

/// What `serde_json::from_str` makes of a text as an untyped JSON value: the
/// document, or `None` when the text is not JSON.
pub uninterp spec fn parsed_json(text: Seq<char>) -> Option<JsonView>;

/// Calls `serde_json::from_str` for a `serde_json::Value` and converts the value.
/// Claimed: the outcome is a function of the text alone, named `parsed_json`;
/// JSON's grammar is not written out.
#[verifier::external_body]
fn parse_json(text: &str) -> (r: Option<JsonValue>)
    ensures
        match r {
            Some(j) => parsed_json(text@) == Some(view_of(j)),
            None => parsed_json(text@) is None,
        },
{
    serde_json::from_str::<serde_json::Value>(text).ok().map(from_serde_value)
}

/// Parses a JSON text.
pub fn parse_json_text(text: &str) -> (r: Option<JsonValue>)
    ensures
        match r {
            Some(j) => parsed_json(text@) == Some(view_of(j)),
            None => parsed_json(text@) is None,
        },
{
    parse_json(text)
}

/// The value of the first of the first `n` members named `key`.
pub open spec fn first_member(m: Seq<(Seq<char>, JsonView)>, key: Seq<char>, n: int) -> Option<JsonView>
    decreases n,
{
    if n <= 0 {
        None
    } else {
        match first_member(m, key, n - 1) {
            Some(v) => Some(v),
            None => if m[n - 1].0 == key {
                Some(m[n - 1].1)
            } else {
                None
            },
        }
    }
}

/// The member of an object named `key`; none when the value is not an object or
/// has no such member (as `Value::get` and indexing by a name find it).
pub open spec fn member_view(j: JsonView, key: Seq<char>) -> Option<JsonView> {
    match j {
        JsonView::Object(m) => first_member(m, key, m.len() as int),
        _ => None,
    }
}

/// The string at `outer.inner` of a document, if that is a string.
pub open spec fn nested_string(j: JsonView, outer: Seq<char>, inner: Seq<char>) -> Option<Seq<char>> {
    match member_view(j, outer) {
        Some(o) => match member_view(o, inner) {
            Some(JsonView::Str(s)) => Some(s),
            _ => None,
        },
        None => None,
    }
}

/// The member of an object named `key`.
pub fn json_member<'a>(j: &'a JsonValue, key: &str) -> (r: Option<&'a JsonValue>)
    ensures
        match r {
            Some(v) => member_view(view_of(*j), key@) == Some(view_of(*v)),
            None => member_view(view_of(*j), key@) is None,
        },
{
    match j {
        JsonValue::Object(m) => {
            let ghost vm = entry_views_of(m@, m@.len() as int);
            proof {
                lemma_entry_views_of(m@, m@.len() as int);
            }
            let mut i: usize = 0;
            while i < m.len()
                invariant
                    i <= m@.len(),
                    vm == entry_views_of(m@, m@.len() as int),
                    vm.len() == m@.len(),
                    forall|k: int| 0 <= k < m@.len() ==> #[trigger] vm[k] == ((m@[k].0)@, view_of(m@[k].1)),
                    first_member(vm, key@, i as int) is None,
                    view_of(*j) == JsonView::Object(vm),
                decreases m@.len() - i,
            {
                if str_eq(m[i].0.as_str(), key) {
                    proof {
                        assert(vm[i as int] == ((m@[i as int].0)@, view_of(m@[i as int].1)));
                        assert(first_member(vm, key@, i as int + 1) == Some(view_of(m@[i as int].1)));
                        lemma_first_member_stays(vm, key@, i as int + 1, vm.len() as int);
                    }
                    return Some(&m[i].1);
                }
                i = i + 1;
            }
            None
        },
        _ => None,
    }
}

/// Once a member is found among the first `a`, it is the one found among more.
proof fn lemma_first_member_stays(m: Seq<(Seq<char>, JsonView)>, key: Seq<char>, a: int, b: int)
    requires
        0 <= a <= b,
    ensures
        first_member(m, key, a) is Some ==> first_member(m, key, b) == first_member(m, key, a),
    decreases b - a,
{
    if a < b {
        lemma_first_member_stays(m, key, a, b - 1);
    }
}

/// The string at `outer.inner` of a document, if that is a string.
pub fn json_nested_str<'a>(j: &'a JsonValue, outer: &str, inner: &str) -> (r: Option<&'a str>)
    ensures
        match r {
            Some(s) => nested_string(view_of(*j), outer@, inner@) == Some(s@),
            None => nested_string(view_of(*j), outer@, inner@) is None,
        },
{
    match json_member(j, outer) {
        Some(o) => match json_member(o, inner) {
            Some(JsonValue::String(s)) => Some(s.as_str()),
            _ => None,
        },
        None => None,
    }
}

} // verus!
