//! A JSON document as the parsers read it.
//!
//! Each value carries `text`, its compact rendering: the text that serde_json's `to_string`
//! gives for it. Whoever builds a `Json` supplies that rendering; the library stores it as the
//! serialised payload of events and messages and never reads inside it.
use vstd::prelude::*;
use crate::chars::{is_blank, is_blank_str, trim, trim_str};

verus! {

/// A JSON value with its compact rendering.
#[derive(Debug)]
pub struct Json {
    pub kind: JsonKind,
    pub text: String,
}

/// The shape of a JSON value. Numbers keep their integer value where they have one in `i64`.
#[derive(Debug)]
pub enum JsonKind {
    Null,
    Bool(bool),
    Number(Option<i64>),
    Str(String),
    Array(Vec<Json>),
    Object(Vec<JsonMember>),
}

/// One member of a JSON object.
#[derive(Debug)]
pub struct JsonMember {
    pub key: String,
    pub value: Json,
}

/// The position of the first member named `key`.
pub open spec fn member_index(ms: Seq<JsonMember>, key: Seq<char>) -> Option<int>
    decreases ms.len(),
{
    if ms.len() == 0 {
        None
    } else {
        match member_index(ms.drop_last(), key) {
            Some(i) => Some(i),
            None => if ms.last().key@ == key {
                Some(ms.len() - 1)
            } else {
                None
            },
        }
    }
}

/// The member index lies within the object.
pub proof fn lemma_member_index_bounds(ms: Seq<JsonMember>, key: Seq<char>)
    ensures
        member_index(ms, key) matches Some(i) ==> 0 <= i < ms.len() && ms[i].key@ == key,
        member_index(ms, key) is None ==> forall|i: int| 0 <= i < ms.len() ==> (#[trigger] ms[i]).key@
            != key,
    decreases ms.len(),
{
    if ms.len() > 0 {
        lemma_member_index_bounds(ms.drop_last(), key);
        assert forall|i: int| 0 <= i < ms.len() - 1 implies ms.drop_last()[i] == ms[i] by {}
    }
}

/// `Value::get(key)`: the value of the member named `key` when `v` is an object.
pub open spec fn json_get(v: Json, key: Seq<char>) -> Option<Json> {
    match v.kind {
        JsonKind::Object(ms) => match member_index(ms@, key) {
            Some(i) => Some(ms@[i].value),
            None => None,
        },
        _ => None,
    }
}

/// `Value::as_str`.
pub open spec fn json_as_str(v: Json) -> Option<Seq<char>> {
    match v.kind {
        JsonKind::Str(s) => Some(s@),
        _ => None,
    }
}

/// `Value::as_i64`.
pub open spec fn json_as_i64(v: Json) -> Option<i64> {
    match v.kind {
        JsonKind::Number(n) => n,
        _ => None,
    }
}

/// `v.get(key).and_then(Value::as_str)`.
pub open spec fn str_field(v: Json, key: Seq<char>) -> Option<Seq<char>> {
    match json_get(v, key) {
        Some(f) => json_as_str(f),
        None => None,
    }
}

/// `v.get(key).and_then(Value::as_i64)`.
pub open spec fn i64_field(v: Json, key: Seq<char>) -> Option<i64> {
    match json_get(v, key) {
        Some(f) => json_as_i64(f),
        None => None,
    }
}

/// An owned copy of an optional text, as a `String`.
pub open spec fn owned(o: Option<Seq<char>>, r: Option<String>) -> bool {
    match (o, r) {
        (Some(a), Some(b)) => b@ == a,
        (None, None) => true,
        _ => false,
    }
}

/// The items of an array, or `None`.
pub open spec fn json_items(v: Json) -> Option<Seq<Json>> {
    match v.kind {
        JsonKind::Array(items) => Some(items@),
        _ => None,
    }
}

/// `Value::get(key)`.
pub fn get<'a>(v: &'a Json, key: &str) -> (r: Option<&'a Json>)
    ensures
        match r {
            Some(f) => json_get(*v, key@) == Some(*f),
            None => json_get(*v, key@) is None,
        },
{
    match &v.kind {
        JsonKind::Object(ms) => {
            let mut i: usize = 0;
            while i < ms.len()
                invariant
                    i <= ms@.len(),
                    v.kind is Object,
                    v.kind->Object_0 == *ms,
                    member_index(ms@.take(i as int), key@) is None,
                decreases ms.len() - i,
            {
                let ghost t = ms@.take(i as int + 1);
                assert(t.drop_last() == ms@.take(i as int));
                if crate::chars::str_eq(ms[i].key.as_str(), key) {
                    proof {
                        assert(t.last() == ms@[i as int]);
                        assert(member_index(t, key@) == Some(i as int));
                        lemma_member_index_prefix(ms@, key@, i as int + 1);
                        assert(json_get(*v, key@) == Some(ms@[i as int].value));
                    }
                    return Some(&ms[i].value);
                }
                i += 1;
            }
            assert(ms@.take(ms@.len() as int) == ms@);
            None
        },
        _ => None,
    }
}

proof fn lemma_member_index_prefix(ms: Seq<JsonMember>, key: Seq<char>, n: int)
    requires
        0 <= n <= ms.len(),
        member_index(ms.take(n), key) is Some,
    ensures
        member_index(ms, key) == member_index(ms.take(n), key),
    decreases ms.len() - n,
{
    if n < ms.len() {
        assert(ms.take(ms.len() - 1) == ms.drop_last());
        assert(ms.drop_last().take(n) == ms.take(n));
        lemma_member_index_prefix(ms.drop_last(), key, n);
    } else {
        assert(ms.take(n) == ms);
    }
}

/// `Value::as_str`, owned.
pub fn as_string(v: &Json) -> (r: Option<String>)
    ensures
        owned(json_as_str(*v), r),
{
    match &v.kind {
        JsonKind::Str(s) => Some(s.clone()),
        _ => None,
    }
}

/// `v.get(key).and_then(Value::as_str).map(ToOwned::to_owned)`.
pub fn get_string(v: &Json, key: &str) -> (r: Option<String>)
    ensures
        owned(str_field(*v, key@), r),
{
    match get(v, key) {
        Some(f) => as_string(f),
        None => None,
    }
}

/// `v.get(key).and_then(Value::as_i64)`.
pub fn get_i64(v: &Json, key: &str) -> (r: Option<i64>)
    ensures
        r == i64_field(*v, key@),
{
    match get(v, key) {
        Some(f) => match &f.kind {
            JsonKind::Number(n) => *n,
            _ => None,
        },
        None => None,
    }
}

/// The items of a text-bearing array that contribute text: for each item, its `text` string,
/// else its `content` string, trimmed, when not blank.
pub open spec fn array_parts(items: Seq<Json>) -> Seq<Seq<char>>
    decreases items.len(),
{
    if items.len() == 0 {
        Seq::empty()
    } else {
        let prev = array_parts(items.drop_last());
        let item = items.last();
        let t = match str_field(item, "text"@) {
            Some(t) => Some(t),
            None => str_field(item, "content"@),
        };
        match t {
            Some(t) => if !is_blank(t) {
                prev.push(trim(t))
            } else {
                prev
            },
            None => prev,
        }
    }
}

/// `parts.join(sep)`.
pub open spec fn joined(parts: Seq<Seq<char>>, sep: Seq<char>) -> Seq<char>
    decreases parts.len(),
{
    if parts.len() == 0 {
        Seq::empty()
    } else if parts.len() == 1 {
        parts[0]
    } else {
        joined(parts.drop_last(), sep) + sep + parts.last()
    }
}

/// The readable text of a value: a non-blank string, trimmed; the texts of an array's items,
/// separated by blank lines; or the text of an object's `text`, `message` or `content`
/// member, the first that has one.
pub open spec fn text_of(v: Json) -> Option<Seq<char>>
    decreases v,
{
    match v.kind {
        JsonKind::Str(s) => if is_blank(s@) {
            None
        } else {
            Some(trim(s@))
        },
        JsonKind::Array(items) => {
            let parts = array_parts(items@);
            if parts.len() == 0 {
                None
            } else {
                Some(joined(parts, "\n\n"@))
            }
        },
        JsonKind::Object(ms) => {
            let t = match member_index(ms@, "text"@) {
                Some(i) => if 0 <= i < ms@.len() {
                    text_of(ms@[i].value)
                } else {
                    None
                },
                None => None,
            };
            let m = match member_index(ms@, "message"@) {
                Some(i) => if 0 <= i < ms@.len() {
                    text_of(ms@[i].value)
                } else {
                    None
                },
                None => None,
            };
            let c = match member_index(ms@, "content"@) {
                Some(i) => if 0 <= i < ms@.len() {
                    text_of(ms@[i].value)
                } else {
                    None
                },
                None => None,
            };
            if t is Some {
                t
            } else if m is Some {
                m
            } else {
                c
            }
        },
        _ => None,
    }
}

/// The readable text of an optional member value.
pub open spec fn field_text(v: Json, key: Seq<char>) -> Option<Seq<char>> {
    match json_get(v, key) {
        Some(f) => text_of(f),
        None => None,
    }
}

proof fn lemma_field_text_object(v: Json, key: Seq<char>)
    requires
        v.kind is Object,
    ensures
        field_text(v, key) == match member_index(v.kind->Object_0@, key) {
            Some(i) => if 0 <= i < v.kind->Object_0@.len() {
                text_of(v.kind->Object_0@[i].value)
            } else {
                None
            },
            None => None,
        },
{
    lemma_member_index_bounds(v.kind->Object_0@, key);
}

/// The readable text of a member value: `v.get(key).and_then(extract_text)`.
pub fn get_text(v: &Json, key: &str) -> (r: Option<String>)
    ensures
        owned(field_text(*v, key@), r),
    decreases *v, 1nat,
{
    match get(v, key) {
        Some(f) => {
            proof {
                if v.kind is Object {
                    lemma_member_index_bounds(v.kind->Object_0@, key@);
                    let i = member_index(v.kind->Object_0@, key@)->0;
                    assert(decreases_to!(*v => v.kind));
                    assert(decreases_to!(v.kind => v.kind->Object_0));
                    assert(decreases_to!(v.kind->Object_0 => v.kind->Object_0@));
                    assert(decreases_to!(v.kind->Object_0@ => v.kind->Object_0@[i]));
                    assert(decreases_to!(v.kind->Object_0@[i] => v.kind->Object_0@[i].value));
                }
            }
            extract_text(f)
        },
        None => None,
    }
}

/// The text of an array's items, as `array_parts` describes it.
fn collect_parts(items: &Vec<Json>) -> (r: Vec<String>)
    ensures
        r@.len() == array_parts(items@).len(),
        forall|i: int| 0 <= i < r@.len() ==> (#[trigger] r@[i])@ == array_parts(items@)[i],
{
    let mut parts: Vec<String> = Vec::new();
    let mut i: usize = 0;
    while i < items.len()
        invariant
            i <= items@.len(),
            parts@.len() == array_parts(items@.take(i as int)).len(),
            forall|k: int|
                0 <= k < parts@.len() ==> (#[trigger] parts@[k])@ == array_parts(
                    items@.take(i as int),
                )[k],
        decreases items.len() - i,
    {
        let item = &items[i];
        let ghost t = items@.take(i as int + 1);
        assert(t.drop_last() == items@.take(i as int));
        assert(t.last() == *item);
        let text = match get_string(item, "text") {
            Some(t) => Some(t),
            None => get_string(item, "content"),
        };
        match text {
            Some(t) => {
                if !is_blank_str(t.as_str()) {
                    parts.push(trim_str(t.as_str()));
                }
            },
            None => {},
        }
        i += 1;
    }
    assert(items@.take(items@.len() as int) == items@);
    parts
}

/// The parts joined with a separator.
pub fn join_strings(parts: &Vec<String>, sep: &str) -> (r: String)
    ensures
        r@ == joined(parts@.map_values(|p: String| p@), sep@),
{
    let ghost views = parts@.map_values(|p: String| p@);
    let mut out = String::new();
    let mut i: usize = 0;
    while i < parts.len()
        invariant
            i <= parts@.len(),
            views == parts@.map_values(|p: String| p@),
            out@ == joined(views.take(i as int), sep@),
        decreases parts.len() - i,
    {
        let ghost t = views.take(i as int + 1);
        assert(t.drop_last() == views.take(i as int));
        if i > 0 {
            out.append(sep);
        }
        out.append(parts[i].as_str());
        proof {
            if i == 0 {
                assert(Seq::<char>::empty() + parts@[0]@ == parts@[0]@);
            }
        }
        i += 1;
    }
    assert(views.take(parts@.len() as int) == views);
    out
}

/// `extract_text`: the readable text of a value.
pub fn extract_text(value: &Json) -> (r: Option<String>)
    ensures
        owned(text_of(*value), r),
    decreases *value, 2nat,
{
    match &value.kind {
        JsonKind::Str(s) => {
            if is_blank_str(s.as_str()) {
                None
            } else {
                Some(trim_str(s.as_str()))
            }
        },
        JsonKind::Array(items) => {
            let parts = collect_parts(items);
            if parts.len() == 0 {
                None
            } else {
                let r = join_strings(&parts, "\n\n");
                assert(parts@.map_values(|p: String| p@) =~= array_parts(items@));
                Some(r)
            }
        },
        JsonKind::Object(_) => {
            proof {
                lemma_field_text_object(*value, "text"@);
                lemma_field_text_object(*value, "message"@);
                lemma_field_text_object(*value, "content"@);
            }
            match get_text(value, "text") {
                Some(t) => Some(t),
                None => match get_text(value, "message") {
                    Some(m) => Some(m),
                    None => get_text(value, "content"),
                },
            }
        },
        _ => None,
    }
}

} // verus!
