use vstd::prelude::*;

verus! {

/// A JSON tree as the lock-file format needs it. The format's timestamps are
/// machine integers, so a number is kept as `Int` exactly when it is read as
/// an `i64`; a fractional number, or an integer beyond that range, is
/// remembered only as `OtherNum`, enough to tell it apart from every integer.
#[derive(Debug)]
pub enum Json {
    Null,
    Bool(bool),
    Int(i64),
    OtherNum,
    Str(String),
    Arr(Vec<Json>),
    Obj(Vec<(String, Json)>),
}

/// The value bound to `key` among `entries`, taking the first binding, or
/// `Null` when the key is absent.
pub open spec fn obj_get(entries: Seq<(String, Json)>, key: Seq<char>) -> Json
    decreases entries.len(),
{
    if entries.len() == 0 {
        Json::Null
    } else if entries[0].0@ == key {
        entries[0].1
    } else {
        obj_get(entries.drop_first(), key)
    }
}

/// Lenient indexing, as lock-file traversal uses it: the value under `key`
/// when `v` is an object holding one, `Null` on anything else.
pub open spec fn json_index(v: Json, key: Seq<char>) -> Json {
    match v {
        Json::Obj(entries) => obj_get(entries@, key),
        _ => Json::Null,
    }
}

proof fn lemma_obj_get_found(entries: Seq<(String, Json)>, key: Seq<char>, i: int)
    requires
        0 <= i < entries.len(),
        entries[i].0@ == key,
        forall|j: int| 0 <= j < i ==> entries[j].0@ != key,
    ensures
        obj_get(entries, key) == entries[i].1,
    decreases i,
{
    if i > 0 {
        lemma_obj_get_found(entries.drop_first(), key, i - 1);
    }
}

proof fn lemma_obj_get_absent(entries: Seq<(String, Json)>, key: Seq<char>)
    requires
        forall|j: int| 0 <= j < entries.len() ==> entries[j].0@ != key,
    ensures
        obj_get(entries, key) == Json::Null,
    decreases entries.len(),
{
    if entries.len() > 0 {
        lemma_obj_get_absent(entries.drop_first(), key);
    }
}

impl Json {
    /// Indexing by key, lenient as `json_index` says.
    #[verifier::loop_isolation(false)]
    pub fn get<'a>(&'a self, key: &String) -> (r: &'a Json)
        ensures
            *r == json_index(*self, key@),
    {
        match self {
            Json::Obj(entries) => {
                let mut i: usize = 0;
                while i < entries.len()
                    invariant
                        0 <= i <= entries@.len(),
                        forall|j: int| 0 <= j < i ==> entries@[j].0@ != key@,
                    decreases entries@.len() - i,
                {
                    if entries[i].0 == *key {
                        proof {
                            lemma_obj_get_found(entries@, key@, i as int);
                        }
                        return &entries[i].1;
                    }
                    i += 1;
                }
                proof {
                    lemma_obj_get_absent(entries@, key@);
                }
                &Json::Null
            },
            _ => &Json::Null,
        }
    }

    /// Indexing by key that surrenders the value, for the one place a caller
    /// keeps what it found instead of borrowing it.
    #[verifier::loop_isolation(false)]
    pub fn take(self, key: &String) -> (r: Json)
        ensures
            r == json_index(self, key@),
    {
        match self {
            Json::Obj(mut entries) => {
                let ghost orig_entries = entries@;
                let mut i: usize = 0;
                while i < entries.len()
                    invariant
                        entries@ == orig_entries,
                        0 <= i <= entries@.len(),
                        forall|j: int| 0 <= j < i ==> entries@[j].0@ != key@,
                    decreases entries@.len() - i,
                {
                    if entries[i].0 == *key {
                        proof {
                            lemma_obj_get_found(entries@, key@, i as int);
                        }
                        let entry = entries.remove(i);
                        return entry.1;
                    }
                    i += 1;
                }
                proof {
                    lemma_obj_get_absent(entries@, key@);
                }
                Json::Null
            },
            _ => Json::Null,
        }
    }
}

#[verifier::external_type_specification]
#[verifier::external_body]
pub struct ExValue(serde_json::Value);

/// The JSON tree that a text holds, numbers narrowed as `Json` keeps them, or
/// `None` when the text is not valid JSON. Which tree a text holds is a
/// function of the text alone; this names it without writing the grammar out.
pub uninterp spec fn json_doc(text: Seq<char>) -> Option<Json>;

/// Relies on the variants of `serde_json::Value` and on
/// `serde_json::Number::as_i64`: each variant is carried over one for one,
/// a number becoming `Int` exactly when it is an `i64`.
#[verifier::external_body]
fn json_of_value(v: serde_json::Value) -> Json {
    match v {
        serde_json::Value::Null => Json::Null,
        serde_json::Value::Bool(b) => Json::Bool(b),
        serde_json::Value::Number(n) => match n.as_i64() {
            Some(i) => Json::Int(i),
            None => Json::OtherNum,
        },
        serde_json::Value::String(s) => Json::Str(s),
        serde_json::Value::Array(items) => {
            Json::Arr(items.into_iter().map(json_of_value).collect())
        },
        serde_json::Value::Object(members) => {
            Json::Obj(members.into_iter().map(|(k, m)| (k, json_of_value(m))).collect())
        },
    }
}

/// Relies on `serde_json::from_str`: whether a text parses, and to which
/// tree, depends on the text alone; `json_doc` names the outcome.
#[verifier::external_body]
pub(crate) fn parse_json(text: &str) -> (r: Option<Json>)
    ensures
        r == json_doc(text@),
{
    match serde_json::from_str::<serde_json::Value>(text) {
        Ok(v) => Some(json_of_value(v)),
        Err(_) => None,
    }
}

} // verus!
