use serde_json::Value;
use vstd::prelude::*;

verus! {

/// A JSON number as the filter logic reads it.
#[derive(Debug, Clone, Copy, PartialEq, Eq, Structural)]
pub enum JsonNumber {
    /// A non-negative integer.
    PosInt(u64),
    /// A negative integer.
    NegInt(i64),
    /// A floating-point number, held as the bits of its IEEE-754 `f64`.
    Float(u64),
}

/// A JSON value: the document that a subscription's filter is written in.
#[derive(Debug)]
pub enum JsonValue {
    Null,
    Bool(bool),
    Number(JsonNumber),
    String(String),
    Array(Vec<JsonValue>),
    /// The members of an object, in order, each key once.
    Object(Vec<(String, JsonValue)>),
}

#[verifier::external_type_specification]
#[verifier::external_body]
pub struct ExJsonValue(serde_json::Value);

/// The document that `serde_json::from_str` reads from the text `text`, in the
/// library's model; `None` where it refuses the text.
pub uninterp spec fn json_document(text: Seq<char>) -> Option<JsonValue>;

/// Calls `serde_json::from_str` for a `serde_json::Value` and turns the value
/// it gives into the library's model, one variant for one, object members in
/// the order `serde_json` keeps them. The contract claims only that the
/// result is the one `json_document` names for the text: a function of the
/// text alone. What the parser reads from the text is left unsaid.
#[verifier::external_body]
pub(crate) fn parse_json(text: &str) -> (value: Option<JsonValue>)
    ensures
        value == json_document(text@),
{
    match serde_json::from_str::<Value>(text) {
        Ok(v) => Some(json_model(&v)),
        Err(_) => None,
    }
}

/// The model of a `serde_json::Value`: each variant becomes its own, a number
/// as a non-negative integer, a negative integer or the bits of a float.
#[verifier::external_body]
fn json_model(value: &Value) -> JsonValue {
    match value {
        Value::Null => JsonValue::Null,
        Value::Bool(b) => JsonValue::Bool(*b),
        Value::Number(n) => JsonValue::Number(match (n.as_u64(), n.as_i64()) {
            (Some(u), _) => JsonNumber::PosInt(u),
            (None, Some(i)) => JsonNumber::NegInt(i),
            _ => JsonNumber::Float(n.as_f64().unwrap_or_default().to_bits()),
        }),
        Value::String(s) => JsonValue::String(s.clone()),
        Value::Array(items) => JsonValue::Array(items.iter().map(json_model).collect()),
        Value::Object(m) => JsonValue::Object(m.iter().map(|(k, v)| (k.clone(), json_model(v))).collect()),
    }
}

/// Whether two strings hold the same characters.
pub fn str_equals(a: &str, b: &str) -> (same: bool)
    ensures
        same == (a@ == b@),
{
    let n = a.unicode_len();
    if n != b.unicode_len() {
        return false;
    }
    let mut i: usize = 0;
    while i < n
        invariant
            n == a@.len() == b@.len(),
            i <= n,
            forall|j: int| 0 <= j < i ==> a@[j] == b@[j],
        decreases n - i,
    {
        if a.get_char(i) != b.get_char(i) {
            return false;
        }
        i = i + 1;
    }
    assert(a@ =~= b@);
    true
}

/// The index of the first member of `members` whose key is `key`, if any.
pub open spec fn member_index(members: Seq<(String, JsonValue)>, key: Seq<char>) -> int
    decreases members.len(),
{
    if members.len() == 0 {
        -1
    } else if members.last().0@ == key {
        let i = member_index(members.drop_last(), key);
        if i >= 0 {
            i
        } else {
            members.len() - 1
        }
    } else {
        member_index(members.drop_last(), key)
    }
}

pub proof fn lemma_member_index(members: Seq<(String, JsonValue)>, key: Seq<char>, i: int)
    requires
        -1 <= i < members.len(),
        forall|j: int| 0 <= j < members.len() && (i < 0 || j < i) ==> members[j].0@ != key,
        i >= 0 ==> members[i].0@ == key,
    ensures
        member_index(members, key) == i,
    decreases members.len(),
{
    if members.len() > 0 {
        if i == members.len() - 1 {
            lemma_member_index(members.drop_last(), key, -1);
        } else {
            lemma_member_index(members.drop_last(), key, i);
        }
    }
}

/// Finds the first member whose key is `key`.
pub fn find_member(members: &Vec<(String, JsonValue)>, key: &str) -> (index: Option<usize>)
    ensures
        match index {
            Some(i) => i == member_index(members@, key@) && i < members@.len(),
            None => member_index(members@, key@) == -1,
        },
{
    let mut i: usize = 0;
    while i < members.len()
        invariant
            i <= members@.len(),
            forall|j: int| 0 <= j < i ==> members@[j].0@ != key@,
        decreases members@.len() - i,
    {
        if str_equals(members[i].0.as_str(), key) {
            proof {
                lemma_member_index(members@, key@, i as int);
            }
            return Some(i);
        }
        i = i + 1;
    }
    proof {
        lemma_member_index(members@, key@, -1);
    }
    None
}

} // verus!
