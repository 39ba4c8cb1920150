use vstd::prelude::*;
use crate::text::{chars_of, same_chars};

verus! {

// ---------------------------------------------------------------------------
// JSON values
// ---------------------------------------------------------------------------

/// A JSON value; numbers are kept as the text that writes them.
pub enum JsonValue {
    Null,
    Bool(bool),
    Number(String),
    Text(String),
    Array(Vec<JsonValue>),
    Object(Vec<(String, JsonValue)>),
}

/// A JSON value as plain values.
pub enum JsonSpec {
    Null,
    Bool(bool),
    Number(Seq<char>),
    Text(Seq<char>),
    Array(Seq<JsonSpec>),
    Object(Seq<(Seq<char>, JsonSpec)>),
}

impl JsonValue {
    /// The value as plain values.
    pub open spec fn spec_of(self) -> JsonSpec
        decreases self,
    {
        match self {
            JsonValue::Null => JsonSpec::Null,
            JsonValue::Bool(b) => JsonSpec::Bool(b),
            JsonValue::Number(n) => JsonSpec::Number(n@),
            JsonValue::Text(t) => JsonSpec::Text(t@),
            JsonValue::Array(items) => JsonSpec::Array(
                Seq::new(
                    items@.len(),
                    |i: int|
                        if 0 <= i < items@.len() {
                            items@[i].spec_of()
                        } else {
                            JsonSpec::Null
                        },
                ),
            ),
            JsonValue::Object(members) => JsonSpec::Object(
                Seq::new(
                    members@.len(),
                    |i: int|
                        if 0 <= i < members@.len() {
                            (members@[i].0@, members@[i].1.spec_of())
                        } else {
                            (Seq::empty(), JsonSpec::Null)
                        },
                ),
            ),
        }
    }
}

/// An optional value as plain values.
pub open spec fn json_opt(v: Option<JsonValue>) -> Option<JsonSpec> {
    match v {
        Some(x) => Some(x.spec_of()),
        None => None,
    }
}

/// The value that a text holds when it is JSON, as `serde_json` reads it into a
/// `serde_json::Value` (an object's members once each, numbers as `serde_json` writes them).
pub uninterp spec fn json_parse(text: Seq<char>) -> Option<JsonSpec>;

#[verifier::external_type_specification]
#[verifier::external_body]
pub struct ExJsonValue(serde_json::Value);

/// Converts a `serde_json::Value` to a `JsonValue`, variant for variant; numbers as the text
/// `serde_json` writes for them.
#[verifier::external_body]
fn json_value_of(v: &serde_json::Value) -> JsonValue {
    match v {
        serde_json::Value::Null => JsonValue::Null,
        serde_json::Value::Bool(b) => JsonValue::Bool(*b),
        serde_json::Value::Number(n) => JsonValue::Number(n.to_string()),
        serde_json::Value::String(s) => JsonValue::Text(s.clone()),
        serde_json::Value::Array(a) => JsonValue::Array(a.iter().map(json_value_of).collect()),
        serde_json::Value::Object(o) => JsonValue::Object(o.iter().map(|(k, x)| (k.clone(), json_value_of(x))).collect()),
    }
}

/// Calls `serde_json::from_str::<serde_json::Value>`. Claimed: the result is the value the
/// text holds, named `json_parse`; `None` when the text is not JSON.
#[verifier::external_body]
fn parse_json(text: &str) -> (r: Option<JsonValue>)
    ensures
        json_opt(r) == json_parse(text@),
{
    serde_json::from_str::<serde_json::Value>(text).ok().map(|v| json_value_of(&v))
}

// ---------------------------------------------------------------------------
// The chapter index of a manga folder
// ---------------------------------------------------------------------------

/// The value of the first member named `key`, if any.
pub open spec fn member(ms: Seq<(Seq<char>, JsonSpec)>, key: Seq<char>) -> Option<JsonSpec>
    decreases ms.len(),
{
    if ms.len() == 0 {
        None
    } else if ms[0].0 == key {
        Some(ms[0].1)
    } else {
        member(ms.drop_first(), key)
    }
}

/// The number of entries in the `chapters` object of an `index.json` value; `None` when the
/// value is not an object or its `chapters` member is missing or not an object.
pub open spec fn chapters_key_count(v: Option<JsonSpec>) -> Option<nat> {
    match v {
        Some(JsonSpec::Object(ms)) => match member(ms, "chapters"@) {
            Some(JsonSpec::Object(cs)) => Some(cs.len()),
            _ => None,
        },
        _ => None,
    }
}

/// The number of chapters that the text of an `index.json` lists under `chapters`.
pub fn indexed_chapter_count(index_text: &str) -> (r: Option<usize>)
    ensures
        match r {
            Some(n) => chapters_key_count(json_parse(index_text@)) == Some(n as nat),
            None => chapters_key_count(json_parse(index_text@)) is None,
        },
{
    let parsed = parse_json(index_text);
    match parsed {
        Some(JsonValue::Object(members)) => {
            let key = chars_of("chapters");
            let ghost ms = parsed->0.spec_of()->Object_0;
            let mut i: usize = 0;
            proof {
                assert(ms.skip(0) =~= ms);
                assert(json_parse(index_text@) == Some(JsonSpec::Object(ms)));
            }
            while i < members.len()
                invariant
                    i <= members@.len(),
                    key@ == "chapters"@,
                    json_parse(index_text@) == Some(JsonSpec::Object(ms)),
                    ms.len() == members@.len(),
                    forall|k: int| 0 <= k < members@.len() ==> ms[k] == (#[trigger] members@[k].0@, members@[k].1.spec_of()),
                    member(ms, "chapters"@) == member(ms.skip(i as int), "chapters"@),
                decreases members@.len() - i,
            {
                let same = same_chars(&chars_of(members[i].0.as_str()), &key);
                proof {
                    assert(ms.skip(i as int).drop_first() =~= ms.skip(i + 1));
                    assert(ms.skip(i as int)[0] == ms[i as int]);
                }
                if same {
                    proof {
                        assert(member(ms.skip(i as int), "chapters"@) == Some(members@[i as int].1.spec_of()));
                    }
                    return match &members[i].1 {
                        JsonValue::Object(cs) => {
                            proof {
                                assert(members@[i as int].1.spec_of()->Object_0.len() == cs@.len());
                            }
                            Some(cs.len())
                        },
                        _ => None,
                    };
                }
                i = i + 1;
            }
            proof {
                assert(ms.skip(i as int).len() == 0);
            }
            None
        },
        _ => None,
    }
}

} // verus!
