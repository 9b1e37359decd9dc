//! What is said to a program that reads along: objects of named fields, written
//! as JSON.

use vstd::prelude::*;

verus! {

/// Fields that are yes or no.
pub open spec fn flag_fields(v: Seq<(String, bool)>) -> Seq<(Seq<char>, bool)> {
    v.map_values(|f: (String, bool)| (f.0@, f.1))
}

/// Text that may be missing.
pub open spec fn text_or_none(s: Option<String>) -> Option<Seq<char>> {
    match s {
        Some(t) => Some(t@),
        None => None,
    }
}

/// Fields that are text, or nothing.
pub open spec fn text_fields(v: Seq<(String, Option<String>)>) -> Seq<
    (Seq<char>, Option<Seq<char>>),
> {
    v.map_values(|f: (String, Option<String>)| (f.0@, text_or_none(f.1)))
}

/// Fields that are numbers.
pub open spec fn number_fields(v: Seq<(String, u64)>) -> Seq<(Seq<char>, u64)> {
    v.map_values(|f: (String, u64)| (f.0@, f.1))
}

/// The text of a JSON object that holds these fields.
pub uninterp spec fn json_object_form(
    flags: Seq<(Seq<char>, bool)>,
    texts: Seq<(Seq<char>, Option<Seq<char>>)>,
    numbers: Seq<(Seq<char>, u64)>,
) -> Seq<char>;

/// The text of `serde_json::Value::Object`, by its `to_string`, with these fields
/// put into it one after another; text that is missing is `null`. It is a
/// function of the fields alone. How the object is laid out is left to that
/// crate, and nothing is said of it here.
#[verifier::external_body]
pub(crate) fn json_object(
    flags: &Vec<(String, bool)>,
    texts: &Vec<(String, Option<String>)>,
    numbers: &Vec<(String, u64)>,
) -> (out: String)
    ensures
        out@ == json_object_form(flag_fields(flags@), text_fields(texts@), number_fields(numbers@)),
{
    let mut fields = serde_json::Map::new();
    for (name, value) in flags {
        fields.insert(name.clone(), serde_json::Value::Bool(*value));
    }
    for (name, value) in texts {
        fields.insert(name.clone(), serde_json::Value::from(value.clone()));
    }
    for (name, value) in numbers {
        fields.insert(name.clone(), serde_json::Value::from(*value));
    }
    serde_json::Value::Object(fields).to_string()
}

} // verus!
