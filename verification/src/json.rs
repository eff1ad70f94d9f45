//! JSON values, and reading the fields of one.

use crate::text::same_text;
use vstd::prelude::*;
use vstd::string::*;

verus! {

/// A JSON value. An object holds its fields in the order in which they are
/// walked.
pub enum Json {
    Null,
    Bool(bool),
    /// A number, in decimal notation.
    Number(String),
    Text(String),
    Array(Vec<Json>),
    Object(Vec<(String, Json)>),
}

/// The value of the first field of that name.
pub open spec fn lookup(fields: Seq<(String, Json)>, key: Seq<char>) -> Option<Json>
    decreases fields.len(),
{
    if fields.len() == 0 {
        None
    } else if fields[0].0@ == key {
        Some(fields[0].1)
    } else {
        lookup(fields.drop_first(), key)
    }
}

/// The value of a field. Only an object has fields.
pub open spec fn field(j: Json, key: Seq<char>) -> Option<Json> {
    match j {
        Json::Object(fields) => lookup(fields@, key),
        _ => None,
    }
}

/// The value of a field of a field.
pub open spec fn field2(j: Json, outer: Seq<char>, inner: Seq<char>) -> Option<Json> {
    match field(j, outer) {
        Some(v) => field(v, inner),
        None => None,
    }
}

/// The text of a value that is a string.
pub open spec fn text_of(j: Option<Json>) -> Option<Seq<char>> {
    match j {
        Some(Json::Text(s)) => Some(s@),
        _ => None,
    }
}

/// The text of a value that is a string, else the empty text.
pub open spec fn text_or_empty(j: Option<Json>) -> Seq<char> {
    match text_of(j) {
        Some(s) => s,
        None => Seq::empty(),
    }
}

/// The elements of a value that is an array.
pub open spec fn elements_of(j: Option<Json>) -> Option<Seq<Json>> {
    match j {
        Some(Json::Array(v)) => Some(v@),
        _ => None,
    }
}

/// The fields of a value that is an object.
pub open spec fn fields_of(j: Option<Json>) -> Option<Seq<(String, Json)>> {
    match j {
        Some(Json::Object(v)) => Some(v@),
        _ => None,
    }
}

impl Json {
    /// The value of a field.
    pub fn get(&self, key: &str) -> (r: Option<&Json>)
        ensures
            match r {
                Some(v) => field(*self, key@) == Some(*v),
                None => field(*self, key@) is None,
            },
    {
        match self {
            Json::Object(fields) => {
                let mut i: usize = 0;
                assert(fields@.skip(0) =~= fields@);
                while i < fields.len()
                    invariant
                        i <= fields.len(),
                        *self == Json::Object(*fields),
                        lookup(fields@, key@) == lookup(fields@.skip(i as int), key@),
                    decreases fields.len() - i,
                {
                    assert(fields@.skip(i as int).drop_first() =~= fields@.skip(i + 1));
                    if same_text(fields[i].0.as_str(), key) {
                        return Some(&fields[i].1);
                    }
                    i += 1;
                }
                None
            },
            _ => None,
        }
    }

    /// The value of a field of a field.
    pub fn get2(&self, outer: &str, inner: &str) -> (r: Option<&Json>)
        ensures
            match r {
                Some(v) => field2(*self, outer@, inner@) == Some(*v),
                None => field2(*self, outer@, inner@) is None,
            },
    {
        match self.get(outer) {
            Some(v) => v.get(inner),
            None => None,
        }
    }
}

/// A value that was found or not, as a value.
pub open spec fn found(j: Option<&Json>) -> Option<Json> {
    match j {
        Some(v) => Some(*v),
        None => None,
    }
}

/// The text of a value that is a string.
pub fn as_text(j: Option<&Json>) -> (r: Option<&str>)
    ensures
        match r {
            Some(s) => text_of(found(j)) == Some(s@),
            None => text_of(found(j)) is None,
        },
{
    match j {
        Some(Json::Text(s)) => Some(s.as_str()),
        _ => None,
    }
}

/// The text of a value that is a string, else the empty text.
pub fn as_text_or_empty(j: Option<&Json>) -> (r: &str)
    ensures
        r@ == text_or_empty(found(j)),
{
    match as_text(j) {
        Some(s) => s,
        None => {
            proof {
                reveal_strlit("");
                assert(""@ =~= Seq::<char>::empty());
            }
            ""
        },
    }
}

/// The elements of a value that is an array.
pub fn as_array(j: Option<&Json>) -> (r: Option<&Vec<Json>>)
    ensures
        match r {
            Some(v) => elements_of(found(j)) == Some(v@),
            None => elements_of(found(j)) is None,
        },
{
    match j {
        Some(Json::Array(v)) => Some(v),
        _ => None,
    }
}

/// The fields of a value that is an object.
pub fn as_object(j: Option<&Json>) -> (r: Option<&Vec<(String, Json)>>)
    ensures
        match r {
            Some(v) => fields_of(found(j)) == Some(v@),
            None => fields_of(found(j)) is None,
        },
{
    match j {
        Some(Json::Object(v)) => Some(v),
        _ => None,
    }
}

} // verus!
