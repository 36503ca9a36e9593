//! A JSON value tree: what the store writes and reads, before and after text.
use vstd::prelude::*;

verus! {

broadcast use vstd::std_specs::vec::group_vec_axioms;

/// A JSON value. Numbers that are not non-negative integers within `u64` are kept
/// only as the fact that they were such a number.
#[derive(Debug, PartialEq)]
pub enum Json {
    Null,
    Bool(bool),
    Unsigned(u64),
    OtherNumber,
    Str(String),
    Array(Vec<Json>),
    Object(Vec<(String, Json)>),
}

/// The mathematical content of a `Json` value.
pub ghost enum JsonV {
    Null,
    Bool(bool),
    Unsigned(u64),
    OtherNumber,
    Str(Seq<char>),
    Array(Seq<JsonV>),
    Object(Seq<(Seq<char>, JsonV)>),
}

pub open spec fn json_view(j: &Json) -> JsonV
    decreases j,
{
    match j {
        Json::Null => JsonV::Null,
        Json::Bool(b) => JsonV::Bool(*b),
        Json::Unsigned(n) => JsonV::Unsigned(*n),
        Json::OtherNumber => JsonV::OtherNumber,
        Json::Str(s) => JsonV::Str(s@),
        Json::Array(items) => JsonV::Array(
            Seq::new(
                items.len() as nat,
                |i: int|
                    if 0 <= i < items.len() {
                        json_view(&items[i])
                    } else {
                        JsonV::Null
                    },
            ),
        ),
        Json::Object(fields) => JsonV::Object(
            Seq::new(
                fields.len() as nat,
                |i: int|
                    if 0 <= i < fields.len() {
                        (fields[i].0@, json_view(&fields[i].1))
                    } else {
                        (Seq::empty(), JsonV::Null)
                    },
            ),
        ),
    }
}

impl View for Json {
    type V = JsonV;

    open spec fn view(&self) -> JsonV {
        json_view(self)
    }
}

pub open spec fn items_view(items: Seq<Json>) -> Seq<JsonV> {
    items.map_values(|j: Json| j@)
}

pub open spec fn fields_view(fields: Seq<(String, Json)>) -> Seq<(Seq<char>, JsonV)> {
    fields.map_values(|e: (String, Json)| (e.0@, e.1@))
}

/// The value stored under `key`: the first field with that name.
pub open spec fn field(fields: Seq<(Seq<char>, JsonV)>, key: Seq<char>) -> Option<JsonV>
    decreases fields.len(),
{
    if fields.len() == 0 {
        None
    } else if fields[0].0 == key {
        Some(fields[0].1)
    } else {
        field(fields.drop_first(), key)
    }
}

impl Json {
    pub fn array(items: Vec<Json>) -> (r: Json)
        ensures
            r@ == JsonV::Array(items_view(items@)),
    {
        let r = Json::Array(items);
        assert(r@->Array_0 =~= items_view(items@));
        r
    }

    pub fn object(fields: Vec<(String, Json)>) -> (r: Json)
        ensures
            r@ == JsonV::Object(fields_view(fields@)),
    {
        let r = Json::Object(fields);
        assert(r@->Object_0 =~= fields_view(fields@));
        r
    }

    /// The elements of an array value.
    pub fn as_array(&self) -> (r: Option<&Vec<Json>>)
        ensures
            r is Some <==> self@ is Array,
            r matches Some(v) ==> self@->Array_0 == items_view(v@),
    {
        match self {
            Json::Array(v) => {
                assert(self@->Array_0 =~= items_view(v@));
                Some(v)
            },
            _ => None,
        }
    }

    /// The fields of an object value.
    pub fn as_object(&self) -> (r: Option<&Vec<(String, Json)>>)
        ensures
            r is Some <==> self@ is Object,
            r matches Some(v) ==> self@->Object_0 == fields_view(v@),
    {
        match self {
            Json::Object(v) => {
                assert(self@->Object_0 =~= fields_view(v@));
                Some(v)
            },
            _ => None,
        }
    }
}

/// Looks up `key` among `fields`, as `field` says.
pub fn get_field<'a>(fields: &'a Vec<(String, Json)>, key: &str) -> (r: Option<&'a Json>)
    ensures
        match field(fields_view(fields@), key@) {
            Some(v) => r matches Some(j) && j@ == v,
            None => r is None,
        },
{
    let k = key.to_string();
    let ghost fv = fields_view(fields@);
    let mut i: usize = 0;
    assert(fv.subrange(0, fv.len() as int) =~= fv);
    while i < fields.len()
        invariant
            i <= fields@.len(),
            k@ == key@,
            fv == fields_view(fields@),
            field(fv, key@) == field(fv.subrange(i as int, fv.len() as int), key@),
        decreases fields@.len() - i,
    {
        let ghost rest = fv.subrange(i as int, fv.len() as int);
        assert(rest.drop_first() =~= fv.subrange(i + 1, fv.len() as int));
        assert(rest[0] == (fields@[i as int].0@, fields@[i as int].1@));
        if fields[i].0 == k {
            return Some(&fields[i].1);
        }
        i = i + 1;
    }
    assert(fv.subrange(i as int, fv.len() as int).len() == 0);
    None
}

/// Appends a field to an object under construction.
pub fn push_field(fields: &mut Vec<(String, Json)>, key: &str, value: Json)
    ensures
        fields_view(final(fields)@) == fields_view(old(fields)@).push((key@, value@)),
{
    let k = key.to_string();
    fields.push((k, value));
    assert(fields_view(fields@) =~= fields_view(old(fields)@).push((key@, value@)));
}

} // verus!
