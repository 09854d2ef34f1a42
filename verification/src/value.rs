//! The untyped values a tracer serializes.
//!
//! A node's tracing facility hands back trace payloads in a textual,
//! schema-less encoding.  [`TraceValue`] holds, as plain data, exactly what
//! the decoders read from such a payload: unsigned integers, strings,
//! arrays, and objects (key/value pair lists).  Everything else a payload
//! could carry — null, booleans, signed or fractional numbers — is folded
//! into [`TraceValue::Other`], which every decoder rejects as mistyped.
//!
//! [`ValueModel`] is the mathematical image of a value; every decoding
//! contract is stated over it.

use vstd::prelude::*;

verus! {

/// An untyped trace payload value, as plain data.
pub enum TraceValue {
    /// A non-negative integer that fits a machine word.
    Num { n: u64 },
    /// A string.
    Str { s: String },
    /// An ordered array of values.
    Arr { items: Vec<TraceValue> },
    /// An object: key/value pairs in serialization order.
    Obj { fields: Vec<(String, TraceValue)> },
    /// Any value of a shape no trace payload is allowed to use.
    Other,
}

/// The mathematical image of a [`TraceValue`].
pub enum ValueModel {
    Num { n: u64 },
    Str { s: Seq<char> },
    Arr { items: Seq<ValueModel> },
    Obj { fields: Seq<(Seq<char>, ValueModel)> },
    Other,
}

/// The mathematical image of a value.
pub open spec fn value_model(v: TraceValue) -> ValueModel
    decreases v,
{
    match v {
        TraceValue::Num { n } => ValueModel::Num { n },
        TraceValue::Str { s } => ValueModel::Str { s: s@ },
        TraceValue::Arr { items } => ValueModel::Arr {
            items: Seq::new(
                items@.len(),
                |i: int|
                    if 0 <= i < items@.len() {
                        value_model(items@[i])
                    } else {
                        ValueModel::Other
                    },
            ),
        },
        TraceValue::Obj { fields } => ValueModel::Obj {
            fields: Seq::new(
                fields@.len(),
                |i: int|
                    if 0 <= i < fields@.len() {
                        (fields@[i].0@, value_model(fields@[i].1))
                    } else {
                        (Seq::empty(), ValueModel::Other)
                    },
            ),
        },
        TraceValue::Other => ValueModel::Other,
    }
}

impl View for TraceValue {
    type V = ValueModel;

    open spec fn view(&self) -> ValueModel {
        value_model(*self)
    }
}

/// The image of an object's pair list; for an object value it coincides
/// with the `fields` of its view.
pub open spec fn fields_model(fields: Seq<(String, TraceValue)>) -> Seq<(Seq<char>, ValueModel)> {
    Seq::new(fields.len(), |i: int| (fields[i].0@, fields[i].1@))
}

/// The value under the first occurrence of `key`, if any.
///
/// A tracer's serialization cannot repeat a key, so first-occurrence lookup
/// agrees with map lookup on every payload a node can produce.
pub open spec fn lookup_field(fields: Seq<(Seq<char>, ValueModel)>, key: Seq<char>) -> Option<
    ValueModel,
>
    decreases fields.len(),
{
    if fields.len() == 0 {
        None
    } else if fields[0].0 == key {
        Some(fields[0].1)
    } else {
        lookup_field(fields.skip(1), key)
    }
}

/// A successful lookup hands back one of the list's own values.
pub proof fn lemma_lookup_is_member(fields: Seq<(Seq<char>, ValueModel)>, key: Seq<char>)
    ensures
        lookup_field(fields, key) matches Some(x) ==> exists|i: int|
            0 <= i < fields.len() && fields[i].1 == x,
    decreases fields.len(),
{
    if fields.len() > 0 {
        if fields[0].0 == key {
            assert(fields[0].1 == lookup_field(fields, key)->Some_0);
        } else {
            lemma_lookup_is_member(fields.skip(1), key);
            if lookup_field(fields, key) is Some {
                let x = lookup_field(fields, key)->Some_0;
                let i = choose|i: int| 0 <= i < fields.skip(1).len() && fields.skip(1)[i].1 == x;
                assert(fields[i + 1].1 == x);
            }
        }
    }
}

/// A value found under a key stands below the pair list in the
/// well-founded order used for termination.
pub proof fn lemma_lookup_smaller(fields: Seq<(Seq<char>, ValueModel)>, key: Seq<char>)
    ensures
        lookup_field(fields, key) matches Some(x) ==> decreases_to!(fields => x),
{
    lemma_lookup_is_member(fields, key);
    if lookup_field(fields, key) is Some {
        let x = lookup_field(fields, key)->Some_0;
        let i = choose|i: int| 0 <= i < fields.len() && fields[i].1 == x;
        assert(decreases_to!(fields => fields[i]));
        assert(decreases_to!(fields[i] => fields[i].1));
    }
}

/// First-occurrence lookup of `key` in an object's pair list, exact
/// against [`lookup_field`] on the list's image.
pub fn get_field<'a>(fields: &'a Vec<(String, TraceValue)>, key: &str) -> (r: Option<
    &'a TraceValue,
>)
    ensures
        match r {
            Some(x) => lookup_field(fields_model(fields@), key@) == Some(x@) && (exists|i: int|
                0 <= i < fields@.len() && fields@[i].1 == *x),
            None => lookup_field(fields_model(fields@), key@) is None,
        },
{
    let ghost m = fields_model(fields@);
    proof {
        assert(m.skip(0) =~= m);
    }
    let mut i: usize = 0;
    while i < fields.len()
        invariant
            0 <= i <= fields@.len(),
            m == fields_model(fields@),
            lookup_field(m.skip(i as int), key@) == lookup_field(m, key@),
        decreases fields@.len() - i,
    {
        let eq = string_eq(&fields[i].0, key);
        proof {
            assert(m.skip(i as int)[0] == m[i as int]);
        }
        if eq {
            return Some(&fields[i].1);
        }
        proof {
            assert(m.skip(i as int).skip(1) =~= m.skip(i as int + 1));
        }
        i = i + 1;
    }
    proof {
        assert(m.skip(i as int) =~= Seq::<(Seq<char>, ValueModel)>::empty());
    }
    None
}

/// Whether a string equals a static name, by contents.
pub fn string_eq(a: &String, b: &str) -> (r: bool)
    ensures
        r == (a@ == b@),
{
    *a == b.to_owned()
}

/// Whether two string slices hold the same characters.
pub fn str_eq(a: &str, b: &str) -> (r: bool)
    ensures
        r == (a@ == b@),
{
    a.to_owned() == b.to_owned()
}

} // verus!
