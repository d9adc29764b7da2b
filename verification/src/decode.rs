//! Decoding of custom (application-defined) events.
//!
//! A consumer registering a custom event supplies, at registration time,
//! a decoder for its chosen method key. A decoder names the runtime type
//! tag that decoded instances carry and the fields a raw payload must
//! present; a raw value decodes successfully exactly when it is an
//! object carrying every required field.

use vstd::prelude::*;
use crate::events::{RawValue, obj_has_field};

verus! {

/// Why a raw payload was rejected by a decoder.
#[derive(Debug, PartialEq, Eq)]
pub enum DecodeError {
    /// The raw value is not an object.
    NotAnObject,
    /// The raw value is an object but lacks this required field.
    MissingField(String),
}

/// A consumer-supplied decoder for one custom event type: the runtime
/// type tag decoded instances carry, and the fields a payload must have.
pub struct CustomDecoder {
    pub type_tag: u64,
    pub required: Vec<String>,
}

/// The fields of an object value; an empty sequence for any other value.
pub open spec fn obj_fields(v: RawValue) -> Seq<(String, RawValue)> {
    match v {
        RawValue::Object(fields) => fields@,
        _ => Seq::empty(),
    }
}

/// The exact outcome of validating `v` against `d`: success exactly on
/// acceptance, `NotAnObject` exactly when `v` is no object, otherwise
/// the first required field that is missing.
pub open spec fn check_spec(d: CustomDecoder, v: RawValue, r: Result<(), DecodeError>) -> bool {
    &&& r is Ok <==> d.accepts(v)
    &&& r == Err::<(), DecodeError>(DecodeError::NotAnObject) <==> !(v is Object)
    &&& forall|f: String|
        r == Err::<(), DecodeError>(DecodeError::MissingField(f)) ==> {
            &&& v is Object
            &&& !obj_has_field(obj_fields(v), f@)
            &&& exists|i: int|
                0 <= i < d.required@.len() && d.required@[i] == f && (forall|j: int|
                    0 <= j < i ==> obj_has_field(obj_fields(v), d.required@[j]@))
        }
}

impl CustomDecoder {
    /// The decoder accepts exactly the object values that carry every
    /// required field.
    pub open spec fn accepts(&self, v: RawValue) -> bool {
        &&& v is Object
        &&& forall|i: int|
            0 <= i < self.required@.len() ==> obj_has_field(obj_fields(v), self.required@[i]@)
    }

    pub fn new(type_tag: u64, required: Vec<String>) -> (r: CustomDecoder)
        ensures
            r.type_tag == type_tag,
            r.required == required,
    {
        CustomDecoder { type_tag, required }
    }

    /// Validate a raw payload against this decoder: `Ok` exactly when the
    /// decoder accepts it, `NotAnObject` exactly when the value is no
    /// object, and otherwise the first required field that is missing.
    pub fn check(&self, raw: &RawValue) -> (r: Result<(), DecodeError>)
        ensures
            check_spec(*self, *raw, r),
    {
        match raw {
            RawValue::Object(fields) => {
                let n: usize = self.required.len();
                let mut i: usize = 0;
                while i < n
                    invariant
                        n == self.required@.len(),
                        0 <= i <= n,
                        *raw is Object,
                        obj_fields(*raw) == fields@,
                        forall|j: int| 0 <= j < i ==> obj_has_field(fields@, self.required@[j]@),
                    decreases n - i,
                {
                    if !field_present(fields, &self.required[i]) {
                        return Err(DecodeError::MissingField(self.required[i].clone()));
                    }
                    i = i + 1;
                }
                Ok(())
            },
            _ => Err(DecodeError::NotAnObject),
        }
    }
}

/// Whether `fields` holds a field named `name`.
fn field_present(fields: &Vec<(String, RawValue)>, name: &String) -> (r: bool)
    ensures
        r == obj_has_field(fields@, name@),
{
    let n: usize = fields.len();
    let mut i: usize = 0;
    while i < n
        invariant
            n == fields@.len(),
            0 <= i <= n,
            forall|j: int| 0 <= j < i ==> fields@[j].0@ != name@,
        decreases n - i,
    {
        if fields[i].0 == *name {
            return true;
        }
        i = i + 1;
    }
    false
}

} // verus!
