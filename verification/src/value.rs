use crate::data::{Data, DataView};
use crate::error::ValueError;
use crate::payload::{payload_data, IntoData, Payload};
use crate::signature::TypeSignature;
use vstd::prelude::*;
use vstd::std_specs::cmp::PartialEqSpecImpl;

verus! {

/// The value of an optional payload.
pub open spec fn payload_of(payload: Option<Data>) -> Option<DataView> {
    match payload {
        Some(data) => Some(data@),
        None => None,
    }
}

/// The value behind an optional borrowed payload.
pub open spec fn borrowed_payload_of(payload: Option<&Data>) -> Option<DataView> {
    match payload {
        Some(data) => Some(data@),
        None => None,
    }
}

/// Optionality in two parts, for a boundary that cannot express it: a flag,
/// and a payload that is a placeholder whenever the flag is set.
///
/// Its view is the payload where there is one; the placeholder is never part
/// of it.
#[derive(Debug)]
pub struct Nullable {
    is_null: bool,
    value: Data,
}

impl View for Nullable {
    type V = Option<DataView>;

    closed spec fn view(&self) -> Option<DataView> {
        if self.is_null {
            None
        } else {
            Some(self.value@)
        }
    }
}

impl Nullable {
    /// Whether there is no payload.
    pub fn is_null(&self) -> (null: bool)
        ensures
            null == (self@ is None),
    {
        self.is_null
    }

    /// Puts the two parts together as they crossed the boundary.
    pub fn from_parts(is_null: bool, value: Data) -> (nullable: Nullable)
        ensures
            nullable@ == (if is_null {
                None
            } else {
                Some(value@)
            }),
    {
        Nullable { is_null, value }
    }

    /// The two parts, as they cross the boundary: the flag, then the payload
    /// or the placeholder.
    pub fn into_parts(self) -> (parts: (bool, Data))
        ensures
            parts.0 == (self@ is None),
            !parts.0 ==> Some(parts.1@) == self@,
    {
        (self.is_null, self.value)
    }

    /// The null case for no payload, and the payload itself otherwise.
    pub fn from_option(payload: Option<Data>) -> (nullable: Nullable)
        ensures
            nullable@ == payload_of(payload),
    {
        match payload {
            Some(value) => Nullable { is_null: false, value },
            None => Nullable::default(),
        }
    }

    /// The payload, if there is one.
    pub fn into_option(self) -> (payload: Option<Data>)
        ensures
            payload_of(payload) == self@,
    {
        if self.is_null {
            None
        } else {
            Some(self.value)
        }
    }

    /// The payload, borrowed, if there is one.
    pub fn as_option(&self) -> (payload: Option<&Data>)
        ensures
            borrowed_payload_of(payload) == self@,
    {
        if self.is_null {
            None
        } else {
            Some(&self.value)
        }
    }
}

impl Default for Nullable {
    /// The null case, with its placeholder.
    fn default() -> (nullable: Nullable)
        ensures
            nullable@ is None,
    {
        Nullable { is_null: true, value: Data::Str(String::from_str("this value is null")) }
    }
}

impl Clone for Nullable {
    fn clone(&self) -> (copy: Nullable)
        ensures
            copy@ == self@,
    {
        Nullable { is_null: self.is_null, value: self.value.clone() }
    }
}

/// Two optional payloads are equal when both are absent, or both are present
/// and equal; a placeholder takes no part.
impl PartialEq for Nullable {
    fn eq(&self, other: &Nullable) -> (same: bool) {
        match (self.as_option(), other.as_option()) {
            (Some(a), Some(b)) => a.same_as(b),
            (None, None) => true,
            _ => false,
        }
    }
}

impl PartialEqSpecImpl for Nullable {
    open spec fn obeys_eq_spec() -> bool {
        true
    }

    open spec fn eq_spec(&self, other: &Nullable) -> bool {
        self@ == other@
    }
}

/// The mathematical value of a [`Value`]: the declared signature, and the
/// payload where there is one.
pub struct ValueView {
    pub signature: Seq<char>,
    pub payload: Option<DataView>,
}

impl ValueView {
    /// A payload, where there is one, has the declared signature.
    pub open spec fn wf(self) -> bool {
        self.payload matches Some(data) ==> data.signature() == self.signature
    }
}

/// A nullable, dynamically typed container bound to a declared signature.
#[derive(Debug)]
pub struct Value {
    signature: TypeSignature,
    value: Nullable,
}

impl View for Value {
    type V = ValueView;

    closed spec fn view(&self) -> ValueView {
        ValueView { signature: self.signature@, payload: self.value@ }
    }
}

impl Value {
    /// The invariant of a value: its payload agrees with its declaration.
    pub open spec fn wf(&self) -> bool {
        self@.wf()
    }

    /// Holds `value`, or null where there is none, under the signature that
    /// every value of its type has.
    pub fn wrap<T: Payload>(value: Option<T>) -> (wrapped: Value)
        ensures
            wrapped@ == (ValueView { signature: T::declared(), payload: payload_data(value) }),
            wrapped.wf(),
    {
        proof {
            if value is Some {
                value->Some_0.lemma_shape();
            }
        }
        let payload = match value {
            Some(v) => Some(v.into_data()),
            None => None,
        };
        Value { signature: T::signature(), value: Nullable::from_option(payload) }
    }

    /// Compares the signature that `value` has by itself with `sig`.
    pub fn check_sig(value: &Data, sig: &TypeSignature) -> (checked: Result<(), ValueError>)
        ensures
            checked is Ok <==> value@.signature() == sig@,
            checked is Err ==> checked == Err::<(), ValueError>(ValueError::SignatureNotMatched),
    {
        let own = value.signature();
        if own.same_as(sig) {
            Ok(())
        } else {
            Err(ValueError::SignatureNotMatched)
        }
    }

    /// Declares a value of signature `sig`. A payload must have exactly that
    /// signature; without a payload there is nothing to check, and the value is
    /// null under `sig`.
    pub fn new<T: IntoData>(value: Option<T>, sig: TypeSignature) -> (made: Result<
        Value,
        ValueError,
    >)
        ensures
            made is Ok <==> (value matches Some(v) ==> v.data().signature() == sig@),
            made matches Ok(v) ==> v@ == (ValueView {
                signature: sig@,
                payload: payload_data(value),
            }) && v.wf(),
            made matches Err(e) ==> e == ValueError::SignatureNotMatched,
    {
        match value {
            Some(v) => {
                let data = v.into_data();
                match Value::check_sig(&data, &sig) {
                    Ok(()) => Ok(Value { signature: sig, value: Nullable::from_option(Some(data)) }),
                    Err(e) => Err(e),
                }
            },
            None => Ok(Value { signature: sig, value: Nullable::from_option(None) }),
        }
    }

    /// The declared signature, whether or not there is a payload.
    pub fn signature(&self) -> (sig: TypeSignature)
        ensures
            sig@ == self@.signature,
    {
        self.signature.clone()
    }

    /// The payload, if there is one.
    pub fn get_inner(&self) -> (payload: Option<&Data>)
        ensures
            borrowed_payload_of(payload) == self@.payload,
    {
        self.value.as_option()
    }

    /// Replaces the payload and hands back the one that was there.
    ///
    /// A new payload must have the declared signature; otherwise nothing
    /// changes. With no new payload the value becomes null.
    pub fn set_value<T: IntoData>(&mut self, value: Option<T>) -> (previous: Result<
        Option<Data>,
        ValueError,
    >)
        ensures
            previous is Ok <==> (value matches Some(v) ==> v.data().signature() == old(
                self,
            )@.signature),
            previous matches Ok(before) ==> payload_of(before) == old(self)@.payload && final(self)@
                == (ValueView { signature: old(self)@.signature, payload: payload_data(value) }),
            previous matches Err(e) ==> e == ValueError::SignatureNotMatched && final(self)@ == old(
                self,
            )@,
            old(self).wf() ==> final(self).wf(),
    {
        match value {
            Some(v) => {
                let data = v.into_data();
                match Value::check_sig(&data, &self.signature) {
                    Ok(()) => {
                        let mut next = Nullable::from_option(Some(data));
                        core::mem::swap(&mut self.value, &mut next);
                        Ok(next.into_option())
                    },
                    Err(e) => Err(e),
                }
            },
            None => {
                let mut next = Nullable::default();
                core::mem::swap(&mut self.value, &mut next);
                Ok(next.into_option())
            },
        }
    }

    /// Gives up the declaration and keeps the two-part payload.
    pub fn into_nullable(self) -> (nullable: Nullable)
        ensures
            nullable@ == self@.payload,
    {
        self.value
    }

    /// Whether two values have the same signature and the same payload.
    pub fn same_as(&self, other: &Value) -> (same: bool)
        ensures
            same == (self@ == other@),
    {
        if !self.signature.same_as(&other.signature) {
            return false;
        }
        match (self.value.as_option(), other.value.as_option()) {
            (Some(a), Some(b)) => a.same_as(b),
            (None, None) => true,
            _ => false,
        }
    }
}

impl Clone for Value {
    fn clone(&self) -> (copy: Value)
        ensures
            copy@ == self@,
    {
        Value { signature: self.signature.clone(), value: self.value.clone() }
    }
}

impl PartialEq for Value {
    fn eq(&self, other: &Value) -> (same: bool) {
        self.same_as(other)
    }
}

impl Eq for Value {

}

impl PartialEqSpecImpl for Value {
    open spec fn obeys_eq_spec() -> bool {
        true
    }

    open spec fn eq_spec(&self, other: &Value) -> bool {
        self@ == other@
    }
}

/// The values of a run of [`Value`]s, in order.
pub open spec fn value_views(values: Seq<Value>) -> Seq<ValueView> {
    Seq::new(values.len(), |i: int| values[i]@)
}

/// Whether `values` holds a value equal to `wanted`.
pub fn contains_value(values: &Vec<Value>, wanted: &Value) -> (found: bool)
    ensures
        found == value_views(values@).contains(wanted@),
{
    let mut i: usize = 0;
    while i < values.len()
        invariant
            i <= values.len(),
            forall|j: int| 0 <= j < i ==> values@[j]@ != wanted@,
        decreases values.len() - i,
    {
        if values[i].same_as(wanted) {
            assert(value_views(values@)[i as int] == wanted@);
            return true;
        }
        i += 1;
    }
    false
}

} // verus!
