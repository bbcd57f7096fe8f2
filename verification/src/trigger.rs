use crate::data::Data;
use crate::signature::TypeSignature;
use vstd::prelude::*;
use vstd::std_specs::cmp::PartialEqSpecImpl;

verus! {

/// The mathematical value of a [`Trigger`].
pub struct TriggerView {
    pub name: Seq<char>,
    pub signature: Seq<char>,
}

/// The immutable descriptor of an event: its name and the shape of its
/// payload.
#[derive(Debug)]
pub struct Trigger {
    name: String,
    signature: TypeSignature,
}

impl View for Trigger {
    type V = TriggerView;

    closed spec fn view(&self) -> TriggerView {
        TriggerView { name: self.name@, signature: self.signature@ }
    }
}

impl Trigger {
    /// The name, by which a trigger is known within its schema.
    pub fn name(&self) -> (name: &str)
        ensures
            name@ == self@.name,
    {
        self.name.as_str()
    }

    /// Describes an event called `name` whose payload has `signature`.
    pub fn new(name: String, signature: TypeSignature) -> (trigger: Trigger)
        ensures
            trigger@ == (TriggerView { name: name@, signature: signature@ }),
    {
        Trigger { name, signature }
    }

    /// The signature that a payload must have.
    pub fn signature(&self) -> (sig: TypeSignature)
        ensures
            sig@ == self@.signature,
    {
        self.signature.clone()
    }

    /// Whether `value` has exactly the declared shape: the same arity and the
    /// same element types, with no partial match.
    pub fn matches(&self, value: &Data) -> (exact: bool)
        ensures
            exact == (value@.signature() == self@.signature),
    {
        let own = value.signature();
        own.same_as(&self.signature)
    }
}

impl Clone for Trigger {
    fn clone(&self) -> (copy: Trigger)
        ensures
            copy@ == self@,
    {
        Trigger { name: self.name.clone(), signature: self.signature.clone() }
    }
}

/// Two triggers are the same trigger when they have the same name.
impl PartialEq for Trigger {
    fn eq(&self, other: &Trigger) -> (same: bool) {
        self.name == other.name
    }
}

impl PartialEqSpecImpl for Trigger {
    open spec fn obeys_eq_spec() -> bool {
        true
    }

    open spec fn eq_spec(&self, other: &Trigger) -> bool {
        self@.name == other@.name
    }
}

} // verus!
