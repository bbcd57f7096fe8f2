use vstd::prelude::*;
use vstd::std_specs::cmp::PartialEqSpecImpl;

verus! {

/// A structural type descriptor: the unit of type identity between values.
///
/// Two signatures are the same type exactly when their texts are identical;
/// there is no coercion and no subtyping.
#[derive(Debug)]
pub struct TypeSignature {
    text: String,
}

impl View for TypeSignature {
    type V = Seq<char>;

    closed spec fn view(&self) -> Seq<char> {
        self.text@
    }
}

impl TypeSignature {
    /// Wraps a descriptor text.
    pub fn new(text: String) -> (sig: TypeSignature)
        ensures
            sig@ == text@,
    {
        TypeSignature { text }
    }

    /// Builds a signature from a borrowed descriptor text.
    pub fn from_text(text: &str) -> (sig: TypeSignature)
        ensures
            sig@ == text@,
    {
        TypeSignature { text: String::from_str(text) }
    }

    /// The descriptor text.
    pub fn as_str(&self) -> (text: &str)
        ensures
            text@ == self@,
    {
        self.text.as_str()
    }

    /// Gives the descriptor text away.
    pub fn into_string(self) -> (text: String)
        ensures
            text@ == self@,
    {
        self.text
    }

    /// Whether two signatures describe the same type.
    pub fn same_as(&self, other: &TypeSignature) -> (same: bool)
        ensures
            same == (self@ == other@),
    {
        self.text == other.text
    }
}

impl Clone for TypeSignature {
    fn clone(&self) -> (copy: TypeSignature)
        ensures
            copy@ == self@,
    {
        TypeSignature { text: self.text.clone() }
    }
}

impl PartialEq for TypeSignature {
    fn eq(&self, other: &TypeSignature) -> (same: bool) {
        self.text == other.text
    }
}

impl Eq for TypeSignature {

}

impl PartialEqSpecImpl for TypeSignature {
    open spec fn obeys_eq_spec() -> bool {
        true
    }

    open spec fn eq_spec(&self, other: &TypeSignature) -> bool {
        self@ == other@
    }
}

} // verus!
