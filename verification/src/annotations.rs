use crate::text::same_text;
use vstd::prelude::*;

verus! {

/// What a function of a binding trait stands for.
#[derive(Debug, Clone, Copy, PartialEq, Eq, Structural)]
pub enum FunctionType {
    Property,
    Trigger,
}

/// What is wrong with the way a declaration is marked.
#[derive(Debug, Clone, Copy, PartialEq, Eq, Structural)]
pub enum MarkError {
    /// A function carries more than one mark.
    Multiple,
    /// A function carries no mark.
    Unmarked,
    /// A field is marked both as a property and as a trigger.
    Both,
    /// A function is unsafe.
    Unsafe,
    /// A function of a binding that does not block is not async.
    NotAsync,
}

/// The kind that the attribute called `name` marks a function with, if any.
pub open spec fn mark_of(name: Seq<char>) -> Option<FunctionType> {
    if name == "property"@ {
        Some(FunctionType::Property)
    } else if name == "trigger"@ {
        Some(FunctionType::Trigger)
    } else {
        None
    }
}

/// How many of the attributes are marks.
pub open spec fn mark_count(names: Seq<Seq<char>>) -> nat
    decreases names.len(),
{
    if names.len() == 0 {
        0
    } else {
        mark_count(names.drop_last()) + (if mark_of(names.last()) is Some {
            1nat
        } else {
            0nat
        })
    }
}

/// The kind of the last mark among the attributes, if there is a mark.
pub open spec fn last_mark(names: Seq<Seq<char>>) -> Option<FunctionType>
    decreases names.len(),
{
    if names.len() == 0 {
        None
    } else if mark_of(names.last()) is Some {
        mark_of(names.last())
    } else {
        last_mark(names.drop_last())
    }
}

/// What the marks of a function say: one mark gives its kind, none and
/// several are refused.
pub open spec fn function_kind(names: Seq<Seq<char>>) -> Result<FunctionType, MarkError> {
    if mark_count(names) > 1 {
        Err(MarkError::Multiple)
    } else {
        match last_mark(names) {
            Some(kind) => Ok(kind),
            None => Err(MarkError::Unmarked),
        }
    }
}

/// Whether one of the attributes is called `wanted`.
pub open spec fn has_attribute(names: Seq<Seq<char>>, wanted: Seq<char>) -> bool {
    exists|i: int| 0 <= i < names.len() && #[trigger] names[i] == wanted
}

/// What the marks of a field say: `true` for a property, `false` for a
/// trigger. A field with no mark is a property; one with both is refused.
pub open spec fn field_kind(names: Seq<Seq<char>>) -> Result<bool, MarkError> {
    if has_attribute(names, "field"@) && has_attribute(names, "trigger"@) {
        Err(MarkError::Both)
    } else if has_attribute(names, "trigger"@) {
        Ok(false)
    } else {
        Ok(true)
    }
}

/// What the header of a function says: it may not be unsafe, and it must be
/// async unless the binding blocks.
pub open spec fn signature_outcome(unsafety: bool, asyncness: bool, blocking: bool) -> Result<
    (),
    MarkError,
> {
    if unsafety {
        Err(MarkError::Unsafe)
    } else if !asyncness && !blocking {
        Err(MarkError::NotAsync)
    } else {
        Ok(())
    }
}

/// The texts of a run of attribute names.
pub open spec fn attribute_names(names: Seq<String>) -> Seq<Seq<char>> {
    Seq::new(names.len(), |i: int| names[i]@)
}

/// Tells from the names of its attributes what a function stands for.
pub fn check_attrs_for_function(names: &Vec<String>) -> (kind: Result<FunctionType, MarkError>)
    ensures
        kind == function_kind(attribute_names(names@)),
{
    let mut found: Option<FunctionType> = None;
    let mut count: usize = 0;
    let mut i: usize = 0;
    let ghost all = attribute_names(names@);
    assert(all.take(0) =~= Seq::<Seq<char>>::empty());
    while i < names.len()
        invariant
            i <= names.len(),
            all == attribute_names(names@),
            count == mark_count(all.take(i as int)),
            count <= i,
            found == last_mark(all.take(i as int)),
        decreases names.len() - i,
    {
        proof {
            assert(all.take(i + 1).drop_last() =~= all.take(i as int));
            assert(all.take(i + 1).last() == names@[i as int]@);
        }
        if same_text(names[i].as_str(), "property") {
            found = Some(FunctionType::Property);
            count += 1;
        } else if same_text(names[i].as_str(), "trigger") {
            found = Some(FunctionType::Trigger);
            count += 1;
        }
        i += 1;
    }
    assert(all.take(i as int) =~= all);
    if count > 1 {
        Err(MarkError::Multiple)
    } else {
        match found {
            Some(kind) => Ok(kind),
            None => Err(MarkError::Unmarked),
        }
    }
}

/// Whether one of `names` is `wanted`.
fn is_marked(names: &Vec<String>, wanted: &str) -> (marked: bool)
    ensures
        marked == has_attribute(attribute_names(names@), wanted@),
{
    let mut i: usize = 0;
    while i < names.len()
        invariant
            i <= names.len(),
            forall|j: int| 0 <= j < i ==> names@[j]@ != wanted@,
        decreases names.len() - i,
    {
        if same_text(names[i].as_str(), wanted) {
            assert(attribute_names(names@)[i as int] == wanted@);
            return true;
        }
        i += 1;
    }
    false
}

/// Tells from the names of its attributes whether a field is a property
/// (`true`) or a trigger (`false`).
pub fn check_field(names: &Vec<String>) -> (kind: Result<bool, MarkError>)
    ensures
        kind == field_kind(attribute_names(names@)),
{
    let is_field = is_marked(names, "field");
    let is_trigger = is_marked(names, "trigger");
    if is_field && is_trigger {
        Err(MarkError::Both)
    } else if is_trigger {
        Ok(false)
    } else {
        Ok(true)
    }
}

/// Checks the header of a function of a binding trait.
pub fn check_signature(unsafety: bool, asyncness: bool, blocking: bool) -> (checked: Result<
    (),
    MarkError,
>)
    ensures
        checked == signature_outcome(unsafety, asyncness, blocking),
{
    if unsafety {
        Err(MarkError::Unsafe)
    } else if !asyncness && !blocking {
        Err(MarkError::NotAsync)
    } else {
        Ok(())
    }
}

impl MarkError {
    /// The text of the message.
    pub open spec fn text(self) -> Seq<char> {
        match self {
            MarkError::Multiple => "It looks like the function is marked by multiple glud attributes, which is not allowed"@,
            MarkError::Unmarked => "Function is unmarked by any glud attribute"@,
            MarkError::Both => "a field cannot be both a trigger and a property"@,
            MarkError::Unsafe => "Functions passed to gen code cannot be unsafe"@,
            MarkError::NotAsync => "Non blocking interfaces must always be async"@,
        }
    }

    /// The text of the advice that goes with the message.
    pub open spec fn advice(self) -> Seq<char> {
        match self {
            MarkError::Multiple => "Remove the attribute"@,
            MarkError::Unmarked => "Please do so"@,
            MarkError::Both => "Try creating a seperate field for a trigger/property"@,
            MarkError::Unsafe => "Remove the unsafe code"@,
            MarkError::NotAsync => "If you wish to use blocking code, set blocking to true."@,
        }
    }

    /// The message that describes this error.
    pub fn message(&self) -> (text: &'static str)
        ensures
            text@ == self.text(),
    {
        match self {
            MarkError::Multiple => "It looks like the function is marked by multiple glud attributes, which is not allowed",
            MarkError::Unmarked => "Function is unmarked by any glud attribute",
            MarkError::Both => "a field cannot be both a trigger and a property",
            MarkError::Unsafe => "Functions passed to gen code cannot be unsafe",
            MarkError::NotAsync => "Non blocking interfaces must always be async",
        }
    }

    /// The advice that goes with the message.
    pub fn help(&self) -> (text: &'static str)
        ensures
            text@ == self.advice(),
    {
        match self {
            MarkError::Multiple => "Remove the attribute",
            MarkError::Unmarked => "Please do so",
            MarkError::Both => "Try creating a seperate field for a trigger/property",
            MarkError::Unsafe => "Remove the unsafe code",
            MarkError::NotAsync => "If you wish to use blocking code, set blocking to true.",
        }
    }
}

} // verus!
