use crate::property::PropertyView;
use crate::schema::{property_views, trigger_views, Schema, SchemaView};
use crate::trigger::TriggerView;
use crate::signature::TypeSignature;
use vstd::prelude::*;
use vstd::utf8::encode_utf8;

verus! {

/// The letter `a`, which opens an array.
pub const ARRAY: u8 = 97;

/// The round bracket that opens a structure.
pub const STRUCT_OPEN: u8 = 40;

/// The round bracket that closes a structure.
pub const STRUCT_CLOSE: u8 = 41;

/// The brace that opens a dictionary entry.
pub const ENTRY_OPEN: u8 = 123;

/// The brace that closes a dictionary entry.
pub const ENTRY_CLOSE: u8 = 125;

/// The name of the type that a client binding uses for a basic kind.
///
/// `input` says that the type stands in an argument, `as_ref` that a borrowed
/// form is wanted.
pub open spec fn basic_type(letter: u8, input: bool, as_ref: bool) -> Option<Seq<char>> {
    if letter == 121 {
        Some("u8"@)
    } else if letter == 98 {
        Some("bool"@)
    } else if letter == 110 {
        Some("i16"@)
    } else if letter == 113 {
        Some("u16"@)
    } else if letter == 105 {
        Some("i32"@)
    } else if letter == 117 {
        Some("u32"@)
    } else if letter == 120 {
        Some("i64"@)
    } else if letter == 116 {
        Some("u64"@)
    } else if letter == 100 {
        Some("f64"@)
    } else if letter == 104 {
        Some(
            if input {
                "zbus::zvariant::Fd"@
            } else {
                "zbus::zvariant::OwnedFd"@
            },
        )
    } else if letter == 115 {
        Some(
            if input || as_ref {
                "&str"@
            } else {
                "String"@
            },
        )
    } else if letter == 111 {
        Some(
            if input {
                if as_ref {
                    "&zbus::zvariant::ObjectPath<'_>"@
                } else {
                    "zbus::zvariant::ObjectPath<'_>"@
                }
            } else {
                "zbus::zvariant::OwnedObjectPath"@
            },
        )
    } else if letter == 103 {
        Some(
            if input {
                if as_ref {
                    "&zbus::zvariant::Signature<'_>"@
                } else {
                    "zbus::zvariant::Signature<'_>"@
                }
            } else {
                "zbus::zvariant::OwnedSignature"@
            },
        )
    } else if letter == 118 {
        Some(
            if input {
                if as_ref {
                    "&zbus::zvariant::Value<'_>"@
                } else {
                    "zbus::zvariant::Value<'_>"@
                }
            } else {
                "zbus::zvariant::OwnedValue"@
            },
        )
    } else {
        None
    }
}

/// The parts, with a comma and a blank between one and the next.
pub open spec fn joined(parts: Seq<Seq<char>>) -> Seq<char>
    decreases parts.len(),
{
    if parts.len() == 0 {
        Seq::empty()
    } else if parts.len() == 1 {
        parts[0]
    } else {
        joined(parts.drop_last()) + ", "@ + parts.last()
    }
}

/// The `&` that stands before a borrowed form.
pub open spec fn borrow_mark(as_ref: bool) -> Seq<char> {
    if as_ref {
        "&"@
    } else {
        Seq::empty()
    }
}

/// The name of the type that the signature at `pos` stands for, and the place
/// where reading stopped.
///
/// An array of dictionary entries is a map, another array a slice or a
/// vector; a structure of several fields is a tuple, and a structure of one
/// field is that field. Reading stops before the bracket that closes a
/// structure. Nothing is answered for a letter that is no kind, for a
/// signature that ends too early, and for a structure without fields.
pub open spec fn rendered(bytes: Seq<u8>, pos: int, input: bool, as_ref: bool) -> Option<
    (Seq<char>, int),
>
    decreases bytes.len() - pos, 0nat,
{
    if pos < 0 || pos >= bytes.len() {
        None
    } else if bytes[pos] == ARRAY {
        if pos + 1 >= bytes.len() {
            None
        } else {
            match rendered(bytes, pos + 1, input, false) {
                None => None,
                Some((element, end)) => Some(
                    (
                        if bytes[pos + 1] == ENTRY_OPEN {
                            "std::collections::HashMap<"@ + element + ">"@
                        } else if input {
                            "&["@ + element + "]"@
                        } else {
                            borrow_mark(as_ref) + "Vec<"@ + element + ">"@
                        },
                        end,
                    ),
                ),
            }
        }
    } else if bytes[pos] == STRUCT_OPEN || bytes[pos] == ENTRY_OPEN {
        match rendered_fields(bytes, pos + 1, input) {
            None => None,
            Some((fields, end)) => if bytes[pos] == ENTRY_OPEN {
                Some((joined(fields), end))
            } else if fields.len() > 1 {
                Some((borrow_mark(as_ref) + "("@ + joined(fields) + ")"@, end))
            } else if fields.len() == 1 {
                Some((fields[0], end))
            } else {
                None
            },
        }
    } else {
        match basic_type(bytes[pos], input, as_ref) {
            Some(name) => Some((name, pos + 1)),
            None => None,
        }
    }
}

/// The names of the types from `pos` up to the next closing bracket, and the
/// place of that bracket.
pub open spec fn rendered_fields(bytes: Seq<u8>, pos: int, input: bool) -> Option<
    (Seq<Seq<char>>, int),
>
    decreases bytes.len() - pos, 1nat,
{
    if pos < 0 || pos >= bytes.len() {
        None
    } else if bytes[pos] == STRUCT_CLOSE || bytes[pos] == ENTRY_CLOSE {
        Some((Seq::empty(), pos))
    } else {
        match rendered(bytes, pos, input, false) {
            None => None,
            Some((first, after_first)) => if pos < after_first <= bytes.len() {
                match rendered_fields(bytes, after_first, input) {
                    None => None,
                    Some((others, end)) => Some((seq![first] + others, end)),
                }
            } else {
                None
            },
        }
    }
}

/// The name of the type that a signature stands for in a client binding.
pub open spec fn rust_type(signature: Seq<char>, input: bool, as_ref: bool) -> Option<Seq<char>> {
    match rendered(encode_utf8(signature), 0, input, as_ref) {
        Some((name, _)) => Some(name),
        None => None,
    }
}

/// The values of a run of texts, in order.
pub open spec fn names_of(texts: Seq<String>) -> Seq<Seq<char>> {
    Seq::new(texts.len(), |i: int| texts[i]@)
}

/// Adding one part at the end.
pub proof fn lemma_joined_push(parts: Seq<Seq<char>>, last: Seq<char>)
    ensures
        joined(parts.push(last)) == (if parts.len() == 0 {
            last
        } else {
            joined(parts) + ", "@ + last
        }),
{
    assert(parts.push(last).drop_last() =~= parts);
}

/// Joins `parts` with a comma and a blank.
fn join(parts: &Vec<String>) -> (text: String)
    ensures
        text@ == joined(names_of(parts@)),
{
    let mut text = String::new();
    let mut i: usize = 0;
    assert(names_of(parts@).take(0) =~= Seq::<Seq<char>>::empty());
    while i < parts.len()
        invariant
            i <= parts.len(),
            text@ == joined(names_of(parts@).take(i as int)),
        decreases parts.len() - i,
    {
        if i > 0 {
            text.append(", ");
        }
        text.append(parts[i].as_str());
        proof {
            let all = names_of(parts@);
            assert(all.take(i + 1) =~= all.take(i as int).push(all[i as int]));
            lemma_joined_push(all.take(i as int), all[i as int]);
            if i == 0 {
                assert(Seq::<char>::empty() + all[0] =~= all[0]);
            }
        }
        i += 1;
    }
    assert(names_of(parts@).take(i as int) =~= names_of(parts@));
    text
}

/// Names the type of a basic kind.
fn basic(letter: u8, input: bool, as_ref: bool) -> (name: Option<&'static str>)
    ensures
        match name {
            Some(text) => basic_type(letter, input, as_ref) == Some(text@),
            None => basic_type(letter, input, as_ref) is None,
        },
{
    if letter == 121 {
        Some("u8")
    } else if letter == 98 {
        Some("bool")
    } else if letter == 110 {
        Some("i16")
    } else if letter == 113 {
        Some("u16")
    } else if letter == 105 {
        Some("i32")
    } else if letter == 117 {
        Some("u32")
    } else if letter == 120 {
        Some("i64")
    } else if letter == 116 {
        Some("u64")
    } else if letter == 100 {
        Some("f64")
    } else if letter == 104 {
        Some(
            if input {
                "zbus::zvariant::Fd"
            } else {
                "zbus::zvariant::OwnedFd"
            },
        )
    } else if letter == 115 {
        Some(
            if input || as_ref {
                "&str"
            } else {
                "String"
            },
        )
    } else if letter == 111 {
        Some(
            if input {
                if as_ref {
                    "&zbus::zvariant::ObjectPath<'_>"
                } else {
                    "zbus::zvariant::ObjectPath<'_>"
                }
            } else {
                "zbus::zvariant::OwnedObjectPath"
            },
        )
    } else if letter == 103 {
        Some(
            if input {
                if as_ref {
                    "&zbus::zvariant::Signature<'_>"
                } else {
                    "zbus::zvariant::Signature<'_>"
                }
            } else {
                "zbus::zvariant::OwnedSignature"
            },
        )
    } else if letter == 118 {
        Some(
            if input {
                if as_ref {
                    "&zbus::zvariant::Value<'_>"
                } else {
                    "zbus::zvariant::Value<'_>"
                }
            } else {
                "zbus::zvariant::OwnedValue"
            },
        )
    } else {
        None
    }
}

/// Names the type that the signature at `pos` stands for.
fn render(bytes: &[u8], pos: usize, input: bool, as_ref: bool) -> (done: Option<(String, usize)>)
    ensures
        match done {
            Some((name, end)) => rendered(bytes@, pos as int, input, as_ref) == Some(
                (name@, end as int),
            ) && pos < end <= bytes@.len(),
            None => rendered(bytes@, pos as int, input, as_ref) is None,
        },
    decreases bytes@.len() - pos, 0nat,
{
    if pos >= bytes.len() {
        return None;
    }
    let letter = bytes[pos];
    if letter == ARRAY {
        if pos + 1 >= bytes.len() {
            return None;
        }
        let (element, end) = match render(bytes, pos + 1, input, false) {
            Some(inner) => inner,
            None => {
                return None;
            },
        };
        let mut name = String::new();
        if bytes[pos + 1] == ENTRY_OPEN {
            name.append("std::collections::HashMap<");
            name.append(element.as_str());
            name.append(">");
            assert(name@ =~= "std::collections::HashMap<"@ + element@ + ">"@);
        } else if input {
            name.append("&[");
            name.append(element.as_str());
            name.append("]");
            assert(name@ =~= "&["@ + element@ + "]"@);
        } else {
            if as_ref {
                name.append("&");
            }
            name.append("Vec<");
            name.append(element.as_str());
            name.append(">");
            assert(name@ =~= borrow_mark(as_ref) + "Vec<"@ + element@ + ">"@);
        }
        Some((name, end))
    } else if letter == STRUCT_OPEN || letter == ENTRY_OPEN {
        let (fields, end) = match render_fields(bytes, pos + 1, input) {
            Some(inner) => inner,
            None => {
                return None;
            },
        };
        if letter == ENTRY_OPEN {
            Some((join(&fields), end))
        } else if fields.len() > 1 {
            let mut name = String::new();
            if as_ref {
                name.append("&");
            }
            name.append("(");
            let inner = join(&fields);
            name.append(inner.as_str());
            name.append(")");
            assert(name@ =~= borrow_mark(as_ref) + "("@ + joined(names_of(fields@)) + ")"@);
            Some((name, end))
        } else if fields.len() == 1 {
            Some((fields[0].clone(), end))
        } else {
            None
        }
    } else {
        match basic(letter, input, as_ref) {
            Some(name) => Some((String::from_str(name), pos + 1)),
            None => None,
        }
    }
}

/// Names the types from `pos` up to the next closing bracket.
fn render_fields(bytes: &[u8], pos: usize, input: bool) -> (done: Option<(Vec<String>, usize)>)
    ensures
        match done {
            Some((names, end)) => rendered_fields(bytes@, pos as int, input) == Some(
                (names_of(names@), end as int),
            ) && pos <= end < bytes@.len(),
            None => rendered_fields(bytes@, pos as int, input) is None,
        },
    decreases bytes@.len() - pos, 1nat,
{
    let mut names: Vec<String> = Vec::new();
    let mut at: usize = pos;
    assert(names_of(names@) =~= Seq::<Seq<char>>::empty());
    assert(forall|tail: Seq<Seq<char>>| Seq::<Seq<char>>::empty() + tail =~= tail);
    loop
        invariant
            pos <= at,
            rendered_fields(bytes@, pos as int, input) == (match rendered_fields(
                bytes@,
                at as int,
                input,
            ) {
                Some((tail, end)) => Some((names_of(names@) + tail, end)),
                None => None,
            }),
        decreases bytes@.len() - at,
    {
        if at >= bytes.len() {
            return None;
        }
        if bytes[at] == STRUCT_CLOSE || bytes[at] == ENTRY_CLOSE {
            assert(names_of(names@) + Seq::<Seq<char>>::empty() =~= names_of(names@));
            return Some((names, at));
        }
        let ghost before = names_of(names@);
        match render(bytes, at, input, false) {
            Some((name, end)) => {
                let ghost text = name@;
                names.push(name);
                proof {
                    assert(names_of(names@) =~= before.push(text));
                    assert forall|tail: Seq<Seq<char>>| before + (seq![text] + tail) == names_of(
                        names@,
                    ) + tail by {
                        assert(before + (seq![text] + tail) =~= names_of(names@) + tail);
                    }
                }
                at = end;
            },
            None => {
                return None;
            },
        }
    }
}

/// Names the type that `signature` stands for in a client binding.
///
/// `input` asks for the form of an argument, `as_ref` for a borrowed form.
/// Nothing is answered for a signature that cannot be read.
pub fn to_rust_type(signature: &TypeSignature, input: bool, as_ref: bool) -> (name: Option<String>)
    ensures
        match name {
            Some(text) => rust_type(signature@, input, as_ref) == Some(text@),
            None => rust_type(signature@, input, as_ref) is None,
        },
{
    match render(signature.as_str().as_bytes(), 0, input, as_ref) {
        Some((name, _)) => Some(name),
        None => None,
    }
}

/// The word that marks a binding that does not block.
pub open spec fn async_mark(blocking: bool) -> Seq<char> {
    if blocking {
        Seq::empty()
    } else {
        "async"@
    }
}

/// The two lines that bind one property or trigger: the attribute that names
/// it, and the function that returns a value of its type.
pub open spec fn binding_lines(
    kind: Seq<char>,
    name: Seq<char>,
    returned: Seq<char>,
    blocking: bool,
) -> Seq<char> {
    "    #["@ + kind + "(name = \""@ + name + "\")]\n"@ + "    "@ + async_mark(blocking) + " fn "@
        + name + "() -> "@ + returned + ";\n"@
}

/// The lines that bind each property of the run, in order; nothing where the
/// signature of one cannot be read.
pub open spec fn property_lines(properties: Seq<PropertyView>, blocking: bool) -> Option<Seq<char>>
    decreases properties.len(),
{
    if properties.len() == 0 {
        Some(Seq::empty())
    } else {
        match (
            property_lines(properties.drop_last(), blocking),
            rust_type(properties.last().signature, false, false),
        ) {
            (Some(lines), Some(returned)) => Some(
                lines + binding_lines("property"@, properties.last().name, returned, blocking),
            ),
            _ => None,
        }
    }
}

/// The lines that bind each trigger of the run, in order; nothing where the
/// signature of one cannot be read.
pub open spec fn trigger_lines(triggers: Seq<TriggerView>, blocking: bool) -> Option<Seq<char>>
    decreases triggers.len(),
{
    if triggers.len() == 0 {
        Some(Seq::empty())
    } else {
        match (
            trigger_lines(triggers.drop_last(), blocking),
            rust_type(triggers.last().signature, false, false),
        ) {
            (Some(lines), Some(returned)) => Some(
                lines + binding_lines("trigger"@, triggers.last().name, returned, blocking),
            ),
            _ => None,
        }
    }
}

/// The line that opens the bindings of the schema called `schema`.
pub open spec fn interface_line(schema: Seq<char>, blocking: bool) -> Seq<char> {
    "#[glud_macros::glud_interface(name = \""@ + schema + "\", blocking = "@ + (if blocking {
        "true"@
    } else {
        "false"@
    }) + ")]\n"@
}

/// The client bindings of a schema: a trait called `name` with one function
/// for each property and then for each trigger.
pub open spec fn bindings(schema: SchemaView, name: Seq<char>, blocking: bool) -> Option<Seq<char>> {
    match (
        property_lines(schema.properties, blocking),
        trigger_lines(schema.triggers, blocking),
    ) {
        (Some(properties), Some(triggers)) => Some(
            interface_line(schema.name, blocking) + "trait "@ + name + " {\n"@ + properties
                + triggers + "}\n"@,
        ),
        _ => None,
    }
}

/// Appends the two lines that bind one property or trigger.
fn append_binding(text: &mut String, kind: &str, name: &str, returned: &str, blocking: bool)
    ensures
        final(text)@ == old(text)@ + binding_lines(kind@, name@, returned@, blocking),
{
    text.append("    #[");
    text.append(kind);
    text.append("(name = \"");
    text.append(name);
    text.append("\")]\n");
    text.append("    ");
    if !blocking {
        text.append("async");
    }
    text.append(" fn ");
    text.append(name);
    text.append("() -> ");
    text.append(returned);
    text.append(";\n");
    assert(text@ =~= old(text)@ + binding_lines(kind@, name@, returned@, blocking));
}

/// Where the front of a run cannot be bound, the run cannot.
pub proof fn lemma_property_lines_prefix(properties: Seq<PropertyView>, n: int, blocking: bool)
    requires
        0 <= n <= properties.len(),
        property_lines(properties.take(n), blocking) is None,
    ensures
        property_lines(properties, blocking) is None,
    decreases properties.len() - n,
{
    if n < properties.len() {
        assert(properties.take(n + 1).drop_last() =~= properties.take(n));
        lemma_property_lines_prefix(properties, n + 1, blocking);
    } else {
        assert(properties.take(n) =~= properties);
    }
}

/// Where the front of a run cannot be bound, the run cannot.
pub proof fn lemma_trigger_lines_prefix(triggers: Seq<TriggerView>, n: int, blocking: bool)
    requires
        0 <= n <= triggers.len(),
        trigger_lines(triggers.take(n), blocking) is None,
    ensures
        trigger_lines(triggers, blocking) is None,
    decreases triggers.len() - n,
{
    if n < triggers.len() {
        assert(triggers.take(n + 1).drop_last() =~= triggers.take(n));
        lemma_trigger_lines_prefix(triggers, n + 1, blocking);
    } else {
        assert(triggers.take(n) =~= triggers);
    }
}

/// Writes the client bindings of `schema` as a trait called `name`.
///
/// Nothing is answered where the signature of a property or of a trigger
/// cannot be read.
pub fn generate_for_schema(schema: &Schema, name: &str, blocking: bool) -> (text: Option<String>)
    ensures
        match text {
            Some(text) => bindings(schema@, name@, blocking) == Some(text@),
            None => bindings(schema@, name@, blocking) is None,
        },
{
    let mut text = String::new();
    text.append("#[glud_macros::glud_interface(name = \"");
    text.append(schema.name());
    text.append("\", blocking = ");
    text.append(if blocking { "true" } else { "false" });
    text.append(")]\n");
    text.append("trait ");
    text.append(name);
    text.append(" {\n");
    let ghost head = interface_line(schema@.name, blocking) + "trait "@ + name@ + " {\n"@;
    assert(text@ =~= head);
    let properties = schema.properties();
    let ghost all_properties = schema@.properties;
    let mut i: usize = 0;
    assert(all_properties.take(0) =~= Seq::<PropertyView>::empty());
    assert(head + Seq::<char>::empty() =~= head);
    while i < properties.len()
        invariant
            i <= properties.len(),
            all_properties == property_views(properties@),
            all_properties == schema@.properties,
            property_lines(all_properties.take(i as int), blocking) matches Some(lines) && text@
                == head + lines,
        decreases properties.len() - i,
    {
        let ghost lines = property_lines(all_properties.take(i as int), blocking)->Some_0;
        proof {
            assert(all_properties.take(i + 1).drop_last() =~= all_properties.take(i as int));
            assert(all_properties.take(i + 1).last() == properties@[i as int]@);
        }
        let signature = properties[i].signature();
        match to_rust_type(&signature, false, false) {
            Some(returned) => {
                append_binding(
                    &mut text,
                    "property",
                    properties[i].name(),
                    returned.as_str(),
                    blocking,
                );
                assert(text@ =~= head + (lines + binding_lines(
                    "property"@,
                    properties@[i as int]@.name,
                    returned@,
                    blocking,
                )));
            },
            None => {
                proof {
                    let upto = all_properties.take(i + 1);
                    assert(rust_type(upto.last().signature, false, false) is None);
                    assert(property_lines(upto, blocking) is None);
                    lemma_property_lines_prefix(all_properties, i + 1, blocking);
                }
                return None;
            },
        }
        i += 1;
    }
    assert(all_properties.take(i as int) =~= all_properties);
    let ghost middle = text@;
    let triggers = schema.triggers();
    let ghost all_triggers = schema@.triggers;
    let mut k: usize = 0;
    assert(all_triggers.take(0) =~= Seq::<TriggerView>::empty());
    assert(middle + Seq::<char>::empty() =~= middle);
    while k < triggers.len()
        invariant
            k <= triggers.len(),
            all_triggers == trigger_views(triggers@),
            all_triggers == schema@.triggers,
            property_lines(schema@.properties, blocking) matches Some(lines) && middle == head
                + lines,
            trigger_lines(all_triggers.take(k as int), blocking) matches Some(lines) && text@
                == middle + lines,
        decreases triggers.len() - k,
    {
        let ghost lines = trigger_lines(all_triggers.take(k as int), blocking)->Some_0;
        proof {
            assert(all_triggers.take(k + 1).drop_last() =~= all_triggers.take(k as int));
            assert(all_triggers.take(k + 1).last() == triggers@[k as int]@);
        }
        let signature = triggers[k].signature();
        match to_rust_type(&signature, false, false) {
            Some(returned) => {
                append_binding(
                    &mut text,
                    "trigger",
                    triggers[k].name(),
                    returned.as_str(),
                    blocking,
                );
                assert(text@ =~= middle + (lines + binding_lines(
                    "trigger"@,
                    triggers@[k as int]@.name,
                    returned@,
                    blocking,
                )));
            },
            None => {
                proof {
                    let upto = all_triggers.take(k + 1);
                    assert(rust_type(upto.last().signature, false, false) is None);
                    assert(trigger_lines(upto, blocking) is None);
                    lemma_trigger_lines_prefix(all_triggers, k + 1, blocking);
                }
                return None;
            },
        }
        k += 1;
    }
    assert(all_triggers.take(k as int) =~= all_triggers);
    text.append("}\n");
    proof {
        let p = property_lines(schema@.properties, blocking)->Some_0;
        let t = trigger_lines(schema@.triggers, blocking)->Some_0;
        assert(text@ =~= head + p + t + "}\n"@);
    }
    Some(text)
}

} // verus!
