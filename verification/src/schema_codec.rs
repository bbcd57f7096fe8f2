use crate::data_codec::{
    data_fits, decode_data, enc_data, encode_data, lemma_parse_data, lemma_parsed_data,
    parse_data,
};
use crate::property::{Property, PropertyView};
use crate::schema::{
    distinct_property_names, distinct_trigger_names, has_property, has_trigger, property_views,
    trigger_views, Schema, SchemaView,
};
use crate::signature::TypeSignature;
use crate::trigger::{Trigger, TriggerView};
use crate::value::{value_views, Value, ValueView};
use crate::wire::{
    enc_bool, enc_text, enc_u64, lemma_parse_bool, lemma_parse_text, lemma_parse_u64,
    lemma_parsed_bool, lemma_parsed_text, lemma_parsed_u64,
    parse_bool, parse_text, parse_u64, put_bool, put_text, put_u64, text_fits, Reader,
};
use vstd::prelude::*;

verus! {

/// The encoding of a value: its declared signature, the null flag, and the
/// payload where there is one.
pub open spec fn enc_value(v: ValueView) -> Seq<u8> {
    enc_text(v.signature) + (match v.payload {
        None => enc_bool(true),
        Some(d) => enc_bool(false) + enc_data(d),
    })
}

/// Whether every length inside a value can be written down.
pub open spec fn value_fits(v: ValueView) -> bool {
    text_fits(v.signature) && (v.payload matches Some(d) ==> data_fits(d))
}

/// Reads a value from the front of `s`. A payload that does not have the
/// declared signature is refused.
pub open spec fn parse_value(s: Seq<u8>) -> Option<(ValueView, Seq<u8>)> {
    match parse_text(s) {
        None => None,
        Some((signature, after_signature)) => match parse_bool(after_signature) {
            None => None,
            Some((is_null, after_flag)) => if is_null {
                Some((ValueView { signature, payload: None }, after_flag))
            } else {
                match parse_data(after_flag) {
                    None => None,
                    Some((d, rest)) => if d.signature() == signature {
                        Some((ValueView { signature, payload: Some(d) }, rest))
                    } else {
                        None
                    },
                }
            },
        },
    }
}

/// The encodings of a run of values, one after the other.
pub open spec fn enc_values(values: Seq<ValueView>) -> Seq<u8>
    decreases values.len(),
{
    if values.len() == 0 {
        Seq::empty()
    } else {
        enc_value(values[0]) + enc_values(values.drop_first())
    }
}

/// Reads `count` values from the front of `s`.
pub open spec fn parse_values(s: Seq<u8>, count: nat) -> Option<(Seq<ValueView>, Seq<u8>)>
    decreases count,
{
    if count == 0 {
        Some((Seq::empty(), s))
    } else {
        match parse_value(s) {
            None => None,
            Some((first, after_first)) => match parse_values(after_first, (count - 1) as nat) {
                Some((others, rest)) => Some((seq![first] + others, rest)),
                None => None,
            },
        }
    }
}

/// Whether every value of a run fits.
pub open spec fn values_fit(values: Seq<ValueView>) -> bool {
    values.len() <= u64::MAX && forall|i: int|
        0 <= i < values.len() ==> value_fits(#[trigger] values[i])
}

/// The encoding of a property: its three texts, its default and current
/// values, how many choices it has and each of them, its two flags, and its
/// signature.
#[verifier::opaque]
pub open spec fn enc_property(p: PropertyView) -> Seq<u8> {
    enc_text(p.name) + enc_text(p.about) + enc_text(p.long_about) + enc_value(p.default)
        + enc_value(p.current) + enc_u64(p.choices.len() as u64) + enc_values(p.choices)
        + enc_bool(p.show_in_settings) + enc_bool(p.writable) + enc_text(p.signature)
}

/// Whether every length inside a property can be written down.
pub open spec fn property_fits(p: PropertyView) -> bool {
    &&& text_fits(p.name)
    &&& text_fits(p.about)
    &&& text_fits(p.long_about)
    &&& value_fits(p.default)
    &&& value_fits(p.current)
    &&& values_fit(p.choices)
    &&& text_fits(p.signature)
}

/// Reads the fields of a property from the front of `s`, as they come.
#[verifier::opaque]
pub open spec fn parse_property_fields(s: Seq<u8>) -> Option<(PropertyView, Seq<u8>)> {
    match parse_text(s) {
        None => None,
        Some((name, s1)) => match parse_text(s1) {
            None => None,
            Some((about, s2)) => match parse_text(s2) {
                None => None,
                Some((long_about, s3)) => match parse_value(s3) {
                    None => None,
                    Some((default, s4)) => match parse_value(s4) {
                        None => None,
                        Some((current, s5)) => match parse_u64(s5) {
                            None => None,
                            Some((count, s6)) => match parse_values(s6, count as nat) {
                                None => None,
                                Some((choices, s7)) => match parse_bool(s7) {
                                    None => None,
                                    Some((show_in_settings, s8)) => match parse_bool(s8) {
                                        None => None,
                                        Some((writable, s9)) => match parse_text(s9) {
                                            None => None,
                                            Some((signature, rest)) => Some(
                                                (
                                                    PropertyView {
                                                        name,
                                                        about,
                                                        long_about,
                                                        default,
                                                        current,
                                                        choices,
                                                        show_in_settings,
                                                        writable,
                                                        signature,
                                                    },
                                                    rest,
                                                ),
                                            ),
                                        },
                                    },
                                },
                            },
                        },
                    },
                },
            },
        },
    }
}

/// Reads a property from the front of `s`. Fields that break the invariant of
/// a property are refused.
pub open spec fn parse_property(s: Seq<u8>) -> Option<(PropertyView, Seq<u8>)> {
    match parse_property_fields(s) {
        Some((p, rest)) => if p.wf() {
            Some((p, rest))
        } else {
            None
        },
        None => None,
    }
}

/// The encodings of a run of properties, one after the other.
pub open spec fn enc_properties(properties: Seq<PropertyView>) -> Seq<u8>
    decreases properties.len(),
{
    if properties.len() == 0 {
        Seq::empty()
    } else {
        enc_property(properties[0]) + enc_properties(properties.drop_first())
    }
}

/// Reads `count` properties from the front of `s`.
pub open spec fn parse_properties(s: Seq<u8>, count: nat) -> Option<
    (Seq<PropertyView>, Seq<u8>),
>
    decreases count,
{
    if count == 0 {
        Some((Seq::empty(), s))
    } else {
        match parse_property(s) {
            None => None,
            Some((first, after_first)) => match parse_properties(
                after_first,
                (count - 1) as nat,
            ) {
                Some((others, rest)) => Some((seq![first] + others, rest)),
                None => None,
            },
        }
    }
}

/// Whether every property of a run fits.
pub open spec fn properties_fit(properties: Seq<PropertyView>) -> bool {
    properties.len() <= u64::MAX && forall|i: int|
        0 <= i < properties.len() ==> property_fits(#[trigger] properties[i])
}

/// The encoding of a trigger: its name, then its signature.
pub open spec fn enc_trigger(t: TriggerView) -> Seq<u8> {
    enc_text(t.name) + enc_text(t.signature)
}

/// Whether every length inside a trigger can be written down.
pub open spec fn trigger_fits(t: TriggerView) -> bool {
    text_fits(t.name) && text_fits(t.signature)
}

/// Reads a trigger from the front of `s`.
pub open spec fn parse_trigger(s: Seq<u8>) -> Option<(TriggerView, Seq<u8>)> {
    match parse_text(s) {
        None => None,
        Some((name, after_name)) => match parse_text(after_name) {
            None => None,
            Some((signature, rest)) => Some((TriggerView { name, signature }, rest)),
        },
    }
}

/// The encodings of a run of triggers, one after the other.
pub open spec fn enc_triggers(triggers: Seq<TriggerView>) -> Seq<u8>
    decreases triggers.len(),
{
    if triggers.len() == 0 {
        Seq::empty()
    } else {
        enc_trigger(triggers[0]) + enc_triggers(triggers.drop_first())
    }
}

/// Reads `count` triggers from the front of `s`.
pub open spec fn parse_triggers(s: Seq<u8>, count: nat) -> Option<(Seq<TriggerView>, Seq<u8>)>
    decreases count,
{
    if count == 0 {
        Some((Seq::empty(), s))
    } else {
        match parse_trigger(s) {
            None => None,
            Some((first, after_first)) => match parse_triggers(after_first, (count - 1) as nat) {
                Some((others, rest)) => Some((seq![first] + others, rest)),
                None => None,
            },
        }
    }
}

/// Whether every trigger of a run fits.
pub open spec fn triggers_fit(triggers: Seq<TriggerView>) -> bool {
    triggers.len() <= u64::MAX && forall|i: int|
        0 <= i < triggers.len() ==> trigger_fits(#[trigger] triggers[i])
}

/// The encoding of a schema: its name, its version, how many properties it
/// has and each of them in order, how many triggers and each of them in
/// order.
pub open spec fn enc_schema(s: SchemaView) -> Seq<u8> {
    enc_text(s.name) + enc_u64(s.version as u64) + enc_u64(s.properties.len() as u64)
        + enc_properties(s.properties) + enc_u64(s.triggers.len() as u64) + enc_triggers(
        s.triggers,
    )
}

/// Whether every length inside a schema can be written down. It holds of
/// every schema that a program can hold.
pub open spec fn schema_fits(s: SchemaView) -> bool {
    text_fits(s.name) && properties_fit(s.properties) && triggers_fit(s.triggers)
}

/// Reads the parts of a schema from the front of `s`, as they come.
pub open spec fn parse_schema(s: Seq<u8>) -> Option<(SchemaView, Seq<u8>)> {
    match parse_text(s) {
        None => None,
        Some((name, s1)) => match parse_u64(s1) {
            None => None,
            Some((version, s2)) => if version > u32::MAX {
                None
            } else {
                match parse_u64(s2) {
                    None => None,
                    Some((property_count, s3)) => match parse_properties(
                        s3,
                        property_count as nat,
                    ) {
                        None => None,
                        Some((properties, s4)) => match parse_u64(s4) {
                            None => None,
                            Some((trigger_count, s5)) => match parse_triggers(
                                s5,
                                trigger_count as nat,
                            ) {
                                None => None,
                                Some((triggers, rest)) => Some(
                                    (
                                        SchemaView {
                                            name,
                                            version: version as u32,
                                            properties,
                                            triggers,
                                        },
                                        rest,
                                    ),
                                ),
                            },
                        },
                    },
                }
            },
        },
    }
}

/// The schema that `bytes` stand for: they must hold one schema and nothing
/// after it, and the schema must keep its invariant.
pub open spec fn decoded(bytes: Seq<u8>) -> Option<SchemaView> {
    match parse_schema(bytes) {
        Some((s, rest)) => if rest.len() == 0 && s.wf() {
            Some(s)
        } else {
            None
        },
        None => None,
    }
}

/// Reading back a value gives the value, and leaves what followed.
pub proof fn lemma_parse_value(v: ValueView, rest: Seq<u8>)
    requires
        v.wf(),
        value_fits(v),
    ensures
        parse_value(enc_value(v) + rest) == Some((v, rest)),
{
    match v.payload {
        None => {
            let after_signature = enc_bool(true) + rest;
            assert(enc_value(v) + rest =~= enc_text(v.signature) + after_signature);
            lemma_parse_text(v.signature, after_signature);
            lemma_parse_bool(true, rest);
        },
        Some(d) => {
            let after_flag = enc_data(d) + rest;
            let after_signature = enc_bool(false) + after_flag;
            assert(enc_value(v) + rest =~= enc_text(v.signature) + after_signature);
            lemma_parse_text(v.signature, after_signature);
            lemma_parse_bool(false, after_flag);
            lemma_parse_data(d, rest);
        },
    }
}

/// Reading back a run of values gives the run, and leaves what followed.
pub proof fn lemma_parse_values(values: Seq<ValueView>, rest: Seq<u8>)
    requires
        values_fit(values),
        forall|i: int| 0 <= i < values.len() ==> (#[trigger] values[i]).wf(),
    ensures
        parse_values(enc_values(values) + rest, values.len()) == Some((values, rest)),
    decreases values.len(),
{
    if values.len() == 0 {
        assert(enc_values(values) + rest =~= rest);
        assert(values =~= Seq::empty());
    } else {
        let first = values[0];
        let others = values.drop_first();
        let after_first = enc_values(others) + rest;
        lemma_two_parts(enc_value(first), enc_values(others), rest);
        assert(enc_values(values) == enc_value(first) + enc_values(others));
        lemma_parse_value(first, after_first);
        assert forall|i: int| 0 <= i < others.len() implies (#[trigger] others[i]).wf()
            && value_fits(others[i]) by {
            assert(others[i] == values[i + 1]);
        }
        lemma_parse_values(others, rest);
        assert(seq![first] + others =~= values);
    }
}

/// Two runs and a rest, put together from the left or from the right.
proof fn lemma_two_parts(a: Seq<u8>, b: Seq<u8>, rest: Seq<u8>)
    ensures
        a + b + rest == a + (b + rest),
{
    assert(a + b + rest =~= a + (b + rest));
}

/// Ten runs and a rest, put together from the left or from the right.
proof fn lemma_ten_parts(
    a: Seq<u8>,
    b: Seq<u8>,
    c: Seq<u8>,
    d: Seq<u8>,
    e: Seq<u8>,
    f: Seq<u8>,
    g: Seq<u8>,
    h: Seq<u8>,
    i: Seq<u8>,
    j: Seq<u8>,
    rest: Seq<u8>,
)
    ensures
        a + b + c + d + e + f + g + h + i + j + rest == a + (b + (c + (d + (e + (f + (g + (h + (i
            + (j + rest))))))))),
{
    assert(a + b + c + d + e + f + g + h + i + j + rest =~= a + (b + (c + (d + (e + (f + (g + (h
        + (i + (j + rest))))))))));
}

/// Reading back the fields of a property gives the property.
pub proof fn lemma_parse_property_fields(p: PropertyView, rest: Seq<u8>)
    requires
        p.wf(),
        property_fits(p),
    ensures
        parse_property_fields(enc_property(p) + rest) == Some((p, rest)),
{
    reveal(enc_property);
    reveal(parse_property_fields);
    let s9 = enc_text(p.signature) + rest;
    let s8 = enc_bool(p.writable) + s9;
    let s7 = enc_bool(p.show_in_settings) + s8;
    let s6 = enc_values(p.choices) + s7;
    let s5 = enc_u64(p.choices.len() as u64) + s6;
    let s4 = enc_value(p.current) + s5;
    let s3 = enc_value(p.default) + s4;
    let s2 = enc_text(p.long_about) + s3;
    let s1 = enc_text(p.about) + s2;
    let s0 = enc_text(p.name) + s1;
    lemma_ten_parts(
        enc_text(p.name),
        enc_text(p.about),
        enc_text(p.long_about),
        enc_value(p.default),
        enc_value(p.current),
        enc_u64(p.choices.len() as u64),
        enc_values(p.choices),
        enc_bool(p.show_in_settings),
        enc_bool(p.writable),
        enc_text(p.signature),
        rest,
    );
    assert(enc_property(p) + rest == s0);
    lemma_parse_text(p.name, s1);
    lemma_parse_text(p.about, s2);
    lemma_parse_text(p.long_about, s3);
    lemma_parse_value(p.default, s4);
    lemma_parse_value(p.current, s5);
    lemma_parse_u64(p.choices.len() as u64, s6);
    lemma_parse_values(p.choices, s7);
    lemma_parse_bool(p.show_in_settings, s8);
    lemma_parse_bool(p.writable, s9);
    lemma_parse_text(p.signature, rest);
}

/// Reading back a run of properties gives the run, and leaves what followed.
pub proof fn lemma_parse_properties(properties: Seq<PropertyView>, rest: Seq<u8>)
    requires
        properties_fit(properties),
        forall|i: int| 0 <= i < properties.len() ==> (#[trigger] properties[i]).wf(),
    ensures
        parse_properties(enc_properties(properties) + rest, properties.len()) == Some(
            (properties, rest),
        ),
    decreases properties.len(),
{
    if properties.len() == 0 {
        assert(enc_properties(properties) + rest =~= rest);
        assert(properties =~= Seq::empty());
    } else {
        let first = properties[0];
        let others = properties.drop_first();
        let after_first = enc_properties(others) + rest;
        lemma_two_parts(enc_property(first), enc_properties(others), rest);
        assert(enc_properties(properties) == enc_property(first) + enc_properties(others));
        lemma_parse_property_fields(first, after_first);
        assert(parse_property(enc_property(first) + after_first) == Some((first, after_first)));
        assert forall|i: int| 0 <= i < others.len() implies (#[trigger] others[i]).wf()
            && property_fits(others[i]) by {
            assert(others[i] == properties[i + 1]);
        }
        lemma_parse_properties(others, rest);
        assert(seq![first] + others =~= properties);
    }
}

/// Reading back a trigger gives the trigger, and leaves what followed.
pub proof fn lemma_parse_trigger(t: TriggerView, rest: Seq<u8>)
    requires
        trigger_fits(t),
    ensures
        parse_trigger(enc_trigger(t) + rest) == Some((t, rest)),
{
    let after_name = enc_text(t.signature) + rest;
    assert(enc_trigger(t) + rest =~= enc_text(t.name) + after_name);
    lemma_parse_text(t.name, after_name);
    lemma_parse_text(t.signature, rest);
}

/// Reading back a run of triggers gives the run, and leaves what followed.
pub proof fn lemma_parse_triggers(triggers: Seq<TriggerView>, rest: Seq<u8>)
    requires
        triggers_fit(triggers),
    ensures
        parse_triggers(enc_triggers(triggers) + rest, triggers.len()) == Some((triggers, rest)),
    decreases triggers.len(),
{
    if triggers.len() == 0 {
        assert(enc_triggers(triggers) + rest =~= rest);
        assert(triggers =~= Seq::empty());
    } else {
        let first = triggers[0];
        let others = triggers.drop_first();
        let after_first = enc_triggers(others) + rest;
        lemma_two_parts(enc_trigger(first), enc_triggers(others), rest);
        assert(enc_triggers(triggers) == enc_trigger(first) + enc_triggers(others));
        lemma_parse_trigger(first, after_first);
        assert forall|i: int| 0 <= i < others.len() implies trigger_fits(#[trigger] others[i]) by {
            assert(others[i] == triggers[i + 1]);
        }
        lemma_parse_triggers(others, rest);
        assert(seq![first] + others =~= triggers);
    }
}

/// Reading back the parts of a schema gives the schema, and leaves what
/// followed.
pub proof fn lemma_parse_schema(s: SchemaView, rest: Seq<u8>)
    requires
        s.wf(),
        schema_fits(s),
    ensures
        parse_schema(enc_schema(s) + rest) == Some((s, rest)),
{
    let s5 = enc_triggers(s.triggers) + rest;
    let s4 = enc_u64(s.triggers.len() as u64) + s5;
    let s3 = enc_properties(s.properties) + s4;
    let s2 = enc_u64(s.properties.len() as u64) + s3;
    let s1 = enc_u64(s.version as u64) + s2;
    let s0 = enc_text(s.name) + s1;
    assert(enc_schema(s) + rest =~= s0);
    lemma_parse_text(s.name, s1);
    lemma_parse_u64(s.version as u64, s2);
    lemma_parse_u64(s.properties.len() as u64, s3);
    lemma_parse_properties(s.properties, s4);
    lemma_parse_u64(s.triggers.len() as u64, s5);
    lemma_parse_triggers(s.triggers, rest);
}

/// Decoding the encoding of a schema gives the schema back: its name, its
/// version, each property in order with its name, signature, default and
/// current value, choices and flags, and each trigger in order with its name
/// and signature.
pub proof fn lemma_round_trip(s: SchemaView)
    requires
        s.wf(),
        schema_fits(s),
    ensures
        decoded(enc_schema(s)) == Some(s),
{
    lemma_parse_schema(s, Seq::empty());
    assert(enc_schema(s) + Seq::<u8>::empty() =~= enc_schema(s));
}

/// Two schemas with the same encoding are the same schema.
pub proof fn lemma_encoding_is_injective(a: SchemaView, b: SchemaView)
    requires
        a.wf(),
        b.wf(),
        schema_fits(a),
        schema_fits(b),
        enc_schema(a) == enc_schema(b),
    ensures
        a == b,
{
    lemma_round_trip(a);
    lemma_round_trip(b);
}

/// What was read as a value is what stood there, and keeps the invariant of
/// a value.
pub proof fn lemma_parsed_value(s: Seq<u8>)
    requires
        parse_value(s) is Some,
    ensures
        ({
            let (v, rest) = parse_value(s)->Some_0;
            s == enc_value(v) + rest && value_fits(v) && v.wf()
        }),
{
    lemma_parsed_text(s);
    let (signature, after_signature) = parse_text(s)->Some_0;
    lemma_parsed_bool(after_signature);
    let (is_null, after_flag) = parse_bool(after_signature)->Some_0;
    if is_null {
        lemma_two_parts(enc_text(signature), enc_bool(true), after_flag);
    } else {
        lemma_parsed_data(after_flag);
        let (d, rest) = parse_data(after_flag)->Some_0;
        lemma_two_parts(enc_bool(false), enc_data(d), rest);
        lemma_two_parts(enc_text(signature), enc_bool(false) + enc_data(d), rest);
    }
}

/// What was read as a run of values is what stood there.
pub proof fn lemma_parsed_values(s: Seq<u8>, count: nat)
    requires
        parse_values(s, count) is Some,
        count <= u64::MAX,
    ensures
        ({
            let (items, rest) = parse_values(s, count)->Some_0;
            s == enc_values(items) + rest && items.len() == count && values_fit(items) && forall|i: int| 0 <= i < items.len() ==> (#[trigger] items[i]).wf()
        }),
    decreases count,
{
    if count == 0 {
        assert(s =~= enc_values(Seq::<ValueView>::empty()) + s);
    } else {
        lemma_parsed_value(s);
        let (first, after_first) = parse_value(s)->Some_0;
        lemma_parsed_values(after_first, (count - 1) as nat);
        let (others, rest) = parse_values(after_first, (count - 1) as nat)->Some_0;
        let items = seq![first] + others;
        assert(items.drop_first() =~= others);
        assert(items[0] == first);
        lemma_two_parts(enc_value(first), enc_values(others), rest);
        assert(enc_values(items) == enc_value(first) + enc_values(others));
        assert forall|i: int| 0 <= i < items.len() implies value_fits(#[trigger] items[i]) by {
            if i > 0 {
                assert(items[i] == others[i - 1]);
            }
        }
        assert forall|i: int| 0 <= i < items.len() implies (#[trigger] items[i]).wf() by {
            if i > 0 {
                assert(items[i] == others[i - 1]);
            }
        }
    }
}

/// What was read as the fields of a property is what stood there.
pub proof fn lemma_parsed_property_fields(s: Seq<u8>)
    requires
        parse_property_fields(s) is Some,
    ensures
        ({
            let (p, rest) = parse_property_fields(s)->Some_0;
            s == enc_property(p) + rest && property_fits(p)
        }),
{
    reveal(enc_property);
    reveal(parse_property_fields);
    lemma_parsed_text(s);
    let (name, s1) = parse_text(s)->Some_0;
    lemma_parsed_text(s1);
    let (about, s2) = parse_text(s1)->Some_0;
    lemma_parsed_text(s2);
    let (long_about, s3) = parse_text(s2)->Some_0;
    lemma_parsed_value(s3);
    let (default, s4) = parse_value(s3)->Some_0;
    lemma_parsed_value(s4);
    let (current, s5) = parse_value(s4)->Some_0;
    lemma_parsed_u64(s5);
    let (count, s6) = parse_u64(s5)->Some_0;
    lemma_parsed_values(s6, count as nat);
    let (choices, s7) = parse_values(s6, count as nat)->Some_0;
    lemma_parsed_bool(s7);
    let (show_in_settings, s8) = parse_bool(s7)->Some_0;
    lemma_parsed_bool(s8);
    let (writable, s9) = parse_bool(s8)->Some_0;
    lemma_parsed_text(s9);
    let (signature, rest) = parse_text(s9)->Some_0;
    lemma_ten_parts(
        enc_text(name),
        enc_text(about),
        enc_text(long_about),
        enc_value(default),
        enc_value(current),
        enc_u64(count),
        enc_values(choices),
        enc_bool(show_in_settings),
        enc_bool(writable),
        enc_text(signature),
        rest,
    );
}

/// What was read as a property is what stood there, and keeps the invariant
/// of a property.
pub proof fn lemma_parsed_property(s: Seq<u8>)
    requires
        parse_property(s) is Some,
    ensures
        ({
            let (p, rest) = parse_property(s)->Some_0;
            s == enc_property(p) + rest && property_fits(p) && p.wf()
        }),
{
    lemma_parsed_property_fields(s);
}

/// What was read as a run of properties is what stood there.
pub proof fn lemma_parsed_properties(s: Seq<u8>, count: nat)
    requires
        parse_properties(s, count) is Some,
        count <= u64::MAX,
    ensures
        ({
            let (items, rest) = parse_properties(s, count)->Some_0;
            s == enc_properties(items) + rest && items.len() == count && properties_fit(items) && forall|i: int| 0 <= i < items.len() ==> (#[trigger] items[i]).wf()
        }),
    decreases count,
{
    if count == 0 {
        assert(s =~= enc_properties(Seq::<PropertyView>::empty()) + s);
    } else {
        lemma_parsed_property(s);
        let (first, after_first) = parse_property(s)->Some_0;
        lemma_parsed_properties(after_first, (count - 1) as nat);
        let (others, rest) = parse_properties(after_first, (count - 1) as nat)->Some_0;
        let items = seq![first] + others;
        assert(items.drop_first() =~= others);
        assert(items[0] == first);
        lemma_two_parts(enc_property(first), enc_properties(others), rest);
        assert(enc_properties(items) == enc_property(first) + enc_properties(others));
        assert forall|i: int| 0 <= i < items.len() implies property_fits(#[trigger] items[i]) by {
            if i > 0 {
                assert(items[i] == others[i - 1]);
            }
        }
        assert forall|i: int| 0 <= i < items.len() implies (#[trigger] items[i]).wf() by {
            if i > 0 {
                assert(items[i] == others[i - 1]);
            }
        }
    }
}

/// What was read as a trigger is what stood there.
pub proof fn lemma_parsed_trigger(s: Seq<u8>)
    requires
        parse_trigger(s) is Some,
    ensures
        ({
            let (t, rest) = parse_trigger(s)->Some_0;
            s == enc_trigger(t) + rest && trigger_fits(t)
        }),
{
    lemma_parsed_text(s);
    let (name, after_name) = parse_text(s)->Some_0;
    lemma_parsed_text(after_name);
    let (signature, rest) = parse_text(after_name)->Some_0;
    lemma_two_parts(enc_text(name), enc_text(signature), rest);
}

/// What was read as a run of triggers is what stood there.
pub proof fn lemma_parsed_triggers(s: Seq<u8>, count: nat)
    requires
        parse_triggers(s, count) is Some,
        count <= u64::MAX,
    ensures
        ({
            let (items, rest) = parse_triggers(s, count)->Some_0;
            s == enc_triggers(items) + rest && items.len() == count && triggers_fit(items)
        }),
    decreases count,
{
    if count == 0 {
        assert(s =~= enc_triggers(Seq::<TriggerView>::empty()) + s);
    } else {
        lemma_parsed_trigger(s);
        let (first, after_first) = parse_trigger(s)->Some_0;
        lemma_parsed_triggers(after_first, (count - 1) as nat);
        let (others, rest) = parse_triggers(after_first, (count - 1) as nat)->Some_0;
        let items = seq![first] + others;
        assert(items.drop_first() =~= others);
        assert(items[0] == first);
        lemma_two_parts(enc_trigger(first), enc_triggers(others), rest);
        assert(enc_triggers(items) == enc_trigger(first) + enc_triggers(others));
        assert forall|i: int| 0 <= i < items.len() implies trigger_fits(#[trigger] items[i]) by {
            if i > 0 {
                assert(items[i] == others[i - 1]);
            }
        }
    }
}

/// What was read as the parts of a schema is what stood there.
pub proof fn lemma_parsed_schema(s: Seq<u8>)
    requires
        parse_schema(s) is Some,
    ensures
        ({
            let (schema, rest) = parse_schema(s)->Some_0;
            s == enc_schema(schema) + rest && schema_fits(schema) && forall|i: int|
                0 <= i < schema.properties.len() ==> (#[trigger] schema.properties[i]).wf()
        }),
{
    lemma_parsed_text(s);
    let (name, s1) = parse_text(s)->Some_0;
    lemma_parsed_u64(s1);
    let (version, s2) = parse_u64(s1)->Some_0;
    lemma_parsed_u64(s2);
    let (property_count, s3) = parse_u64(s2)->Some_0;
    lemma_parsed_properties(s3, property_count as nat);
    let (properties, s4) = parse_properties(s3, property_count as nat)->Some_0;
    lemma_parsed_u64(s4);
    let (trigger_count, s5) = parse_u64(s4)->Some_0;
    lemma_parsed_triggers(s5, trigger_count as nat);
    let (triggers, rest) = parse_triggers(s5, trigger_count as nat)->Some_0;
    let a = enc_text(name);
    let b = enc_u64(version);
    let c = enc_u64(property_count);
    let d = enc_properties(properties);
    let e = enc_u64(trigger_count);
    let f = enc_triggers(triggers);
    assert(s == a + (b + (c + (d + (e + (f + rest))))));
    assert(a + (b + (c + (d + (e + (f + rest))))) =~= a + b + c + d + e + f + rest);
}

/// Bytes decode to a schema exactly when they are the encoding of that
/// schema, and the schema keeps its invariant.
pub proof fn lemma_decoded_is_inverse(bytes: Seq<u8>, s: SchemaView)
    ensures
        decoded(bytes) == Some(s) <==> s.wf() && schema_fits(s) && enc_schema(s) == bytes,
{
    if decoded(bytes) == Some(s) {
        lemma_parsed_schema(bytes);
        assert(enc_schema(s) + Seq::<u8>::empty() =~= enc_schema(s));
        assert(parse_schema(bytes)->Some_0.1 =~= Seq::<u8>::empty());
    }
    if s.wf() && schema_fits(s) && enc_schema(s) == bytes {
        lemma_round_trip(s);
    }
}

/// Adding one value at the end adds its encoding at the end.
pub proof fn lemma_enc_values_push(items: Seq<ValueView>, last: ValueView)
    ensures
        enc_values(items.push(last)) == enc_values(items) + enc_value(last),
    decreases items.len(),
{
    let all = items.push(last);
    if items.len() == 0 {
        assert(all.drop_first() =~= Seq::<ValueView>::empty());
        assert(enc_values(all.drop_first()) =~= Seq::<u8>::empty());
        assert(enc_values(items) =~= Seq::<u8>::empty());
        assert(enc_values(all) =~= enc_values(items) + enc_value(last));
    } else {
        assert(all.drop_first() =~= items.drop_first().push(last));
        lemma_enc_values_push(items.drop_first(), last);
        assert(enc_values(all) =~= enc_values(items) + enc_value(last));
    }
}

/// Adding one property at the end adds its encoding at the end.
pub proof fn lemma_enc_properties_push(items: Seq<PropertyView>, last: PropertyView)
    ensures
        enc_properties(items.push(last)) == enc_properties(items) + enc_property(last),
    decreases items.len(),
{
    let all = items.push(last);
    if items.len() == 0 {
        assert(all.drop_first() =~= Seq::<PropertyView>::empty());
        assert(enc_properties(all.drop_first()) =~= Seq::<u8>::empty());
        assert(enc_properties(items) =~= Seq::<u8>::empty());
        assert(enc_properties(all) =~= enc_properties(items) + enc_property(last));
    } else {
        assert(all.drop_first() =~= items.drop_first().push(last));
        lemma_enc_properties_push(items.drop_first(), last);
        assert(enc_properties(all) =~= enc_properties(items) + enc_property(last));
    }
}

/// Adding one trigger at the end adds its encoding at the end.
pub proof fn lemma_enc_triggers_push(items: Seq<TriggerView>, last: TriggerView)
    ensures
        enc_triggers(items.push(last)) == enc_triggers(items) + enc_trigger(last),
    decreases items.len(),
{
    let all = items.push(last);
    if items.len() == 0 {
        assert(all.drop_first() =~= Seq::<TriggerView>::empty());
        assert(enc_triggers(all.drop_first()) =~= Seq::<u8>::empty());
        assert(enc_triggers(items) =~= Seq::<u8>::empty());
        assert(enc_triggers(all) =~= enc_triggers(items) + enc_trigger(last));
    } else {
        assert(all.drop_first() =~= items.drop_first().push(last));
        lemma_enc_triggers_push(items.drop_first(), last);
        assert(enc_triggers(all) =~= enc_triggers(items) + enc_trigger(last));
    }
}

/// Appends the encoding of `v` to `out`.
pub fn encode_value(v: &Value, out: &mut Vec<u8>)
    ensures
        final(out)@ == old(out)@ + enc_value(v@),
        value_fits(v@),
{
    let signature = v.signature();
    put_text(out, signature.as_str());
    match v.get_inner() {
        None => {
            put_bool(out, true);
        },
        Some(d) => {
            put_bool(out, false);
            encode_data(d, out);
        },
    }
    assert(out@ =~= old(out)@ + enc_value(v@));
}

/// Reads one value.
pub fn decode_value(reader: &mut Reader) -> (read: Option<Value>)
    requires
        old(reader).wf(),
    ensures
        final(reader).wf(),
        read matches Some(v) ==> parse_value(old(reader).rest()) == Some(
            (v@, final(reader).rest()),
        ) && v.wf(),
        read is None ==> parse_value(old(reader).rest()) is None,
{
    let signature = match reader.read_text() {
        Some(text) => TypeSignature::new(text),
        None => {
            return None;
        },
    };
    let is_null = match reader.read_bool() {
        Some(flag) => flag,
        None => {
            return None;
        },
    };
    let payload = if is_null {
        None
    } else {
        match decode_data(reader) {
            Some(d) => Some(d),
            None => {
                return None;
            },
        }
    };
    match Value::new(payload, signature) {
        Ok(v) => Some(v),
        Err(_) => None,
    }
}

/// Appends the encoding of each value of `items` to `out`.
pub fn encode_value_list(items: &Vec<Value>, out: &mut Vec<u8>)
    ensures
        final(out)@ == old(out)@ + enc_values(value_views(items@)),
        values_fit(value_views(items@)),
{
    let mut i: usize = 0;
    assert(value_views(items@).take(0) =~= Seq::empty());
    assert(out@ =~= old(out)@ + enc_values(value_views(items@).take(0)));
    while i < items.len()
        invariant
            i <= items.len(),
            out@ == old(out)@ + enc_values(value_views(items@).take(i as int)),
            forall|j: int| 0 <= j < i ==> value_fits(#[trigger] value_views(items@)[j]),
        decreases items.len() - i,
    {
        encode_value(&items[i], out);
        proof {
            let all = value_views(items@);
            assert(all.take(i + 1) =~= all.take(i as int).push(all[i as int]));
            lemma_enc_values_push(all.take(i as int), all[i as int]);
            assert(out@ =~= old(out)@ + enc_values(all.take(i + 1)));
        }
        i += 1;
    }
    assert(value_views(items@).take(i as int) =~= value_views(items@));
}

/// Reads `count` values.
pub fn decode_value_list(reader: &mut Reader, count: u64) -> (read: Option<Vec<Value>>)
    requires
        old(reader).wf(),
    ensures
        final(reader).wf(),
        read matches Some(items) ==> parse_values(old(reader).rest(), count as nat) == Some(
            (value_views(items@), final(reader).rest()),
        ) && forall|j: int| 0 <= j < items@.len() ==> (#[trigger] items@[j]).wf(),
        read is None ==> parse_values(old(reader).rest(), count as nat) is None,
{
    let mut items: Vec<Value> = Vec::new();
    let mut i: u64 = 0;
    let ghost start = reader.rest();
    assert(value_views(items@) =~= Seq::<ValueView>::empty());
    assert(forall|tail: Seq<ValueView>| Seq::<ValueView>::empty() + tail =~= tail);
    while i < count
        invariant
            reader.wf(),
            i <= count,
            start == old(reader).rest(),
            forall|j: int| 0 <= j < items@.len() ==> (#[trigger] items@[j]).wf(),
            parse_values(start, count as nat) == (match parse_values(
                reader.rest(),
                (count - i) as nat,
            ) {
                Some((tail, rest)) => Some((value_views(items@) + tail, rest)),
                None => None,
            }),
        decreases count - i,
    {
        let ghost before = value_views(items@);
        match decode_value(reader) {
            Some(item) => {
                items.push(item);
                proof {
                    assert(value_views(items@) =~= before.push(item@));
                    assert forall|tail: Seq<ValueView>| before + (seq![item@] + tail) == value_views(
                        items@,
                    ) + tail by {
                        assert(before + (seq![item@] + tail) =~= value_views(items@) + tail);
                    }
                }
            },
            None => {
                return None;
            },
        }
        i += 1;
    }
    assert(value_views(items@) + Seq::<ValueView>::empty() =~= value_views(items@));
    Some(items)
}

/// Appends the encoding of `p` to `out`.
pub fn encode_property(p: &Property, out: &mut Vec<u8>)
    ensures
        final(out)@ == old(out)@ + enc_property(p@),
        property_fits(p@),
{
    reveal(enc_property);
    put_text(out, p.name());
    put_text(out, p.about());
    put_text(out, p.long_about());
    encode_value(p.default_value(), out);
    encode_value(p.current(), out);
    put_u64(out, p.choices().len() as u64);
    encode_value_list(p.choices(), out);
    put_bool(out, p.show_in_settings());
    put_bool(out, p.is_writable());
    let signature = p.signature();
    put_text(out, signature.as_str());
    assert(out@ =~= old(out)@ + enc_property(p@));
}

/// The fields of a property as they were read, before they are checked.
pub struct PropertyFields {
    pub name: String,
    pub about: String,
    pub long_about: String,
    pub default: Value,
    pub current: Value,
    pub choices: Vec<Value>,
    pub show_in_settings: bool,
    pub writable: bool,
    pub signature: TypeSignature,
}

impl View for PropertyFields {
    type V = PropertyView;

    open spec fn view(&self) -> PropertyView {
        PropertyView {
            name: self.name@,
            about: self.about@,
            long_about: self.long_about@,
            default: self.default@,
            current: self.current@,
            choices: value_views(self.choices@),
            show_in_settings: self.show_in_settings,
            writable: self.writable,
            signature: self.signature@,
        }
    }
}

impl PropertyFields {
    /// Every value among the fields is well formed.
    pub open spec fn values_wf(&self) -> bool {
        &&& self.default.wf()
        &&& self.current.wf()
        &&& forall|j: int| 0 <= j < self.choices@.len() ==> (#[trigger] self.choices@[j]).wf()
    }
}

/// Reads the fields of one property, as they come.
pub fn decode_property_fields(reader: &mut Reader) -> (read: Option<PropertyFields>)
    requires
        old(reader).wf(),
    ensures
        final(reader).wf(),
        read matches Some(fields) ==> parse_property_fields(old(reader).rest()) == Some(
            (fields@, final(reader).rest()),
        ) && fields.values_wf(),
        read is None ==> parse_property_fields(old(reader).rest()) is None,
{
    reveal(parse_property_fields);
    let name = match reader.read_text() {
        Some(text) => text,
        None => {
            return None;
        },
    };
    let about = match reader.read_text() {
        Some(text) => text,
        None => {
            return None;
        },
    };
    let long_about = match reader.read_text() {
        Some(text) => text,
        None => {
            return None;
        },
    };
    let default = match decode_value(reader) {
        Some(v) => v,
        None => {
            return None;
        },
    };
    let current = match decode_value(reader) {
        Some(v) => v,
        None => {
            return None;
        },
    };
    let count = match reader.read_u64() {
        Some(count) => count,
        None => {
            return None;
        },
    };
    let choices = match decode_value_list(reader, count) {
        Some(choices) => choices,
        None => {
            return None;
        },
    };
    let show_in_settings = match reader.read_bool() {
        Some(flag) => flag,
        None => {
            return None;
        },
    };
    let writable = match reader.read_bool() {
        Some(flag) => flag,
        None => {
            return None;
        },
    };
    let signature = match reader.read_text() {
        Some(text) => TypeSignature::new(text),
        None => {
            return None;
        },
    };
    Some(
        PropertyFields {
            name,
            about,
            long_about,
            default,
            current,
            choices,
            show_in_settings,
            writable,
            signature,
        },
    )
}

/// Reads one property, and checks that it keeps the invariant of a property.
pub fn decode_property(reader: &mut Reader) -> (read: Option<Property>)
    requires
        old(reader).wf(),
    ensures
        final(reader).wf(),
        read matches Some(p) ==> parse_property(old(reader).rest()) == Some(
            (p@, final(reader).rest()),
        ) && p.wf(),
        read is None ==> parse_property(old(reader).rest()) is None,
{
    let fields = match decode_property_fields(reader) {
        Some(fields) => fields,
        None => {
            return None;
        },
    };
    let ghost wanted = fields@;
    let builder = Property::builder().name(fields.name).about(fields.about).long_about(
        fields.long_about,
    ).default(fields.default).value(fields.current).choices(fields.choices).show_in_settings(
        fields.show_in_settings,
    ).writable(fields.writable).signature(fields.signature);
    proof {
        assert(builder@.choices =~= wanted.choices);
        assert(builder@.product() == wanted);
        assert(builder@.values_wf());
        assert(builder@.failure() is None <==> wanted.wf());
    }
    match builder.build() {
        Ok(p) => Some(p),
        Err(_) => None,
    }
}

/// Appends the encoding of each property of `items` to `out`.
pub fn encode_property_list(items: &Vec<Property>, out: &mut Vec<u8>)
    ensures
        final(out)@ == old(out)@ + enc_properties(property_views(items@)),
        properties_fit(property_views(items@)),
{
    let mut i: usize = 0;
    assert(property_views(items@).take(0) =~= Seq::empty());
    assert(out@ =~= old(out)@ + enc_properties(property_views(items@).take(0)));
    while i < items.len()
        invariant
            i <= items.len(),
            out@ == old(out)@ + enc_properties(property_views(items@).take(i as int)),
            forall|j: int| 0 <= j < i ==> property_fits(#[trigger] property_views(items@)[j]),
        decreases items.len() - i,
    {
        encode_property(&items[i], out);
        proof {
            let all = property_views(items@);
            assert(all.take(i + 1) =~= all.take(i as int).push(all[i as int]));
            lemma_enc_properties_push(all.take(i as int), all[i as int]);
            assert(out@ =~= old(out)@ + enc_properties(all.take(i + 1)));
        }
        i += 1;
    }
    assert(property_views(items@).take(i as int) =~= property_views(items@));
}

/// Reads `count` propertys.
pub fn decode_property_list(reader: &mut Reader, count: u64) -> (read: Option<Vec<Property>>)
    requires
        old(reader).wf(),
    ensures
        final(reader).wf(),
        read matches Some(items) ==> parse_properties(old(reader).rest(), count as nat) == Some(
            (property_views(items@), final(reader).rest()),
        ) && forall|j: int| 0 <= j < items@.len() ==> (#[trigger] items@[j]).wf(),
        read is None ==> parse_properties(old(reader).rest(), count as nat) is None,
{
    let mut items: Vec<Property> = Vec::new();
    let mut i: u64 = 0;
    let ghost start = reader.rest();
    assert(property_views(items@) =~= Seq::<PropertyView>::empty());
    assert(forall|tail: Seq<PropertyView>| Seq::<PropertyView>::empty() + tail =~= tail);
    while i < count
        invariant
            reader.wf(),
            i <= count,
            start == old(reader).rest(),
            forall|j: int| 0 <= j < items@.len() ==> (#[trigger] items@[j]).wf(),
            parse_properties(start, count as nat) == (match parse_properties(
                reader.rest(),
                (count - i) as nat,
            ) {
                Some((tail, rest)) => Some((property_views(items@) + tail, rest)),
                None => None,
            }),
        decreases count - i,
    {
        let ghost before = property_views(items@);
        match decode_property(reader) {
            Some(item) => {
                items.push(item);
                proof {
                    assert(property_views(items@) =~= before.push(item@));
                    assert forall|tail: Seq<PropertyView>| before + (seq![item@] + tail) == property_views(
                        items@,
                    ) + tail by {
                        assert(before + (seq![item@] + tail) =~= property_views(items@) + tail);
                    }
                }
            },
            None => {
                return None;
            },
        }
        i += 1;
    }
    assert(property_views(items@) + Seq::<PropertyView>::empty() =~= property_views(items@));
    Some(items)
}

/// Appends the encoding of `t` to `out`.
pub fn encode_trigger(t: &Trigger, out: &mut Vec<u8>)
    ensures
        final(out)@ == old(out)@ + enc_trigger(t@),
        trigger_fits(t@),
{
    put_text(out, t.name());
    let signature = t.signature();
    put_text(out, signature.as_str());
    assert(out@ =~= old(out)@ + enc_trigger(t@));
}

/// Reads one trigger.
pub fn decode_trigger(reader: &mut Reader) -> (read: Option<Trigger>)
    requires
        old(reader).wf(),
    ensures
        final(reader).wf(),
        read matches Some(t) ==> parse_trigger(old(reader).rest()) == Some(
            (t@, final(reader).rest()),
        ),
        read is None ==> parse_trigger(old(reader).rest()) is None,
{
    let name = match reader.read_text() {
        Some(text) => text,
        None => {
            return None;
        },
    };
    let signature = match reader.read_text() {
        Some(text) => TypeSignature::new(text),
        None => {
            return None;
        },
    };
    Some(Trigger::new(name, signature))
}

/// Appends the encoding of each trigger of `items` to `out`.
pub fn encode_trigger_list(items: &Vec<Trigger>, out: &mut Vec<u8>)
    ensures
        final(out)@ == old(out)@ + enc_triggers(trigger_views(items@)),
        triggers_fit(trigger_views(items@)),
{
    let mut i: usize = 0;
    assert(trigger_views(items@).take(0) =~= Seq::empty());
    assert(out@ =~= old(out)@ + enc_triggers(trigger_views(items@).take(0)));
    while i < items.len()
        invariant
            i <= items.len(),
            out@ == old(out)@ + enc_triggers(trigger_views(items@).take(i as int)),
            forall|j: int| 0 <= j < i ==> trigger_fits(#[trigger] trigger_views(items@)[j]),
        decreases items.len() - i,
    {
        encode_trigger(&items[i], out);
        proof {
            let all = trigger_views(items@);
            assert(all.take(i + 1) =~= all.take(i as int).push(all[i as int]));
            lemma_enc_triggers_push(all.take(i as int), all[i as int]);
            assert(out@ =~= old(out)@ + enc_triggers(all.take(i + 1)));
        }
        i += 1;
    }
    assert(trigger_views(items@).take(i as int) =~= trigger_views(items@));
}

/// Reads `count` triggers.
pub fn decode_trigger_list(reader: &mut Reader, count: u64) -> (read: Option<Vec<Trigger>>)
    requires
        old(reader).wf(),
    ensures
        final(reader).wf(),
        read matches Some(items) ==> parse_triggers(old(reader).rest(), count as nat) == Some(
            (trigger_views(items@), final(reader).rest()),
        ),
        read is None ==> parse_triggers(old(reader).rest(), count as nat) is None,
{
    let mut items: Vec<Trigger> = Vec::new();
    let mut i: u64 = 0;
    let ghost start = reader.rest();
    assert(trigger_views(items@) =~= Seq::<TriggerView>::empty());
    assert(forall|tail: Seq<TriggerView>| Seq::<TriggerView>::empty() + tail =~= tail);
    while i < count
        invariant
            reader.wf(),
            i <= count,
            start == old(reader).rest(),
            parse_triggers(start, count as nat) == (match parse_triggers(
                reader.rest(),
                (count - i) as nat,
            ) {
                Some((tail, rest)) => Some((trigger_views(items@) + tail, rest)),
                None => None,
            }),
        decreases count - i,
    {
        let ghost before = trigger_views(items@);
        match decode_trigger(reader) {
            Some(item) => {
                items.push(item);
                proof {
                    assert(trigger_views(items@) =~= before.push(item@));
                    assert forall|tail: Seq<TriggerView>| before + (seq![item@] + tail) == trigger_views(
                        items@,
                    ) + tail by {
                        assert(before + (seq![item@] + tail) =~= trigger_views(items@) + tail);
                    }
                }
            },
            None => {
                return None;
            },
        }
        i += 1;
    }
    assert(trigger_views(items@) + Seq::<TriggerView>::empty() =~= trigger_views(items@));
    Some(items)
}

/// Encodes a schema as the bytes under which it is kept.
pub fn encode(schema: &Schema) -> (bytes: Vec<u8>)
    ensures
        bytes@ == enc_schema(schema@),
        schema_fits(schema@),
{
    let mut out: Vec<u8> = Vec::new();
    put_text(&mut out, schema.name());
    put_u64(&mut out, schema.version() as u64);
    put_u64(&mut out, schema.properties().len() as u64);
    encode_property_list(schema.properties(), &mut out);
    put_u64(&mut out, schema.triggers().len() as u64);
    encode_trigger_list(schema.triggers(), &mut out);
    assert(out@ =~= enc_schema(schema@));
    out
}

/// Decodes the bytes under which a schema is kept.
///
/// The answer is a schema exactly when `bytes` hold one schema and nothing
/// after it, each property of which keeps the invariant of a property, and
/// in which no name stands for two properties or for two triggers.
pub fn decode(bytes: &[u8]) -> (schema: Option<Schema>)
    ensures
        schema matches Some(s) ==> decoded(bytes@) == Some(s@) && s.wf() && enc_schema(s@)
            == bytes@,
        schema is None ==> decoded(bytes@) is None && forall|v: SchemaView|
            v.wf() && schema_fits(v) ==> #[trigger] enc_schema(v) != bytes@,
{
    proof {
        assert forall|v: SchemaView| #[trigger] decoded(bytes@) == Some(v) <==> v.wf()
            && schema_fits(v) && enc_schema(v) == bytes@ by {
            lemma_decoded_is_inverse(bytes@, v);
        }
    }
    let mut reader = Reader::new(bytes);
    let name = match reader.read_text() {
        Some(text) => text,
        None => {
            return None;
        },
    };
    let version = match reader.read_u64() {
        Some(version) => version,
        None => {
            return None;
        },
    };
    if version > u32::MAX as u64 {
        return None;
    }
    let property_count = match reader.read_u64() {
        Some(count) => count,
        None => {
            return None;
        },
    };
    let properties = match decode_property_list(&mut reader, property_count) {
        Some(properties) => properties,
        None => {
            return None;
        },
    };
    let trigger_count = match reader.read_u64() {
        Some(count) => count,
        None => {
            return None;
        },
    };
    let triggers = match decode_trigger_list(&mut reader, trigger_count) {
        Some(triggers) => triggers,
        None => {
            return None;
        },
    };
    let ghost parsed = SchemaView {
        name: name@,
        version: version as u32,
        properties: property_views(properties@),
        triggers: trigger_views(triggers@),
    };
    assert(parse_schema(bytes@) == Some((parsed, reader.rest())));
    if !reader.at_end() {
        return None;
    }
    if !distinct_property_names(&properties) || !distinct_trigger_names(&triggers) {
        return None;
    }
    assert(parsed.wf());
    let start = Schema::builder().name(name).version(version as u32);
    proof {
        assert forall|i: int| 0 <= i < properties.len() implies !has_property(
            start@.properties + property_views(properties@).take(i),
            (#[trigger] properties[i])@.name,
        ) by {
            let before = start@.properties + property_views(properties@).take(i);
            let all = property_views(properties@);
            assert(start@.properties.len() == 0);
            assert forall|k: int| 0 <= k < before.len() implies (#[trigger] before[k]).name
                != properties[i]@.name by {
                assert(before[k] == all[k]);
                assert(all[k].name != all[i].name);
            }
        }
    }
    let with_properties = start.properties(properties);
    proof {
        assert(with_properties@.properties =~= parsed.properties);
        assert forall|i: int| 0 <= i < triggers.len() implies !has_trigger(
            with_properties@.triggers + trigger_views(triggers@).take(i),
            (#[trigger] triggers[i])@.name,
        ) by {
            let before = with_properties@.triggers + trigger_views(triggers@).take(i);
            let all = trigger_views(triggers@);
            assert(with_properties@.triggers.len() == 0);
            assert forall|k: int| 0 <= k < before.len() implies (#[trigger] before[k]).name
                != triggers[i]@.name by {
                assert(before[k] == all[k]);
                assert(all[k].name != all[i].name);
            }
        }
    }
    let builder = with_properties.triggers(triggers);
    proof {
        assert(builder@.triggers =~= parsed.triggers);
        assert(builder@.product() == parsed);
    }
    match builder.build() {
        Ok(schema) => Some(schema),
        Err(_) => None,
    }
}

} // verus!
