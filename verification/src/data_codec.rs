use crate::data::{lemma_container_views, models, pair_models, Data, DataView};
use crate::wire::{
    lemma_parsed_bool, lemma_parsed_i64, lemma_parsed_text, lemma_parsed_u64, lemma_parsed_u8,
    put_bool, put_i64, put_text, put_u64, put_u8, Reader, enc_bool, enc_i64, enc_text, enc_u64, enc_u8, lemma_parse_bool, lemma_parse_i64,
    lemma_parse_text, lemma_parse_u64, lemma_parse_u8, parse_bool, parse_i64, parse_text,
    parse_u64, parse_u8, text_fits,
};
use crate::signature::TypeSignature;
use vstd::prelude::*;

verus! {

/// The byte that opens the encoding of a payload and tells its kind.
pub open spec fn tag_of(d: DataView) -> u8 {
    match d {
        DataView::U8(_) => 0,
        DataView::Bool(_) => 1,
        DataView::I16(_) => 2,
        DataView::U16(_) => 3,
        DataView::I32(_) => 4,
        DataView::U32(_) => 5,
        DataView::I64(_) => 6,
        DataView::U64(_) => 7,
        DataView::F64 { .. } => 8,
        DataView::Str(_) => 9,
        DataView::Signature(_) => 10,
        DataView::ObjectPath(_) => 11,
        DataView::Variant(_) => 12,
        DataView::Array { .. } => 13,
        DataView::Dict { .. } => 14,
        DataView::Structure(_) => 15,
        DataView::Fd(_) => 16,
    }
}

/// Whether a payload holds no other payload.
pub open spec fn is_scalar(d: DataView) -> bool {
    !(d is Variant || d is Array || d is Dict || d is Structure)
}

/// What follows the tag in the encoding of a payload that holds no other.
pub open spec fn enc_scalar(d: DataView) -> Seq<u8> {
    match d {
        DataView::U8(v) => enc_u8(v),
        DataView::Bool(v) => enc_bool(v),
        DataView::I16(v) => enc_i64(v as i64),
        DataView::U16(v) => enc_u64(v as u64),
        DataView::I32(v) => enc_i64(v as i64),
        DataView::U32(v) => enc_u64(v as u64),
        DataView::I64(v) => enc_i64(v),
        DataView::U64(v) => enc_u64(v),
        DataView::F64 { bits } => enc_u64(bits),
        DataView::Str(s) => enc_text(s),
        DataView::Signature(s) => enc_text(s),
        DataView::ObjectPath(s) => enc_text(s),
        DataView::Fd(v) => enc_i64(v as i64),
        _ => Seq::empty(),
    }
}

/// The encoding of a payload: its tag, then its content. A number takes eight
/// bytes whatever its width; a container writes the declared types of its
/// elements, then how many there are, then each of them in order.
pub open spec fn enc_data(d: DataView) -> Seq<u8>
    decreases d,
{
    enc_u8(tag_of(d)) + (match d {
        DataView::Variant(inner) => enc_data(*inner),
        DataView::Array { element, items } => enc_text(element) + enc_u64(items.len() as u64)
            + enc_list(items),
        DataView::Dict { key, value, entries } => enc_text(key) + enc_text(value) + enc_u64(
            entries.len() as u64,
        ) + enc_pairs(entries),
        DataView::Structure(fields) => enc_u64(fields.len() as u64) + enc_list(fields),
        _ => enc_scalar(d),
    })
}

/// The encodings of a run of payloads, one after the other.
pub open spec fn enc_list(items: Seq<DataView>) -> Seq<u8>
    decreases items,
{
    if items.len() == 0 {
        Seq::empty()
    } else {
        enc_data(items[0]) + enc_list(items.drop_first())
    }
}

/// The encodings of a run of pairs: each key, then its value.
pub open spec fn enc_pairs(entries: Seq<(DataView, DataView)>) -> Seq<u8>
    decreases entries,
{
    if entries.len() == 0 {
        Seq::empty()
    } else {
        enc_data(entries[0].0) + enc_data(entries[0].1) + enc_pairs(entries.drop_first())
    }
}

/// Whether every length inside a payload can be written down.
pub open spec fn data_fits(d: DataView) -> bool
    decreases d,
{
    match d {
        DataView::Str(s) => text_fits(s),
        DataView::Signature(s) => text_fits(s),
        DataView::ObjectPath(s) => text_fits(s),
        DataView::Variant(inner) => data_fits(*inner),
        DataView::Array { element, items } => text_fits(element) && items.len() <= u64::MAX
            && forall|i: int| 0 <= i < items.len() ==> data_fits(#[trigger] items[i]),
        DataView::Dict { key, value, entries } => text_fits(key) && text_fits(value)
            && entries.len() <= u64::MAX && forall|i: int|
            0 <= i < entries.len() ==> data_fits((#[trigger] entries[i]).0) && data_fits(
                entries[i].1,
            ),
        DataView::Structure(fields) => fields.len() <= u64::MAX && forall|i: int|
            0 <= i < fields.len() ==> data_fits(#[trigger] fields[i]),
        _ => true,
    }
}

/// Reads, after the tag `tag`, a payload that holds no other.
pub open spec fn parse_scalar(tag: u8, body: Seq<u8>) -> Option<(DataView, Seq<u8>)> {
    if tag == 0 {
        match parse_u8(body) {
            Some((v, rest)) => Some((DataView::U8(v), rest)),
            None => None,
        }
    } else if tag == 1 {
        match parse_bool(body) {
            Some((v, rest)) => Some((DataView::Bool(v), rest)),
            None => None,
        }
    } else if tag == 2 {
        match parse_i64(body) {
            Some((v, rest)) => if i16::MIN <= v <= i16::MAX {
                Some((DataView::I16(v as i16), rest))
            } else {
                None
            },
            None => None,
        }
    } else if tag == 3 {
        match parse_u64(body) {
            Some((v, rest)) => if v <= u16::MAX {
                Some((DataView::U16(v as u16), rest))
            } else {
                None
            },
            None => None,
        }
    } else if tag == 4 {
        match parse_i64(body) {
            Some((v, rest)) => if i32::MIN <= v <= i32::MAX {
                Some((DataView::I32(v as i32), rest))
            } else {
                None
            },
            None => None,
        }
    } else if tag == 5 {
        match parse_u64(body) {
            Some((v, rest)) => if v <= u32::MAX {
                Some((DataView::U32(v as u32), rest))
            } else {
                None
            },
            None => None,
        }
    } else if tag == 6 {
        match parse_i64(body) {
            Some((v, rest)) => Some((DataView::I64(v), rest)),
            None => None,
        }
    } else if tag == 7 {
        match parse_u64(body) {
            Some((v, rest)) => Some((DataView::U64(v), rest)),
            None => None,
        }
    } else if tag == 8 {
        match parse_u64(body) {
            Some((v, rest)) => Some((DataView::F64 { bits: v }, rest)),
            None => None,
        }
    } else if tag == 9 {
        match parse_text(body) {
            Some((v, rest)) => Some((DataView::Str(v), rest)),
            None => None,
        }
    } else if tag == 10 {
        match parse_text(body) {
            Some((v, rest)) => Some((DataView::Signature(v), rest)),
            None => None,
        }
    } else if tag == 11 {
        match parse_text(body) {
            Some((v, rest)) => Some((DataView::ObjectPath(v), rest)),
            None => None,
        }
    } else if tag == 16 {
        match parse_i64(body) {
            Some((v, rest)) => if i32::MIN <= v <= i32::MAX {
                Some((DataView::Fd(v as i32), rest))
            } else {
                None
            },
            None => None,
        }
    } else {
        None
    }
}

/// Reads a payload from the front of `s`, and says what is left.
pub open spec fn parse_data(s: Seq<u8>) -> Option<(DataView, Seq<u8>)>
    decreases s.len(), 0nat,
{
    match parse_u8(s) {
        None => None,
        Some((tag, body)) => if tag == 12 {
            match parse_data(body) {
                Some((inner, rest)) => Some((DataView::Variant(Box::new(inner)), rest)),
                None => None,
            }
        } else if tag == 13 {
            match parse_text(body) {
                None => None,
                Some((element, after_element)) => match parse_u64(after_element) {
                    None => None,
                    Some((count, after_count)) => if after_count.len() < s.len() {
                        match parse_list(after_count, count as nat) {
                            Some((items, rest)) => Some((DataView::Array { element, items }, rest)),
                            None => None,
                        }
                    } else {
                        None
                    },
                },
            }
        } else if tag == 14 {
            match parse_text(body) {
                None => None,
                Some((key, after_key)) => match parse_text(after_key) {
                    None => None,
                    Some((value, after_value)) => match parse_u64(after_value) {
                        None => None,
                        Some((count, after_count)) => if after_count.len() < s.len() {
                            match parse_pairs(after_count, count as nat) {
                                Some((entries, rest)) => Some(
                                    (DataView::Dict { key, value, entries }, rest),
                                ),
                                None => None,
                            }
                        } else {
                            None
                        },
                    },
                },
            }
        } else if tag == 15 {
            match parse_u64(body) {
                None => None,
                Some((count, after_count)) => match parse_list(after_count, count as nat) {
                    Some((fields, rest)) => Some((DataView::Structure(fields), rest)),
                    None => None,
                },
            }
        } else {
            parse_scalar(tag, body)
        },
    }
}

/// Reads `count` payloads from the front of `s`, and says what is left.
pub open spec fn parse_list(s: Seq<u8>, count: nat) -> Option<(Seq<DataView>, Seq<u8>)>
    decreases s.len(), count + 1,
{
    if count == 0 {
        Some((Seq::empty(), s))
    } else {
        match parse_data(s) {
            None => None,
            Some((first, after_first)) => if after_first.len() < s.len() {
                match parse_list(after_first, (count - 1) as nat) {
                    Some((others, rest)) => Some((seq![first] + others, rest)),
                    None => None,
                }
            } else {
                None
            },
        }
    }
}

/// Reads `count` pairs from the front of `s`, and says what is left.
pub open spec fn parse_pairs(s: Seq<u8>, count: nat) -> Option<
    (Seq<(DataView, DataView)>, Seq<u8>),
>
    decreases s.len(), count + 1,
{
    if count == 0 {
        Some((Seq::empty(), s))
    } else {
        match parse_data(s) {
            None => None,
            Some((key, after_key)) => if after_key.len() < s.len() {
                match parse_data(after_key) {
                    None => None,
                    Some((value, after_value)) => if after_value.len() < after_key.len() {
                        match parse_pairs(after_value, (count - 1) as nat) {
                            Some((others, rest)) => Some((seq![(key, value)] + others, rest)),
                            None => None,
                        }
                    } else {
                        None
                    },
                }
            } else {
                None
            },
        }
    }
}

/// An encoded payload is never empty: it opens with its tag.
pub proof fn lemma_enc_data_len(d: DataView)
    ensures
        enc_data(d).len() >= 1,
{
}

/// Whether every payload of a run fits.
pub open spec fn list_fits(items: Seq<DataView>) -> bool {
    items.len() <= u64::MAX && forall|i: int| 0 <= i < items.len() ==> data_fits(#[trigger] items[i])
}

/// Whether every pair of a run fits.
pub open spec fn pairs_fit(entries: Seq<(DataView, DataView)>) -> bool {
    entries.len() <= u64::MAX && forall|i: int|
        0 <= i < entries.len() ==> data_fits((#[trigger] entries[i]).0) && data_fits(entries[i].1)
}

/// Reading back the content of a number gives the number.
pub proof fn lemma_parse_number(d: DataView, rest: Seq<u8>)
    requires
        is_scalar(d),
        !(d is Str || d is Signature || d is ObjectPath),
    ensures
        parse_scalar(tag_of(d), enc_scalar(d) + rest) == Some((d, rest)),
{
    match d {
        DataView::U8(v) => {
            lemma_parse_u8(v, rest);
        },
        DataView::Bool(v) => {
            lemma_parse_bool(v, rest);
        },
        DataView::I16(v) => {
            lemma_parse_i64(v as i64, rest);
        },
        DataView::U16(v) => {
            lemma_parse_u64(v as u64, rest);
        },
        DataView::I32(v) => {
            lemma_parse_i64(v as i64, rest);
        },
        DataView::U32(v) => {
            lemma_parse_u64(v as u64, rest);
        },
        DataView::I64(v) => {
            lemma_parse_i64(v, rest);
        },
        DataView::U64(v) => {
            lemma_parse_u64(v, rest);
        },
        DataView::F64 { bits } => {
            lemma_parse_u64(bits, rest);
        },
        DataView::Fd(v) => {
            lemma_parse_i64(v as i64, rest);
        },
        _ => {},
    }
}

/// Reading back the content of a payload that holds no other gives the payload.
pub proof fn lemma_parse_scalar(d: DataView, rest: Seq<u8>)
    requires
        is_scalar(d),
        data_fits(d),
    ensures
        parse_scalar(tag_of(d), enc_scalar(d) + rest) == Some((d, rest)),
{
    match d {
        DataView::Str(t) => {
            lemma_parse_text(t, rest);
        },
        DataView::Signature(t) => {
            lemma_parse_text(t, rest);
        },
        DataView::ObjectPath(t) => {
            lemma_parse_text(t, rest);
        },
        _ => {
            lemma_parse_number(d, rest);
        },
    }
}

/// Reading back what was written gives the payload, and leaves what followed.
pub proof fn lemma_parse_data(d: DataView, rest: Seq<u8>)
    requires
        data_fits(d),
    ensures
        parse_data(enc_data(d) + rest) == Some((d, rest)),
    decreases d, 0nat,
{
    let s = enc_data(d) + rest;
    let tag = tag_of(d);
    match d {
        DataView::Variant(inner) => {
            let body = enc_data(*inner) + rest;
            assert(s =~= enc_u8(tag) + body);
            lemma_parse_u8(tag, body);
            lemma_parse_data(*inner, rest);
        },
        DataView::Array { element, items } => {
            let after_count = enc_list(items) + rest;
            let after_element = enc_u64(items.len() as u64) + after_count;
            let body = enc_text(element) + after_element;
            assert(s =~= enc_u8(tag) + body);
            lemma_parse_u8(tag, body);
            lemma_parse_text(element, after_element);
            lemma_parse_u64(items.len() as u64, after_count);
            lemma_parse_list(items, rest);
        },
        DataView::Dict { key, value, entries } => {
            let after_count = enc_pairs(entries) + rest;
            let after_value = enc_u64(entries.len() as u64) + after_count;
            let after_key = enc_text(value) + after_value;
            let body = enc_text(key) + after_key;
            assert(s =~= enc_u8(tag) + body);
            lemma_parse_u8(tag, body);
            lemma_parse_text(key, after_key);
            lemma_parse_text(value, after_value);
            lemma_parse_u64(entries.len() as u64, after_count);
            lemma_parse_pairs(entries, rest);
        },
        DataView::Structure(fields) => {
            let after_count = enc_list(fields) + rest;
            let body = enc_u64(fields.len() as u64) + after_count;
            assert(s =~= enc_u8(tag) + body);
            lemma_parse_u8(tag, body);
            lemma_parse_u64(fields.len() as u64, after_count);
            lemma_parse_list(fields, rest);
        },
        _ => {
            let body = enc_scalar(d) + rest;
            assert(s =~= enc_u8(tag) + body);
            lemma_parse_u8(tag, body);
            lemma_parse_scalar(d, rest);
        },
    }
}

/// Reading back a run of payloads gives the run, and leaves what followed.
pub proof fn lemma_parse_list(items: Seq<DataView>, rest: Seq<u8>)
    requires
        list_fits(items),
    ensures
        parse_list(enc_list(items) + rest, items.len()) == Some((items, rest)),
    decreases items, 1nat,
{
    if items.len() == 0 {
        assert(enc_list(items) + rest =~= rest);
        assert(items =~= Seq::empty());
    } else {
        let first = items[0];
        let others = items.drop_first();
        let after_first = enc_list(others) + rest;
        assert(enc_list(items) + rest =~= enc_data(first) + after_first);
        lemma_parse_data(first, after_first);
        lemma_enc_data_len(first);
        lemma_parse_list(others, rest);
        assert(seq![first] + others =~= items);
    }
}

/// Reading back a run of pairs gives the run, and leaves what followed.
pub proof fn lemma_parse_pairs(entries: Seq<(DataView, DataView)>, rest: Seq<u8>)
    requires
        pairs_fit(entries),
    ensures
        parse_pairs(enc_pairs(entries) + rest, entries.len()) == Some((entries, rest)),
    decreases entries, 1nat,
{
    if entries.len() == 0 {
        assert(enc_pairs(entries) + rest =~= rest);
        assert(entries =~= Seq::empty());
    } else {
        let first = entries[0];
        let others = entries.drop_first();
        let after_value = enc_pairs(others) + rest;
        let after_key = enc_data(first.1) + after_value;
        assert(enc_pairs(entries) + rest =~= enc_data(first.0) + after_key);
        lemma_parse_data(first.0, after_key);
        lemma_parse_data(first.1, after_value);
        lemma_enc_data_len(first.0);
        lemma_enc_data_len(first.1);
        lemma_parse_pairs(others, rest);
        assert(seq![first] + others =~= entries);
    }
}

/// What was read as a number is what stood there.
pub proof fn lemma_parsed_number(tag: u8, body: Seq<u8>)
    requires
        parse_scalar(tag, body) is Some,
        !(tag == 9 || tag == 10 || tag == 11),
    ensures
        ({
            let (d, rest) = parse_scalar(tag, body)->Some_0;
            tag_of(d) == tag && is_scalar(d) && data_fits(d) && body == enc_scalar(d) + rest
        }),
{
    if tag == 0 {
        lemma_parsed_u8(body);
    } else if tag == 1 {
        lemma_parsed_bool(body);
    } else if tag == 2 || tag == 4 || tag == 6 || tag == 16 {
        lemma_parsed_i64(body);
    } else {
        lemma_parsed_u64(body);
    }
}

/// What was read as a payload that holds no other is what stood there.
pub proof fn lemma_parsed_scalar(tag: u8, body: Seq<u8>)
    requires
        parse_scalar(tag, body) is Some,
    ensures
        ({
            let (d, rest) = parse_scalar(tag, body)->Some_0;
            tag_of(d) == tag && is_scalar(d) && data_fits(d) && body == enc_scalar(d) + rest
        }),
{
    if tag == 9 || tag == 10 || tag == 11 {
        lemma_parsed_text(body);
    } else {
        lemma_parsed_number(tag, body);
    }
}

/// Runs put together from the left or from the right.
proof fn lemma_regroup(a: Seq<u8>, b: Seq<u8>, c: Seq<u8>)
    ensures
        a + (b + c) == a + b + c,
{
    assert(a + (b + c) =~= a + b + c);
}

/// What was read as a variant is what stood there.
proof fn lemma_parsed_variant(s: Seq<u8>)
    requires
        parse_data(s) is Some,
        parse_u8(s) is Some,
        parse_u8(s)->Some_0.0 == 12,
    ensures
        ({
            let (d, rest) = parse_data(s)->Some_0;
            s == enc_data(d) + rest && data_fits(d) && rest.len() < s.len()
        }),
    decreases s.len(), 0nat,
{
    lemma_parsed_u8(s);
    let body = parse_u8(s)->Some_0.1;
    lemma_parsed_data(body);
    let (inner, rest) = parse_data(body)->Some_0;
    lemma_regroup(enc_u8(12), enc_data(inner), rest);
}

/// What was read as an array is what stood there.
proof fn lemma_parsed_array(s: Seq<u8>)
    requires
        parse_data(s) is Some,
        parse_u8(s) is Some,
        parse_u8(s)->Some_0.0 == 13,
    ensures
        ({
            let (d, rest) = parse_data(s)->Some_0;
            s == enc_data(d) + rest && data_fits(d) && rest.len() < s.len()
        }),
    decreases s.len(), 0nat,
{
    lemma_parsed_u8(s);
    let body = parse_u8(s)->Some_0.1;
    lemma_parsed_text(body);
    let (element, after_element) = parse_text(body)->Some_0;
    lemma_parsed_u64(after_element);
    let (count, after_count) = parse_u64(after_element)->Some_0;
    lemma_parsed_list(after_count, count as nat);
    let (items, rest) = parse_list(after_count, count as nat)->Some_0;
    let tail = enc_list(items) + rest;
    let counted = enc_u64(count) + tail;
    assert(after_count == tail);
    assert(after_element == counted);
    assert(body == enc_text(element) + counted);
    lemma_regroup(enc_u64(count), enc_list(items), rest);
    lemma_regroup(enc_text(element), enc_u64(count) + enc_list(items), rest);
    lemma_regroup(enc_text(element), enc_u64(count), enc_list(items));
    lemma_regroup(enc_u8(13), enc_text(element) + enc_u64(count) + enc_list(items), rest);
}

/// What was read as a dictionary is what stood there.
proof fn lemma_parsed_dict(s: Seq<u8>)
    requires
        parse_data(s) is Some,
        parse_u8(s) is Some,
        parse_u8(s)->Some_0.0 == 14,
    ensures
        ({
            let (d, rest) = parse_data(s)->Some_0;
            s == enc_data(d) + rest && data_fits(d) && rest.len() < s.len()
        }),
    decreases s.len(), 0nat,
{
    lemma_parsed_u8(s);
    let body = parse_u8(s)->Some_0.1;
    lemma_parsed_text(body);
    let (key, after_key) = parse_text(body)->Some_0;
    lemma_parsed_text(after_key);
    let (value, after_value) = parse_text(after_key)->Some_0;
    lemma_parsed_u64(after_value);
    let (count, after_count) = parse_u64(after_value)->Some_0;
    lemma_parsed_pairs(after_count, count as nat);
    let (entries, rest) = parse_pairs(after_count, count as nat)->Some_0;
    let k = enc_text(key);
    let v = enc_text(value);
    let n = enc_u64(count);
    let e = enc_pairs(entries);
    assert(after_count == e + rest);
    assert(after_value == n + (e + rest));
    assert(after_key == v + (n + (e + rest)));
    assert(body == k + (v + (n + (e + rest))));
    lemma_regroup(n, e, rest);
    lemma_regroup(v, n + e, rest);
    lemma_regroup(v, n, e);
    lemma_regroup(k, v + n + e, rest);
    lemma_regroup(k, v + n, e);
    lemma_regroup(k, v, n);
    lemma_regroup(enc_u8(14), k + v + n + e, rest);
}

/// What was read as a structure is what stood there.
proof fn lemma_parsed_structure(s: Seq<u8>)
    requires
        parse_data(s) is Some,
        parse_u8(s) is Some,
        parse_u8(s)->Some_0.0 == 15,
    ensures
        ({
            let (d, rest) = parse_data(s)->Some_0;
            s == enc_data(d) + rest && data_fits(d) && rest.len() < s.len()
        }),
    decreases s.len(), 0nat,
{
    lemma_parsed_u8(s);
    let body = parse_u8(s)->Some_0.1;
    lemma_parsed_u64(body);
    let (count, after_count) = parse_u64(body)->Some_0;
    lemma_parsed_list(after_count, count as nat);
    let (fields, rest) = parse_list(after_count, count as nat)->Some_0;
    assert(after_count == enc_list(fields) + rest);
    assert(body == enc_u64(count) + (enc_list(fields) + rest));
    lemma_regroup(enc_u64(count), enc_list(fields), rest);
    lemma_regroup(enc_u8(15), enc_u64(count) + enc_list(fields), rest);
}

/// What was read as a payload is what stood there.
pub proof fn lemma_parsed_data(s: Seq<u8>)
    requires
        parse_data(s) is Some,
    ensures
        ({
            let (d, rest) = parse_data(s)->Some_0;
            s == enc_data(d) + rest && data_fits(d) && rest.len() < s.len()
        }),
    decreases s.len(), 1nat,
{
    let tag = parse_u8(s)->Some_0.0;
    if tag == 12 {
        lemma_parsed_variant(s);
    } else if tag == 13 {
        lemma_parsed_array(s);
    } else if tag == 14 {
        lemma_parsed_dict(s);
    } else if tag == 15 {
        lemma_parsed_structure(s);
    } else {
        lemma_parsed_u8(s);
        let body = parse_u8(s)->Some_0.1;
        lemma_parsed_scalar(tag, body);
        let (d, rest) = parse_scalar(tag, body)->Some_0;
        lemma_regroup(enc_u8(tag), enc_scalar(d), rest);
    }
}

/// What was read as a run of payloads is what stood there.
pub proof fn lemma_parsed_list(s: Seq<u8>, count: nat)
    requires
        parse_list(s, count) is Some,
        count <= u64::MAX,
    ensures
        ({
            let (items, rest) = parse_list(s, count)->Some_0;
            s == enc_list(items) + rest && items.len() == count && list_fits(items) && rest.len()
                <= s.len()
        }),
    decreases s.len(), count + 2,
{
    if count == 0 {
        assert(s =~= enc_list(Seq::<DataView>::empty()) + s);
    } else {
        lemma_parsed_data(s);
        let (first, after_first) = parse_data(s)->Some_0;
        lemma_parsed_list(after_first, (count - 1) as nat);
        let (others, rest) = parse_list(after_first, (count - 1) as nat)->Some_0;
        let items = seq![first] + others;
        assert(items.drop_first() =~= others);
        assert(s =~= enc_list(items) + rest);
        assert forall|i: int| 0 <= i < items.len() implies data_fits(#[trigger] items[i]) by {
            if i > 0 {
                assert(items[i] == others[i - 1]);
            }
        }
    }
}

/// What was read as a run of pairs is what stood there.
pub proof fn lemma_parsed_pairs(s: Seq<u8>, count: nat)
    requires
        parse_pairs(s, count) is Some,
        count <= u64::MAX,
    ensures
        ({
            let (entries, rest) = parse_pairs(s, count)->Some_0;
            s == enc_pairs(entries) + rest && entries.len() == count && pairs_fit(entries)
                && rest.len() <= s.len()
        }),
    decreases s.len(), count + 2,
{
    if count == 0 {
        assert(s =~= enc_pairs(Seq::<(DataView, DataView)>::empty()) + s);
    } else {
        lemma_parsed_data(s);
        let (key, after_key) = parse_data(s)->Some_0;
        lemma_parsed_data(after_key);
        let (value, after_value) = parse_data(after_key)->Some_0;
        lemma_parsed_pairs(after_value, (count - 1) as nat);
        let (others, rest) = parse_pairs(after_value, (count - 1) as nat)->Some_0;
        let entries = seq![(key, value)] + others;
        assert(entries.drop_first() =~= others);
        assert(s =~= enc_pairs(entries) + rest);
        assert forall|i: int| 0 <= i < entries.len() implies data_fits(
            (#[trigger] entries[i]).0,
        ) && data_fits(entries[i].1) by {
            if i > 0 {
                assert(entries[i] == others[i - 1]);
            }
        }
    }
}

/// Adding one payload at the end adds its encoding at the end.
pub proof fn lemma_enc_list_push(items: Seq<DataView>, last: DataView)
    ensures
        enc_list(items.push(last)) == enc_list(items) + enc_data(last),
    decreases items.len(),
{
    let all = items.push(last);
    if items.len() == 0 {
        assert(all.drop_first() =~= Seq::<DataView>::empty());
        assert(enc_list(all) =~= enc_data(last) + enc_list(all.drop_first()));
        assert(enc_list(all.drop_first()) =~= Seq::<u8>::empty());
        assert(enc_list(items) =~= Seq::<u8>::empty());
        assert(enc_list(all) =~= enc_list(items) + enc_data(last));
    } else {
        assert(all.drop_first() =~= items.drop_first().push(last));
        lemma_enc_list_push(items.drop_first(), last);
        assert(enc_list(all) =~= enc_list(items) + enc_data(last));
    }
}

/// Adding one pair at the end adds its encoding at the end.
pub proof fn lemma_enc_pairs_push(entries: Seq<(DataView, DataView)>, last: (DataView, DataView))
    ensures
        enc_pairs(entries.push(last)) == enc_pairs(entries) + enc_data(last.0) + enc_data(last.1),
    decreases entries.len(),
{
    let all = entries.push(last);
    if entries.len() == 0 {
        assert(all.drop_first() =~= Seq::<(DataView, DataView)>::empty());
        assert(enc_pairs(all) =~= enc_data(last.0) + enc_data(last.1) + enc_pairs(
            all.drop_first(),
        ));
        assert(enc_pairs(all.drop_first()) =~= Seq::<u8>::empty());
        assert(enc_pairs(entries) =~= Seq::<u8>::empty());
        assert(enc_pairs(all) =~= enc_pairs(entries) + enc_data(last.0) + enc_data(last.1));
    } else {
        assert(all.drop_first() =~= entries.drop_first().push(last));
        lemma_enc_pairs_push(entries.drop_first(), last);
        assert(enc_pairs(all) =~= enc_pairs(entries) + enc_data(last.0) + enc_data(last.1));
    }
}

/// Appends the encoding of each payload of `items` to `out`.
fn encode_list(items: &Vec<Data>, out: &mut Vec<u8>)
    ensures
        final(out)@ == old(out)@ + enc_list(models(items@)),
        list_fits(models(items@)),
    decreases items, 0nat,
{
    let mut i: usize = 0;
    assert(models(items@).take(0) =~= Seq::<DataView>::empty());
    assert(out@ =~= old(out)@ + enc_list(models(items@).take(0)));
    while i < items.len()
        invariant
            i <= items.len(),
            out@ == old(out)@ + enc_list(models(items@).take(i as int)),
            forall|j: int| 0 <= j < i ==> data_fits(#[trigger] models(items@)[j]),
        decreases items.len() - i,
    {
        let ghost before = out@;
        encode_data(&items[i], out);
        proof {
            let all = models(items@);
            assert(all.take(i + 1) =~= all.take(i as int).push(all[i as int]));
            lemma_enc_list_push(all.take(i as int), all[i as int]);
            assert(out@ =~= old(out)@ + enc_list(all.take(i + 1)));
        }
        i += 1;
    }
    assert(models(items@).take(i as int) =~= models(items@));
}

/// Appends the encoding of each pair of `entries` to `out`.
fn encode_pairs(entries: &Vec<(Data, Data)>, out: &mut Vec<u8>)
    ensures
        final(out)@ == old(out)@ + enc_pairs(pair_models(entries@)),
        pairs_fit(pair_models(entries@)),
    decreases entries, 0nat,
{
    let mut i: usize = 0;
    assert(pair_models(entries@).take(0) =~= Seq::<(DataView, DataView)>::empty());
    assert(out@ =~= old(out)@ + enc_pairs(pair_models(entries@).take(0)));
    while i < entries.len()
        invariant
            i <= entries.len(),
            out@ == old(out)@ + enc_pairs(pair_models(entries@).take(i as int)),
            forall|j: int|
                0 <= j < i ==> data_fits((#[trigger] pair_models(entries@)[j]).0) && data_fits(
                    pair_models(entries@)[j].1,
                ),
        decreases entries.len() - i,
    {
        encode_data(&entries[i].0, out);
        encode_data(&entries[i].1, out);
        proof {
            let all = pair_models(entries@);
            assert(all.take(i + 1) =~= all.take(i as int).push(all[i as int]));
            lemma_enc_pairs_push(all.take(i as int), all[i as int]);
            assert(out@ =~= old(out)@ + enc_pairs(all.take(i + 1)));
        }
        i += 1;
    }
    assert(pair_models(entries@).take(i as int) =~= pair_models(entries@));
}

/// Appends the encoding of `d` to `out`.
pub fn encode_data(d: &Data, out: &mut Vec<u8>)
    ensures
        final(out)@ == old(out)@ + enc_data(d@),
        data_fits(d@),
    decreases d, 1nat,
{
    proof {
        lemma_container_views(*d);
    }
    match d {
        Data::U8(v) => {
            put_u8(out, 0);
            put_u8(out, *v);
        },
        Data::Bool(v) => {
            put_u8(out, 1);
            put_bool(out, *v);
        },
        Data::I16(v) => {
            put_u8(out, 2);
            put_i64(out, *v as i64);
        },
        Data::U16(v) => {
            put_u8(out, 3);
            put_u64(out, *v as u64);
        },
        Data::I32(v) => {
            put_u8(out, 4);
            put_i64(out, *v as i64);
        },
        Data::U32(v) => {
            put_u8(out, 5);
            put_u64(out, *v as u64);
        },
        Data::I64(v) => {
            put_u8(out, 6);
            put_i64(out, *v);
        },
        Data::U64(v) => {
            put_u8(out, 7);
            put_u64(out, *v);
        },
        Data::F64 { bits } => {
            put_u8(out, 8);
            put_u64(out, *bits);
        },
        Data::Str(s) => {
            put_u8(out, 9);
            put_text(out, s.as_str());
        },
        Data::Signature(s) => {
            put_u8(out, 10);
            put_text(out, s.as_str());
        },
        Data::ObjectPath(s) => {
            put_u8(out, 11);
            put_text(out, s.as_str());
        },
        Data::Variant(inner) => {
            put_u8(out, 12);
            encode_data(inner, out);
        },
        Data::Array { element, items } => {
            put_u8(out, 13);
            put_text(out, element.as_str());
            put_u64(out, items.len() as u64);
            encode_list(items, out);
        },
        Data::Dict { key, value, entries } => {
            put_u8(out, 14);
            put_text(out, key.as_str());
            put_text(out, value.as_str());
            put_u64(out, entries.len() as u64);
            encode_pairs(entries, out);
        },
        Data::Structure(fields) => {
            put_u8(out, 15);
            put_u64(out, fields.len() as u64);
            encode_list(fields, out);
        },
        Data::Fd(v) => {
            put_u8(out, 16);
            put_i64(out, *v as i64);
        },
    }
    assert(out@ =~= old(out)@ + enc_data(d@));
}

/// Reads `count` payloads.
fn decode_list(reader: &mut Reader, count: u64) -> (read: Option<Vec<Data>>)
    requires
        old(reader).wf(),
    ensures
        final(reader).wf(),
        read matches Some(items) ==> parse_list(old(reader).rest(), count as nat) == Some(
            (models(items@), final(reader).rest()),
        ),
        read is None ==> parse_list(old(reader).rest(), count as nat) is None,
        final(reader).rest().len() <= old(reader).rest().len(),
    decreases old(reader).rest().len(), 1nat,
{
    let mut items: Vec<Data> = Vec::new();
    let mut i: u64 = 0;
    let ghost start = reader.rest();
    assert(models(items@) =~= Seq::<DataView>::empty());
    assert(forall|tail: Seq<DataView>| Seq::<DataView>::empty() + tail =~= tail);
    while i < count
        invariant
            reader.wf(),
            i <= count,
            reader.rest().len() <= start.len(),
            start == old(reader).rest(),
            parse_list(start, count as nat) == (match parse_list(
                reader.rest(),
                (count - i) as nat,
            ) {
                Some((tail, rest)) => Some((models(items@) + tail, rest)),
                None => None,
            }),
        decreases count - i,
    {
        let ghost here = reader.rest();
        let ghost before = models(items@);
        match decode_data(reader) {
            Some(item) => {
                items.push(item);
                proof {
                    assert(models(items@) =~= before.push(item@));
                    assert forall|tail: Seq<DataView>| before + (seq![item@] + tail) == models(
                        items@,
                    ) + tail by {
                        assert(before + (seq![item@] + tail) =~= models(items@) + tail);
                    }
                }
            },
            None => {
                return None;
            },
        }
        i += 1;
    }
    assert(models(items@) + Seq::<DataView>::empty() =~= models(items@));
    Some(items)
}

/// Reads `count` pairs.
fn decode_pairs(reader: &mut Reader, count: u64) -> (read: Option<Vec<(Data, Data)>>)
    requires
        old(reader).wf(),
    ensures
        final(reader).wf(),
        read matches Some(entries) ==> parse_pairs(old(reader).rest(), count as nat) == Some(
            (pair_models(entries@), final(reader).rest()),
        ),
        read is None ==> parse_pairs(old(reader).rest(), count as nat) is None,
        final(reader).rest().len() <= old(reader).rest().len(),
    decreases old(reader).rest().len(), 1nat,
{
    let mut entries: Vec<(Data, Data)> = Vec::new();
    let mut i: u64 = 0;
    let ghost start = reader.rest();
    assert(pair_models(entries@) =~= Seq::<(DataView, DataView)>::empty());
    assert(forall|tail: Seq<(DataView, DataView)>|
        Seq::<(DataView, DataView)>::empty() + tail =~= tail);
    while i < count
        invariant
            reader.wf(),
            i <= count,
            reader.rest().len() <= start.len(),
            start == old(reader).rest(),
            parse_pairs(start, count as nat) == (match parse_pairs(
                reader.rest(),
                (count - i) as nat,
            ) {
                Some((tail, rest)) => Some((pair_models(entries@) + tail, rest)),
                None => None,
            }),
        decreases count - i,
    {
        let ghost before = pair_models(entries@);
        let key = match decode_data(reader) {
            Some(key) => key,
            None => {
                return None;
            },
        };
        let value = match decode_data(reader) {
            Some(value) => value,
            None => {
                return None;
            },
        };
        let ghost pair = (key@, value@);
        entries.push((key, value));
        proof {
            assert(pair_models(entries@) =~= before.push(pair));
            assert forall|tail: Seq<(DataView, DataView)>| before + (seq![pair] + tail)
                == pair_models(entries@) + tail by {
                assert(before + (seq![pair] + tail) =~= pair_models(entries@) + tail);
            }
        }
        i += 1;
    }
    assert(pair_models(entries@) + Seq::<(DataView, DataView)>::empty() =~= pair_models(entries@));
    Some(entries)
}

/// Reads, after the tag `tag`, a payload that holds no other.
fn decode_scalar(reader: &mut Reader, tag: u8) -> (read: Option<Data>)
    requires
        old(reader).wf(),
    ensures
        final(reader).wf(),
        read matches Some(d) ==> parse_scalar(tag, old(reader).rest()) == Some(
            (d@, final(reader).rest()),
        ),
        read is None ==> parse_scalar(tag, old(reader).rest()) is None,
        final(reader).rest().len() <= old(reader).rest().len(),
{
    if tag == 0 {
        match reader.read_u8() {
            Some(v) => Some(Data::U8(v)),
            None => None,
        }
    } else if tag == 1 {
        match reader.read_bool() {
            Some(v) => Some(Data::Bool(v)),
            None => None,
        }
    } else if tag == 2 {
        match reader.read_i64() {
            Some(v) => if i16::MIN as i64 <= v && v <= i16::MAX as i64 {
                Some(Data::I16(v as i16))
            } else {
                None
            },
            None => None,
        }
    } else if tag == 3 {
        match reader.read_u64() {
            Some(v) => if v <= u16::MAX as u64 {
                Some(Data::U16(v as u16))
            } else {
                None
            },
            None => None,
        }
    } else if tag == 4 {
        match reader.read_i64() {
            Some(v) => if i32::MIN as i64 <= v && v <= i32::MAX as i64 {
                Some(Data::I32(v as i32))
            } else {
                None
            },
            None => None,
        }
    } else if tag == 5 {
        match reader.read_u64() {
            Some(v) => if v <= u32::MAX as u64 {
                Some(Data::U32(v as u32))
            } else {
                None
            },
            None => None,
        }
    } else if tag == 6 {
        match reader.read_i64() {
            Some(v) => Some(Data::I64(v)),
            None => None,
        }
    } else if tag == 7 {
        match reader.read_u64() {
            Some(v) => Some(Data::U64(v)),
            None => None,
        }
    } else if tag == 8 {
        match reader.read_u64() {
            Some(v) => Some(Data::F64 { bits: v }),
            None => None,
        }
    } else if tag == 9 {
        match reader.read_text() {
            Some(v) => Some(Data::Str(v)),
            None => None,
        }
    } else if tag == 10 {
        match reader.read_text() {
            Some(v) => Some(Data::Signature(TypeSignature::new(v))),
            None => None,
        }
    } else if tag == 11 {
        match reader.read_text() {
            Some(v) => Some(Data::ObjectPath(v)),
            None => None,
        }
    } else if tag == 16 {
        match reader.read_i64() {
            Some(v) => if i32::MIN as i64 <= v && v <= i32::MAX as i64 {
                Some(Data::Fd(v as i32))
            } else {
                None
            },
            None => None,
        }
    } else {
        None
    }
}

/// Reads one payload.
pub fn decode_data(reader: &mut Reader) -> (read: Option<Data>)
    requires
        old(reader).wf(),
    ensures
        final(reader).wf(),
        read matches Some(d) ==> parse_data(old(reader).rest()) == Some(
            (d@, final(reader).rest()),
        ) && final(reader).rest().len() < old(reader).rest().len(),
        read is None ==> parse_data(old(reader).rest()) is None,
        final(reader).rest().len() <= old(reader).rest().len(),
    decreases old(reader).rest().len(), 0nat,
{
    let tag = match reader.read_u8() {
        Some(tag) => tag,
        None => {
            return None;
        },
    };
    if tag == 12 {
        match decode_data(reader) {
            Some(inner) => Some(Data::Variant(Box::new(inner))),
            None => None,
        }
    } else if tag == 13 {
        let element = match reader.read_text() {
            Some(text) => TypeSignature::new(text),
            None => {
                return None;
            },
        };
        let count = match reader.read_u64() {
            Some(count) => count,
            None => {
                return None;
            },
        };
        match decode_list(reader, count) {
            Some(items) => {
                let d = Data::Array { element, items };
                proof {
                    lemma_container_views(d);
                }
                Some(d)
            },
            None => None,
        }
    } else if tag == 14 {
        let key = match reader.read_text() {
            Some(text) => TypeSignature::new(text),
            None => {
                return None;
            },
        };
        let value = match reader.read_text() {
            Some(text) => TypeSignature::new(text),
            None => {
                return None;
            },
        };
        let count = match reader.read_u64() {
            Some(count) => count,
            None => {
                return None;
            },
        };
        match decode_pairs(reader, count) {
            Some(entries) => {
                let d = Data::Dict { key, value, entries };
                proof {
                    lemma_container_views(d);
                }
                Some(d)
            },
            None => None,
        }
    } else if tag == 15 {
        let count = match reader.read_u64() {
            Some(count) => count,
            None => {
                return None;
            },
        };
        match decode_list(reader, count) {
            Some(fields) => {
                let d = Data::Structure(fields);
                proof {
                    lemma_container_views(d);
                }
                Some(d)
            },
            None => None,
        }
    } else {
        decode_scalar(reader, tag)
    }
}

} // verus!
