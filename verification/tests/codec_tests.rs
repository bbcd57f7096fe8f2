use gludconfig::data::Data;
use gludconfig::data_codec::{decode_data, encode_data};
use gludconfig::property::Property;
use gludconfig::schema::Schema;
use gludconfig::schema_codec::{decode, decode_value, encode, encode_value};
use gludconfig::signature::TypeSignature;
use gludconfig::trigger::Trigger;
use gludconfig::value::Value;
use gludconfig::wallpaper;
use gludconfig::wire::Reader;

fn sig(text: &str) -> TypeSignature {
    TypeSignature::from_text(text)
}

fn data_round_trip(d: Data) {
    let mut bytes = Vec::new();
    encode_data(&d, &mut bytes);
    let mut reader = Reader::new(&bytes);
    let back = decode_data(&mut reader);
    assert_eq!(back, Some(d));
    assert!(reader.at_end());
}

fn same_property(a: &Property, b: &Property) {
    assert_eq!(a.name(), b.name());
    assert_eq!(a.about(), b.about());
    assert_eq!(a.long_about(), b.long_about());
    assert_eq!(a.signature(), b.signature());
    assert_eq!(a.default_value(), b.default_value());
    assert_eq!(a.current(), b.current());
    assert_eq!(a.choices(), b.choices());
    assert_eq!(a.is_writable(), b.is_writable());
    assert_eq!(a.show_in_settings(), b.show_in_settings());
}

fn same_schema(a: &Schema, b: &Schema) {
    assert_eq!(a.name(), b.name());
    assert_eq!(a.version(), b.version());
    assert_eq!(a.properties().len(), b.properties().len());
    for (x, y) in a.properties().iter().zip(b.properties().iter()) {
        same_property(x, y);
    }
    assert_eq!(a.triggers().len(), b.triggers().len());
    for (x, y) in a.triggers().iter().zip(b.triggers().iter()) {
        assert_eq!(x.name(), y.name());
        assert_eq!(x.signature(), y.signature());
    }
}

#[test]
fn numbers_round_trip() {
    data_round_trip(Data::U8(0));
    data_round_trip(Data::U8(255));
    data_round_trip(Data::Bool(true));
    data_round_trip(Data::Bool(false));
    data_round_trip(Data::I16(i16::MIN));
    data_round_trip(Data::I16(-1));
    data_round_trip(Data::I16(i16::MAX));
    data_round_trip(Data::U16(u16::MAX));
    data_round_trip(Data::I32(i32::MIN));
    data_round_trip(Data::I32(-5));
    data_round_trip(Data::I32(i32::MAX));
    data_round_trip(Data::U32(u32::MAX));
    data_round_trip(Data::I64(i64::MIN));
    data_round_trip(Data::I64(i64::MAX));
    data_round_trip(Data::U64(u64::MAX));
    data_round_trip(Data::F64 { bits: (-2.5f64).to_bits() });
    data_round_trip(Data::Fd(-1));
    data_round_trip(Data::Fd(i32::MAX));
}

#[test]
fn texts_round_trip() {
    data_round_trip(Data::Str(String::new()));
    data_round_trip(Data::Str("hello world".to_string()));
    data_round_trip(Data::Str("héllo wörld ✓ 日本語".to_string()));
    data_round_trip(Data::ObjectPath("/org/glud/gludconfig".to_string()));
    data_round_trip(Data::Signature(sig("a{sv}")));
}

#[test]
fn containers_round_trip() {
    data_round_trip(Data::Variant(Box::new(Data::Variant(Box::new(Data::U8(1))))));
    data_round_trip(Data::Array { element: sig("s"), items: vec![] });
    data_round_trip(Data::from_texts(vec!["a".to_string(), "b".to_string()]));
    data_round_trip(Data::Structure(vec![]));
    data_round_trip(Data::Structure(vec![
        Data::I32(5),
        Data::Structure(vec![Data::Str("x".to_string()), Data::Bool(true)]),
        Data::Array { element: sig("(ii)"), items: vec![Data::Structure(vec![Data::I32(1), Data::I32(2)])] },
    ]));
    data_round_trip(Data::Dict {
        key: sig("s"),
        value: sig("v"),
        entries: vec![
            (Data::Str("a".to_string()), Data::Variant(Box::new(Data::U32(1)))),
            (Data::Str("b".to_string()), Data::Variant(Box::new(Data::Str("x".to_string())))),
        ],
    });
}

#[test]
fn encoding_is_fixed() {
    let mut bytes = Vec::new();
    encode_data(&Data::U8(7), &mut bytes);
    assert_eq!(bytes, vec![0, 7]);

    let mut bytes = Vec::new();
    encode_data(&Data::Bool(true), &mut bytes);
    assert_eq!(bytes, vec![1, 1]);

    let mut bytes = Vec::new();
    encode_data(&Data::U32(0x01020304), &mut bytes);
    assert_eq!(bytes, vec![5, 4, 3, 2, 1, 0, 0, 0, 0]);

    let mut bytes = Vec::new();
    encode_data(&Data::I16(-2), &mut bytes);
    assert_eq!(bytes, vec![2, 0xfe, 0xff, 0xff, 0xff, 0xff, 0xff, 0xff, 0xff]);

    let mut bytes = Vec::new();
    encode_data(&Data::Str("hi".to_string()), &mut bytes);
    assert_eq!(bytes, vec![9, 2, 0, 0, 0, 0, 0, 0, 0, b'h', b'i']);

    let mut bytes = Vec::new();
    encode_data(&Data::Structure(vec![Data::U8(1), Data::Bool(false)]), &mut bytes);
    assert_eq!(bytes, vec![15, 2, 0, 0, 0, 0, 0, 0, 0, 0, 1, 1, 0]);

    let mut bytes = vec![0xaa];
    encode_data(&Data::Variant(Box::new(Data::U8(3))), &mut bytes);
    assert_eq!(bytes, vec![0xaa, 12, 0, 3]);
}

#[test]
fn value_encoding_is_fixed() {
    let mut bytes = Vec::new();
    encode_value(&Value::new::<Data>(None, sig("u")).unwrap(), &mut bytes);
    assert_eq!(bytes, vec![1, 0, 0, 0, 0, 0, 0, 0, b'u', 1]);

    let mut bytes = Vec::new();
    encode_value(&Value::new(Some(Data::U8(9)), sig("y")).unwrap(), &mut bytes);
    assert_eq!(bytes, vec![1, 0, 0, 0, 0, 0, 0, 0, b'y', 0, 0, 9]);
}

#[test]
fn malformed_payloads_are_refused() {
    let cases: Vec<Vec<u8>> = vec![
        vec![],
        vec![0],
        vec![1, 2],
        vec![17, 0],
        vec![255],
        vec![5, 1, 2, 3],
        vec![3, 0, 0, 1, 0, 0, 0, 0, 0],
        vec![2, 0, 0x80, 0, 0, 0, 0, 0, 0],
        vec![4, 0, 0, 0, 0x80, 0, 0, 0, 0],
        vec![5, 0, 0, 0, 0, 1, 0, 0, 0],
        vec![9, 3, 0, 0, 0, 0, 0, 0, 0, b'h', b'i'],
        vec![9, 1, 0, 0, 0, 0, 0, 0, 0, 0xff],
        vec![9, 2, 0, 0, 0, 0, 0, 0, 0, 0xc3, 0x28],
        vec![12],
        vec![15, 2, 0, 0, 0, 0, 0, 0, 0, 0, 1],
        vec![15, 0xff, 0xff, 0xff, 0xff, 0xff, 0xff, 0xff, 0xff],
    ];
    for bytes in cases {
        let mut reader = Reader::new(&bytes);
        assert_eq!(decode_data(&mut reader), None);
    }
}

#[test]
fn decoding_stops_where_the_payload_ends() {
    let bytes = vec![0, 7, 1, 1];
    let mut reader = Reader::new(&bytes);
    assert_eq!(decode_data(&mut reader), Some(Data::U8(7)));
    assert_eq!(reader.remaining(), 2);
    assert!(!reader.at_end());
    assert_eq!(decode_data(&mut reader), Some(Data::Bool(true)));
    assert!(reader.at_end());
    assert_eq!(decode_data(&mut reader), None);
}

#[test]
fn value_with_foreign_payload_is_refused() {
    let bytes = vec![1, 0, 0, 0, 0, 0, 0, 0, b'u', 0, 0, 9];
    let mut reader = Reader::new(&bytes);
    assert_eq!(decode_value(&mut reader), None);

    let bytes = vec![1, 0, 0, 0, 0, 0, 0, 0, b'y', 0, 0, 9];
    let mut reader = Reader::new(&bytes);
    assert_eq!(decode_value(&mut reader), Some(Value::new(Some(Data::U8(9)), sig("y")).unwrap()));
}

#[test]
fn wallpaper_schema_round_trips() {
    let schema = wallpaper::schema().unwrap();
    let bytes = encode(&schema);
    let back = decode(&bytes).unwrap();
    same_schema(&schema, &back);
    assert_eq!(encode(&back), bytes);
}

#[test]
fn changed_schema_round_trips() {
    let mut schema = wallpaper::schema().unwrap();
    schema
        .properties_mut(0)
        .set_value(Value::wrap(Some("/tmp/ünïcode.png".to_string())))
        .unwrap();
    let back = decode(&encode(&schema)).unwrap();
    same_schema(&schema, &back);
    assert_eq!(back.properties()[0].get_value(), Some(&Data::Str("/tmp/ünïcode.png".to_string())));
    assert_eq!(
        back.properties()[0].default_value().get_inner(),
        Some(&Data::Str("/usr/share/desktop/ui/defaults/wallpaper.svg".to_string()))
    );
}

#[test]
fn empty_schema_round_trips() {
    let schema = Schema::builder().name(String::new()).version(u32::MAX).build().unwrap();
    let bytes = encode(&schema);
    assert_eq!(
        bytes,
        vec![
            0, 0, 0, 0, 0, 0, 0, 0, 0xff, 0xff, 0xff, 0xff, 0, 0, 0, 0, 0, 0, 0, 0, 0, 0, 0, 0, 0,
            0, 0, 0, 0, 0, 0, 0
        ]
    );
    let back = decode(&bytes).unwrap();
    same_schema(&schema, &back);
}

#[test]
fn malformed_schemas_are_refused() {
    let bytes = encode(&wallpaper::schema().unwrap());
    assert!(decode(&[]).is_none());
    assert!(decode(&bytes[..bytes.len() - 1]).is_none());
    assert!(decode(&bytes[1..]).is_none());
    let mut longer = bytes.clone();
    longer.push(0);
    assert!(decode(&longer).is_none());
    let mut version = encode(&Schema::builder().name(String::new()).version(0).build().unwrap());
    version[12] = 1;
    assert!(decode(&version).is_none());
    for cut in 0..bytes.len() {
        assert!(decode(&bytes[..cut]).is_none());
    }
}

#[test]
fn schema_with_a_name_twice_is_refused() {
    let schema = Schema::builder()
        .name("n".to_string())
        .version(1)
        .property(Property::builder().name("ab".to_string()).signature(sig("u")).build().unwrap())
        .property(Property::builder().name("cd".to_string()).signature(sig("u")).build().unwrap())
        .trigger(Trigger::new("tu".to_string(), sig("i")))
        .trigger(Trigger::new("vw".to_string(), sig("i")))
        .build()
        .unwrap();
    let bytes = encode(&schema);
    assert!(decode(&bytes).is_some());

    let at = bytes.windows(2).position(|w| w == b"cd").unwrap();
    let mut twice = bytes.clone();
    twice[at] = b'a';
    twice[at + 1] = b'b';
    assert!(decode(&twice).is_none());

    let at = bytes.windows(2).position(|w| w == b"vw").unwrap();
    let mut twice = bytes.clone();
    twice[at] = b't';
    twice[at + 1] = b'u';
    assert!(decode(&twice).is_none());
}

#[test]
fn property_that_breaks_its_invariant_is_refused() {
    let schema = Schema::builder()
        .name("n".to_string())
        .version(1)
        .property(
            Property::builder()
                .name("mode".to_string())
                .signature(sig("y"))
                .default(Value::wrap(Some(1u8)))
                .choices(vec![Value::wrap(Some(1u8)), Value::wrap(Some(2u8))])
                .build()
                .unwrap(),
        )
        .build()
        .unwrap();
    let bytes = encode(&schema);
    assert!(decode(&bytes).is_some());
    let value = [1, 0, 0, 0, 0, 0, 0, 0, b'y', 0, 0, 1];
    let at = bytes.windows(value.len()).position(|w| w == value).unwrap();
    let mut outside = bytes.clone();
    outside[at + value.len() - 1] = 3;
    assert!(decode(&outside).is_none());
    let last = bytes.len() - 1;
    let mut other = bytes.clone();
    other[last] = b'u';
    assert!(decode(&other).is_none());
}
