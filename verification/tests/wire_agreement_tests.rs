use gludconfig::codegen::to_rust_type;
use gludconfig::data::Data;
use gludconfig::signature::TypeSignature;
use gludconfig::trigger::Trigger;
use zvariant::{Array, Dict, ObjectPath, Signature, StructureBuilder, Type, Value};

fn sig(text: &str) -> TypeSignature {
    TypeSignature::from_text(text)
}

fn on_the_wire(data: &Data) -> Value<'static> {
    match data {
        Data::U8(v) => Value::U8(*v),
        Data::Bool(v) => Value::Bool(*v),
        Data::I16(v) => Value::I16(*v),
        Data::U16(v) => Value::U16(*v),
        Data::I32(v) => Value::I32(*v),
        Data::U32(v) => Value::U32(*v),
        Data::I64(v) => Value::I64(*v),
        Data::U64(v) => Value::U64(*v),
        Data::F64 { bits } => Value::F64(f64::from_bits(*bits)),
        Data::Str(v) => Value::Str(v.clone().into()),
        Data::Signature(v) => {
            Value::Signature(Signature::try_from(v.as_str().to_string()).unwrap())
        }
        Data::ObjectPath(v) => Value::ObjectPath(ObjectPath::try_from(v.clone()).unwrap()),
        Data::Variant(inner) => Value::Value(Box::new(on_the_wire(inner))),
        Data::Array { element, items } => {
            let mut array = Array::new(Signature::try_from(element.as_str().to_string()).unwrap());
            for item in items {
                array.append(on_the_wire(item)).unwrap();
            }
            Value::Array(array)
        }
        Data::Dict { key, value, entries } => {
            let mut dict = Dict::new(
                Signature::try_from(key.as_str().to_string()).unwrap(),
                Signature::try_from(value.as_str().to_string()).unwrap(),
            );
            for (k, v) in entries {
                dict.append(on_the_wire(k), on_the_wire(v)).unwrap();
            }
            Value::Dict(dict)
        }
        Data::Structure(fields) => {
            let mut builder = StructureBuilder::new();
            for field in fields {
                builder.push_value(on_the_wire(field));
            }
            Value::Structure(builder.build())
        }
        Data::Fd(v) => Value::Fd(zvariant::Fd::from(*v)),
    }
}

fn samples() -> Vec<Data> {
    vec![
        Data::U8(1),
        Data::Bool(true),
        Data::I16(-1),
        Data::U16(1),
        Data::I32(-1),
        Data::U32(1),
        Data::I64(-1),
        Data::U64(1),
        Data::F64 { bits: 0.5f64.to_bits() },
        Data::Str("text".to_string()),
        Data::Signature(sig("a{sv}")),
        Data::ObjectPath("/org/glud/gludconfig".to_string()),
        Data::Variant(Box::new(Data::U8(1))),
        Data::Fd(0),
        Data::Array { element: sig("s"), items: vec![] },
        Data::from_texts(vec!["foo".to_string(), "bar".to_string()]),
        Data::Array {
            element: sig("(ii)"),
            items: vec![Data::Structure(vec![Data::I32(1), Data::I32(2)])],
        },
        Data::Dict { key: sig("s"), value: sig("v"), entries: vec![] },
        Data::Dict {
            key: sig("s"),
            value: sig("i"),
            entries: vec![(Data::Str("k".to_string()), Data::I32(1))],
        },
        Data::Structure(vec![Data::I32(5), Data::I32(3)]),
        Data::Structure(vec![
            Data::Str("x".to_string()),
            Data::Structure(vec![Data::U8(1), Data::Bool(false)]),
            Data::from_texts(vec!["a".to_string()]),
            Data::Variant(Box::new(Data::Str("v".to_string()))),
        ]),
    ]
}

#[test]
fn signatures_agree_with_the_wire() {
    for data in samples() {
        assert!(data.is_well_formed());
        let wire = on_the_wire(&data);
        assert_eq!(data.signature().as_str(), wire.value_signature().as_str());
    }
}

#[test]
fn equality_agrees_with_the_wire() {
    let all = samples();
    for a in &all {
        for b in &all {
            assert_eq!(a == b, on_the_wire(a) == on_the_wire(b));
        }
    }
}

#[test]
fn triggers_agree_with_the_wire() {
    let declared = <(i32, i32)>::signature();
    let trigger = Trigger::new("tulip".to_string(), sig(declared.as_str()));
    for data in samples() {
        let wire = on_the_wire(&data);
        assert_eq!(trigger.matches(&data), wire.value_signature() == declared);
    }
    assert!(trigger.matches(&Data::Structure(vec![Data::I32(5), Data::I32(3)])));
}

#[test]
fn sample_types_have_the_declared_signatures() {
    assert_eq!(<String>::signature().as_str(), "s");
    assert_eq!(<u32>::signature().as_str(), "u");
    assert_eq!(<Vec<String>>::signature().as_str(), "as");
    assert_eq!(
        Data::from_texts(vec!["foo".to_string()]).signature().as_str(),
        <Vec<String>>::signature().as_str()
    );
    assert_eq!(
        to_rust_type(&sig(<Vec<String>>::signature().as_str()), false, false),
        Some("Vec<String>".to_string())
    );
    assert_eq!(
        to_rust_type(&sig(<(i32, i32)>::signature().as_str()), false, false),
        Some("(i32, i32)".to_string())
    );
}
