use gludconfig::data::Data;
use gludconfig::error::{BuilderError, Error, PropertyError, ValueError};
use gludconfig::property::Property;
use gludconfig::protocol::{
    invoke, list, metadata, read, register, reset, reset_all, schema_metadata, trigger_metadata,
    Notification, ServiceError,
};
use gludconfig::schema::Schema;
use gludconfig::schema_codec::encode;
use gludconfig::signature::TypeSignature;
use gludconfig::trigger::Trigger;
use gludconfig::value::Value;

fn sig(text: &str) -> TypeSignature {
    TypeSignature::from_text(text)
}

fn uint(v: u32) -> Value {
    Value::new(Some(Data::U32(v)), sig("u")).unwrap()
}

fn app() -> Schema {
    Schema::builder()
        .name("org.example.app".to_string())
        .version(1)
        .property(
            Property::builder()
                .name("volume".to_string())
                .signature(sig("u"))
                .default(uint(50))
                .writable(true)
                .build()
                .unwrap(),
        )
        .property(
            Property::builder()
                .name("mode".to_string())
                .signature(sig("u"))
                .default(uint(1))
                .choices(vec![uint(1), uint(2), uint(3)])
                .build()
                .unwrap(),
        )
        .property(
            Property::builder()
                .name("serial".to_string())
                .about("the serial number".to_string())
                .long_about("set once, at the factory".to_string())
                .signature(sig("s"))
                .default(Value::wrap(Some("A1".to_string())))
                .value(Value::wrap(Some("B2".to_string())))
                .writable(false)
                .show_in_settings(false)
                .build()
                .unwrap(),
        )
        .trigger(Trigger::new("ping".to_string(), sig("(ii)")))
        .build()
        .unwrap()
}

fn is_changed(n: &Notification, schema: &str, property: &str) -> bool {
    matches!(n, Notification::PropertyChanged { schema: s, property: p } if s == schema && p == property)
}

#[test]
fn scenario_write_read_reset_read() {
    let mut schema = app();
    let effects = gludconfig::protocol::write(&mut schema, "volume", Some(Data::U32(70))).unwrap();
    assert!(effects.persist);
    assert_eq!(effects.notifications.len(), 1);
    assert!(is_changed(&effects.notifications[0], "org.example.app", "volume"));
    assert_eq!(read(&schema, "volume").unwrap().get_inner(), Some(&Data::U32(70)));

    let (done, effects) = reset(&mut schema, "volume").unwrap();
    assert!(done);
    assert!(effects.persist);
    assert_eq!(effects.notifications.len(), 1);
    assert!(is_changed(&effects.notifications[0], "org.example.app", "volume"));
    assert_eq!(read(&schema, "volume").unwrap().get_inner(), Some(&Data::U32(50)));
}

#[test]
fn scenario_choices() {
    let mut schema = app();
    assert_eq!(
        gludconfig::protocol::write(&mut schema, "mode", Some(Data::U32(5))).err(),
        Some(ServiceError::NotFoundInChoices)
    );
    assert_eq!(read(&schema, "mode").unwrap().get_inner(), Some(&Data::U32(1)));
    assert!(gludconfig::protocol::write(&mut schema, "mode", Some(Data::U32(2))).is_ok());
    assert_eq!(read(&schema, "mode").unwrap().get_inner(), Some(&Data::U32(2)));
}

#[test]
fn scenario_reset_all() {
    let mut schema = Schema::builder()
        .name("org.example.two".to_string())
        .version(1)
        .property(
            Property::builder()
                .name("free".to_string())
                .signature(sig("u"))
                .default(uint(1))
                .value(uint(2))
                .build()
                .unwrap(),
        )
        .property(
            Property::builder()
                .name("fixed".to_string())
                .signature(sig("u"))
                .default(uint(1))
                .value(uint(2))
                .writable(false)
                .build()
                .unwrap(),
        )
        .build()
        .unwrap();
    let (all, effects) = reset_all(&mut schema);
    assert!(!all);
    assert!(effects.persist);
    assert_eq!(effects.notifications.len(), 1);
    assert!(is_changed(&effects.notifications[0], "org.example.two", "free"));
    assert_eq!(schema.properties()[0].get_value(), Some(&Data::U32(1)));
    assert_eq!(schema.properties()[1].get_value(), Some(&Data::U32(2)));
}

#[test]
fn reset_all_tells_each_writable_property_in_order() {
    let mut schema = app();
    gludconfig::protocol::write(&mut schema, "volume", Some(Data::U32(70))).unwrap();
    gludconfig::protocol::write(&mut schema, "mode", Some(Data::U32(3))).unwrap();
    let (all, effects) = reset_all(&mut schema);
    assert!(!all);
    assert_eq!(effects.notifications.len(), 2);
    assert!(is_changed(&effects.notifications[0], "org.example.app", "volume"));
    assert!(is_changed(&effects.notifications[1], "org.example.app", "mode"));
    assert_eq!(read(&schema, "volume").unwrap().get_inner(), Some(&Data::U32(50)));
    assert_eq!(read(&schema, "mode").unwrap().get_inner(), Some(&Data::U32(1)));
    assert_eq!(read(&schema, "serial").unwrap().get_inner(), Some(&Data::Str("B2".to_string())));
}

#[test]
fn reset_all_of_writable_properties_is_true() {
    let mut schema = Schema::builder()
        .name("n".to_string())
        .version(1)
        .property(Property::builder().name("a".to_string()).signature(sig("u")).build().unwrap())
        .build()
        .unwrap();
    let (all, effects) = reset_all(&mut schema);
    assert!(all);
    assert_eq!(effects.notifications.len(), 1);

    let mut empty = Schema::builder().name("n".to_string()).version(1).build().unwrap();
    let (all, effects) = reset_all(&mut empty);
    assert!(all);
    assert!(effects.persist);
    assert!(effects.notifications.is_empty());
}

#[test]
fn read_of_unknown_property_fails() {
    assert_eq!(read(&app(), "nothing").err(), Some(ServiceError::PropertyNotFound));
    assert_eq!(read(&app(), "ping").err(), Some(ServiceError::PropertyNotFound));
}

#[test]
fn write_failures_come_in_order() {
    let mut schema = app();
    assert_eq!(
        gludconfig::protocol::write(&mut schema, "nothing", Some(Data::U32(1))).err(),
        Some(ServiceError::PropertyNotFound)
    );
    assert_eq!(
        gludconfig::protocol::write(&mut schema, "serial", Some(Data::U32(1))).err(),
        Some(ServiceError::SignatureMismatch)
    );
    assert_eq!(
        gludconfig::protocol::write(&mut schema, "serial", Some(Data::Str("C3".to_string()))).err(),
        Some(ServiceError::NotWritable)
    );
    assert_eq!(gludconfig::protocol::write(&mut schema, "serial", None).err(), Some(ServiceError::NotWritable));
    assert_eq!(
        gludconfig::protocol::write(&mut schema, "volume", Some(Data::I32(1))).err(),
        Some(ServiceError::SignatureMismatch)
    );
    assert_eq!(gludconfig::protocol::write(&mut schema, "mode", None).err(), Some(ServiceError::NotFoundInChoices));
    assert_eq!(read(&schema, "serial").unwrap().get_inner(), Some(&Data::Str("B2".to_string())));
    assert_eq!(read(&schema, "volume").unwrap().get_inner(), Some(&Data::U32(50)));
    assert_eq!(read(&schema, "mode").unwrap().get_inner(), Some(&Data::U32(1)));
}

#[test]
fn write_of_null_clears_the_value() {
    let mut schema = app();
    assert!(gludconfig::protocol::write(&mut schema, "volume", None).is_ok());
    let value = read(&schema, "volume").unwrap();
    assert_eq!(value.get_inner(), None);
    assert_eq!(value.signature().as_str(), "u");
}

#[test]
fn reset_of_unwritable_keeps_again_and_tells_nothing() {
    let mut schema = app();
    let (done, effects) = reset(&mut schema, "serial").unwrap();
    assert!(!done);
    assert!(effects.persist);
    assert!(effects.notifications.is_empty());
    assert_eq!(read(&schema, "serial").unwrap().get_inner(), Some(&Data::Str("B2".to_string())));
    assert_eq!(reset(&mut schema, "nothing").err(), Some(ServiceError::PropertyNotFound));
}

#[test]
fn reset_without_change_still_tells() {
    let mut schema = app();
    let (done, effects) = reset(&mut schema, "volume").unwrap();
    assert!(done);
    assert_eq!(effects.notifications.len(), 1);
}

#[test]
fn metadata_is_a_projection() {
    let schema = app();
    let info = metadata(&schema, "serial").unwrap();
    assert!(!info.writable);
    assert_eq!(info.name, "serial");
    assert_eq!(info.summary, "the serial number");
    assert_eq!(info.description, "set once, at the factory");
    assert!(!info.show_in_settings);
    assert_eq!(info.signature.as_str(), "s");
    assert_eq!(info.current.into_option(), Some(Data::Str("B2".to_string())));
    assert_eq!(metadata(&schema, "nothing").err(), Some(ServiceError::PropertyNotFound));

    let info = trigger_metadata(&schema, "ping").unwrap();
    assert_eq!(info.name, "ping");
    assert_eq!(info.signature.as_str(), "(ii)");
    assert_eq!(trigger_metadata(&schema, "volume").err(), Some(ServiceError::TriggerNotFound));

    let info = schema_metadata(&schema);
    assert_eq!(info.name, "org.example.app");
    assert_eq!(info.version, 1);
    assert_eq!(info.triggers, vec!["ping".to_string()]);
    assert_eq!(
        info.properties,
        vec!["volume".to_string(), "mode".to_string(), "serial".to_string()]
    );
}

#[test]
fn invoke_validates_the_payload() {
    let schema = app();
    let payload = Data::Structure(vec![Data::I32(5), Data::I32(3)]);
    let effects = invoke(&schema, "ping", payload.clone()).unwrap();
    assert!(!effects.persist);
    assert_eq!(effects.notifications.len(), 1);
    match &effects.notifications[0] {
        Notification::TriggerInvoked { schema, trigger, value } => {
            assert_eq!(schema, "org.example.app");
            assert_eq!(trigger, "ping");
            assert_eq!(value, &payload);
        }
        _ => panic!("expected an invocation"),
    }
    assert_eq!(invoke(&schema, "ping", Data::I32(5)).err(), Some(ServiceError::SignatureMismatch));
    assert_eq!(
        invoke(&schema, "ping", Data::Structure(vec![Data::I32(5), Data::I32(3), Data::I32(1)]))
            .err(),
        Some(ServiceError::SignatureMismatch)
    );
    assert_eq!(invoke(&schema, "pong", payload).err(), Some(ServiceError::TriggerNotFound));
}

#[test]
fn register_decodes() {
    let schema = app();
    let bytes = encode(&schema);
    let back = register(&bytes).unwrap();
    assert_eq!(back.name(), "org.example.app");
    assert_eq!(back.properties().len(), 3);
    assert_eq!(register(&bytes[..10]).err(), Some(ServiceError::DecodeFailure));
    assert_eq!(register(&[]).err(), Some(ServiceError::DecodeFailure));
}

#[test]
fn list_describes_each_entry() {
    let other = Schema::builder().name("org.other".to_string()).version(7).build().unwrap();
    let entries = vec![
        ("org.example.app".to_string(), encode(&app())),
        ("org.other".to_string(), encode(&other)),
    ];
    let infos = list(&entries).unwrap();
    assert_eq!(infos.len(), 2);
    assert_eq!(infos[0].name, "org.example.app");
    assert_eq!(infos[0].version, 1);
    assert_eq!(infos[0].properties.len(), 3);
    assert_eq!(infos[1].name, "org.other");
    assert_eq!(infos[1].version, 7);
    assert!(infos[1].triggers.is_empty());
    assert_eq!(list(&vec![]).unwrap().len(), 0);

    let broken = vec![
        ("org.example.app".to_string(), encode(&app())),
        ("org.broken".to_string(), vec![1, 2, 3]),
    ];
    assert_eq!(list(&broken).err(), Some(ServiceError::DecodeFailure));
}

#[test]
fn failures_of_the_model_become_failures_of_requests() {
    assert_eq!(
        ServiceError::from_error(Error::Value(ValueError::SignatureNotMatched)),
        ServiceError::SignatureMismatch
    );
    assert_eq!(
        ServiceError::from_error(Error::Property(PropertyError::NotFoundInChoices)),
        ServiceError::NotFoundInChoices
    );
    assert_eq!(
        ServiceError::from_error(Error::Property(PropertyError::InvalidSignature)),
        ServiceError::InvalidSignature
    );
    assert_eq!(
        ServiceError::from_error(Error::Property(PropertyError::NotWritable)),
        ServiceError::NotWritable
    );
    assert_eq!(
        ServiceError::from_error(Error::Builder(BuilderError::UnwrapFailed("name", "b"))),
        ServiceError::MissingField
    );
}

#[test]
fn events_have_their_topic() {
    let changed = Notification::PropertyChanged {
        schema: "org.foo".to_string(),
        property: "bar".to_string(),
    };
    assert_eq!(changed.topic(), ("org.foo", "bar"));
    assert!(changed.concerns("org.foo", "bar"));
    assert!(!changed.concerns("org.foo", "baz"));
    assert!(!changed.concerns("org.fox", "bar"));
    let invoked = Notification::TriggerInvoked {
        schema: "org.foo".to_string(),
        trigger: "ping".to_string(),
        value: Data::U8(1),
    };
    assert_eq!(invoked.topic(), ("org.foo", "ping"));
    assert!(invoked.concerns("org.foo", "ping"));
    assert!(!invoked.concerns("org.foo", "bar"));
}
