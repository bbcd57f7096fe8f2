use gludconfig::data::Data;
use gludconfig::error::{BuilderError, Error, PropertyError, StorageError, ValueError, ZbusError};
use gludconfig::schema_codec::encode;
use gludconfig::service::{load, persist, register};
use gludconfig::storage_backend::{MemoryStore, StorageBackend};
use gludconfig::value::Value;
use gludconfig::wallpaper::{
    default_useless_property, schema, useless_property_choices, wallpaper_default,
};

const NAME: &str = "org.desktop.ui.wallpaper";

fn storage() -> MemoryStore {
    let mut db = MemoryStore::new();
    register(&mut db, &encode(&schema().unwrap())).unwrap();
    db
}

#[test]
fn test_fetch_all() {
    let db = storage();
    let schemas = db.fetch_all();
    println!("{:#?}", schemas.unwrap());
}

#[test]
fn test_crud_speed() {
    let mut db = storage();
    for i in 1..10000 {
        let mut schema = load(&db, NAME).unwrap();
        let at = schema.find_property("wallpaper_path").unwrap();
        schema
            .properties_mut(at)
            .set_value(Value::wrap(Some(format!("{}", i))))
            .unwrap();
        persist(&mut db, &schema).unwrap();
    }
    let schema = load(&db, NAME).unwrap();
    assert_eq!(schema.properties()[0].get_value(), Some(&Data::Str("9999".to_string())));
}

#[test]
fn test_read_speed() {
    let db = storage();
    for _ in 1..10000 {
        let schema = load(&db, NAME).unwrap();
        schema.find_property("wallpaper_path").unwrap();
    }
}

#[test]
fn test_duplicate() {
    let schema = schema().unwrap();
    let mut db = MemoryStore::new();
    assert_eq!(
        register(&mut db, &encode(&schema)).is_ok(),
        true,
        "The schema likely already exists on your system, please delete it before proceeding."
    );
    assert_eq!(register(&mut db, &encode(&schema)).is_ok(), false);
}

#[test]
fn test_fetch_schema() {
    let db = storage();
    let schema = load(&db, NAME);
    assert_eq!(schema.is_ok(), true);
}

#[test]
fn test_update_writable_property() {
    let db = storage();
    let mut schema = load(&db, NAME).unwrap();
    let at = schema.find_property("wallpaper_path").unwrap();
    let property = schema.properties_mut(at);

    assert_eq!(property.set_value(Value::wrap(Some("".to_string()))).is_ok(), true);

    assert_eq!(property.set_value(Value::wrap(Some(500))).is_ok(), false);
}

#[test]
fn test_signal() {
    let db = storage();
    let mut schema = load(&db, NAME).unwrap();

    let trigger = schema.find_trigger("tulip");

    assert_eq!(trigger.is_some(), true);

    let trigger = schema.triggers_mut(trigger.unwrap());

    assert_eq!(trigger.matches(&Data::Structure(vec![Data::I32(5), Data::I32(3)])), true);
    assert_eq!(trigger.matches(&Data::I32(5)), false);
}

#[test]
fn test_update_unwritable_property() {
    let db = storage();
    let mut schema = load(&db, NAME).unwrap();
    let at = schema.find_property("scale_mode").unwrap();
    let property = schema.properties_mut(at);
    assert_eq!(property.set_value(Value::wrap(Some(1))).is_ok(), false);
}

#[test]
fn test_choices_property() {
    let db = storage();
    let mut schema = load(&db, NAME).unwrap();
    let at = schema.find_property("some_property").unwrap();
    let property = schema.properties_mut(at);

    assert_eq!(
        property.set_value(Value::wrap(Some(vec![String::from("not_foo")]))).is_ok(),
        false
    );

    assert_eq!(
        property.set_value(Value::wrap::<Vec<String>>(Some(vec![String::from("foo")]))).is_ok(),
        true
    )
}

#[test]
fn sample_values_are_as_declared() {
    assert_eq!(
        wallpaper_default(),
        Some(String::from("/usr/share/desktop/ui/defaults/wallpaper.svg"))
    );
    assert_eq!(default_useless_property(), Some(vec![String::from("foo")]));
    assert_eq!(useless_property_choices(), vec![Some(vec![String::from("foo")])]);
}

#[test]
fn sample_schema_is_as_declared() {
    let schema = schema().unwrap();
    assert_eq!(schema.name(), NAME);
    assert_eq!(schema.version(), 1);
    assert_eq!(schema.properties().len(), 3);
    assert_eq!(schema.triggers().len(), 1);

    let path = &schema.properties()[0];
    assert_eq!(path.name(), "wallpaper_path");
    assert_eq!(path.about(), "The path of the wallpaper");
    assert_eq!(path.signature().as_str(), "s");
    assert!(path.is_writable());
    assert!(path.show_in_settings());
    assert_eq!(
        path.get_value(),
        Some(&Data::Str("/usr/share/desktop/ui/defaults/wallpaper.svg".to_string()))
    );

    let mode = &schema.properties()[1];
    assert_eq!(mode.name(), "scale_mode");
    assert_eq!(mode.long_about(), "");
    assert_eq!(mode.signature().as_str(), "u");
    assert!(!mode.is_writable());
    assert!(!mode.show_in_settings());
    assert_eq!(mode.get_value(), None);

    let some = &schema.properties()[2];
    assert_eq!(some.name(), "some_property");
    assert_eq!(some.signature().as_str(), "as");
    assert_eq!(some.choices().len(), 1);
    assert_eq!(some.get_value(), Some(&Data::from_texts(vec!["foo".to_string()])));

    assert_eq!(schema.triggers()[0].name(), "tulip");
    assert_eq!(schema.triggers()[0].signature().as_str(), "(ii)");
}

#[test]
fn errors_have_their_messages() {
    assert_eq!(
        ValueError::SignatureNotMatched.message(),
        "The value's signature, and Signature passed to `Value::new` dont match"
    );
    assert_eq!(
        ZbusError::SchemaNotFound("org.foo").message(),
        "Schema with name org.foo not found"
    );
    assert_eq!(
        ZbusError::PropertyNotFound("org.foo", "bar").message(),
        "Property not found in schema org.foo with name bar"
    );
    assert_eq!(
        ZbusError::TriggerNotFound("org.foo", "bar").message(),
        "Trigger not found in schema org.foo with name bar"
    );
    assert_eq!(
        StorageError::NoHomeFound("me").message(),
        "No home directory found for user me"
    );
    assert_eq!(
        BuilderError::UnwrapFailed("name", "SchemaBuilder").message(),
        "The value name was not set in builder SchemaBuilder"
    );
    assert_eq!(
        PropertyError::NotFoundInChoices.message(),
        "The provided values were not inside acceptable choices."
    );
    assert_eq!(
        PropertyError::InvalidSignature.message(),
        "The signature of `default` or `value` do not match the one passed by the user"
    );
    assert_eq!(
        PropertyError::NotWritable.message(),
        "Property cannot be writed to, as its `writable` field is set to false"
    );
    assert_eq!(
        Error::Property(PropertyError::NotWritable).message(),
        PropertyError::NotWritable.message()
    );
    assert_eq!(
        Error::Value(ValueError::SignatureNotMatched).message(),
        ValueError::SignatureNotMatched.message()
    );
    assert!(matches!(
        BuilderError::unwrap_failed("signature", "PropertyBuilder"),
        Error::Builder(BuilderError::UnwrapFailed("signature", "PropertyBuilder"))
    ));
    assert_eq!(
        BuilderError::unwrap_failed("signature", "PropertyBuilder").message(),
        "The value signature was not set in builder PropertyBuilder"
    );
}
