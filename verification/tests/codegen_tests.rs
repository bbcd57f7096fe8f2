use gludconfig::codegen::{generate_for_schema, to_rust_type};
use gludconfig::property::Property;
use gludconfig::protocol::ServiceError;
use gludconfig::schema::Schema;
use gludconfig::signature::TypeSignature;
use gludconfig::trigger::Trigger;
use gludconfig::wallpaper;

fn name_of(signature: &str, input: bool, as_ref: bool) -> Option<String> {
    to_rust_type(&TypeSignature::from_text(signature), input, as_ref)
}

fn owned(signature: &str) -> Option<String> {
    name_of(signature, false, false)
}

#[test]
fn basic_kinds_have_their_types() {
    assert_eq!(owned("y"), Some("u8".to_string()));
    assert_eq!(owned("b"), Some("bool".to_string()));
    assert_eq!(owned("n"), Some("i16".to_string()));
    assert_eq!(owned("q"), Some("u16".to_string()));
    assert_eq!(owned("i"), Some("i32".to_string()));
    assert_eq!(owned("u"), Some("u32".to_string()));
    assert_eq!(owned("x"), Some("i64".to_string()));
    assert_eq!(owned("t"), Some("u64".to_string()));
    assert_eq!(owned("d"), Some("f64".to_string()));
    assert_eq!(owned("s"), Some("String".to_string()));
    assert_eq!(owned("h"), Some("zbus::zvariant::OwnedFd".to_string()));
    assert_eq!(owned("o"), Some("zbus::zvariant::OwnedObjectPath".to_string()));
    assert_eq!(owned("g"), Some("zbus::zvariant::OwnedSignature".to_string()));
    assert_eq!(owned("v"), Some("zbus::zvariant::OwnedValue".to_string()));
}

#[test]
fn arguments_are_borrowed() {
    assert_eq!(name_of("s", true, false), Some("&str".to_string()));
    assert_eq!(name_of("s", false, true), Some("&str".to_string()));
    assert_eq!(name_of("h", true, false), Some("zbus::zvariant::Fd".to_string()));
    assert_eq!(name_of("o", true, false), Some("zbus::zvariant::ObjectPath<'_>".to_string()));
    assert_eq!(name_of("o", true, true), Some("&zbus::zvariant::ObjectPath<'_>".to_string()));
    assert_eq!(name_of("o", false, true), Some("zbus::zvariant::OwnedObjectPath".to_string()));
    assert_eq!(name_of("g", true, false), Some("zbus::zvariant::Signature<'_>".to_string()));
    assert_eq!(name_of("g", true, true), Some("&zbus::zvariant::Signature<'_>".to_string()));
    assert_eq!(name_of("v", true, false), Some("zbus::zvariant::Value<'_>".to_string()));
    assert_eq!(name_of("v", true, true), Some("&zbus::zvariant::Value<'_>".to_string()));
    assert_eq!(name_of("u", true, true), Some("u32".to_string()));
}

#[test]
fn containers_have_their_types() {
    assert_eq!(owned("as"), Some("Vec<String>".to_string()));
    assert_eq!(name_of("as", false, true), Some("&Vec<String>".to_string()));
    assert_eq!(name_of("as", true, false), Some("&[&str]".to_string()));
    assert_eq!(name_of("as", true, true), Some("&[&str]".to_string()));
    assert_eq!(owned("aai"), Some("Vec<Vec<i32>>".to_string()));
    assert_eq!(
        owned("a{sv}"),
        Some("std::collections::HashMap<String, zbus::zvariant::OwnedValue>".to_string())
    );
    assert_eq!(
        name_of("a{sv}", true, false),
        Some("std::collections::HashMap<&str, zbus::zvariant::Value<'_>>".to_string())
    );
    assert_eq!(owned("(ii)"), Some("(i32, i32)".to_string()));
    assert_eq!(name_of("(ii)", false, true), Some("&(i32, i32)".to_string()));
    assert_eq!(owned("(isu)"), Some("(i32, String, u32)".to_string()));
    assert_eq!(owned("(i)"), Some("i32".to_string()));
    assert_eq!(name_of("(s)", false, true), Some("String".to_string()));
    assert_eq!(owned("a(ii)"), Some("Vec<(i32, i32)>".to_string()));
    assert_eq!(owned("(asi)"), Some("(Vec<String>, i32)".to_string()));
    assert_eq!(owned("{sv}"), Some("String, zbus::zvariant::OwnedValue".to_string()));
    assert_eq!(owned("{}"), Some(String::new()));
}

#[test]
fn only_the_first_type_is_read() {
    assert_eq!(owned("ii"), Some("i32".to_string()));
    assert_eq!(owned("us"), Some("u32".to_string()));
    assert_eq!(owned("(ii)s"), Some("(i32, i32)".to_string()));
}

#[test]
fn reading_stops_before_a_closing_bracket() {
    assert_eq!(owned("((ii)s)"), Some("(i32, i32)".to_string()));
    assert_eq!(owned("(i(ss)u)"), Some("(i32, (String, String))".to_string()));
    assert_eq!(owned("(i}"), Some("i32".to_string()));
}

#[test]
fn unreadable_signatures_have_no_type() {
    assert_eq!(owned(""), None);
    assert_eq!(owned("z"), None);
    assert_eq!(owned("a"), None);
    assert_eq!(owned("az"), None);
    assert_eq!(owned("("), None);
    assert_eq!(owned("(ii"), None);
    assert_eq!(owned("()"), None);
    assert_eq!(owned(")"), None);
    assert_eq!(owned("(iz)"), None);
    assert_eq!(owned("é"), None);
    assert_eq!(owned("a{s"), None);
}

#[test]
fn wallpaper_bindings_are_written() {
    let schema = wallpaper::schema().unwrap();
    let text = generate_for_schema(&schema, "WallpaperDaemon", false).unwrap();
    let wanted = "#[glud_macros::glud_interface(name = \"org.desktop.ui.wallpaper\", blocking = false)]\n\
trait WallpaperDaemon {\n    #[property(name = \"wallpaper_path\")]\n    async fn wallpaper_path() -> String;\n    #[property(name = \"scale_mode\")]\n    async fn scale_mode() -> u32;\n    #[property(name = \"some_property\")]\n    async fn some_property() -> Vec<String>;\n    #[trigger(name = \"tulip\")]\n    async fn tulip() -> (i32, i32);\n}\n";
    assert_eq!(text, wanted);
}

#[test]
fn blocking_bindings_are_written() {
    let schema = Schema::builder()
        .name("org.foo".to_string())
        .version(1)
        .property(
            Property::builder()
                .name("level".to_string())
                .signature(TypeSignature::from_text("y"))
                .build()
                .unwrap(),
        )
        .trigger(Trigger::new("ring".to_string(), TypeSignature::from_text("as")))
        .build()
        .unwrap();
    let text = generate_for_schema(&schema, "Foo", true).unwrap();
    let wanted = "#[glud_macros::glud_interface(name = \"org.foo\", blocking = true)]\n\
trait Foo {\n    #[property(name = \"level\")]\n     fn level() -> u8;\n    #[trigger(name = \"ring\")]\n     fn ring() -> Vec<String>;\n}\n";
    assert_eq!(text, wanted);
}

#[test]
fn empty_schema_has_an_empty_trait() {
    let schema = Schema::builder().name("org.foo".to_string()).version(1).build().unwrap();
    assert_eq!(
        generate_for_schema(&schema, "Foo", false),
        Some(
            "#[glud_macros::glud_interface(name = \"org.foo\", blocking = false)]\ntrait Foo {\n}\n"
                .to_string()
        )
    );
}

#[test]
fn unreadable_signature_stops_the_bindings() {
    let schema = Schema::builder()
        .name("org.foo".to_string())
        .version(1)
        .property(
            Property::builder()
                .name("odd".to_string())
                .signature(TypeSignature::from_text("?"))
                .build()
                .unwrap(),
        )
        .build()
        .unwrap();
    assert_eq!(generate_for_schema(&schema, "Foo", false), None);

    let schema = Schema::builder()
        .name("org.foo".to_string())
        .version(1)
        .trigger(Trigger::new("odd".to_string(), TypeSignature::from_text("")))
        .build()
        .unwrap();
    assert_eq!(generate_for_schema(&schema, "Foo", true), None);
}

#[test]
fn failures_have_their_messages() {
    assert_eq!(
        ServiceError::SchemaNotFound.message("org.foo", "bar"),
        "Schema with name org.foo not found"
    );
    assert_eq!(
        ServiceError::PropertyNotFound.message("org.foo", "bar"),
        "Property not found in schema org.foo with name bar"
    );
    assert_eq!(
        ServiceError::TriggerNotFound.message("org.foo", "bar"),
        "Trigger not found in schema org.foo with name bar"
    );
    assert_eq!(
        ServiceError::SignatureMismatch.message("org.foo", "bar"),
        "The value's signature, and Signature passed to `Value::new` dont match"
    );
    assert_eq!(
        ServiceError::NotWritable.message("org.foo", "bar"),
        "Property cannot be writed to, as its `writable` field is set to false"
    );
    assert_eq!(
        ServiceError::NotFoundInChoices.message("org.foo", "bar"),
        "The provided values were not inside acceptable choices."
    );
    assert_eq!(
        ServiceError::InvalidSignature.message("org.foo", "bar"),
        "The signature of `default` or `value` do not match the one passed by the user"
    );
    assert_eq!(
        ServiceError::MissingField.message("org.foo", "bar"),
        "A required field was not set"
    );
    assert_eq!(
        ServiceError::DuplicateSchema.message("org.foo", ""),
        "Schema with name org.foo already exists"
    );
    assert_eq!(
        ServiceError::DecodeFailure.message("org.foo", ""),
        "The bytes do not hold a schema"
    );
    assert_eq!(ServiceError::StoreFailure.message("org.foo", ""), "The store failed");
}
