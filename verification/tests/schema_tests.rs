use gludconfig::data::Data;
use gludconfig::error::{BuilderError, Error};
use gludconfig::property::Property;
use gludconfig::schema::{
    distinct_property_names, distinct_trigger_names, find_property_in, find_trigger_in, Schema,
    SchemaBuilder,
};
use gludconfig::signature::TypeSignature;
use gludconfig::text::same_text;
use gludconfig::trigger::Trigger;
use gludconfig::value::Value;

fn sig(text: &str) -> TypeSignature {
    TypeSignature::from_text(text)
}

fn property(name: &str) -> Property {
    Property::builder().name(name.to_string()).signature(sig("u")).build().unwrap()
}

fn trigger(name: &str) -> Trigger {
    Trigger::new(name.to_string(), sig("(ii)"))
}

fn sample() -> Schema {
    Schema::builder()
        .name("org.example.app".to_string())
        .version(1)
        .property(property("volume"))
        .property(property("mode"))
        .trigger(trigger("tulip"))
        .trigger(trigger("rose"))
        .build()
        .unwrap()
}

#[test]
fn trigger_matches_exact_shape_only() {
    let tulip = Trigger::new("tulip".to_string(), sig("(ii)"));
    assert!(tulip.matches(&Data::Structure(vec![Data::I32(5), Data::I32(3)])));
    assert!(!tulip.matches(&Data::I32(5)));
    assert!(!tulip.matches(&Data::Structure(vec![Data::I32(5), Data::I32(3), Data::I32(1)])));
    assert!(!tulip.matches(&Data::Structure(vec![Data::I32(5), Data::U32(3)])));
    assert!(!tulip.matches(&Data::Structure(vec![Data::I32(5)])));
}

#[test]
fn trigger_keeps_name_and_signature() {
    let tulip = trigger("tulip");
    assert_eq!(tulip.name(), "tulip");
    assert_eq!(tulip.signature().as_str(), "(ii)");
    let copy = tulip.clone();
    assert_eq!(copy.name(), "tulip");
    assert_eq!(copy.signature().as_str(), "(ii)");
}

#[test]
fn triggers_are_equal_by_name() {
    assert!(trigger("tulip") == Trigger::new("tulip".to_string(), sig("s")));
    assert!(trigger("tulip") != trigger("rose"));
}

#[test]
fn schema_keeps_order() {
    let schema = sample();
    assert_eq!(schema.name(), "org.example.app");
    assert_eq!(schema.version(), 1);
    let names: Vec<&str> = schema.properties().iter().map(|p| p.name()).collect();
    assert_eq!(names, vec!["volume", "mode"]);
    let names: Vec<&str> = schema.triggers().iter().map(|t| t.name()).collect();
    assert_eq!(names, vec!["tulip", "rose"]);
}

#[test]
fn schema_lookup_is_by_name() {
    let schema = sample();
    assert_eq!(schema.find_property("volume"), Some(0));
    assert_eq!(schema.find_property("mode"), Some(1));
    assert_eq!(schema.find_property("tulip"), None);
    assert_eq!(schema.find_trigger("tulip"), Some(0));
    assert_eq!(schema.find_trigger("rose"), Some(1));
    assert_eq!(schema.find_trigger("volume"), None);
    assert_eq!(find_property_in(schema.properties(), "mode"), Some(1));
    assert_eq!(find_trigger_in(schema.triggers(), "nothing"), None);
}

#[test]
fn schema_hands_out_one_property_to_change() {
    let mut schema = sample();
    let value = Value::new(Some(Data::U32(7)), sig("u")).unwrap();
    schema.properties_mut(1).set_value(value).unwrap();
    assert_eq!(schema.properties()[1].get_value(), Some(&Data::U32(7)));
    assert_eq!(schema.properties()[0].get_value(), None);
    assert_eq!(schema.triggers_mut(1).name(), "rose");
}

#[test]
fn schema_gives_its_parts_away() {
    let names: Vec<String> =
        sample().into_properties().iter().map(|p| p.name().to_string()).collect();
    assert_eq!(names, vec!["volume".to_string(), "mode".to_string()]);
    let names: Vec<String> =
        sample().into_triggers().iter().map(|t| t.name().to_string()).collect();
    assert_eq!(names, vec!["tulip".to_string(), "rose".to_string()]);
}

#[test]
fn schemas_are_equal_by_name() {
    let a = sample();
    let b = Schema::builder().name("org.example.app".to_string()).version(9).build().unwrap();
    let c = Schema::builder().name("org.example.other".to_string()).version(1).build().unwrap();
    assert!(a == b);
    assert!(a != c);
}

#[test]
fn schema_builder_asks_for_name_then_version() {
    let built = Schema::builder().build();
    assert!(matches!(
        built,
        Err(Error::Builder(BuilderError::UnwrapFailed("name", "SchemaBuilder")))
    ));
    let built = Schema::builder().name("n".to_string()).build();
    assert!(matches!(
        built,
        Err(Error::Builder(BuilderError::UnwrapFailed("version", "SchemaBuilder")))
    ));
    let built = SchemaBuilder::default().version(1).build();
    assert!(matches!(
        built,
        Err(Error::Builder(BuilderError::UnwrapFailed("name", "SchemaBuilder")))
    ));
}

#[test]
fn schema_builder_takes_lists() {
    let schema = Schema::builder()
        .name("n".to_string())
        .version(2)
        .property(property("a"))
        .properties(vec![property("b"), property("c")])
        .trigger(trigger("x"))
        .triggers(vec![trigger("y")])
        .build()
        .unwrap();
    assert_eq!(schema.properties().len(), 3);
    assert_eq!(schema.find_property("c"), Some(2));
    assert_eq!(schema.find_trigger("y"), Some(1));
}

#[test]
fn schema_builder_tells_what_is_there() {
    let builder = Schema::builder().property(property("a")).trigger(trigger("x"));
    assert!(builder.has_property("a"));
    assert!(!builder.has_property("x"));
    assert!(builder.has_trigger("x"));
    assert!(!builder.has_trigger("a"));
}

#[test]
fn distinct_names_are_told_apart() {
    assert!(distinct_property_names(&vec![property("a"), property("b"), property("c")]));
    assert!(!distinct_property_names(&vec![property("a"), property("b"), property("a")]));
    assert!(distinct_property_names(&vec![]));
    assert!(distinct_trigger_names(&vec![trigger("a"), trigger("b")]));
    assert!(!distinct_trigger_names(&vec![trigger("b"), trigger("b")]));
}

#[test]
fn same_text_is_exact() {
    assert!(same_text("", ""));
    assert!(same_text("volume", "volume"));
    assert!(!same_text("volume", "volumes"));
    assert!(!same_text("volume", "Volume"));
    assert!(same_text("né", "né"));
    assert!(!same_text("né", "ne"));
}
