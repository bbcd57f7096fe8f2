use gludconfig::data::Data;
use gludconfig::protocol::{Notification, ServiceError};
use gludconfig::schema::Schema;
use gludconfig::schema_codec::{decode, encode};
use gludconfig::service::{
    from_store, invoke, list, load, metadata, persist, read, register, reset, reset_all,
};
use gludconfig::storage_backend::{MemoryStore, StorageBackend, StoreError};
use gludconfig::wallpaper;

fn store_with_wallpaper() -> MemoryStore {
    let mut store = MemoryStore::new();
    register(&mut store, &encode(&wallpaper::schema().unwrap())).unwrap();
    store
}

const NAME: &str = "org.desktop.ui.wallpaper";

#[test]
fn memory_store_keeps_by_name() {
    let mut store = MemoryStore::new();
    assert_eq!(store.fetch_schema("a".to_string()), Err(StoreError::NotFound));
    assert_eq!(store.new_schema("a".to_string(), vec![1]), Ok(()));
    assert_eq!(store.new_schema("b".to_string(), vec![2]), Ok(()));
    assert_eq!(store.new_schema("a".to_string(), vec![3]), Err(StoreError::AlreadyExists));
    assert_eq!(store.fetch_schema("a".to_string()), Ok(vec![1]));
    assert_eq!(store.update_schema("a".to_string(), vec![4]), Ok(()));
    assert_eq!(store.fetch_schema("a".to_string()), Ok(vec![4]));
    assert_eq!(store.update_schema("c".to_string(), vec![5]), Ok(()));
    assert_eq!(store.fetch_schema("c".to_string()), Err(StoreError::NotFound));
    assert_eq!(
        store.fetch_all(),
        Ok(vec![("a".to_string(), vec![4]), ("b".to_string(), vec![2])])
    );
    assert_eq!(store.delete_schema("a".to_string()), Ok(()));
    assert_eq!(store.delete_schema("a".to_string()), Ok(()));
    assert_eq!(store.fetch_schema("a".to_string()), Err(StoreError::NotFound));
    assert_eq!(store.fetch_all(), Ok(vec![("b".to_string(), vec![2])]));
}

#[test]
fn scenario_register_twice() {
    let mut store = MemoryStore::new();
    let first = Schema::builder().name("org.foo".to_string()).version(1).build().unwrap();
    let second = Schema::builder().name("org.foo".to_string()).version(2).build().unwrap();
    assert_eq!(register(&mut store, &encode(&first)), Ok(()));
    assert_eq!(register(&mut store, &encode(&second)), Err(ServiceError::DuplicateSchema));
    let kept = store.fetch_schema("org.foo".to_string()).unwrap();
    assert_eq!(kept, encode(&first));
    assert_eq!(decode(&kept).unwrap().version(), 1);
    assert_eq!(load(&store, "org.foo").unwrap().version(), 1);
}

#[test]
fn register_refuses_malformed_bytes() {
    let mut store = MemoryStore::new();
    assert_eq!(register(&mut store, &[1, 2, 3]), Err(ServiceError::DecodeFailure));
    assert_eq!(store.fetch_all(), Ok(vec![]));
}

#[test]
fn requests_for_unknown_schema_fail() {
    let mut store = store_with_wallpaper();
    assert_eq!(read(&store, "org.nothing", "x").err(), Some(ServiceError::SchemaNotFound));
    assert_eq!(
        gludconfig::service::write(&mut store, "org.nothing", "x", None).err(),
        Some(ServiceError::SchemaNotFound)
    );
    assert_eq!(reset(&mut store, "org.nothing", "x").err(), Some(ServiceError::SchemaNotFound));
    assert_eq!(reset_all(&mut store, "org.nothing").err(), Some(ServiceError::SchemaNotFound));
    assert_eq!(metadata(&store, "org.nothing", "x").err(), Some(ServiceError::SchemaNotFound));
    assert_eq!(
        invoke(&store, "org.nothing", "x", Data::U8(1)).err(),
        Some(ServiceError::SchemaNotFound)
    );
    assert_eq!(load(&store, "org.nothing").err(), Some(ServiceError::SchemaNotFound));
}

#[test]
fn requests_for_broken_bytes_fail() {
    let mut store = MemoryStore::new();
    store.new_schema("org.broken".to_string(), vec![9, 9, 9]).unwrap();
    assert_eq!(read(&store, "org.broken", "x").err(), Some(ServiceError::DecodeFailure));
    assert_eq!(list(&store).err(), Some(ServiceError::DecodeFailure));
}

#[test]
fn write_keeps_again_and_tells() {
    let mut store = store_with_wallpaper();
    let told =
        gludconfig::service::write(&mut store, NAME, "wallpaper_path", Some(Data::Str("/tmp/a.png".to_string())))
            .unwrap();
    assert_eq!(told.len(), 1);
    assert!(matches!(
        &told[0],
        Notification::PropertyChanged { schema, property }
            if schema == NAME && property == "wallpaper_path"
    ));
    assert_eq!(
        read(&store, NAME, "wallpaper_path").unwrap().get_inner(),
        Some(&Data::Str("/tmp/a.png".to_string()))
    );
    let kept = decode(&store.fetch_schema(NAME.to_string()).unwrap()).unwrap();
    assert_eq!(kept.properties()[0].get_value(), Some(&Data::Str("/tmp/a.png".to_string())));
}

#[test]
fn failed_write_keeps_what_was_kept() {
    let mut store = store_with_wallpaper();
    let before = store.fetch_schema(NAME.to_string()).unwrap();
    assert_eq!(
        gludconfig::service::write(&mut store, NAME, "wallpaper_path", Some(Data::I32(500))).err(),
        Some(ServiceError::SignatureMismatch)
    );
    assert_eq!(
        gludconfig::service::write(&mut store, NAME, "scale_mode", Some(Data::U32(1))).err(),
        Some(ServiceError::NotWritable)
    );
    assert_eq!(
        gludconfig::service::write(&mut store, NAME, "some_property", Some(Data::from_texts(vec!["bar".to_string()])))
            .err(),
        Some(ServiceError::NotFoundInChoices)
    );
    assert_eq!(
        gludconfig::service::write(&mut store, NAME, "nothing", None).err(),
        Some(ServiceError::PropertyNotFound)
    );
    assert_eq!(store.fetch_schema(NAME.to_string()).unwrap(), before);
}

#[test]
fn reset_keeps_again_whatever_the_answer() {
    let mut store = store_with_wallpaper();
    gludconfig::service::write(&mut store, NAME, "wallpaper_path", Some(Data::Str("/tmp/a.png".to_string()))).unwrap();
    let (done, told) = reset(&mut store, NAME, "wallpaper_path").unwrap();
    assert!(done);
    assert_eq!(told.len(), 1);
    assert_eq!(
        read(&store, NAME, "wallpaper_path").unwrap().get_inner(),
        Some(&Data::Str("/usr/share/desktop/ui/defaults/wallpaper.svg".to_string()))
    );
    let (done, told) = reset(&mut store, NAME, "scale_mode").unwrap();
    assert!(!done);
    assert!(told.is_empty());
    assert_eq!(
        reset(&mut store, NAME, "nothing").err(),
        Some(ServiceError::PropertyNotFound)
    );
}

#[test]
fn reset_all_over_the_store() {
    let mut store = store_with_wallpaper();
    gludconfig::service::write(&mut store, NAME, "wallpaper_path", Some(Data::Str("/tmp/a.png".to_string()))).unwrap();
    let (all, told) = reset_all(&mut store, NAME).unwrap();
    assert!(!all);
    assert_eq!(told.len(), 2);
    assert!(matches!(
        &told[0],
        Notification::PropertyChanged { property, .. } if property == "wallpaper_path"
    ));
    assert!(matches!(
        &told[1],
        Notification::PropertyChanged { property, .. } if property == "some_property"
    ));
    assert_eq!(
        read(&store, NAME, "wallpaper_path").unwrap().get_inner(),
        Some(&Data::Str("/usr/share/desktop/ui/defaults/wallpaper.svg".to_string()))
    );
}

#[test]
fn metadata_and_invoke_over_the_store() {
    let store = store_with_wallpaper();
    let info = metadata(&store, NAME, "scale_mode").unwrap();
    assert_eq!(info.name, "scale_mode");
    assert!(!info.writable);
    assert_eq!(info.signature.as_str(), "u");
    assert!(info.current.is_null());

    let payload = Data::Structure(vec![Data::I32(5), Data::I32(3)]);
    let told = invoke(&store, NAME, "tulip", payload.clone()).unwrap();
    assert_eq!(told.len(), 1);
    assert!(matches!(
        &told[0],
        Notification::TriggerInvoked { schema, trigger, value }
            if schema == NAME && trigger == "tulip" && value == &payload
    ));
    assert_eq!(
        invoke(&store, NAME, "tulip", Data::I32(5)).err(),
        Some(ServiceError::SignatureMismatch)
    );
    assert_eq!(
        invoke(&store, NAME, "rose", Data::I32(5)).err(),
        Some(ServiceError::TriggerNotFound)
    );
}

#[test]
fn list_over_the_store() {
    let mut store = store_with_wallpaper();
    let other = Schema::builder().name("org.other".to_string()).version(3).build().unwrap();
    register(&mut store, &encode(&other)).unwrap();
    let infos = list(&store).unwrap();
    assert_eq!(infos.len(), 2);
    assert_eq!(infos[0].name, NAME);
    assert_eq!(infos[0].version, 1);
    assert_eq!(infos[0].triggers, vec!["tulip".to_string()]);
    assert_eq!(infos[1].name, "org.other");
    assert_eq!(infos[1].version, 3);
}

#[test]
fn persist_replaces_only_what_is_kept() {
    let mut store = MemoryStore::new();
    let schema = wallpaper::schema().unwrap();
    assert_eq!(persist(&mut store, &schema), Ok(()));
    assert_eq!(store.fetch_all(), Ok(vec![]));
    store.new_schema(NAME.to_string(), vec![]).unwrap();
    assert_eq!(persist(&mut store, &schema), Ok(()));
    assert_eq!(store.fetch_schema(NAME.to_string()), Ok(encode(&schema)));
}

#[test]
fn failures_of_the_store_become_failures_of_requests() {
    assert_eq!(from_store(StoreError::NotFound), ServiceError::SchemaNotFound);
    assert_eq!(from_store(StoreError::AlreadyExists), ServiceError::DuplicateSchema);
    assert_eq!(from_store(StoreError::Failed), ServiceError::StoreFailure);
}
