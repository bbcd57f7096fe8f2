use gludconfig::data::Data;
use gludconfig::protocol::ServiceError;
use gludconfig::schema_codec::encode;
use gludconfig::service::{invoke, list, load, metadata, persist, read, register, reset, reset_all};
use gludconfig::storage_backend::{StorageBackend, StoreError};
use gludconfig::wallpaper;

/// A store that holds one schema, answers every fetch and refuses every
/// change.
struct ReadOnly {
    name: String,
    data: Vec<u8>,
    changes: usize,
}

// The two functions that model a store exist for proofs alone: nothing that
// runs calls them.
impl StorageBackend for ReadOnly {
    fn contents(&self) -> vstd::map::Map<vstd::seq::Seq<char>, vstd::seq::Seq<u8>> {
        unreachable!()
    }

    fn wf(&self) -> bool {
        unreachable!()
    }

    fn new_schema(&mut self, _name: String, _data: Vec<u8>) -> Result<(), StoreError> {
        self.changes += 1;
        Err(StoreError::Failed)
    }

    fn update_schema(&mut self, _name: String, _data: Vec<u8>) -> Result<(), StoreError> {
        self.changes += 1;
        Err(StoreError::Failed)
    }

    fn delete_schema(&mut self, _name: String) -> Result<(), StoreError> {
        self.changes += 1;
        Err(StoreError::Failed)
    }

    fn fetch_all(&self) -> Result<Vec<(String, Vec<u8>)>, StoreError> {
        Ok(vec![(self.name.clone(), self.data.clone())])
    }

    fn fetch_schema(&self, name: String) -> Result<Vec<u8>, StoreError> {
        if name == self.name {
            Ok(self.data.clone())
        } else {
            Err(StoreError::NotFound)
        }
    }
}

/// A store that cannot be reached at all.
struct Unreachable;

impl StorageBackend for Unreachable {
    fn contents(&self) -> vstd::map::Map<vstd::seq::Seq<char>, vstd::seq::Seq<u8>> {
        unreachable!()
    }

    fn wf(&self) -> bool {
        unreachable!()
    }

    fn new_schema(&mut self, _name: String, _data: Vec<u8>) -> Result<(), StoreError> {
        Err(StoreError::Failed)
    }

    fn update_schema(&mut self, _name: String, _data: Vec<u8>) -> Result<(), StoreError> {
        Err(StoreError::Failed)
    }

    fn delete_schema(&mut self, _name: String) -> Result<(), StoreError> {
        Err(StoreError::Failed)
    }

    fn fetch_all(&self) -> Result<Vec<(String, Vec<u8>)>, StoreError> {
        Err(StoreError::Failed)
    }

    fn fetch_schema(&self, _name: String) -> Result<Vec<u8>, StoreError> {
        Err(StoreError::Failed)
    }
}

const NAME: &str = "org.desktop.ui.wallpaper";

fn read_only() -> ReadOnly {
    ReadOnly { name: NAME.to_string(), data: encode(&wallpaper::schema().unwrap()), changes: 0 }
}

#[test]
fn reads_need_no_change() {
    let store = read_only();
    assert!(load(&store, NAME).is_ok());
    assert!(read(&store, NAME, "wallpaper_path").is_ok());
    assert!(metadata(&store, NAME, "wallpaper_path").is_ok());
    assert!(invoke(&store, NAME, "tulip", Data::Structure(vec![Data::I32(1), Data::I32(2)]))
        .is_ok());
    assert_eq!(list(&store).unwrap().len(), 1);
    assert_eq!(store.changes, 0);
}

#[test]
fn a_change_that_cannot_be_kept_fails_and_tells_nothing() {
    let mut store = read_only();
    let path = Some(Data::Str("/tmp/a.png".to_string()));
    assert_eq!(
        gludconfig::service::write(&mut store, NAME, "wallpaper_path", path).err(),
        Some(ServiceError::StoreFailure)
    );
    assert_eq!(store.changes, 1);
    assert_eq!(
        reset(&mut store, NAME, "wallpaper_path").err(),
        Some(ServiceError::StoreFailure)
    );
    assert_eq!(reset(&mut store, NAME, "scale_mode").err(), Some(ServiceError::StoreFailure));
    assert_eq!(reset_all(&mut store, NAME).err(), Some(ServiceError::StoreFailure));
    assert_eq!(store.changes, 4);
    assert_eq!(
        persist(&mut store, &wallpaper::schema().unwrap()),
        Err(ServiceError::StoreFailure)
    );
    assert_eq!(
        register(&mut store, &encode(&wallpaper::schema().unwrap())),
        Err(ServiceError::StoreFailure)
    );
    assert_eq!(store.data, encode(&wallpaper::schema().unwrap()));
}

#[test]
fn a_request_that_is_refused_reaches_no_store() {
    let mut store = read_only();
    assert_eq!(
        gludconfig::service::write(&mut store, NAME, "wallpaper_path", Some(Data::I32(5))).err(),
        Some(ServiceError::SignatureMismatch)
    );
    assert_eq!(
        gludconfig::service::write(&mut store, NAME, "nothing", None).err(),
        Some(ServiceError::PropertyNotFound)
    );
    assert_eq!(reset(&mut store, NAME, "nothing").err(), Some(ServiceError::PropertyNotFound));
    assert_eq!(register(&mut store, &[1, 2, 3]), Err(ServiceError::DecodeFailure));
    assert_eq!(store.changes, 0);
}

#[test]
fn an_unreachable_store_fails_every_request() {
    let mut store = Unreachable;
    assert_eq!(load(&store, NAME).err(), Some(ServiceError::StoreFailure));
    assert_eq!(read(&store, NAME, "wallpaper_path").err(), Some(ServiceError::StoreFailure));
    assert_eq!(metadata(&store, NAME, "wallpaper_path").err(), Some(ServiceError::StoreFailure));
    assert_eq!(invoke(&store, NAME, "tulip", Data::U8(1)).err(), Some(ServiceError::StoreFailure));
    assert_eq!(list(&store).err(), Some(ServiceError::StoreFailure));
    assert_eq!(
        gludconfig::service::write(&mut store, NAME, "wallpaper_path", None).err(),
        Some(ServiceError::StoreFailure)
    );
    assert_eq!(reset(&mut store, NAME, "wallpaper_path").err(), Some(ServiceError::StoreFailure));
    assert_eq!(reset_all(&mut store, NAME).err(), Some(ServiceError::StoreFailure));
    assert_eq!(
        register(&mut store, &encode(&wallpaper::schema().unwrap())),
        Err(ServiceError::StoreFailure)
    );
}
