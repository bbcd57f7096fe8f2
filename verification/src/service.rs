use crate::data::Data;
use crate::protocol::{
    after_reset, after_write, all_reset, all_writable, changed, changes_of, info_of,
    invoke_failure, listed, notification_views, property_named, read_outcome, schema_info_views,
    stored_bytes, write_failure, Notification, NotificationView, PropertyInfo, SchemaInfo,
    ServiceError,
};
use crate::schema::{has_property, Schema, SchemaView};
use crate::schema_codec::{decode, decoded, enc_schema, encode};
use crate::storage_backend::{shows, StorageBackend, StoreError};
use crate::value::{payload_of, Value, ValueView};
use vstd::prelude::*;

verus! {

/// The failure of a request that a failure of the store stands for.
pub open spec fn store_failure(error: StoreError) -> ServiceError {
    match error {
        StoreError::NotFound => ServiceError::SchemaNotFound,
        StoreError::AlreadyExists => ServiceError::DuplicateSchema,
        StoreError::Failed => ServiceError::StoreFailure,
    }
}

/// Tells a failure of the store as the failure of a request.
pub fn from_store(error: StoreError) -> (failure: ServiceError)
    ensures
        failure == store_failure(error),
{
    match error {
        StoreError::NotFound => ServiceError::SchemaNotFound,
        StoreError::AlreadyExists => ServiceError::DuplicateSchema,
        StoreError::Failed => ServiceError::StoreFailure,
    }
}

/// The schema that is kept under `name`, where something is kept there and
/// decodes.
pub open spec fn kept_schema(contents: Map<Seq<char>, Seq<u8>>, name: Seq<char>) -> Option<
    SchemaView,
> {
    if contents.contains_key(name) {
        decoded(contents[name])
    } else {
        None
    }
}

/// The contents once `s` has been kept again under its own name: a store
/// replaces what it keeps under a name, and does nothing for a name that it
/// does not keep.
pub open spec fn kept_again(contents: Map<Seq<char>, Seq<u8>>, s: SchemaView) -> Map<
    Seq<char>,
    Seq<u8>,
> {
    if contents.contains_key(s.name) {
        contents.insert(s.name, enc_schema(s))
    } else {
        contents
    }
}

/// Whether a request for `name` may fail with `failure` before the schema is
/// in hand: the failure says truly what is kept under the name.
pub open spec fn load_failure_holds(
    contents: Map<Seq<char>, Seq<u8>>,
    name: Seq<char>,
    failure: ServiceError,
) -> bool {
    match failure {
        ServiceError::SchemaNotFound => !contents.contains_key(name),
        ServiceError::DecodeFailure => contents.contains_key(name) && decoded(contents[name])
            is None,
        ServiceError::StoreFailure => true,
        _ => false,
    }
}

/// Fetches and decodes the schema called `name`.
pub fn load<S: StorageBackend>(store: &S, name: &str) -> (answer: Result<Schema, ServiceError>)
    requires
        store.wf(),
    ensures
        answer matches Ok(schema) ==> kept_schema(store.contents(), name@) == Some(schema@)
            && schema.wf(),
        answer matches Err(failure) ==> load_failure_holds(store.contents(), name@, failure),
{
    match store.fetch_schema(String::from_str(name)) {
        Ok(bytes) => match decode(bytes.as_slice()) {
            Some(schema) => Ok(schema),
            None => Err(ServiceError::DecodeFailure),
        },
        Err(error) => match error {
            StoreError::NotFound => Err(ServiceError::SchemaNotFound),
            _ => Err(ServiceError::StoreFailure),
        },
    }
}

/// Keeps `schema` again under its own name.
pub fn persist<S: StorageBackend>(store: &mut S, schema: &Schema) -> (answer: Result<
    (),
    ServiceError,
>)
    requires
        old(store).wf(),
    ensures
        final(store).wf(),
        answer is Ok ==> final(store).contents() == kept_again(old(store).contents(), schema@),
        answer matches Err(failure) ==> failure == ServiceError::StoreFailure && final(store).contents() == old(store).contents(),
{
    let bytes = encode(schema);
    match store.update_schema(String::from_str(schema.name()), bytes) {
        Ok(()) => Ok(()),
        Err(_) => Err(ServiceError::StoreFailure),
    }
}

/// Serves `read`: the current value of a property of a stored schema.
pub fn read<S: StorageBackend>(store: &S, schema: &str, property: &str) -> (answer: Result<
    Value,
    ServiceError,
>)
    requires
        store.wf(),
    ensures
        answer matches Ok(value) ==> (kept_schema(store.contents(), schema@) matches Some(s)
            && read_outcome(s, property@) == Ok::<ValueView, ServiceError>(value@)),
        answer matches Err(failure) ==> load_failure_holds(store.contents(), schema@, failure) || (
        kept_schema(store.contents(), schema@) matches Some(s) && read_outcome(s, property@)
            == Err::<ValueView, ServiceError>(failure)),
{
    let loaded = match load(store, schema) {
        Ok(loaded) => loaded,
        Err(failure) => {
            return Err(failure);
        },
    };
    crate::protocol::read(&loaded, property)
}

/// Serves `write`: on success the schema is kept again and the change is
/// handed back to be published; on failure the store holds what it held.
///
/// The schema is fetched, changed and kept again in three steps, with no lock
/// around them.
pub fn write<S: StorageBackend>(
    store: &mut S,
    schema: &str,
    property: &str,
    payload: Option<Data>,
) -> (answer: Result<Vec<Notification>, ServiceError>)
    requires
        old(store).wf(),
    ensures
        final(store).wf(),
        answer matches Ok(notifications) ==> (kept_schema(
            old(store).contents(),
            schema@,
        ) matches Some(s) && write_failure(s, property@, payload_of(payload)) is None
            && final(store).contents() == kept_again(
            old(store).contents(),
            after_write(s, property@, payload_of(payload)),
        ) && notification_views(notifications@) == seq![changed(s.name, property@)]),
        answer matches Err(failure) ==> final(store).contents() == old(store).contents() && (
        load_failure_holds(old(store).contents(), schema@, failure) || (kept_schema(
            old(store).contents(),
            schema@,
        ) matches Some(s) && write_failure(s, property@, payload_of(payload)) == Some(failure))),
{
    let mut loaded = match load(store, schema) {
        Ok(loaded) => loaded,
        Err(failure) => {
            return Err(failure);
        },
    };
    let effects = match crate::protocol::write(&mut loaded, property, payload) {
        Ok(effects) => effects,
        Err(failure) => {
            return Err(failure);
        },
    };
    match persist(store, &loaded) {
        Ok(()) => Ok(effects.notifications),
        Err(failure) => Err(failure),
    }
}

/// Serves `reset`: the schema is kept again whatever the property answered,
/// and a change is handed back only where it answered `true`.
pub fn reset<S: StorageBackend>(store: &mut S, schema: &str, property: &str) -> (answer: Result<
    (bool, Vec<Notification>),
    ServiceError,
>)
    requires
        old(store).wf(),
    ensures
        final(store).wf(),
        answer matches Ok((done, notifications)) ==> (kept_schema(
            old(store).contents(),
            schema@,
        ) matches Some(s) && has_property(s.properties, property@) && done == property_named(
            s,
            property@,
        ).writable && final(store).contents() == kept_again(
            old(store).contents(),
            after_reset(s, property@),
        ) && notification_views(notifications@) == (if done {
            seq![changed(s.name, property@)]
        } else {
            Seq::empty()
        })),
        answer matches Err(failure) ==> final(store).contents() == old(store).contents() && (
        load_failure_holds(old(store).contents(), schema@, failure) || (kept_schema(
            old(store).contents(),
            schema@,
        ) matches Some(s) && !has_property(s.properties, property@) && failure
            == ServiceError::PropertyNotFound)),
{
    let mut loaded = match load(store, schema) {
        Ok(loaded) => loaded,
        Err(failure) => {
            return Err(failure);
        },
    };
    let (done, effects) = match crate::protocol::reset(&mut loaded, property) {
        Ok(outcome) => outcome,
        Err(failure) => {
            return Err(failure);
        },
    };
    match persist(store, &loaded) {
        Ok(()) => Ok((done, effects.notifications)),
        Err(failure) => Err(failure),
    }
}

/// Serves `resetAll`: every property is reset in order, the schema is kept
/// again once, and one change is handed back for each writable property.
pub fn reset_all<S: StorageBackend>(store: &mut S, schema: &str) -> (answer: Result<
    (bool, Vec<Notification>),
    ServiceError,
>)
    requires
        old(store).wf(),
    ensures
        final(store).wf(),
        answer matches Ok((all, notifications)) ==> (kept_schema(
            old(store).contents(),
            schema@,
        ) matches Some(s) && all == all_writable(s.properties) && final(store).contents()
            == kept_again(
            old(store).contents(),
            SchemaView { properties: all_reset(s.properties), ..s },
        ) && notification_views(notifications@) == changes_of(s.name, s.properties)),
        answer matches Err(failure) ==> final(store).contents() == old(store).contents()
            && load_failure_holds(old(store).contents(), schema@, failure),
{
    let mut loaded = match load(store, schema) {
        Ok(loaded) => loaded,
        Err(failure) => {
            return Err(failure);
        },
    };
    let (all, effects) = crate::protocol::reset_all(&mut loaded);
    match persist(store, &loaded) {
        Ok(()) => Ok((all, effects.notifications)),
        Err(failure) => Err(failure),
    }
}

/// Serves `metadata`: what is told of a property of a stored schema.
pub fn metadata<S: StorageBackend>(store: &S, schema: &str, property: &str) -> (answer: Result<
    PropertyInfo,
    ServiceError,
>)
    requires
        store.wf(),
    ensures
        answer matches Ok(info) ==> (kept_schema(store.contents(), schema@) matches Some(s)
            && has_property(s.properties, property@) && info@ == info_of(
            property_named(s, property@),
        )),
        answer matches Err(failure) ==> load_failure_holds(store.contents(), schema@, failure) || (
        kept_schema(store.contents(), schema@) matches Some(s) && !has_property(
            s.properties,
            property@,
        ) && failure == ServiceError::PropertyNotFound),
{
    let loaded = match load(store, schema) {
        Ok(loaded) => loaded,
        Err(failure) => {
            return Err(failure);
        },
    };
    crate::protocol::metadata(&loaded, property)
}

/// Serves `invoke`: the event to publish where the payload has the shape
/// that the trigger declares. Nothing is kept again.
pub fn invoke<S: StorageBackend>(store: &S, schema: &str, trigger: &str, value: Data) -> (answer:
    Result<Vec<Notification>, ServiceError>)
    requires
        store.wf(),
    ensures
        answer matches Ok(notifications) ==> (kept_schema(store.contents(), schema@) matches Some(s)
            && invoke_failure(s, trigger@, value@) is None && notification_views(notifications@)
            == seq![
            NotificationView::TriggerInvoked { schema: s.name, trigger: trigger@, value: value@ },
        ]),
        answer matches Err(failure) ==> load_failure_holds(store.contents(), schema@, failure) || (
        kept_schema(store.contents(), schema@) matches Some(s) && invoke_failure(
            s,
            trigger@,
            value@,
        ) == Some(failure)),
{
    let loaded = match load(store, schema) {
        Ok(loaded) => loaded,
        Err(failure) => {
            return Err(failure);
        },
    };
    match crate::protocol::invoke(&loaded, trigger, value) {
        Ok(effects) => Ok(effects.notifications),
        Err(failure) => Err(failure),
    }
}

/// Serves `register`: the schema that `bytes` decode to is kept under its
/// name, which must be new.
pub fn register<S: StorageBackend>(store: &mut S, bytes: &[u8]) -> (answer: Result<
    (),
    ServiceError,
>)
    requires
        old(store).wf(),
    ensures
        final(store).wf(),
        answer is Ok ==> (decoded(bytes@) matches Some(s) && !old(store).contents().contains_key(
            s.name,
        ) && final(store).contents() == old(store).contents().insert(s.name, enc_schema(s))),
        answer matches Err(failure) ==> final(store).contents() == old(store).contents()
            && match failure {
            ServiceError::DecodeFailure => decoded(bytes@) is None,
            ServiceError::DuplicateSchema => (decoded(bytes@) matches Some(s) && old(store).contents().contains_key(s.name)),
            ServiceError::StoreFailure => decoded(bytes@) is Some,
            _ => false,
        },
{
    let schema = match crate::protocol::register(bytes) {
        Ok(schema) => schema,
        Err(failure) => {
            return Err(failure);
        },
    };
    let encoded = encode(&schema);
    match store.new_schema(String::from_str(schema.name()), encoded) {
        Ok(()) => Ok(()),
        Err(error) => match error {
            StoreError::AlreadyExists => Err(ServiceError::DuplicateSchema),
            _ => Err(ServiceError::StoreFailure),
        },
    }
}

/// Serves `list`: what is told of every stored schema, in the order in which
/// the store gives them.
pub fn list<S: StorageBackend>(store: &S) -> (answer: Result<Vec<SchemaInfo>, ServiceError>)
    requires
        store.wf(),
    ensures
        answer matches Ok(infos) ==> exists|entries: Seq<(String, Vec<u8>)>|
            shows(entries, store.contents()) && #[trigger] listed(stored_bytes(entries)) == Some(
                schema_info_views(infos@),
            ),
        answer matches Err(failure) ==> failure == ServiceError::StoreFailure || (failure
            == ServiceError::DecodeFailure && exists|entries: Seq<(String, Vec<u8>)>|
            shows(entries, store.contents()) && #[trigger] listed(stored_bytes(entries)) is None),
{
    match store.fetch_all() {
        Ok(entries) => {
            let answer = crate::protocol::list(&entries);
            proof {
                let seen = entries@;
                if answer is Ok {
                    assert(shows(seen, store.contents()) && listed(stored_bytes(seen)) == Some(
                        schema_info_views(answer->Ok_0@),
                    ));
                } else {
                    assert(shows(seen, store.contents()) && listed(stored_bytes(seen)) is None);
                }
            }
            answer
        },
        Err(_) => Err(ServiceError::StoreFailure),
    }
}

} // verus!
