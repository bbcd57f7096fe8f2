use crate::data::{Data, DataView};
use crate::error::{Error, PropertyError, ValueError, ZbusError};
use crate::property::PropertyView;
use crate::schema::{
    has_property, has_trigger, lemma_has_first_property, lemma_property_position,
    property_position,
    property_views, trigger_position, trigger_views, Schema, SchemaView,
};
use crate::schema_codec::{decode, decoded};
use crate::signature::TypeSignature;
use crate::text::same_text;
use crate::value::{payload_of, Nullable, Value, ValueView};
use vstd::prelude::*;

verus! {

/// Why a request was not served.
#[derive(Debug, Clone, Copy, PartialEq, Eq, Structural)]
pub enum ServiceError {
    SchemaNotFound,
    PropertyNotFound,
    TriggerNotFound,
    SignatureMismatch,
    NotWritable,
    NotFoundInChoices,
    InvalidSignature,
    MissingField,
    DuplicateSchema,
    DecodeFailure,
    StoreFailure,
}

impl ServiceError {
    /// The failure of a request that a failure of the data model stands for.
    pub open spec fn of(error: Error) -> ServiceError {
        match error {
            Error::Value(ValueError::SignatureNotMatched) => ServiceError::SignatureMismatch,
            Error::Property(PropertyError::NotFoundInChoices) => ServiceError::NotFoundInChoices,
            Error::Property(PropertyError::InvalidSignature) => ServiceError::InvalidSignature,
            Error::Property(PropertyError::NotWritable) => ServiceError::NotWritable,
            Error::Builder(_) => ServiceError::MissingField,
        }
    }

    /// Tells a failure of the data model as the failure of a request.
    pub fn from_error(error: Error) -> (failure: ServiceError)
        ensures
            failure == ServiceError::of(error),
    {
        match error {
            Error::Value(ValueError::SignatureNotMatched) => ServiceError::SignatureMismatch,
            Error::Property(PropertyError::NotFoundInChoices) => ServiceError::NotFoundInChoices,
            Error::Property(PropertyError::InvalidSignature) => ServiceError::InvalidSignature,
            Error::Property(PropertyError::NotWritable) => ServiceError::NotWritable,
            Error::Builder(_) => ServiceError::MissingField,
        }
    }
}

/// What a client is told of a failed request for `item` of the schema
/// `schema`.
pub open spec fn failure_text(failure: ServiceError, schema: &str, item: &str) -> Seq<char> {
    match failure {
        ServiceError::SchemaNotFound => ZbusError::SchemaNotFound(schema).text(),
        ServiceError::PropertyNotFound => ZbusError::PropertyNotFound(schema, item).text(),
        ServiceError::TriggerNotFound => ZbusError::TriggerNotFound(schema, item).text(),
        ServiceError::SignatureMismatch => ValueError::SignatureNotMatched.text(),
        ServiceError::NotWritable => PropertyError::NotWritable.text(),
        ServiceError::NotFoundInChoices => PropertyError::NotFoundInChoices.text(),
        ServiceError::InvalidSignature => PropertyError::InvalidSignature.text(),
        ServiceError::MissingField => "A required field was not set"@,
        ServiceError::DuplicateSchema => "Schema with name "@ + schema@ + " already exists"@,
        ServiceError::DecodeFailure => "The bytes do not hold a schema"@,
        ServiceError::StoreFailure => "The store failed"@,
    }
}

impl ServiceError {
    /// The message for a client whose request for `item` of the schema
    /// `schema` failed.
    pub fn message(&self, schema: &str, item: &str) -> (text: String)
        ensures
            text@ == failure_text(*self, schema, item),
    {
        match self {
            ServiceError::SchemaNotFound => ZbusError::SchemaNotFound(schema).message(),
            ServiceError::PropertyNotFound => ZbusError::PropertyNotFound(schema, item).message(),
            ServiceError::TriggerNotFound => ZbusError::TriggerNotFound(schema, item).message(),
            ServiceError::SignatureMismatch => ValueError::SignatureNotMatched.message(),
            ServiceError::NotWritable => PropertyError::NotWritable.message(),
            ServiceError::NotFoundInChoices => PropertyError::NotFoundInChoices.message(),
            ServiceError::InvalidSignature => PropertyError::InvalidSignature.message(),
            ServiceError::MissingField => String::from_str("A required field was not set"),
            ServiceError::DuplicateSchema => {
                let mut text = String::from_str("Schema with name ");
                text.append(schema);
                text.append(" already exists");
                text
            },
            ServiceError::DecodeFailure => String::from_str("The bytes do not hold a schema"),
            ServiceError::StoreFailure => String::from_str("The store failed"),
        }
    }
}

/// An event for the subscribers of one topic: a schema's name and the name of
/// one of its properties or triggers.
#[derive(Debug)]
pub enum Notification {
    PropertyChanged { schema: String, property: String },
    TriggerInvoked { schema: String, trigger: String, value: Data },
}

/// The mathematical value of a [`Notification`].
pub enum NotificationView {
    PropertyChanged { schema: Seq<char>, property: Seq<char> },
    TriggerInvoked { schema: Seq<char>, trigger: Seq<char>, value: DataView },
}

impl View for Notification {
    type V = NotificationView;

    open spec fn view(&self) -> NotificationView {
        match self {
            Notification::PropertyChanged { schema, property } => NotificationView::PropertyChanged {
                schema: schema@,
                property: property@,
            },
            Notification::TriggerInvoked { schema, trigger, value } => NotificationView::TriggerInvoked {
                schema: schema@,
                trigger: trigger@,
                value: value@,
            },
        }
    }
}

impl Notification {
    /// The topic of this event: the name of the schema, then the name of the
    /// property or trigger. A subscriber to a topic is sent the events of
    /// that topic and no others.
    pub fn topic(&self) -> (topic: (&str, &str))
        ensures
            topic.0@ == topic_of(self@).0,
            topic.1@ == topic_of(self@).1,
    {
        match self {
            Notification::PropertyChanged { schema, property } => (
                schema.as_str(),
                property.as_str(),
            ),
            Notification::TriggerInvoked { schema, trigger, .. } => (
                schema.as_str(),
                trigger.as_str(),
            ),
        }
    }

    /// Whether this event is for the subscribers of the topic `schema`,
    /// `item`.
    pub fn concerns(&self, schema: &str, item: &str) -> (wanted: bool)
        ensures
            wanted == (topic_of(self@) == (schema@, item@)),
    {
        let (own_schema, own_item) = self.topic();
        same_text(own_schema, schema) && same_text(own_item, item)
    }
}

/// The topic of an event: the name of the schema, then the name of the
/// property or trigger.
pub open spec fn topic_of(notification: NotificationView) -> (Seq<char>, Seq<char>) {
    match notification {
        NotificationView::PropertyChanged { schema, property } => (schema, property),
        NotificationView::TriggerInvoked { schema, trigger, .. } => (schema, trigger),
    }
}

/// The values of a run of notifications, in order.
pub open spec fn notification_views(notifications: Seq<Notification>) -> Seq<NotificationView> {
    Seq::new(notifications.len(), |i: int| notifications[i]@)
}

/// What is left to do once a request has been decided: whether the schema is
/// to be kept again under its name, and the events to publish, in order.
#[derive(Debug)]
pub struct Effects {
    pub persist: bool,
    pub notifications: Vec<Notification>,
}

/// The mathematical value of an [`Effects`].
pub struct EffectsView {
    pub persist: bool,
    pub notifications: Seq<NotificationView>,
}

impl View for Effects {
    type V = EffectsView;

    open spec fn view(&self) -> EffectsView {
        EffectsView {
            persist: self.persist,
            notifications: notification_views(self.notifications@),
        }
    }
}

/// The event that tells of a change of `property` in the schema `schema`.
pub open spec fn changed(schema: Seq<char>, property: Seq<char>) -> NotificationView {
    NotificationView::PropertyChanged { schema, property }
}

/// The property of `s` that a request for `name` reaches: the first of that
/// name.
pub open spec fn property_named(s: SchemaView, name: Seq<char>) -> PropertyView {
    s.properties[property_position(s.properties, name)]
}

/// The schema `s` with `property` in the place of the property that a request
/// for `name` reaches.
pub open spec fn with_property(s: SchemaView, name: Seq<char>, property: PropertyView) -> SchemaView {
    SchemaView {
        properties: s.properties.update(property_position(s.properties, name), property),
        ..s
    }
}

/// What `read` answers.
pub open spec fn read_outcome(s: SchemaView, property: Seq<char>) -> Result<
    ValueView,
    ServiceError,
> {
    if has_property(s.properties, property) {
        Ok(property_named(s, property).current)
    } else {
        Err(ServiceError::PropertyNotFound)
    }
}

/// Why `write` refuses, if it does. The property must exist; the payload,
/// where there is one, must have the property's signature; then the
/// property's own rules decide.
pub open spec fn write_failure(
    s: SchemaView,
    property: Seq<char>,
    payload: Option<DataView>,
) -> Option<ServiceError> {
    if !has_property(s.properties, property) {
        Some(ServiceError::PropertyNotFound)
    } else {
        let p = property_named(s, property);
        if payload matches Some(d) && d.signature() != p.signature {
            Some(ServiceError::SignatureMismatch)
        } else {
            match p.write_outcome(ValueView { signature: p.signature, payload }) {
                Ok(()) => None,
                Err(error) => Some(ServiceError::of(error)),
            }
        }
    }
}

/// The schema after `write`.
pub open spec fn after_write(s: SchemaView, property: Seq<char>, payload: Option<DataView>) -> SchemaView {
    if write_failure(s, property, payload) is None {
        let p = property_named(s, property);
        with_property(
            s,
            property,
            p.with_current(ValueView { signature: p.signature, payload }),
        )
    } else {
        s
    }
}

/// Reads the current value of the property called `property`.
pub fn read(schema: &Schema, property: &str) -> (answer: Result<Value, ServiceError>)
    ensures
        answer is Ok <==> has_property(schema@.properties, property@),
        answer matches Ok(value) ==> Ok::<ValueView, ServiceError>(value@) == read_outcome(
            schema@,
            property@,
        ),
        answer matches Err(failure) ==> failure == ServiceError::PropertyNotFound,
{
    match schema.find_property(property) {
        Some(index) => {
            let value = schema.properties()[index].current().clone();
            Ok(value)
        },
        None => Err(ServiceError::PropertyNotFound),
    }
}

/// Writes `payload`, or null where there is none, to the property called
/// `property`.
///
/// On success the schema is to be kept again and one change is to be
/// published; on failure nothing changes and nothing is left to do.
pub fn write(schema: &mut Schema, property: &str, payload: Option<Data>) -> (answer: Result<
    Effects,
    ServiceError,
>)
    ensures
        answer is Ok <==> write_failure(old(schema)@, property@, payload_of(payload)) is None,
        answer matches Err(failure) ==> Some(failure) == write_failure(
            old(schema)@,
            property@,
            payload_of(payload),
        ),
        answer matches Ok(effects) ==> effects@ == (EffectsView {
            persist: true,
            notifications: seq![changed(old(schema)@.name, property@)],
        }),
        final(schema)@ == after_write(old(schema)@, property@, payload_of(payload)),
        old(schema).wf() ==> final(schema).wf(),
{
    let index = match schema.find_property(property) {
        Some(index) => index,
        None => {
            return Err(ServiceError::PropertyNotFound);
        },
    };
    let signature = schema.properties()[index].signature();
    let value = match Value::new(payload, signature) {
        Ok(value) => value,
        Err(_) => {
            return Err(ServiceError::SignatureMismatch);
        },
    };
    let target = schema.properties_mut(index);
    let written = target.set_value(value);
    match written {
        Ok(()) => {
            let notification = Notification::PropertyChanged {
                schema: String::from_str(schema.name()),
                property: String::from_str(property),
            };
            let mut notifications: Vec<Notification> = Vec::new();
            notifications.push(notification);
            let effects = Effects { persist: true, notifications };
            proof {
                assert(effects@.notifications =~= seq![changed(old(schema)@.name, property@)]);
                lemma_replaced_keeps_wf(
                    old(schema)@,
                    property_position(old(schema)@.properties, property@),
                    schema@.properties[property_position(old(schema)@.properties, property@)],
                );
            }
            Ok(effects)
        },
        Err(error) => {
            assert(schema@.properties =~= old(schema)@.properties);
            Err(ServiceError::from_error(error))
        },
    }
}

/// A schema keeps its invariant when one property is replaced by a well
/// formed property of the same name.
pub proof fn lemma_replaced_keeps_wf(s: SchemaView, index: int, property: PropertyView)
    requires
        0 <= index < s.properties.len(),
        property.name == s.properties[index].name,
        s.wf() ==> property.wf(),
    ensures
        s.wf() ==> (SchemaView { properties: s.properties.update(index, property), ..s }).wf(),
{
    if s.wf() {
        let after = s.properties.update(index, property);
        assert forall|i: int, j: int| 0 <= i < j < after.len() implies (#[trigger] after[i]).name
            != (#[trigger] after[j]).name by {
            assert(after[i].name == s.properties[i].name);
            assert(after[j].name == s.properties[j].name);
        }
    }
}

/// Replacing the property that a name reaches by one of the same name leaves
/// that name reaching the new property.
pub proof fn lemma_property_named_after_replace(
    s: SchemaView,
    name: Seq<char>,
    property: PropertyView,
)
    requires
        has_property(s.properties, name),
        property.name == name,
    ensures
        has_property(with_property(s, name, property).properties, name),
        property_named(with_property(s, name, property), name) == property,
{
    let at = property_position(s.properties, name);
    lemma_has_first_property(s.properties, name);
    let after = with_property(s, name, property).properties;
    assert(after[at].name == name);
    assert forall|j: int| 0 <= j < at implies (#[trigger] after[j]).name != name by {
        assert(after[j] == s.properties[j]);
    }
    lemma_property_position(after, name, at);
}

/// What was written is what is read: after a write that succeeds, a read of
/// the same property answers the value that was written, under the
/// property's signature.
pub proof fn lemma_read_after_write(s: SchemaView, property: Seq<char>, payload: Option<DataView>)
    requires
        write_failure(s, property, payload) is None,
    ensures
        read_outcome(after_write(s, property, payload), property) == Ok::<ValueView, ServiceError>(
            ValueView { signature: property_named(s, property).signature, payload },
        ),
{
    let p = property_named(s, property);
    lemma_has_first_property(s.properties, property);
    lemma_property_named_after_replace(
        s,
        property,
        p.with_current(ValueView { signature: p.signature, payload }),
    );
}

/// A write that fails changes nothing: a read answers what it answered
/// before.
pub proof fn lemma_read_after_failed_write(
    s: SchemaView,
    property: Seq<char>,
    payload: Option<DataView>,
    other: Seq<char>,
)
    requires
        write_failure(s, property, payload) is Some,
    ensures
        read_outcome(after_write(s, property, payload), other) == read_outcome(s, other),
{
}

/// After a reset of a writable property, a read answers its default value;
/// after a reset of another, what it answered before.
pub proof fn lemma_read_after_reset(s: SchemaView, property: Seq<char>)
    requires
        has_property(s.properties, property),
    ensures
        read_outcome(after_reset(s, property), property) == Ok::<ValueView, ServiceError>(
            if property_named(s, property).writable {
                property_named(s, property).default
            } else {
                property_named(s, property).current
            },
        ),
{
    let p = property_named(s, property);
    lemma_has_first_property(s.properties, property);
    lemma_property_named_after_replace(s, property, p.after_reset());
}

/// The schema after `reset`.
pub open spec fn after_reset(s: SchemaView, property: Seq<char>) -> SchemaView {
    if has_property(s.properties, property) {
        with_property(s, property, property_named(s, property).after_reset())
    } else {
        s
    }
}

/// Resets the property called `property` to its default value.
///
/// The answer says whether the property is writable, and no more. The schema
/// is to be kept again whatever the answer; a change is to be published only
/// where the answer is `true`.
pub fn reset(schema: &mut Schema, property: &str) -> (answer: Result<(bool, Effects), ServiceError>)
    ensures
        answer is Ok <==> has_property(old(schema)@.properties, property@),
        answer matches Err(failure) ==> failure == ServiceError::PropertyNotFound,
        answer matches Ok((done, effects)) ==> done == property_named(
            old(schema)@,
            property@,
        ).writable && effects@ == (EffectsView {
            persist: true,
            notifications: if done {
                seq![changed(old(schema)@.name, property@)]
            } else {
                Seq::empty()
            },
        }),
        final(schema)@ == after_reset(old(schema)@, property@),
        old(schema).wf() ==> final(schema).wf(),
{
    let index = match schema.find_property(property) {
        Some(index) => index,
        None => {
            return Err(ServiceError::PropertyNotFound);
        },
    };
    let target = schema.properties_mut(index);
    let done = target.reset();
    let mut notifications: Vec<Notification> = Vec::new();
    if done {
        notifications.push(
            Notification::PropertyChanged {
                schema: String::from_str(schema.name()),
                property: String::from_str(property),
            },
        );
    }
    let effects = Effects { persist: true, notifications };
    proof {
        if done {
            assert(effects@.notifications =~= seq![changed(old(schema)@.name, property@)]);
        } else {
            assert(effects@.notifications =~= Seq::empty());
        }
        lemma_replaced_keeps_wf(
            old(schema)@,
            index as int,
            old(schema)@.properties[index as int].after_reset(),
        );
    }
    Ok((done, effects))
}

/// Each property of the run after its reset.
pub open spec fn all_reset(properties: Seq<PropertyView>) -> Seq<PropertyView> {
    Seq::new(properties.len(), |i: int| properties[i].after_reset())
}

/// Whether every property of the run is writable.
pub open spec fn all_writable(properties: Seq<PropertyView>) -> bool {
    forall|i: int| 0 <= i < properties.len() ==> (#[trigger] properties[i]).writable
}

/// One change for each writable property of the run, in the order of the run.
pub open spec fn changes_of(schema: Seq<char>, properties: Seq<PropertyView>) -> Seq<
    NotificationView,
>
    decreases properties.len(),
{
    if properties.len() == 0 {
        Seq::empty()
    } else {
        changes_of(schema, properties.drop_last()) + (if properties.last().writable {
            seq![changed(schema, properties.last().name)]
        } else {
            Seq::empty()
        })
    }
}

/// Resets every property of the schema, in order.
///
/// The answer is `true` exactly when every property is writable. The schema
/// is to be kept again once, and one change is to be published for each
/// property that is writable, in the order of the properties.
pub fn reset_all(schema: &mut Schema) -> (answer: (bool, Effects))
    ensures
        answer.0 == all_writable(old(schema)@.properties),
        answer.1@ == (EffectsView {
            persist: true,
            notifications: changes_of(old(schema)@.name, old(schema)@.properties),
        }),
        final(schema)@ == (SchemaView {
            properties: all_reset(old(schema)@.properties),
            ..old(schema)@
        }),
        old(schema).wf() ==> final(schema).wf(),
{
    let ghost before = schema@;
    let count = schema.properties().len();
    let mut all = true;
    let mut notifications: Vec<Notification> = Vec::new();
    let mut i: usize = 0;
    assert(before.properties.take(0) =~= Seq::<PropertyView>::empty());
    assert(notification_views(notifications@) =~= Seq::<NotificationView>::empty());
    while i < count
        invariant
            i <= count,
            count == before.properties.len(),
            before == old(schema)@,
            schema@.name == before.name,
            schema@.version == before.version,
            schema@.triggers == before.triggers,
            schema@.properties.len() == count,
            forall|j: int| 0 <= j < i ==> schema@.properties[j] == before.properties[j].after_reset(),
            forall|j: int| i <= j < count ==> schema@.properties[j] == before.properties[j],
            all == all_writable(before.properties.take(i as int)),
            notification_views(notifications@) == changes_of(
                before.name,
                before.properties.take(i as int),
            ),
        decreases count - i,
    {
        let ghost sent = notification_views(notifications@);
        let target = schema.properties_mut(i);
        let done = target.reset();
        assert(schema@.properties[i as int] == before.properties[i as int].after_reset());
        if done {
            let properties = schema.properties();
            assert(property_views(properties@).len() == properties@.len());
            assert(property_views(properties@)[i as int] == properties@[i as int]@);
            let name = String::from_str(properties[i].name());
            notifications.push(
                Notification::PropertyChanged { schema: String::from_str(schema.name()), property: name },
            );
        } else {
            all = false;
        }
        proof {
            let upto = before.properties.take(i + 1);
            assert(upto.drop_last() =~= before.properties.take(i as int));
            assert(upto.last() == before.properties[i as int]);
            if done {
                assert(notification_views(notifications@) =~= sent + seq![
                    changed(before.name, before.properties[i as int].name),
                ]);
            } else {
                assert(notification_views(notifications@) =~= sent + Seq::<
                    NotificationView,
                >::empty());
            }
            if all {
                assert forall|j: int| 0 <= j < upto.len() implies (#[trigger] upto[j]).writable by {
                    if j < i {
                        assert(before.properties.take(i as int)[j].writable);
                    }
                }
            } else {
                if done {
                    let k = choose|k: int|
                        0 <= k < i && !(#[trigger] before.properties.take(i as int)[k]).writable;
                    assert(!upto[k].writable);
                } else {
                    assert(!upto[i as int].writable);
                }
            }
        }
        i += 1;
    }
    proof {
        assert(before.properties.take(i as int) =~= before.properties);
        assert(schema@.properties =~= all_reset(before.properties));
        if old(schema).wf() {
            let after = schema@.properties;
            assert forall|a: int, b: int| 0 <= a < b < after.len() implies (#[trigger] after[a]).name
                != (#[trigger] after[b]).name by {
                assert(after[a].name == before.properties[a].name);
                assert(after[b].name == before.properties[b].name);
            }
            assert forall|a: int| 0 <= a < after.len() implies (#[trigger] after[a]).wf() by {
                assert(before.properties[a].wf());
            }
        }
    }
    (all, Effects { persist: true, notifications })
}

/// What a settings panel is told of a property. Nothing is kept again and
/// nothing is published for it.
#[derive(Debug)]
pub struct PropertyInfo {
    pub writable: bool,
    pub name: String,
    pub description: String,
    pub summary: String,
    pub show_in_settings: bool,
    pub signature: TypeSignature,
    pub current: Nullable,
}

/// The mathematical value of a [`PropertyInfo`].
pub struct PropertyInfoView {
    pub writable: bool,
    pub name: Seq<char>,
    pub description: Seq<char>,
    pub summary: Seq<char>,
    pub show_in_settings: bool,
    pub signature: Seq<char>,
    pub current: Option<DataView>,
}

impl View for PropertyInfo {
    type V = PropertyInfoView;

    open spec fn view(&self) -> PropertyInfoView {
        PropertyInfoView {
            writable: self.writable,
            name: self.name@,
            description: self.description@,
            summary: self.summary@,
            show_in_settings: self.show_in_settings,
            signature: self.signature@,
            current: self.current@,
        }
    }
}

/// What is told of the property `p`.
pub open spec fn info_of(p: PropertyView) -> PropertyInfoView {
    PropertyInfoView {
        writable: p.writable,
        name: p.name,
        description: p.long_about,
        summary: p.about,
        show_in_settings: p.show_in_settings,
        signature: p.signature,
        current: p.current.payload,
    }
}

/// Describes the property called `property`.
pub fn metadata(schema: &Schema, property: &str) -> (answer: Result<PropertyInfo, ServiceError>)
    ensures
        answer is Ok <==> has_property(schema@.properties, property@),
        answer matches Ok(info) ==> info@ == info_of(property_named(schema@, property@)),
        answer matches Err(failure) ==> failure == ServiceError::PropertyNotFound,
{
    match schema.find_property(property) {
        Some(index) => {
            let found = &schema.properties()[index];
            Ok(
                PropertyInfo {
                    writable: found.is_writable(),
                    name: String::from_str(found.name()),
                    description: String::from_str(found.long_about()),
                    summary: String::from_str(found.about()),
                    show_in_settings: found.show_in_settings(),
                    signature: found.signature(),
                    current: found.current().clone().into_nullable(),
                },
            )
        },
        None => Err(ServiceError::PropertyNotFound),
    }
}

/// What is told of a trigger.
#[derive(Debug)]
pub struct TriggerInfo {
    pub name: String,
    pub signature: TypeSignature,
}

/// Describes the trigger called `trigger`.
pub fn trigger_metadata(schema: &Schema, trigger: &str) -> (answer: Result<
    TriggerInfo,
    ServiceError,
>)
    ensures
        answer is Ok <==> has_trigger(schema@.triggers, trigger@),
        answer matches Ok(info) ==> info.name@ == trigger@ && info.signature@
            == schema@.triggers[trigger_position(schema@.triggers, trigger@)].signature,
        answer matches Err(failure) ==> failure == ServiceError::TriggerNotFound,
{
    match schema.find_trigger(trigger) {
        Some(index) => {
            let found = &schema.triggers()[index];
            Ok(TriggerInfo { name: String::from_str(found.name()), signature: found.signature() })
        },
        None => Err(ServiceError::TriggerNotFound),
    }
}

/// The values of a run of texts, in order.
pub open spec fn text_views(texts: Seq<String>) -> Seq<Seq<char>> {
    Seq::new(texts.len(), |i: int| texts[i]@)
}

/// What is told of a schema: its name, its version, and the names of its
/// triggers and of its properties, in order.
#[derive(Debug)]
pub struct SchemaInfo {
    pub name: String,
    pub version: u32,
    pub triggers: Vec<String>,
    pub properties: Vec<String>,
}

/// The mathematical value of a [`SchemaInfo`].
pub struct SchemaInfoView {
    pub name: Seq<char>,
    pub version: u32,
    pub triggers: Seq<Seq<char>>,
    pub properties: Seq<Seq<char>>,
}

impl View for SchemaInfo {
    type V = SchemaInfoView;

    open spec fn view(&self) -> SchemaInfoView {
        SchemaInfoView {
            name: self.name@,
            version: self.version,
            triggers: text_views(self.triggers@),
            properties: text_views(self.properties@),
        }
    }
}

/// What is told of the schema `s`.
pub open spec fn schema_info_of(s: SchemaView) -> SchemaInfoView {
    SchemaInfoView {
        name: s.name,
        version: s.version,
        triggers: Seq::new(s.triggers.len(), |i: int| s.triggers[i].name),
        properties: Seq::new(s.properties.len(), |i: int| s.properties[i].name),
    }
}

/// Describes a schema.
pub fn schema_metadata(schema: &Schema) -> (info: SchemaInfo)
    ensures
        info@ == schema_info_of(schema@),
{
    let triggers = schema.triggers();
    let mut trigger_names: Vec<String> = Vec::new();
    let mut i: usize = 0;
    while i < triggers.len()
        invariant
            i <= triggers.len(),
            trigger_names@.len() == i,
            forall|j: int| 0 <= j < i ==> trigger_names@[j]@ == triggers@[j]@.name,
        decreases triggers.len() - i,
    {
        trigger_names.push(String::from_str(triggers[i].name()));
        i += 1;
    }
    let properties = schema.properties();
    let mut property_names: Vec<String> = Vec::new();
    let mut k: usize = 0;
    while k < properties.len()
        invariant
            k <= properties.len(),
            property_names@.len() == k,
            forall|j: int| 0 <= j < k ==> property_names@[j]@ == properties@[j]@.name,
        decreases properties.len() - k,
    {
        property_names.push(String::from_str(properties[k].name()));
        k += 1;
    }
    let info = SchemaInfo {
        name: String::from_str(schema.name()),
        version: schema.version(),
        triggers: trigger_names,
        properties: property_names,
    };
    proof {
        assert(trigger_views(triggers@).len() == triggers@.len());
        assert(property_views(properties@).len() == properties@.len());
        assert forall|j: int| 0 <= j < triggers@.len() implies info@.triggers[j]
            == schema@.triggers[j].name by {
            assert(trigger_views(triggers@)[j] == triggers@[j]@);
        }
        assert forall|j: int| 0 <= j < properties@.len() implies info@.properties[j]
            == schema@.properties[j].name by {
            assert(property_views(properties@)[j] == properties@[j]@);
        }
        assert(info@.triggers =~= schema_info_of(schema@).triggers);
        assert(info@.properties =~= schema_info_of(schema@).properties);
    }
    info
}

/// What `invoke` answers: the trigger must exist, and the payload must have
/// exactly its signature.
pub open spec fn invoke_failure(s: SchemaView, trigger: Seq<char>, value: DataView) -> Option<
    ServiceError,
> {
    if !has_trigger(s.triggers, trigger) {
        Some(ServiceError::TriggerNotFound)
    } else if value.signature() != s.triggers[trigger_position(s.triggers, trigger)].signature {
        Some(ServiceError::SignatureMismatch)
    } else {
        None
    }
}

/// Invokes the trigger called `trigger` with the payload `value`.
///
/// On success one event is to be published, which carries the payload;
/// nothing is kept again, as a trigger has no state.
pub fn invoke(schema: &Schema, trigger: &str, value: Data) -> (answer: Result<Effects, ServiceError>)
    ensures
        answer is Ok <==> invoke_failure(schema@, trigger@, value@) is None,
        answer matches Err(failure) ==> Some(failure) == invoke_failure(schema@, trigger@, value@),
        answer matches Ok(effects) ==> effects@ == (EffectsView {
            persist: false,
            notifications: seq![
                NotificationView::TriggerInvoked {
                    schema: schema@.name,
                    trigger: trigger@,
                    value: value@,
                },
            ],
        }),
{
    let index = match schema.find_trigger(trigger) {
        Some(index) => index,
        None => {
            return Err(ServiceError::TriggerNotFound);
        },
    };
    let found = &schema.triggers()[index];
    if !found.matches(&value) {
        return Err(ServiceError::SignatureMismatch);
    }
    let notification = Notification::TriggerInvoked {
        schema: String::from_str(schema.name()),
        trigger: String::from_str(found.name()),
        value,
    };
    let mut notifications: Vec<Notification> = Vec::new();
    notifications.push(notification);
    let effects = Effects { persist: false, notifications };
    assert(effects@.notifications =~= seq![
        NotificationView::TriggerInvoked { schema: schema@.name, trigger: trigger@, value: value@ },
    ]);
    Ok(effects)
}

/// Decodes a schema that asks to be registered.
///
/// The store decides afterwards whether the name is taken.
pub fn register(bytes: &[u8]) -> (answer: Result<Schema, ServiceError>)
    ensures
        answer is Ok <==> decoded(bytes@) is Some,
        answer matches Ok(schema) ==> Some(schema@) == decoded(bytes@) && schema.wf(),
        answer matches Err(failure) ==> failure == ServiceError::DecodeFailure,
{
    match decode(bytes) {
        Some(schema) => Ok(schema),
        None => Err(ServiceError::DecodeFailure),
    }
}

/// The schemas that a run of stored entries stands for, where each of them
/// decodes.
pub open spec fn listed(entries: Seq<Seq<u8>>) -> Option<Seq<SchemaInfoView>>
    decreases entries.len(),
{
    if entries.len() == 0 {
        Some(Seq::empty())
    } else {
        match (listed(entries.drop_last()), decoded(entries.last())) {
            (Some(infos), Some(schema)) => Some(infos.push(schema_info_of(schema))),
            _ => None,
        }
    }
}

/// The bytes of a run of stored entries, in order.
pub open spec fn stored_bytes(entries: Seq<(String, Vec<u8>)>) -> Seq<Seq<u8>> {
    Seq::new(entries.len(), |i: int| entries[i].1@)
}

/// The values of a run of schema descriptions, in order.
pub open spec fn schema_info_views(infos: Seq<SchemaInfo>) -> Seq<SchemaInfoView> {
    Seq::new(infos.len(), |i: int| infos[i]@)
}

/// Describes every stored schema, in the order in which the store gave them.
/// One entry that does not decode fails the whole request.
pub fn list(entries: &Vec<(String, Vec<u8>)>) -> (answer: Result<Vec<SchemaInfo>, ServiceError>)
    ensures
        answer is Ok <==> listed(stored_bytes(entries@)) is Some,
        answer matches Ok(infos) ==> Some(schema_info_views(infos@)) == listed(
            stored_bytes(entries@),
        ),
        answer matches Err(failure) ==> failure == ServiceError::DecodeFailure,
{
    let mut infos: Vec<SchemaInfo> = Vec::new();
    let mut i: usize = 0;
    let ghost all = stored_bytes(entries@);
    assert(all.take(0) =~= Seq::<Seq<u8>>::empty());
    assert(schema_info_views(infos@) =~= Seq::<SchemaInfoView>::empty());
    while i < entries.len()
        invariant
            i <= entries.len(),
            all == stored_bytes(entries@),
            listed(all.take(i as int)) == Some(schema_info_views(infos@)),
        decreases entries.len() - i,
    {
        let ghost before = schema_info_views(infos@);
        proof {
            assert(all.take(i + 1).drop_last() =~= all.take(i as int));
            assert(all.take(i + 1).last() == entries@[i as int].1@);
        }
        match decode(entries[i].1.as_slice()) {
            Some(schema) => {
                infos.push(schema_metadata(&schema));
                assert(schema_info_views(infos@) =~= before.push(schema_info_of(schema@)));
            },
            None => {
                proof {
                    lemma_listed_prefix(all, i + 1);
                }
                return Err(ServiceError::DecodeFailure);
            },
        }
        i += 1;
    }
    assert(all.take(i as int) =~= all);
    Ok(infos)
}

/// Where the front of a run does not decode, the run does not.
pub proof fn lemma_listed_prefix(entries: Seq<Seq<u8>>, n: int)
    requires
        0 <= n <= entries.len(),
        listed(entries.take(n)) is None,
    ensures
        listed(entries) is None,
    decreases entries.len() - n,
{
    if n < entries.len() {
        assert(entries.take(n + 1).drop_last() =~= entries.take(n));
        lemma_listed_prefix(entries, n + 1);
    } else {
        assert(entries.take(n) =~= entries);
    }
}

} // verus!
