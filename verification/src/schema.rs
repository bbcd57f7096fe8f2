use crate::error::{BuilderError, Error};
use crate::property::{Property, PropertyView};
use crate::text::same_text;
use crate::trigger::{Trigger, TriggerView};
use vstd::prelude::*;
use vstd::std_specs::cmp::PartialEqSpecImpl;

verus! {

/// The values of a run of properties, in order.
pub open spec fn property_views(properties: Seq<Property>) -> Seq<PropertyView> {
    Seq::new(properties.len(), |i: int| properties[i]@)
}

/// The values of a run of triggers, in order.
pub open spec fn trigger_views(triggers: Seq<Trigger>) -> Seq<TriggerView> {
    Seq::new(triggers.len(), |i: int| triggers[i]@)
}

/// Whether some property of the run is called `name`.
pub open spec fn has_property(properties: Seq<PropertyView>, name: Seq<char>) -> bool {
    exists|i: int| 0 <= i < properties.len() && (#[trigger] properties[i]).name == name
}

/// Whether some trigger of the run is called `name`.
pub open spec fn has_trigger(triggers: Seq<TriggerView>, name: Seq<char>) -> bool {
    exists|i: int| 0 <= i < triggers.len() && (#[trigger] triggers[i]).name == name
}

/// Whether `i` is the first place of the run with a property called `name`.
pub open spec fn is_first_property(properties: Seq<PropertyView>, name: Seq<char>, i: int) -> bool {
    &&& 0 <= i < properties.len()
    &&& properties[i].name == name
    &&& forall|j: int| 0 <= j < i ==> (#[trigger] properties[j]).name != name
}

/// Whether `i` is the first place of the run with a trigger called `name`.
pub open spec fn is_first_trigger(triggers: Seq<TriggerView>, name: Seq<char>, i: int) -> bool {
    &&& 0 <= i < triggers.len()
    &&& triggers[i].name == name
    &&& forall|j: int| 0 <= j < i ==> (#[trigger] triggers[j]).name != name
}

/// The first place of the run with a property called `name`, where there is
/// one.
pub open spec fn property_position(properties: Seq<PropertyView>, name: Seq<char>) -> int {
    choose|i: int| is_first_property(properties, name, i)
}

/// The first place of the run with a trigger called `name`, where there is
/// one.
pub open spec fn trigger_position(triggers: Seq<TriggerView>, name: Seq<char>) -> int {
    choose|i: int| is_first_trigger(triggers, name, i)
}

/// There is one first place at most.
pub proof fn lemma_property_position(properties: Seq<PropertyView>, name: Seq<char>, i: int)
    requires
        is_first_property(properties, name, i),
    ensures
        property_position(properties, name) == i,
        has_property(properties, name),
{
    let chosen = property_position(properties, name);
    assert(is_first_property(properties, name, chosen));
    if chosen < i {
        assert(properties[chosen].name != name);
    } else if i < chosen {
        assert(properties[i].name != name);
    }
}

/// There is one first place at most.
pub proof fn lemma_trigger_position(triggers: Seq<TriggerView>, name: Seq<char>, i: int)
    requires
        is_first_trigger(triggers, name, i),
    ensures
        trigger_position(triggers, name) == i,
        has_trigger(triggers, name),
{
    let chosen = trigger_position(triggers, name);
    assert(is_first_trigger(triggers, name, chosen));
    if chosen < i {
        assert(triggers[chosen].name != name);
    } else if i < chosen {
        assert(triggers[i].name != name);
    }
}

/// At or before a place with the name there is a first place with it.
proof fn lemma_first_property_before(properties: Seq<PropertyView>, name: Seq<char>, at: int)
    requires
        0 <= at < properties.len(),
        properties[at].name == name,
    ensures
        exists|first: int| is_first_property(properties, name, first),
    decreases at,
{
    if exists|earlier: int| 0 <= earlier < at && (#[trigger] properties[earlier]).name == name {
        let earlier = choose|earlier: int|
            0 <= earlier < at && (#[trigger] properties[earlier]).name == name;
        lemma_first_property_before(properties, name, earlier);
    } else {
        assert(is_first_property(properties, name, at));
    }
}

/// Where some property has the name, the position of the name is its first
/// place.
pub proof fn lemma_has_first_property(properties: Seq<PropertyView>, name: Seq<char>)
    requires
        has_property(properties, name),
    ensures
        is_first_property(properties, name, property_position(properties, name)),
{
    let at = choose|i: int| 0 <= i < properties.len() && (#[trigger] properties[i]).name == name;
    lemma_first_property_before(properties, name, at);
}

/// At or before a place with the name there is a first place with it.
proof fn lemma_first_trigger_before(triggers: Seq<TriggerView>, name: Seq<char>, at: int)
    requires
        0 <= at < triggers.len(),
        triggers[at].name == name,
    ensures
        exists|first: int| is_first_trigger(triggers, name, first),
    decreases at,
{
    if exists|earlier: int| 0 <= earlier < at && (#[trigger] triggers[earlier]).name == name {
        let earlier = choose|earlier: int|
            0 <= earlier < at && (#[trigger] triggers[earlier]).name == name;
        lemma_first_trigger_before(triggers, name, earlier);
    } else {
        assert(is_first_trigger(triggers, name, at));
    }
}

/// Where some trigger has the name, the position of the name is its first
/// place.
pub proof fn lemma_has_first_trigger(triggers: Seq<TriggerView>, name: Seq<char>)
    requires
        has_trigger(triggers, name),
    ensures
        is_first_trigger(triggers, name, trigger_position(triggers, name)),
{
    let at = choose|i: int| 0 <= i < triggers.len() && (#[trigger] triggers[i]).name == name;
    lemma_first_trigger_before(triggers, name, at);
}

/// No two properties of the run have the same name.
pub open spec fn distinct_properties(properties: Seq<PropertyView>) -> bool {
    forall|i: int, j: int|
        0 <= i < j < properties.len() ==> (#[trigger] properties[i]).name != (
        #[trigger] properties[j]).name
}

/// No two triggers of the run have the same name.
pub open spec fn distinct_triggers(triggers: Seq<TriggerView>) -> bool {
    forall|i: int, j: int|
        0 <= i < j < triggers.len() ==> (#[trigger] triggers[i]).name != (
        #[trigger] triggers[j]).name
}

/// The mathematical value of a [`Schema`].
pub struct SchemaView {
    pub name: Seq<char>,
    pub version: u32,
    pub properties: Seq<PropertyView>,
    pub triggers: Seq<TriggerView>,
}

impl SchemaView {
    /// The invariant of a schema: each property is well formed, and within
    /// the schema a name stands for one property and for one trigger.
    pub open spec fn wf(self) -> bool {
        &&& forall|i: int| 0 <= i < self.properties.len() ==> (#[trigger] self.properties[i]).wf()
        &&& distinct_properties(self.properties)
        &&& distinct_triggers(self.triggers)
    }
}

/// A named, versioned bundle of properties and triggers.
#[derive(Debug)]
pub struct Schema {
    name: String,
    version: u32,
    properties: Vec<Property>,
    triggers: Vec<Trigger>,
}

impl View for Schema {
    type V = SchemaView;

    closed spec fn view(&self) -> SchemaView {
        SchemaView {
            name: self.name@,
            version: self.version,
            properties: property_views(self.properties@),
            triggers: trigger_views(self.triggers@),
        }
    }
}

impl Schema {
    /// The invariant of a schema, which `build` establishes.
    pub open spec fn wf(&self) -> bool {
        self@.wf()
    }

    /// The name: the identity of a schema.
    pub fn name(&self) -> (name: &str)
        ensures
            name@ == self@.name,
    {
        self.name.as_str()
    }

    /// The version.
    pub fn version(&self) -> (version: u32)
        ensures
            version == self@.version,
    {
        self.version
    }

    /// The triggers, in the order in which they were added.
    pub fn triggers(&self) -> (triggers: &Vec<Trigger>)
        ensures
            trigger_views(triggers@) == self@.triggers,
    {
        &self.triggers
    }

    /// The properties, in the order in which they were added.
    pub fn properties(&self) -> (properties: &Vec<Property>)
        ensures
            property_views(properties@) == self@.properties,
    {
        &self.properties
    }

    /// The property at `index`, to be changed in place. The rest of the
    /// schema stays as it is.
    pub fn properties_mut(&mut self, index: usize) -> (property: &mut Property)
        requires
            index < old(self)@.properties.len(),
        ensures
            property@ == old(self)@.properties[index as int],
            final(self)@ == (SchemaView {
                properties: old(self)@.properties.update(index as int, final(property)@),
                ..old(self)@
            }),
    {
        proof {
            assert forall|next: Property|
                property_views(self.properties@.update(index as int, next)) == property_views(
                    self.properties@,
                ).update(index as int, next@) by {
                assert(property_views(self.properties@.update(index as int, next))
                    =~= property_views(self.properties@).update(index as int, next@));
            }
        }
        &mut self.properties[index]
    }

    /// The trigger at `index`, to be changed in place. The rest of the schema
    /// stays as it is.
    pub fn triggers_mut(&mut self, index: usize) -> (trigger: &mut Trigger)
        requires
            index < old(self)@.triggers.len(),
        ensures
            trigger@ == old(self)@.triggers[index as int],
            final(self)@ == (SchemaView {
                triggers: old(self)@.triggers.update(index as int, final(trigger)@),
                ..old(self)@
            }),
    {
        proof {
            assert forall|next: Trigger|
                trigger_views(self.triggers@.update(index as int, next)) == trigger_views(
                    self.triggers@,
                ).update(index as int, next@) by {
                assert(trigger_views(self.triggers@.update(index as int, next)) =~= trigger_views(
                    self.triggers@,
                ).update(index as int, next@));
            }
        }
        &mut self.triggers[index]
    }

    /// Gives up everything but the triggers.
    pub fn into_triggers(self) -> (triggers: Vec<Trigger>)
        ensures
            trigger_views(triggers@) == self@.triggers,
    {
        self.triggers
    }

    /// Gives up everything but the properties.
    pub fn into_properties(self) -> (properties: Vec<Property>)
        ensures
            property_views(properties@) == self@.properties,
    {
        self.properties
    }

    /// Where the property called `name` stands: the first place with that
    /// name, or nothing if no property has it.
    pub fn find_property(&self, name: &str) -> (found: Option<usize>)
        ensures
            found is Some <==> has_property(self@.properties, name@),
            found matches Some(index) ==> is_first_property(self@.properties, name@, index as int)
                && index == property_position(self@.properties, name@),
    {
        find_property_in(&self.properties, name)
    }

    /// Where the trigger called `name` stands: the first place with that
    /// name, or nothing if no trigger has it.
    pub fn find_trigger(&self, name: &str) -> (found: Option<usize>)
        ensures
            found is Some <==> has_trigger(self@.triggers, name@),
            found matches Some(index) ==> is_first_trigger(self@.triggers, name@, index as int)
                && index == trigger_position(self@.triggers, name@),
    {
        find_trigger_in(&self.triggers, name)
    }
}

/// Linear search for the first property called `name`.
pub fn find_property_in(properties: &Vec<Property>, name: &str) -> (found: Option<usize>)
    ensures
        found is Some <==> has_property(property_views(properties@), name@),
        found matches Some(index) ==> is_first_property(
            property_views(properties@),
            name@,
            index as int,
        ) && index == property_position(property_views(properties@), name@),
{
    let mut i: usize = 0;
    while i < properties.len()
        invariant
            i <= properties.len(),
            forall|j: int| 0 <= j < i ==> properties@[j]@.name != name@,
        decreases properties.len() - i,
    {
        if same_text(properties[i].name(), name) {
            proof {
                let views = property_views(properties@);
                assert(views[i as int].name == name@);
                assert forall|j: int| 0 <= j < i implies (#[trigger] views[j]).name != name@ by {
                    assert(properties@[j]@.name != name@);
                }
                lemma_property_position(views, name@, i as int);
            }
            return Some(i);
        }
        i += 1;
    }
    None
}

/// Linear search for the first trigger called `name`.
pub fn find_trigger_in(triggers: &Vec<Trigger>, name: &str) -> (found: Option<usize>)
    ensures
        found is Some <==> has_trigger(trigger_views(triggers@), name@),
        found matches Some(index) ==> is_first_trigger(trigger_views(triggers@), name@, index as int)
            && index == trigger_position(trigger_views(triggers@), name@),
{
    let mut i: usize = 0;
    while i < triggers.len()
        invariant
            i <= triggers.len(),
            forall|j: int| 0 <= j < i ==> triggers@[j]@.name != name@,
        decreases triggers.len() - i,
    {
        if same_text(triggers[i].name(), name) {
            proof {
                let views = trigger_views(triggers@);
                assert(views[i as int].name == name@);
                assert forall|j: int| 0 <= j < i implies (#[trigger] views[j]).name != name@ by {
                    assert(triggers@[j]@.name != name@);
                }
                lemma_trigger_position(views, name@, i as int);
            }
            return Some(i);
        }
        i += 1;
    }
    None
}

/// Whether no two properties of `properties` have the same name.
pub fn distinct_property_names(properties: &Vec<Property>) -> (distinct: bool)
    ensures
        distinct == distinct_properties(property_views(properties@)),
{
    let mut j: usize = 0;
    while j < properties.len()
        invariant
            j <= properties.len(),
            forall|a: int, b: int| 0 <= a < b < j ==> properties@[a]@.name != properties@[b]@.name,
        decreases properties.len() - j,
    {
        let mut i: usize = 0;
        while i < j
            invariant
                i <= j,
                j < properties.len(),
                forall|a: int| 0 <= a < i ==> properties@[a]@.name != properties@[j as int]@.name,
            decreases j - i,
        {
            if same_text(properties[i].name(), properties[j].name()) {
                assert(property_views(properties@)[i as int].name == property_views(
                    properties@,
                )[j as int].name);
                return false;
            }
            i += 1;
        }
        j += 1;
    }
    true
}

/// Whether no two triggers of `triggers` have the same name.
pub fn distinct_trigger_names(triggers: &Vec<Trigger>) -> (distinct: bool)
    ensures
        distinct == distinct_triggers(trigger_views(triggers@)),
{
    let mut j: usize = 0;
    while j < triggers.len()
        invariant
            j <= triggers.len(),
            forall|a: int, b: int| 0 <= a < b < j ==> triggers@[a]@.name != triggers@[b]@.name,
        decreases triggers.len() - j,
    {
        let mut i: usize = 0;
        while i < j
            invariant
                i <= j,
                j < triggers.len(),
                forall|a: int| 0 <= a < i ==> triggers@[a]@.name != triggers@[j as int]@.name,
            decreases j - i,
        {
            if same_text(triggers[i].name(), triggers[j].name()) {
                assert(trigger_views(triggers@)[i as int].name == trigger_views(
                    triggers@,
                )[j as int].name);
                return false;
            }
            i += 1;
        }
        j += 1;
    }
    true
}

/// Two schemas are the same schema when they have the same name; what they
/// hold is no part of their identity.
impl PartialEq for Schema {
    fn eq(&self, other: &Schema) -> (same: bool) {
        self.name == other.name
    }
}

impl PartialEqSpecImpl for Schema {
    open spec fn obeys_eq_spec() -> bool {
        true
    }

    open spec fn eq_spec(&self, other: &Schema) -> bool {
        self@.name == other@.name
    }
}

/// The mathematical value of a [`SchemaBuilder`]: what has been set so far.
pub struct SchemaBuilderView {
    pub triggers: Seq<TriggerView>,
    pub name: Option<Seq<char>>,
    pub version: Option<u32>,
    pub properties: Seq<PropertyView>,
}

impl SchemaBuilderView {
    /// A builder in which nothing has been set.
    pub open spec fn empty() -> SchemaBuilderView {
        SchemaBuilderView {
            triggers: Seq::empty(),
            name: None,
            version: None,
            properties: Seq::empty(),
        }
    }

    /// No name was added twice, and each property is well formed.
    pub open spec fn wf(self) -> bool {
        &&& forall|i: int| 0 <= i < self.properties.len() ==> (#[trigger] self.properties[i]).wf()
        &&& distinct_properties(self.properties)
        &&& distinct_triggers(self.triggers)
    }

    /// The error that `build` answers with, if any: the name is asked for
    /// first, then the version.
    pub open spec fn failure(self) -> Option<Error> {
        if self.name is None {
            Some(Error::Builder(BuilderError::UnwrapFailed("name", "SchemaBuilder")))
        } else if self.version is None {
            Some(Error::Builder(BuilderError::UnwrapFailed("version", "SchemaBuilder")))
        } else {
            None
        }
    }

    /// The schema that `build` makes where the name and the version are set.
    pub open spec fn product(self) -> SchemaView {
        SchemaView {
            name: self.name.unwrap(),
            version: self.version.unwrap(),
            properties: self.properties,
            triggers: self.triggers,
        }
    }
}

/// Collects the parts of a schema.
pub struct SchemaBuilder {
    triggers: Vec<Trigger>,
    name: Option<String>,
    version: Option<u32>,
    properties: Vec<Property>,
}

impl View for SchemaBuilder {
    type V = SchemaBuilderView;

    closed spec fn view(&self) -> SchemaBuilderView {
        SchemaBuilderView {
            triggers: trigger_views(self.triggers@),
            name: crate::property::optional_text_view(self.name),
            version: self.version,
            properties: property_views(self.properties@),
        }
    }
}

impl Default for SchemaBuilder {
    fn default() -> (builder: SchemaBuilder)
        ensures
            builder@ == SchemaBuilderView::empty(),
    {
        let builder = SchemaBuilder {
            triggers: Vec::new(),
            name: None,
            version: None,
            properties: Vec::new(),
        };
        assert(builder@.triggers =~= Seq::empty());
        assert(builder@.properties =~= Seq::empty());
        builder
    }
}

impl SchemaBuilder {
    /// Sets the version.
    pub fn version(self, version: u32) -> (builder: SchemaBuilder)
        ensures
            builder@ == (SchemaBuilderView { version: Some(version), ..self@ }),
    {
        let mut builder = self;
        builder.version = Some(version);
        builder
    }

    /// Sets the name.
    pub fn name(self, name: String) -> (builder: SchemaBuilder)
        ensures
            builder@ == (SchemaBuilderView { name: Some(name@), ..self@ }),
    {
        let mut builder = self;
        builder.name = Some(name);
        builder
    }

    /// Whether a property called `name` has been added.
    pub fn has_property(&self, name: &str) -> (present: bool)
        ensures
            present == has_property(self@.properties, name@),
    {
        find_property_in(&self.properties, name).is_some()
    }

    /// Whether a trigger called `name` has been added.
    pub fn has_trigger(&self, name: &str) -> (present: bool)
        ensures
            present == has_trigger(self@.triggers, name@),
    {
        find_trigger_in(&self.triggers, name).is_some()
    }

    /// Adds a trigger after those that are there.
    ///
    /// A schema is put together once, by its author: to add a name twice is
    /// a mistake of the program, and is not allowed.
    pub fn trigger(self, trigger: Trigger) -> (builder: SchemaBuilder)
        requires
            !has_trigger(self@.triggers, trigger@.name),
        ensures
            builder@ == (SchemaBuilderView { triggers: self@.triggers.push(trigger@), ..self@ }),
            self@.wf() ==> builder@.wf(),
    {
        let mut builder = self;
        builder.triggers.push(trigger);
        assert(trigger_views(builder.triggers@) =~= trigger_views(self.triggers@).push(trigger@));
        builder
    }

    /// Adds a property after those that are there.
    ///
    /// A schema is put together once, by its author: to add a name twice is
    /// a mistake of the program, and is not allowed.
    pub fn property(self, property: Property) -> (builder: SchemaBuilder)
        requires
            !has_property(self@.properties, property@.name),
        ensures
            builder@ == (SchemaBuilderView {
                properties: self@.properties.push(property@),
                ..self@
            }),
            self@.wf() && property.wf() ==> builder@.wf(),
    {
        let mut builder = self;
        builder.properties.push(property);
        assert(property_views(builder.properties@) =~= property_views(self.properties@).push(
            property@,
        ));
        builder
    }

    /// Adds several properties, in their order, as `property` would one by
    /// one: none may bring a name that is there already.
    pub fn properties(self, properties: Vec<Property>) -> (builder: SchemaBuilder)
        requires
            forall|i: int|
                0 <= i < properties.len() ==> !has_property(
                    self@.properties + property_views(properties@).take(i),
                    (#[trigger] properties[i])@.name,
                ),
        ensures
            builder@ == (SchemaBuilderView {
                properties: self@.properties + property_views(properties@),
                ..self@
            }),
            self@.wf() && (forall|i: int|
                0 <= i < properties.len() ==> (#[trigger] properties[i]).wf()) ==> builder@.wf(),
    {
        let mut builder = self;
        let mut more = properties;
        builder.properties.append(&mut more);
        proof {
            let old_views = property_views(self.properties@);
            let new_views = property_views(properties@);
            let all = old_views + new_views;
            assert(property_views(builder.properties@) =~= all);
            if self@.wf() && (forall|i: int|
                0 <= i < properties.len() ==> (#[trigger] properties[i]).wf()) {
                assert forall|i: int, j: int| 0 <= i < j < all.len() implies (#[trigger] all[i]).name
                    != (#[trigger] all[j]).name by {
                    if j >= old_views.len() {
                        let k = j - old_views.len();
                        let before = old_views + new_views.take(k);
                        assert(before[i] == all[i]);
                        assert(properties[k]@ == all[j]);
                    }
                }
                assert forall|i: int| 0 <= i < all.len() implies (#[trigger] all[i]).wf() by {
                    if i >= old_views.len() {
                        assert(properties[i - old_views.len()].wf());
                    }
                }
            }
        }
        builder
    }

    /// Adds several triggers, in their order, as `trigger` would one by one:
    /// none may bring a name that is there already.
    pub fn triggers(self, triggers: Vec<Trigger>) -> (builder: SchemaBuilder)
        requires
            forall|i: int|
                0 <= i < triggers.len() ==> !has_trigger(
                    self@.triggers + trigger_views(triggers@).take(i),
                    (#[trigger] triggers[i])@.name,
                ),
        ensures
            builder@ == (SchemaBuilderView {
                triggers: self@.triggers + trigger_views(triggers@),
                ..self@
            }),
            self@.wf() ==> builder@.wf(),
    {
        let mut builder = self;
        let mut more = triggers;
        builder.triggers.append(&mut more);
        proof {
            let old_views = trigger_views(self.triggers@);
            let new_views = trigger_views(triggers@);
            let all = old_views + new_views;
            assert(trigger_views(builder.triggers@) =~= all);
            if self@.wf() {
                assert forall|i: int, j: int| 0 <= i < j < all.len() implies (#[trigger] all[i]).name
                    != (#[trigger] all[j]).name by {
                    if j >= old_views.len() {
                        let k = j - old_views.len();
                        let before = old_views + new_views.take(k);
                        assert(before[i] == all[i]);
                        assert(triggers[k]@ == all[j]);
                    }
                }
            }
        }
        builder
    }

    /// Validates what was set and makes the schema: the name and the version
    /// are required.
    pub fn build(self) -> (built: Result<Schema, Error>)
        ensures
            built is Ok <==> self@.failure() is None,
            built matches Ok(schema) ==> schema@ == self@.product() && (self@.wf()
                ==> schema.wf()),
            built matches Err(error) ==> Some(error) == self@.failure(),
    {
        let SchemaBuilder { triggers, name, version, properties } = self;
        let name = match name {
            Some(name) => name,
            None => {
                return Err(BuilderError::unwrap_failed("name", "SchemaBuilder"));
            },
        };
        let version = match version {
            Some(version) => version,
            None => {
                return Err(BuilderError::unwrap_failed("version", "SchemaBuilder"));
            },
        };
        Ok(Schema { version, triggers, name, properties })
    }
}

impl Schema {
    /// Starts a schema from nothing.
    pub fn builder() -> (builder: SchemaBuilder)
        ensures
            builder@ == SchemaBuilderView::empty(),
    {
        SchemaBuilder::default()
    }
}

} // verus!
