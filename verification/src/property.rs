use crate::data::Data;
use crate::error::{BuilderError, Error, PropertyError, ValueError};
use crate::payload::{payload_data, IntoData};
use crate::signature::TypeSignature;
use crate::value::{contains_value, value_views, Value, ValueView};
use vstd::prelude::*;
use vstd::std_specs::cmp::PartialEqSpecImpl;

verus! {

/// The mathematical value of a [`Property`].
pub struct PropertyView {
    pub name: Seq<char>,
    pub about: Seq<char>,
    pub long_about: Seq<char>,
    pub default: ValueView,
    pub current: ValueView,
    pub choices: Seq<ValueView>,
    pub show_in_settings: bool,
    pub writable: bool,
    pub signature: Seq<char>,
}

impl PropertyView {
    /// The invariant of a property: every value it holds is well formed and
    /// has the declared signature, and where there are choices, both the
    /// default and the current value are among them.
    pub open spec fn wf(self) -> bool {
        &&& self.default.wf()
        &&& self.current.wf()
        &&& self.default.signature == self.signature
        &&& self.current.signature == self.signature
        &&& forall|i: int|
            0 <= i < self.choices.len() ==> (#[trigger] self.choices[i]).wf()
                && self.choices[i].signature == self.signature
        &&& self.choices.len() > 0 ==> self.choices.contains(self.default)
            && self.choices.contains(self.current)
    }

    /// Whether a write of `value` is let through: the property is writable,
    /// the value has the declared signature, and it is one of the choices
    /// where there are any.
    pub open spec fn accepts(self, value: ValueView) -> bool {
        &&& self.writable
        &&& value.signature == self.signature
        &&& (self.choices.len() == 0 || self.choices.contains(value))
    }

    /// What a write of `value` answers: the first rule that it breaks, in the
    /// order writability, signature, choices.
    pub open spec fn write_outcome(self, value: ValueView) -> Result<(), Error> {
        if !self.writable {
            Err(Error::Property(PropertyError::NotWritable))
        } else if value.signature != self.signature {
            Err(Error::Value(ValueError::SignatureNotMatched))
        } else if self.choices.len() > 0 && !self.choices.contains(value) {
            Err(Error::Property(PropertyError::NotFoundInChoices))
        } else {
            Ok(())
        }
    }

    /// This property with `value` as its current value.
    pub open spec fn with_current(self, value: ValueView) -> PropertyView {
        PropertyView { current: value, ..self }
    }

    /// This property after a write of `value`.
    pub open spec fn after_write(self, value: ValueView) -> PropertyView {
        if self.accepts(value) {
            self.with_current(value)
        } else {
            self
        }
    }

    /// This property after a reset.
    pub open spec fn after_reset(self) -> PropertyView {
        if self.writable {
            self.with_current(self.default)
        } else {
            self
        }
    }
}

/// A named, typed, persistent setting.
#[derive(Debug)]
pub struct Property {
    name: String,
    about: String,
    long_about: String,
    default: Value,
    current: Value,
    choices: Vec<Value>,
    show_in_settings: bool,
    writable: bool,
    sig: TypeSignature,
}

impl View for Property {
    type V = PropertyView;

    closed spec fn view(&self) -> PropertyView {
        PropertyView {
            name: self.name@,
            about: self.about@,
            long_about: self.long_about@,
            default: self.default@,
            current: self.current@,
            choices: value_views(self.choices@),
            show_in_settings: self.show_in_settings,
            writable: self.writable,
            signature: self.sig@,
        }
    }
}

impl Property {
    /// The invariant of a property, which `build` establishes and every
    /// operation keeps.
    pub open spec fn wf(&self) -> bool {
        self@.wf()
    }

    /// The name, by which a property is known within its schema.
    pub fn name(&self) -> (name: &str)
        ensures
            name@ == self@.name,
    {
        self.name.as_str()
    }

    /// The declared signature.
    pub fn signature(&self) -> (sig: TypeSignature)
        ensures
            sig@ == self@.signature,
    {
        self.sig.clone()
    }

    /// Goes back to the default value, if the property is writable.
    ///
    /// The answer is the writable flag and nothing more: it is `true` also
    /// where the current value was the default already.
    pub fn reset(&mut self) -> (done: bool)
        ensures
            done == old(self)@.writable,
            final(self)@ == old(self)@.after_reset(),
            old(self).wf() ==> final(self).wf(),
    {
        if !self.writable {
            return false;
        }
        self.current = self.default.clone();
        true
    }

    /// The current payload, if there is one.
    pub fn get_value(&self) -> (payload: Option<&Data>)
        ensures
            crate::value::borrowed_payload_of(payload) == self@.current.payload,
    {
        self.current.get_inner()
    }

    /// The current value, with its declaration.
    pub fn current(&self) -> (value: &Value)
        ensures
            value@ == self@.current,
    {
        &self.current
    }

    /// The default value, with its declaration.
    pub fn default_value(&self) -> (value: &Value)
        ensures
            value@ == self@.default,
    {
        &self.default
    }

    /// The values that a write may choose from; any value where it is empty.
    pub fn choices(&self) -> (choices: &Vec<Value>)
        ensures
            value_views(choices@) == self@.choices,
    {
        &self.choices
    }

    /// Writes `value` as the current value, if the property lets it through.
    ///
    /// The write succeeds exactly when the property is writable, `value` has
    /// the declared signature, and `value` is one of the choices where there
    /// are any. Otherwise nothing changes, and the error names the first of
    /// these rules that was broken.
    pub fn set_value(&mut self, value: Value) -> (written: Result<(), Error>)
        ensures
            written is Ok <==> old(self)@.accepts(value@),
            written == old(self)@.write_outcome(value@),
            final(self)@ == old(self)@.after_write(value@),
            old(self).wf() && value.wf() ==> final(self).wf(),
    {
        if !self.writable {
            return Err(Error::Property(PropertyError::NotWritable));
        }
        let sig = value.signature();
        if !sig.same_as(&self.sig) {
            return Err(Error::Value(ValueError::SignatureNotMatched));
        }
        if self.choices.len() != 0 && !contains_value(&self.choices, &value) {
            return Err(Error::Property(PropertyError::NotFoundInChoices));
        }
        self.current = value;
        Ok(())
    }

    /// The one-line summary.
    pub fn about(&self) -> (about: &str)
        ensures
            about@ == self@.about,
    {
        self.about.as_str()
    }

    /// The full description.
    pub fn long_about(&self) -> (long_about: &str)
        ensures
            long_about@ == self@.long_about,
    {
        self.long_about.as_str()
    }

    /// Whether a write or a reset may change the current value.
    pub fn is_writable(&self) -> (writable: bool)
        ensures
            writable == self@.writable,
    {
        self.writable
    }

    /// Whether a settings panel should list this property.
    pub fn show_in_settings(&self) -> (shown: bool)
        ensures
            shown == self@.show_in_settings,
    {
        self.show_in_settings
    }

    /// Gives up everything but the current value.
    pub fn into_value(self) -> (value: Value)
        ensures
            value@ == self@.current,
    {
        self.current
    }
}

/// Two properties are the same property when they have the same name.
impl PartialEq for Property {
    fn eq(&self, other: &Property) -> (same: bool) {
        self.name == other.name
    }
}

impl PartialEqSpecImpl for Property {
    open spec fn obeys_eq_spec() -> bool {
        true
    }

    open spec fn eq_spec(&self, other: &Property) -> bool {
        self@.name == other@.name
    }
}

/// The mathematical value of a [`PropertyBuilder`]: what has been set so far.
pub struct PropertyBuilderView {
    pub show_in_settings: Option<bool>,
    pub writable: Option<bool>,
    pub current: Option<ValueView>,
    pub about: Option<Seq<char>>,
    pub long_about: Option<Seq<char>>,
    pub signature: Option<Seq<char>>,
    pub default: Option<ValueView>,
    pub choices: Seq<ValueView>,
    pub name: Option<Seq<char>>,
}

impl PropertyBuilderView {
    /// A builder in which nothing has been set.
    pub open spec fn empty() -> PropertyBuilderView {
        PropertyBuilderView {
            show_in_settings: None,
            writable: None,
            current: None,
            about: None,
            long_about: None,
            signature: None,
            default: None,
            choices: Seq::empty(),
            name: None,
        }
    }

    /// The default value that the property gets: the one that was set, or
    /// else the null value of the declared signature.
    pub open spec fn resolved_default(self) -> ValueView {
        match self.default {
            Some(default) => default,
            None => ValueView { signature: self.signature.unwrap(), payload: None },
        }
    }

    /// The current value that the property starts with: the one that was
    /// set, or else the default.
    pub open spec fn resolved_current(self) -> ValueView {
        match self.current {
            Some(current) => current,
            None => self.resolved_default(),
        }
    }

    /// Whether some value that was set does not have the declared signature.
    pub open spec fn signature_disagrees(self) -> bool {
        ||| self.resolved_default().signature != self.signature.unwrap()
        ||| self.resolved_current().signature != self.signature.unwrap()
        ||| exists|i: int|
            0 <= i < self.choices.len() && (#[trigger] self.choices[i]).signature
                != self.signature.unwrap()
    }

    /// Whether there are choices and the default or the current value is not
    /// one of them.
    pub open spec fn outside_choices(self) -> bool {
        self.choices.len() > 0 && (!self.choices.contains(self.resolved_default())
            || !self.choices.contains(self.resolved_current()))
    }

    /// The error that `build` answers with, if any: the first check that
    /// fails, in the order signature set, signatures agree, choices hold
    /// default and current, name set.
    pub open spec fn failure(self) -> Option<Error> {
        if self.signature is None {
            Some(Error::Builder(BuilderError::UnwrapFailed("signature", "PropertyBuilder")))
        } else if self.signature_disagrees() {
            Some(Error::Property(PropertyError::InvalidSignature))
        } else if self.outside_choices() {
            Some(Error::Property(PropertyError::NotFoundInChoices))
        } else if self.name is None {
            Some(Error::Builder(BuilderError::UnwrapFailed("name", "PropertyBuilder")))
        } else {
            None
        }
    }

    /// The property that `build` makes where no check fails.
    pub open spec fn product(self) -> PropertyView {
        PropertyView {
            name: self.name.unwrap(),
            about: match self.about {
                Some(about) => about,
                None => "No summary provided"@,
            },
            long_about: match self.long_about {
                Some(long_about) => long_about,
                None => "No description provided"@,
            },
            default: self.resolved_default(),
            current: self.resolved_current(),
            choices: self.choices,
            show_in_settings: match self.show_in_settings {
                Some(shown) => shown,
                None => true,
            },
            writable: match self.writable {
                Some(writable) => writable,
                None => true,
            },
            signature: self.signature.unwrap(),
        }
    }

    /// Every value that was handed to the builder is well formed.
    pub open spec fn values_wf(self) -> bool {
        &&& self.default matches Some(default) ==> default.wf()
        &&& self.current matches Some(current) ==> current.wf()
        &&& forall|i: int| 0 <= i < self.choices.len() ==> (#[trigger] self.choices[i]).wf()
    }
}

/// The value of an optional [`Value`].
pub open spec fn optional_value_view(value: Option<Value>) -> Option<ValueView> {
    match value {
        Some(value) => Some(value@),
        None => None,
    }
}

/// The value of an optional text.
pub open spec fn optional_text_view(text: Option<String>) -> Option<Seq<char>> {
    match text {
        Some(text) => Some(text@),
        None => None,
    }
}

/// The value of an optional signature.
pub open spec fn optional_signature_view(sig: Option<TypeSignature>) -> Option<Seq<char>> {
    match sig {
        Some(sig) => Some(sig@),
        None => None,
    }
}

/// Collects the fields of a property and validates them as a whole.
pub struct PropertyBuilder {
    show_in_settings: Option<bool>,
    writable: Option<bool>,
    current: Option<Value>,
    about: Option<String>,
    long_about: Option<String>,
    signature: Option<TypeSignature>,
    default: Option<Value>,
    choices: Vec<Value>,
    name: Option<String>,
}

impl View for PropertyBuilder {
    type V = PropertyBuilderView;

    closed spec fn view(&self) -> PropertyBuilderView {
        PropertyBuilderView {
            show_in_settings: self.show_in_settings,
            writable: self.writable,
            current: optional_value_view(self.current),
            about: optional_text_view(self.about),
            long_about: optional_text_view(self.long_about),
            signature: optional_signature_view(self.signature),
            default: optional_value_view(self.default),
            choices: value_views(self.choices@),
            name: optional_text_view(self.name),
        }
    }
}

impl PropertyBuilder {
    /// A builder in which nothing has been set.
    pub fn new() -> (builder: PropertyBuilder)
        ensures
            builder@ == PropertyBuilderView::empty(),
    {
        let builder = PropertyBuilder {
            show_in_settings: None,
            writable: None,
            current: None,
            about: None,
            long_about: None,
            signature: None,
            default: None,
            choices: Vec::new(),
            name: None,
        };
        assert(builder@.choices =~= Seq::empty());
        builder
    }
}

impl PropertyBuilder {
    /// Sets the one-line summary.
    pub fn about(self, about: String) -> (builder: PropertyBuilder)
        ensures
            builder@ == (PropertyBuilderView { about: Some(about@), ..self@ }),
    {
        let mut builder = self;
        builder.about = Some(about);
        builder
    }

    /// Sets the default value.
    pub fn default(self, default: Value) -> (builder: PropertyBuilder)
        ensures
            builder@ == (PropertyBuilderView { default: Some(default@), ..self@ }),
    {
        let mut builder = self;
        builder.default = Some(default);
        builder
    }

    /// Sets the name.
    pub fn name(self, name: String) -> (builder: PropertyBuilder)
        ensures
            builder@ == (PropertyBuilderView { name: Some(name@), ..self@ }),
    {
        let mut builder = self;
        builder.name = Some(name);
        builder
    }

    /// Adds one choice after those that are there.
    pub fn choice(self, choice: Value) -> (builder: PropertyBuilder)
        ensures
            builder@ == (PropertyBuilderView { choices: self@.choices.push(choice@), ..self@ }),
    {
        let mut builder = self;
        builder.choices.push(choice);
        assert(value_views(builder.choices@) =~= value_views(self.choices@).push(choice@));
        builder
    }

    /// Sets whether a settings panel should list the property.
    pub fn show_in_settings(self, show_in_settings: bool) -> (builder: PropertyBuilder)
        ensures
            builder@ == (PropertyBuilderView {
                show_in_settings: Some(show_in_settings),
                ..self@
            }),
    {
        let mut builder = self;
        builder.show_in_settings = Some(show_in_settings);
        builder
    }

    /// Sets whether the property can be written and reset.
    pub fn writable(self, writable: bool) -> (builder: PropertyBuilder)
        ensures
            builder@ == (PropertyBuilderView { writable: Some(writable), ..self@ }),
    {
        let mut builder = self;
        builder.writable = Some(writable);
        builder
    }

    /// Sets the value that the property starts with.
    pub fn value(self, value: Value) -> (builder: PropertyBuilder)
        ensures
            builder@ == (PropertyBuilderView { current: Some(value@), ..self@ }),
    {
        let mut builder = self;
        builder.current = Some(value);
        builder
    }

    /// Sets the full description.
    pub fn long_about(self, long_about: String) -> (builder: PropertyBuilder)
        ensures
            builder@ == (PropertyBuilderView { long_about: Some(long_about@), ..self@ }),
    {
        let mut builder = self;
        builder.long_about = Some(long_about);
        builder
    }

    /// Sets the declared signature.
    pub fn signature(self, signature: TypeSignature) -> (builder: PropertyBuilder)
        ensures
            builder@ == (PropertyBuilderView { signature: Some(signature@), ..self@ }),
    {
        let mut builder = self;
        builder.signature = Some(signature);
        builder
    }

    /// Adds several choices, in their order, after those that are there.
    pub fn choices(self, choices: Vec<Value>) -> (builder: PropertyBuilder)
        ensures
            builder@ == (PropertyBuilderView {
                choices: self@.choices + value_views(choices@),
                ..self@
            }),
    {
        let mut builder = self;
        let mut more = choices;
        builder.choices.append(&mut more);
        assert(value_views(builder.choices@) =~= value_views(self.choices@) + value_views(
            choices@,
        ));
        builder
    }

    /// Adds each payload of `choices` as a choice declared with `signature`;
    /// an absent payload adds the null value of that signature.
    ///
    /// Every payload must have the signature `signature`.
    pub fn choices_sig<T: IntoData>(self, signature: TypeSignature, choices: Vec<Option<T>>) -> (builder:
        PropertyBuilder)
        requires
            forall|i: int|
                0 <= i < choices.len() ==> ((#[trigger] choices[i]) matches Some(v)
                    ==> v.data().signature() == signature@),
        ensures
            builder@ == (PropertyBuilderView {
                choices: self@.choices + declared_views(signature@, choices@),
                ..self@
            }),
            self@.values_wf() ==> builder@.values_wf(),
    {
        let ghost all = declared_views(signature@, choices@);
        let mut builder = self;
        assert(builder@.choices =~= self@.choices + all.take(0));
        for choice in it: choices
            invariant
                it.seq() == choices@,
                all == declared_views(signature@, choices@),
                forall|i: int|
                    0 <= i < choices.len() ==> ((#[trigger] choices[i]) matches Some(v)
                        ==> v.data().signature() == signature@),
                builder@ == (PropertyBuilderView {
                    choices: self@.choices + all.take(it.index() as int),
                    ..self@
                }),
                self@.values_wf() ==> builder@.values_wf(),
        {
            let ghost i = it.index() as int;
            assert(choice == choices@[i]);
            match Value::new(choice, signature.clone()) {
                Ok(value) => {
                    builder = builder.choice(value);
                    proof {
                        assert(all.take(i + 1) =~= all.take(i).push(all[i]));
                        assert(builder@.choices =~= self@.choices + all.take(i + 1));
                    }
                },
                Err(_) => {
                    assert(false);
                },
            }
        }
        assert(all.take(choices@.len() as int) =~= all);
        builder
    }

    /// Validates what was set and makes the property.
    ///
    /// The signature and the name are required. The default value, where none
    /// was set, is the null value of the signature; the current value, where
    /// none was set, is the default. The default, the current value and every
    /// choice must have the signature, and where there are choices the default
    /// and the current value must be among them.
    pub fn build(self) -> (built: Result<Property, Error>)
        ensures
            built is Ok <==> self@.failure() is None,
            built matches Ok(property) ==> property@ == self@.product() && (self@.values_wf()
                ==> property.wf()),
            built matches Err(error) ==> Some(error) == self@.failure(),
    {
        let PropertyBuilder {
            show_in_settings,
            writable,
            current,
            about,
            long_about,
            signature,
            default,
            choices,
            name,
        } = self;
        let writable = match writable {
            Some(writable) => writable,
            None => true,
        };
        let show_in_settings = match show_in_settings {
            Some(shown) => shown,
            None => true,
        };
        let signature = match signature {
            Some(signature) => signature,
            None => {
                return Err(BuilderError::unwrap_failed("signature", "PropertyBuilder"));
            },
        };
        let default = match default {
            Some(default) => default,
            None => match Value::new::<u32>(None, signature.clone()) {
                Ok(null) => null,
                Err(error) => {
                    return Err(Error::Value(error));
                },
            },
        };
        let current = match current {
            Some(current) => current,
            None => default.clone(),
        };
        if !default.signature().same_as(&signature) {
            return Err(Error::Property(PropertyError::InvalidSignature));
        }
        if !current.signature().same_as(&signature) {
            return Err(Error::Property(PropertyError::InvalidSignature));
        }
        let mut i: usize = 0;
        while i < choices.len()
            invariant
                i <= choices.len(),
                self@.choices == value_views(choices@),
                self@.signature == Some(signature@),
                forall|j: int| 0 <= j < i ==> choices@[j]@.signature == signature@,
            decreases choices.len() - i,
        {
            if !choices[i].signature().same_as(&signature) {
                assert(self@.choices[i as int].signature != self@.signature.unwrap());
                return Err(Error::Property(PropertyError::InvalidSignature));
            }
            i += 1;
        }
        if choices.len() != 0 && (!contains_value(&choices, &default) || !contains_value(
            &choices,
            &current,
        )) {
            return Err(Error::Property(PropertyError::NotFoundInChoices));
        }
        let name = match name {
            Some(name) => name,
            None => {
                return Err(BuilderError::unwrap_failed("name", "PropertyBuilder"));
            },
        };
        let about = match about {
            Some(about) => about,
            None => String::from_str("No summary provided"),
        };
        let long_about = match long_about {
            Some(long_about) => long_about,
            None => String::from_str("No description provided"),
        };
        Ok(
            Property {
                name,
                about,
                long_about,
                default,
                current,
                choices,
                show_in_settings,
                writable,
                sig: signature,
            },
        )
    }
}

/// The values that a run of optional payloads stands for when each is
/// declared with `signature`.
pub open spec fn declared_views<T: IntoData>(signature: Seq<char>, payloads: Seq<Option<T>>) -> Seq<
    ValueView,
> {
    Seq::new(payloads.len(), |i: int| ValueView { signature, payload: payload_data(payloads[i]) })
}

impl Property {
    /// Starts a property from nothing.
    pub fn builder() -> (builder: PropertyBuilder)
        ensures
            builder@ == PropertyBuilderView::empty(),
    {
        PropertyBuilder::new()
    }
}

} // verus!
