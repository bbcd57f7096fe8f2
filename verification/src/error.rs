use vstd::prelude::*;

verus! {

/// A payload whose own signature differs from the one it was declared with.
#[derive(Debug, Clone, Copy, PartialEq, Eq, Structural)]
pub enum ValueError {
    SignatureNotMatched,
}

/// A request that names something the registry does not hold.
#[derive(Debug, Clone, Copy)]
pub enum ZbusError<'a> {
    SchemaNotFound(&'a str),
    PropertyNotFound(&'a str, &'a str),
    TriggerNotFound(&'a str, &'a str),
}

/// A failure to locate the place where schemas are kept.
#[derive(Debug, Clone, Copy)]
pub enum StorageError {
    NoHomeFound(&'static str),
}

/// A builder that was asked to build before a required field was set.
#[derive(Debug, Clone, Copy)]
pub enum BuilderError {
    UnwrapFailed(&'static str, &'static str),
}

/// A violation of a property's own rules.
#[derive(Debug, Clone, Copy, PartialEq, Eq, Structural)]
pub enum PropertyError {
    NotFoundInChoices,
    InvalidSignature,
    NotWritable,
}

/// Any failure of the data model: of a value, of a property or of a builder.
#[derive(Debug, Clone, Copy)]
pub enum Error {
    Value(ValueError),
    Property(PropertyError),
    Builder(BuilderError),
}

impl ValueError {
    /// The text of the message.
    pub open spec fn text(self) -> Seq<char> {
        "The value's signature, and Signature passed to `Value::new` dont match"@
    }

    /// The message that describes this error.
    pub fn message(&self) -> (text: String)
        ensures
            text@ == self.text(),
    {
        String::from_str("The value's signature, and Signature passed to `Value::new` dont match")
    }
}

impl<'a> ZbusError<'a> {
    /// The text of the message.
    pub open spec fn text(self) -> Seq<char> {
        match self {
            ZbusError::SchemaNotFound(schema) => "Schema with name "@ + schema@ + " not found"@,
            ZbusError::PropertyNotFound(schema, property) => "Property not found in schema "@
                + schema@ + " with name "@ + property@,
            ZbusError::TriggerNotFound(schema, trigger) => "Trigger not found in schema "@
                + schema@ + " with name "@ + trigger@,
        }
    }

    /// The message that describes this error, with the names it carries.
    pub fn message(&self) -> (text: String)
        ensures
            text@ == self.text(),
    {
        match self {
            ZbusError::SchemaNotFound(schema) => {
                let mut text = String::from_str("Schema with name ");
                text.append(schema);
                text.append(" not found");
                text
            },
            ZbusError::PropertyNotFound(schema, property) => {
                let mut text = String::from_str("Property not found in schema ");
                text.append(schema);
                text.append(" with name ");
                text.append(property);
                text
            },
            ZbusError::TriggerNotFound(schema, trigger) => {
                let mut text = String::from_str("Trigger not found in schema ");
                text.append(schema);
                text.append(" with name ");
                text.append(trigger);
                text
            },
        }
    }
}

impl StorageError {
    /// The text of the message.
    pub open spec fn text(self) -> Seq<char> {
        match self {
            StorageError::NoHomeFound(user) => "No home directory found for user "@ + user@,
        }
    }

    /// The message that describes this error.
    pub fn message(&self) -> (text: String)
        ensures
            text@ == self.text(),
    {
        match self {
            StorageError::NoHomeFound(user) => {
                let mut text = String::from_str("No home directory found for user ");
                text.append(user);
                text
            },
        }
    }
}

impl BuilderError {
    /// The text of the message.
    pub open spec fn text(self) -> Seq<char> {
        match self {
            BuilderError::UnwrapFailed(value, builder) => "The value "@ + value@
                + " was not set in builder "@ + builder@,
        }
    }

    /// The message that describes this error: the field and the builder.
    pub fn message(&self) -> (text: String)
        ensures
            text@ == self.text(),
    {
        match self {
            BuilderError::UnwrapFailed(value, builder) => {
                let mut text = String::from_str("The value ");
                text.append(value);
                text.append(" was not set in builder ");
                text.append(builder);
                text
            },
        }
    }

    /// The error of a builder `builder` in which the field `value` was never set.
    pub fn unwrap_failed(value: &'static str, builder: &'static str) -> (error: Error)
        ensures
            error == Error::Builder(BuilderError::UnwrapFailed(value, builder)),
    {
        Error::Builder(BuilderError::UnwrapFailed(value, builder))
    }
}

impl PropertyError {
    /// The text of the message.
    pub open spec fn text(self) -> Seq<char> {
        match self {
            PropertyError::NotFoundInChoices => "The provided values were not inside acceptable choices."@,
            PropertyError::InvalidSignature => "The signature of `default` or `value` do not match the one passed by the user"@,
            PropertyError::NotWritable => "Property cannot be writed to, as its `writable` field is set to false"@,
        }
    }

    /// The message that describes this error.
    pub fn message(&self) -> (text: String)
        ensures
            text@ == self.text(),
    {
        match self {
            PropertyError::NotFoundInChoices => String::from_str(
                "The provided values were not inside acceptable choices.",
            ),
            PropertyError::InvalidSignature => String::from_str(
                "The signature of `default` or `value` do not match the one passed by the user",
            ),
            PropertyError::NotWritable => String::from_str(
                "Property cannot be writed to, as its `writable` field is set to false",
            ),
        }
    }
}

impl Error {
    /// The text of the message.
    pub open spec fn text(self) -> Seq<char> {
        match self {
            Error::Value(e) => e.text(),
            Error::Property(e) => e.text(),
            Error::Builder(e) => e.text(),
        }
    }

    /// The message of the error that this one holds.
    pub fn message(&self) -> (text: String)
        ensures
            text@ == self.text(),
    {
        match self {
            Error::Value(e) => e.message(),
            Error::Property(e) => e.message(),
            Error::Builder(e) => e.message(),
        }
    }
}

} // verus!
