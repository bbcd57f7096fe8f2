use crate::data::DataView;
use crate::error::Error;
use crate::payload::{each_data, Payload};
use crate::property::{Property, PropertyView};
use crate::schema::{Schema, SchemaView};
use crate::trigger::{Trigger, TriggerView};
use crate::value::{Value, ValueView};
use vstd::prelude::*;

verus! {

/// The wallpaper that a desktop shows until another is chosen.
pub fn wallpaper_default() -> (path: Option<String>)
    ensures
        path matches Some(text) && text@ == "/usr/share/desktop/ui/defaults/wallpaper.svg"@,
{
    Some(String::from_str("/usr/share/desktop/ui/defaults/wallpaper.svg"))
}

/// The default of the sample property that has choices.
pub fn default_useless_property() -> (texts: Option<Vec<String>>)
    ensures
        texts matches Some(list) && list@.len() == 1 && list@[0]@ == "foo"@,
{
    let mut list: Vec<String> = Vec::new();
    list.push(String::from_str("foo"));
    Some(list)
}

/// The choices of the sample property that has choices: the default alone.
pub fn useless_property_choices() -> (choices: Vec<Option<Vec<String>>>)
    ensures
        choices@.len() == 1,
        choices@[0] matches Some(list) && list@.len() == 1 && list@[0]@ == "foo"@,
{
    let mut choices: Vec<Option<Vec<String>>> = Vec::new();
    choices.push(default_useless_property());
    choices
}

/// The payload of a run of the one text `foo`.
pub open spec fn foo_list() -> DataView {
    DataView::Array { element: "s"@, items: seq![DataView::Str("foo"@)] }
}

/// The wallpaper's path: a writable text, shown in the settings.
pub open spec fn wallpaper_path_view() -> PropertyView {
    let default = ValueView {
        signature: "s"@,
        payload: Some(DataView::Str("/usr/share/desktop/ui/defaults/wallpaper.svg"@)),
    };
    PropertyView {
        name: "wallpaper_path"@,
        about: "The path of the wallpaper"@,
        long_about: "The path of the wallpaper that is used by the daemon. It must be one of the supported formats (gif, png, jpeg, svg), otherwise the wallpaper daemon will resort to the default wallpaper and inform the user."@,
        default,
        current: default,
        choices: Seq::empty(),
        show_in_settings: true,
        writable: true,
        signature: "s"@,
    }
}

/// The scale mode: a number that cannot be written, null by default.
pub open spec fn scale_mode_view() -> PropertyView {
    let default = ValueView { signature: "u"@, payload: None };
    PropertyView {
        name: "scale_mode"@,
        about: "the scale mode of the wallpaper"@,
        long_about: ""@,
        default,
        current: default,
        choices: Seq::empty(),
        show_in_settings: false,
        writable: false,
        signature: "u"@,
    }
}

/// The sample property with choices: a run of texts that may only be `foo`.
pub open spec fn some_property_view() -> PropertyView {
    let default = ValueView { signature: "as"@, payload: Some(foo_list()) };
    PropertyView {
        name: "some_property"@,
        about: "some useless property"@,
        long_about: ""@,
        default,
        current: default,
        choices: seq![default],
        show_in_settings: false,
        writable: true,
        signature: "as"@,
    }
}

/// The sample schema of a wallpaper daemon.
pub open spec fn wallpaper_view() -> SchemaView {
    SchemaView {
        name: "org.desktop.ui.wallpaper"@,
        version: 1,
        properties: seq![wallpaper_path_view(), scale_mode_view(), some_property_view()],
        triggers: seq![TriggerView { name: "tulip"@, signature: "(ii)"@ }],
    }
}

/// Builds the property that holds the wallpaper's path.
pub fn wallpaper_path() -> (built: Result<Property, Error>)
    ensures
        built matches Ok(property) && property@ == wallpaper_path_view() && property.wf(),
{
    let default = match Value::new(wallpaper_default(), <String as Payload>::signature()) {
        Ok(value) => value,
        Err(error) => {
            return Err(Error::Value(error));
        },
    };
    let builder = Property::builder().name(String::from_str("wallpaper_path")).about(
        String::from_str("The path of the wallpaper"),
    ).long_about(
        String::from_str(
            "The path of the wallpaper that is used by the daemon. It must be one of the supported formats (gif, png, jpeg, svg), otherwise the wallpaper daemon will resort to the default wallpaper and inform the user.",
        ),
    ).show_in_settings(true).writable(true).signature(<String as Payload>::signature()).default(
        default,
    );
    assert(builder@.choices =~= Seq::<ValueView>::empty());
    builder.build()
}

/// Builds the property that holds the scale mode.
pub fn scale_mode() -> (built: Result<Property, Error>)
    ensures
        built matches Ok(property) && property@ == scale_mode_view() && property.wf(),
{
    let builder = Property::builder().name(String::from_str("scale_mode")).about(
        String::from_str("the scale mode of the wallpaper"),
    ).long_about(String::from_str("")).show_in_settings(false).writable(false).signature(
        <u32 as Payload>::signature(),
    );
    assert(builder@.choices =~= Seq::<ValueView>::empty());
    builder.build()
}

/// Builds the sample property with choices.
pub fn some_property() -> (built: Result<Property, Error>)
    ensures
        built matches Ok(property) && property@ == some_property_view() && property.wf(),
{
    proof {
        reveal_strlit("a");
        reveal_strlit("s");
        reveal_strlit("as");
        assert("a"@ + "s"@ =~= "as"@);
    }
    let default = default_useless_property();
    proof {
        default->Some_0.lemma_shape();
        assert(each_data(default->Some_0@) =~= seq![DataView::Str("foo"@)]);
    }
    let default = match Value::new(default, <Vec<String> as Payload>::signature()) {
        Ok(value) => value,
        Err(error) => {
            return Err(Error::Value(error));
        },
    };
    let choices = useless_property_choices();
    proof {
        choices@[0]->Some_0.lemma_shape();
        assert(each_data(choices@[0]->Some_0@) =~= seq![DataView::Str("foo"@)]);
    }
    let builder = Property::builder().name(String::from_str("some_property")).about(
        String::from_str("some useless property"),
    ).long_about(String::from_str("")).show_in_settings(false).writable(true).signature(
        <Vec<String> as Payload>::signature(),
    ).default(default).choices_sig(<Vec<String> as Payload>::signature(), choices);
    proof {
        let wanted = some_property_view();
        assert(builder@.choices =~= wanted.choices);
        assert(builder@.choices[0] == wanted.default);
    }
    builder.build()
}

/// Builds the sample schema of a wallpaper daemon: three properties and one
/// trigger.
pub fn schema() -> (built: Result<Schema, Error>)
    ensures
        built matches Ok(schema) && schema@ == wallpaper_view() && schema.wf(),
{
    let path = match wallpaper_path() {
        Ok(property) => property,
        Err(error) => {
            return Err(error);
        },
    };
    let mode = match scale_mode() {
        Ok(property) => property,
        Err(error) => {
            return Err(error);
        },
    };
    let some = match some_property() {
        Ok(property) => property,
        Err(error) => {
            return Err(error);
        },
    };
    proof {
        reveal_strlit("wallpaper_path");
        reveal_strlit("scale_mode");
        reveal_strlit("some_property");
        assert("wallpaper_path"@.len() != "scale_mode"@.len());
        assert("wallpaper_path"@.len() != "some_property"@.len());
        assert("scale_mode"@.len() != "some_property"@.len());
    }
    proof {
        reveal_strlit("(");
        reveal_strlit("i");
        reveal_strlit(")");
        reveal_strlit("(ii)");
        assert("("@ + "i"@ + "i"@ + ")"@ =~= "(ii)"@);
    }
    let tulip = Trigger::new(String::from_str("tulip"), <(i32, i32) as Payload>::signature());
    let builder = Schema::builder().name(String::from_str("org.desktop.ui.wallpaper")).version(1)
        .property(path).property(mode).property(some).trigger(tulip);
    proof {
        assert(builder@.properties =~= wallpaper_view().properties);
        assert(builder@.triggers =~= wallpaper_view().triggers);
    }
    builder.build()
}

} // verus!
