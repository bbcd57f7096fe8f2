use crate::signature::TypeSignature;
use vstd::prelude::*;
use vstd::std_specs::cmp::PartialEqSpecImpl;

verus! {

/// A dynamically typed payload: a closed union over the structural kinds that
/// can cross the process boundary.
///
/// A floating-point number is held by its IEEE-754 bit pattern, so two
/// payloads are equal exactly when they are made of the same bits. An array
/// and a dictionary carry the declared type of their elements, which is what
/// gives an empty container its type.
#[derive(Debug)]
pub enum Data {
    U8(u8),
    Bool(bool),
    I16(i16),
    U16(u16),
    I32(i32),
    U32(u32),
    I64(i64),
    U64(u64),
    F64 { bits: u64 },
    Str(String),
    Signature(TypeSignature),
    ObjectPath(String),
    Variant(Box<Data>),
    Array { element: TypeSignature, items: Vec<Data> },
    Dict { key: TypeSignature, value: TypeSignature, entries: Vec<(Data, Data)> },
    Structure(Vec<Data>),
    Fd(i32),
}

/// The mathematical value of a [`Data`].
pub enum DataView {
    U8(u8),
    Bool(bool),
    I16(i16),
    U16(u16),
    I32(i32),
    U32(u32),
    I64(i64),
    U64(u64),
    F64 { bits: u64 },
    Str(Seq<char>),
    Signature(Seq<char>),
    ObjectPath(Seq<char>),
    Variant(Box<DataView>),
    Array { element: Seq<char>, items: Seq<DataView> },
    Dict { key: Seq<char>, value: Seq<char>, entries: Seq<(DataView, DataView)> },
    Structure(Seq<DataView>),
    Fd(i32),
}

impl DataView {
    /// The structural signature of a payload: one letter for each basic kind,
    /// `a` before the element type of an array, the key and value types of a
    /// dictionary between `a{` and `}`, and the fields of a structure, in
    /// order, between round brackets.
    pub open spec fn signature(self) -> Seq<char>
        decreases self,
    {
        match self {
            DataView::U8(_) => "y"@,
            DataView::Bool(_) => "b"@,
            DataView::I16(_) => "n"@,
            DataView::U16(_) => "q"@,
            DataView::I32(_) => "i"@,
            DataView::U32(_) => "u"@,
            DataView::I64(_) => "x"@,
            DataView::U64(_) => "t"@,
            DataView::F64 { .. } => "d"@,
            DataView::Str(_) => "s"@,
            DataView::Signature(_) => "g"@,
            DataView::ObjectPath(_) => "o"@,
            DataView::Variant(_) => "v"@,
            DataView::Array { element, .. } => "a"@ + element,
            DataView::Dict { key, value, .. } => "a{"@ + key + value + "}"@,
            DataView::Structure(fields) => "("@ + Self::signatures(fields) + ")"@,
            DataView::Fd(_) => "h"@,
        }
    }

    /// The signatures of a run of payloads, one after the other.
    pub open spec fn signatures(fields: Seq<DataView>) -> Seq<char>
        decreases fields,
    {
        if fields.len() == 0 {
            Seq::empty()
        } else {
            Self::signatures(fields.drop_last()) + fields.last().signature()
        }
    }
}

impl DataView {
    /// Whether each container holds what it declares: every element of an
    /// array has the element type of the array, every key and value of a
    /// dictionary has its key and value type, and so on inside.
    pub open spec fn well_formed(self) -> bool
        decreases self,
    {
        match self {
            DataView::Variant(inner) => inner.well_formed(),
            DataView::Array { element, items } => forall|i: int|
                0 <= i < items.len() ==> (#[trigger] items[i]).signature() == element
                    && items[i].well_formed(),
            DataView::Dict { key, value, entries } => forall|i: int|
                0 <= i < entries.len() ==> (#[trigger] entries[i]).0.signature() == key
                    && entries[i].1.signature() == value && entries[i].0.well_formed()
                    && entries[i].1.well_formed(),
            DataView::Structure(fields) => forall|i: int|
                0 <= i < fields.len() ==> (#[trigger] fields[i]).well_formed(),
            _ => true,
        }
    }
}

impl Data {
    /// The value that a payload stands for.
    pub open spec fn model(self) -> DataView
        decreases self,
    {
        match self {
            Data::U8(v) => DataView::U8(v),
            Data::Bool(v) => DataView::Bool(v),
            Data::I16(v) => DataView::I16(v),
            Data::U16(v) => DataView::U16(v),
            Data::I32(v) => DataView::I32(v),
            Data::U32(v) => DataView::U32(v),
            Data::I64(v) => DataView::I64(v),
            Data::U64(v) => DataView::U64(v),
            Data::F64 { bits } => DataView::F64 { bits },
            Data::Str(s) => DataView::Str(s@),
            Data::Signature(s) => DataView::Signature(s@),
            Data::ObjectPath(s) => DataView::ObjectPath(s@),
            Data::Variant(inner) => DataView::Variant(Box::new(inner.model())),
            Data::Array { element, items } => DataView::Array {
                element: element@,
                items: Seq::new(
                    items@.len(),
                    |i: int|
                        if 0 <= i < items@.len() {
                            items@[i].model()
                        } else {
                            DataView::Bool(false)
                        },
                ),
            },
            Data::Dict { key, value, entries } => DataView::Dict {
                key: key@,
                value: value@,
                entries: Seq::new(
                    entries@.len(),
                    |i: int|
                        if 0 <= i < entries@.len() {
                            (entries@[i].0.model(), entries@[i].1.model())
                        } else {
                            (DataView::Bool(false), DataView::Bool(false))
                        },
                ),
            },
            Data::Structure(fields) => DataView::Structure(
                Seq::new(
                    fields@.len(),
                    |i: int|
                        if 0 <= i < fields@.len() {
                            fields@[i].model()
                        } else {
                            DataView::Bool(false)
                        },
                ),
            ),
            Data::Fd(v) => DataView::Fd(v),
        }
    }
}

impl View for Data {
    type V = DataView;

    open spec fn view(&self) -> DataView {
        self.model()
    }
}

/// The values of a run of payloads.
pub open spec fn models(items: Seq<Data>) -> Seq<DataView> {
    Seq::new(items.len(), |i: int| items[i]@)
}

/// The values of a run of payload pairs.
pub open spec fn pair_models(entries: Seq<(Data, Data)>) -> Seq<(DataView, DataView)> {
    Seq::new(entries.len(), |i: int| (entries[i].0@, entries[i].1@))
}

/// What the view of each container is, in terms of [`models`].
pub proof fn lemma_container_views(d: Data)
    ensures
        d matches Data::Array { element, items } ==> d@ == (DataView::Array {
            element: element@,
            items: models(items@),
        }),
        d matches Data::Dict { key, value, entries } ==> d@ == (DataView::Dict {
            key: key@,
            value: value@,
            entries: pair_models(entries@),
        }),
        d matches Data::Structure(fields) ==> d@ == DataView::Structure(models(fields@)),
{
    match d {
        Data::Array { element, items } => {
            assert(d@->Array_items =~= models(items@));
        },
        Data::Dict { key, value, entries } => {
            assert(d@->Dict_entries =~= pair_models(entries@));
        },
        Data::Structure(fields) => {
            assert(d@->Structure_0 =~= models(fields@));
        },
        _ => {},
    }
}

/// Adding one payload at the end adds its signature at the end.
pub proof fn lemma_signatures_push(fields: Seq<DataView>, last: DataView)
    ensures
        DataView::signatures(fields.push(last)) == DataView::signatures(fields) + last.signature(),
{
    assert(fields.push(last).drop_last() =~= fields);
}

impl Data {
    /// Computes the structural signature of this payload.
    pub fn signature(&self) -> (sig: TypeSignature)
        ensures
            sig@ == self@.signature(),
        decreases self,
    {
        match self {
            Data::U8(_) => TypeSignature::from_text("y"),
            Data::Bool(_) => TypeSignature::from_text("b"),
            Data::I16(_) => TypeSignature::from_text("n"),
            Data::U16(_) => TypeSignature::from_text("q"),
            Data::I32(_) => TypeSignature::from_text("i"),
            Data::U32(_) => TypeSignature::from_text("u"),
            Data::I64(_) => TypeSignature::from_text("x"),
            Data::U64(_) => TypeSignature::from_text("t"),
            Data::F64 { .. } => TypeSignature::from_text("d"),
            Data::Str(_) => TypeSignature::from_text("s"),
            Data::Signature(_) => TypeSignature::from_text("g"),
            Data::ObjectPath(_) => TypeSignature::from_text("o"),
            Data::Variant(_) => TypeSignature::from_text("v"),
            Data::Array { element, .. } => {
                let mut text = String::from_str("a");
                text.append(element.as_str());
                TypeSignature::new(text)
            },
            Data::Dict { key, value, .. } => {
                let mut text = String::from_str("a{");
                text.append(key.as_str());
                text.append(value.as_str());
                text.append("}");
                TypeSignature::new(text)
            },
            Data::Structure(fields) => {
                let mut text = String::from_str("(");
                let mut i: usize = 0;
                proof {
                    lemma_container_views(*self);
                    assert(models(fields@).take(0) =~= Seq::<DataView>::empty());
                    assert(text@ =~= "("@ + DataView::signatures(models(fields@).take(0)));
                }
                while i < fields.len()
                    invariant
                        i <= fields.len(),
                        decreases_to!(*self => *fields),
                        text@ == "("@ + DataView::signatures(models(fields@).take(i as int)),
                    decreases fields.len() - i,
                {
                    let part = fields[i].signature();
                    text.append(part.as_str());
                    proof {
                        let all = models(fields@);
                        assert(all.take(i + 1) =~= all.take(i as int).push(all[i as int]));
                        lemma_signatures_push(all.take(i as int), all[i as int]);
                    }
                    i += 1;
                }
                text.append(")");
                proof {
                    assert(models(fields@).take(i as int) =~= models(fields@));
                }
                TypeSignature::new(text)
            },
            Data::Fd(_) => TypeSignature::from_text("h"),
        }
    }

    /// Whether two payloads stand for the same value.
    pub fn same_as(&self, other: &Data) -> (same: bool)
        ensures
            same == (self@ == other@),
        decreases self,
    {
        proof {
            lemma_container_views(*self);
            lemma_container_views(*other);
        }
        match (self, other) {
            (Data::U8(a), Data::U8(b)) => *a == *b,
            (Data::Bool(a), Data::Bool(b)) => *a == *b,
            (Data::I16(a), Data::I16(b)) => *a == *b,
            (Data::U16(a), Data::U16(b)) => *a == *b,
            (Data::I32(a), Data::I32(b)) => *a == *b,
            (Data::U32(a), Data::U32(b)) => *a == *b,
            (Data::I64(a), Data::I64(b)) => *a == *b,
            (Data::U64(a), Data::U64(b)) => *a == *b,
            (Data::F64 { bits: a }, Data::F64 { bits: b }) => *a == *b,
            (Data::Str(a), Data::Str(b)) => *a == *b,
            (Data::Signature(a), Data::Signature(b)) => a.same_as(b),
            (Data::ObjectPath(a), Data::ObjectPath(b)) => *a == *b,
            (Data::Variant(a), Data::Variant(b)) => a.same_as(b),
            (
                Data::Array { element: ea, items: a },
                Data::Array { element: eb, items: b },
            ) => {
                if !ea.same_as(eb) || a.len() != b.len() {
                    assert(models(a@).len() == a.len() && models(b@).len() == b.len());
                    return false;
                }
                let mut i: usize = 0;
                while i < a.len()
                    invariant
                        i <= a.len(),
                        a.len() == b.len(),
                        decreases_to!(*self => *a),
                        self@ == (DataView::Array { element: ea@, items: models(a@) }),
                        other@ == (DataView::Array { element: eb@, items: models(b@) }),
                        forall|j: int| 0 <= j < i ==> a@[j]@ == b@[j]@,
                    decreases a.len() - i,
                {
                    if !a[i].same_as(&b[i]) {
                        assert(models(a@)[i as int] != models(b@)[i as int]);
                        return false;
                    }
                    i += 1;
                }
                assert(models(a@) =~= models(b@));
                true
            },
            (
                Data::Dict { key: ka, value: va, entries: a },
                Data::Dict { key: kb, value: vb, entries: b },
            ) => {
                if !ka.same_as(kb) || !va.same_as(vb) || a.len() != b.len() {
                    assert(pair_models(a@).len() == a.len() && pair_models(b@).len() == b.len());
                    return false;
                }
                let mut i: usize = 0;
                while i < a.len()
                    invariant
                        i <= a.len(),
                        a.len() == b.len(),
                        decreases_to!(*self => *a),
                        self@ == (DataView::Dict {
                            key: ka@,
                            value: va@,
                            entries: pair_models(a@),
                        }),
                        other@ == (DataView::Dict {
                            key: kb@,
                            value: vb@,
                            entries: pair_models(b@),
                        }),
                        forall|j: int|
                            0 <= j < i ==> a@[j].0@ == b@[j].0@ && a@[j].1@ == b@[j].1@,
                    decreases a.len() - i,
                {
                    if !a[i].0.same_as(&b[i].0) || !a[i].1.same_as(&b[i].1) {
                        assert(pair_models(a@)[i as int] != pair_models(b@)[i as int]);
                        return false;
                    }
                    i += 1;
                }
                assert(pair_models(a@) =~= pair_models(b@));
                true
            },
            (Data::Structure(a), Data::Structure(b)) => {
                if a.len() != b.len() {
                    assert(models(a@).len() == a.len() && models(b@).len() == b.len());
                    return false;
                }
                let mut i: usize = 0;
                while i < a.len()
                    invariant
                        i <= a.len(),
                        a.len() == b.len(),
                        decreases_to!(*self => *a),
                        self@ == DataView::Structure(models(a@)),
                        other@ == DataView::Structure(models(b@)),
                        forall|j: int| 0 <= j < i ==> a@[j]@ == b@[j]@,
                    decreases a.len() - i,
                {
                    if !a[i].same_as(&b[i]) {
                        assert(models(a@)[i as int] != models(b@)[i as int]);
                        return false;
                    }
                    i += 1;
                }
                assert(models(a@) =~= models(b@));
                true
            },
            (Data::Fd(a), Data::Fd(b)) => *a == *b,
            _ => false,
        }
    }
}

impl Data {
    /// A deep copy of this payload.
    pub fn duplicate(&self) -> (copy: Data)
        ensures
            copy@ == self@,
        decreases self,
    {
        proof {
            lemma_container_views(*self);
        }
        let copy = match self {
            Data::U8(v) => Data::U8(*v),
            Data::Bool(v) => Data::Bool(*v),
            Data::I16(v) => Data::I16(*v),
            Data::U16(v) => Data::U16(*v),
            Data::I32(v) => Data::I32(*v),
            Data::U32(v) => Data::U32(*v),
            Data::I64(v) => Data::I64(*v),
            Data::U64(v) => Data::U64(*v),
            Data::F64 { bits } => Data::F64 { bits: *bits },
            Data::Str(s) => Data::Str(s.clone()),
            Data::Signature(s) => Data::Signature(s.clone()),
            Data::ObjectPath(s) => Data::ObjectPath(s.clone()),
            Data::Variant(inner) => Data::Variant(Box::new(inner.duplicate())),
            Data::Array { element, items } => {
                let mut copies: Vec<Data> = Vec::new();
                let mut i: usize = 0;
                while i < items.len()
                    invariant
                        i <= items.len(),
                        decreases_to!(*self => *items),
                        copies@.len() == i,
                        forall|j: int| 0 <= j < i ==> copies@[j]@ == items@[j]@,
                    decreases items.len() - i,
                {
                    copies.push(items[i].duplicate());
                    i += 1;
                }
                assert(models(copies@) =~= models(items@));
                Data::Array { element: element.clone(), items: copies }
            },
            Data::Dict { key, value, entries } => {
                let mut copies: Vec<(Data, Data)> = Vec::new();
                let mut i: usize = 0;
                while i < entries.len()
                    invariant
                        i <= entries.len(),
                        decreases_to!(*self => *entries),
                        copies@.len() == i,
                        forall|j: int|
                            0 <= j < i ==> copies@[j].0@ == entries@[j].0@ && copies@[j].1@
                                == entries@[j].1@,
                    decreases entries.len() - i,
                {
                    copies.push((entries[i].0.duplicate(), entries[i].1.duplicate()));
                    i += 1;
                }
                assert(pair_models(copies@) =~= pair_models(entries@));
                Data::Dict { key: key.clone(), value: value.clone(), entries: copies }
            },
            Data::Structure(fields) => {
                let mut copies: Vec<Data> = Vec::new();
                let mut i: usize = 0;
                while i < fields.len()
                    invariant
                        i <= fields.len(),
                        decreases_to!(*self => *fields),
                        copies@.len() == i,
                        forall|j: int| 0 <= j < i ==> copies@[j]@ == fields@[j]@,
                    decreases fields.len() - i,
                {
                    copies.push(fields[i].duplicate());
                    i += 1;
                }
                assert(models(copies@) =~= models(fields@));
                Data::Structure(copies)
            },
            Data::Fd(v) => Data::Fd(*v),
        };
        proof {
            lemma_container_views(copy);
        }
        copy
    }
}

impl Data {
    /// A text as a payload.
    pub fn from_text(text: String) -> (d: Data)
        ensures
            d@ == DataView::Str(text@),
    {
        Data::Str(text)
    }

    /// A run of texts as a payload: an array whose elements are declared
    /// as texts.
    pub fn from_texts(texts: Vec<String>) -> (d: Data)
        ensures
            d@ == (DataView::Array {
                element: "s"@,
                items: Seq::new(texts@.len(), |i: int| DataView::Str(texts@[i]@)),
            }),
    {
        let mut items: Vec<Data> = Vec::new();
        let mut i: usize = 0;
        while i < texts.len()
            invariant
                i <= texts.len(),
                items@.len() == i,
                forall|j: int| 0 <= j < i ==> items@[j]@ == DataView::Str(texts@[j]@),
            decreases texts.len() - i,
        {
            items.push(Data::Str(texts[i].clone()));
            i += 1;
        }
        let d = Data::Array { element: TypeSignature::from_text("s"), items };
        proof {
            lemma_container_views(d);
            assert(d@->Array_items =~= Seq::new(
                texts@.len(),
                |i: int| DataView::Str(texts@[i]@),
            ));
        }
        d
    }
}

impl Data {
    /// Whether each container of this payload holds what it declares.
    pub fn is_well_formed(&self) -> (well: bool)
        ensures
            well == self@.well_formed(),
        decreases self,
    {
        proof {
            lemma_container_views(*self);
        }
        match self {
            Data::Variant(inner) => inner.is_well_formed(),
            Data::Array { element, items } => {
                let mut i: usize = 0;
                while i < items.len()
                    invariant
                        i <= items.len(),
                        decreases_to!(*self => *items),
                        self@ == (DataView::Array { element: element@, items: models(items@) }),
                        forall|j: int|
                            0 <= j < i ==> (#[trigger] models(items@)[j]).signature() == element@
                                && models(items@)[j].well_formed(),
                    decreases items.len() - i,
                {
                    if !items[i].signature().same_as(element) || !items[i].is_well_formed() {
                        proof {
                            let bad = self@->Array_items[i as int];
                            assert(bad == items@[i as int]@);
                            assert(!(bad.signature() == element@ && bad.well_formed()));
                            assert(!self@.well_formed());
                        }
                        return false;
                    }
                    i += 1;
                }
                true
            },
            Data::Dict { key, value, entries } => {
                let mut i: usize = 0;
                while i < entries.len()
                    invariant
                        i <= entries.len(),
                        decreases_to!(*self => *entries),
                        self@ == (DataView::Dict {
                            key: key@,
                            value: value@,
                            entries: pair_models(entries@),
                        }),
                        forall|j: int|
                            0 <= j < i ==> (#[trigger] pair_models(entries@)[j]).0.signature()
                                == key@ && pair_models(entries@)[j].1.signature() == value@
                                && pair_models(entries@)[j].0.well_formed() && pair_models(
                                entries@,
                            )[j].1.well_formed(),
                    decreases entries.len() - i,
                {
                    let good = entries[i].0.signature().same_as(key) && entries[i].1.signature().same_as(
                        value,
                    ) && entries[i].0.is_well_formed() && entries[i].1.is_well_formed();
                    if !good {
                        proof {
                            let pair = self@->Dict_entries[i as int];
                            assert(pair.0 == entries@[i as int].0@);
                            assert(pair.1 == entries@[i as int].1@);
                            assert(!(pair.0.signature() == key@ && pair.1.signature() == value@
                                && pair.0.well_formed() && pair.1.well_formed()));
                            assert(!self@.well_formed());
                        }
                        return false;
                    }
                    i += 1;
                }
                true
            },
            Data::Structure(fields) => {
                let mut i: usize = 0;
                while i < fields.len()
                    invariant
                        i <= fields.len(),
                        decreases_to!(*self => *fields),
                        self@ == DataView::Structure(models(fields@)),
                        forall|j: int| 0 <= j < i ==> (#[trigger] models(fields@)[j]).well_formed(),
                    decreases fields.len() - i,
                {
                    if !fields[i].is_well_formed() {
                        proof {
                            let bad = self@->Structure_0[i as int];
                            assert(bad == fields@[i as int]@);
                            assert(!bad.well_formed());
                            assert(!self@.well_formed());
                        }
                        return false;
                    }
                    i += 1;
                }
                true
            },
            _ => true,
        }
    }
}

impl Clone for Data {
    fn clone(&self) -> (copy: Data)
        ensures
            copy@ == self@,
    {
        self.duplicate()
    }
}

impl PartialEq for Data {
    fn eq(&self, other: &Data) -> (same: bool) {
        self.same_as(other)
    }
}

impl Eq for Data {

}

impl PartialEqSpecImpl for Data {
    open spec fn obeys_eq_spec() -> bool {
        true
    }

    open spec fn eq_spec(&self, other: &Data) -> bool {
        self@ == other@
    }
}

} // verus!
