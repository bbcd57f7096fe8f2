use crate::data::{lemma_container_views, lemma_signatures_push, models, Data, DataView};
use crate::signature::TypeSignature;
use vstd::prelude::*;

verus! {

/// A value that can be held as a payload.
pub trait IntoData: Sized {
    /// The payload that this value becomes.
    spec fn data(self) -> DataView;

    /// Turns this value into its payload.
    fn into_data(self) -> (d: Data)
        ensures
            d@ == self.data(),
    ;
}

/// A type all of whose values have one signature, which can therefore be
/// declared without a value at hand.
pub trait Payload: IntoData {
    /// The signature that every value of this type has.
    spec fn declared() -> Seq<char>;

    /// Every value of this type has the declared signature, and holds in its
    /// containers what they declare.
    proof fn lemma_shape(self)
        ensures
            self.data().signature() == Self::declared(),
            self.data().well_formed(),
    ;

    /// The signature that every value of this type has.
    fn signature() -> (sig: TypeSignature)
        ensures
            sig@ == Self::declared(),
    ;
}

/// The payload of an optional value.
pub open spec fn payload_data<T: IntoData>(value: Option<T>) -> Option<DataView> {
    match value {
        Some(v) => Some(v.data()),
        None => None,
    }
}

impl IntoData for Data {
    open spec fn data(self) -> DataView {
        self@
    }

    fn into_data(self) -> (d: Data) {
        self
    }
}

impl IntoData for u8 {
    open spec fn data(self) -> DataView {
        DataView::U8(self)
    }

    fn into_data(self) -> (d: Data) {
        Data::U8(self)
    }
}

impl Payload for u8 {
    open spec fn declared() -> Seq<char> {
        "y"@
    }

    proof fn lemma_shape(self) {
    }

    fn signature() -> (sig: TypeSignature) {
        TypeSignature::from_text("y")
    }
}

impl IntoData for bool {
    open spec fn data(self) -> DataView {
        DataView::Bool(self)
    }

    fn into_data(self) -> (d: Data) {
        Data::Bool(self)
    }
}

impl Payload for bool {
    open spec fn declared() -> Seq<char> {
        "b"@
    }

    proof fn lemma_shape(self) {
    }

    fn signature() -> (sig: TypeSignature) {
        TypeSignature::from_text("b")
    }
}

impl IntoData for i16 {
    open spec fn data(self) -> DataView {
        DataView::I16(self)
    }

    fn into_data(self) -> (d: Data) {
        Data::I16(self)
    }
}

impl Payload for i16 {
    open spec fn declared() -> Seq<char> {
        "n"@
    }

    proof fn lemma_shape(self) {
    }

    fn signature() -> (sig: TypeSignature) {
        TypeSignature::from_text("n")
    }
}

impl IntoData for u16 {
    open spec fn data(self) -> DataView {
        DataView::U16(self)
    }

    fn into_data(self) -> (d: Data) {
        Data::U16(self)
    }
}

impl Payload for u16 {
    open spec fn declared() -> Seq<char> {
        "q"@
    }

    proof fn lemma_shape(self) {
    }

    fn signature() -> (sig: TypeSignature) {
        TypeSignature::from_text("q")
    }
}

impl IntoData for i32 {
    open spec fn data(self) -> DataView {
        DataView::I32(self)
    }

    fn into_data(self) -> (d: Data) {
        Data::I32(self)
    }
}

impl Payload for i32 {
    open spec fn declared() -> Seq<char> {
        "i"@
    }

    proof fn lemma_shape(self) {
    }

    fn signature() -> (sig: TypeSignature) {
        TypeSignature::from_text("i")
    }
}

impl IntoData for u32 {
    open spec fn data(self) -> DataView {
        DataView::U32(self)
    }

    fn into_data(self) -> (d: Data) {
        Data::U32(self)
    }
}

impl Payload for u32 {
    open spec fn declared() -> Seq<char> {
        "u"@
    }

    proof fn lemma_shape(self) {
    }

    fn signature() -> (sig: TypeSignature) {
        TypeSignature::from_text("u")
    }
}

impl IntoData for i64 {
    open spec fn data(self) -> DataView {
        DataView::I64(self)
    }

    fn into_data(self) -> (d: Data) {
        Data::I64(self)
    }
}

impl Payload for i64 {
    open spec fn declared() -> Seq<char> {
        "x"@
    }

    proof fn lemma_shape(self) {
    }

    fn signature() -> (sig: TypeSignature) {
        TypeSignature::from_text("x")
    }
}

impl IntoData for u64 {
    open spec fn data(self) -> DataView {
        DataView::U64(self)
    }

    fn into_data(self) -> (d: Data) {
        Data::U64(self)
    }
}

impl Payload for u64 {
    open spec fn declared() -> Seq<char> {
        "t"@
    }

    proof fn lemma_shape(self) {
    }

    fn signature() -> (sig: TypeSignature) {
        TypeSignature::from_text("t")
    }
}

impl IntoData for String {
    open spec fn data(self) -> DataView {
        DataView::Str(self@)
    }

    fn into_data(self) -> (d: Data) {
        Data::Str(self)
    }
}

impl Payload for String {
    open spec fn declared() -> Seq<char> {
        "s"@
    }

    proof fn lemma_shape(self) {
    }

    fn signature() -> (sig: TypeSignature) {
        TypeSignature::from_text("s")
    }
}

/// The payloads of a run of values, in order.
pub open spec fn each_data<T: IntoData>(values: Seq<T>) -> Seq<DataView> {
    Seq::new(values.len(), |i: int| values[i].data())
}

impl<T: Payload> IntoData for Vec<T> {
    open spec fn data(self) -> DataView {
        DataView::Array { element: T::declared(), items: each_data(self@) }
    }

    fn into_data(self) -> (d: Data) {
        let ghost all = self@;
        let mut items: Vec<Data> = Vec::new();
        for item in it: self
            invariant
                it.seq() == all,
                items@.len() == it.index(),
                forall|j: int| 0 <= j < it.index() ==> (#[trigger] items@[j])@ == all[j].data(),
        {
            items.push(item.into_data());
        }
        let d = Data::Array { element: T::signature(), items };
        proof {
            lemma_container_views(d);
            assert(models(items@) =~= each_data(all));
        }
        d
    }
}

impl<T: Payload> Payload for Vec<T> {
    open spec fn declared() -> Seq<char> {
        "a"@ + T::declared()
    }

    proof fn lemma_shape(self) {
        assert forall|i: int| 0 <= i < self@.len() implies (#[trigger] each_data(
            self@,
        )[i]).signature() == T::declared() && each_data(self@)[i].well_formed() by {
            self@[i].lemma_shape();
        }
    }

    fn signature() -> (sig: TypeSignature) {
        let mut text = String::from_str("a");
        text.append(T::signature().as_str());
        TypeSignature::new(text)
    }
}

impl<A: Payload, B: Payload> IntoData for (A, B) {
    open spec fn data(self) -> DataView {
        DataView::Structure(seq![self.0.data(), self.1.data()])
    }

    fn into_data(self) -> (d: Data) {
        let mut fields: Vec<Data> = Vec::new();
        fields.push(self.0.into_data());
        fields.push(self.1.into_data());
        let d = Data::Structure(fields);
        proof {
            lemma_container_views(d);
            assert(models(fields@) =~= seq![self.0.data(), self.1.data()]);
        }
        d
    }
}

impl<A: Payload, B: Payload> Payload for (A, B) {
    open spec fn declared() -> Seq<char> {
        "("@ + A::declared() + B::declared() + ")"@
    }

    proof fn lemma_shape(self) {
        self.0.lemma_shape();
        self.1.lemma_shape();
        let fields = seq![self.0.data(), self.1.data()];
        let none = Seq::<DataView>::empty();
        lemma_signatures_push(none, self.0.data());
        lemma_signatures_push(none.push(self.0.data()), self.1.data());
        assert(none.push(self.0.data()).push(self.1.data()) =~= fields);
        assert(DataView::signatures(none) =~= Seq::<char>::empty());
        assert(DataView::signatures(fields) =~= A::declared() + B::declared());
        assert("("@ + DataView::signatures(fields) + ")"@ =~= "("@ + A::declared() + B::declared()
            + ")"@);
    }

    fn signature() -> (sig: TypeSignature) {
        let mut text = String::from_str("(");
        text.append(A::signature().as_str());
        text.append(B::signature().as_str());
        text.append(")");
        TypeSignature::new(text)
    }
}

} // verus!
