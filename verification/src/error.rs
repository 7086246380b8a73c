//! Error definitions shared by the value model and the codec.
use vstd::prelude::*;
use vstd::std_specs::convert::FromSpecImpl;
use vstd::std_specs::convert::IntoSpec;
use cid::Cid;
use crate::ipld::{Ipld, IpldIndex, IpldIndexView};

verus! {

/// Block exceeds 1MiB.
#[derive(Clone, Copy, Debug, PartialEq, Eq)]
pub struct BlockTooLarge(pub usize);

/// The codec is unsupported.
#[derive(Clone, Copy, Debug, PartialEq, Eq)]
pub struct UnsupportedCodec(pub u64);

/// The multihash is unsupported.
#[derive(Clone, Copy, Debug, PartialEq, Eq)]
pub struct UnsupportedMultihash(pub u64);

/// Hash does not match the content identifier.
#[derive(Clone, Debug, PartialEq, Eq)]
pub struct InvalidMultihash(pub Vec<u8>);

/// The block wasn't found. The supplied value is its content identifier.
#[derive(Clone, Copy, Debug, PartialEq, Eq)]
pub struct BlockNotFound(pub Cid);

/// Type error: the shape that was expected and the shape that was found.
#[derive(Clone, Debug, PartialEq, Eq)]
pub struct TypeError {
    /// The expected type.
    pub expected: TypeErrorType,
    /// The actual type.
    pub found: TypeErrorType,
}

/// Type error type.
#[derive(Clone, Debug, PartialEq, Eq)]
pub enum TypeErrorType {
    /// Null type.
    Null,
    /// Boolean type.
    Bool,
    /// Integer type.
    Integer,
    /// Float type.
    Float,
    /// String type.
    String,
    /// Bytes type.
    Bytes,
    /// List type.
    List,
    /// StringMap type.
    StringMap,
    /// IntegerMap type.
    IntegerMap,
    /// Link type.
    Link,
    /// Tag type.
    Tag,
    /// Key type.
    Key(String),
    /// Index type.
    Index(usize),
}

/// What a `TypeErrorType` stands for: the same cases, with a key as its characters.
pub ghost enum TypeErrorTypeView {
    Null,
    Bool,
    Integer,
    Float,
    String,
    Bytes,
    List,
    StringMap,
    IntegerMap,
    Link,
    Tag,
    Key(Seq<char>),
    Index(usize),
}

/// What a `TypeError` stands for.
pub ghost struct TypeErrorView {
    pub expected: TypeErrorTypeView,
    pub found: TypeErrorTypeView,
}

impl View for TypeErrorType {
    type V = TypeErrorTypeView;

    open spec fn view(&self) -> TypeErrorTypeView {
        match self {
            TypeErrorType::Null => TypeErrorTypeView::Null,
            TypeErrorType::Bool => TypeErrorTypeView::Bool,
            TypeErrorType::Integer => TypeErrorTypeView::Integer,
            TypeErrorType::Float => TypeErrorTypeView::Float,
            TypeErrorType::String => TypeErrorTypeView::String,
            TypeErrorType::Bytes => TypeErrorTypeView::Bytes,
            TypeErrorType::List => TypeErrorTypeView::List,
            TypeErrorType::StringMap => TypeErrorTypeView::StringMap,
            TypeErrorType::IntegerMap => TypeErrorTypeView::IntegerMap,
            TypeErrorType::Link => TypeErrorTypeView::Link,
            TypeErrorType::Tag => TypeErrorTypeView::Tag,
            TypeErrorType::Key(name) => TypeErrorTypeView::Key(name@),
            TypeErrorType::Index(position) => TypeErrorTypeView::Index(*position),
        }
    }
}

impl View for TypeError {
    type V = TypeErrorView;

    open spec fn view(&self) -> TypeErrorView {
        TypeErrorView { expected: self.expected@, found: self.found@ }
    }
}

/// The case of a value, its payload left out.
pub open spec fn case_of(ipld: &Ipld) -> TypeErrorType {
    match ipld {
        Ipld::Null => TypeErrorType::Null,
        Ipld::Bool(_) => TypeErrorType::Bool,
        Ipld::Integer(_) => TypeErrorType::Integer,
        Ipld::Float(_) => TypeErrorType::Float,
        Ipld::String(_) => TypeErrorType::String,
        Ipld::Bytes(_) => TypeErrorType::Bytes,
        Ipld::List(_) => TypeErrorType::List,
        Ipld::StringMap(_) => TypeErrorType::StringMap,
        Ipld::IntegerMap(_) => TypeErrorType::IntegerMap,
        Ipld::Link(_) => TypeErrorType::Link,
        Ipld::Tag(_, _) => TypeErrorType::Tag,
    }
}

/// What a selector is called in a type error: a key by its name, a position by its number.
pub open spec fn selector_of(index: IpldIndexView) -> TypeErrorTypeView {
    match index {
        IpldIndexView::List(position) => TypeErrorTypeView::Index(position),
        IpldIndexView::Key(name) => TypeErrorTypeView::Key(name),
    }
}

impl TypeError {
    /// Creates a new type error.
    pub fn new<A: Into<TypeErrorType>, B: Into<TypeErrorType>>(expected: A, found: B) -> (r: Self)
        ensures
            call_ensures(A::into, (expected,), r.expected),
            call_ensures(B::into, (found,), r.found),
            A::obeys_into_spec() ==> r.expected == expected.into_spec(),
            B::obeys_into_spec() ==> r.found == found.into_spec(),
    {
        Self { expected: expected.into(), found: found.into() }
    }
}

impl From<Ipld> for TypeErrorType {
    fn from(ipld: Ipld) -> (r: Self) {
        Self::from(&ipld)
    }
}

impl FromSpecImpl<Ipld> for TypeErrorType {
    open spec fn obeys_from_spec() -> bool {
        true
    }

    open spec fn from_spec(ipld: Ipld) -> Self {
        case_of(&ipld)
    }
}

impl From<&Ipld> for TypeErrorType {
    fn from(ipld: &Ipld) -> (r: Self) {
        match ipld {
            Ipld::Null => Self::Null,
            Ipld::Bool(_) => Self::Bool,
            Ipld::Integer(_) => Self::Integer,
            Ipld::Float(_) => Self::Float,
            Ipld::String(_) => Self::String,
            Ipld::Bytes(_) => Self::Bytes,
            Ipld::List(_) => Self::List,
            Ipld::StringMap(_) => Self::StringMap,
            Ipld::IntegerMap(_) => Self::IntegerMap,
            Ipld::Link(_) => Self::Link,
            Ipld::Tag(_, _) => Self::Tag,
        }
    }
}

impl FromSpecImpl<&Ipld> for TypeErrorType {
    open spec fn obeys_from_spec() -> bool {
        true
    }

    open spec fn from_spec(ipld: &Ipld) -> Self {
        case_of(ipld)
    }
}

impl From<IpldIndex<'_>> for TypeErrorType {
    fn from(index: IpldIndex<'_>) -> (r: Self)
        ensures
            r@ == selector_of(index@),
    {
        match index {
            IpldIndex::List(i) => Self::Index(i),
            IpldIndex::MapOwned(s) => Self::Key(s),
            IpldIndex::MapRef(s) => Self::Key(s.to_owned()),
        }
    }
}

impl FromSpecImpl<IpldIndex<'_>> for TypeErrorType {
    open spec fn obeys_from_spec() -> bool {
        false
    }

    open spec fn from_spec(index: IpldIndex<'_>) -> Self {
        match index {
            IpldIndex::List(i) => TypeErrorType::Index(i),
            IpldIndex::MapOwned(s) => TypeErrorType::Key(s),
            IpldIndex::MapRef(_) => arbitrary(),
        }
    }
}

} // verus!
