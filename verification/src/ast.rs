//! Descriptions of records and unions, and the values that they describe.
use vstd::prelude::*;
use crate::decimal::{decimal, write_u64_decimal};

verus! {

/// How a record is laid out on the wire.
#[derive(Clone, Copy, Debug, PartialEq, Eq, Structural)]
pub enum StructRepr {
    /// A map from the fields' keys to their values.
    StringMap,
    /// A list of the fields' values.
    Tuple,
    /// The value of the only field, with nothing around it.
    Value,
    /// The null item; the record has no field.
    Null,
}

/// How a union is laid out on the wire.
#[derive(Clone, Copy, Debug, PartialEq, Eq, Structural)]
pub enum UnionRepr {
    /// A map of one entry, from the variant's key to the variant's record.
    Keyed,
    /// The variant's record, with nothing around it.
    Kinded,
    /// The variant's key as text; no variant has a field.
    String,
    /// The variant's ordinal as an unsigned integer; no variant has a field.
    Int,
}

/// The name of a field: an identifier, or the position of an unnamed field.
#[derive(Debug, PartialEq, Eq)]
pub enum Member {
    /// A named field.
    Named(String),
    /// An unnamed field.
    Unnamed(u32),
}

/// What a field holds.
#[derive(Debug, PartialEq)]
pub enum Kind {
    /// A boolean.
    Bool,
    /// An unsigned integer of 64 bits.
    Unsigned,
    /// A string.
    Text,
    /// A record or a union.
    Nested(Box<SchemaType>),
}

/// A field of a record.
#[derive(Debug, PartialEq)]
pub struct Field {
    /// The name of the field.
    pub name: Member,
    /// The key under which the field goes on the wire, where that is not its name.
    pub rename: Option<String>,
    /// The value at which the field is left out when the record is written.
    pub default: Option<Datum>,
    /// What the field holds.
    pub kind: Kind,
}

/// A record, or a variant of a union.
#[derive(Debug, PartialEq)]
pub struct Struct {
    /// The name of the record.
    pub name: String,
    /// The key under which a variant goes on the wire, where that is not its name.
    pub rename: Option<String>,
    /// The number that stands for a variant in a union of `Int` representation.
    pub ordinal: u64,
    /// The fields, in the order of their declaration.
    pub fields: Vec<Field>,
    /// The representation.
    pub repr: StructRepr,
}

/// A union.
#[derive(Debug, PartialEq)]
pub struct Union {
    /// The name of the union.
    pub name: String,
    /// The variants, in the order of their declaration.
    pub variants: Vec<Struct>,
    /// The representation.
    pub repr: UnionRepr,
}

/// A described type.
#[derive(Debug, PartialEq)]
pub enum SchemaType {
    /// A record.
    Struct(Struct),
    /// A union.
    Union(Union),
}

/// A value of a described type.
#[derive(Debug, PartialEq)]
pub enum Datum {
    /// A boolean.
    Bool(bool),
    /// An unsigned integer.
    Unsigned(u64),
    /// A string.
    Text(String),
    /// A record: the values of its fields, in the order of their declaration.
    Struct(Vec<Datum>),
    /// A value of a union: the position of the variant, and the values of the variant's
    /// fields.
    Union(usize, Vec<Datum>),
}

/// What a `Datum` stands for.
pub ghost enum DatumView {
    Bool(bool),
    Unsigned(u64),
    Text(Seq<char>),
    Struct(Seq<DatumView>),
    Union(usize, Seq<DatumView>),
}

/// What each of `values` stands for.
pub open spec fn datum_views(values: Seq<Datum>) -> Seq<DatumView>
    decreases values,
{
    if values.len() == 0 {
        Seq::empty()
    } else {
        datum_views(values.drop_last()).push(values.last().view())
    }
}

impl View for Datum {
    type V = DatumView;

    open spec fn view(&self) -> DatumView
        decreases self,
    {
        match self {
            Datum::Bool(b) => DatumView::Bool(*b),
            Datum::Unsigned(n) => DatumView::Unsigned(*n),
            Datum::Text(s) => DatumView::Text(s@),
            Datum::Struct(values) => DatumView::Struct(datum_views(values@)),
            Datum::Union(variant, values) => DatumView::Union(*variant, datum_views(values@)),
        }
    }
}

/// The views of values stand at the positions of the values.
pub proof fn lemma_datum_views(values: Seq<Datum>)
    ensures
        datum_views(values).len() == values.len(),
        forall|i: int| 0 <= i < values.len() ==> (#[trigger] datum_views(values)[i]) == values[i]@,
    decreases values.len(),
{
    if values.len() > 0 {
        lemma_datum_views(values.drop_last());
        assert(datum_views(values) == datum_views(values.drop_last()).push(values.last().view()));
    } else {
        assert(datum_views(values) == Seq::<DatumView>::empty());
    }
}

/// Whether `a` and `b` hold the same values, one by one.
fn same_all(a: &Vec<Datum>, b: &Vec<Datum>) -> (r: bool)
    ensures
        r == (datum_views(a@) == datum_views(b@)),
    decreases a,
{
    proof {
        lemma_datum_views(a@);
        lemma_datum_views(b@);
    }
    if a.len() != b.len() {
        return false;
    }
    let mut i: usize = 0;
    while i < a.len()
        invariant
            i <= a@.len(),
            a@.len() == b@.len(),
            datum_views(a@).len() == a@.len(),
            datum_views(b@).len() == b@.len(),
            forall|j: int| 0 <= j < a@.len() ==> (#[trigger] datum_views(a@)[j]) == a@[j]@,
            forall|j: int| 0 <= j < b@.len() ==> (#[trigger] datum_views(b@)[j]) == b@[j]@,
            forall|j: int| 0 <= j < i ==> a@[j]@ == b@[j]@,
        decreases a@.len() - i,
    {
        if !a[i].same(&b[i]) {
            assert(datum_views(a@)[i as int] != datum_views(b@)[i as int]);
            return false;
        }
        i += 1;
    }
    assert(datum_views(a@) =~= datum_views(b@));
    true
}

impl Datum {
    /// Whether two values are the same.
    pub fn same(&self, other: &Datum) -> (r: bool)
        ensures
            r == (self@ == other@),
        decreases self,
    {
        match (self, other) {
            (Datum::Bool(a), Datum::Bool(b)) => *a == *b,
            (Datum::Unsigned(a), Datum::Unsigned(b)) => *a == *b,
            (Datum::Text(a), Datum::Text(b)) => *a == *b,
            (Datum::Struct(a), Datum::Struct(b)) => same_all(a, b),
            (Datum::Union(i, a), Datum::Union(j, b)) => *i == *j && same_all(a, b),
            _ => false,
        }
    }
}

impl Member {
    /// The name as text: an identifier as it is, a position in decimal.
    pub open spec fn text(&self) -> Seq<char> {
        match self {
            Member::Named(name) => name@,
            Member::Unnamed(position) => decimal(*position as nat),
        }
    }
}

/// The key under which a member goes on the wire: the name it was renamed to, or else
/// its own.
pub open spec fn wire_key(name: &Member, rename: Option<String>) -> Seq<char> {
    match rename {
        Some(key) => key@,
        None => name.text(),
    }
}

/// The key under which a member goes on the wire.
pub fn rename(name: &Member, renamed: &Option<String>) -> (key: String)
    ensures
        key@ == wire_key(name, *renamed),
{
    match renamed {
        Some(key) => key.clone(),
        None => match name {
            Member::Named(ident) => ident.clone(),
            Member::Unnamed(index) => write_u64_decimal(*index as u64),
        },
    }
}

impl Field {
    /// The key under which the field goes on the wire.
    pub open spec fn key(&self) -> Seq<char> {
        wire_key(&self.name, self.rename)
    }

    /// Whether the field is written when it holds `value`: a field is left out at its
    /// default.
    pub open spec fn emits(&self, value: DatumView) -> bool {
        match self.default {
            Some(default) => default@ != value,
            None => true,
        }
    }
}

impl Struct {
    /// The key under which the record, as a variant of a union, goes on the wire.
    pub open spec fn key(&self) -> Seq<char> {
        match self.rename {
            Some(key) => key@,
            None => self.name@,
        }
    }

    /// The key under which the record, as a variant of a union, goes on the wire.
    pub fn wire_name(&self) -> (key: &str)
        ensures
            key@ == self.key(),
    {
        match &self.rename {
            Some(key) => key.as_str(),
            None => self.name.as_str(),
        }
    }

    /// Whether the record can be written and read: a record of `Value` representation has
    /// one field, one of `Null` representation has none, and every field that is itself
    /// described is well formed.
    pub open spec fn well_formed(&self) -> bool
        decreases self,
    {
        &&& self.repr == StructRepr::Value ==> self.fields@.len() == 1
        &&& self.repr == StructRepr::Null ==> self.fields@.len() == 0
        &&& forall|i: int|
            0 <= i < self.fields@.len() ==> (#[trigger] self.fields@[i]).kind.well_formed()
    }

    /// Whether `values` are values of the record's fields, one for each.
    pub open spec fn admits(&self, values: Seq<DatumView>) -> bool
        decreases self,
    {
        &&& values.len() == self.fields@.len()
        &&& forall|i: int|
            0 <= i < self.fields@.len() ==> (#[trigger] self.fields@[i]).kind.admits(values[i])
    }
}

impl Union {
    /// Whether the union can be written and read: in a union of `String` or `Int`
    /// representation every variant is of `Null` representation, and every variant is
    /// well formed.
    pub open spec fn well_formed(&self) -> bool
        decreases self,
    {
        &&& forall|i: int|
            0 <= i < self.variants@.len() ==> (#[trigger] self.variants@[i]).well_formed()
        &&& self.repr == UnionRepr::String || self.repr == UnionRepr::Int ==> forall|i: int|
            0 <= i < self.variants@.len() ==> (#[trigger] self.variants@[i]).repr
                == StructRepr::Null
    }

    /// Whether `value` is a value of the union: it names a variant and holds values of
    /// that variant's fields.
    pub open spec fn admits(&self, value: DatumView) -> bool
        decreases self,
    {
        match value {
            DatumView::Union(variant, values) => variant < self.variants@.len()
                && self.variants@[variant as int].admits(values),
            _ => false,
        }
    }
}

impl SchemaType {
    /// Whether the type can be written and read.
    pub open spec fn well_formed(&self) -> bool
        decreases self,
    {
        match self {
            SchemaType::Struct(s) => s.well_formed(),
            SchemaType::Union(u) => u.well_formed(),
        }
    }

    /// Whether `value` is a value of the type.
    pub open spec fn admits(&self, value: DatumView) -> bool
        decreases self,
    {
        match self {
            SchemaType::Struct(s) => match value {
                DatumView::Struct(values) => s.admits(values),
                _ => false,
            },
            SchemaType::Union(u) => u.admits(value),
        }
    }
}

impl Kind {
    /// Whether values of the kind can be written and read.
    pub open spec fn well_formed(&self) -> bool
        decreases self,
    {
        match self {
            Kind::Nested(inner) => inner.well_formed(),
            _ => true,
        }
    }

    /// Whether `value` is a value of the kind.
    pub open spec fn admits(&self, value: DatumView) -> bool
        decreases self,
    {
        match self {
            Kind::Bool => value is Bool,
            Kind::Unsigned => value is Unsigned,
            Kind::Text => value is Text,
            Kind::Nested(inner) => inner.admits(value),
        }
    }
}

impl Kind {
    /// Tells whether values of the kind can be written and read.
    pub fn is_well_formed(&self) -> (r: bool)
        ensures
            r == self.well_formed(),
        decreases self,
    {
        match self {
            Kind::Nested(inner) => inner.is_well_formed(),
            _ => true,
        }
    }

    /// Tells whether `value` is a value of the kind.
    pub fn holds(&self, value: &Datum) -> (r: bool)
        ensures
            r == self.admits(value@),
        decreases self,
    {
        match self {
            Kind::Bool => matches!(value, Datum::Bool(_)),
            Kind::Unsigned => matches!(value, Datum::Unsigned(_)),
            Kind::Text => matches!(value, Datum::Text(_)),
            Kind::Nested(inner) => inner.holds(value),
        }
    }
}

impl SchemaType {
    /// Tells whether the type can be written and read.
    pub fn is_well_formed(&self) -> (r: bool)
        ensures
            r == self.well_formed(),
        decreases self,
    {
        match self {
            SchemaType::Struct(s) => s.is_well_formed(),
            SchemaType::Union(u) => u.is_well_formed(),
        }
    }

    /// Tells whether `value` is a value of the type.
    pub fn holds(&self, value: &Datum) -> (r: bool)
        ensures
            r == self.admits(value@),
        decreases self,
    {
        match self {
            SchemaType::Struct(s) => match value {
                Datum::Struct(values) => s.holds(values),
                _ => false,
            },
            SchemaType::Union(u) => u.holds(value),
        }
    }
}

impl Struct {
    /// Tells whether the record can be written and read.
    pub fn is_well_formed(&self) -> (r: bool)
        ensures
            r == self.well_formed(),
        decreases self,
    {
        match self.repr {
            StructRepr::Value => {
                if self.fields.len() != 1 {
                    return false;
                }
            },
            StructRepr::Null => {
                if self.fields.len() != 0 {
                    return false;
                }
            },
            _ => {},
        }
        let mut i: usize = 0;
        while i < self.fields.len()
            invariant
                i <= self.fields@.len(),
                forall|j: int| 0 <= j < i ==> (#[trigger] self.fields@[j]).kind.well_formed(),
            decreases self.fields@.len() - i,
        {
            if !self.fields[i].kind.is_well_formed() {
                return false;
            }
            i += 1;
        }
        true
    }

    /// Tells whether `values` are values of the record's fields, one for each.
    pub fn holds(&self, values: &Vec<Datum>) -> (r: bool)
        ensures
            r == self.admits(datum_views(values@)),
        decreases self,
    {
        proof {
            lemma_datum_views(values@);
        }
        if values.len() != self.fields.len() {
            return false;
        }
        let ghost views = datum_views(values@);
        let mut i: usize = 0;
        while i < self.fields.len()
            invariant
                i <= self.fields@.len(),
                values@.len() == self.fields@.len(),
                views == datum_views(values@),
                views.len() == values@.len(),
                forall|j: int| 0 <= j < values@.len() ==> (#[trigger] views[j]) == values@[j]@,
                forall|j: int| 0 <= j < i ==> (#[trigger] self.fields@[j]).kind.admits(views[j]),
            decreases self.fields@.len() - i,
        {
            if !self.fields[i].kind.holds(&values[i]) {
                return false;
            }
            i += 1;
        }
        true
    }
}

impl Union {
    /// Tells whether the union can be written and read.
    pub fn is_well_formed(&self) -> (r: bool)
        ensures
            r == self.well_formed(),
        decreases self,
    {
        let bare: bool = matches!(self.repr, UnionRepr::String | UnionRepr::Int);
        let mut i: usize = 0;
        while i < self.variants.len()
            invariant
                i <= self.variants@.len(),
                bare == (self.repr == UnionRepr::String || self.repr == UnionRepr::Int),
                forall|j: int| 0 <= j < i ==> (#[trigger] self.variants@[j]).well_formed(),
                bare ==> forall|j: int|
                    0 <= j < i ==> (#[trigger] self.variants@[j]).repr == StructRepr::Null,
            decreases self.variants@.len() - i,
        {
            let variant = &self.variants[i];
            if !variant.is_well_formed() {
                return false;
            }
            if bare && !matches!(variant.repr, StructRepr::Null) {
                return false;
            }
            i += 1;
        }
        true
    }

    /// Tells whether `value` is a value of the union.
    pub fn holds(&self, value: &Datum) -> (r: bool)
        ensures
            r == self.admits(value@),
        decreases self,
    {
        match value {
            Datum::Union(variant, values) => {
                *variant < self.variants.len() && self.variants[*variant].holds(values)
            },
            _ => false,
        }
    }
}

} // verus!
