//! What is written reads back: the laws that tie the writer of described types to their
//! reader.
use vstd::prelude::*;
use vstd::utf8::*;
use crate::ast::{DatumView, Kind, SchemaType, Struct, StructRepr, Union, UnionRepr};
use crate::gen::unknown_key;
use crate::cbor::{
    head, lemma_bool_reads_back, lemma_head_reads_back, lemma_key_reads_back,
    lemma_stands_at_parts, lemma_text_reads_back, lemma_unsigned_reads_back, stands_at, text_item,
    DecodeErrorView, Probe, FALSE, MAJOR_LIST, MAJOR_MAP, NULL, TRUE, UNDEFINED,
};

verus! {

impl Kind {
    /// Whether a value of the kind may start with the byte `major`.
    pub open spec fn takes(&self, major: u8) -> bool
        decreases self,
    {
        match self {
            Kind::Bool => major == FALSE || major == TRUE,
            Kind::Unsigned => major <= 0x1b,
            Kind::Text => 0x60 <= major <= 0x7b,
            Kind::Nested(inner) => inner.takes(major),
        }
    }

    /// Whether `value`, once written, can be read: see `Struct::reads_back` and
    /// `Union::reads_back`. A text must not be longer than a `usize` counts.
    pub open spec fn reads_back(&self, value: DatumView) -> bool
        decreases self,
    {
        match self {
            Kind::Text => encode_utf8(value->Text_0).len() <= usize::MAX,
            Kind::Nested(inner) => inner.reads_back(value),
            _ => true,
        }
    }
}

impl SchemaType {
    /// Whether a value of the type may start with the byte `major`.
    pub open spec fn takes(&self, major: u8) -> bool
        decreases self,
    {
        match self {
            SchemaType::Struct(s) => s.takes(major),
            SchemaType::Union(u) => u.takes(major),
        }
    }

    /// Whether `value`, once written, can be read.
    pub open spec fn reads_back(&self, value: DatumView) -> bool
        decreases self,
    {
        match self {
            SchemaType::Struct(s) => s.reads_back(value->Struct_0),
            SchemaType::Union(u) => u.reads_back(value),
        }
    }
}

impl Struct {
    /// Whether a record may start with the byte `major`.
    pub open spec fn takes(&self, major: u8) -> bool
        decreases self,
    {
        match self.repr {
            StructRepr::StringMap => 0xa0 <= major <= 0xbb,
            StructRepr::Tuple => 0x80 <= major <= 0x9b,
            StructRepr::Value => self.fields@.len() > 0 && self.fields@[0].kind.takes(major),
            StructRepr::Null => NULL <= major <= UNDEFINED,
        }
    }

    /// Whether every field is written when the fields hold `values`: none is at its
    /// default.
    pub open spec fn emits_all(&self, values: Seq<DatumView>) -> bool {
        forall|i: int| 0 <= i < self.fields@.len() ==> (#[trigger] self.fields@[i]).emits(values[i])
    }

    /// Whether a record with `values`, once written, can be read. No field may be left
    /// out, since the reader of a map or a list takes no other length than the number of
    /// fields, and the reader of a bare value expects the value; keys must not be longer
    /// than a `usize` counts; and the value of each field must be readable in turn.
    pub open spec fn reads_back(&self, values: Seq<DatumView>) -> bool
        decreases self,
    {
        &&& self.emits_all(values)
        &&& self.repr == StructRepr::StringMap ==> forall|i: int|
            0 <= i < self.fields@.len() ==> encode_utf8((#[trigger] self.fields@[i]).key()).len()
                <= usize::MAX
        &&& forall|i: int|
            0 <= i < self.fields@.len() ==> (#[trigger] self.fields@[i]).kind.reads_back(values[i])
    }
}

impl Union {
    /// Whether a value of the union may start with the byte `major`. A union of `Kinded`
    /// representation turns no byte away: where no variant takes it, the input is
    /// malformed.
    pub open spec fn takes(&self, major: u8) -> bool {
        match self.repr {
            UnionRepr::Keyed => major == 0xa1,
            UnionRepr::Kinded => true,
            UnionRepr::String => 0x60 <= major <= 0x7b,
            UnionRepr::Int => major <= 0x1b,
        }
    }

    /// Whether `value`, once written, can be read. The record of its variant must be
    /// readable, and no variant declared before its own may be taken for it: none has
    /// the same key (`Keyed`, `String`) or the same ordinal (`Int`), and none may start
    /// with the same byte (`Kinded`).
    pub open spec fn reads_back(&self, value: DatumView) -> bool
        decreases self,
    {
        let position = value->Union_0;
        let values = value->Union_1;
        let variant = self.variants@[position as int];
        &&& position < self.variants@.len() ==> variant.reads_back(values)
        &&& match self.repr {
            UnionRepr::Keyed | UnionRepr::String => {
                &&& encode_utf8(variant.key()).len() <= usize::MAX
                &&& forall|j: int|
                    0 <= j < position ==> (#[trigger] self.variants@[j]).key() != variant.key()
            },
            UnionRepr::Int => forall|j: int|
                0 <= j < position ==> (#[trigger] self.variants@[j]).ordinal != variant.ordinal,
            UnionRepr::Kinded => forall|j: int|
                0 <= j < position ==> !(#[trigger] self.variants@[j]).takes(
                    variant.encoding(values)[0],
                ),
        }
    }
}

/// A kind turns away every item whose leading byte it does not take, whatever follows
/// the byte.
pub proof fn lemma_kind_declines(kind: Kind, input: Seq<u8>, at: int, major: u8)
    requires
        !kind.takes(major),
    ensures
        kind.probe(input, at, major) == Probe::<DatumView>::NotThisShape,
    decreases kind,
{
    match kind {
        Kind::Nested(inner) => {
            lemma_schema_declines(*inner, input, at, major);
        },
        _ => {},
    }
}

/// A described type turns away every item whose leading byte it does not take.
pub proof fn lemma_schema_declines(ast: SchemaType, input: Seq<u8>, at: int, major: u8)
    requires
        !ast.takes(major),
    ensures
        ast.probe(input, at, major) == Probe::<DatumView>::NotThisShape,
    decreases ast,
{
    match ast {
        SchemaType::Struct(s) => {
            lemma_struct_declines(s, input, at, major);
        },
        SchemaType::Union(u) => {},
    }
}

/// A record turns away every item whose leading byte it does not take.
pub proof fn lemma_struct_declines(s: Struct, input: Seq<u8>, at: int, major: u8)
    requires
        !s.takes(major),
    ensures
        s.probe(input, at, major) == Probe::<Seq<DatumView>>::NotThisShape,
    decreases s,
{
    if s.repr == StructRepr::Value && s.fields@.len() > 0 {
        lemma_kind_declines(s.fields@[0].kind, input, at, major);
    }
}

/// Where no field is left out, the header counts every field.
pub proof fn lemma_emitted_count(s: Struct, values: Seq<DatumView>, n: nat)
    requires
        n <= s.fields@.len(),
    ensures
        s.emitted_count(values, n) <= n,
        s.emits_all(values) ==> s.emitted_count(values, n) == n,
        s.emitted_count(values, n) == n ==> forall|i: int|
            0 <= i < n ==> (#[trigger] s.fields@[i]).emits(values[i]),
    decreases n,
{
    if n > 0 {
        lemma_emitted_count(s, values, (n - 1) as nat);
    }
}

/// Where the bytes of the first `n` fields stand, the bytes of the first `i` of them
/// stand.
pub proof fn lemma_fields_prefix_stands(
    s: Struct,
    values: Seq<DatumView>,
    keyed: bool,
    i: nat,
    n: nat,
    input: Seq<u8>,
    start: int,
)
    requires
        i <= n <= s.fields@.len(),
        stands_at(input, start, s.fields_encoding(values, keyed, n)),
    ensures
        stands_at(input, start, s.fields_encoding(values, keyed, i)),
    decreases n - i,
{
    if i < n {
        let field = s.fields@[n - 1];
        let before = s.fields_encoding(values, keyed, (n - 1) as nat);
        if field.emits(values[n - 1]) {
            if keyed {
                lemma_stands_at_parts(
                    input,
                    start,
                    before + text_item(field.key()),
                    field.kind.encoding(values[n - 1]),
                );
                lemma_stands_at_parts(input, start, before, text_item(field.key()));
            } else {
                lemma_stands_at_parts(input, start, before, field.kind.encoding(values[n - 1]));
            }
        }
        lemma_fields_prefix_stands(s, values, keyed, i, (n - 1) as nat, input, start);
    }
}

/// What is written of a kind reads back: where the bytes of an admitted value stand, the
/// reader finds the value and ends after the bytes. The value must be one that can be
/// read: see `reads_back`.
pub proof fn lemma_kind_reads_back(kind: Kind, value: DatumView, input: Seq<u8>, at: int)
    requires
        kind.well_formed(),
        kind.admits(value),
        kind.reads_back(value),
        stands_at(input, at, kind.encoding(value)),
    ensures
        kind.encoding(value).len() > 0,
        input[at] == kind.encoding(value)[0],
        kind.takes(input[at]),
        kind.probe(input, at + 1, input[at]) == Probe::Matched(
            value,
            at + kind.encoding(value).len(),
        ),
        kind.decoding(input, at) == Ok::<(DatumView, int), DecodeErrorView>(
            (value, at + kind.encoding(value).len()),
        ),
    decreases kind, 0nat,
{
    match kind {
        Kind::Bool => {
            lemma_bool_reads_back(value->Bool_0, input, at);
        },
        Kind::Unsigned => {
            lemma_unsigned_reads_back(value->Unsigned_0, input, at);
        },
        Kind::Text => {
            lemma_text_reads_back(value->Text_0, input, at);
        },
        Kind::Nested(inner) => {
            lemma_schema_reads_back(*inner, value, input, at);
        },
    }
}

/// What is written of a described type reads back: where the bytes of an admitted value
/// stand, the reader finds the value and ends after the bytes. The value must be one
/// that can be read: no field at its default, and no variant that an
/// earlier one can be taken for.
pub proof fn lemma_schema_reads_back(ast: SchemaType, value: DatumView, input: Seq<u8>, at: int)
    requires
        ast.well_formed(),
        ast.admits(value),
        ast.reads_back(value),
        stands_at(input, at, ast.encoding(value)),
    ensures
        ast.encoding(value).len() > 0,
        input[at] == ast.encoding(value)[0],
        ast.takes(input[at]),
        ast.probe(input, at + 1, input[at]) == Probe::Matched(value, at + ast.encoding(value).len()),
        ast.decoding(input, at) == Ok::<(DatumView, int), DecodeErrorView>(
            (value, at + ast.encoding(value).len()),
        ),
    decreases ast, 0nat,
{
    match ast {
        SchemaType::Struct(s) => {
            lemma_struct_reads_back(s, value->Struct_0, input, at);
        },
        SchemaType::Union(u) => {
            lemma_union_reads_back(u, value, input, at);
        },
    }
}

/// The fields of a map or a list read back, from any field on: after the fields before
/// position `i`, the reader finds the values of all the fields and ends after the last.
pub proof fn lemma_fields_read_back(
    s: Struct,
    values: Seq<DatumView>,
    keyed: bool,
    i: nat,
    input: Seq<u8>,
    start: int,
)
    requires
        s.well_formed(),
        s.admits(values),
        s.reads_back(values),
        s.emits_all(values),
        keyed ==> s.repr == StructRepr::StringMap,
        i <= s.fields@.len(),
        stands_at(input, start, s.fields_encoding(values, keyed, s.fields@.len() as nat)),
    ensures
        s.fields_at(
            keyed,
            i,
            input,
            start + s.fields_encoding(values, keyed, i).len(),
            values.take(i as int),
        ) == Ok::<(Seq<DatumView>, int), DecodeErrorView>(
            (values, start + s.fields_encoding(values, keyed, s.fields@.len() as nat).len()),
        ),
    decreases s, s.fields@.len() - i,
{
    let n = s.fields@.len() as nat;
    if i >= n {
        assert(values.take(i as int) =~= values);
    } else {
        let field = s.fields@[i as int];
        let before = s.fields_encoding(values, keyed, i);
        let item = field.kind.encoding(values[i as int]);
        lemma_fields_prefix_stands(s, values, keyed, i + 1, n, input, start);
        assert(field.emits(values[i as int]));
        let from = if keyed {
            lemma_stands_at_parts(input, start, before + text_item(field.key()), item);
            lemma_stands_at_parts(input, start, before, text_item(field.key()));
            lemma_key_reads_back(field.key(), input, start + before.len());
            start + before.len() + text_item(field.key()).len()
        } else {
            lemma_stands_at_parts(input, start, before, item);
            start + before.len()
        };
        lemma_kind_reads_back(field.kind, values[i as int], input, from);
        lemma_fields_read_back(s, values, keyed, i + 1, input, start);
        assert(values.take(i as int).push(values[i as int]) =~= values.take((i + 1) as int));
    }
}

/// What is written of a record reads back.
pub proof fn lemma_struct_reads_back(s: Struct, values: Seq<DatumView>, input: Seq<u8>, at: int)
    requires
        s.well_formed(),
        s.admits(values),
        s.reads_back(values),
        stands_at(input, at, s.encoding(values)),
    ensures
        s.encoding(values).len() > 0,
        input[at] == s.encoding(values)[0],
        s.takes(input[at]),
        s.probe(input, at + 1, input[at]) == Probe::Matched(values, at + s.encoding(values).len()),
    decreases s, s.fields@.len() + 1,
{
    let n = s.fields@.len() as nat;
    match s.repr {
        StructRepr::StringMap | StructRepr::Tuple => {
            let keyed = s.repr == StructRepr::StringMap;
            let major = if keyed {
                MAJOR_MAP
            } else {
                MAJOR_LIST
            };
            lemma_emitted_count(s, values, n);
            assert(s.fields@.len() == s.fields.len());
            let h = head(major, n as u64);
            let body = s.fields_encoding(values, keyed, n);
            assert(s.encoding(values) == h + body);
            lemma_stands_at_parts(input, at, h, body);
            lemma_head_reads_back(major, n as u64, input, at);
            assert(s.encoding(values)[0] == h[0]);
            assert(input.subrange(at, at + h.len())[0] == h[0]);
            lemma_fields_read_back(s, values, keyed, 0, input, at + h.len());
            assert(values.take(0) =~= Seq::<DatumView>::empty());
        },
        StructRepr::Value => {
            assert(s.fields@[0].emits(values[0]));
            assert(s.fields_encoding(values, false, 0) =~= Seq::<u8>::empty());
            assert(s.encoding(values) =~= s.fields@[0].kind.encoding(values[0]));
            lemma_kind_reads_back(s.fields@[0].kind, values[0], input, at);
            assert(values =~= seq![values[0]]);
        },
        StructRepr::Null => {
            assert(input.subrange(at, at + 1)[0] == NULL);
            assert(values =~= Seq::<DatumView>::empty());
        },
    }
}

/// A key finds its variant: where no variant before `position` has the key of the one
/// at `position`, reading by that key from any earlier variant on is reading from
/// `position` on.
pub proof fn lemma_keyed_from(u: Union, i: nat, position: nat, input: Seq<u8>, at: int)
    requires
        i <= position < u.variants@.len(),
        forall|j: int|
            0 <= j < position ==> (#[trigger] u.variants@[j]).key() != u.variants@[position as int].key(),
    ensures
        u.keyed_from(i, u.variants@[position as int].key(), input, at) == u.keyed_from(
            position,
            u.variants@[position as int].key(),
            input,
            at,
        ),
    decreases position - i,
{
    if i < position {
        assert(u.variants@[i as int].key() != u.variants@[position as int].key());
        lemma_keyed_from(u, i + 1, position, input, at);
    }
}

/// A leading byte finds its variant: where no variant before `position` takes the byte,
/// trying the variants from any earlier one on is trying them from `position` on.
pub proof fn lemma_kinded_from(u: Union, i: nat, position: nat, input: Seq<u8>, at: int, major: u8)
    requires
        i <= position < u.variants@.len(),
        forall|j: int| 0 <= j < position ==> !(#[trigger] u.variants@[j]).takes(major),
    ensures
        u.kinded_from(i, input, at, major) == u.kinded_from(position, input, at, major),
    decreases position - i,
{
    if i < position {
        assert(!u.variants@[i as int].takes(major));
        lemma_struct_declines(u.variants@[i as int], input, at, major);
        lemma_kinded_from(u, i + 1, position, input, at, major);
    }
}

/// A key names its variant: where no variant before `position` has the key of the one
/// at `position`, the first variant with that key is that one.
pub proof fn lemma_named_from(u: Union, i: nat, position: usize)
    requires
        i <= position < u.variants@.len(),
        forall|j: int|
            0 <= j < position ==> (#[trigger] u.variants@[j]).key() != u.variants@[position as int].key(),
    ensures
        u.named_from(i, u.variants@[position as int].key()) == Some(position),
    decreases position - i,
{
    if i < position {
        assert(u.variants@[i as int].key() != u.variants@[position as int].key());
        lemma_named_from(u, i + 1, position);
    }
}

/// An ordinal names its variant: where no variant before `position` has the ordinal of
/// the one at `position`, the first variant with that ordinal is that one.
pub proof fn lemma_numbered_from(u: Union, i: nat, position: usize)
    requires
        i <= position < u.variants@.len(),
        forall|j: int|
            0 <= j < position ==> (#[trigger] u.variants@[j]).ordinal
                != u.variants@[position as int].ordinal,
    ensures
        u.numbered_from(i, u.variants@[position as int].ordinal) == Some(position),
    decreases position - i,
{
    if i < position {
        assert(u.variants@[i as int].ordinal != u.variants@[position as int].ordinal);
        lemma_numbered_from(u, i + 1, position);
    }
}

/// What is written of a union reads back.
pub proof fn lemma_union_reads_back(u: Union, value: DatumView, input: Seq<u8>, at: int)
    requires
        u.well_formed(),
        u.admits(value),
        u.reads_back(value),
        stands_at(input, at, u.encoding(value)),
    ensures
        u.encoding(value).len() > 0,
        input[at] == u.encoding(value)[0],
        u.takes(input[at]),
        u.probe(input, at + 1, input[at]) == Probe::Matched(value, at + u.encoding(value).len()),
    decreases u, 0nat,
{
    let position = value->Union_0;
    let values = value->Union_1;
    let variant = u.variants@[position as int];
    assert(variant.well_formed());
    match u.repr {
        UnionRepr::Keyed => {
            let h = head(MAJOR_MAP, 1);
            let k = text_item(variant.key());
            let body = variant.encoding(values);
            assert(h =~= seq![0xa1u8]);
            lemma_stands_at_parts(input, at, h + k, body);
            lemma_stands_at_parts(input, at, h, k);
            assert(input.subrange(at, at + 1)[0] == 0xa1);
            lemma_text_reads_back(variant.key(), input, at + 1);
            let from = at + 1 + k.len();
            lemma_struct_reads_back(variant, values, input, from);
            lemma_keyed_from(u, 0, position as nat, input, from);
        },
        UnionRepr::Kinded => {
            lemma_struct_reads_back(variant, values, input, at);
            lemma_kinded_from(u, 0, position as nat, input, at + 1, input[at]);
        },
        UnionRepr::String => {
            lemma_text_reads_back(variant.key(), input, at);
            lemma_named_from(u, 0, position);
            assert(values =~= Seq::<DatumView>::empty());
        },
        UnionRepr::Int => {
            lemma_unsigned_reads_back(variant.ordinal, input, at);
            lemma_numbered_from(u, 0, position);
            assert(values =~= Seq::<DatumView>::empty());
        },
    }
}

impl Union {
    /// Whether no two variants may start with the same byte, so that the leading byte of
    /// an item tells which variant it is of.
    pub open spec fn shapes_apart(&self) -> bool {
        forall|i: int, j: int, major: u8|
            0 <= i < j < self.variants@.len() ==> !(#[trigger] self.variants@[i].takes(major)
                && #[trigger] self.variants@[j].takes(major))
    }
}

/// In a union of `Kinded` representation whose variants start with different bytes, every
/// value reads back whose record does: no earlier variant is taken for its own.
pub proof fn lemma_shapes_apart_suffice(u: Union, value: DatumView)
    requires
        u.repr == UnionRepr::Kinded,
        u.well_formed(),
        u.admits(value),
        u.shapes_apart(),
        u.variants@[value->Union_0 as int].reads_back(value->Union_1),
    ensures
        u.reads_back(value),
{
    let position = value->Union_0;
    let variant = u.variants@[position as int];
    let bytes = variant.encoding(value->Union_1);
    assert(variant.well_formed());
    assert(bytes.subrange(0, bytes.len() as int) =~= bytes);
    lemma_struct_reads_back(variant, value->Union_1, bytes, 0);
    assert forall|j: int| 0 <= j < position implies !(#[trigger] u.variants@[j]).takes(
        bytes[0],
    ) by {
        if u.variants@[j].takes(bytes[0]) {
            assert(u.variants@[position as int].takes(bytes[0]));
        }
    }
}

/// Round trip: reading what was written of a value gives the value back, and ends where
/// the written bytes end. This holds for every representation of records and of unions,
/// of the values that can be read: see `reads_back`.
pub proof fn lemma_roundtrip(ast: SchemaType, value: DatumView)
    requires
        ast.well_formed(),
        ast.admits(value),
        ast.reads_back(value),
    ensures
        ast.decoding(ast.encoding(value), 0) == Ok::<(DatumView, int), DecodeErrorView>(
            (value, ast.encoding(value).len() as int),
        ),
{
    let bytes = ast.encoding(value);
    assert(bytes.subrange(0, bytes.len() as int) =~= bytes);
    lemma_schema_reads_back(ast, value, bytes, 0);
}

/// Default elision: a field that holds its declared default adds nothing to the bytes of
/// a map or a list, neither key nor value, and is not counted in the header.
pub proof fn lemma_default_is_left_out(s: Struct, values: Seq<DatumView>, keyed: bool, i: nat)
    requires
        i < s.fields@.len(),
        s.fields@[i as int].default is Some,
        s.fields@[i as int].default->0@ == values[i as int],
    ensures
        s.fields_encoding(values, keyed, i + 1) == s.fields_encoding(values, keyed, i),
        s.emitted_count(values, i + 1) == s.emitted_count(values, i),
{
}

/// The reader expects every field: a map or a list that was written with a field left
/// out announces fewer fields than the record has, and reading it fails with
/// `LengthOutOfRange`.
pub proof fn lemma_elided_record_is_refused(
    s: Struct,
    values: Seq<DatumView>,
    input: Seq<u8>,
    at: int,
)
    requires
        s.repr == StructRepr::StringMap || s.repr == StructRepr::Tuple,
        !s.emits_all(values),
        stands_at(input, at, s.encoding(values)),
    ensures
        s.probe(input, at + 1, input[at]) == Probe::<Seq<DatumView>>::Malformed(
            DecodeErrorView::LengthOutOfRange,
        ),
{
    let n = s.fields@.len() as nat;
    let keyed = s.repr == StructRepr::StringMap;
    let major = if keyed {
        MAJOR_MAP
    } else {
        MAJOR_LIST
    };
    lemma_emitted_count(s, values, n);
    assert(s.fields@.len() == s.fields.len());
    let count = s.emitted_count(values, n);
    assert(count < n);
    let h = head(major, count as u64);
    lemma_stands_at_parts(input, at, h, s.fields_encoding(values, keyed, n));
    lemma_head_reads_back(major, count as u64, input, at);
    assert(input.subrange(at, at + h.len())[0] == h[0]);
}

/// Keyed-union rejection: a key that is the key of no variant is refused, whatever
/// follows it, and the error names the key.
pub proof fn lemma_unknown_key_is_refused(
    u: Union,
    i: nat,
    key: Seq<char>,
    input: Seq<u8>,
    at: int,
)
    requires
        forall|j: int| 0 <= j < u.variants@.len() ==> (#[trigger] u.variants@[j]).key() != key,
    ensures
        u.keyed_from(i, key, input, at) == Err::<(DatumView, int), DecodeErrorView>(
            unknown_key(key),
        ),
    decreases u.variants@.len() - i,
{
    if i < u.variants@.len() {
        assert(u.variants@[i as int].key() != key);
        lemma_unknown_key_is_refused(u, i + 1, key, input, at);
    }
}

/// Kinded-union tie-break: of the variants that take an item, the one declared first
/// wins. Where the variants before `position` turn the item away and the one at
/// `position` takes it, the union reads the item as that variant, whatever the variants
/// after it would do.
pub proof fn lemma_first_match_wins(
    u: Union,
    i: nat,
    position: nat,
    input: Seq<u8>,
    at: int,
    major: u8,
)
    requires
        i <= position < u.variants@.len(),
        forall|j: int|
            i <= j < position ==> (#[trigger] u.variants@[j]).probe(input, at, major)
                is NotThisShape,
        u.variants@[position as int].probe(input, at, major) is Matched,
    ensures
        u.kinded_from(i, input, at, major) == Ok::<(DatumView, int), DecodeErrorView>(
            (
                DatumView::Union(
                    position as usize,
                    u.variants@[position as int].probe(input, at, major)->Matched_0,
                ),
                u.variants@[position as int].probe(input, at, major)->Matched_1,
            ),
        ),
    decreases position - i,
{
    if i < position {
        assert(u.variants@[i as int].probe(input, at, major) is NotThisShape);
        lemma_first_match_wins(u, i + 1, position, input, at, major);
    }
}

} // verus!
