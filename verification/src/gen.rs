//! The codec of described types: how a value of a record or a union is written, and how
//! it is read back.
use vstd::prelude::*;
use crate::ast::{
    datum_views, lemma_datum_views, rename, Datum, DatumView, Field, Kind, SchemaType, Struct,
    StructRepr, Union, UnionRepr,
};
use crate::cbor::{
    bool_item, byte_at, head, key_at, len_at, probe_bool, probe_text, probe_unsigned, read_key,
    read_len, read_text, read_u8, text_at, text_item, try_read_bool, try_read_text,
    try_read_unsigned, unsigned_item, write_bool, write_null, write_text, write_u64, DecodeError,
    DecodeErrorView, Probe, MAJOR_LIST, MAJOR_MAP, MAJOR_UNSIGNED, NULL, UNDEFINED,
};
use crate::decimal::{decimal, write_u64_decimal};
use crate::error::{TypeError, TypeErrorType, TypeErrorTypeView, TypeErrorView};
use crate::order::{compare_keys, KeyOrder};

verus! {

impl Kind {
    /// The bytes of `value` as a value of the kind.
    pub open spec fn encoding(&self, value: DatumView) -> Seq<u8>
        decreases self, 0nat,
    {
        match self {
            Kind::Bool => bool_item(value->Bool_0),
            Kind::Unsigned => unsigned_item(value->Unsigned_0),
            Kind::Text => text_item(value->Text_0),
            Kind::Nested(inner) => inner.encoding(value),
        }
    }
}

impl SchemaType {
    /// The bytes of `value` as a value of the type.
    pub open spec fn encoding(&self, value: DatumView) -> Seq<u8>
        decreases self, 0nat,
    {
        match self {
            SchemaType::Struct(s) => s.encoding(value->Struct_0),
            SchemaType::Union(u) => u.encoding(value),
        }
    }
}

impl Struct {
    /// How many of the first `n` fields are written when the fields hold `values`.
    pub open spec fn emitted_count(&self, values: Seq<DatumView>, n: nat) -> nat
        decreases n,
    {
        if n == 0 {
            0
        } else if self.fields@[n - 1].emits(values[n - 1]) {
            self.emitted_count(values, (n - 1) as nat) + 1
        } else {
            self.emitted_count(values, (n - 1) as nat)
        }
    }

    /// The bytes of the first `n` fields, in the order of their declaration: of each one
    /// that is written its key, if `keyed`, and its value.
    pub open spec fn fields_encoding(&self, values: Seq<DatumView>, keyed: bool, n: nat) -> Seq<u8>
        decreases self, n,
    {
        if n == 0 || n > self.fields@.len() {
            Seq::empty()
        } else {
            let field = self.fields@[n - 1];
            let before = self.fields_encoding(values, keyed, (n - 1) as nat);
            if !field.emits(values[n - 1]) {
                before
            } else if keyed {
                before + text_item(field.key()) + field.kind.encoding(values[n - 1])
            } else {
                before + field.kind.encoding(values[n - 1])
            }
        }
    }

    /// The bytes of a record whose fields hold `values`.
    ///
    /// - `StringMap`: a map header with the number of fields that are written, then each
    ///   of them as key and value.
    /// - `Tuple`: a list header with the number of fields that are written, then the value
    ///   of each of them.
    /// - `Value`: the value of the only field, with nothing around it.
    /// - `Null`: the null item.
    ///
    /// In every representation a field that holds its default is left out, so that the
    /// bytes of a record of `Value` representation are empty at the default.
    pub open spec fn encoding(&self, values: Seq<DatumView>) -> Seq<u8>
        decreases self, self.fields@.len() + 1,
    {
        let n = self.fields@.len();
        match self.repr {
            StructRepr::StringMap => head(MAJOR_MAP, self.emitted_count(values, n) as u64)
                + self.fields_encoding(values, true, n),
            StructRepr::Tuple => head(MAJOR_LIST, self.emitted_count(values, n) as u64)
                + self.fields_encoding(values, false, n),
            StructRepr::Value => self.fields_encoding(values, false, n),
            StructRepr::Null => seq![NULL],
        }
    }
}

impl Union {
    /// The bytes of `value` as a value of the union.
    ///
    /// - `Keyed`: the header of a map of one entry, the variant's key, the variant's
    ///   record.
    /// - `Kinded`: the variant's record.
    /// - `String`: the variant's key.
    /// - `Int`: the variant's ordinal.
    pub open spec fn encoding(&self, value: DatumView) -> Seq<u8>
        decreases self, 0nat,
    {
        let position = value->Union_0;
        if position < self.variants@.len() {
            let variant = self.variants@[position as int];
            match self.repr {
                UnionRepr::Keyed => head(MAJOR_MAP, 1) + text_item(variant.key())
                    + variant.encoding(value->Union_1),
                UnionRepr::Kinded => variant.encoding(value->Union_1),
                UnionRepr::String => text_item(variant.key()),
                UnionRepr::Int => unsigned_item(variant.ordinal),
            }
        } else {
            Seq::empty()
        }
    }
}

/// Whether `field` is written when it holds `value`.
fn emits(field: &Field, value: &Datum) -> (r: bool)
    ensures
        r == field.emits(value@),
{
    match &field.default {
        Some(default) => !default.same(value),
        None => true,
    }
}

/// Writes `value` as a value of `kind`.
fn encode_kind(kind: &Kind, value: &Datum, w: &mut Vec<u8>)
    requires
        kind.well_formed(),
        kind.admits(value@),
    ensures
        final(w)@ == old(w)@ + kind.encoding(value@),
    decreases kind, 0nat,
{
    match kind {
        Kind::Bool => {
            if let Datum::Bool(b) = value {
                write_bool(w, *b);
            }
        },
        Kind::Unsigned => {
            if let Datum::Unsigned(n) = value {
                write_u64(w, MAJOR_UNSIGNED, *n);
            }
        },
        Kind::Text => {
            if let Datum::Text(s) = value {
                write_text(w, s.as_str());
            }
        },
        Kind::Nested(inner) => {
            gen_encode(inner, value, w);
        },
    }
}

/// Writes `value` as a value of the type that `ast` describes.
pub fn gen_encode(ast: &SchemaType, value: &Datum, w: &mut Vec<u8>)
    requires
        ast.well_formed(),
        ast.admits(value@),
    ensures
        final(w)@ == old(w)@ + ast.encoding(value@),
    decreases ast, 0nat,
{
    match ast {
        SchemaType::Struct(s) => {
            if let Datum::Struct(values) = value {
                gen_encode_struct_body(s, values, w);
            }
        },
        SchemaType::Union(u) => {
            gen_encode_union(u, value, w);
        },
    }
}

/// Writes a record whose fields hold `values`.
pub fn gen_encode_struct_body(s: &Struct, values: &Vec<Datum>, w: &mut Vec<u8>)
    requires
        s.well_formed(),
        s.admits(datum_views(values@)),
    ensures
        final(w)@ == old(w)@ + s.encoding(datum_views(values@)),
    decreases s, s.fields@.len() + 1,
{
    let ghost views = datum_views(values@);
    proof {
        lemma_datum_views(values@);
    }
    match s.repr {
        StructRepr::StringMap | StructRepr::Tuple => {
            let keyed: bool = matches!(s.repr, StructRepr::StringMap);
            let mut count: usize = 0;
            let mut i: usize = 0;
            while i < s.fields.len()
                invariant
                    i <= s.fields@.len(),
                    values@.len() == s.fields@.len(),
                    views == datum_views(values@),
                    forall|j: int| 0 <= j < values@.len() ==> (#[trigger] views[j]) == values@[j]@,
                    count == s.emitted_count(views, i as nat),
                    count <= i,
                decreases s.fields@.len() - i,
            {
                if emits(&s.fields[i], &values[i]) {
                    count += 1;
                }
                i += 1;
            }
            if keyed {
                write_u64(w, MAJOR_MAP, count as u64);
            } else {
                write_u64(w, MAJOR_LIST, count as u64);
            }
            let ghost start = w@;
            let mut i: usize = 0;
            assert(w@ =~= start + s.fields_encoding(views, keyed, 0));
            while i < s.fields.len()
                invariant
                    i <= s.fields@.len(),
                    s.well_formed(),
                    s.admits(views),
                    values@.len() == s.fields@.len(),
                    views == datum_views(values@),
                    forall|j: int| 0 <= j < values@.len() ==> (#[trigger] views[j]) == values@[j]@,
                    w@ == start + s.fields_encoding(views, keyed, i as nat),
                decreases s.fields@.len() - i,
            {
                let field = &s.fields[i];
                if emits(field, &values[i]) {
                    if keyed {
                        let key = rename(&field.name, &field.rename);
                        write_text(w, key.as_str());
                    }
                    encode_kind(&field.kind, &values[i], w);
                }
                assert(w@ =~= start + s.fields_encoding(views, keyed, (i + 1) as nat));
                i += 1;
            }
            assert(w@ =~= old(w)@ + s.encoding(views));
        },
        StructRepr::Value => {
            assert(s.fields_encoding(views, false, 0) =~= Seq::<u8>::empty());
            if emits(&s.fields[0], &values[0]) {
                encode_kind(&s.fields[0].kind, &values[0], w);
            }
            assert(w@ =~= old(w)@ + s.fields_encoding(views, false, 1));
        },
        StructRepr::Null => {
            write_null(w);
        },
    }
}

/// Writes `value` as a value of the union.
pub fn gen_encode_union(u: &Union, value: &Datum, w: &mut Vec<u8>)
    requires
        u.well_formed(),
        u.admits(value@),
    ensures
        final(w)@ == old(w)@ + u.encoding(value@),
    decreases u, 0nat,
{
    if let Datum::Union(position, values) = value {
        let variant = &u.variants[*position];
        match u.repr {
            UnionRepr::Keyed => {
                write_u64(w, MAJOR_MAP, 1);
                write_text(w, variant.wire_name());
                gen_encode_struct_body(variant, values, w);
                assert(w@ =~= old(w)@ + u.encoding(value@));
            },
            UnionRepr::Kinded => {
                gen_encode_struct_body(variant, values, w);
            },
            UnionRepr::String => {
                write_text(w, variant.wire_name());
            },
            UnionRepr::Int => {
                write_u64(w, MAJOR_UNSIGNED, variant.ordinal);
            },
        }
    }
}

/// The type error for a discriminant that no variant has: it names the discriminant.
pub open spec fn unknown_key(key: Seq<char>) -> DecodeErrorView {
    DecodeErrorView::Type(
        TypeErrorView { expected: TypeErrorTypeView::Key(key), found: TypeErrorTypeView::Null },
    )
}

/// The type error for an item that no variant of a `Kinded` union takes.
pub open spec fn no_variant() -> DecodeErrorView {
    DecodeErrorView::Type(
        TypeErrorView { expected: TypeErrorTypeView::Null, found: TypeErrorTypeView::Null },
    )
}

impl Kind {
    /// Reading a value of the kind whose leading byte is `major` and whose further bytes
    /// start at `at`.
    pub open spec fn probe(&self, input: Seq<u8>, at: int, major: u8) -> Probe<DatumView>
        decreases self, 0nat,
    {
        match self {
            Kind::Bool => match probe_bool(major, at) {
                Probe::Matched(b, end) => Probe::Matched(DatumView::Bool(b), end),
                Probe::NotThisShape => Probe::NotThisShape,
                Probe::Malformed(e) => Probe::Malformed(e),
            },
            Kind::Unsigned => match probe_unsigned(input, at, major) {
                Probe::Matched(n, end) => Probe::Matched(DatumView::Unsigned(n), end),
                Probe::NotThisShape => Probe::NotThisShape,
                Probe::Malformed(e) => Probe::Malformed(e),
            },
            Kind::Text => match probe_text(input, at, major) {
                Probe::Matched(s, end) => Probe::Matched(DatumView::Text(s), end),
                Probe::NotThisShape => Probe::NotThisShape,
                Probe::Malformed(e) => Probe::Malformed(e),
            },
            Kind::Nested(inner) => inner.probe(input, at, major),
        }
    }

    /// Reading the value of the kind at `at`, leading byte included. An item of another
    /// shape there is malformed input.
    pub open spec fn decoding(&self, input: Seq<u8>, at: int) -> Result<
        (DatumView, int),
        DecodeErrorView,
    >
        decreases self, 1nat,
    {
        match byte_at(input, at) {
            Ok((major, next)) => match self.probe(input, next, major) {
                Probe::Matched(value, end) => Ok((value, end)),
                Probe::NotThisShape => Err(DecodeErrorView::UnexpectedCode(major)),
                Probe::Malformed(e) => Err(e),
            },
            Err(e) => Err(e),
        }
    }
}

impl SchemaType {
    /// Reading a value of the type whose leading byte is `major` and whose further bytes
    /// start at `at`.
    pub open spec fn probe(&self, input: Seq<u8>, at: int, major: u8) -> Probe<DatumView>
        decreases self, 0nat,
    {
        match self {
            SchemaType::Struct(s) => match s.probe(input, at, major) {
                Probe::Matched(values, end) => Probe::Matched(DatumView::Struct(values), end),
                Probe::NotThisShape => Probe::NotThisShape,
                Probe::Malformed(e) => Probe::Malformed(e),
            },
            SchemaType::Union(u) => u.probe(input, at, major),
        }
    }

    /// Reading the value of the type at `at`, leading byte included. An item of another
    /// shape there is malformed input.
    pub open spec fn decoding(&self, input: Seq<u8>, at: int) -> Result<
        (DatumView, int),
        DecodeErrorView,
    > {
        match byte_at(input, at) {
            Ok((major, next)) => match self.probe(input, next, major) {
                Probe::Matched(value, end) => Ok((value, end)),
                Probe::NotThisShape => Err(DecodeErrorView::UnexpectedCode(major)),
                Probe::Malformed(e) => Err(e),
            },
            Err(e) => Err(e),
        }
    }
}

impl Struct {
    /// Reading the fields from position `i` on, the first of them at `at`, after the
    /// fields before them gave the values `done`: the values of all the fields, and the
    /// position after the last. The fields stand in the order of their declaration, each
    /// after its key if `keyed`; a wrong key is malformed input.
    pub open spec fn fields_at(
        &self,
        keyed: bool,
        i: nat,
        input: Seq<u8>,
        at: int,
        done: Seq<DatumView>,
    ) -> Result<(Seq<DatumView>, int), DecodeErrorView>
        decreases self, self.fields@.len() - i,
    {
        if i >= self.fields@.len() {
            Ok((done, at))
        } else {
            let field = self.fields@[i as int];
            let start = if keyed {
                key_at(input, at, field.key())
            } else {
                Ok(at)
            };
            match start {
                Ok(from) => match field.kind.decoding(input, from) {
                    Ok((value, next)) => self.fields_at(keyed, i + 1, input, next, done.push(value)),
                    Err(e) => Err(e),
                },
                Err(e) => Err(e),
            }
        }
    }

    /// Reading a record whose leading byte is `major` and whose further bytes start at
    /// `at`: the values of its fields.
    ///
    /// - `StringMap`: the byte starts a map; its length is the number of fields, any other
    ///   length is malformed input; the fields follow, each after its key.
    /// - `Tuple`: the byte starts a list; its length is the number of fields, any other
    ///   length is malformed input; the fields follow.
    /// - `Value`: whatever reading the only field gives.
    /// - `Null`: the byte is the null or the undefined item.
    pub open spec fn probe(&self, input: Seq<u8>, at: int, major: u8) -> Probe<Seq<DatumView>>
        decreases self, self.fields@.len() + 2,
    {
        match self.repr {
            StructRepr::StringMap => if 0xa0 <= major <= 0xbb {
                self.counted_fields_at(true, input, at, (major - 0xa0) as u8)
            } else {
                Probe::NotThisShape
            },
            StructRepr::Tuple => if 0x80 <= major <= 0x9b {
                self.counted_fields_at(false, input, at, (major - 0x80) as u8)
            } else {
                Probe::NotThisShape
            },
            StructRepr::Value => if self.fields@.len() > 0 {
                match self.fields@[0].kind.probe(input, at, major) {
                    Probe::Matched(value, end) => Probe::Matched(seq![value], end),
                    Probe::NotThisShape => Probe::NotThisShape,
                    Probe::Malformed(e) => Probe::Malformed(e),
                }
            } else {
                Probe::NotThisShape
            },
            StructRepr::Null => if NULL <= major <= UNDEFINED {
                Probe::Matched(Seq::empty(), at)
            } else {
                Probe::NotThisShape
            },
        }
    }

    /// Reading the length of a map or a list, from the low bits `low` of its leading
    /// byte, and then the fields.
    pub open spec fn counted_fields_at(&self, keyed: bool, input: Seq<u8>, at: int, low: u8) -> Probe<
        Seq<DatumView>,
    >
        decreases self, self.fields@.len() + 1,
    {
        match len_at(input, at, low) {
            Ok((len, start)) => if len != self.fields@.len() {
                Probe::Malformed(DecodeErrorView::LengthOutOfRange)
            } else {
                match self.fields_at(keyed, 0, input, start, Seq::empty()) {
                    Ok((values, end)) => Probe::Matched(values, end),
                    Err(e) => Probe::Malformed(e),
                }
            },
            Err(e) => Probe::Malformed(e),
        }
    }
}

impl Union {
    /// Reading the record of the variant that `key` names, among the variants from
    /// position `i` on, at `at`. A variant is named by exact match of its key. A key that
    /// names no variant whose record is there is malformed input, and the error names
    /// the key.
    pub open spec fn keyed_from(&self, i: nat, key: Seq<char>, input: Seq<u8>, at: int) -> Result<
        (DatumView, int),
        DecodeErrorView,
    >
        decreases self, self.variants@.len() - i,
    {
        if i >= self.variants@.len() {
            Err(unknown_key(key))
        } else {
            let variant = self.variants@[i as int];
            if variant.key() == key {
                match byte_at(input, at) {
                    Ok((major, next)) => match variant.probe(input, next, major) {
                        Probe::Matched(values, end) => Ok((DatumView::Union(i as usize, values), end)),
                        Probe::NotThisShape => self.keyed_from(i + 1, key, input, next),
                        Probe::Malformed(e) => Err(e),
                    },
                    Err(e) => Err(e),
                }
            } else {
                self.keyed_from(i + 1, key, input, at)
            }
        }
    }

    /// Reading the record of the first variant, from position `i` on, that takes the
    /// item whose leading byte is `major`. The variants are tried in the order of their
    /// declaration, each on the same bytes. If none takes the item, the input is
    /// malformed.
    pub open spec fn kinded_from(&self, i: nat, input: Seq<u8>, at: int, major: u8) -> Result<
        (DatumView, int),
        DecodeErrorView,
    >
        decreases self, self.variants@.len() - i,
    {
        if i >= self.variants@.len() {
            Err(no_variant())
        } else {
            match self.variants@[i as int].probe(input, at, major) {
                Probe::Matched(values, end) => Ok((DatumView::Union(i as usize, values), end)),
                Probe::NotThisShape => self.kinded_from(i + 1, input, at, major),
                Probe::Malformed(e) => Err(e),
            }
        }
    }

    /// The position of the first variant, from position `i` on, whose key is `key`.
    pub open spec fn named_from(&self, i: nat, key: Seq<char>) -> Option<usize>
        decreases self.variants@.len() - i,
    {
        if i >= self.variants@.len() {
            None
        } else if self.variants@[i as int].key() == key {
            Some(i as usize)
        } else {
            self.named_from(i + 1, key)
        }
    }

    /// The position of the first variant, from position `i` on, whose ordinal is `n`.
    pub open spec fn numbered_from(&self, i: nat, n: u64) -> Option<usize>
        decreases self.variants@.len() - i,
    {
        if i >= self.variants@.len() {
            None
        } else if self.variants@[i as int].ordinal == n {
            Some(i as usize)
        } else {
            self.numbered_from(i + 1, n)
        }
    }

    /// Reading a value of the union whose leading byte is `major` and whose further bytes
    /// start at `at`.
    ///
    /// - `Keyed`: the byte starts a map of one entry; its key is text and names the
    ///   variant; the variant's record follows.
    /// - `Kinded`: the first variant that takes the item.
    /// - `String`: the byte starts a text, which is the key of a variant; another text is
    ///   malformed input, and the error names it.
    /// - `Int`: the byte starts an unsigned integer, which is the ordinal of a variant;
    ///   another number is malformed input, and the error names it in decimal.
    pub open spec fn probe(&self, input: Seq<u8>, at: int, major: u8) -> Probe<DatumView>
        decreases self, self.variants@.len() + 1,
    {
        match self.repr {
            UnionRepr::Keyed => if major != 0xa1 {
                Probe::NotThisShape
            } else {
                match text_at(input, at) {
                    Ok((key, next)) => match self.keyed_from(0, key, input, next) {
                        Ok((value, end)) => Probe::Matched(value, end),
                        Err(e) => Probe::Malformed(e),
                    },
                    Err(e) => Probe::Malformed(e),
                }
            },
            UnionRepr::Kinded => match self.kinded_from(0, input, at, major) {
                Ok((value, end)) => Probe::Matched(value, end),
                Err(e) => Probe::Malformed(e),
            },
            UnionRepr::String => match probe_text(input, at, major) {
                Probe::Matched(key, end) => match self.named_from(0, key) {
                    Some(position) => Probe::Matched(DatumView::Union(position, Seq::empty()), end),
                    None => Probe::Malformed(unknown_key(key)),
                },
                Probe::NotThisShape => Probe::NotThisShape,
                Probe::Malformed(e) => Probe::Malformed(e),
            },
            UnionRepr::Int => match probe_unsigned(input, at, major) {
                Probe::Matched(n, end) => match self.numbered_from(0, n) {
                    Some(position) => Probe::Matched(DatumView::Union(position, Seq::empty()), end),
                    None => Probe::Malformed(unknown_key(decimal(n as nat))),
                },
                Probe::NotThisShape => Probe::NotThisShape,
                Probe::Malformed(e) => Probe::Malformed(e),
            },
        }
    }
}

/// Reads a value of `kind` whose leading byte is `major`, if that byte starts one.
fn try_read_kind(kind: &Kind, r: &[u8], at: usize, major: u8) -> (res: Result<
    Option<(Datum, usize)>,
    DecodeError,
>)
    requires
        kind.well_formed(),
    ensures
        match res {
            Ok(Some((value, next))) => kind.probe(r@, at as int, major) == Probe::Matched(
                value@,
                next as int,
            ),
            Ok(None) => kind.probe(r@, at as int, major) == Probe::<DatumView>::NotThisShape,
            Err(e) => kind.probe(r@, at as int, major) == Probe::<DatumView>::Malformed(e@),
        },
    decreases kind, 0nat,
{
    match kind {
        Kind::Bool => match try_read_bool(major, at) {
            Some(b) => Ok(Some((Datum::Bool(b), at))),
            None => Ok(None),
        },
        Kind::Unsigned => match try_read_unsigned(r, at, major) {
            Ok(Some((n, next))) => Ok(Some((Datum::Unsigned(n), next))),
            Ok(None) => Ok(None),
            Err(e) => Err(e),
        },
        Kind::Text => match try_read_text(r, at, major) {
            Ok(Some((s, next))) => Ok(Some((Datum::Text(s), next))),
            Ok(None) => Ok(None),
            Err(e) => Err(e),
        },
        Kind::Nested(inner) => gen_try_read_cbor(inner, r, at, major),
    }
}

/// Reads the value of `kind` at `at`.
fn read_kind(kind: &Kind, r: &[u8], at: usize) -> (res: Result<(Datum, usize), DecodeError>)
    requires
        kind.well_formed(),
    ensures
        match res {
            Ok((value, next)) => kind.decoding(r@, at as int) == Ok::<
                (DatumView, int),
                DecodeErrorView,
            >((value@, next as int)),
            Err(e) => kind.decoding(r@, at as int) == Err::<(DatumView, int), DecodeErrorView>(e@),
        },
    decreases kind, 1nat,
{
    match read_u8(r, at) {
        Ok((major, next)) => match try_read_kind(kind, r, next, major) {
            Ok(Some(found)) => Ok(found),
            Ok(None) => Err(DecodeError::UnexpectedCode(major)),
            Err(e) => Err(e),
        },
        Err(e) => Err(e),
    }
}

/// Reads the value at `at` of the type that `ast` describes: the value and the position
/// after it.
pub fn gen_decode(ast: &SchemaType, r: &[u8], at: usize) -> (res: Result<(Datum, usize), DecodeError>)
    requires
        ast.well_formed(),
    ensures
        match res {
            Ok((value, next)) => ast.decoding(r@, at as int) == Ok::<
                (DatumView, int),
                DecodeErrorView,
            >((value@, next as int)),
            Err(e) => ast.decoding(r@, at as int) == Err::<(DatumView, int), DecodeErrorView>(e@),
        },
{
    match read_u8(r, at) {
        Ok((major, next)) => match gen_try_read_cbor(ast, r, next, major) {
            Ok(Some(found)) => Ok(found),
            Ok(None) => Err(DecodeError::UnexpectedCode(major)),
            Err(e) => Err(e),
        },
        Err(e) => Err(e),
    }
}

/// Reads a value of the type that `ast` describes, whose leading byte `major` has been
/// read and whose further bytes start at `at`: the value and the position after it, or
/// nothing if the byte starts another shape.
pub fn gen_try_read_cbor(ast: &SchemaType, r: &[u8], at: usize, major: u8) -> (res: Result<
    Option<(Datum, usize)>,
    DecodeError,
>)
    requires
        ast.well_formed(),
    ensures
        match res {
            Ok(Some((value, next))) => ast.probe(r@, at as int, major) == Probe::Matched(
                value@,
                next as int,
            ),
            Ok(None) => ast.probe(r@, at as int, major) == Probe::<DatumView>::NotThisShape,
            Err(e) => ast.probe(r@, at as int, major) == Probe::<DatumView>::Malformed(e@),
        },
    decreases ast, 0nat,
{
    match ast {
        SchemaType::Struct(s) => match gen_try_read_cbor_struct(s, r, at, major) {
            Ok(Some((values, next))) => Ok(Some((Datum::Struct(values), next))),
            Ok(None) => Ok(None),
            Err(e) => Err(e),
        },
        SchemaType::Union(u) => gen_try_read_cbor_union(u, r, at, major),
    }
}

/// Reads the length of a map or a list and then the fields of the record.
#[verifier::loop_isolation(false)]
fn read_counted_fields(s: &Struct, keyed: bool, r: &[u8], at: usize, low: u8) -> (res: Result<
    (Vec<Datum>, usize),
    DecodeError,
>)
    requires
        s.well_formed(),
    ensures
        match res {
            Ok((values, next)) => s.counted_fields_at(keyed, r@, at as int, low) == Probe::Matched(
                datum_views(values@),
                next as int,
            ),
            Err(e) => s.counted_fields_at(keyed, r@, at as int, low) == Probe::<
                Seq<DatumView>,
            >::Malformed(e@),
        },
    decreases s, s.fields@.len() + 1,
{
    let (len, start) = match read_len(r, at, low) {
        Ok(found) => found,
        Err(e) => {
            return Err(e);
        },
    };
    if len != s.fields.len() {
        return Err(DecodeError::LengthOutOfRange);
    }
    let mut values: Vec<Datum> = Vec::new();
    let mut pos: usize = start;
    let mut i: usize = 0;
    assert(datum_views(values@) =~= Seq::<DatumView>::empty());
    while i < s.fields.len()
        invariant
            i <= s.fields@.len(),
            s.well_formed(),
            s.fields_at(keyed, 0, r@, start as int, Seq::empty()) == s.fields_at(
                keyed,
                i as nat,
                r@,
                pos as int,
                datum_views(values@),
            ),
        decreases s.fields@.len() - i,
    {
        let field = &s.fields[i];
        if keyed {
            let key = rename(&field.name, &field.rename);
            match read_key(r, pos, key.as_str()) {
                Ok(next) => {
                    pos = next;
                },
                Err(e) => {
                    return Err(e);
                },
            }
        }
        match read_kind(&field.kind, r, pos) {
            Ok((value, next)) => {
                let ghost before = values@;
                values.push(value);
                assert(values@.drop_last() =~= before);
                assert(datum_views(values@) == datum_views(before).push(value@));
                pos = next;
            },
            Err(e) => {
                return Err(e);
            },
        }
        i += 1;
    }
    Ok((values, pos))
}

/// Reads a record whose leading byte `major` has been read and whose further bytes start
/// at `at`: the values of its fields and the position after them, or nothing if the byte
/// starts another shape.
pub fn gen_try_read_cbor_struct(s: &Struct, r: &[u8], at: usize, major: u8) -> (res: Result<
    Option<(Vec<Datum>, usize)>,
    DecodeError,
>)
    requires
        s.well_formed(),
    ensures
        match res {
            Ok(Some((values, next))) => s.probe(r@, at as int, major) == Probe::Matched(
                datum_views(values@),
                next as int,
            ),
            Ok(None) => s.probe(r@, at as int, major) == Probe::<Seq<DatumView>>::NotThisShape,
            Err(e) => s.probe(r@, at as int, major) == Probe::<Seq<DatumView>>::Malformed(e@),
        },
    decreases s, s.fields@.len() + 2,
{
    match s.repr {
        StructRepr::StringMap => {
            if 0xa0 <= major && major <= 0xbb {
                match read_counted_fields(s, true, r, at, major - 0xa0) {
                    Ok(found) => Ok(Some(found)),
                    Err(e) => Err(e),
                }
            } else {
                Ok(None)
            }
        },
        StructRepr::Tuple => {
            if 0x80 <= major && major <= 0x9b {
                match read_counted_fields(s, false, r, at, major - 0x80) {
                    Ok(found) => Ok(Some(found)),
                    Err(e) => Err(e),
                }
            } else {
                Ok(None)
            }
        },
        StructRepr::Value => {
            match try_read_kind(&s.fields[0].kind, r, at, major) {
                Ok(Some((value, next))) => {
                    let mut values: Vec<Datum> = Vec::new();
                    values.push(value);
                    proof {
                        lemma_datum_views(values@);
                    }
                    assert(datum_views(values@) =~= seq![value@]);
                    Ok(Some((values, next)))
                },
                Ok(None) => Ok(None),
                Err(e) => Err(e),
            }
        },
        StructRepr::Null => {
            if NULL <= major && major <= UNDEFINED {
                let values: Vec<Datum> = Vec::new();
                assert(datum_views(values@) =~= Seq::<DatumView>::empty());
                Ok(Some((values, at)))
            } else {
                Ok(None)
            }
        },
    }
}

/// The error for a discriminant that no variant has.
fn unknown(key: String) -> (e: DecodeError)
    ensures
        e@ == unknown_key(key@),
{
    DecodeError::Type(TypeError { expected: TypeErrorType::Key(key), found: TypeErrorType::Null })
}

/// Reads a value of the union whose leading byte `major` has been read and whose
/// further bytes start at `at`: the value and the position after it, or nothing if the
/// byte starts another shape.
#[verifier::loop_isolation(false)]
pub fn gen_try_read_cbor_union(u: &Union, r: &[u8], at: usize, major: u8) -> (res: Result<
    Option<(Datum, usize)>,
    DecodeError,
>)
    requires
        u.well_formed(),
    ensures
        match res {
            Ok(Some((value, next))) => u.probe(r@, at as int, major) == Probe::Matched(
                value@,
                next as int,
            ),
            Ok(None) => u.probe(r@, at as int, major) == Probe::<DatumView>::NotThisShape,
            Err(e) => u.probe(r@, at as int, major) == Probe::<DatumView>::Malformed(e@),
        },
    decreases u, u.variants@.len() + 1,
{
    match u.repr {
        UnionRepr::Keyed => {
            if major != 0xa1 {
                return Ok(None);
            }
            let (key, start) = match read_text(r, at) {
                Ok(found) => found,
                Err(e) => {
                    return Err(e);
                },
            };
            let mut pos: usize = start;
            let mut i: usize = 0;
            while i < u.variants.len()
                invariant
                    i <= u.variants@.len(),
                    u.well_formed(),
                    u.keyed_from(0, key@, r@, start as int) == u.keyed_from(
                        i as nat,
                        key@,
                        r@,
                        pos as int,
                    ),
                decreases u.variants@.len() - i,
            {
                let variant = &u.variants[i];
                if let KeyOrder::Same = compare_keys(variant.wire_name(), key.as_str()) {
                    let (second, next) = match read_u8(r, pos) {
                        Ok(found) => found,
                        Err(e) => {
                            return Err(e);
                        },
                    };
                    match gen_try_read_cbor_struct(variant, r, next, second) {
                        Ok(Some((values, end))) => {
                            return Ok(Some((Datum::Union(i, values), end)));
                        },
                        Ok(None) => {
                            pos = next;
                        },
                        Err(e) => {
                            return Err(e);
                        },
                    }
                }
                i += 1;
            }
            Err(unknown(key))
        },
        UnionRepr::Kinded => {
            let mut i: usize = 0;
            while i < u.variants.len()
                invariant
                    i <= u.variants@.len(),
                    u.well_formed(),
                    u.kinded_from(0, r@, at as int, major) == u.kinded_from(
                        i as nat,
                        r@,
                        at as int,
                        major,
                    ),
                decreases u.variants@.len() - i,
            {
                match gen_try_read_cbor_struct(&u.variants[i], r, at, major) {
                    Ok(Some((values, end))) => {
                        return Ok(Some((Datum::Union(i, values), end)));
                    },
                    Ok(None) => {},
                    Err(e) => {
                        return Err(e);
                    },
                }
                i += 1;
            }
            Err(
                DecodeError::Type(
                    TypeError { expected: TypeErrorType::Null, found: TypeErrorType::Null },
                ),
            )
        },
        UnionRepr::String => {
            let (key, end) = match try_read_text(r, at, major) {
                Ok(Some(found)) => found,
                Ok(None) => {
                    return Ok(None);
                },
                Err(e) => {
                    return Err(e);
                },
            };
            let mut i: usize = 0;
            while i < u.variants.len()
                invariant
                    i <= u.variants@.len(),
                    u.named_from(0, key@) == u.named_from(i as nat, key@),
                decreases u.variants@.len() - i,
            {
                if let KeyOrder::Same = compare_keys(u.variants[i].wire_name(), key.as_str()) {
                    let values: Vec<Datum> = Vec::new();
                    assert(datum_views(values@) =~= Seq::<DatumView>::empty());
                    return Ok(Some((Datum::Union(i, values), end)));
                }
                i += 1;
            }
            Err(unknown(key))
        },
        UnionRepr::Int => {
            let (n, end) = match try_read_unsigned(r, at, major) {
                Ok(Some(found)) => found,
                Ok(None) => {
                    return Ok(None);
                },
                Err(e) => {
                    return Err(e);
                },
            };
            let mut i: usize = 0;
            while i < u.variants.len()
                invariant
                    i <= u.variants@.len(),
                    u.numbered_from(0, n) == u.numbered_from(i as nat, n),
                decreases u.variants@.len() - i,
            {
                if u.variants[i].ordinal == n {
                    let values: Vec<Datum> = Vec::new();
                    assert(datum_views(values@) =~= Seq::<DatumView>::empty());
                    return Ok(Some((Datum::Union(i, values), end)));
                }
                i += 1;
            }
            Err(unknown(write_u64_decimal(n)))
        },
    }
}

} // verus!
