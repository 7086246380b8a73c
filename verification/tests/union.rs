use ipld_schema::ast::{Datum, Field, Kind, Member, SchemaType, Struct, StructRepr, Union, UnionRepr};
use ipld_schema::cbor::{write_bool, write_null, write_text, write_u64, DecodeError};
use ipld_schema::error::{TypeError, TypeErrorType};
use ipld_schema::gen::{gen_decode, gen_encode, gen_try_read_cbor};
use ipld_schema::ipld::Ipld;
use ipld_schema::map::StringMap;

fn named(name: &str, kind: Kind) -> Field {
    Field { name: Member::Named(name.to_string()), rename: None, default: None, kind }
}

fn unnamed(position: u32, kind: Kind) -> Field {
    Field { name: Member::Unnamed(position), rename: None, default: None, kind }
}

fn variant(name: &str, rename: Option<&str>, ordinal: u64, repr: StructRepr, fields: Vec<Field>) -> Struct {
    Struct {
        name: name.to_string(),
        rename: rename.map(|s| s.to_string()),
        ordinal,
        fields,
        repr,
    }
}

/// The five variants of the unions below: `A`, `B(bool)` as a bare value under the key
/// `b`, `C { n }` as a bare value, `D(bool)` as a list, `E { boolean }` as a map.
fn variants() -> Vec<Struct> {
    vec![
        variant("A", None, 0, StructRepr::Null, vec![]),
        variant("B", Some("b"), 1, StructRepr::Value, vec![unnamed(0, Kind::Bool)]),
        variant("C", None, 2, StructRepr::Value, vec![named("n", Kind::Unsigned)]),
        variant("D", None, 3, StructRepr::Tuple, vec![unnamed(0, Kind::Bool)]),
        variant("E", None, 4, StructRepr::StringMap, vec![named("boolean", Kind::Bool)]),
    ]
}

fn keyed() -> SchemaType {
    SchemaType::Union(Union { name: "Keyed".to_string(), variants: variants(), repr: UnionRepr::Keyed })
}

fn kinded() -> SchemaType {
    SchemaType::Union(Union { name: "Kinded".to_string(), variants: variants(), repr: UnionRepr::Kinded })
}

/// The bytes of a generic value, for the cases that the tests need.
fn write_ipld(ipld: &Ipld, w: &mut Vec<u8>) {
    match ipld {
        Ipld::Null => write_null(w),
        Ipld::Bool(b) => write_bool(w, *b),
        Ipld::Integer(i) => write_u64(w, 0, u64::try_from(*i).unwrap()),
        Ipld::String(s) => write_text(w, s),
        Ipld::List(l) => {
            write_u64(w, 4, l.len() as u64);
            for item in l {
                write_ipld(item, w);
            }
        }
        Ipld::StringMap(m) => {
            write_u64(w, 5, m.len() as u64);
            for i in 0..m.len() {
                write_text(w, m.key_at(i).unwrap());
                write_ipld(m.value_at(i).unwrap(), w);
            }
        }
        _ => unreachable!(),
    }
}

fn map1(key: &str, value: Ipld) -> Ipld {
    let mut m = StringMap::new();
    m.insert(key.to_string(), value);
    Ipld::StringMap(m)
}

/// Writing `data` gives the bytes of `ipld`, and reading them gives `data` back.
fn assert_roundtrip(ast: &SchemaType, data: &Datum, ipld: &Ipld) {
    assert!(ast.is_well_formed());
    assert!(ast.holds(data));
    let mut bytes = Vec::new();
    gen_encode(ast, data, &mut bytes);
    let mut bytes2 = Vec::new();
    write_ipld(ipld, &mut bytes2);
    assert_eq!(bytes, bytes2);
    let (data2, end) = gen_decode(ast, &bytes, 0).unwrap();
    assert_eq!(&data2, data);
    assert_eq!(end, bytes.len());
}

#[test]
fn union_keyed() {
    let ast = keyed();
    assert_roundtrip(&ast, &Datum::Union(0, vec![]), &map1("A", Ipld::Null));
    assert_roundtrip(&ast, &Datum::Union(1, vec![Datum::Bool(true)]), &map1("b", Ipld::Bool(true)));
    assert_roundtrip(&ast, &Datum::Union(1, vec![Datum::Bool(false)]), &map1("b", Ipld::Bool(false)));
    assert_roundtrip(&ast, &Datum::Union(2, vec![Datum::Unsigned(1)]), &map1("C", Ipld::Integer(1)));
    assert_roundtrip(
        &ast,
        &Datum::Union(3, vec![Datum::Bool(true)]),
        &map1("D", Ipld::List(vec![Ipld::Bool(true)])),
    );
    assert_roundtrip(
        &ast,
        &Datum::Union(4, vec![Datum::Bool(true)]),
        &map1("E", map1("boolean", Ipld::Bool(true))),
    );
}

#[test]
fn union_kinded() {
    let ast = kinded();
    assert_roundtrip(&ast, &Datum::Union(0, vec![]), &Ipld::Null);
    assert_roundtrip(&ast, &Datum::Union(1, vec![Datum::Bool(true)]), &Ipld::Bool(true));
    assert_roundtrip(&ast, &Datum::Union(1, vec![Datum::Bool(false)]), &Ipld::Bool(false));
    assert_roundtrip(&ast, &Datum::Union(2, vec![Datum::Unsigned(1)]), &Ipld::Integer(1));
    assert_roundtrip(&ast, &Datum::Union(3, vec![Datum::Bool(true)]), &Ipld::List(vec![Ipld::Bool(true)]));
    assert_roundtrip(&ast, &Datum::Union(4, vec![Datum::Bool(true)]), &map1("boolean", Ipld::Bool(true)));
}

#[test]
fn keyed_bytes_are_exact() {
    let ast = keyed();
    let mut bytes = Vec::new();
    gen_encode(&ast, &Datum::Union(0, vec![]), &mut bytes);
    assert_eq!(bytes, vec![0xa1, 0x61, b'A', 0xf6]);
    let mut bytes = Vec::new();
    gen_encode(&ast, &Datum::Union(1, vec![Datum::Bool(true)]), &mut bytes);
    assert_eq!(bytes, vec![0xa1, 0x61, b'b', 0xf5]);
    let mut bytes = Vec::new();
    gen_encode(&ast, &Datum::Union(1, vec![Datum::Bool(false)]), &mut bytes);
    assert_eq!(bytes, vec![0xa1, 0x61, b'b', 0xf4]);
}

#[test]
fn keyed_union_rejects_unknown_key() {
    let ast = SchemaType::Union(Union {
        name: "Keyed".to_string(),
        variants: vec![
            variant("A", None, 0, StructRepr::Null, vec![]),
            variant("B", None, 1, StructRepr::Null, vec![]),
        ],
        repr: UnionRepr::Keyed,
    });
    let mut bytes = Vec::new();
    write_ipld(&map1("Z", Ipld::Null), &mut bytes);
    let e = gen_decode(&ast, &bytes, 0).unwrap_err();
    assert_eq!(
        e,
        DecodeError::Type(TypeError {
            expected: TypeErrorType::Key("Z".to_string()),
            found: TypeErrorType::Null,
        })
    );
}

#[test]
fn kinded_union_takes_first_match() {
    let ast = SchemaType::Union(Union {
        name: "Tie".to_string(),
        variants: vec![
            variant("First", None, 0, StructRepr::Value, vec![unnamed(0, Kind::Bool)]),
            variant("Second", None, 1, StructRepr::Value, vec![unnamed(0, Kind::Bool)]),
        ],
        repr: UnionRepr::Kinded,
    });
    let (value, end) = gen_decode(&ast, &[0xf5], 0).unwrap();
    assert_eq!(value, Datum::Union(0, vec![Datum::Bool(true)]));
    assert_eq!(end, 1);
}

#[test]
fn kinded_union_without_match_is_malformed() {
    let ast = kinded();
    // a text item: no variant starts with it
    let e = gen_decode(&ast, &[0x61, b'x'], 0).unwrap_err();
    assert_eq!(
        e,
        DecodeError::Type(TypeError { expected: TypeErrorType::Null, found: TypeErrorType::Null })
    );
}

#[test]
fn probe_reports_another_shape_without_failing() {
    let ast = keyed();
    // the leading byte of a list is not that of a map of one entry
    assert_eq!(gen_try_read_cbor(&ast, &[0x81, 0xf5], 1, 0x81), Ok(None));
    // decoding the same item from its start is malformed input
    assert_eq!(gen_decode(&ast, &[0x81, 0xf5], 0), Err(DecodeError::UnexpectedCode(0x81)));
}

#[test]
fn string_union_round_trips_and_rejects() {
    let ast = SchemaType::Union(Union {
        name: "Colour".to_string(),
        variants: vec![
            variant("Red", None, 0, StructRepr::Null, vec![]),
            variant("Green", Some("verde"), 1, StructRepr::Null, vec![]),
        ],
        repr: UnionRepr::String,
    });
    assert_roundtrip(&ast, &Datum::Union(0, vec![]), &Ipld::String("Red".to_string()));
    assert_roundtrip(&ast, &Datum::Union(1, vec![]), &Ipld::String("verde".to_string()));
    let mut bytes = Vec::new();
    write_text(&mut bytes, "Green");
    assert_eq!(
        gen_decode(&ast, &bytes, 0),
        Err(DecodeError::Type(TypeError {
            expected: TypeErrorType::Key("Green".to_string()),
            found: TypeErrorType::Null,
        }))
    );
    assert_eq!(gen_try_read_cbor(&ast, &[0x01], 1, 0x01), Ok(None));
}

#[test]
fn int_union_round_trips_and_rejects() {
    let ast = SchemaType::Union(Union {
        name: "Level".to_string(),
        variants: vec![
            variant("Low", None, 0, StructRepr::Null, vec![]),
            variant("High", None, 300, StructRepr::Null, vec![]),
        ],
        repr: UnionRepr::Int,
    });
    assert_roundtrip(&ast, &Datum::Union(0, vec![]), &Ipld::Integer(0));
    assert_roundtrip(&ast, &Datum::Union(1, vec![]), &Ipld::Integer(300));
    let mut bytes = Vec::new();
    gen_encode(&ast, &Datum::Union(1, vec![]), &mut bytes);
    assert_eq!(bytes, vec![0x19, 0x01, 0x2c]);
    // the offending number is named in decimal
    assert_eq!(
        gen_decode(&ast, &[0x07], 0),
        Err(DecodeError::Type(TypeError {
            expected: TypeErrorType::Key("7".to_string()),
            found: TypeErrorType::Null,
        }))
    );
}

#[test]
fn ill_formed_descriptions_are_told_apart() {
    let two_fields_as_value = SchemaType::Struct(variant(
        "V",
        None,
        0,
        StructRepr::Value,
        vec![unnamed(0, Kind::Bool), unnamed(1, Kind::Bool)],
    ));
    assert!(!two_fields_as_value.is_well_formed());
    let field_in_null = SchemaType::Struct(variant("N", None, 0, StructRepr::Null, vec![unnamed(0, Kind::Bool)]));
    assert!(!field_in_null.is_well_formed());
    let payload_in_string_union = SchemaType::Union(Union {
        name: "U".to_string(),
        variants: vec![variant("A", None, 0, StructRepr::Value, vec![unnamed(0, Kind::Bool)])],
        repr: UnionRepr::String,
    });
    assert!(!payload_in_string_union.is_well_formed());
    assert!(keyed().is_well_formed());
    assert!(!keyed().holds(&Datum::Union(5, vec![])));
    assert!(!keyed().holds(&Datum::Union(1, vec![Datum::Unsigned(1)])));
    assert!(!keyed().holds(&Datum::Bool(true)));
}

#[test]
fn keyed_union_reads_the_record_of_the_named_variant() {
    let ast = keyed();
    // the key of `D` with the record of `E`: the variant that the key names does not
    // start with a map, and no other variant has the key
    let mut bytes = Vec::new();
    write_ipld(&map1("D", map1("boolean", Ipld::Bool(true))), &mut bytes);
    assert_eq!(
        gen_decode(&ast, &bytes, 0),
        Err(DecodeError::Type(TypeError {
            expected: TypeErrorType::Key("D".to_string()),
            found: TypeErrorType::Null,
        }))
    );
    // a map of two entries is another shape
    assert_eq!(gen_try_read_cbor(&ast, &[0xa2], 1, 0xa2), Ok(None));
    // the key must be text
    assert_eq!(gen_decode(&ast, &[0xa1, 0x01, 0xf6], 0), Err(DecodeError::UnexpectedCode(0x01)));
    // the input may end after the key
    assert_eq!(gen_decode(&ast, &[0xa1, 0x61, b'A'], 0), Err(DecodeError::UnexpectedEof));
}

#[test]
fn variants_after_a_malformed_one_are_not_tried() {
    let ast = SchemaType::Union(Union {
        name: "Lists".to_string(),
        variants: vec![
            variant("One", None, 0, StructRepr::Tuple, vec![unnamed(0, Kind::Bool)]),
            variant("Two", None, 1, StructRepr::Tuple, vec![unnamed(0, Kind::Bool), unnamed(1, Kind::Bool)]),
        ],
        repr: UnionRepr::Kinded,
    });
    // a list of two: the first variant takes lists and finds a wrong length, which is fatal
    assert_eq!(gen_decode(&ast, &[0x82, 0xf5, 0xf4], 0), Err(DecodeError::LengthOutOfRange));
    assert_eq!(gen_decode(&ast, &[0x81, 0xf5], 0), Ok((Datum::Union(0, vec![Datum::Bool(true)]), 2)));
}
