use ipld_schema::ast::{rename, Datum, Field, Kind, Member, SchemaType, Struct, StructRepr, Union, UnionRepr};
use ipld_schema::cbor::{
    read_key, read_len, read_text, read_u8, try_read_text, try_read_unsigned, write_text, write_u64,
    DecodeError,
};
use ipld_schema::error::{TypeError, TypeErrorType};
use ipld_schema::gen::{gen_decode, gen_encode, gen_encode_struct_body, gen_try_read_cbor_struct};
use ipld_schema::order::{compare_keys, KeyOrder};

fn record(repr: StructRepr, fields: Vec<Field>) -> Struct {
    Struct { name: "Record".to_string(), rename: None, ordinal: 0, fields, repr }
}

fn rename_fields() -> SchemaType {
    SchemaType::Struct(record(
        StructRepr::StringMap,
        vec![Field {
            name: Member::Named("hash_alg".to_string()),
            rename: Some("hashAlg".to_string()),
            default: None,
            kind: Kind::Text,
        }],
    ))
}

#[test]
fn renamed_field_goes_under_its_new_key() {
    let ast = rename_fields();
    let data = Datum::Struct(vec![Datum::Text("murmur3".to_string())]);
    assert!(ast.is_well_formed() && ast.holds(&data));
    let mut bytes = Vec::new();
    gen_encode(&ast, &data, &mut bytes);
    let mut expect = vec![0xa1, 0x67];
    expect.extend_from_slice(b"hashAlg");
    expect.push(0x67);
    expect.extend_from_slice(b"murmur3");
    assert_eq!(bytes, expect);
    let (data2, end) = gen_decode(&ast, &bytes, 0).unwrap();
    assert_eq!(data2, data);
    assert_eq!(end, bytes.len());
}

#[test]
fn key_is_the_rename_or_the_name_or_the_position() {
    assert_eq!(rename(&Member::Named("a".to_string()), &Some("b".to_string())), "b");
    assert_eq!(rename(&Member::Named("a".to_string()), &None), "a");
    assert_eq!(rename(&Member::Unnamed(12), &None), "12");
}

fn pair(default: Option<Datum>) -> Struct {
    record(
        StructRepr::StringMap,
        vec![
            Field { name: Member::Named("a".to_string()), rename: None, default: None, kind: Kind::Unsigned },
            Field { name: Member::Named("b".to_string()), rename: None, default, kind: Kind::Unsigned },
        ],
    )
}

#[test]
fn field_at_its_default_is_left_out() {
    let s = pair(Some(Datum::Unsigned(7)));
    let mut bytes = Vec::new();
    gen_encode_struct_body(&s, &vec![Datum::Unsigned(1), Datum::Unsigned(7)], &mut bytes);
    // a map of one entry: the header counts the fields that are written
    assert_eq!(bytes, vec![0xa1, 0x61, b'a', 0x01]);
    let mut bytes = Vec::new();
    gen_encode_struct_body(&s, &vec![Datum::Unsigned(1), Datum::Unsigned(8)], &mut bytes);
    assert_eq!(bytes, vec![0xa2, 0x61, b'a', 0x01, 0x61, b'b', 0x08]);
}

#[test]
fn tuple_leaves_out_defaults_too() {
    let mut s = pair(Some(Datum::Unsigned(7)));
    s.repr = StructRepr::Tuple;
    let mut bytes = Vec::new();
    gen_encode_struct_body(&s, &vec![Datum::Unsigned(1), Datum::Unsigned(7)], &mut bytes);
    assert_eq!(bytes, vec![0x81, 0x01]);
    let mut bytes = Vec::new();
    gen_encode_struct_body(&s, &vec![Datum::Unsigned(1), Datum::Unsigned(9)], &mut bytes);
    assert_eq!(bytes, vec![0x82, 0x01, 0x09]);
    assert_eq!(
        gen_try_read_cbor_struct(&s, &bytes, 1, bytes[0]),
        Ok(Some((vec![Datum::Unsigned(1), Datum::Unsigned(9)], 3)))
    );
}

#[test]
fn reader_expects_every_field() {
    let s = pair(Some(Datum::Unsigned(7)));
    // the record as written with its second field left out
    let bytes = vec![0xa1, 0x61, b'a', 0x01];
    assert_eq!(gen_try_read_cbor_struct(&s, &bytes, 1, bytes[0]), Err(DecodeError::LengthOutOfRange));
    // a longer map is refused as well
    let bytes = vec![0xa3, 0x61, b'a', 0x01];
    assert_eq!(gen_try_read_cbor_struct(&s, &bytes, 1, bytes[0]), Err(DecodeError::LengthOutOfRange));
}

#[test]
fn keys_are_read_in_declared_order() {
    let s = pair(None);
    let bytes = vec![0xa2, 0x61, b'b', 0x02, 0x61, b'a', 0x01];
    assert_eq!(
        gen_try_read_cbor_struct(&s, &bytes, 1, bytes[0]),
        Err(DecodeError::Type(TypeError {
            expected: TypeErrorType::Key("a".to_string()),
            found: TypeErrorType::Key("b".to_string()),
        }))
    );
}

#[test]
fn record_shapes_are_probed_by_their_leading_byte() {
    let map = pair(None);
    assert_eq!(gen_try_read_cbor_struct(&map, &[0x82, 0x01, 0x02], 1, 0x82), Ok(None));
    let null = record(StructRepr::Null, vec![]);
    assert_eq!(gen_try_read_cbor_struct(&null, &[0xf6], 1, 0xf6), Ok(Some((vec![], 1))));
    assert_eq!(gen_try_read_cbor_struct(&null, &[0xf7], 1, 0xf7), Ok(Some((vec![], 1))));
    assert_eq!(gen_try_read_cbor_struct(&null, &[0xf5], 1, 0xf5), Ok(None));
    let mut bytes = Vec::new();
    gen_encode_struct_body(&null, &vec![], &mut bytes);
    assert_eq!(bytes, vec![0xf6]);
    let value = record(
        StructRepr::Value,
        vec![Field { name: Member::Unnamed(0), rename: None, default: None, kind: Kind::Text }],
    );
    let mut bytes = Vec::new();
    gen_encode_struct_body(&value, &vec![Datum::Text("hi".to_string())], &mut bytes);
    assert_eq!(bytes, vec![0x62, b'h', b'i']);
    assert_eq!(
        gen_try_read_cbor_struct(&value, &bytes, 1, bytes[0]),
        Ok(Some((vec![Datum::Text("hi".to_string())], 3)))
    );
    assert_eq!(gen_try_read_cbor_struct(&value, &[0x01], 1, 0x01), Ok(None));
}

#[test]
fn nested_records_round_trip() {
    let inner = SchemaType::Union(Union {
        name: "Inner".to_string(),
        variants: vec![
            Struct { name: "Off".to_string(), rename: None, ordinal: 0, fields: vec![], repr: StructRepr::Null },
            Struct {
                name: "On".to_string(),
                rename: None,
                ordinal: 1,
                fields: vec![Field { name: Member::Unnamed(0), rename: None, default: None, kind: Kind::Unsigned }],
                repr: StructRepr::Tuple,
            },
        ],
        repr: UnionRepr::Keyed,
    });
    let outer = SchemaType::Struct(record(
        StructRepr::Tuple,
        vec![
            Field { name: Member::Unnamed(0), rename: None, default: None, kind: Kind::Text },
            Field { name: Member::Unnamed(1), rename: None, default: None, kind: Kind::Nested(Box::new(inner)) },
        ],
    ));
    assert!(outer.is_well_formed());
    let data = Datum::Struct(vec![
        Datum::Text("é".to_string()),
        Datum::Union(1, vec![Datum::Unsigned(70000)]),
    ]);
    assert!(outer.holds(&data));
    let mut bytes = vec![0xff];
    gen_encode(&outer, &data, &mut bytes);
    assert_eq!(
        bytes,
        vec![0xff, 0x82, 0x62, 0xc3, 0xa9, 0xa1, 0x62, b'O', b'n', 0x81, 0x1a, 0x00, 0x01, 0x11, 0x70]
    );
    assert_eq!(gen_decode(&outer, &bytes, 1), Ok((data, bytes.len())));
}

#[test]
fn heads_take_the_shortest_form() {
    let cases: Vec<(u64, Vec<u8>)> = vec![
        (0, vec![0x00]),
        (23, vec![0x17]),
        (24, vec![0x18, 24]),
        (255, vec![0x18, 0xff]),
        (256, vec![0x19, 0x01, 0x00]),
        (65535, vec![0x19, 0xff, 0xff]),
        (65536, vec![0x1a, 0x00, 0x01, 0x00, 0x00]),
        (4294967295, vec![0x1a, 0xff, 0xff, 0xff, 0xff]),
        (4294967296, vec![0x1b, 0, 0, 0, 1, 0, 0, 0, 0]),
        (u64::MAX, vec![0x1b, 0xff, 0xff, 0xff, 0xff, 0xff, 0xff, 0xff, 0xff]),
    ];
    for (n, bytes) in cases {
        let mut w = Vec::new();
        write_u64(&mut w, 0, n);
        assert_eq!(w, bytes);
        assert_eq!(try_read_unsigned(&w, 1, w[0]), Ok(Some((n, w.len()))));
    }
    let mut w = Vec::new();
    write_u64(&mut w, 5, 2);
    assert_eq!(w, vec![0xa2]);
    let mut w = Vec::new();
    write_u64(&mut w, 4, 30);
    assert_eq!(w, vec![0x98, 30]);
    assert_eq!(read_len(&w, 1, w[0] - 0x80), Ok((30, 2)));
}

#[test]
fn malformed_input_is_told_apart() {
    assert_eq!(read_u8(&[], 0), Err(DecodeError::UnexpectedEof));
    assert_eq!(read_u8(&[7], 0), Ok((7, 1)));
    // a two-byte argument with one byte left
    assert_eq!(read_len(&[0x01], 0, 0x19), Err(DecodeError::UnexpectedEof));
    // low bits that announce no length
    assert_eq!(read_len(&[], 0, 0x1c), Err(DecodeError::UnexpectedCode(0x1c)));
    // a text that ends early
    assert_eq!(read_text(&[0x63, b'a'], 0), Err(DecodeError::UnexpectedEof));
    // a text that holds no UTF-8
    assert_eq!(read_text(&[0x62, 0xc3, 0x28], 0), Err(DecodeError::InvalidUtf8));
    // an item that is no text
    assert_eq!(read_text(&[0x01], 0), Err(DecodeError::UnexpectedCode(0x01)));
    assert_eq!(try_read_text(&[0x01], 1, 0x01), Ok(None));
    assert_eq!(read_text(&[0x62, 0xc3, 0xa9], 0), Ok(("é".to_string(), 3)));
}

#[test]
fn long_keys_are_read_with_their_whole_head() {
    let key = "a-key-of-more-than-twenty-three-bytes";
    let mut bytes = Vec::new();
    write_text(&mut bytes, key);
    assert_eq!(bytes[0], 0x78);
    assert_eq!(bytes[1] as usize, key.len());
    assert_eq!(read_key(&bytes, 0, key), Ok(bytes.len()));
    assert_eq!(
        read_key(&bytes, 0, "other"),
        Err(DecodeError::Type(TypeError {
            expected: TypeErrorType::Key("other".to_string()),
            found: TypeErrorType::Key(key.to_string()),
        }))
    );
}

#[test]
fn keys_are_ordered_by_their_bytes() {
    assert_eq!(compare_keys("a", "a"), KeyOrder::Same);
    assert_eq!(compare_keys("", ""), KeyOrder::Same);
    assert_eq!(compare_keys("", "a"), KeyOrder::Before);
    assert_eq!(compare_keys("a", "ab"), KeyOrder::Before);
    assert_eq!(compare_keys("ab", "b"), KeyOrder::Before);
    assert_eq!(compare_keys("b", "ab"), KeyOrder::After);
    assert_eq!(compare_keys("Z", "a"), KeyOrder::Before);
    assert_eq!(compare_keys("é", "z"), KeyOrder::After);
    assert_eq!(compare_keys("10", "9"), KeyOrder::Before);
}

#[test]
fn values_are_compared_in_depth() {
    let a = Datum::Union(1, vec![Datum::Struct(vec![Datum::Text("x".to_string()), Datum::Unsigned(1)])]);
    let b = Datum::Union(1, vec![Datum::Struct(vec![Datum::Text("x".to_string()), Datum::Unsigned(1)])]);
    let c = Datum::Union(1, vec![Datum::Struct(vec![Datum::Text("x".to_string()), Datum::Unsigned(2)])]);
    let d = Datum::Union(0, vec![Datum::Struct(vec![Datum::Text("x".to_string()), Datum::Unsigned(1)])]);
    let e = Datum::Union(1, vec![Datum::Struct(vec![Datum::Text("x".to_string())])]);
    assert!(a.same(&b));
    assert!(!a.same(&c));
    assert!(!a.same(&d));
    assert!(!a.same(&e));
    assert!(!Datum::Bool(true).same(&Datum::Unsigned(1)));
    assert!(Datum::Bool(false).same(&Datum::Bool(false)));
}

#[test]
fn nested_default_is_compared_by_value() {
    let inner = SchemaType::Struct(record(
        StructRepr::Tuple,
        vec![Field { name: Member::Unnamed(0), rename: None, default: None, kind: Kind::Unsigned }],
    ));
    let outer = record(
        StructRepr::Tuple,
        vec![Field {
            name: Member::Unnamed(0),
            rename: None,
            default: Some(Datum::Struct(vec![Datum::Unsigned(3)])),
            kind: Kind::Nested(Box::new(inner)),
        }],
    );
    let mut bytes = Vec::new();
    gen_encode_struct_body(&outer, &vec![Datum::Struct(vec![Datum::Unsigned(3)])], &mut bytes);
    assert_eq!(bytes, vec![0x80]);
    let mut bytes = Vec::new();
    gen_encode_struct_body(&outer, &vec![Datum::Struct(vec![Datum::Unsigned(4)])], &mut bytes);
    assert_eq!(bytes, vec![0x81, 0x81, 0x04]);
}

#[test]
fn bare_value_at_its_default_leaves_no_bytes() {
    let value = record(
        StructRepr::Value,
        vec![Field {
            name: Member::Unnamed(0),
            rename: None,
            default: Some(Datum::Unsigned(0)),
            kind: Kind::Unsigned,
        }],
    );
    let mut bytes = Vec::new();
    gen_encode_struct_body(&value, &vec![Datum::Unsigned(0)], &mut bytes);
    assert_eq!(bytes, Vec::<u8>::new());
    gen_encode_struct_body(&value, &vec![Datum::Unsigned(5)], &mut bytes);
    assert_eq!(bytes, vec![0x05]);
    assert_eq!(gen_try_read_cbor_struct(&value, &bytes, 1, 0x05), Ok(Some((vec![Datum::Unsigned(5)], 1))));
}
