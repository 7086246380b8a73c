use ipld_schema::error::{TypeError, TypeErrorType};
use ipld_schema::ipld::{Ipld, IpldIndex};
use ipld_schema::map::StringMap;

#[test]
fn test_take() {
    let ipld = Ipld::List(vec![Ipld::Integer(0), Ipld::Integer(1), Ipld::Integer(2)]);
    assert_eq!(ipld.clone().take(0).unwrap(), Ipld::Integer(0));
    assert_eq!(ipld.clone().take(1).unwrap(), Ipld::Integer(1));
    assert_eq!(ipld.take(2).unwrap(), Ipld::Integer(2));

    let mut map = StringMap::new();
    map.insert("a".to_string(), Ipld::Integer(0));
    map.insert("b".to_string(), Ipld::Integer(1));
    map.insert("c".to_string(), Ipld::Integer(2));
    let ipld = Ipld::StringMap(map);
    assert_eq!(ipld.take("a").unwrap(), Ipld::Integer(0));
}

#[test]
fn test_get() {
    let ipld = Ipld::List(vec![Ipld::Integer(0), Ipld::Integer(1), Ipld::Integer(2)]);
    assert_eq!(ipld.get(0).unwrap(), &Ipld::Integer(0));
    assert_eq!(ipld.get(1).unwrap(), &Ipld::Integer(1));
    assert_eq!(ipld.get(2).unwrap(), &Ipld::Integer(2));

    let mut map = StringMap::new();
    map.insert("a".to_string(), Ipld::Integer(0));
    map.insert("b".to_string(), Ipld::Integer(1));
    map.insert("c".to_string(), Ipld::Integer(2));
    let ipld = Ipld::StringMap(map);
    assert_eq!(ipld.get("a").unwrap(), &Ipld::Integer(0));
}

#[test]
fn get_out_of_range_is_a_type_error() {
    let ipld = Ipld::List(vec![Ipld::Integer(0)]);
    let e = ipld.get(1).unwrap_err();
    assert_eq!(e, TypeError { expected: TypeErrorType::Index(1), found: TypeErrorType::List });
    let e = ipld.get_at(IpldIndex::MapRef("x")).unwrap_err();
    assert_eq!(
        e,
        TypeError { expected: TypeErrorType::Key("x".to_string()), found: TypeErrorType::List }
    );
}

#[test]
fn test_ipld_bool_from() {
    assert_eq!(Ipld::Bool(true), Ipld::from(true));
    assert_eq!(Ipld::Bool(false), Ipld::from(false));
}

#[test]
fn test_ipld_integer_from() {
    assert_eq!(Ipld::Integer(1), Ipld::from(1i8));
    assert_eq!(Ipld::Integer(1), Ipld::from(1i16));
    assert_eq!(Ipld::Integer(1), Ipld::from(1i32));
    assert_eq!(Ipld::Integer(1), Ipld::from(1i64));
    assert_eq!(Ipld::Integer(1), Ipld::from(1i128));

    assert_eq!(Ipld::Integer(1), Ipld::from(1u16));
    assert_eq!(Ipld::Integer(1), Ipld::from(1u32));
    assert_eq!(Ipld::Integer(1), Ipld::from(1u64));
}

#[test]
fn test_ipld_string_from() {
    assert_eq!(Ipld::String("a string".into()), Ipld::from("a string"));
    assert_eq!(
        Ipld::String("a string".into()),
        Ipld::from("a string".to_string())
    );
}

#[test]
fn test_ipld_bytes_from() {
    assert_eq!(
        Ipld::Bytes(vec![0, 1, 2, 3]),
        Ipld::from(&[0u8, 1u8, 2u8, 3u8][..])
    );
    assert_eq!(
        Ipld::Bytes(vec![0, 1, 2, 3]),
        Ipld::from(vec![0u8, 1u8, 2u8, 3u8])
    );
}

fn link(seed: u8) -> cid::Cid {
    let hash = cid::multihash::Multihash::<64>::wrap(0x1e, &[seed; 32]).unwrap();
    cid::Cid::new_v1(0x55, hash)
}

#[test]
fn test_ipld_link_from() {
    let cid = link(0);
    assert_eq!(Ipld::Link(cid), Ipld::from(cid));
}

fn sample() -> Ipld {
    let mut inner = StringMap::new();
    inner.insert("z".to_string(), Ipld::Link(link(3)));
    inner.insert("a".to_string(), Ipld::List(vec![Ipld::Link(link(2)), Ipld::Null]));
    let mut numbers = ipld_schema::map::IntegerMap::new();
    numbers.insert(5, Ipld::Link(link(5)));
    numbers.insert(-1, Ipld::Link(link(4)));
    Ipld::List(vec![
        Ipld::Link(link(1)),
        Ipld::StringMap(inner),
        Ipld::IntegerMap(numbers),
        Ipld::Tag(42, Box::new(Ipld::Link(link(1)))),
        Ipld::Integer(9),
    ])
}

#[test]
fn iter_is_depth_first_and_starts_with_self() {
    let ipld = sample();
    let mut it = ipld.iter();
    let mut seen = Vec::new();
    while let Some(node) = it.next() {
        seen.push(node.clone());
    }
    assert_eq!(it.next(), None);
    assert_eq!(seen.len(), 13);
    assert_eq!(seen[0], ipld);
    assert_eq!(seen[1], Ipld::Link(link(1)));
    assert!(matches!(seen[2], Ipld::StringMap(_)));
    // the values of a map come in the order of their keys: "a" before "z"
    assert_eq!(seen[3], Ipld::List(vec![Ipld::Link(link(2)), Ipld::Null]));
    assert_eq!(seen[4], Ipld::Link(link(2)));
    assert_eq!(seen[5], Ipld::Null);
    assert_eq!(seen[6], Ipld::Link(link(3)));
    assert!(matches!(seen[7], Ipld::IntegerMap(_)));
    assert_eq!(seen[8], Ipld::Link(link(4)));
    assert_eq!(seen[9], Ipld::Link(link(5)));
    assert_eq!(seen[10], Ipld::Tag(42, Box::new(Ipld::Link(link(1)))));
    assert_eq!(seen[11], Ipld::Link(link(1)));
    assert_eq!(seen[12], Ipld::Integer(9));
    // a value without children yields itself only
    let leaf = Ipld::Integer(1);
    let mut it = leaf.iter();
    assert_eq!(it.next(), Some(&leaf));
    assert_eq!(it.next(), None);
}

#[test]
fn references_finds_every_link_without_removing_repetitions() {
    let ipld = sample();
    let mut set = vec![link(9)];
    ipld.references(&mut set);
    assert_eq!(set, vec![link(9), link(1), link(2), link(3), link(4), link(5), link(1)]);
    let mut none = Vec::new();
    Ipld::Integer(1).references(&mut none);
    assert!(none.is_empty());
}

#[test]
fn deep_nesting_is_walked_without_recursion() {
    let mut ipld = Ipld::Link(link(7));
    for _ in 0..200_000 {
        ipld = Ipld::List(vec![ipld]);
    }
    let mut set = Vec::new();
    ipld.references(&mut set);
    assert_eq!(set, vec![link(7)]);
    // take the value apart from the outside in, so that dropping it does not recurse
    let mut rest = ipld;
    while let Ipld::List(mut l) = rest {
        rest = l.pop().unwrap();
    }
}

#[test]
fn position_and_decimal_key_select_the_same() {
    let list = Ipld::List(vec![Ipld::Integer(10), Ipld::Integer(11), Ipld::Integer(12)]);
    for i in 0..5usize {
        let by_position = list.get(i).ok();
        let by_key = list.get(i.to_string()).ok();
        assert_eq!(by_position, by_key);
        assert_eq!(by_position.is_some(), i < 3);
    }
    assert_eq!(list.get("+1").unwrap(), &Ipld::Integer(11));
    assert_eq!(list.get("01").unwrap(), &Ipld::Integer(11));
    assert!(list.get("").is_err());
    assert!(list.get("1 ").is_err());
    assert!(list.get("-0").is_err());
    assert!(list.get("one").is_err());
    assert!(list.get("99999999999999999999999999").is_err());

    let mut map = StringMap::new();
    map.insert("1".to_string(), Ipld::Integer(1));
    map.insert("01".to_string(), Ipld::Integer(2));
    let map = Ipld::StringMap(map);
    assert_eq!(map.get(1).unwrap(), &Ipld::Integer(1));
    assert_eq!(map.get("1").unwrap(), &Ipld::Integer(1));
    assert_eq!(map.get("01").unwrap(), &Ipld::Integer(2));
    assert_eq!(
        map.get(2).unwrap_err(),
        TypeError { expected: TypeErrorType::Index(2), found: TypeErrorType::StringMap }
    );
}

#[test]
fn integer_map_is_indexed_by_number() {
    let mut numbers = ipld_schema::map::IntegerMap::new();
    numbers.insert(7, Ipld::Integer(70));
    numbers.insert(-3, Ipld::Integer(-30));
    assert_eq!(numbers.insert(7, Ipld::Integer(71)), Some(Ipld::Integer(70)));
    assert_eq!(numbers.len(), 2);
    assert_eq!(numbers.key_at(0), Some(-3));
    assert_eq!(numbers.key_at(1), Some(7));
    assert_eq!(numbers.key_at(2), None);
    let ipld = Ipld::IntegerMap(numbers);
    assert_eq!(ipld.get(7).unwrap(), &Ipld::Integer(71));
    assert_eq!(ipld.get("7").unwrap(), &Ipld::Integer(71));
    assert_eq!(ipld.get("-3").unwrap(), &Ipld::Integer(-30));
    assert_eq!(
        ipld.get("x").unwrap_err(),
        TypeError { expected: TypeErrorType::Key("x".to_string()), found: TypeErrorType::IntegerMap }
    );
    assert_eq!(ipld.clone().take("-3").unwrap(), Ipld::Integer(-30));
    assert!(ipld.take(8).is_err());
}

#[test]
fn tag_hands_the_index_to_its_payload() {
    let tagged = Ipld::Tag(1, Box::new(Ipld::Tag(2, Box::new(Ipld::List(vec![Ipld::Bool(true)])))));
    assert_eq!(tagged.get(0).unwrap(), &Ipld::Bool(true));
    assert_eq!(
        tagged.get(1).unwrap_err(),
        TypeError { expected: TypeErrorType::Index(1), found: TypeErrorType::List }
    );
    assert_eq!(tagged.take(0).unwrap(), Ipld::Bool(true));
    let leaf = Ipld::Tag(1, Box::new(Ipld::Null));
    assert_eq!(
        leaf.get("k").unwrap_err(),
        TypeError { expected: TypeErrorType::Key("k".to_string()), found: TypeErrorType::Null }
    );
}

#[test]
fn take_moves_the_last_element_into_the_gap() {
    // what is taken is the element at the position, whatever happens to the rest
    let list = Ipld::List(vec![Ipld::Integer(0), Ipld::Integer(1), Ipld::Integer(2)]);
    assert_eq!(list.clone().take(0).unwrap(), Ipld::Integer(0));
    assert_eq!(
        list.take(3).unwrap_err(),
        TypeError { expected: TypeErrorType::Index(3), found: TypeErrorType::List }
    );
    assert_eq!(
        Ipld::Null.take(0).unwrap_err(),
        TypeError { expected: TypeErrorType::Index(0), found: TypeErrorType::Null }
    );
}

#[test]
fn string_map_keeps_keys_in_byte_order() {
    let mut map = StringMap::new();
    for key in ["b", "ab", "a", "é", "B", ""] {
        assert_eq!(map.insert(key.to_string(), Ipld::String(key.to_string())), None);
    }
    assert_eq!(map.insert("a".to_string(), Ipld::Null), Some(Ipld::String("a".to_string())));
    let keys: Vec<&str> = (0..map.len()).map(|i| map.key_at(i).unwrap()).collect();
    assert_eq!(keys, vec!["", "B", "a", "ab", "b", "é"]);
    assert_eq!(map.get("a"), Some(&Ipld::Null));
    assert_eq!(map.get("c"), None);
    assert_eq!(map.remove("ab"), Some(Ipld::String("ab".to_string())));
    assert_eq!(map.remove("ab"), None);
    assert_eq!(map.len(), 5);
    assert_eq!(map.value_at(5), None);
    assert_eq!(map.key_at(5), None);
}

#[test]
fn type_error_names_what_was_expected_and_found() {
    let e = TypeError::new(IpldIndex::List(4), &Ipld::Bool(true));
    assert_eq!(e, TypeError { expected: TypeErrorType::Index(4), found: TypeErrorType::Bool });
    let e = TypeError::new(IpldIndex::MapOwned("k".to_string()), Ipld::Float(0));
    assert_eq!(e, TypeError { expected: TypeErrorType::Key("k".to_string()), found: TypeErrorType::Float });
    let e = TypeError::new(TypeErrorType::Null, IpldIndex::MapRef("r"));
    assert_eq!(e, TypeError { expected: TypeErrorType::Null, found: TypeErrorType::Key("r".to_string()) });
    let cases = vec![
        (Ipld::Null, TypeErrorType::Null),
        (Ipld::Integer(1), TypeErrorType::Integer),
        (Ipld::String(String::new()), TypeErrorType::String),
        (Ipld::Bytes(vec![]), TypeErrorType::Bytes),
        (Ipld::List(vec![]), TypeErrorType::List),
        (Ipld::StringMap(StringMap::new()), TypeErrorType::StringMap),
        (Ipld::IntegerMap(ipld_schema::map::IntegerMap::new()), TypeErrorType::IntegerMap),
        (Ipld::Link(link(0)), TypeErrorType::Link),
        (Ipld::Tag(0, Box::new(Ipld::Null)), TypeErrorType::Tag),
    ];
    for (ipld, expect) in cases {
        assert_eq!(TypeErrorType::from(&ipld), expect);
        assert_eq!(TypeErrorType::from(ipld), expect);
    }
}
