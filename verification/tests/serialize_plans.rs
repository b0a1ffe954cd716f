use orjson::array::{ArrayInterface, ArrayWrite, ItemType, PyArray};
use orjson::datetime::{Date, Time};
use orjson::dict::{key_less, sort_keys, DictSortedKey, KeyValue, NonStrError, NonStrKey};
use orjson::encode::{
    pyobject_to_obtype, str_key, DefaultOutcome, DefaultSerializer, DictPlan, ExactType, ObType, Plan,
    PyArrayError, SerializePyObject, TypeFacts, STRICT_INT_MAX, IntText,
};
use orjson::exc::SerializeError;
use orjson::opt::{BIG_INTEGER, NON_STR_KEYS, SERIALIZE_NUMPY, SORT_KEYS, STRICT_INTEGER};

fn facts(exact: ExactType) -> TypeFacts {
    TypeFacts {
        exact,
        enum_meta: false,
        str_subclass: false,
        long_subclass: false,
        list_subclass: false,
        dict_subclass: false,
        dataclass_fields: false,
        numpy_array: false,
    }
}

#[test]
fn object_types() {
    assert_eq!(pyobject_to_obtype(facts(ExactType::Str), 0), ObType::Str);
    assert_eq!(pyobject_to_obtype(facts(ExactType::NoneType), 0), ObType::Null);
    assert_eq!(pyobject_to_obtype(facts(ExactType::Tuple), 0), ObType::Tuple);
    let mut f = facts(ExactType::Other);
    f.numpy_array = true;
    assert_eq!(pyobject_to_obtype(f, 0), ObType::Unknown);
    assert_eq!(pyobject_to_obtype(f, SERIALIZE_NUMPY), ObType::Array);
    f.dataclass_fields = true;
    assert_eq!(pyobject_to_obtype(f, SERIALIZE_NUMPY), ObType::Dataclass);
    f.enum_meta = true;
    assert_eq!(pyobject_to_obtype(f, 0), ObType::Enum);
}

#[test]
fn plans_and_recursion_limit() {
    let list = SerializePyObject::with_obtype(ObType::List, 0, 0, 3, false);
    assert_eq!(list.serialize(0).unwrap(), Plan::EmptyList);
    match list.serialize(2).unwrap() {
        Plan::List(child) => assert_eq!(child.recursion, 4),
        other => panic!("unexpected plan {:?}", other),
    }
    let deep = SerializePyObject::with_obtype(ObType::Dict, 0, 0, 255, false);
    assert!(matches!(deep.serialize(1), Err(SerializeError::RecursionLimit)));
    let unknown = SerializePyObject::with_obtype(ObType::Unknown, 0, 0, 0, false);
    assert_eq!(unknown.serialize(0).unwrap(), Plan::Default);
}

#[test]
fn strict_integers() {
    let plain = SerializePyObject::with_obtype(ObType::Int, 0, 0, 0, false);
    assert_eq!(plain.serialize_int(1 << 60, false).unwrap(), IntText::Value(1 << 60));
    assert!(matches!(plain.serialize_int(0, true), Err(SerializeError::Integer64Bits)));
    let strict = SerializePyObject::with_obtype(ObType::Int, STRICT_INTEGER, 0, 0, false);
    assert_eq!(strict.serialize_int(STRICT_INT_MAX, false).unwrap(), IntText::Value(STRICT_INT_MAX));
    let e = strict.serialize_int(STRICT_INT_MAX + 1, false).unwrap_err();
    assert_eq!(e.message(), "Integer exceeds 53-bit range");
}

#[test]
fn big_integers_are_written_as_digits() {
    let big = SerializePyObject::with_obtype(ObType::Int, BIG_INTEGER, 0, 0, false);
    assert_eq!(big.serialize_int(0, true).unwrap(), IntText::Digits);
    assert_eq!(big.serialize_int(-5, false).unwrap(), IntText::Value(-5));
    let text: &[u8] = b"100000000000000000001";
    assert_eq!(big.integer_digits(text).unwrap(), text);
    let neg: &[u8] = b"-100000000000000000001";
    assert_eq!(big.integer_digits(neg).unwrap(), neg);
    assert!(matches!(big.integer_digits(b"0100"), Err(SerializeError::Integer64Bits)));
    assert!(matches!(big.integer_digits(b"-"), Err(SerializeError::Integer64Bits)));
    assert!(matches!(big.integer_digits(b"1e30"), Err(SerializeError::Integer64Bits)));
    assert!(matches!(big.integer_digits(b""), Err(SerializeError::Integer64Bits)));
    let both = SerializePyObject::with_obtype(ObType::Int, BIG_INTEGER | STRICT_INTEGER, 0, 0, false);
    assert!(matches!(both.serialize_int(0, true), Err(SerializeError::Integer53Bits)));
}

#[test]
fn dict_plans() {
    let d = SerializePyObject::with_obtype(ObType::Dict, 0, 0, 0, false);
    assert_eq!(d.dict_plan(0), DictPlan::Empty);
    assert!(matches!(d.dict_plan(1), DictPlan::Plain(_)));
    let s = SerializePyObject::with_obtype(ObType::Dict, SORT_KEYS, 0, 0, false);
    assert!(matches!(s.dict_plan(1), DictPlan::SortedKeys(_)));
    let n = SerializePyObject::with_obtype(ObType::Dict, SORT_KEYS | NON_STR_KEYS, 0, 0, false);
    assert!(matches!(n.dict_plan(1), DictPlan::NonStrKeys(_)));
}

#[test]
fn str_keys() {
    assert_eq!(str_key(true, Some(b"k")).unwrap(), b"k");
    assert_eq!(str_key(false, Some(b"k")).unwrap_err().message(), "Dict key must be str");
    assert!(matches!(str_key(true, None), Err(SerializeError::InvalidStr)));
}

#[test]
fn default_function() {
    let d = DefaultSerializer::new(0, 0, 0, false);
    let e = d.serialize("Decimal".to_string()).unwrap_err();
    assert_eq!(e.message(), "Type is not JSON serializable: Decimal");
    let d = DefaultSerializer::new(0, 255, 0, true);
    assert!(matches!(d.serialize("X".to_string()), Err(SerializeError::DefaultRecursionLimit)));
    let d = DefaultSerializer::new(0, 3, 7, true);
    assert!(d.serialize("X".to_string()).is_ok());
    let next = d.after_call(DefaultOutcome::Object, "X".to_string()).unwrap();
    assert_eq!((next.default_calls, next.recursion, next.obtype), (4, 7, ObType::Unknown));
    let e = d.after_call(DefaultOutcome::Raised, "Y".to_string()).unwrap_err();
    assert_eq!(e.message(), "Type raised exception in default function: Y");
    let e = d.after_call(DefaultOutcome::Null, "Z".to_string()).unwrap_err();
    assert_eq!(e.message(), "Type is not JSON serializable: Z");
}

#[test]
fn numpy_array_fallback() {
    let s = SerializePyObject::with_obtype(ObType::Array, SERIALIZE_NUMPY, 0, 0, true);
    assert!(matches!(s.array_fallback(PyArrayError::Malformed), Err(SerializeError::NumpyMalformed)));
    assert!(s.array_fallback(PyArrayError::NotContiguous).is_ok());
}

#[test]
fn key_order() {
    assert!(key_less(b"a", b"b"));
    assert!(key_less(b"a", b"ab"));
    assert!(!key_less(b"b", b"ab"));
    assert!(!key_less(b"a", b"a"));
    let keys = vec![b"b".to_vec(), b"a".to_vec(), b"c".to_vec(), b"aa".to_vec()];
    assert_eq!(sort_keys(&keys), vec![1, 3, 0, 2]);
}

#[test]
fn sorted_str_keys() {
    let keys = vec![(true, Some(b"z".to_vec())), (true, Some(b"m".to_vec()))];
    let en = DictSortedKey::new(SORT_KEYS, 2).serialize(&keys).unwrap();
    assert_eq!(en.order, vec![1, 0]);
    let keys = vec![(true, Some(b"z".to_vec())), (false, None)];
    assert!(matches!(DictSortedKey::new(SORT_KEYS, 2).serialize(&keys), Err(SerializeError::KeyMustBeStr)));
}

#[test]
fn non_str_key_texts() {
    let k = NonStrKey::new(NON_STR_KEYS, 0);
    let text = |v: &KeyValue| String::from_utf8(k.pyobject_to_string(v).unwrap()).unwrap();
    assert_eq!(text(&KeyValue::Null), "null");
    assert_eq!(text(&KeyValue::Bool(false)), "false");
    assert_eq!(text(&KeyValue::Int(Some(-12))), "-12");
    assert_eq!(text(&KeyValue::Date(Date::new(2020, 10, 1))), "2020-10-01");
    assert_eq!(text(&KeyValue::Time(Time::new(1, 2, 3, 4, false, 0))), "01:02:03.000004");
    assert_eq!(text(&KeyValue::Enum(Box::new(KeyValue::Int(Some(7))))), "7");
    assert_eq!(k.pyobject_to_string(&KeyValue::Int(None)).unwrap_err(), NonStrError::IntegerRange);
    assert_eq!(k.pyobject_to_string(&KeyValue::Other).unwrap_err(), NonStrError::UnsupportedType);
}

#[test]
fn non_str_keys_sorted() {
    let keys = vec![KeyValue::Int(Some(10)), KeyValue::Bool(true), KeyValue::Str(Some(b"a".to_vec()))];
    let en = NonStrKey::new(NON_STR_KEYS | SORT_KEYS, 3).serialize(&keys).unwrap();
    assert_eq!(en.texts, vec![b"10".to_vec(), b"true".to_vec(), b"a".to_vec()]);
    assert_eq!(en.order, vec![0, 2, 1]);
    let en = NonStrKey::new(NON_STR_KEYS, 3).serialize(&keys).unwrap();
    assert_eq!(en.order, vec![0, 1, 2]);
    let bad = vec![KeyValue::Null, KeyValue::Other];
    let e = NonStrKey::new(NON_STR_KEYS, 2).serialize(&bad).unwrap_err();
    assert_eq!(e.message(), "Dict key must a type serializable with NON_STR_KEYS");
    assert_eq!(
        SerializeError::DictKeyInvalidType.message(),
        "Dict key must a type serializable with OPT_NON_STR_KEYS"
    );
}

#[test]
fn array_two_by_two_int32_rows() {
    let iface = ArrayInterface {
        two: 2,
        nd: 2,
        typekind: b'i',
        itemsize: 4,
        flags: 1,
        shape: vec![2, 2],
        strides: vec![8, 4],
    };
    let array = PyArray::new(&iface).unwrap();
    let mut out = Vec::new();
    array.serialize(&mut out);
    let items = |offset: isize| ArrayWrite::Items { offset, count: 2, kind: ItemType::I32 };
    assert_eq!(
        out,
        vec![
            ArrayWrite::Start,
            ArrayWrite::Start,
            items(0),
            ArrayWrite::End,
            ArrayWrite::Start,
            items(8),
            ArrayWrite::End,
            ArrayWrite::End,
        ]
    );
}

#[test]
fn array_rows() {
    let iface = ArrayInterface {
        two: 2,
        nd: 2,
        typekind: b'i',
        itemsize: 8,
        flags: 1,
        shape: vec![2, 3],
        strides: vec![24, 8],
    };
    let array = PyArray::new(&iface).unwrap();
    let mut out = Vec::new();
    array.serialize(&mut out);
    let items = |offset: isize| ArrayWrite::Items { offset, count: 3, kind: ItemType::I64 };
    assert_eq!(
        out,
        vec![
            ArrayWrite::Start,
            ArrayWrite::Start,
            items(0),
            ArrayWrite::End,
            ArrayWrite::Start,
            items(24),
            ArrayWrite::End,
            ArrayWrite::End,
        ]
    );
}

#[test]
fn array_errors() {
    let mut iface = ArrayInterface {
        two: 3,
        nd: 1,
        typekind: b'f',
        itemsize: 2,
        flags: 1,
        shape: vec![4],
        strides: vec![2],
    };
    assert!(matches!(PyArray::new(&iface), Err(PyArrayError::Malformed)));
    iface.two = 2;
    assert!(matches!(PyArray::new(&iface), Err(PyArrayError::UnsupportedDataType)));
    iface.flags = 0;
    assert!(matches!(PyArray::new(&iface), Err(PyArrayError::NotContiguous)));
}
