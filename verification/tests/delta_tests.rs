use substreams::delta::{collect, from_store_delta, DecodeError};
use substreams::pb::{Operation, StoreDelta};
use substreams::store::{
    convert_i32_to_operation, decode_bytes_to_i32, try_split_array, Delta, DeltaArray,
    DeltaBigDecimal, DeltaBigInt, DeltaBool, DeltaBytes, DeltaExt, DeltaInt32, DeltaInt64,
    DeltaString, Deltas,
};

fn raw(operation: i32, ordinal: u64, key: &str, old: &[u8], new: &[u8]) -> StoreDelta {
    StoreDelta {
        operation,
        ordinal,
        key: key.to_string(),
        old_value: old.to_vec(),
        new_value: new.to_vec(),
    }
}

#[test]
fn operations_by_code_and_name() {
    assert_eq!(Operation::from_i32(0), Some(Operation::Unset));
    assert_eq!(Operation::from_i32(1), Some(Operation::Create));
    assert_eq!(Operation::from_i32(2), Some(Operation::Update));
    assert_eq!(Operation::from_i32(3), Some(Operation::Delete));
    assert_eq!(Operation::from_i32(4), None);
    assert_eq!(Operation::from_i32(-1), None);
    assert_eq!(convert_i32_to_operation(2), Operation::Update);
    for op in [Operation::Unset, Operation::Create, Operation::Update, Operation::Delete] {
        assert_eq!(Operation::from_i32(op.as_i32()), Some(op));
        assert_eq!(Operation::from_str_name(op.as_str_name()), Some(op));
    }
    assert_eq!(Operation::Create.as_str_name(), "CREATE");
    assert_eq!(Operation::from_str_name("create"), None);
    assert_eq!(Operation::from_str_name(""), None);
}

#[test]
fn int64_delta() {
    let d = DeltaInt64::try_from_store_delta(raw(2, 9, "n", b"-5", b"")).unwrap();
    assert_eq!(
        d,
        DeltaInt64 {
            operation: Operation::Update,
            ordinal: 9,
            key: "n".to_string(),
            old_value: -5,
            new_value: 0
        }
    );
    assert_eq!(d.get_key(), "n");
    assert_eq!(d.get_operation(), Operation::Update);
}

#[test]
fn decode_errors_name_the_field_and_its_length() {
    assert_eq!(
        DeltaInt64::try_from_store_delta(raw(4, 0, "k", b"x", b"y")),
        Err(DecodeError::UnknownOperation { code: 4 })
    );
    assert_eq!(
        DeltaInt64::try_from_store_delta(raw(1, 0, "k", b"abc", b"yy")),
        Err(DecodeError::OldValue { len: 3 })
    );
    assert_eq!(
        DeltaInt64::try_from_store_delta(raw(1, 0, "k", b"1", b"9223372036854775808")),
        Err(DecodeError::NewValue { len: 19 })
    );
    assert_eq!(
        DeltaInt32::try_from_store_delta(raw(1, 0, "k", b"1", b"2147483648")),
        Err(DecodeError::NewValue { len: 10 })
    );
    assert_eq!(
        DeltaString::try_from_store_delta(raw(1, 0, "k", &[0xff], b"ok")),
        Err(DecodeError::OldValue { len: 1 })
    );
    assert!(matches!(
        DeltaBigInt::try_from_store_delta(raw(1, 0, "k", b"1", b"1.5")),
        Err(DecodeError::NewValue { len: 3 })
    ));
    assert!(matches!(
        DeltaBigDecimal::try_from_store_delta(raw(1, 0, "k", b"1.5.5", b"1")),
        Err(DecodeError::OldValue { len: 5 })
    ));
    assert_eq!(
        DeltaArray::<String>::try_from_store_delta(raw(1, 0, "k", b"a;", &[0xff, b';'])),
        Err(DecodeError::NewValue { len: 2 })
    );
    assert_eq!(
        Deltas::<DeltaInt64>::try_new(vec![raw(1, 0, "a", b"1", b"2"), raw(9, 0, "b", b"", b"")]),
        Err(DecodeError::UnknownOperation { code: 9 })
    );
}

#[test]
fn deltas_of_each_encoding() {
    let d: DeltaInt32 = from_store_delta(raw(1, 1, "k", b"", b"-2147483648"));
    assert_eq!((d.old_value, d.new_value), (0, i32::MIN));
    let d: DeltaBool = from_store_delta(raw(1, 1, "k", &[0], &[1]));
    assert_eq!((d.old_value, d.new_value), (false, true));
    let d: DeltaBool = from_store_delta(raw(1, 1, "k", &[], &[1, 0]));
    assert_eq!((d.old_value, d.new_value), (true, false));
    let d: DeltaBytes = from_store_delta(raw(3, 1, "k", &[1, 2], &[]));
    assert_eq!((d.old_value, d.new_value, d.operation), (vec![1, 2], vec![], Operation::Delete));
    let d: DeltaString = from_store_delta(raw(0, 1, "k", "ä".as_bytes(), b""));
    assert_eq!((d.old_value.as_str(), d.new_value.as_str(), d.operation), ("ä", "", Operation::Unset));
    let d: DeltaBigInt = from_store_delta(raw(1, 1, "k", b"", b"-18446744073709551616"));
    assert!(d.old_value.is_zero());
    assert_eq!(d.new_value.to_store_bytes(), b"-18446744073709551616".to_vec());
    let d: DeltaBigDecimal = from_store_delta(raw(1, 1, "k", b"0.10", b""));
    assert_eq!(d.old_value.to_store_bytes(), b"0.10".to_vec());
    assert!(d.new_value.is_zero());
    assert_eq!(d.get_key(), "k");
}

#[test]
fn array_convention() {
    assert_eq!(try_split_array(&b"".to_vec()), Ok(None));
    assert_eq!(try_split_array(&b";".to_vec()), Ok(None));
    assert_eq!(try_split_array(&b";;;".to_vec()), Ok(None));
    assert_eq!(try_split_array(&b"a".to_vec()), Ok(None));
    assert_eq!(try_split_array(&b"a;b".to_vec()), Ok(None));
    assert_eq!(try_split_array(&b"a;".to_vec()), Ok(Some(vec!["a".to_string()])));
    assert_eq!(
        try_split_array(&b"a;;b;".to_vec()),
        Ok(Some(vec!["a".to_string(), "b".to_string()]))
    );
    assert!(try_split_array(&vec![0xff, b';']).is_err());
    let d: DeltaArray<String> = from_store_delta(raw(1, 1, "k", b"x;y", b"x;y;"));
    assert_eq!(d.old_value, Vec::<String>::new());
    assert_eq!(d.new_value, vec!["x".to_string(), "y".to_string()]);
    assert_eq!(decode_bytes_to_i32(&b"-7".to_vec()), -7);
}

fn sample() -> Deltas<DeltaInt64> {
    Deltas::new(vec![
        raw(1, 1, "user:1:balance", b"", b"1"),
        raw(2, 2, "user:2:balance", b"1", b"2"),
        raw(1, 3, "pool:1:volume", b"", b"3"),
        raw(1, 4, "user:3:volume", b"", b"4"),
        raw(3, 5, "contract:9:balance", b"5", b""),
        raw(1, 6, "user", b"", b"6"),
    ])
}

fn ordinals(found: Vec<&DeltaInt64>) -> Vec<u64> {
    found.iter().map(|d| d.ordinal).collect()
}

#[test]
fn filter_chains_give_the_same_deltas_in_either_order() {
    let deltas = sample();
    let one = deltas.iter().operation_eq(Operation::Create).key_first_segment_eq("user".to_string());
    let other = deltas.iter().key_first_segment_eq("user".to_string()).operation_eq(Operation::Create);
    assert_eq!(ordinals(collect(one)), vec![1, 4, 6]);
    assert_eq!(ordinals(collect(other)), vec![1, 4, 6]);
}

#[test]
fn filters_by_segment_and_operation() {
    let deltas = sample();
    assert_eq!(ordinals(collect(deltas.iter())), vec![1, 2, 3, 4, 5, 6]);
    assert_eq!(ordinals(collect(deltas.iter().operation_eq(Operation::Create))), vec![1, 3, 4, 6]);
    assert_eq!(ordinals(collect(deltas.iter().operation_not_eq(Operation::Create))), vec![2, 5]);
    assert_eq!(
        ordinals(collect(deltas.iter().key_last_segment_eq("balance".to_string()))),
        vec![1, 2, 5]
    );
    assert_eq!(ordinals(collect(deltas.iter().key_last_segment_eq("user".to_string()))), vec![6]);
    assert_eq!(
        ordinals(collect(
            deltas.iter().key_first_segment_in(vec!["pool".to_string(), "contract".to_string()])
        )),
        vec![3, 5]
    );
    assert_eq!(
        ordinals(collect(
            deltas.iter().key_last_segment_in(vec!["volume".to_string(), "user".to_string()])
        )),
        vec![3, 4, 6]
    );
    assert_eq!(ordinals(collect(deltas.iter().key_first_segment_in(vec![]))), Vec::<u64>::new());
    let with_three = deltas.iter().operation_not_eq(Operation::Unset).key_last_segment_in(vec![
        "balance".to_string(),
        "volume".to_string(),
    ]);
    assert_eq!(
        ordinals(collect(with_three.key_segment_at_eq(1, "1".to_string()))),
        vec![1, 3]
    );
    let with_three = deltas.iter().key_last_segment_in(vec!["balance".to_string()]);
    assert_eq!(
        ordinals(collect(with_three.key_segment_at_in(1, vec!["2".to_string(), "9".to_string()]))),
        vec![2, 5]
    );
}

#[test]
fn a_walk_hands_each_delta_out_once() {
    let deltas = sample();
    let mut walk = deltas.iter().key_first_segment_eq("pool".to_string());
    assert_eq!(walk.next().map(|d| d.ordinal), Some(3));
    assert_eq!(walk.next().map(|d| d.ordinal), None);
    assert_eq!(walk.next().map(|d| d.ordinal), None);
    assert_eq!(deltas.deltas.len(), 6);
    assert_eq!(deltas.into_iter().len(), 6);
}

#[test]
fn an_empty_set_of_segments_looks_into_no_key() {
    let deltas = sample();
    let mut walk = deltas.iter().key_segment_at_in(2, vec![]);
    assert_eq!(walk.next().map(|d| d.ordinal), None);
    assert_eq!(ordinals(collect(deltas.iter().key_segment_at_in(5, vec![]))), Vec::<u64>::new());
    assert_eq!(ordinals(collect(deltas.iter().key_last_segment_in(vec![]))), Vec::<u64>::new());
}

#[test]
fn a_filter_hands_out_the_deltas_in_their_order() {
    let deltas = sample();
    let mut walk = deltas.iter().key_first_segment_eq("user".to_string());
    assert_eq!(walk.next().map(|d| d.ordinal), Some(1));
    assert_eq!(walk.next().map(|d| d.ordinal), Some(2));
    assert_eq!(walk.next().map(|d| d.ordinal), Some(4));
    assert_eq!(walk.next().map(|d| d.ordinal), Some(6));
    assert_eq!(walk.next().map(|d| d.ordinal), None);
    let mut walk = deltas.iter().operation_not_eq(Operation::Create);
    assert_eq!(walk.next().map(|d| d.ordinal), Some(2));
    assert_eq!(walk.next().map(|d| d.ordinal), Some(5));
    assert_eq!(walk.next().map(|d| d.ordinal), None);
}
