use substreams::scalar::{BigDecimal, BigInt};
use substreams::state::{Call, Host, Policy, Recorder, Value};
use substreams::store::{
    Appender, StoreAdd, StoreAddBigDecimal, StoreAddBigInt, StoreAddInt64, StoreAppend,
    StoreDelete, StoreGet, StoreGetArray, StoreGetInt64, StoreGetRaw, StoreGetString, StoreMax,
    StoreMaxInt64, StoreMin, StoreMinBigInt, StoreNew, StoreSet, StoreSetIfNotExists,
    StoreSetIfNotExistsString, StoreSetInt64, StoreSetString, Unreadable,
};

fn call(policy: Policy, ord: i64, key: &str, value: Value) -> Call {
    Call { policy, ord, key: key.to_string(), value }
}

#[test]
fn writes_are_recorded_in_their_order() {
    let mut host = Recorder::new();
    StoreSetInt64::new().set(&mut host, 1, "a", &-5);
    StoreSetIfNotExistsString::new().set_if_not_exists(&mut host, 2, "b", &"x".to_string());
    StoreAddInt64::new().add(&mut host, 3, "c", 7);
    StoreAddBigInt::new().add(&mut host, 4, "d", BigInt::from_i64(-8));
    StoreAddBigDecimal::new().add(&mut host, 5, "e", BigDecimal::parse("0.5").unwrap());
    StoreMaxInt64::new().max(&mut host, 6, "f", 9);
    StoreMinBigInt::new().min(&mut host, 7, "g", BigInt::from_i64(10));
    StoreAppend::new().append(&mut host, 8, "h", "item".to_string());
    StoreSetString::new().delete_prefix(&mut host, 9, &"pre".to_string());
    StoreSetString::new().set_many(
        &mut host,
        u64::MAX,
        &vec!["k1".to_string(), "k2".to_string()],
        &"v".to_string(),
    );
    assert_eq!(
        host.take(),
        vec![
            call(Policy::Overwrite, 1, "a", Value::Bytes(b"-5".to_vec())),
            call(Policy::SetIfNotExists, 2, "b", Value::Bytes(b"x".to_vec())),
            call(Policy::Add, 3, "c", Value::Int64(7)),
            call(Policy::Add, 4, "d", Value::BigInt(b"-8".to_vec())),
            call(Policy::Add, 5, "e", Value::BigDecimal(b"0.5".to_vec())),
            call(Policy::Max, 6, "f", Value::Int64(9)),
            call(Policy::Min, 7, "g", Value::BigInt(b"10".to_vec())),
            call(Policy::Append, 8, "h", Value::Bytes(b"item;".to_vec())),
            call(Policy::DeletePrefix, 9, "pre", Value::Nothing),
            call(Policy::Overwrite, -1, "k1", Value::Bytes(b"v".to_vec())),
            call(Policy::Overwrite, -1, "k2", Value::Bytes(b"v".to_vec())),
        ]
    );
    assert_eq!(host.take(), vec![]);
}

#[test]
fn a_recorder_holds_no_store() {
    let mut host = Recorder::new();
    StoreSetInt64::new().set(&mut host, 1, "a", &1);
    assert_eq!(host.get_at(0, 1, "a"), None);
    assert_eq!(host.get_last(0, "a"), None);
    assert_eq!(host.get_first(0, "a"), None);
    assert!(!host.has_at(0, 1, "a"));
    assert_eq!(StoreGetInt64::new(0).get_at(&host, 1, "a"), None);
}

#[test]
fn reading_what_a_key_holds() {
    assert_eq!(StoreGetInt64::read(b"12".to_vec()), Ok(Some(12)));
    assert_eq!(StoreGetInt64::read(b"".to_vec()), Ok(Some(0)));
    assert_eq!(StoreGetInt64::read(b"1.5".to_vec()), Err(Unreadable { len: 3 }));
    assert_eq!(StoreGetString::read(vec![0xff, 0xff]), Err(Unreadable { len: 2 }));
    assert_eq!(StoreGetString::read("ö".as_bytes().to_vec()), Ok(Some("ö".to_string())));
    assert_eq!(StoreGetRaw::read(vec![0xff]), Ok(Some(vec![0xff])));
    assert_eq!(StoreGetArray::<String>::read(b";".to_vec()), Ok(None));
    assert_eq!(StoreGetArray::<String>::read(b"".to_vec()), Ok(None));
    assert_eq!(
        StoreGetArray::<String>::read(b"a;b;".to_vec()),
        Ok(Some(vec!["a".to_string(), "b".to_string()]))
    );
    assert_eq!(StoreGetArray::<String>::read(vec![0xff, b';']), Err(Unreadable { len: 2 }));
}
