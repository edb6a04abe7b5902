use substreams::memory_host::MemoryHost;
use substreams::scalar::{BigDecimal, BigInt};
use substreams::state::{Call, Host, Policy, Recorder, Value};
use substreams::store::{
    StoreAdd, StoreAddBigDecimal, StoreMin, StoreMinBigDecimal, StoreNew, StoreSet,
    StoreSetBigDecimal, StoreSetSum, StoreSetSumBigDecimal, StoreSetSumBigInt, StoreSetSumInt64,
};

fn text(host: &MemoryHost, key: &str) -> Option<String> {
    host.current(key).map(|bytes| String::from_utf8(bytes).unwrap())
}

fn call(ord: i64, key: &str, value: Value) -> Call {
    Call { policy: Policy::SetSum, ord, key: key.to_string(), value }
}

#[test]
fn tagged_numbers_are_handed_over_as_text() {
    let mut host = Recorder::new();
    StoreSetSumInt64::new().set(&mut host, 1, "a", 5);
    StoreSetSumInt64::new().sum(&mut host, 2, "a", -7);
    StoreSetSumBigInt::new().set(&mut host, 3, "b", BigInt::from_i64(12));
    StoreSetSumBigInt::new().sum(&mut host, 4, "b", BigInt::from_i64(-1));
    StoreSetSumBigDecimal::new().set(&mut host, 5, "c", BigDecimal::parse("1.50").unwrap());
    StoreSetSumBigDecimal::new().sum(&mut host, u64::MAX, "c", BigDecimal::parse("-0.5").unwrap());
    assert_eq!(
        host.take(),
        vec![
            call(1, "a", Value::Int64Text(b"set:5".to_vec())),
            call(2, "a", Value::Int64Text(b"sum:-7".to_vec())),
            call(3, "b", Value::BigInt(b"set:12".to_vec())),
            call(4, "b", Value::BigInt(b"sum:-1".to_vec())),
            call(5, "c", Value::BigDecimal(b"set:1.50".to_vec())),
            call(-1, "c", Value::BigDecimal(b"sum:-0.5".to_vec())),
        ]
    );
}

#[test]
fn a_tagged_number_replaces_or_is_added() {
    let mut host = MemoryHost::new();
    let store = StoreSetSumInt64::new();
    store.sum(&mut host, 1, "k", 4);
    assert_eq!(text(&host, "k"), Some("4".to_string()));
    store.sum(&mut host, 2, "k", 6);
    assert_eq!(text(&host, "k"), Some("10".to_string()));
    store.set(&mut host, 3, "k", -3);
    assert_eq!(text(&host, "k"), Some("-3".to_string()));
    store.sum(&mut host, 4, "k", 1);
    assert_eq!(text(&host, "k"), Some("-2".to_string()));
    store.sum(&mut host, 5, "k", i64::MIN);
    assert_eq!(text(&host, "k"), Some("-2".to_string()));

    let big = StoreSetSumBigInt::new();
    big.set(&mut host, 6, "b", BigInt::parse("100000000000000000000").unwrap());
    big.sum(&mut host, 7, "b", BigInt::from_i64(1));
    assert_eq!(text(&host, "b"), Some("100000000000000000001".to_string()));

    let decimal = StoreSetSumBigDecimal::new();
    decimal.set(&mut host, 8, "d", BigDecimal::parse("1.50").unwrap());
    assert_eq!(text(&host, "d"), Some("1.50".to_string()));
    decimal.sum(&mut host, 9, "d", BigDecimal::parse("0.25").unwrap());
    assert_eq!(text(&host, "d"), Some("1.75".to_string()));
}

#[test]
fn a_text_without_a_tag_changes_nothing() {
    let mut host = MemoryHost::new();
    host.set_sum_int64(1, "k", b"5");
    host.set_sum_int64(2, "k", b"add:5");
    host.set_sum_int64(3, "k", b"set:five");
    host.set_sum_int64(4, "k", b"set");
    host.set_sum_bigint(5, "k", b"sum");
    host.set_sum_bigdecimal(6, "k", b"SET:1");
    assert_eq!(host.current("k"), None);
    host.set_sum_int64(7, "k", b"set:+05");
    assert_eq!(text(&host, "k"), Some("5".to_string()));
}

#[test]
fn decimals_of_any_scale_are_written() {
    let mut host = MemoryHost::new();
    let small = || BigDecimal::new(BigInt::one(), -7000);
    let mut expected = "0.".to_string();
    expected.push_str(&"0".repeat(6999));
    expected.push('1');
    StoreSetBigDecimal::new().set(&mut host, 1, "set", &small());
    assert_eq!(text(&host, "set"), Some(expected.clone()));
    StoreAddBigDecimal::new().add(&mut host, 2, "add", small());
    assert_eq!(text(&host, "add"), Some(expected.clone()));
    StoreMinBigDecimal::new().min(&mut host, 3, "min", small().neg());
    assert_eq!(text(&host, "min"), Some(format!("-{}", expected)));
    StoreAddBigDecimal::new().add(&mut host, 4, "add", BigDecimal::new(BigInt::one(), 3));
    assert_eq!(text(&host, "add"), Some(format!("1000.{}", &expected[2..])));
}
