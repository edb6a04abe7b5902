use substreams::memory_host::MemoryHost;
use substreams::scalar::{BigDecimal, BigInt};
use substreams::state::Host;
use substreams::store::{
    Appender, StoreAdd, StoreAddBigDecimal, StoreAddBigInt, StoreAddInt64, StoreAppend,
    StoreDelete, StoreGet, StoreGetArray, StoreGetBigDecimal, StoreGetBigInt, StoreGetInt64,
    StoreGetRaw, StoreGetString, StoreMax, StoreMaxBigDecimal, StoreMaxBigInt, StoreMaxInt64,
    StoreMin, StoreMinBigDecimal, StoreMinBigInt, StoreMinInt64, StoreNew, StoreSet,
    StoreSetBigDecimal, StoreSetBigInt, StoreSetIfNotExists, StoreSetIfNotExistsBigDecimal,
    StoreSetIfNotExistsBigInt, StoreSetIfNotExistsInt64, StoreSetIfNotExistsRaw,
    StoreSetIfNotExistsString, StoreSetInt64, StoreSetRaw, StoreSetString,
};

fn text(host: &MemoryHost, key: &str) -> Option<String> {
    host.current(key).map(|bytes| String::from_utf8(bytes).unwrap())
}

#[test]
fn max_policy_keeps_the_largest_value() {
    let mut host = MemoryHost::new();
    StoreSetInt64::new().set(&mut host, 1, "k", &5);
    let max = StoreMaxInt64::new();
    max.max(&mut host, 2, "k", 3);
    assert_eq!(text(&host, "k"), Some("5".to_string()));
    max.max(&mut host, 3, "k", 9);
    assert_eq!(text(&host, "k"), Some("9".to_string()));
    let get = StoreGetInt64::new(1);
    assert_eq!(get.get_at(&host, 1, "k"), Some(5));
    assert_eq!(get.get_at(&host, 2, "k"), Some(5));
    assert_eq!(get.get_at(&host, 3, "k"), Some(9));
}

#[test]
fn max_policy_counts_an_absent_key_as_zero() {
    let mut host = MemoryHost::new();
    let max = StoreMaxInt64::new();
    max.max(&mut host, 1, "low", -3);
    assert_eq!(host.current("low"), None);
    max.max(&mut host, 2, "high", 4);
    assert_eq!(text(&host, "high"), Some("4".to_string()));
}

#[test]
fn min_policy_keeps_the_smallest_value() {
    let mut host = MemoryHost::new();
    let min = StoreMinInt64::new();
    min.min(&mut host, 1, "k", 7);
    assert_eq!(host.current("k"), None);
    min.min(&mut host, 2, "k", -2);
    assert_eq!(text(&host, "k"), Some("-2".to_string()));
    min.min(&mut host, 3, "k", -1);
    assert_eq!(text(&host, "k"), Some("-2".to_string()));
    min.min(&mut host, 4, "k", i64::MIN);
    assert_eq!(text(&host, "k"), Some("-9223372036854775808".to_string()));
}

#[test]
fn set_if_not_exists_keeps_the_first_value() {
    let mut host = MemoryHost::new();
    let store = StoreSetIfNotExistsString::new();
    store.set_if_not_exists(&mut host, 1, "k", &"first".to_string());
    store.set_if_not_exists(&mut host, 2, "k", &"second".to_string());
    assert_eq!(text(&host, "k"), Some("first".to_string()));
    let get = StoreGetString::new(1);
    assert_eq!(get.get_at(&host, 2, "k"), Some("first".to_string()));
    assert_eq!(get.get_at(&host, 0, "k"), None);
}

#[test]
fn set_if_not_exists_for_every_encoding() {
    let mut host = MemoryHost::new();
    StoreSetIfNotExistsRaw::new().set_if_not_exists(&mut host, 1, "raw", &vec![0u8, 255]);
    StoreSetIfNotExistsRaw::new().set_if_not_exists(&mut host, 2, "raw", &vec![1u8]);
    assert_eq!(host.current("raw"), Some(vec![0u8, 255]));
    StoreSetIfNotExistsInt64::new().set_if_not_exists(&mut host, 1, "int", &-12);
    StoreSetIfNotExistsInt64::new().set_if_not_exists(&mut host, 2, "int", &13);
    assert_eq!(text(&host, "int"), Some("-12".to_string()));
    let keys = vec!["a".to_string(), "int".to_string()];
    StoreSetIfNotExistsBigInt::new().set_if_not_exists_many(&mut host, 3, &keys, &BigInt::from_i64(77));
    assert_eq!(text(&host, "a"), Some("77".to_string()));
    assert_eq!(text(&host, "int"), Some("-12".to_string()));
    let d = BigDecimal::parse("1.50").unwrap();
    StoreSetIfNotExistsBigDecimal::new().set_if_not_exists(&mut host, 4, "dec", &d);
    assert_eq!(text(&host, "dec"), Some("1.50".to_string()));
}

#[test]
fn set_overwrites_and_writes_each_encoding() {
    let mut host = MemoryHost::new();
    StoreSetRaw::new().set(&mut host, 1, "raw", &vec![1u8, 2, 3]);
    StoreSetRaw::new().set(&mut host, 2, "raw", &vec![4u8]);
    assert_eq!(host.current("raw"), Some(vec![4u8]));
    StoreSetString::new().set(&mut host, 1, "text", &"héllo".to_string());
    assert_eq!(text(&host, "text"), Some("héllo".to_string()));
    StoreSetInt64::new().set(&mut host, 1, "min", &i64::MIN);
    StoreSetInt64::new().set(&mut host, 1, "max", &i64::MAX);
    StoreSetInt64::new().set(&mut host, 1, "zero", &0);
    assert_eq!(text(&host, "min"), Some("-9223372036854775808".to_string()));
    assert_eq!(text(&host, "max"), Some("9223372036854775807".to_string()));
    assert_eq!(text(&host, "zero"), Some("0".to_string()));
    let big = BigInt::parse("-123456789012345678901234567890").unwrap();
    StoreSetBigInt::new().set(&mut host, 1, "big", &big);
    assert_eq!(text(&host, "big"), Some("-123456789012345678901234567890".to_string()));
    let dec = BigDecimal::parse("-0.00012").unwrap();
    StoreSetBigDecimal::new().set(&mut host, 1, "dec", &dec);
    assert_eq!(text(&host, "dec"), Some("-0.00012".to_string()));
    let keys = vec!["x".to_string(), "y".to_string()];
    StoreSetInt64::new().set_many(&mut host, 2, &keys, &42);
    assert_eq!(text(&host, "x"), Some("42".to_string()));
    assert_eq!(text(&host, "y"), Some("42".to_string()));
}

#[test]
fn add_policy_sums_from_zero() {
    let mut host = MemoryHost::new();
    let add = StoreAddInt64::new();
    add.add(&mut host, 1, "n", 5);
    add.add(&mut host, 2, "n", -7);
    assert_eq!(text(&host, "n"), Some("-2".to_string()));
    let keys = vec!["n".to_string(), "m".to_string()];
    add.add_many(&mut host, 3, &keys, 10);
    assert_eq!(text(&host, "n"), Some("8".to_string()));
    assert_eq!(text(&host, "m"), Some("10".to_string()));
    let big = StoreAddBigInt::new();
    big.add(&mut host, 1, "b", BigInt::parse("9223372036854775807").unwrap());
    big.add(&mut host, 2, "b", BigInt::from_i64(1));
    assert_eq!(text(&host, "b"), Some("9223372036854775808".to_string()));
    let dec = StoreAddBigDecimal::new();
    dec.add(&mut host, 1, "d", BigDecimal::parse("1.5").unwrap());
    dec.add(&mut host, 2, "d", BigDecimal::parse("0.25").unwrap());
    assert_eq!(text(&host, "d"), Some("1.75".to_string()));
    let get = StoreGetBigDecimal::new(1);
    let read = get.get_at(&host, 1, "d").unwrap();
    assert_eq!(read.to_store_bytes(), b"1.5".to_vec());
}

#[test]
fn a_sum_that_does_not_fit_changes_nothing() {
    let mut host = MemoryHost::new();
    let add = StoreAddInt64::new();
    add.add(&mut host, 1, "n", i64::MAX);
    add.add(&mut host, 2, "n", 1);
    assert_eq!(text(&host, "n"), Some("9223372036854775807".to_string()));
}

#[test]
fn max_and_min_for_big_numbers() {
    let mut host = MemoryHost::new();
    StoreMaxBigInt::new().max(&mut host, 1, "a", BigInt::from_i64(5));
    StoreMaxBigInt::new().max(&mut host, 2, "a", BigInt::from_i64(3));
    assert_eq!(text(&host, "a"), Some("5".to_string()));
    StoreMaxBigInt::new().max(&mut host, 3, "a", BigInt::from_i64(9));
    assert_eq!(text(&host, "a"), Some("9".to_string()));
    StoreMinBigInt::new().min(&mut host, 1, "b", BigInt::from_i64(-5));
    StoreMinBigInt::new().min(&mut host, 2, "b", BigInt::from_i64(-3));
    assert_eq!(text(&host, "b"), Some("-5".to_string()));
    StoreMaxBigDecimal::new().max(&mut host, 1, "c", BigDecimal::parse("5.5").unwrap());
    StoreMaxBigDecimal::new().max(&mut host, 2, "c", BigDecimal::parse("5.45").unwrap());
    assert_eq!(text(&host, "c"), Some("5.5".to_string()));
    StoreMinBigDecimal::new().min(&mut host, 1, "d", BigDecimal::parse("-0.5").unwrap());
    StoreMinBigDecimal::new().min(&mut host, 2, "d", BigDecimal::parse("-0.75").unwrap());
    assert_eq!(text(&host, "d"), Some("-0.75".to_string()));
    let get = StoreGetBigInt::new(1);
    assert_eq!(get.get_at(&host, 3, "a").unwrap().to_store_bytes(), b"9".to_vec());
}

#[test]
fn append_always_adds_the_terminator() {
    let mut host = MemoryHost::new();
    let store = StoreAppend::new();
    store.append(&mut host, 1, "k", "a".to_string());
    store.append_all(&mut host, 2, "k", vec!["b".to_string(), "c".to_string()]);
    assert_eq!(text(&host, "k"), Some("a;b;c;".to_string()));
    let get = StoreGetArray::new(1);
    assert_eq!(
        get.get_at(&host, 2, "k"),
        Some(vec!["a".to_string(), "b".to_string(), "c".to_string()])
    );
    assert_eq!(get.get_at(&host, 1, "k"), Some(vec!["a".to_string()]));
    assert_eq!(get.get_at(&host, 0, "k"), None);
    assert!(!get.has_at(&host, 0, "k"));
    assert!(get.has_at(&host, 1, "k"));
}

#[test]
fn delete_prefix_removes_matching_keys() {
    let mut host = MemoryHost::new();
    let store = StoreSetString::new();
    store.set(&mut host, 1, "user:1", &"a".to_string());
    store.set(&mut host, 1, "user:2", &"b".to_string());
    store.set(&mut host, 1, "pool:1", &"c".to_string());
    store.delete_prefix(&mut host, 2, &"user:".to_string());
    assert_eq!(host.current("user:1"), None);
    assert_eq!(host.current("user:2"), None);
    assert_eq!(text(&host, "pool:1"), Some("c".to_string()));
    let get = StoreGetString::new(1);
    assert_eq!(get.get_at(&host, 1, "user:1"), Some("a".to_string()));
    assert_eq!(get.get_at(&host, 2, "user:1"), None);
    store.set(&mut host, 3, "user:1", &"again".to_string());
    assert_eq!(get.get_at(&host, 3, "user:1"), Some("again".to_string()));
}

#[test]
fn the_three_views_of_a_store() {
    let mut host = MemoryHost::new();
    host.preload("k", b"old".to_vec());
    host.preload("n", b"41".to_vec());
    StoreSetString::new().set(&mut host, 5, "k", &"new".to_string());
    StoreAddInt64::new().add(&mut host, 6, "n", 1);
    let get = StoreGetString::new(7);
    assert_eq!(get.get_last(&host, "k"), Some("old".to_string()));
    assert_eq!(get.get_first(&host, "k"), Some("old".to_string()));
    assert_eq!(get.get_at(&host, 4, "k"), Some("old".to_string()));
    assert_eq!(get.get_at(&host, 5, "k"), Some("new".to_string()));
    assert!(get.has_last(&host, "k"));
    assert!(get.has_first(&host, "k"));
    assert!(!get.has_last(&host, "absent"));
    assert!(!get.has_first(&host, "absent"));
    assert_eq!(get.get_last(&host, "absent"), None);
    let numbers = StoreGetInt64::new(7);
    assert_eq!(numbers.get_last(&host, "n"), Some(41));
    assert_eq!(numbers.get_first(&host, "n"), Some(41));
    assert_eq!(numbers.get_at(&host, 6, "n"), Some(42));
    let other = StoreGetString::new(8);
    assert_eq!(other.get_at(&host, 5, "k"), Some("new".to_string()));
    assert!(other.has_last(&host, "k"));
}

#[test]
fn presence_checks_do_not_decode() {
    let mut host = MemoryHost::new();
    host.preload("bad", vec![0xff, 0xfe]);
    StoreSetRaw::new().set(&mut host, 1, "worse", &vec![0xc0u8]);
    let text = StoreGetString::new(1);
    let numbers = StoreGetInt64::new(1);
    assert!(text.has_last(&host, "bad"));
    assert!(text.has_first(&host, "bad"));
    assert!(numbers.has_at(&host, 1, "worse"));
    let raw = StoreGetRaw::new(1);
    assert_eq!(raw.get_last(&host, "bad"), Some(vec![0xff, 0xfe]));
    assert_eq!(raw.get_at(&host, 1, "worse"), Some(vec![0xc0u8]));
}

#[test]
fn the_host_takes_the_ordinal_as_a_signed_number() {
    let mut host = MemoryHost::new();
    StoreSetInt64::new().set(&mut host, u64::MAX, "k", &1);
    let raw = StoreGetRaw::new(1);
    assert_eq!(raw.get_at(&host, u64::MAX, "k"), Some(b"1".to_vec()));
    assert_eq!(host.get_at(1, -1, "k"), Some(b"1".to_vec()));
    assert_eq!(host.get_at(1, -2, "k"), None);
}
