use substreams::pb::{Operation, StoreDelta};
use substreams::store::{
    decode_bytes_to_i32, decode_bytes_to_i64, split_array, DeltaArray, Deltas,
};

#[test]
fn valid_int64_decode_bytes_to_i32() {
    let bytes: Vec<u8> = "1".as_bytes().to_vec();
    assert_eq!(1, decode_bytes_to_i32(&bytes))
}

#[test]
fn valid_int64_max_value_decode_bytes_to_i32() {
    let bytes: Vec<u8> = i32::MAX.to_string().as_bytes().to_vec();
    assert_eq!(i32::MAX, decode_bytes_to_i32(&bytes))
}

#[test]
fn no_bytes_decode_bytes_to_i32() {
    let bytes: Vec<u8> = vec![];
    decode_bytes_to_i32(&bytes);
}

#[test]
fn valid_int64_decode_bytes_to_i64() {
    let bytes: Vec<u8> = "1".as_bytes().to_vec();
    assert_eq!(1, decode_bytes_to_i64(&bytes))
}

#[test]
fn valid_int64_max_value_decode_bytes_to_i64() {
    let bytes: Vec<u8> = i64::MAX.to_string().as_bytes().to_vec();
    assert_eq!(i64::MAX, decode_bytes_to_i64(&bytes))
}

#[test]
fn no_bytes_decode_bytes_to_i64() {
    let bytes: Vec<u8> = vec![];
    decode_bytes_to_i64(&bytes);
}

#[test]
fn delta_array_strring() {
    let deltas = Deltas::<DeltaArray<String>>::new(vec![StoreDelta {
        operation: 1,
        ordinal: 0,
        key: "".to_string(),
        old_value: ";".as_bytes().to_vec(),
        new_value: "1.1;2.2;3.3;".as_bytes().to_vec(),
    }]);

    assert_eq!(
        Deltas::<DeltaArray<String>> {
            deltas: vec![DeltaArray::<String> {
                operation: Operation::Create,
                ordinal: 0,
                key: "".to_string(),
                old_value: vec![],
                new_value: vec!["1.1".to_string(), "2.2".to_string(), "3.3".to_string(),]
            }]
        },
        deltas
    );
}

#[test]
fn split_arrays_no_elements() {
    let value = "";
    let bytes = value.as_bytes();

    let expected_value = None;
    let actual_value = split_array(bytes.to_vec());

    assert_eq!(expected_value, actual_value)
}

#[test]
fn split_arrays_one_string_element() {
    let value = "1;";
    let bytes = value.as_bytes();

    let expected_value = Some(vec!["1".to_string()]);
    let actual_value = split_array(bytes.to_vec());

    assert_eq!(expected_value, actual_value)
}

#[test]
fn split_arrays_multiple_string_elements() {
    let value = "1;2;3;";
    let bytes = value.as_bytes();

    let expected_value = Some(vec!["1".to_string(), "2".to_string(), "3".to_string()]);
    let actual_value = split_array(bytes.to_vec());

    assert_eq!(expected_value, actual_value)
}
