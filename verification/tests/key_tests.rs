use substreams::key::{
    first_segment, last_segment, segment_at, segment_at_owned, try_first_segment,
    try_last_segment, try_segment_at,
};

#[test]
fn segments_of_a_three_part_key() {
    let key = "a:b:c".to_string();
    assert_eq!(first_segment(&key), "a");
    assert_eq!(last_segment(&key), "c");
    assert_eq!(segment_at(&key, 1), "b");
    assert_eq!(segment_at(&key, 2), "c");
    assert_eq!(try_segment_at(&key, 5), None);
    assert_eq!(try_segment_at(&key, 3), None);
    assert_eq!(try_first_segment(&key), Some("a"));
    assert_eq!(try_last_segment(&key), Some("c"));
    assert_eq!(segment_at_owned(key, 1), "b".to_string());
}

#[test]
fn a_key_without_separator_is_its_only_segment() {
    let key = "user".to_string();
    assert_eq!(first_segment(&key), "user");
    assert_eq!(last_segment(&key), "user");
    assert_eq!(try_segment_at(&key, 1), None);
}

#[test]
fn empty_segments_are_kept() {
    let key = "a::b:".to_string();
    assert_eq!(segment_at(&key, 0), "a");
    assert_eq!(segment_at(&key, 1), "");
    assert_eq!(segment_at(&key, 2), "b");
    assert_eq!(segment_at(&key, 3), "");
    assert_eq!(last_segment(&key), "");
    assert_eq!(try_segment_at(&key, 4), None);
    let empty = String::new();
    assert_eq!(first_segment(&empty), "");
    assert_eq!(last_segment(&empty), "");
}

#[test]
fn segments_may_hold_any_other_character() {
    let key = "pré fix:ü→ß:0x12 34".to_string();
    assert_eq!(first_segment(&key), "pré fix");
    assert_eq!(segment_at(&key, 1), "ü→ß");
    assert_eq!(last_segment(&key), "0x12 34");
}
