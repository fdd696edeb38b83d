use s2_arena::arena::{get_buffer, new_buffer, remove_buffer, write_buffer, BufferStorage, SENTINEL};

fn key(s: &str) -> String {
    s.to_string()
}

#[test]
fn allocate_fills_with_sentinel() {
    let mut st = BufferStorage::new();
    new_buffer(&mut st, key("a"), 7);
    let b = get_buffer(&st, &key("a")).expect("present");
    assert_eq!(b.len(), 7);
    assert!(b.iter().all(|&x| x == 0xFF));
    assert_eq!(SENTINEL, 255);
}

#[test]
fn allocate_zero_length() {
    let mut st = BufferStorage::new();
    new_buffer(&mut st, key("empty"), 0);
    let b = get_buffer(&st, &key("empty")).expect("present");
    assert!(b.is_empty());
}

#[test]
fn lookup_absent_key() {
    let st = BufferStorage::new();
    assert!(get_buffer(&st, &key("nope")).is_none());
}

#[test]
fn reallocate_replaces_buffer() {
    let mut st = BufferStorage::new();
    new_buffer(&mut st, key("k"), 4);
    assert!(write_buffer(&mut st, &key("k"), 0, &[1, 2, 3, 4]));
    new_buffer(&mut st, key("k"), 6);
    let b = get_buffer(&st, &key("k")).expect("present");
    assert_eq!(b, &vec![0xFF; 6]);
    new_buffer(&mut st, key("k"), 2);
    assert_eq!(get_buffer(&st, &key("k")).expect("present"), &vec![0xFF; 2]);
}

#[test]
fn keys_are_independent() {
    let mut st = BufferStorage::new();
    new_buffer(&mut st, key("x"), 3);
    new_buffer(&mut st, key("y"), 5);
    assert!(write_buffer(&mut st, &key("y"), 1, &[9]));
    assert_eq!(get_buffer(&st, &key("x")).expect("x"), &vec![0xFF; 3]);
    assert_eq!(get_buffer(&st, &key("y")).expect("y"), &vec![0xFF, 9, 0xFF, 0xFF, 0xFF]);
}

#[test]
fn release_then_lookup() {
    let mut st = BufferStorage::new();
    new_buffer(&mut st, key("k"), 3);
    assert!(remove_buffer(&mut st, &key("k")));
    assert!(get_buffer(&st, &key("k")).is_none());
}

#[test]
fn release_absent_is_noop() {
    let mut st = BufferStorage::new();
    new_buffer(&mut st, key("k"), 3);
    assert!(!remove_buffer(&mut st, &key("other")));
    assert_eq!(get_buffer(&st, &key("k")).expect("k"), &vec![0xFF; 3]);
    assert!(!remove_buffer(&mut st, &key("other")));
}

#[test]
fn key_reuse_after_release() {
    let mut st = BufferStorage::new();
    new_buffer(&mut st, key("k"), 3);
    assert!(remove_buffer(&mut st, &key("k")));
    new_buffer(&mut st, key("k"), 1);
    assert_eq!(get_buffer(&st, &key("k")).expect("k"), &vec![0xFF]);
}

#[test]
fn write_round_trip() {
    let mut st = BufferStorage::new();
    new_buffer(&mut st, key("img"), 5);
    let data = [0u8, 17, 128, 254, 255];
    assert!(write_buffer(&mut st, &key("img"), 0, &data));
    assert_eq!(get_buffer(&st, &key("img")).expect("img").as_slice(), &data);
}

#[test]
fn write_at_offset_keeps_other_bytes() {
    let mut st = BufferStorage::new();
    new_buffer(&mut st, key("img"), 5);
    assert!(write_buffer(&mut st, &key("img"), 3, &[1, 2]));
    assert_eq!(get_buffer(&st, &key("img")).expect("img"), &vec![0xFF, 0xFF, 0xFF, 1, 2]);
}

#[test]
fn write_out_of_bounds_changes_nothing() {
    let mut st = BufferStorage::new();
    new_buffer(&mut st, key("img"), 4);
    assert!(!write_buffer(&mut st, &key("img"), 3, &[1, 2]));
    assert!(!write_buffer(&mut st, &key("img"), usize::MAX, &[1]));
    assert!(!write_buffer(&mut st, &key("img"), 0, &[1, 2, 3, 4, 5]));
    assert_eq!(get_buffer(&st, &key("img")).expect("img"), &vec![0xFF; 4]);
}

#[test]
fn write_absent_key_fails() {
    let mut st = BufferStorage::new();
    assert!(!write_buffer(&mut st, &key("none"), 0, &[]));
    assert!(get_buffer(&st, &key("none")).is_none());
}
