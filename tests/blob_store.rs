use ic_context::memory_storage::MemoryStorage;

#[test]
fn write_then_read_returns_value() {
    let mut s = MemoryStorage::new();
    s.write("k".to_string(), vec![1, 2, 3]);
    assert_eq!(s.read("k".to_string()), Some(vec![1, 2, 3]));
}

#[test]
fn read_absent_key_is_none() {
    let s = MemoryStorage::new();
    assert_eq!(s.read("missing".to_string()), None);
}

#[test]
fn delete_then_read_is_none() {
    let mut s = MemoryStorage::new();
    s.write("k".to_string(), vec![9]);
    assert_eq!(s.delete("k".to_string()), Some(vec![9]));
    assert_eq!(s.read("k".to_string()), None);
}

#[test]
fn list_keeps_insertion_order() {
    let mut s = MemoryStorage::new();
    s.write("a".to_string(), vec![1]);
    s.write("b".to_string(), vec![2]);
    s.write("c".to_string(), vec![3]);
    assert_eq!(s.list(), vec![vec![1], vec![2], vec![3]]);
}

#[test]
fn rewrite_keeps_position() {
    let mut s = MemoryStorage::new();
    s.write("a".to_string(), vec![1]);
    s.write("b".to_string(), vec![2]);
    s.write("c".to_string(), vec![3]);
    s.write("b".to_string(), vec![20, 21]);
    assert_eq!(s.list(), vec![vec![1], vec![20, 21], vec![3]]);
    assert_eq!(s.read("b".to_string()), Some(vec![20, 21]));
}

#[test]
fn delete_returns_previous_value() {
    let mut s = MemoryStorage::new();
    s.write("x".to_string(), vec![1]);
    s.write("x".to_string(), vec![5, 6]);
    assert_eq!(s.delete("x".to_string()), Some(vec![5, 6]));
}

#[test]
fn delete_absent_keeps_order() {
    let mut s = MemoryStorage::new();
    s.write("a".to_string(), vec![1]);
    s.write("b".to_string(), vec![2]);
    assert_eq!(s.delete("zzz".to_string()), None);
    assert_eq!(s.list(), vec![vec![1], vec![2]]);
}

#[test]
fn delete_middle_then_rewrite_goes_last() {
    let mut s = MemoryStorage::new();
    s.write("a".to_string(), vec![1]);
    s.write("b".to_string(), vec![2]);
    s.write("c".to_string(), vec![3]);
    assert_eq!(s.delete("b".to_string()), Some(vec![2]));
    assert_eq!(s.list(), vec![vec![1], vec![3]]);
    s.write("b".to_string(), vec![4]);
    assert_eq!(s.list(), vec![vec![1], vec![3], vec![4]]);
}

#[test]
fn empty_store_lists_nothing() {
    let s = MemoryStorage::new();
    assert!(s.list().is_empty());
}

#[test]
fn empty_key_and_empty_value() {
    let mut s = MemoryStorage::new();
    s.write(String::new(), Vec::new());
    assert_eq!(s.read(String::new()), Some(Vec::new()));
    assert_eq!(s.list(), vec![Vec::<u8>::new()]);
}
