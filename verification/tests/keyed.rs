use rustler_live_view_toy_engine::keyed::bytes_equal;
use rustler_live_view_toy_engine::keyed::KeyedList;

#[test]
fn bytes_equal_compares_contents() {
    assert!(bytes_equal(b"abc", b"abc"));
    assert!(bytes_equal(b"", b""));
    assert!(!bytes_equal(b"abc", b"abd"));
    assert!(!bytes_equal(b"abc", b"ab"));
}

#[test]
fn insert_get_and_replace() {
    let mut list: KeyedList<u32> = KeyedList::new();
    assert_eq!(list.len(), 0);
    list.insert(b"a".to_vec(), 1);
    list.insert(b"b".to_vec(), 2);
    assert_eq!(list.len(), 2);
    assert_eq!(list.get(b"a"), Some(&1));
    assert_eq!(list.get(b"b"), Some(&2));
    assert_eq!(list.get(b"c"), None);
    list.insert(b"a".to_vec(), 3);
    assert_eq!(list.len(), 2);
    assert_eq!(list.get(b"a"), Some(&3));
}

#[test]
fn remove_returns_value_once() {
    let mut list: KeyedList<&str> = KeyedList::new();
    list.insert(b"k1".to_vec(), "one");
    list.insert(b"k2".to_vec(), "two");
    list.insert(b"k3".to_vec(), "three");
    assert_eq!(list.remove(b"k2"), Some("two"));
    assert_eq!(list.remove(b"k2"), None);
    assert!(!list.contains_key(b"k2"));
    assert!(list.contains_key(b"k1"));
    assert!(list.contains_key(b"k3"));
    assert_eq!(list.get(b"k3"), Some(&"three"));
    assert_eq!(list.len(), 2);
}

#[test]
fn remove_missing_key_keeps_list() {
    let mut list: KeyedList<u8> = KeyedList::new();
    list.insert(b"x".to_vec(), 9);
    assert_eq!(list.remove(b"y"), None);
    assert_eq!(list.len(), 1);
    assert_eq!(list.get(b"x"), Some(&9));
}
