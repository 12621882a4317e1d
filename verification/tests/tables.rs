use drp::bytes::{append_bytes, bytes_eq, copy_bytes};
use drp::conns::ConnTable;
use drp::names::{NameMap, NameSet};

#[test]
fn byte_helpers() {
    assert!(bytes_eq(b"abc", b"abc"));
    assert!(!bytes_eq(b"abc", b"abd"));
    assert!(!bytes_eq(b"ab", b"abc"));
    assert_eq!(copy_bytes(b"xyz"), b"xyz".to_vec());
    let mut v = b"ab".to_vec();
    append_bytes(&mut v, b"cd");
    assert_eq!(v, b"abcd".to_vec());
}

#[test]
fn name_set_keeps_order_and_no_duplicates() {
    let mut s = NameSet::new();
    assert!(s.insert(b"bob"));
    assert!(s.insert(b"alice"));
    assert!(!s.insert(b"bob"));
    assert_eq!(s.len(), 2);
    assert_eq!(s.get(0), &b"bob".to_vec());
    assert_eq!(s.get(1), &b"alice".to_vec());
    assert_eq!(s.find(b"alice"), Some(1));
    assert_eq!(s.find(b"carol"), None);
    let c = s.copy();
    assert!(s.remove(b"bob"));
    assert!(!s.remove(b"bob"));
    assert!(!s.contains(b"bob"));
    assert_eq!(s.len(), 1);
    assert_eq!(s.get(0), &b"alice".to_vec());
    assert_eq!(c.len(), 2);
    assert!(c.contains(b"bob"));
}

#[test]
fn name_map_insert_get_remove() {
    let mut m: NameMap<u64> = NameMap::new();
    m.insert(b"a", 1);
    m.insert(b"b", 2);
    m.insert(b"a", 3);
    assert_eq!(m.get(b"a"), Some(&3));
    assert_eq!(m.get(b"b"), Some(&2));
    assert!(m.contains_key(b"b"));
    assert!(m.remove(b"b"));
    assert!(!m.remove(b"b"));
    assert_eq!(m.get(b"b"), None);
    assert_eq!(m.take(b"a"), Some(3));
    assert_eq!(m.take(b"a"), None);
    assert!(!m.contains_key(b"a"));
}

#[test]
fn connection_table() {
    let mut t = ConnTable::new();
    t.open(2);
    t.open(5);
    assert!(t.contains(2));
    assert!(!t.contains(3));
    assert_eq!(t.name(2), Some(None));
    t.set_name(5, b"bob");
    assert_eq!(t.name(5), Some(Some(b"bob".to_vec())));
    assert_eq!(t.name(3), None);
    assert_eq!(t.close(5), Some(b"bob".to_vec()));
    assert!(!t.contains(5));
    assert_eq!(t.close(2), None);
}
