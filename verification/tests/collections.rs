use starlang::data::{position, Data};
use starlang::directory::Directory;
use starlang::table::{ListSet, Table};
use starlang::text::{decimal, hexadecimal, same_text, strip_last, strip_prefix};
use starlang::time::Duration;
use starlang::wire::list::WireList;
use starlang::wire::primitive::{decode, encode};

#[test]
fn tables_keep_one_row_for_each_key() {
    let mut t: Table<String, u64> = Table::new();
    assert!(t.is_empty());
    assert_eq!(t.insert("a".into(), 1), None);
    assert_eq!(t.insert("b".into(), 2), None);
    assert_eq!(t.insert("a".into(), 3), Some(1));
    assert_eq!(t.len(), 2);
    assert_eq!(t.keys(), vec!["a", "b"]);
    assert_eq!(t.get(&"a".into()), Some(&3));
    let copy = t.duplicate();
    assert!(copy.same(&t));
    assert_eq!(t.remove(&"a".into()), Some(3));
    assert_eq!(t.remove(&"a".into()), None);
    assert!(!copy.same(&t));
    assert!(!t.contains_key(&"a".into()));
    assert_eq!((t.key_at(0).as_str(), *t.value_at(0)), ("b", 2));
}

#[test]
fn directories_keep_one_row_for_each_key() {
    let mut d: Directory<String, u64> = Directory::new();
    for i in 0..100 {
        assert_eq!(d.insert(format!("k{i}"), i), None);
    }
    assert_eq!(d.insert("k7".into(), 700), Some(7));
    for i in 0..50 {
        assert_eq!(d.remove(&format!("k{i}")), Some(if i == 7 { 700 } else { i }));
        assert_eq!(d.remove(&format!("k{i}")), None);
    }
    assert_eq!(d.len(), 50);
    for i in 0..100 {
        let expected = if i < 50 { None } else { Some(i) };
        assert_eq!(d.get(&format!("k{i}")).copied(), expected);
        assert_eq!(d.contains_key(&format!("k{i}")), i >= 50);
    }
    assert_eq!(d.keys().len(), 50);
    assert!(d.find(&"k99".into()).is_some());
}

#[test]
fn sets_hold_each_member_once() {
    let mut s: ListSet<u64> = ListSet::new();
    assert!(s.insert(3));
    assert!(s.insert(1));
    assert!(!s.insert(3));
    assert_eq!(s.to_vec(), vec![3, 1]);
    assert_eq!((s.len(), *s.at(0)), (2, 3));
    assert!(s.duplicate().same(&s));
    assert!(s.remove(&3));
    assert!(!s.remove(&3));
    assert!(!s.contains(&3));
    assert!(!s.is_empty());
}

#[test]
fn numbers_as_text() {
    for n in [0u64, 9, 10, 255, 256, 1_000_000_007, u64::MAX] {
        assert_eq!(decimal(n), format!("{n}"));
        assert_eq!(hexadecimal(n), format!("{n:x}"));
    }
}

#[test]
fn text_is_taken_apart() {
    assert_eq!(strip_prefix("héllo", "hé"), Some("llo"));
    assert_eq!(strip_prefix("a", "ab"), None);
    assert_eq!(strip_prefix("abc", "abd"), None);
    assert_eq!(strip_last("ab*", '*'), Some("ab"));
    assert_eq!(strip_last("", '*'), None);
    assert!(same_text("é", "é"));
    assert_eq!(position(&vec![4u64, 5, 5], &5), Some(1));
    assert_eq!(position(&vec![4u64], &5), None);
}

#[test]
fn durations() {
    assert_eq!(Duration::from_secs(2).nanos, 2_000_000_000);
    assert_eq!(Duration::from_millis(3).nanos, 3_000_000);
    assert_eq!(
        Duration::from_secs(2).saturating_sub(Duration::from_millis(500)),
        Duration::from_millis(1500)
    );
    assert_eq!(Duration::from_secs(1).saturating_sub(Duration::from_secs(2)).nanos, 0);
}

#[test]
fn numbers_as_bytes() {
    for n in [0u64, 1, 127, 128, 16_383, 16_384, u32::MAX as u64, u64::MAX] {
        let bytes = encode(&n);
        assert_eq!(bytes, postcard::to_allocvec(&n).unwrap());
        assert_eq!(decode::<u64>(&bytes), Some(n));
    }
    for n in [0u32, 300, u32::MAX] {
        assert_eq!(decode::<u32>(&encode(&n)), Some(n));
    }
    assert_eq!(decode::<u32>(&[0x80, 0]), Some(0));
    assert_eq!(decode::<u32>(&[0xff, 0xff, 0xff, 0xff, 15]), Some(u32::MAX));
    assert_eq!(decode::<u32>(&[0xff, 0xff, 0xff, 0xff, 16]), None);
    assert_eq!(decode::<u32>(&[0x80, 0x80, 0x80, 0x80, 0x80, 0]), None);
    assert_eq!(decode::<u64>(&[0xff]), None);
    assert_eq!(
        decode::<u64>(&[0xff, 0xff, 0xff, 0xff, 0xff, 0xff, 0xff, 0xff, 0xff, 1]),
        Some(u64::MAX)
    );
    assert_eq!(
        decode::<u64>(&[0xff, 0xff, 0xff, 0xff, 0xff, 0xff, 0xff, 0xff, 0xff, 2]),
        None
    );
}

#[test]
fn text_and_bytes_as_bytes() {
    for s in ["", "a", "né €😀"] {
        let bytes = encode(&s.to_string());
        assert_eq!(bytes, postcard::to_allocvec(s).unwrap());
        assert_eq!(decode::<String>(&bytes), Some(s.to_string()));
    }
    let long: Vec<u8> = (0..1000).map(|i| i as u8).collect();
    assert_eq!(encode(&long), postcard::to_allocvec(&long).unwrap());
    assert_eq!(decode::<Vec<u8>>(&encode(&long)), Some(long));
    assert_eq!(decode::<Vec<u8>>(&[3, 1, 2]), None);
    assert_eq!(decode::<Vec<u8>>(&[1, 7, 8, 9]), Some(vec![7]));
    assert_eq!(decode::<Option<u64>>(&[1, 5]), Some(Some(5)));
    assert_eq!(decode::<Option<u64>>(&[0]), Some(None));
    assert_eq!(decode::<Option<u64>>(&[2]), None);
}

#[test]
fn lists_as_bytes() {
    let list = WireList(vec![(1u64, "a".to_string()), (300, "b".to_string())]);
    let bytes = encode(&list);
    assert_eq!(bytes, postcard::to_allocvec(&vec![(1u64, "a"), (300, "b")]).unwrap());
    let read: WireList<(u64, String)> = decode(&bytes).unwrap();
    assert_eq!(read.0, list.0);
    assert!(decode::<WireList<u64>>(&[3, 1, 2]).is_none());
}
