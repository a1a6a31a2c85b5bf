//! Ordered maps and sets of byte strings, held against the standard library's.

use librados::byte_map::{side, ByteMap, ByteSet, Side};
use std::collections::{BTreeMap, BTreeSet};

fn pairs(list: &[(&[u8], &[u8])]) -> Vec<(Vec<u8>, Vec<u8>)> {
    list.iter().map(|(k, v)| (k.to_vec(), v.to_vec())).collect()
}

#[test]
fn byte_strings_are_ordered_byte_by_byte() {
    let list: Vec<&[u8]> = vec![b"", b"\0", b"a", b"a\0", b"ab", b"b", b"\x7f", b"\x80", b"\x81", b"\xff"];
    for a in &list {
        for b in &list {
            let expected = if a < b {
                Side::Before
            } else if a == b {
                Side::Same
            } else {
                Side::After
            };
            assert_eq!(side(a, b), expected, "{a:?} {b:?}");
        }
    }
}

#[test]
fn a_map_holds_what_was_entered() {
    let list = pairs(&[
        (b"plain", b"value"),
        (b"with\0nul", b"nul value"),
        (b"\xff\xfe non utf8", b"\x00\x01\x02"),
        (b"empty value", b""),
        (b"", b"empty key"),
    ]);
    let map = ByteMap::from_pairs(list.clone());
    let expected: BTreeMap<Vec<u8>, Vec<u8>> = list.iter().cloned().collect();
    assert_eq!(map.len(), 5);
    for (key, value) in &list {
        assert_eq!(map.get(key), Some(value));
        assert!(map.contains_key(key));
    }
    assert_eq!(map.get(b"absent"), None);
    assert!(!map.contains_key(b"plai"));
    let ordered: Vec<(Vec<u8>, Vec<u8>)> = expected.into_iter().collect();
    assert_eq!(map.as_slice(), &ordered[..]);
}

#[test]
fn the_last_value_of_a_key_stays() {
    let map = ByteMap::from_pairs(pairs(&[(b"k", b"1"), (b"a", b"2"), (b"k", b"3")]));
    assert_eq!(map.len(), 2);
    assert_eq!(map.get(b"k").map(Vec::as_slice), Some(&b"3"[..]));
    assert_eq!(map.get(b"a").map(Vec::as_slice), Some(&b"2"[..]));
}

#[test]
fn a_map_can_be_changed() {
    let mut map = ByteMap::new();
    assert!(map.is_empty());
    assert_eq!(map.last_key_value(), None);
    map.insert(b"b".to_vec(), b"2".to_vec());
    map.insert(b"c".to_vec(), b"3".to_vec());
    map.insert(b"a".to_vec(), b"1".to_vec());
    map.insert(b"b".to_vec(), b"4".to_vec());
    assert!(!map.is_empty());
    assert_eq!(map.len(), 3);
    assert_eq!(
        map.last_key_value(),
        Some((&b"c".to_vec(), &b"3".to_vec()))
    );
    assert_eq!(map.remove(b"b"), Some(b"4".to_vec()));
    assert_eq!(map.remove(b"b"), None);
    assert_eq!(map.remove(b"c"), Some(b"3".to_vec()));
    assert_eq!(
        map.last_key_value(),
        Some((&b"a".to_vec(), &b"1".to_vec()))
    );
    assert_eq!(map.len(), 1);
}

#[test]
fn a_map_behaves_as_the_standard_one() {
    let mut map = ByteMap::new();
    let mut std: BTreeMap<Vec<u8>, Vec<u8>> = BTreeMap::new();
    let mut state: u32 = 12345;
    for _ in 0..2000 {
        state = state.wrapping_mul(1664525).wrapping_add(1013904223);
        let key: Vec<u8> = (0..(state >> 30)).map(|i| (state >> (8 * i) & 3) as u8).collect();
        if state & 0x0100_0000 == 0 {
            map.insert(key.clone(), state.to_le_bytes().to_vec());
            std.insert(key, state.to_le_bytes().to_vec());
        } else {
            assert_eq!(map.remove(&key), std.remove(&key));
        }
        assert_eq!(map.len(), std.len());
    }
    let ordered: Vec<(Vec<u8>, Vec<u8>)> = std.into_iter().collect();
    assert_eq!(map.as_slice(), &ordered[..]);
}

#[test]
fn a_set_holds_the_keys() {
    let set = ByteSet::from_keys_of(pairs(&[(b"d", b"1"), (b"a", b"2"), (b"e", b"3"), (b"a", b"4")]));
    assert_eq!(set.len(), 3);
    assert!(!set.is_empty());
    assert!(set.contains(b"a") && set.contains(b"d") && set.contains(b"e"));
    assert!(!set.contains(b"b"));
    assert_eq!(set.last(), Some(&b"e".to_vec()));
    assert_eq!(
        set.to_vec(),
        vec![b"a".to_vec(), b"d".to_vec(), b"e".to_vec()]
    );
    let std: BTreeSet<Vec<u8>> = set.to_vec().into_iter().collect();
    assert_eq!(std.len(), 3);
}

#[test]
fn sets_of_the_same_keys_are_equal() {
    let a = ByteSet::from_keys_of(pairs(&[(b"x", b"1"), (b"y", b"2")]));
    let b = ByteSet::from_keys_of(pairs(&[(b"y", b"3"), (b"x", b"")]));
    assert_eq!(a, b);
    let empty = ByteSet::from_keys_of(Vec::new());
    assert!(empty.is_empty());
    assert_eq!(empty.len(), 0);
    assert_eq!(empty.last(), None);
    assert_eq!(empty.to_vec(), Vec::<Vec<u8>>::new());
}
