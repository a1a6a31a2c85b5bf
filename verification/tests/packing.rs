//! Buffers of several strings, and the text that their bytes read as.

use librados::packed::{filled_strings, split, strings};

#[test]
fn bytes_are_split_at_their_nuls() {
    assert_eq!(split(b""), vec![Vec::<u8>::new()]);
    assert_eq!(split(b"ab"), vec![b"ab".to_vec()]);
    assert_eq!(split(b"a\0b"), vec![b"a".to_vec(), b"b".to_vec()]);
    assert_eq!(split(b"\0a\0"), vec![Vec::new(), b"a".to_vec(), Vec::new()]);
    assert_eq!(split(b"\0\0"), vec![Vec::<u8>::new(); 3]);
    // The standard split on slices makes the same fields.
    for bytes in [&b"x\0\0yz"[..], b"\0", b"one\0two\0three\0"] {
        let fields: Vec<Vec<u8>> = bytes.split(|&b| b == 0).map(<[u8]>::to_vec).collect();
        assert_eq!(split(bytes), fields);
    }
}

#[test]
fn packed_strings_come_back() {
    for list in [vec!["a", "bb"], vec![""], vec!["", "x", ""], vec!["gr\u{fc}n"]] {
        let mut buf: Vec<u8> = Vec::new();
        for s in &list {
            buf.extend_from_slice(s.as_bytes());
            buf.push(0);
        }
        let len = buf.len();
        buf.resize(len + 8, 0xaa);
        assert_eq!(strings(&buf, len), list);
    }
    assert_eq!(strings(b"unused", 0), Vec::<String>::new());
}

#[test]
fn empty_fields_are_padding() {
    assert_eq!(filled_strings(b"a\0b\0\0\0"), vec!["a", "b"]);
    assert_eq!(filled_strings(b"\0a\0\0b"), vec!["a", "b"]);
    assert_eq!(filled_strings(b"\0\0"), Vec::<String>::new());
    assert_eq!(filled_strings(b""), Vec::<String>::new());
}

#[test]
fn bytes_that_are_not_utf8_are_replaced() {
    assert_eq!(strings(b"a\xffb\0", 4), vec!["a\u{fffd}b"]);
    assert_eq!(filled_strings(b"\xc3\x28\0ok\0"), vec!["\u{fffd}(", "ok"]);
}
