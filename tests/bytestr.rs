use binutil::bytestr::{ByteStr, ByteString};
use binutil::util::{from_cstr, from_cstr_strict};

#[test]
fn find_and_rfind() {
    let s = ByteStr::from_str("a/b/c");
    assert_eq!(s.find(b'/'), Some(1));
    assert_eq!(s.rfind(b'/'), Some(3));
    assert_eq!(s.find(b'x'), None);
    assert_eq!(s.rfind(b'x'), None);
    assert_eq!(ByteStr::from_bytes(&[]).rfind(0), None);
}

#[test]
fn find_sub_sequence() {
    let s = ByteStr::from_str("abcabcd");
    assert_eq!(s.find_bstr(&ByteStr::from_str("cd")), Some(5));
    assert_eq!(s.find_bstr(&ByteStr::from_str("bc")), Some(1));
    assert_eq!(s.find_bstr(&ByteStr::from_str("")), Some(0));
    assert_eq!(s.find_bstr(&ByteStr::from_str("abcabcde")), None);
    assert_eq!(s.find_bstr(&ByteStr::from_str("ca")), Some(2));
    assert_eq!(s.find_bstr(&ByteStr::from_str("x")), None);
}

#[test]
fn basename() {
    assert!(ByteStr::from_str("/usr/lib/libc.so").unix_basename().eq_str("libc.so"));
    assert!(ByteStr::from_str("plain").unix_basename().eq_str("plain"));
    assert!(ByteStr::from_str("dir/").unix_basename().eq_str(""));
}

#[test]
fn lossy_text() {
    assert_eq!(ByteStr::from_str("hi").lossy(), "hi");
    assert_eq!(ByteStr::from_str("h\u{e9}llo").lossy(), "h\u{e9}llo");
    assert_eq!(ByteStr::from_bytes(&[b'a', 0xff, b'b']).lossy(), "a\u{FFFD}b");
}

#[test]
fn index_and_range() {
    let s = ByteStr::from_str("hello");
    assert_eq!(s.at(1), b'e');
    assert!(s.range(1, 4).eq_str("ell"));
    assert_eq!(s.len(), 5);
    assert_eq!(s.as_bytes(), b"hello");
}

#[test]
fn owned_strings() {
    let mut a = ByteString::from_str("foo");
    a.push_bstr(&ByteStr::from_str("bar"));
    assert!(a.eq_str("foobar"));
    let c = ByteString::concat2(&ByteStr::from_str("ab"), &ByteStr::from_bytes(&[0, 1]));
    assert_eq!(c.0, vec![b'a', b'b', 0, 1]);
    assert_eq!(ByteString::from_vec(vec![1, 2]).0, vec![1u8, 2]);
    assert_eq!(ByteString::from_string(String::from("é")).0, vec![0xc3u8, 0xa9]);
    assert_eq!(ByteString::from_bytes(b"xy"), ByteString::new(&ByteStr::from_str("xy")));
    assert!(ByteString::with_capacity(8).0.is_empty());
    assert!(a.as_bstr().to_owned().eq_str("foobar"));
    assert!(!a.eq_str("foo"));
}

#[test]
fn c_strings() {
    assert!(from_cstr(b"abc\0def").eq_str("abc"));
    assert!(from_cstr(b"abc").eq_str("abc"));
    assert!(from_cstr_strict(b"abc").is_none());
    assert!(from_cstr_strict(b"ab\0").unwrap().eq_str("ab"));
    assert!(from_cstr_strict(b"\0").unwrap().eq_str(""));
}
