use lua_rust::lua_string::compare_lua_string_bytes;
use std::cmp::Ordering;

#[test]
fn oracle_ordering_compares_each_embedded_nul_segment() {
    assert_eq!(compare_lua_string_bytes(b"a\0b", b"a\0c"), Ordering::Less);
    assert_eq!(compare_lua_string_bytes(b"a", b"a\0"), Ordering::Less);
    assert_eq!(compare_lua_string_bytes(b"a\0", b"a"), Ordering::Greater);
    assert_eq!(compare_lua_string_bytes(&[0xff], &[0xc3, 0xbf]), Ordering::Greater);
}

#[test]
fn equal_strings_with_embedded_nul_compare_equal() {
    assert_eq!(compare_lua_string_bytes(b"a\0b", b"a\0b"), Ordering::Equal);
    assert_eq!(compare_lua_string_bytes(b"", b""), Ordering::Equal);
    assert_eq!(compare_lua_string_bytes(b"\0", b"\0"), Ordering::Equal);
}

#[test]
fn empty_string_orders_first() {
    assert_eq!(compare_lua_string_bytes(b"", b"a"), Ordering::Less);
    assert_eq!(compare_lua_string_bytes(b"a", b""), Ordering::Greater);
    assert_eq!(compare_lua_string_bytes(b"", b"\0"), Ordering::Less);
}

#[test]
fn bytes_compare_unsigned() {
    assert_eq!(compare_lua_string_bytes(&[0x7f], &[0x80]), Ordering::Less);
    assert_eq!(compare_lua_string_bytes(b"abc", b"abd"), Ordering::Less);
    assert_eq!(compare_lua_string_bytes(b"abd", b"abc"), Ordering::Greater);
}

#[test]
fn ordering_is_antisymmetric_on_samples() {
    let samples: Vec<&[u8]> = vec![b"", b"a", b"a\0", b"a\0b", b"a\0c", b"\xff", b"\xc3\xbf", b"ab"];
    for a in &samples {
        for b in &samples {
            assert_eq!(compare_lua_string_bytes(a, b), compare_lua_string_bytes(b, a).reverse());
        }
    }
}

#[test]
fn lua_order_is_whole_slice_byte_order_with_embedded_nuls() {
    let samples: Vec<&[u8]> = vec![
        b"", b"\0", b"\0\0", b"a", b"a\0", b"a\0b", b"a\0\0", b"ab", b"a\xff", b"\xff\0a", b"b",
    ];
    for left in &samples {
        for right in &samples {
            assert_eq!(compare_lua_string_bytes(left, right), left.cmp(right));
            assert_eq!(compare_lua_string_bytes(right, left), left.cmp(right).reverse());
        }
    }
}
