//! Attribute walking and scalar reads.
use netlink_exporter::wire::{
    align4, cut_at_nul, find_first, find_last, find_last_nested, native_u16, native_u32,
    nested_attrs, parse_attrs, push_nlattr, read_u16, read_u16_be, read_u32, read_u32_be,
    read_u64, read_u64_be, read_u8, NLA_HDRLEN,
};

/// Helpers to construct a minimal nlattr TLV in a `Vec<u8>`.
fn make_nla(ty: u16, payload: &[u8]) -> Vec<u8> {
    let nla_len = NLA_HDRLEN + payload.len();
    let padded = align4(nla_len);
    let mut out = Vec::with_capacity(padded);
    // nla_len
    out.extend_from_slice(&(nla_len as u16).to_ne_bytes());
    // nla_type
    out.extend_from_slice(&ty.to_ne_bytes());
    out.extend_from_slice(payload);
    // padding
    out.resize(padded, 0u8);
    out
}

#[test]
fn align4_rounds_correctly() {
    assert_eq!(align4(0), 0);
    assert_eq!(align4(1), 4);
    assert_eq!(align4(3), 4);
    assert_eq!(align4(4), 4);
    assert_eq!(align4(5), 8);
    assert_eq!(align4(8), 8);
    assert_eq!(align4(9), 12);
}

#[test]
fn parse_attrs_single_u32() {
    let val: u32 = 0xDEAD_BEEF;
    let buf = make_nla(7, &val.to_ne_bytes());
    let attrs: Vec<_> = parse_attrs(&buf).collect();
    assert_eq!(attrs.len(), 1, "expected exactly one attr");
    assert_eq!(attrs[0].ty, 7);
    assert_eq!(read_u32(attrs[0].payload), Some(val));
}

#[test]
fn parse_attrs_strips_nla_f_nested_bit() {
    // Type 3 with NLA_F_NESTED (0x8000) set — effective type must be 3.
    let buf = make_nla(0x8003u16, &[0xAB, 0xCD]);
    let attrs: Vec<_> = parse_attrs(&buf).collect();
    assert_eq!(attrs.len(), 1);
    assert_eq!(attrs[0].ty, 3, "NLA_F_NESTED bit must be stripped");
}

#[test]
fn parse_attrs_strips_nla_f_net_byteorder_bit() {
    // Type 5 with NLA_F_NET_BYTEORDER (0x4000) set — effective type must be 5.
    let buf = make_nla(0x4005u16, &[0xAA, 0xBB, 0xCC, 0xDD]);
    let attrs: Vec<_> = parse_attrs(&buf).collect();
    assert_eq!(attrs.len(), 1);
    assert_eq!(attrs[0].ty, 5, "NLA_F_NET_BYTEORDER bit must be stripped");
}

#[test]
fn parse_attrs_multiple() {
    let mut buf = Vec::new();
    buf.extend_from_slice(&make_nla(1, &[0x11u8]));
    buf.extend_from_slice(&make_nla(2, &[0x22u8, 0x33u8]));
    buf.extend_from_slice(&make_nla(3, &0xDEAD_BEEFu32.to_ne_bytes()));

    let attrs: Vec<_> = parse_attrs(&buf).collect();
    assert_eq!(attrs.len(), 3);
    assert_eq!(attrs[0].ty, 1);
    assert_eq!(attrs[1].ty, 2);
    assert_eq!(attrs[2].ty, 3);
    assert_eq!(read_u8(attrs[0].payload), Some(0x11));
    assert_eq!(read_u32(attrs[2].payload), Some(0xDEAD_BEEF));
}

#[test]
fn parse_attrs_empty_buf() {
    let attrs: Vec<_> = parse_attrs(&[]).collect();
    assert!(attrs.is_empty(), "empty buf yields no attrs");
}

#[test]
fn parse_attrs_malformed_nla_len_too_small() {
    // nla_len = 3 < NLA_HDRLEN(4) — malformed, iterator must stop.
    let buf: &[u8] = &[0x03, 0x00, 0x01, 0x00, 0xAA, 0xAA, 0xAA, 0xAA];
    let attrs: Vec<_> = parse_attrs(buf).collect();
    assert!(attrs.is_empty(), "malformed attr must stop iteration");
}

#[test]
fn parse_attrs_nla_len_beyond_buf() {
    // nla_len = 100 but buf only has 8 bytes.
    let buf: &[u8] = &[100, 0x00, 0x01, 0x00, 0xAA, 0xAA, 0xAA, 0xAA];
    let attrs: Vec<_> = parse_attrs(buf).collect();
    assert!(attrs.is_empty(), "nla_len beyond buf must stop iteration");
}

#[test]
fn read_scalars_native_endian() {
    let val32: u32 = 0x0102_0304;
    let b = val32.to_ne_bytes();
    assert_eq!(read_u32(&b), Some(val32));

    let val64: u64 = 0x0102_0304_0506_0708;
    let b64 = val64.to_ne_bytes();
    assert_eq!(read_u64(&b64), Some(val64));
}

#[test]
fn read_scalars_big_endian() {
    let val32: u32 = 0xDEAD_BEEF;
    let b = val32.to_be_bytes();
    assert_eq!(read_u32_be(&b), Some(val32));

    let val64: u64 = 0xFEED_FACE_CAFE_BABE;
    let b64 = val64.to_be_bytes();
    assert_eq!(read_u64_be(&b64), Some(val64));
}

#[test]
fn nested_attrs_roundtrip() {
    // Build inner sequence, parse via nested_attrs.
    let inner = make_nla(42, &[1u8, 2u8, 3u8]);
    let attrs: Vec<_> = nested_attrs(&inner).collect();
    assert_eq!(attrs.len(), 1);
    assert_eq!(attrs[0].ty, 42);
    assert_eq!(attrs[0].payload, &[1u8, 2u8, 3u8]);
}

#[test]
fn read_scalars_short_payloads() {
    assert_eq!(read_u8(&[]), None);
    assert_eq!(read_u16(&[1]), None);
    assert_eq!(read_u32(&[1, 2, 3]), None);
    assert_eq!(read_u64(&[0; 7]), None);
    assert_eq!(read_u16_be(&[1]), None);
    assert_eq!(read_u32_be(&[1, 2, 3]), None);
    assert_eq!(read_u64_be(&[0; 7]), None);
    let [a, b] = 0x1234u16.to_ne_bytes();
    assert_eq!(read_u16(&[a, b, 0xff]), Some(0x1234));
    assert_eq!(read_u16_be(&[0x12, 0x34, 0xff]), Some(0x1234));
}

/// Attributes that are written one after the other are read back.
#[test]
fn pushed_attributes_are_read_back() {
    let mut buf = Vec::new();
    push_nlattr(&mut buf, 9, b"abcde");
    assert_eq!(buf, make_nla(9, b"abcde"));
    assert_eq!(&buf[4..], b"abcde\0\0\0");
    push_nlattr(&mut buf, 2, b"");
    push_nlattr(&mut buf, 9, b"xy");
    let attrs = parse_attrs(&buf).collect();
    assert_eq!(attrs.len(), 3);
    assert_eq!(attrs[0].payload, b"abcde");
    assert!(attrs[1].payload.is_empty());
    assert_eq!(attrs[2].payload, b"xy");
    assert_eq!(find_first(&buf, 9), Some(&b"abcde"[..]));
    assert_eq!(find_last(&buf, 9, 0), Some(&b"xy"[..]));
    assert_eq!(find_last(&buf, 9, 3), Some(&b"abcde"[..]));
    assert_eq!(find_last(&buf, 7, 0), None);
}

#[test]
fn nested_attribute_is_found() {
    let mut inner = Vec::new();
    push_nlattr(&mut inner, 3, b"eth0");
    let mut buf = Vec::new();
    push_nlattr(&mut buf, 0x8001, &inner);
    assert_eq!(find_last_nested(&buf, 1, 3, 1), Some(&b"eth0"[..]));
    assert_eq!(find_last_nested(&buf, 1, 3, 5), None);
    assert_eq!(find_last_nested(&buf, 2, 3, 1), None);
}

#[test]
fn attributes_are_read_one_by_one() {
    let buf = make_nla(1, &[7]);
    let mut it = parse_attrs(&buf);
    assert!(matches!(it.next(), Some(a) if a.ty == 1 && a.payload == [7]));
    assert!(it.next().is_none());
    assert!(it.next().is_none());
}

/// The padding of the last attribute may be missing.
#[test]
fn last_padding_may_be_missing() {
    let buf = make_nla(1, &[0xAA]);
    let attrs = parse_attrs(&buf[..5]).collect();
    assert_eq!(attrs.len(), 1);
    assert_eq!(attrs[0].payload, &[0xAA]);
}

#[test]
fn text_ends_at_the_first_nul() {
    assert_eq!(cut_at_nul(b"ab\0cd\0"), b"ab");
    assert_eq!(cut_at_nul(b"ab"), b"ab");
    assert_eq!(cut_at_nul(b"\0"), b"");
}

/// Numbers are written in the byte order of the host.
#[test]
fn native_numbers_are_written() {
    assert_eq!(native_u16(0x1234), 0x1234u16.to_ne_bytes());
    assert_eq!(native_u32(0x1234_5678), 0x1234_5678u32.to_ne_bytes());
    assert_eq!(read_u16(&native_u16(0xfffe)), Some(0xfffe));
    assert_eq!(read_u32(&native_u32(0xfffe_0001)), Some(0xfffe_0001));
}
