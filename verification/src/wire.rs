//! Netlink wire-format helpers.
//!
//! Iteration over `nlattr` TLVs and typed readers for their payloads.
//!
//! Multi-byte scalars in netlink headers are in the byte order of the host.
//! Contracts speak of it as `host_is_little()`.  Individual payloads may be
//! big-endian; the `read_u*_be` helpers handle those.
use crate::text::decoded;
use vstd::endian::endianness;
use vstd::prelude::*;
use vstd::slice::slice_subrange;
use vstd::utf8::{decode_utf8, valid_utf8};

verus! {

// ---------------------------------------------------------------------------
// Alignment
// ---------------------------------------------------------------------------

/// `len` rounded up to a multiple of four.
pub open spec fn align4_spec(len: nat) -> nat {
    ((len + 3) / 4 * 4) as nat
}

/// Rounds `len` up to a 4-byte boundary.
///
/// Mirrors the kernel `NLMSG_ALIGN` and `NLA_ALIGN` macros, wrapping at the top
/// of the integer range.
pub fn align4(len: usize) -> (r: usize)
    ensures
        len + 3 <= usize::MAX ==> r == align4_spec(len as nat),
        len + 3 > usize::MAX ==> r == 0,
{
    let t: usize = len.wrapping_add(3);
    let r: usize = t & !3usize;
    assert(r == t / 4 * 4) by (bit_vector)
        requires
            r == t & !3usize,
    ;
    r
}

// ---------------------------------------------------------------------------
// Scalars
// ---------------------------------------------------------------------------

/// The first two bytes of `s` as a little-endian number.
pub open spec fn u16_le(s: Seq<u8>) -> u16 {
    (s[0] + s[1] * 0x100) as u16
}

/// The first four bytes of `s` as a little-endian number.
pub open spec fn u32_le(s: Seq<u8>) -> u32 {
    (s[0] + s[1] * 0x100 + s[2] * 0x1_0000 + s[3] * 0x100_0000) as u32
}

/// The first eight bytes of `s` as a little-endian number.
pub open spec fn u64_le(s: Seq<u8>) -> u64 {
    (u32_le(s) + u32_le(s.skip(4)) * 0x1_0000_0000) as u64
}

/// The first two bytes of `s` as a big-endian number.
pub open spec fn u16_be(s: Seq<u8>) -> u16 {
    (s[0] * 0x100 + s[1]) as u16
}

/// The first four bytes of `s` as a big-endian number.
pub open spec fn u32_be(s: Seq<u8>) -> u32 {
    (s[0] * 0x100_0000 + s[1] * 0x1_0000 + s[2] * 0x100 + s[3]) as u32
}

/// The first eight bytes of `s` as a big-endian number.
pub open spec fn u64_be(s: Seq<u8>) -> u64 {
    (u32_be(s) * 0x1_0000_0000 + u32_be(s.skip(4))) as u64
}

/// Reads a `u8`; `None` when the payload is empty.
pub fn read_u8(payload: &[u8]) -> (r: Option<u8>)
    ensures
        r == (if payload@.len() >= 1 { Some(payload@[0]) } else { None }),
{
    if payload.len() >= 1 {
        Some(payload[0])
    } else {
        None
    }
}

/// The host keeps the least significant byte of a number first.
pub open spec fn host_is_little() -> bool {
    endianness() is Little
}

/// The first two bytes of `s` as a number in the byte order of the host.
pub open spec fn u16_ne(s: Seq<u8>) -> u16 {
    if host_is_little() {
        u16_le(s)
    } else {
        u16_be(s)
    }
}

/// The first four bytes of `s` as a number in the byte order of the host.
pub open spec fn u32_ne(s: Seq<u8>) -> u32 {
    if host_is_little() {
        u32_le(s)
    } else {
        u32_be(s)
    }
}

/// The first eight bytes of `s` as a number in the byte order of the host.
pub open spec fn u64_ne(s: Seq<u8>) -> u64 {
    if host_is_little() {
        u64_le(s)
    } else {
        u64_be(s)
    }
}

/// `u16::from_ne_bytes`: the number that the host keeps in memory as `bytes`.
/// Claimed: the first byte is the least significant one on a little-endian host
/// and the most significant one on a big-endian host.
#[verifier::external_body]
fn native_number(bytes: [u8; 2]) -> (r: u16)
    ensures
        r == u16_ne(bytes@),
{
    u16::from_ne_bytes(bytes)
}

/// Whether the host is little-endian.
fn little_host() -> (r: bool)
    ensures
        r == host_is_little(),
{
    let bytes: [u8; 2] = [1, 0];
    native_number(bytes) == 1
}

/// Reads a native-endian `u16`; `None` when the payload is too short.
pub fn read_u16(payload: &[u8]) -> (r: Option<u16>)
    ensures
        r == (if payload@.len() >= 2 { Some(u16_ne(payload@)) } else { None }),
{
    if payload.len() >= 2 {
        let bytes: [u8; 2] = [payload[0], payload[1]];
        Some(native_number(bytes))
    } else {
        None
    }
}

/// Reads a native-endian `u32`; `None` when the payload is too short.
pub fn read_u32(payload: &[u8]) -> (r: Option<u32>)
    ensures
        r == (if payload@.len() >= 4 { Some(u32_ne(payload@)) } else { None }),
{
    if !little_host() {
        read_u32_be(payload)
    } else if payload.len() >= 4 {
        Some(
            payload[0] as u32 + payload[1] as u32 * 0x100 + payload[2] as u32 * 0x1_0000
                + payload[3] as u32 * 0x100_0000,
        )
    } else {
        None
    }
}

/// Reads a native-endian `u64`; `None` when the payload is too short.
pub fn read_u64(payload: &[u8]) -> (r: Option<u64>)
    ensures
        r == (if payload@.len() >= 8 { Some(u64_ne(payload@)) } else { None }),
{
    if !little_host() {
        read_u64_be(payload)
    } else if payload.len() >= 8 {
        let low: u64 = payload[0] as u64 + payload[1] as u64 * 0x100 + payload[2] as u64 * 0x1_0000
            + payload[3] as u64 * 0x100_0000;
        let high: u64 = payload[4] as u64 + payload[5] as u64 * 0x100 + payload[6] as u64
            * 0x1_0000 + payload[7] as u64 * 0x100_0000;
        proof {
            assert(low == u32_le(payload@));
            assert(high == u32_le(payload@.skip(4)));
        }
        Some(low + high * 0x1_0000_0000)
    } else {
        None
    }
}

/// Reads a big-endian `u16`; `None` when the payload is too short.
pub fn read_u16_be(payload: &[u8]) -> (r: Option<u16>)
    ensures
        r == (if payload@.len() >= 2 { Some(u16_be(payload@)) } else { None }),
{
    if payload.len() >= 2 {
        Some(payload[0] as u16 * 0x100 + payload[1] as u16)
    } else {
        None
    }
}

/// Reads a big-endian `u32`; `None` when the payload is too short.
pub fn read_u32_be(payload: &[u8]) -> (r: Option<u32>)
    ensures
        r == (if payload@.len() >= 4 { Some(u32_be(payload@)) } else { None }),
{
    if payload.len() >= 4 {
        Some(
            payload[0] as u32 * 0x100_0000 + payload[1] as u32 * 0x1_0000 + payload[2] as u32
                * 0x100 + payload[3] as u32,
        )
    } else {
        None
    }
}

/// Reads a big-endian `u64`; `None` when the payload is too short.
pub fn read_u64_be(payload: &[u8]) -> (r: Option<u64>)
    ensures
        r == (if payload@.len() >= 8 { Some(u64_be(payload@)) } else { None }),
{
    if payload.len() >= 8 {
        let high: u64 = payload[0] as u64 * 0x100_0000 + payload[1] as u64 * 0x1_0000
            + payload[2] as u64 * 0x100 + payload[3] as u64;
        let low: u64 = payload[4] as u64 * 0x100_0000 + payload[5] as u64 * 0x1_0000
            + payload[6] as u64 * 0x100 + payload[7] as u64;
        proof {
            assert(high == u32_be(payload@));
            assert(low == u32_be(payload@.skip(4)));
        }
        Some(high * 0x1_0000_0000 + low)
    } else {
        None
    }
}

// ---------------------------------------------------------------------------
// Attributes
// ---------------------------------------------------------------------------

/// 4-byte nlattr header: `u16 nla_len` + `u16 nla_type`.
pub const NLA_HDRLEN: usize = 4;

/// Mask that strips the flag bits from `nla_type`.
pub const NLA_TYPE_MASK: u16 = 0x1FFF;

/// An attribute: its effective type and its payload.
pub type Attr = (u16, Seq<u8>);

/// The attribute type with the flag bits stripped.
pub open spec fn effective_type(raw: u16) -> u16 {
    raw % 0x2000
}

/// The attributes that a buffer starts with.
///
/// The sequence ends where fewer than four bytes remain, or where a length
/// field is below four or exceeds what remains.
pub open spec fn attrs(buf: Seq<u8>) -> Seq<Attr>
    decreases buf.len(),
{
    if buf.len() < 4 || u16_ne(buf) < 4 || u16_ne(buf) > buf.len() {
        seq![]
    } else {
        seq![(effective_type(u16_ne(buf.skip(2))), buf.subrange(4, u16_ne(buf) as int))] + attrs(
            after_first(buf),
        )
    }
}

/// What follows the first attribute of `buf` and its padding.
pub open spec fn after_first(buf: Seq<u8>) -> Seq<u8> {
    let stride = align4_spec(u16_ne(buf) as nat);
    if stride >= buf.len() {
        seq![]
    } else {
        buf.skip(stride as int)
    }
}

/// A single parsed netlink attribute (TLV).
#[derive(Debug, Clone, Copy)]
pub struct Nla<'a> {
    /// Effective attribute type (flags already stripped).
    pub ty: u16,
    /// Raw payload bytes, without the 4-byte header.
    pub payload: &'a [u8],
}

impl<'a> Nla<'a> {
    /// The attribute as a mathematical pair.
    pub open spec fn attr(&self) -> Attr {
        (self.ty, self.payload@)
    }
}

/// Walks a flat sequence of `nlattr` TLVs.
///
/// Constructed by [`parse_attrs`].  Stops silently when fewer than
/// [`NLA_HDRLEN`] bytes remain, when `nla_len` is less than [`NLA_HDRLEN`], or
/// when `nla_len` extends beyond the remaining buffer.
#[derive(Debug)]
pub struct NlaIter<'a> {
    buf: &'a [u8],
}

impl<'a> NlaIter<'a> {
    /// The attributes still to come.
    pub closed spec fn remaining(&self) -> Seq<Attr> {
        attrs(self.buf@)
    }

    /// Yields the next attribute and advances past its padding.
    pub fn next(&mut self) -> (r: Option<Nla<'a>>)
        ensures
            r is None <==> old(self).remaining().len() == 0,
            r is None ==> final(self).remaining() == old(self).remaining(),
            r matches Some(nla) ==> old(self).remaining() == seq![nla.attr()]
                + final(self).remaining(),
    {
        let buf = self.buf;
        if buf.len() < NLA_HDRLEN {
            return None;
        }
        let length: [u8; 2] = [buf[0], buf[1]];
        let nla_len: usize = native_number(length) as usize;
        if nla_len < NLA_HDRLEN || nla_len > buf.len() {
            return None;
        }
        let kind: [u8; 2] = [buf[2], buf[3]];
        let raw: u16 = native_number(kind);
        let ty: u16 = raw & NLA_TYPE_MASK;
        assert(ty == raw % 0x2000) by (bit_vector)
            requires
                ty == raw & 0x1FFF,
        ;
        let payload = slice_subrange(buf, NLA_HDRLEN, nla_len);
        let stride: usize = align4(nla_len);
        let n: usize = buf.len();
        self.buf = if stride >= n {
            slice_subrange(buf, n, n)
        } else {
            slice_subrange(buf, stride, n)
        };
        proof {
            assert(nla_len == u16_ne(buf@));
            assert(raw == u16_ne(buf@.skip(2)));
            assert(self.buf@ =~= after_first(buf@));
        }
        Some(Nla { ty, payload })
    }

    /// Collects the attributes still to come.
    pub fn collect(self) -> (r: Vec<Nla<'a>>)
        ensures
            nla_views(r@) == self.remaining(),
    {
        let mut it = self;
        let mut r: Vec<Nla<'a>> = Vec::new();
        proof {
            assert(nla_views(r@) + it.remaining() =~= self.remaining());
        }
        loop
            invariant
                nla_views(r@) + it.remaining() == self.remaining(),
            ensures
                nla_views(r@) == self.remaining(),
            decreases it.remaining().len(),
        {
            let ghost before = it.remaining();
            let ghost done = r@;
            match it.next() {
                Some(nla) => {
                    r.push(nla);
                    proof {
                        assert(nla_views(r@) =~= nla_views(done).push(nla.attr()));
                        assert(nla_views(r@) + it.remaining() =~= nla_views(done) + before);
                    }
                },
                None => {
                    proof {
                        assert(nla_views(r@) + it.remaining() =~= nla_views(r@));
                    }
                    break;
                },
            }
        }
        r
    }
}

/// The attributes of a vector.
pub open spec fn nla_views(v: Seq<Nla<'_>>) -> Seq<Attr> {
    v.map_values(|n: Nla<'_>| n.attr())
}

/// Walks the flat `nlattr` sequence in `buf`.
///
/// `buf` should start at the first attribute, after any fixed-size header.
pub fn parse_attrs(buf: &[u8]) -> (r: NlaIter<'_>)
    ensures
        r.remaining() == attrs(buf@),
{
    NlaIter { buf }
}

/// Walks a nested container whose payload is itself an `nlattr` sequence.
pub fn nested_attrs(payload: &[u8]) -> (r: NlaIter<'_>)
    ensures
        r.remaining() == attrs(payload@),
{
    NlaIter { buf: payload }
}

// ---------------------------------------------------------------------------
// Looking up attributes
// ---------------------------------------------------------------------------

/// The payload of the last attribute of type `ty` with at least `min` bytes.
pub open spec fn last_attr(a: Seq<Attr>, ty: u16, min: nat) -> Option<Seq<u8>>
    decreases a.len(),
{
    if a.len() == 0 {
        None
    } else if a.last().0 == ty && a.last().1.len() >= min {
        Some(a.last().1)
    } else {
        last_attr(a.drop_last(), ty, min)
    }
}

/// The payload that is found has the wanted length.
pub proof fn lemma_last_attr_len(a: Seq<Attr>, ty: u16, min: nat)
    ensures
        last_attr(a, ty, min) matches Some(p) ==> p.len() >= min,
    decreases a.len(),
{
    if a.len() > 0 {
        lemma_last_attr_len(a.drop_last(), ty, min);
    }
}

/// The payload of the first attribute of type `ty`.
pub open spec fn first_attr(a: Seq<Attr>, ty: u16) -> Option<Seq<u8>>
    decreases a.len(),
{
    if a.len() == 0 {
        None
    } else if a[0].0 == ty {
        Some(a[0].1)
    } else {
        first_attr(a.skip(1), ty)
    }
}

/// The payload of the last attribute of type `inner` with at least `min` bytes
/// inside any attribute of type `outer`, in the order of the buffer.
pub open spec fn last_nested(a: Seq<Attr>, outer: u16, inner: u16, min: nat) -> Option<Seq<u8>>
    decreases a.len(),
{
    if a.len() == 0 {
        None
    } else if a.last().0 == outer && last_attr(attrs(a.last().1), inner, min) is Some {
        last_attr(attrs(a.last().1), inner, min)
    } else {
        last_nested(a.drop_last(), outer, inner, min)
    }
}

/// The view of an optional payload.
pub open spec fn payload_view(p: Option<&[u8]>) -> Option<Seq<u8>> {
    match p {
        Some(s) => Some(s@),
        None => None,
    }
}

/// Finds the last attribute of type `ty` with at least `min` payload bytes.
pub fn find_last<'a>(buf: &'a [u8], ty: u16, min: usize) -> (r: Option<&'a [u8]>)
    ensures
        payload_view(r) == last_attr(attrs(buf@), ty, min as nat),
{
    let mut it = parse_attrs(buf);
    let mut best: Option<&'a [u8]> = None;
    let ghost mut done: Seq<Attr> = seq![];
    proof {
        assert(done + it.remaining() =~= attrs(buf@));
    }
    loop
        invariant
            done + it.remaining() == attrs(buf@),
            payload_view(best) == last_attr(done, ty, min as nat),
        ensures
            payload_view(best) == last_attr(attrs(buf@), ty, min as nat),
        decreases it.remaining().len(),
    {
        let ghost before = it.remaining();
        match it.next() {
            Some(nla) => {
                proof {
                    assert(done.push(nla.attr()) + it.remaining() =~= done + before);
                    assert(done.push(nla.attr()).drop_last() =~= done);
                    done = done.push(nla.attr());
                }
                if nla.ty == ty && nla.payload.len() >= min {
                    best = Some(nla.payload);
                }
            },
            None => {
                proof {
                    assert(done + it.remaining() =~= done);
                }
                break;
            },
        }
    }
    best
}

/// The number in a payload; zero without a long enough payload.
pub open spec fn u64_or_zero(p: Option<Seq<u8>>) -> u64 {
    match p {
        Some(p) if p.len() >= 8 => u64_ne(p),
        _ => 0,
    }
}

/// The number in a payload; zero without a long enough payload.
pub open spec fn u32_or_zero(p: Option<Seq<u8>>) -> u32 {
    match p {
        Some(p) if p.len() >= 4 => u32_ne(p),
        _ => 0,
    }
}

/// The number in a payload; `default` without a long enough payload.
pub open spec fn u16_or(p: Option<Seq<u8>>, default: u16) -> u16 {
    match p {
        Some(p) if p.len() >= 2 => u16_ne(p),
        _ => default,
    }
}

/// Reads the number in the last attribute of type `ty`; zero without one.
pub fn read_u64_or_zero(buf: &[u8], ty: u16) -> (r: u64)
    ensures
        r == u64_or_zero(last_attr(attrs(buf@), ty, 0)),
{
    match find_last(buf, ty, 0) {
        Some(p) => read_u64(p).unwrap_or(0),
        None => 0,
    }
}

/// Reads the number in the last attribute of type `ty`; zero without one.
pub fn read_u32_or_zero(buf: &[u8], ty: u16) -> (r: u32)
    ensures
        r == u32_or_zero(last_attr(attrs(buf@), ty, 0)),
{
    match find_last(buf, ty, 0) {
        Some(p) => read_u32(p).unwrap_or(0),
        None => 0,
    }
}

/// Reads the number in the last attribute of type `ty`; `default` without one.
pub fn read_u16_or(buf: &[u8], ty: u16, default: u16) -> (r: u16)
    ensures
        r == u16_or(last_attr(attrs(buf@), ty, 0), default),
{
    match find_last(buf, ty, 0) {
        Some(p) => read_u16(p).unwrap_or(default),
        None => default,
    }
}

/// Finds the first attribute of type `ty`.
pub fn find_first<'a>(buf: &'a [u8], ty: u16) -> (r: Option<&'a [u8]>)
    ensures
        payload_view(r) == first_attr(attrs(buf@), ty),
{
    let mut it = parse_attrs(buf);
    loop
        invariant
            first_attr(it.remaining(), ty) == first_attr(attrs(buf@), ty),
        decreases it.remaining().len(),
    {
        let ghost before = it.remaining();
        match it.next() {
            Some(nla) => {
                proof {
                    assert(before[0] == nla.attr());
                    assert(before.skip(1) =~= it.remaining());
                }
                if nla.ty == ty {
                    return Some(nla.payload);
                }
            },
            None => {
                return None;
            },
        }
    }
}

/// Finds the last attribute of type `inner` with at least `min` payload bytes
/// inside the attributes of type `outer`.
pub fn find_last_nested<'a>(buf: &'a [u8], outer: u16, inner: u16, min: usize) -> (r: Option<
    &'a [u8],
>)
    ensures
        payload_view(r) == last_nested(attrs(buf@), outer, inner, min as nat),
{
    let mut it = parse_attrs(buf);
    let mut best: Option<&'a [u8]> = None;
    let ghost mut done: Seq<Attr> = seq![];
    proof {
        assert(done + it.remaining() =~= attrs(buf@));
    }
    loop
        invariant
            done + it.remaining() == attrs(buf@),
            payload_view(best) == last_nested(done, outer, inner, min as nat),
        ensures
            payload_view(best) == last_nested(attrs(buf@), outer, inner, min as nat),
        decreases it.remaining().len(),
    {
        let ghost before = it.remaining();
        match it.next() {
            Some(nla) => {
                proof {
                    assert(done.push(nla.attr()) + it.remaining() =~= done + before);
                    assert(done.push(nla.attr()).drop_last() =~= done);
                    done = done.push(nla.attr());
                }
                if nla.ty == outer {
                    let found = find_last(nla.payload, inner, min);
                    if found.is_some() {
                        best = found;
                    }
                }
            },
            None => {
                proof {
                    assert(done + it.remaining() =~= done);
                }
                break;
            },
        }
    }
    best
}

// ---------------------------------------------------------------------------
// Strings in payloads
// ---------------------------------------------------------------------------

/// The bytes of `s` before its first NUL; all of them when there is none.
pub open spec fn until_nul(s: Seq<u8>) -> Seq<u8>
    decreases s.len(),
{
    if s.len() == 0 || s[0] == 0 {
        seq![]
    } else {
        seq![s[0]] + until_nul(s.skip(1))
    }
}

/// Cuts a payload at its first NUL byte.
pub fn cut_at_nul(payload: &[u8]) -> (r: &[u8])
    ensures
        r@ == until_nul(payload@),
{
    let mut i: usize = 0;
    proof {
        assert(payload@.skip(0) =~= payload@);
        assert(payload@.take(0) + until_nul(payload@) =~= until_nul(payload@));
    }
    while i < payload.len() && payload[i] != 0
        invariant
            i <= payload.len(),
            until_nul(payload@) == payload@.take(i as int) + until_nul(payload@.skip(i as int)),
        decreases payload.len() - i,
    {
        proof {
            let rest = payload@.skip(i as int);
            assert(rest.skip(1) =~= payload@.skip(i as int + 1));
            assert(payload@.take(i as int) + (seq![rest[0]] + until_nul(rest.skip(1)))
                =~= payload@.take(i as int + 1) + until_nul(payload@.skip(i as int + 1)));
        }
        i += 1;
    }
    proof {
        assert(payload@.take(i as int) + until_nul(payload@.skip(i as int)) =~= payload@.take(i as int));
        assert(payload@.subrange(0, i as int) =~= payload@.take(i as int));
    }
    slice_subrange(payload, 0, i)
}

// ---------------------------------------------------------------------------
// Writing attributes
// ---------------------------------------------------------------------------

/// The two bytes of `n` in the byte order of the host.
pub open spec fn u16_bytes(n: nat) -> Seq<u8> {
    let low = (n % 0x100) as u8;
    let high = (n / 0x100 % 0x100) as u8;
    if host_is_little() {
        seq![low, high]
    } else {
        seq![high, low]
    }
}

/// The four bytes of `n` in the byte order of the host.
pub open spec fn u32_bytes(n: nat) -> Seq<u8> {
    if host_is_little() {
        u16_bytes(n % 0x1_0000) + u16_bytes(n / 0x1_0000)
    } else {
        u16_bytes(n / 0x1_0000) + u16_bytes(n % 0x1_0000)
    }
}

/// An attribute on the wire: header, payload, and zero padding to four bytes.
pub open spec fn attr_bytes(ty: u16, payload: Seq<u8>) -> Seq<u8> {
    u16_bytes((4 + payload.len()) % 0x1_0000) + u16_bytes(ty as nat) + payload + Seq::new(
        (align4_spec(4 + payload.len()) - (4 + payload.len())) as nat,
        |i: int| 0u8,
    )
}

/// The two bytes of `n` in the byte order of the host.
pub fn native_u16(n: u16) -> (r: [u8; 2])
    ensures
        r@ == u16_bytes(n as nat),
{
    let low: u8 = (n % 0x100) as u8;
    let high: u8 = (n / 0x100) as u8;
    let r: [u8; 2] = if little_host() {
        [low, high]
    } else {
        [high, low]
    };
    proof {
        assert(r@ =~= u16_bytes(n as nat));
    }
    r
}

/// The four bytes of `n` in the byte order of the host.
pub fn native_u32(n: u32) -> (r: [u8; 4])
    ensures
        r@ == u32_bytes(n as nat),
{
    let low = native_u16((n % 0x1_0000) as u16);
    let high = native_u16((n / 0x1_0000) as u16);
    let r: [u8; 4] = if little_host() {
        [low[0], low[1], high[0], high[1]]
    } else {
        [high[0], high[1], low[0], low[1]]
    };
    proof {
        assert(r@ =~= u32_bytes(n as nat));
    }
    r
}

/// Appends one attribute, padded to a multiple of four bytes.
///
/// The length field keeps the low 16 bits of the length.
pub fn push_nlattr(buf: &mut Vec<u8>, ty: u16, payload: &[u8])
    requires
        payload@.len() + 7 <= usize::MAX,
    ensures
        final(buf)@ == old(buf)@ + attr_bytes(ty, payload@),
{
    let len: usize = NLA_HDRLEN + payload.len();
    buf.extend_from_slice(native_u16((len % 0x1_0000) as u16).as_slice());
    buf.extend_from_slice(native_u16(ty).as_slice());
    buf.extend_from_slice(payload);
    let pad: usize = align4(len) - len;
    let ghost head = buf@;
    proof {
        assert(head =~= old(buf)@ + u16_bytes((4 + payload@.len()) % 0x1_0000) + u16_bytes(ty as nat)
            + payload@);
    }
    let mut i: usize = 0;
    while i < pad
        invariant
            i <= pad,
            buf@ == head + Seq::new(i as nat, |k: int| 0u8),
        decreases pad - i,
    {
        buf.push(0);
        i += 1;
        proof {
            assert(buf@ =~= head + Seq::new(i as nat, |k: int| 0u8));
        }
    }
    proof {
        assert(buf@ =~= old(buf)@ + attr_bytes(ty, payload@));
    }
}

// ---------------------------------------------------------------------------
// Laws
// ---------------------------------------------------------------------------

/// Reading gives back a native number that was written.
pub proof fn law_native_round_trip(n: u16, m: u32)
    ensures
        u16_ne(u16_bytes(n as nat)) == n,
        u32_ne(u32_bytes(m as nat)) == m,
{
}

/// A native number depends on its own two bytes alone.
proof fn lemma_same_start(s: Seq<u8>, t: Seq<u8>)
    requires
        s.len() >= 2,
        t.len() == 2,
        s.take(2) == t,
    ensures
        u16_ne(s) == u16_ne(t),
{
    assert(s[0] == s.take(2)[0]);
    assert(s[1] == s.take(2)[1]);
}

/// Parsing gives back what was written: a buffer that starts with a written
/// attribute parses to that attribute, with its flags stripped, and then to
/// the attributes of what follows it.
pub proof fn law_attr_round_trip(ty: u16, payload: Seq<u8>, rest: Seq<u8>)
    requires
        payload.len() + 4 <= 0xffff,
    ensures
        attrs(attr_bytes(ty, payload) + rest) == seq![(effective_type(ty), payload)] + attrs(rest),
{
    let buf = attr_bytes(ty, payload) + rest;
    let n = 4 + payload.len();
    assert(n % 0x1_0000 == n);
    assert(buf.take(2) =~= u16_bytes(n));
    assert(buf.skip(2).take(2) =~= u16_bytes(ty as nat));
    law_native_round_trip(n as u16, 0);
    law_native_round_trip(ty, 0);
    lemma_same_start(buf, u16_bytes(n));
    lemma_same_start(buf.skip(2), u16_bytes(ty as nat));
    assert(u16_ne(buf) == n);
    assert(u16_ne(buf.skip(2)) == ty);
    assert(buf.subrange(4, n as int) =~= payload);
    assert(attr_bytes(ty, payload).len() == align4_spec(n));
    assert(after_first(buf) =~= rest);
}

/// Every payload lies inside the buffer: the attributes of a buffer and their
/// headers together are no longer than the buffer.
pub proof fn law_attrs_fit(buf: Seq<u8>)
    ensures
        total_len(attrs(buf)) <= buf.len(),
        forall|i: int| 0 <= i < attrs(buf).len() ==> (#[trigger] attrs(buf)[i]).1.len() + 4 <= buf.len(),
    decreases buf.len(),
{
    if buf.len() < 4 || u16_ne(buf) < 4 || u16_ne(buf) > buf.len() {
    } else {
        let rest = after_first(buf);
        law_attrs_fit(rest);
        let first: Attr = (effective_type(u16_ne(buf.skip(2))), buf.subrange(4, u16_ne(buf) as int));
        assert(attrs(buf).skip(1) =~= attrs(rest));
        assert(attrs(buf)[0] == first);
        assert forall|i: int| 0 <= i < attrs(buf).len() implies (#[trigger] attrs(buf)[i]).1.len() + 4
            <= buf.len() by {
            if i > 0 {
                assert(attrs(buf)[i] == attrs(rest)[i - 1]);
            }
        }
    }
}

/// The total length of attributes with their headers, without padding.
pub open spec fn total_len(a: Seq<Attr>) -> nat
    decreases a.len(),
{
    if a.len() == 0 {
        0
    } else {
        4 + a[0].1.len() + total_len(a.skip(1))
    }
}

/// Rounding up to four bytes gives the least multiple of four that is not
/// smaller, and leaves multiples of four alone.
pub proof fn law_align4(len: nat)
    ensures
        align4_spec(len) % 4 == 0,
        len <= align4_spec(len) < len + 4,
        len % 4 == 0 ==> align4_spec(len) == len,
        align4_spec(align4_spec(len)) == align4_spec(len),
{
    let q = (len + 3) / 4;
    assert(align4_spec(len) == 4 * q);
    assert(4 * q <= len + 3 < 4 * q + 4);
    assert((4 * q) % 4 == 0);
    assert((4 * q + 3) / 4 == q);
    if len % 4 == 0 {
        assert(len == 4 * (len / 4));
        assert((len + 3) / 4 == len / 4);
    }
}

proof fn lemma_until_nul(bytes: Seq<u8>, rest: Seq<u8>)
    requires
        !bytes.contains(0),
        rest.len() == 0 || rest[0] == 0,
    ensures
        until_nul(bytes + rest) == bytes,
    decreases bytes.len(),
{
    if bytes.len() == 0 {
        assert(bytes + rest =~= rest);
        assert(until_nul(rest) =~= bytes);
    } else {
        let tail = bytes.skip(1);
        assert(!tail.contains(0)) by {
            if tail.contains(0) {
                let i = choose|i: int| 0 <= i < tail.len() && tail[i] == 0;
                assert(bytes[i + 1] == 0);
            }
        }
        lemma_until_nul(tail, rest);
        assert(bytes[0] != 0);
        assert((bytes + rest).skip(1) =~= tail + rest);
        assert(until_nul(bytes + rest) =~= bytes);
    }
}

/// A name in valid UTF-8 stays as it is: what stands before the first NUL
/// decodes to its own text, whatever follows the NUL.
pub proof fn law_name_kept(bytes: Seq<u8>, rest: Seq<u8>)
    requires
        valid_utf8(bytes),
        !bytes.contains(0),
        rest.len() == 0 || rest[0] == 0,
    ensures
        until_nul(bytes + rest) == bytes,
        decoded(until_nul(bytes + rest)) == decode_utf8(bytes),
{
    lemma_until_nul(bytes, rest);
}

/// The last attribute of a type counts: one that is appended takes the place of
/// those before it if it is long enough, and any other leaves the result
/// unchanged.
pub proof fn law_last_wins(a: Seq<Attr>, ty: u16, p: Seq<u8>, want: u16, min: nat)
    ensures
        last_attr(seq![], want, min) is None,
        ty == want && p.len() >= min ==> last_attr(a.push((ty, p)), want, min) == Some(p),
        ty != want || p.len() < min ==> last_attr(a.push((ty, p)), want, min) == last_attr(
            a,
            want,
            min,
        ),
{
    assert(a.push((ty, p)).drop_last() =~= a);
}

/// The first attribute of a type counts: one that is put in front takes the
/// place of those behind it, and one of another type leaves the result
/// unchanged.
pub proof fn law_first_wins(a: Seq<Attr>, ty: u16, p: Seq<u8>, want: u16)
    ensures
        first_attr(seq![], want) is None,
        ty == want ==> first_attr(seq![(ty, p)] + a, want) == Some(p),
        ty != want ==> first_attr(seq![(ty, p)] + a, want) == first_attr(a, want),
{
    assert((seq![(ty, p)] + a).skip(1) =~= a);
}

/// Of nested attributes the last counts too: a container that is appended
/// decides if it holds a fitting attribute, and else leaves the result
/// unchanged.
pub proof fn law_last_nested_wins(
    a: Seq<Attr>,
    ty: u16,
    p: Seq<u8>,
    outer: u16,
    inner: u16,
    min: nat,
)
    ensures
        last_nested(seq![], outer, inner, min) is None,
        ty == outer && last_attr(attrs(p), inner, min) is Some ==> last_nested(
            a.push((ty, p)),
            outer,
            inner,
            min,
        ) == last_attr(attrs(p), inner, min),
        ty != outer || last_attr(attrs(p), inner, min) is None ==> last_nested(
            a.push((ty, p)),
            outer,
            inner,
            min,
        ) == last_nested(a, outer, inner, min),
{
    assert(a.push((ty, p)).drop_last() =~= a);
}

/// Attributes that were written one after the other are read back in that
/// order.
pub proof fn law_attrs_read_back(written: Seq<Attr>)
    requires
        forall|i: int|
            0 <= i < written.len() ==> (#[trigger] written[i]).0 < 0x2000 && written[i].1.len() + 4
                <= 0xffff,
    ensures
        attrs(written_bytes(written)) == written,
    decreases written.len(),
{
    if written.len() > 0 {
        let rest = written.skip(1);
        assert(written[0].0 < 0x2000 && written[0].1.len() + 4 <= 0xffff);
        assert forall|i: int| 0 <= i < rest.len() implies (#[trigger] rest[i]).0 < 0x2000
            && rest[i].1.len() + 4 <= 0xffff by {
            assert(rest[i] == written[i + 1]);
        }
        law_attrs_read_back(rest);
        lemma_first_read_back(written[0], written_bytes(rest));
        assert(attrs(written_bytes(written)) == seq![written[0]] + attrs(written_bytes(rest)));
        assert(written =~= seq![written[0]] + rest);
    }
}

proof fn lemma_first_read_back(first: Attr, rest: Seq<u8>)
    requires
        first.0 < 0x2000,
        first.1.len() + 4 <= 0xffff,
    ensures
        attrs(attr_bytes(first.0, first.1) + rest) == seq![first] + attrs(rest),
{
    law_attr_round_trip(first.0, first.1, rest);
}

/// The bytes of attributes that stand one behind the other.
pub open spec fn written_bytes(written: Seq<Attr>) -> Seq<u8>
    decreases written.len(),
{
    if written.len() == 0 {
        seq![]
    } else {
        attr_bytes(written[0].0, written[0].1) + written_bytes(written.skip(1))
    }
}

/// In a big-endian number every byte counts for 256 times the one behind it,
/// and in a little-endian number for 256 times the one before it.
pub proof fn law_byte_weights(s: Seq<u8>)
    requires
        s.len() >= 8,
    ensures
        u16_be(s) == s[0] * 0x100 + s[1],
        u32_be(s) == u16_be(s) * 0x1_0000 + u16_be(s.skip(2)),
        u64_be(s) == u32_be(s) * 0x1_0000_0000 + u32_be(s.skip(4)),
        u16_le(s) == s[0] + s[1] * 0x100,
        u32_le(s) == u16_le(s) + u16_le(s.skip(2)) * 0x1_0000,
        u64_le(s) == u32_le(s) + u32_le(s.skip(4)) * 0x1_0000_0000,
{
}

/// The two byte orders mirror each other.
pub proof fn law_orders_mirror(s: Seq<u8>)
    requires
        s.len() == 8,
    ensures
        u64_be(s) == u64_le(s.reverse()),
        u32_be(s) == u32_le(s.take(4).reverse()),
        u16_be(s) == u16_le(s.take(2).reverse()),
{
    let r = s.reverse();
    assert(r[0] == s[7] && r[1] == s[6] && r[2] == s[5] && r[3] == s[4]);
    assert(r.skip(4)[0] == s[3] && r.skip(4)[1] == s[2]);
    assert(r.skip(4)[2] == s[1] && r.skip(4)[3] == s[0]);
    assert(s.skip(4)[0] == s[4] && s.skip(4)[1] == s[5]);
    assert(s.skip(4)[2] == s[6] && s.skip(4)[3] == s[7]);
    let q = s.take(4).reverse();
    assert(q[0] == s[3] && q[1] == s[2] && q[2] == s[1] && q[3] == s[0]);
    let h = s.take(2).reverse();
    assert(h[0] == s[1] && h[1] == s[0]);
}

/// The two high bits of an attribute type and the bit below them are flags: they
/// do not change which attribute it is.
pub proof fn law_type_flags_ignored(ty: u16)
    requires
        ty < 0x2000,
    ensures
        effective_type(ty) == ty,
        effective_type((ty + 0x8000) as u16) == ty,
        effective_type((ty + 0x4000) as u16) == ty,
        effective_type((ty + 0xc000) as u16) == ty,
{
}

/// An attribute is as long as its header and its payload, rounded up to four;
/// the bytes behind the payload are zero.
pub proof fn law_padding_is_zero(ty: u16, payload: Seq<u8>, i: int)
    requires
        4 + payload.len() <= i < attr_bytes(ty, payload).len(),
    ensures
        attr_bytes(ty, payload)[i] == 0,
        attr_bytes(ty, payload).len() % 4 == 0,
        attr_bytes(ty, payload).len() < payload.len() + 8,
{
}

/// Reading ends where no whole attribute is left: where the header is cut off,
/// or the length is too small or reaches beyond the end.
pub proof fn law_malformed_ends(buf: Seq<u8>)
    requires
        buf.len() < 4 || u16_ne(buf) < 4 || u16_ne(buf) > buf.len(),
    ensures
        attrs(buf).len() == 0,
{
}

/// The last attribute needs no padding.
pub proof fn law_unpadded_last_read(ty: u16, payload: Seq<u8>)
    requires
        ty < 0x2000,
        4 + payload.len() <= 0xffff,
    ensures
        attrs(u16_bytes(4 + payload.len()) + u16_bytes(ty as nat) + payload) == seq![(ty, payload)],
{
    let n = 4 + payload.len();
    let buf = u16_bytes(n) + u16_bytes(ty as nat) + payload;
    lemma_header_read(ty, payload);
    law_align4(n);
    let rest = after_first(buf);
    assert(rest =~= seq![]);
    assert(attrs(rest).len() == 0);
    assert(attrs(buf) == seq![(effective_type(ty), payload)] + attrs(rest));
    assert(attrs(buf) =~= seq![(ty, payload)]);
}

proof fn lemma_header_read(ty: u16, payload: Seq<u8>)
    requires
        4 + payload.len() <= 0xffff,
    ensures
        ({
            let n = 4 + payload.len();
            let buf = u16_bytes(n) + u16_bytes(ty as nat) + payload;
            &&& buf.len() == n
            &&& u16_ne(buf) == n
            &&& u16_ne(buf.skip(2)) == ty
            &&& buf.subrange(4, n as int) == payload
        }),
{
    let n = 4 + payload.len();
    let buf = u16_bytes(n) + u16_bytes(ty as nat) + payload;
    law_native_round_trip(n as u16, 0);
    law_native_round_trip(ty, 0);
    assert(buf[0] == u16_bytes(n)[0] && buf[1] == u16_bytes(n)[1]);
    let t = buf.skip(2);
    assert(t[0] == u16_bytes(ty as nat)[0] && t[1] == u16_bytes(ty as nat)[1]);
    assert(buf.subrange(4, n as int) =~= payload);
}

} // verus!
