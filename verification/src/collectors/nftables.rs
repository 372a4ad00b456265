//! nftables collector: `NETLINK_NETFILTER`, subsystem nftables.
//!
//! Every frame starts with a 4-byte `nfgenmsg`, whose first byte is the address
//! family; the attributes follow.  Integer attributes are big-endian.  Where an
//! attribute occurs more than once, the last occurrence counts.
use crate::error::{CollectError, DomainError};
use crate::labels::{no_labels, Labels};
use crate::metric::{
    counter_view, counts, flag, flag_value, flat, gauge_view, holds, is_counter, is_gauge,
    law_flat_holds_each, law_parsed_holds_each, lemma_holds_itself, lemma_joined_holds, model_views,
    opt_view, parsed, push_counter, push_gauge, reads, views, whole, GaugeValue, MetricSample,
    SampleView,
};
use crate::model::nftables::{
    NftChain, NftChainView, NftCounter, NftCounterView, NftFlowtable, NftFlowtableView, NftLimit,
    NftLimitView, NftQuota, NftQuotaView, NftRuleCounter, NftRuleCounterView, NftSet, NftSetView,
    NftTable, NftTableView,
};
use crate::text::{decoded, signed_dec, signed_dec_text, str_eq, utf8_lossy};
use crate::wire::{
    attrs, find_first, find_last, find_last_nested, first_attr, last_attr, last_nested,
    lemma_last_attr_len, nested_attrs, parse_attrs, read_u32_be, read_u64_be, u32_be, u64_be, Attr,
};
use vstd::prelude::*;
use vstd::slice::slice_subrange;

verus! {

// ---------------------------------------------------------------------------
// Wire constants
// ---------------------------------------------------------------------------

/// `NETLINK_NETFILTER` protocol number.
pub const NETLINK_NETFILTER: i32 = 12;

/// Length of `nfgenmsg`.
pub const NFGENMSG_LEN: usize = 4;

/// Message types: the subsystem number 10 in the high byte.
pub const NFT_MSG_GETTABLE: u16 = 0x0A01;
pub const NFT_MSG_GETCHAIN: u16 = 0x0A04;
pub const NFT_MSG_GETRULE: u16 = 0x0A07;
pub const NFT_MSG_GETSET: u16 = 0x0A0A;
pub const NFT_MSG_GETGEN: u16 = 0x0A10;
pub const NFT_MSG_GETOBJ: u16 = 0x0A13;
pub const NFT_MSG_GETFLOWTABLE: u16 = 0x0A17;

/// Object types.
pub const NFT_OBJECT_COUNTER: u32 = 1;
pub const NFT_OBJECT_QUOTA: u32 = 2;
pub const NFT_OBJECT_LIMIT: u32 = 4;

/// Attribute types.
pub const NFTA_TABLE_NAME: u16 = 1;
pub const NFTA_CHAIN_TABLE: u16 = 1;
pub const NFTA_CHAIN_NAME: u16 = 3;
pub const NFTA_CHAIN_HOOK: u16 = 4;
pub const NFTA_CHAIN_POLICY: u16 = 5;
pub const NFTA_CHAIN_TYPE: u16 = 7;
pub const NFTA_HOOK_HOOKNUM: u16 = 1;
pub const NFTA_HOOK_PRIORITY: u16 = 2;
pub const NFTA_RULE_TABLE: u16 = 1;
pub const NFTA_RULE_CHAIN: u16 = 2;
pub const NFTA_RULE_EXPRESSIONS: u16 = 4;
pub const NFTA_RULE_USERDATA: u16 = 7;
pub const NFTA_LIST_ELEM: u16 = 1;
pub const NFTA_EXPR_NAME: u16 = 1;
pub const NFTA_EXPR_DATA: u16 = 2;
pub const NFTA_OBJ_TABLE: u16 = 1;
pub const NFTA_OBJ_NAME: u16 = 2;
pub const NFTA_OBJ_TYPE: u16 = 3;
pub const NFTA_OBJ_DATA: u16 = 4;
pub const NFTA_COUNTER_BYTES: u16 = 1;
pub const NFTA_COUNTER_PACKETS: u16 = 2;
pub const NFTA_SET_TABLE: u16 = 1;
pub const NFTA_SET_NAME: u16 = 2;
pub const NFTA_SET_FLAGS: u16 = 3;
pub const NFTA_SET_KEY_TYPE: u16 = 4;
pub const NFTA_SET_DESC: u16 = 9;
pub const NFTA_SET_COUNT: u16 = 20;
pub const NFTA_SET_DESC_SIZE: u16 = 1;
pub const NFTA_QUOTA_BYTES: u16 = 1;
pub const NFTA_QUOTA_FLAGS: u16 = 2;
pub const NFTA_QUOTA_CONSUMED: u16 = 4;
pub const NFTA_LIMIT_RATE: u16 = 1;
pub const NFTA_LIMIT_UNIT: u16 = 2;
pub const NFTA_LIMIT_BURST: u16 = 3;
pub const NFTA_LIMIT_TYPE: u16 = 4;
pub const NFTA_GEN_ID: u16 = 1;
pub const NFTA_FLOWTABLE_TABLE: u16 = 1;
pub const NFTA_FLOWTABLE_NAME: u16 = 2;
pub const NFTA_FLOWTABLE_HOOK: u16 = 3;
pub const NFTA_FLOWTABLE_FLAGS: u16 = 7;
pub const NFTA_FLOWTABLE_HOOK_NUM: u16 = 1;
pub const NFTA_FLOWTABLE_HOOK_PRIORITY: u16 = 2;

/// Anonymous set flag; anonymous sets are not exported.
pub const NFT_SET_ANONYMOUS: u32 = 0x0001;

/// Bit 1 of `NFTA_QUOTA_FLAGS`: the quota has been exhausted.
pub const NFT_QUOTA_F_DEPLETED: u32 = 2;

/// Bit 0 of `NFTA_FLOWTABLE_FLAGS`: hardware offload is active.
pub const NFT_FLOWTABLE_HW_OFFLOAD: u32 = 1;

/// Hard cap on rules whose counters are emitted in one scrape.  Rules with a
/// comment and a counter beyond this cap are dropped and their number is
/// reported; rules without a comment never count against it.
pub const RULE_COUNTER_MAX_SERIES: usize = 1000;

// ---------------------------------------------------------------------------
// Labels of numeric codes
// ---------------------------------------------------------------------------

pub open spec fn family_text(nfgen_family: u8) -> Seq<char> {
    match nfgen_family {
        0 => "unspec"@,
        1 => "inet"@,
        2 => "ip"@,
        3 => "arp"@,
        5 => "netdev"@,
        7 => "bridge"@,
        10 => "ip6"@,
        _ => "other"@,
    }
}

/// Name of an address family (`NFPROTO_*`).
pub fn family_label(nfgen_family: u8) -> (r: &'static str)
    ensures
        r@ == family_text(nfgen_family),
{
    match nfgen_family {
        0 => "unspec",
        1 => "inet",
        2 => "ip",
        3 => "arp",
        5 => "netdev",
        7 => "bridge",
        10 => "ip6",
        _ => "other",
    }
}

pub open spec fn hook_text(hooknum: u32) -> Seq<char> {
    match hooknum {
        0 => "prerouting"@,
        1 => "input"@,
        2 => "forward"@,
        3 => "output"@,
        4 => "postrouting"@,
        5 => "ingress"@,
        6 => "egress"@,
        _ => "other"@,
    }
}

/// Name of a netfilter hook.
pub fn hook_label(hooknum: u32) -> (r: &'static str)
    ensures
        r@ == hook_text(hooknum),
{
    match hooknum {
        0 => "prerouting",
        1 => "input",
        2 => "forward",
        3 => "output",
        4 => "postrouting",
        5 => "ingress",
        6 => "egress",
        _ => "other",
    }
}

pub open spec fn policy_text(policy: u32) -> Seq<char> {
    match policy {
        0 => "drop"@,
        1 => "accept"@,
        _ => "other"@,
    }
}

/// Name of a chain policy.
pub fn policy_label(policy: u32) -> (r: &'static str)
    ensures
        r@ == policy_text(policy),
{
    match policy {
        0 => "drop",
        1 => "accept",
        _ => "other",
    }
}

pub open spec fn key_type_text(key_type: u32) -> Seq<char> {
    match key_type {
        0x000c => "ipv4_addr"@,
        0x000d => "ipv6_addr"@,
        0x000b => "inet_service"@,
        0x0005 => "ether_addr"@,
        0x0009 => "mark"@,
        _ => "other"@,
    }
}

/// Name of a set's key type (`NFTA_SET_KEY_TYPE`).
pub fn key_type_label(key_type: u32) -> (r: &'static str)
    ensures
        r@ == key_type_text(key_type),
{
    match key_type {
        0x000c => "ipv4_addr",
        0x000d => "ipv6_addr",
        0x000b => "inet_service",
        0x0005 => "ether_addr",
        0x0009 => "mark",
        _ => "other",
    }
}

pub open spec fn limit_type_text(limit_type: u32) -> Seq<char> {
    match limit_type {
        0 => "pkts"@,
        1 => "bytes"@,
        _ => "other"@,
    }
}

/// Name of a limit's type (`NFTA_LIMIT_TYPE`).
pub fn limit_type_label(limit_type: u32) -> (r: &'static str)
    ensures
        r@ == limit_type_text(limit_type),
{
    match limit_type {
        0 => "pkts",
        1 => "bytes",
        _ => "other",
    }
}

/// Builds the `nfgenmsg` of a dump request.
pub fn nfgenmsg(family: u8) -> (r: [u8; 4])
    ensures
        r@ == seq![family, 0u8, 0u8, 0u8],
{
    let r = [family, 0u8, 0u8, 0u8];
    proof {
        assert(r@ =~= seq![family, 0u8, 0u8, 0u8]);
    }
    r
}

// ---------------------------------------------------------------------------
// Attribute values
// ---------------------------------------------------------------------------

/// `s` without one trailing NUL.
pub open spec fn strip_nul(s: Seq<u8>) -> Seq<u8> {
    if s.len() > 0 && s.last() == 0 {
        s.drop_last()
    } else {
        s
    }
}

/// The text of a NUL-terminated payload.
pub open spec fn cstr(payload: Seq<u8>) -> Seq<char> {
    decoded(strip_nul(payload))
}

/// Strips one trailing NUL from a payload and decodes the rest; invalid UTF-8
/// is replaced.
pub fn cstr_to_string(payload: &[u8]) -> (r: String)
    ensures
        r@ == cstr(payload@),
        vstd::utf8::valid_utf8(strip_nul(payload@)) ==> r@ == vstd::utf8::decode_utf8(
            strip_nul(payload@),
        ),
        r@.len() > 0 <==> strip_nul(payload@).len() > 0,
{
    let n: usize = payload.len();
    if n > 0 && payload[n - 1] == 0 {
        let trimmed = slice_subrange(payload, 0, n - 1);
        proof {
            assert(trimmed@ =~= strip_nul(payload@));
        }
        utf8_lossy(trimmed)
    } else {
        utf8_lossy(payload)
    }
}

/// The attributes of a frame, after its `nfgenmsg`.
pub open spec fn frame_attrs(frame: Seq<u8>) -> Seq<Attr> {
    attrs(frame.skip(4))
}

/// The text of the last attribute `ty`; empty when there is none.
pub open spec fn attr_text(a: Seq<Attr>, ty: u16) -> Seq<char> {
    match last_attr(a, ty, 0) {
        Some(p) => cstr(p),
        None => Seq::empty(),
    }
}

/// The last attribute `ty` holds a text that is not empty.
pub open spec fn has_text(a: Seq<Attr>, ty: u16) -> bool {
    match last_attr(a, ty, 0) {
        Some(p) => strip_nul(p).len() > 0,
        None => false,
    }
}

/// The big-endian number in a payload; `default` without a long enough payload.
pub open spec fn u32_or(p: Option<Seq<u8>>, default: u32) -> u32 {
    match p {
        Some(p) if p.len() >= 4 => u32_be(p),
        _ => default,
    }
}

/// The big-endian number in a payload; `default` without a long enough payload.
pub open spec fn u64_or(p: Option<Seq<u8>>, default: u64) -> u64 {
    match p {
        Some(p) if p.len() >= 8 => u64_be(p),
        _ => default,
    }
}

/// The number with the bit pattern of `n` as a signed 32-bit integer.
pub open spec fn signed32(n: u32) -> i32 {
    if n < 0x8000_0000 {
        n as i32
    } else {
        (n - 0x1_0000_0000) as i32
    }
}

fn read_text(buf: &[u8], ty: u16) -> (r: String)
    ensures
        r@ == attr_text(attrs(buf@), ty),
        r@.len() > 0 <==> has_text(attrs(buf@), ty),
{
    match find_last(buf, ty, 0) {
        Some(p) => cstr_to_string(p),
        None => String::new(),
    }
}

fn read_u32_or(buf: &[u8], ty: u16, default: u32) -> (r: u32)
    ensures
        r == u32_or(last_attr(attrs(buf@), ty, 0), default),
{
    match find_last(buf, ty, 0) {
        Some(p) => read_u32_be(p).unwrap_or(default),
        None => default,
    }
}

fn read_nested_u32_or(buf: &[u8], outer: u16, inner: u16, default: u32) -> (r: u32)
    ensures
        r == u32_or(last_nested(attrs(buf@), outer, inner, 0), default),
{
    match find_last_nested(buf, outer, inner, 0) {
        Some(p) => read_u32_be(p).unwrap_or(default),
        None => default,
    }
}

fn read_nested_u64_or(buf: &[u8], outer: u16, inner: u16, default: u64) -> (r: u64)
    ensures
        r == u64_or(last_nested(attrs(buf@), outer, inner, 0), default),
{
    match find_last_nested(buf, outer, inner, 0) {
        Some(p) => read_u64_be(p).unwrap_or(default),
        None => default,
    }
}

fn to_signed32(n: u32) -> (r: i32)
    ensures
        r == signed32(n),
{
    if n < 0x8000_0000 {
        n as i32
    } else {
        (n as i64 - 0x1_0000_0000) as i32
    }
}

/// What follows the `nfgenmsg` of a frame.
fn body(frame: &[u8]) -> (r: &[u8])
    requires
        frame@.len() >= 4,
    ensures
        r@ == frame@.skip(4),
{
    let r = slice_subrange(frame, NFGENMSG_LEN, frame.len());
    proof {
        assert(r@ =~= frame@.skip(4));
    }
    r
}

// ---------------------------------------------------------------------------
// Frames
// ---------------------------------------------------------------------------

/// The table that a frame describes.
pub open spec fn table_of(frame: Seq<u8>) -> Option<NftTableView> {
    let a = frame_attrs(frame);
    if frame.len() < 4 || !has_text(a, NFTA_TABLE_NAME) {
        None
    } else {
        Some(NftTableView { name: attr_text(a, NFTA_TABLE_NAME), family: family_text(frame[0]) })
    }
}

/// Parses one `NFT_MSG_GETTABLE` reply frame.
pub fn parse_table_frame(frame: &[u8]) -> (r: Option<NftTable>)
    ensures
        opt_view(r) == table_of(frame@),
{
    if frame.len() < NFGENMSG_LEN {
        return None;
    }
    let name = read_text(body(frame), NFTA_TABLE_NAME);
    if name.as_str().is_empty() {
        return None;
    }
    Some(NftTable { name, family: family_label(frame[0]).to_owned() })
}

/// The chain that a frame describes.
pub open spec fn chain_of(frame: Seq<u8>) -> Option<NftChainView> {
    let a = frame_attrs(frame);
    if frame.len() < 4 || !has_text(a, NFTA_CHAIN_NAME) {
        None
    } else {
        Some(
            NftChainView {
                table: attr_text(a, NFTA_CHAIN_TABLE),
                chain: attr_text(a, NFTA_CHAIN_NAME),
                chain_type: attr_text(a, NFTA_CHAIN_TYPE),
                hook: match last_nested(a, NFTA_CHAIN_HOOK, NFTA_HOOK_HOOKNUM, 4) {
                    Some(p) => hook_text(u32_be(p)),
                    None => Seq::empty(),
                },
                priority: signed32(u32_or(last_nested(a, NFTA_CHAIN_HOOK, NFTA_HOOK_PRIORITY, 4), 0)),
                policy: match last_attr(a, NFTA_CHAIN_POLICY, 4) {
                    Some(p) => policy_text(u32_be(p)),
                    None => Seq::empty(),
                },
            },
        )
    }
}

proof fn lemma_last_nested_len(a: Seq<Attr>, outer: u16, inner: u16, min: nat)
    ensures
        last_nested(a, outer, inner, min) matches Some(p) ==> p.len() >= min,
    decreases a.len(),
{
    if a.len() > 0 {
        lemma_last_attr_len(attrs(a.last().1), inner, min);
        lemma_last_nested_len(a.drop_last(), outer, inner, min);
    }
}

/// The name of the hook in the last attribute `num` inside `hook` that holds a
/// number; empty without one.
fn read_hook(buf: &[u8], hook: u16, num: u16) -> (r: String)
    ensures
        r@ == (match last_nested(attrs(buf@), hook, num, 4) {
            Some(p) => hook_text(u32_be(p)),
            None => Seq::empty(),
        }),
{
    proof {
        lemma_last_nested_len(attrs(buf@), hook, num, 4);
    }
    match find_last_nested(buf, hook, num, 4) {
        Some(p) => hook_label(read_u32_be(p).unwrap_or(0)).to_owned(),
        None => String::new(),
    }
}

fn read_priority(buf: &[u8], hook: u16, priority: u16) -> (r: i32)
    ensures
        r == signed32(u32_or(last_nested(attrs(buf@), hook, priority, 4), 0)),
{
    proof {
        lemma_last_nested_len(attrs(buf@), hook, priority, 4);
    }
    match find_last_nested(buf, hook, priority, 4) {
        Some(p) => to_signed32(read_u32_be(p).unwrap_or(0)),
        None => 0,
    }
}

/// Parses one `NFT_MSG_GETCHAIN` reply frame.
pub fn parse_chain_frame(frame: &[u8]) -> (r: Option<NftChain>)
    ensures
        opt_view(r) == chain_of(frame@),
{
    if frame.len() < NFGENMSG_LEN {
        return None;
    }
    let buf = body(frame);
    let chain = read_text(buf, NFTA_CHAIN_NAME);
    if chain.as_str().is_empty() {
        return None;
    }
    proof {
        lemma_last_attr_len(attrs(buf@), NFTA_CHAIN_POLICY, 4);
    }
    let policy = match find_last(buf, NFTA_CHAIN_POLICY, 4) {
        Some(p) => policy_label(read_u32_be(p).unwrap_or(0)).to_owned(),
        None => String::new(),
    };
    Some(
        NftChain {
            table: read_text(buf, NFTA_CHAIN_TABLE),
            chain,
            chain_type: read_text(buf, NFTA_CHAIN_TYPE),
            hook: read_hook(buf, NFTA_CHAIN_HOOK, NFTA_HOOK_HOOKNUM),
            priority: read_priority(buf, NFTA_CHAIN_HOOK, NFTA_HOOK_PRIORITY),
            policy,
        },
    )
}

/// The comment in a rule's user data: the first non-empty text among the
/// records of type zero.
///
/// A record is a type byte, a length byte and that many bytes of data; the walk
/// ends where a record would exceed the blob.
pub open spec fn comment_of(blob: Seq<u8>) -> Option<Seq<char>>
    decreases blob.len(),
{
    if blob.len() < 2 || 2 + blob[1] > blob.len() {
        None
    } else {
        let end = 2 + blob[1] as int;
        let data = blob.subrange(2, end);
        if blob[0] == 0 && strip_nul(data).len() > 0 {
            Some(cstr(data))
        } else {
            comment_of(blob.skip(end))
        }
    }
}

/// The view of an optional string.
pub open spec fn opt_text(s: Option<String>) -> Option<Seq<char>> {
    match s {
        Some(s) => Some(s@),
        None => None,
    }
}

/// Walks the records of a `NFTA_RULE_USERDATA` blob and returns the comment,
/// or `None` when it is absent or empty.
pub fn extract_rule_comment(blob: &[u8]) -> (r: Option<String>)
    ensures
        opt_text(r) == comment_of(blob@),
        r matches Some(text) ==> text@.len() > 0,
{
    let mut pos: usize = 0;
    proof {
        assert(blob@.skip(0) =~= blob@);
    }
    while blob.len() - pos >= 2
        invariant
            pos <= blob.len(),
            comment_of(blob@) == comment_of(blob@.skip(pos as int)),
        decreases blob.len() - pos,
    {
        let ghost rest = blob@.skip(pos as int);
        let len: usize = blob[pos + 1] as usize;
        if len > blob.len() - pos - 2 {
            return None;
        }
        let end: usize = pos + 2 + len;
        proof {
            assert(rest.subrange(2, 2 + len as int) =~= blob@.subrange(pos as int + 2, end as int));
            assert(rest.skip(2 + len as int) =~= blob@.skip(end as int));
        }
        if blob[pos] == 0 && len > 0 {
            let comment = cstr_to_string(slice_subrange(blob, pos + 2, end));
            if !comment.as_str().is_empty() {
                return Some(comment);
            }
        }
        pos = end;
    }
    None
}

/// The counter of the first list element that is a `counter` expression.
pub open spec fn counter_in(elems: Seq<Attr>) -> Option<(Option<u64>, Option<u64>)>
    decreases elems.len(),
{
    if elems.len() == 0 {
        None
    } else if elems[0].0 == NFTA_LIST_ELEM && attr_text(attrs(elems[0].1), NFTA_EXPR_NAME)
        == "counter"@ {
        Some(
            (
                opt_u64(last_nested(attrs(elems[0].1), NFTA_EXPR_DATA, NFTA_COUNTER_BYTES, 0)),
                opt_u64(last_nested(attrs(elems[0].1), NFTA_EXPR_DATA, NFTA_COUNTER_PACKETS, 0)),
            ),
        )
    } else {
        counter_in(elems.skip(1))
    }
}

/// The big-endian number in a payload, if it is long enough.
pub open spec fn opt_u64(p: Option<Seq<u8>>) -> Option<u64> {
    match p {
        Some(p) if p.len() >= 8 => Some(u64_be(p)),
        _ => None,
    }
}

/// The counter of a rule: that of the last expression list with a `counter`
/// expression.
pub open spec fn rule_counter(a: Seq<Attr>) -> (Option<u64>, Option<u64>)
    decreases a.len(),
{
    if a.len() == 0 {
        (None, None)
    } else if a.last().0 == NFTA_RULE_EXPRESSIONS && counter_in(attrs(a.last().1)) is Some {
        counter_in(attrs(a.last().1))->0
    } else {
        rule_counter(a.drop_last())
    }
}

/// The rule counter that a frame describes.
pub open spec fn rule_of(frame: Seq<u8>) -> Option<NftRuleCounterView> {
    let a = frame_attrs(frame);
    let comment = match last_attr(a, NFTA_RULE_USERDATA, 0) {
        Some(p) => comment_of(p),
        None => None,
    };
    if frame.len() < 4 {
        None
    } else {
        match (comment, rule_counter(a).0, rule_counter(a).1) {
            (Some(comment), Some(bytes), Some(packets)) => Some(
                NftRuleCounterView {
                    table: attr_text(a, NFTA_RULE_TABLE),
                    chain: attr_text(a, NFTA_RULE_CHAIN),
                    comment,
                    bytes,
                    packets,
                },
            ),
            _ => None,
        }
    }
}

fn read_opt_u64(buf: &[u8], outer: u16, inner: u16) -> (r: Option<u64>)
    ensures
        r == opt_u64(last_nested(attrs(buf@), outer, inner, 0)),
{
    match find_last_nested(buf, outer, inner, 0) {
        Some(p) => read_u64_be(p),
        None => None,
    }
}

/// Finds the first `counter` expression in an expression list.
fn find_counter(list: &[u8]) -> (r: Option<(Option<u64>, Option<u64>)>)
    ensures
        r == counter_in(attrs(list@)),
{
    let mut it = nested_attrs(list);
    loop
        invariant
            counter_in(it.remaining()) == counter_in(attrs(list@)),
        decreases it.remaining().len(),
    {
        let ghost before = it.remaining();
        match it.next() {
            Some(nla) => {
                proof {
                    assert(before[0] == nla.attr());
                    assert(before.skip(1) =~= it.remaining());
                }
                if nla.ty == NFTA_LIST_ELEM {
                    let name = read_text(nla.payload, NFTA_EXPR_NAME);
                    if str_eq(name.as_str(), "counter") {
                        return Some(
                            (
                                read_opt_u64(nla.payload, NFTA_EXPR_DATA, NFTA_COUNTER_BYTES),
                                read_opt_u64(nla.payload, NFTA_EXPR_DATA, NFTA_COUNTER_PACKETS),
                            ),
                        );
                    }
                }
            },
            None => {
                return None;
            },
        }
    }
}

/// Reads the counter of a rule.
fn read_rule_counter(buf: &[u8]) -> (r: (Option<u64>, Option<u64>))
    ensures
        r == rule_counter(attrs(buf@)),
{
    let mut it = parse_attrs(buf);
    let mut best: (Option<u64>, Option<u64>) = (None, None);
    let ghost mut done: Seq<Attr> = seq![];
    proof {
        assert(done + it.remaining() =~= attrs(buf@));
    }
    loop
        invariant
            done + it.remaining() == attrs(buf@),
            best == rule_counter(done),
        ensures
            best == rule_counter(attrs(buf@)),
        decreases it.remaining().len(),
    {
        let ghost before = it.remaining();
        match it.next() {
            Some(nla) => {
                proof {
                    assert(done.push(nla.attr()) + it.remaining() =~= done + before);
                    assert(done.push(nla.attr()).drop_last() =~= done);
                    done = done.push(nla.attr());
                }
                if nla.ty == NFTA_RULE_EXPRESSIONS {
                    if let Some(found) = find_counter(nla.payload) {
                        best = found;
                    }
                }
            },
            None => {
                proof {
                    assert(done + it.remaining() =~= done);
                }
                break;
            },
        }
    }
    best
}

/// Parses one `NFT_MSG_GETRULE` reply frame.
///
/// Only a rule with a non-empty comment and a `counter` expression with both
/// numbers yields a result.
pub fn parse_rule_frame(frame: &[u8]) -> (r: Option<NftRuleCounter>)
    ensures
        opt_view(r) == rule_of(frame@),
        r matches Some(rule) ==> rule.comment@.len() > 0,
{
    if frame.len() < NFGENMSG_LEN {
        return None;
    }
    let buf = body(frame);
    let comment = match find_last(buf, NFTA_RULE_USERDATA, 0) {
        Some(p) => extract_rule_comment(p),
        None => None,
    };
    let counter = read_rule_counter(buf);
    match (comment, counter.0, counter.1) {
        (Some(comment), Some(bytes), Some(packets)) => Some(
            NftRuleCounter {
                table: read_text(buf, NFTA_RULE_TABLE),
                chain: read_text(buf, NFTA_RULE_CHAIN),
                comment,
                bytes,
                packets,
            },
        ),
        _ => None,
    }
}

/// The object type that a frame announces first.
pub open spec fn obj_type_of(frame: Seq<u8>) -> Option<u32> {
    if frame.len() < 4 {
        None
    } else {
        opt_u32(first_attr(frame_attrs(frame), NFTA_OBJ_TYPE))
    }
}

/// The big-endian number in a payload, if it is long enough.
pub open spec fn opt_u32(p: Option<Seq<u8>>) -> Option<u32> {
    match p {
        Some(p) if p.len() >= 4 => Some(u32_be(p)),
        _ => None,
    }
}

/// Reads only `NFTA_OBJ_TYPE` from a frame.
pub fn parse_obj_type(frame: &[u8]) -> (r: Option<u32>)
    ensures
        r == obj_type_of(frame@),
{
    if frame.len() < NFGENMSG_LEN {
        return None;
    }
    match find_first(body(frame), NFTA_OBJ_TYPE) {
        Some(p) => read_u32_be(p),
        None => None,
    }
}

/// The frame describes a named object of the given type.
pub open spec fn is_object(frame: Seq<u8>, ty: u32) -> bool {
    let a = frame_attrs(frame);
    frame.len() >= 4 && u32_or(last_attr(a, NFTA_OBJ_TYPE, 0), 0) == ty && has_text(a, NFTA_OBJ_NAME)
}

/// The named counter that a frame describes.
pub open spec fn counter_of(frame: Seq<u8>) -> Option<NftCounterView> {
    let a = frame_attrs(frame);
    if is_object(frame, NFT_OBJECT_COUNTER) {
        Some(
            NftCounterView {
                table: attr_text(a, NFTA_OBJ_TABLE),
                name: attr_text(a, NFTA_OBJ_NAME),
                bytes: u64_or(last_nested(a, NFTA_OBJ_DATA, NFTA_COUNTER_BYTES, 0), 0),
                packets: u64_or(last_nested(a, NFTA_OBJ_DATA, NFTA_COUNTER_PACKETS, 0), 0),
            },
        )
    } else {
        None
    }
}

/// Parses one `NFT_MSG_GETOBJ` frame as a named counter object.
pub fn parse_counter(frame: &[u8]) -> (r: Option<NftCounter>)
    ensures
        opt_view(r) == counter_of(frame@),
{
    if frame.len() < NFGENMSG_LEN {
        return None;
    }
    let buf = body(frame);
    let name = read_text(buf, NFTA_OBJ_NAME);
    if read_u32_or(buf, NFTA_OBJ_TYPE, 0) != NFT_OBJECT_COUNTER || name.as_str().is_empty() {
        return None;
    }
    Some(
        NftCounter {
            table: read_text(buf, NFTA_OBJ_TABLE),
            name,
            bytes: read_nested_u64_or(buf, NFTA_OBJ_DATA, NFTA_COUNTER_BYTES, 0),
            packets: read_nested_u64_or(buf, NFTA_OBJ_DATA, NFTA_COUNTER_PACKETS, 0),
        },
    )
}

/// The named quota that a frame describes.
pub open spec fn quota_of(frame: Seq<u8>) -> Option<NftQuotaView> {
    let a = frame_attrs(frame);
    if is_object(frame, NFT_OBJECT_QUOTA) {
        Some(
            NftQuotaView {
                table: attr_text(a, NFTA_OBJ_TABLE),
                name: attr_text(a, NFTA_OBJ_NAME),
                bytes_ceiling: u64_or(last_nested(a, NFTA_OBJ_DATA, NFTA_QUOTA_BYTES, 0), 0),
                bytes_consumed: u64_or(last_nested(a, NFTA_OBJ_DATA, NFTA_QUOTA_CONSUMED, 0), 0),
                depleted: u32_or(last_nested(a, NFTA_OBJ_DATA, NFTA_QUOTA_FLAGS, 0), 0)
                    & NFT_QUOTA_F_DEPLETED != 0,
            },
        )
    } else {
        None
    }
}

/// Parses one `NFT_MSG_GETOBJ` frame as a named quota object.
pub fn parse_quota(frame: &[u8]) -> (r: Option<NftQuota>)
    ensures
        opt_view(r) == quota_of(frame@),
{
    if frame.len() < NFGENMSG_LEN {
        return None;
    }
    let buf = body(frame);
    let name = read_text(buf, NFTA_OBJ_NAME);
    if read_u32_or(buf, NFTA_OBJ_TYPE, 0) != NFT_OBJECT_QUOTA || name.as_str().is_empty() {
        return None;
    }
    Some(
        NftQuota {
            table: read_text(buf, NFTA_OBJ_TABLE),
            name,
            bytes_ceiling: read_nested_u64_or(buf, NFTA_OBJ_DATA, NFTA_QUOTA_BYTES, 0),
            bytes_consumed: read_nested_u64_or(buf, NFTA_OBJ_DATA, NFTA_QUOTA_CONSUMED, 0),
            depleted: read_nested_u32_or(buf, NFTA_OBJ_DATA, NFTA_QUOTA_FLAGS, 0)
                & NFT_QUOTA_F_DEPLETED != 0,
        },
    )
}

/// The named limit that a frame describes.
pub open spec fn limit_of(frame: Seq<u8>) -> Option<NftLimitView> {
    let a = frame_attrs(frame);
    if is_object(frame, NFT_OBJECT_LIMIT) {
        Some(
            NftLimitView {
                table: attr_text(a, NFTA_OBJ_TABLE),
                name: attr_text(a, NFTA_OBJ_NAME),
                rate: u64_or(last_nested(a, NFTA_OBJ_DATA, NFTA_LIMIT_RATE, 0), 0),
                unit_secs: u64_or(last_nested(a, NFTA_OBJ_DATA, NFTA_LIMIT_UNIT, 0), 1),
                burst: u32_or(last_nested(a, NFTA_OBJ_DATA, NFTA_LIMIT_BURST, 0), 0),
                limit_type: limit_type_text(
                    u32_or(last_nested(a, NFTA_OBJ_DATA, NFTA_LIMIT_TYPE, 0), 0),
                ),
            },
        )
    } else {
        None
    }
}

/// Parses one `NFT_MSG_GETOBJ` frame as a named limit object.
pub fn parse_limit(frame: &[u8]) -> (r: Option<NftLimit>)
    ensures
        opt_view(r) == limit_of(frame@),
{
    if frame.len() < NFGENMSG_LEN {
        return None;
    }
    let buf = body(frame);
    let name = read_text(buf, NFTA_OBJ_NAME);
    if read_u32_or(buf, NFTA_OBJ_TYPE, 0) != NFT_OBJECT_LIMIT || name.as_str().is_empty() {
        return None;
    }
    let limit_type: u32 = read_nested_u32_or(buf, NFTA_OBJ_DATA, NFTA_LIMIT_TYPE, 0);
    Some(
        NftLimit {
            table: read_text(buf, NFTA_OBJ_TABLE),
            name,
            rate: read_nested_u64_or(buf, NFTA_OBJ_DATA, NFTA_LIMIT_RATE, 0),
            unit_secs: read_nested_u64_or(buf, NFTA_OBJ_DATA, NFTA_LIMIT_UNIT, 1),
            burst: read_nested_u32_or(buf, NFTA_OBJ_DATA, NFTA_LIMIT_BURST, 0),
            limit_type: limit_type_label(limit_type).to_owned(),
        },
    )
}

/// The size that the descriptions of a set give: the first that is not zero.
pub open spec fn described_size(a: Seq<Attr>) -> u32
    decreases a.len(),
{
    if a.len() == 0 {
        0
    } else {
        let before = described_size(a.drop_last());
        if a.last().0 == NFTA_SET_DESC && before == 0 {
            u32_or(last_attr(attrs(a.last().1), NFTA_SET_DESC_SIZE, 0), 0)
        } else {
            before
        }
    }
}

/// The element count of a set: that of `NFTA_SET_COUNT`.  The size in
/// `NFTA_SET_DESC` stands in only where there is no `NFTA_SET_COUNT`.
pub open spec fn set_count(a: Seq<Attr>) -> u32 {
    match last_attr(a, NFTA_SET_COUNT, 0) {
        Some(p) => u32_or(Some(p), 0),
        None => described_size(a),
    }
}

/// The named set that a frame describes.
pub open spec fn set_of(frame: Seq<u8>) -> Option<NftSetView> {
    let a = frame_attrs(frame);
    if frame.len() < 4 || u32_or(last_attr(a, NFTA_SET_FLAGS, 0), 0) & NFT_SET_ANONYMOUS != 0
        || !has_text(a, NFTA_SET_NAME) {
        None
    } else {
        Some(
            NftSetView {
                table: attr_text(a, NFTA_SET_TABLE),
                name: attr_text(a, NFTA_SET_NAME),
                key_type: key_type_text(u32_or(last_attr(a, NFTA_SET_KEY_TYPE, 0), 0)),
                element_count: set_count(a),
            },
        )
    }
}

fn read_described_size(buf: &[u8]) -> (r: u32)
    ensures
        r == described_size(attrs(buf@)),
{
    let mut it = parse_attrs(buf);
    let mut size: u32 = 0;
    let ghost mut done: Seq<Attr> = seq![];
    proof {
        assert(done + it.remaining() =~= attrs(buf@));
    }
    loop
        invariant
            done + it.remaining() == attrs(buf@),
            size == described_size(done),
        ensures
            size == described_size(attrs(buf@)),
        decreases it.remaining().len(),
    {
        let ghost before = it.remaining();
        match it.next() {
            Some(nla) => {
                proof {
                    assert(done.push(nla.attr()) + it.remaining() =~= done + before);
                    assert(done.push(nla.attr()).drop_last() =~= done);
                    done = done.push(nla.attr());
                }
                if nla.ty == NFTA_SET_DESC && size == 0 {
                    size = read_u32_or(nla.payload, NFTA_SET_DESC_SIZE, 0);
                }
            },
            None => {
                proof {
                    assert(done + it.remaining() =~= done);
                }
                break;
            },
        }
    }
    size
}

fn read_set_count(buf: &[u8]) -> (r: u32)
    ensures
        r == set_count(attrs(buf@)),
{
    match find_last(buf, NFTA_SET_COUNT, 0) {
        Some(p) => read_u32_be(p).unwrap_or(0),
        None => read_described_size(buf),
    }
}

/// Parses one `NFT_MSG_GETSET` reply frame; `None` for anonymous sets.
pub fn parse_set_frame(frame: &[u8]) -> (r: Option<NftSet>)
    ensures
        opt_view(r) == set_of(frame@),
{
    if frame.len() < NFGENMSG_LEN {
        return None;
    }
    let buf = body(frame);
    let name = read_text(buf, NFTA_SET_NAME);
    if read_u32_or(buf, NFTA_SET_FLAGS, 0) & NFT_SET_ANONYMOUS != 0 || name.as_str().is_empty() {
        return None;
    }
    let key_type: u32 = read_u32_or(buf, NFTA_SET_KEY_TYPE, 0);
    Some(
        NftSet {
            table: read_text(buf, NFTA_SET_TABLE),
            name,
            key_type: key_type_label(key_type).to_owned(),
            element_count: read_set_count(buf),
        },
    )
}

/// The ruleset generation that a frame carries.
pub open spec fn generation_of(frame: Seq<u8>) -> Option<u32> {
    if frame.len() < 4 {
        None
    } else {
        opt_u32(first_attr(frame_attrs(frame), NFTA_GEN_ID))
    }
}

/// Parses one `NFT_MSG_GETGEN` reply frame.
pub fn parse_gen_frame(frame: &[u8]) -> (r: Option<u32>)
    ensures
        r == generation_of(frame@),
{
    if frame.len() < NFGENMSG_LEN {
        return None;
    }
    match find_first(body(frame), NFTA_GEN_ID) {
        Some(p) => read_u32_be(p),
        None => None,
    }
}

/// The flowtable that a frame describes.
pub open spec fn flowtable_of(frame: Seq<u8>) -> Option<NftFlowtableView> {
    let a = frame_attrs(frame);
    if frame.len() < 4 || !has_text(a, NFTA_FLOWTABLE_NAME) {
        None
    } else {
        Some(
            NftFlowtableView {
                table: attr_text(a, NFTA_FLOWTABLE_TABLE),
                name: attr_text(a, NFTA_FLOWTABLE_NAME),
                hook: match last_nested(a, NFTA_FLOWTABLE_HOOK, NFTA_FLOWTABLE_HOOK_NUM, 4) {
                    Some(p) => hook_text(u32_be(p)),
                    None => Seq::empty(),
                },
                priority: signed32(
                    u32_or(last_nested(a, NFTA_FLOWTABLE_HOOK, NFTA_FLOWTABLE_HOOK_PRIORITY, 4), 0),
                ),
                hw_offload: u32_or(last_attr(a, NFTA_FLOWTABLE_FLAGS, 0), 0)
                    & NFT_FLOWTABLE_HW_OFFLOAD != 0,
            },
        )
    }
}

/// Parses one `NFT_MSG_GETFLOWTABLE` reply frame.
pub fn parse_flowtable_frame(frame: &[u8]) -> (r: Option<NftFlowtable>)
    ensures
        opt_view(r) == flowtable_of(frame@),
{
    if frame.len() < NFGENMSG_LEN {
        return None;
    }
    let buf = body(frame);
    let name = read_text(buf, NFTA_FLOWTABLE_NAME);
    if name.as_str().is_empty() {
        return None;
    }
    Some(
        NftFlowtable {
            table: read_text(buf, NFTA_FLOWTABLE_TABLE),
            name,
            hook: read_hook(buf, NFTA_FLOWTABLE_HOOK, NFTA_FLOWTABLE_HOOK_NUM),
            priority: read_priority(buf, NFTA_FLOWTABLE_HOOK, NFTA_FLOWTABLE_HOOK_PRIORITY),
            hw_offload: read_u32_or(buf, NFTA_FLOWTABLE_FLAGS, 0) & NFT_FLOWTABLE_HW_OFFLOAD != 0,
        },
    )
}

// ---------------------------------------------------------------------------
// Samples
// ---------------------------------------------------------------------------

/// The samples of one table.
pub open spec fn table_samples(v: NftTableView) -> Seq<SampleView> {
    let labels = no_labels()
        .insert("table"@, v.name)
        .insert("family"@, v.family);
    seq![
        gauge_view(
            "nft_table_info"@,
            "Metadata gauge (always 1) for each nftables table."@,
            labels,
            whole(1),
        ),
    ]
}

pub open spec fn per_table() -> spec_fn(NftTableView) -> Seq<SampleView> {
    |v: NftTableView| table_samples(v)
}

fn push_tables(out: &mut Vec<MetricSample>, items: &[NftTable], limit: usize)
    requires
        limit <= items@.len(),
    ensures
        views(final(out)@) == views(old(out)@) + flat(
            model_views(items@.take(limit as int)),
            per_table(),
        ),
{
    let ghost start = views(out@);
    let mut i: usize = 0;
    proof {
        assert(model_views(items@.take(0)) =~= seq![]);
        assert(start + flat(model_views(items@.take(0)), per_table()) =~= start);
    }
    while i < limit
        invariant
            i <= limit <= items@.len(),
            views(out@) == start + flat(model_views(items@.take(i as int)), per_table()),
        decreases limit - i,
    {
        let v = &items[i];
        let ghost before = views(out@);
        let labels = Labels::new().with("table", v.name.as_str()).with("family", v.family.as_str());
        push_gauge(
            out,
            "nft_table_info",
            "Metadata gauge (always 1) for each nftables table.",
            &labels,
            GaugeValue::Whole(1),
        );
        proof {
            assert(views(out@) =~= before + table_samples(v@));
            let done = model_views(items@.take(i as int));
            let next = model_views(items@.take(i as int + 1));
            assert(next.drop_last() =~= done);
            assert(next.last() == v@);
            assert(start + (flat(done, per_table()) + table_samples(v@)) =~= before + table_samples(v@));
        }
        i += 1;
    }
}

/// The samples of one chain.
pub open spec fn chain_samples(v: NftChainView) -> Seq<SampleView> {
    let labels = no_labels()
        .insert("table"@, v.table)
        .insert("chain"@, v.chain)
        .insert("type"@, v.chain_type)
        .insert("hook"@, v.hook)
        .insert("priority"@, signed_dec(v.priority as int))
        .insert("policy"@, v.policy);
    seq![
        gauge_view(
            "nft_chain_info"@,
            "Metadata gauge (always 1) for each nftables chain."@,
            labels,
            whole(1),
        ),
    ]
}

pub open spec fn per_chain() -> spec_fn(NftChainView) -> Seq<SampleView> {
    |v: NftChainView| chain_samples(v)
}

fn push_chains(out: &mut Vec<MetricSample>, items: &[NftChain], limit: usize)
    requires
        limit <= items@.len(),
    ensures
        views(final(out)@) == views(old(out)@) + flat(
            model_views(items@.take(limit as int)),
            per_chain(),
        ),
{
    let ghost start = views(out@);
    let mut i: usize = 0;
    proof {
        assert(model_views(items@.take(0)) =~= seq![]);
        assert(start + flat(model_views(items@.take(0)), per_chain()) =~= start);
    }
    while i < limit
        invariant
            i <= limit <= items@.len(),
            views(out@) == start + flat(model_views(items@.take(i as int)), per_chain()),
        decreases limit - i,
    {
        let v = &items[i];
        let ghost before = views(out@);
        let labels = Labels::new().with("table", v.table.as_str()).with("chain", v.chain.as_str()).with("type", v.chain_type.as_str()).with("hook", v.hook.as_str()).with("priority", signed_dec_text(v.priority as i64).as_str()).with("policy", v.policy.as_str());
        push_gauge(
            out,
            "nft_chain_info",
            "Metadata gauge (always 1) for each nftables chain.",
            &labels,
            GaugeValue::Whole(1),
        );
        proof {
            assert(views(out@) =~= before + chain_samples(v@));
            let done = model_views(items@.take(i as int));
            let next = model_views(items@.take(i as int + 1));
            assert(next.drop_last() =~= done);
            assert(next.last() == v@);
            assert(start + (flat(done, per_chain()) + chain_samples(v@)) =~= before + chain_samples(v@));
        }
        i += 1;
    }
}

/// The samples of one rule counter.
pub open spec fn rule_samples(v: NftRuleCounterView) -> Seq<SampleView> {
    let labels = no_labels()
        .insert("table"@, v.table)
        .insert("chain"@, v.chain)
        .insert("comment"@, v.comment);
    seq![
        counter_view(
            "nft_rule_counter_bytes_total"@,
            "Total bytes matched by nftables rules carrying a counter expression."@,
            labels,
            v.bytes,
        ),
        counter_view(
            "nft_rule_counter_packets_total"@,
            "Total packets matched by nftables rules carrying a counter expression."@,
            labels,
            v.packets,
        ),
    ]
}

pub open spec fn per_rule() -> spec_fn(NftRuleCounterView) -> Seq<SampleView> {
    |v: NftRuleCounterView| rule_samples(v)
}

fn push_rules(out: &mut Vec<MetricSample>, items: &[NftRuleCounter], limit: usize)
    requires
        limit <= items@.len(),
    ensures
        views(final(out)@) == views(old(out)@) + flat(
            model_views(items@.take(limit as int)),
            per_rule(),
        ),
{
    let ghost start = views(out@);
    let mut i: usize = 0;
    proof {
        assert(model_views(items@.take(0)) =~= seq![]);
        assert(start + flat(model_views(items@.take(0)), per_rule()) =~= start);
    }
    while i < limit
        invariant
            i <= limit <= items@.len(),
            views(out@) == start + flat(model_views(items@.take(i as int)), per_rule()),
        decreases limit - i,
    {
        let v = &items[i];
        let ghost before = views(out@);
        let labels = Labels::new().with("table", v.table.as_str()).with("chain", v.chain.as_str()).with("comment", v.comment.as_str());
        push_counter(
            out,
            "nft_rule_counter_bytes_total",
            "Total bytes matched by nftables rules carrying a counter expression.",
            &labels,
            v.bytes,
        );
        push_counter(
            out,
            "nft_rule_counter_packets_total",
            "Total packets matched by nftables rules carrying a counter expression.",
            &labels,
            v.packets,
        );
        proof {
            assert(views(out@) =~= before + rule_samples(v@));
            let done = model_views(items@.take(i as int));
            let next = model_views(items@.take(i as int + 1));
            assert(next.drop_last() =~= done);
            assert(next.last() == v@);
            assert(start + (flat(done, per_rule()) + rule_samples(v@)) =~= before + rule_samples(v@));
        }
        i += 1;
    }
}

/// The samples of one named counter.
pub open spec fn counter_samples(v: NftCounterView) -> Seq<SampleView> {
    let labels = no_labels()
        .insert("table"@, v.table)
        .insert("name"@, v.name);
    seq![
        counter_view(
            "nft_named_counter_bytes_total"@,
            "Total bytes counted by a named nftables counter object."@,
            labels,
            v.bytes,
        ),
        counter_view(
            "nft_named_counter_packets_total"@,
            "Total packets counted by a named nftables counter object."@,
            labels,
            v.packets,
        ),
    ]
}

pub open spec fn per_counter() -> spec_fn(NftCounterView) -> Seq<SampleView> {
    |v: NftCounterView| counter_samples(v)
}

fn push_counters(out: &mut Vec<MetricSample>, items: &[NftCounter], limit: usize)
    requires
        limit <= items@.len(),
    ensures
        views(final(out)@) == views(old(out)@) + flat(
            model_views(items@.take(limit as int)),
            per_counter(),
        ),
{
    let ghost start = views(out@);
    let mut i: usize = 0;
    proof {
        assert(model_views(items@.take(0)) =~= seq![]);
        assert(start + flat(model_views(items@.take(0)), per_counter()) =~= start);
    }
    while i < limit
        invariant
            i <= limit <= items@.len(),
            views(out@) == start + flat(model_views(items@.take(i as int)), per_counter()),
        decreases limit - i,
    {
        let v = &items[i];
        let ghost before = views(out@);
        let labels = Labels::new().with("table", v.table.as_str()).with("name", v.name.as_str());
        push_counter(
            out,
            "nft_named_counter_bytes_total",
            "Total bytes counted by a named nftables counter object.",
            &labels,
            v.bytes,
        );
        push_counter(
            out,
            "nft_named_counter_packets_total",
            "Total packets counted by a named nftables counter object.",
            &labels,
            v.packets,
        );
        proof {
            assert(views(out@) =~= before + counter_samples(v@));
            let done = model_views(items@.take(i as int));
            let next = model_views(items@.take(i as int + 1));
            assert(next.drop_last() =~= done);
            assert(next.last() == v@);
            assert(start + (flat(done, per_counter()) + counter_samples(v@)) =~= before + counter_samples(v@));
        }
        i += 1;
    }
}

/// The samples of one named set.
pub open spec fn set_samples(v: NftSetView) -> Seq<SampleView> {
    let labels = no_labels()
        .insert("table"@, v.table)
        .insert("name"@, v.name)
        .insert("type"@, v.key_type);
    seq![
        gauge_view(
            "nft_set_elements"@,
            "Current number of elements in a named nftables set or map."@,
            labels,
            whole(v.element_count as int),
        ),
    ]
}

pub open spec fn per_set() -> spec_fn(NftSetView) -> Seq<SampleView> {
    |v: NftSetView| set_samples(v)
}

fn push_sets(out: &mut Vec<MetricSample>, items: &[NftSet], limit: usize)
    requires
        limit <= items@.len(),
    ensures
        views(final(out)@) == views(old(out)@) + flat(
            model_views(items@.take(limit as int)),
            per_set(),
        ),
{
    let ghost start = views(out@);
    let mut i: usize = 0;
    proof {
        assert(model_views(items@.take(0)) =~= seq![]);
        assert(start + flat(model_views(items@.take(0)), per_set()) =~= start);
    }
    while i < limit
        invariant
            i <= limit <= items@.len(),
            views(out@) == start + flat(model_views(items@.take(i as int)), per_set()),
        decreases limit - i,
    {
        let v = &items[i];
        let ghost before = views(out@);
        let labels = Labels::new().with("table", v.table.as_str()).with("name", v.name.as_str()).with("type", v.key_type.as_str());
        push_gauge(
            out,
            "nft_set_elements",
            "Current number of elements in a named nftables set or map.",
            &labels,
            GaugeValue::Whole(v.element_count as i128),
        );
        proof {
            assert(views(out@) =~= before + set_samples(v@));
            let done = model_views(items@.take(i as int));
            let next = model_views(items@.take(i as int + 1));
            assert(next.drop_last() =~= done);
            assert(next.last() == v@);
            assert(start + (flat(done, per_set()) + set_samples(v@)) =~= before + set_samples(v@));
        }
        i += 1;
    }
}

/// The samples of one named quota.
pub open spec fn quota_samples(v: NftQuotaView) -> Seq<SampleView> {
    let labels = no_labels()
        .insert("table"@, v.table)
        .insert("name"@, v.name);
    seq![
        gauge_view(
            "nft_named_quota_bytes_total"@,
            "Configured quota ceiling in bytes for a named nftables quota object."@,
            labels,
            whole(v.bytes_ceiling as int),
        ),
        gauge_view(
            "nft_named_quota_consumed_bytes_total"@,
            "Bytes consumed against the quota ceiling for a named nftables quota object."@,
            labels,
            whole(v.bytes_consumed as int),
        ),
        gauge_view(
            "nft_named_quota_depleted"@,
            "1 when the named quota object is depleted, 0 otherwise."@,
            labels,
            flag(v.depleted),
        ),
    ]
}

pub open spec fn per_quota() -> spec_fn(NftQuotaView) -> Seq<SampleView> {
    |v: NftQuotaView| quota_samples(v)
}

fn push_quotas(out: &mut Vec<MetricSample>, items: &[NftQuota], limit: usize)
    requires
        limit <= items@.len(),
    ensures
        views(final(out)@) == views(old(out)@) + flat(
            model_views(items@.take(limit as int)),
            per_quota(),
        ),
{
    let ghost start = views(out@);
    let mut i: usize = 0;
    proof {
        assert(model_views(items@.take(0)) =~= seq![]);
        assert(start + flat(model_views(items@.take(0)), per_quota()) =~= start);
    }
    while i < limit
        invariant
            i <= limit <= items@.len(),
            views(out@) == start + flat(model_views(items@.take(i as int)), per_quota()),
        decreases limit - i,
    {
        let v = &items[i];
        let ghost before = views(out@);
        let labels = Labels::new().with("table", v.table.as_str()).with("name", v.name.as_str());
        push_gauge(
            out,
            "nft_named_quota_bytes_total",
            "Configured quota ceiling in bytes for a named nftables quota object.",
            &labels,
            GaugeValue::Whole(v.bytes_ceiling as i128),
        );
        push_gauge(
            out,
            "nft_named_quota_consumed_bytes_total",
            "Bytes consumed against the quota ceiling for a named nftables quota object.",
            &labels,
            GaugeValue::Whole(v.bytes_consumed as i128),
        );
        push_gauge(
            out,
            "nft_named_quota_depleted",
            "1 when the named quota object is depleted, 0 otherwise.",
            &labels,
            flag_value(v.depleted),
        );
        proof {
            assert(views(out@) =~= before + quota_samples(v@));
            let done = model_views(items@.take(i as int));
            let next = model_views(items@.take(i as int + 1));
            assert(next.drop_last() =~= done);
            assert(next.last() == v@);
            assert(start + (flat(done, per_quota()) + quota_samples(v@)) =~= before + quota_samples(v@));
        }
        i += 1;
    }
}

/// The samples of one named limit.
pub open spec fn limit_samples(v: NftLimitView) -> Seq<SampleView> {
    let labels = no_labels()
        .insert("table"@, v.table)
        .insert("name"@, v.name)
        .insert("type"@, v.limit_type);
    seq![
        gauge_view(
            "nft_named_limit_rate"@,
            "Configured rate for a named nftables limit object."@,
            labels,
            whole(v.rate as int),
        ),
        gauge_view(
            "nft_named_limit_burst"@,
            "Configured burst allowance for a named nftables limit object."@,
            labels,
            whole(v.burst as int),
        ),
    ]
}

pub open spec fn per_limit() -> spec_fn(NftLimitView) -> Seq<SampleView> {
    |v: NftLimitView| limit_samples(v)
}

fn push_limits(out: &mut Vec<MetricSample>, items: &[NftLimit], limit: usize)
    requires
        limit <= items@.len(),
    ensures
        views(final(out)@) == views(old(out)@) + flat(
            model_views(items@.take(limit as int)),
            per_limit(),
        ),
{
    let ghost start = views(out@);
    let mut i: usize = 0;
    proof {
        assert(model_views(items@.take(0)) =~= seq![]);
        assert(start + flat(model_views(items@.take(0)), per_limit()) =~= start);
    }
    while i < limit
        invariant
            i <= limit <= items@.len(),
            views(out@) == start + flat(model_views(items@.take(i as int)), per_limit()),
        decreases limit - i,
    {
        let v = &items[i];
        let ghost before = views(out@);
        let labels = Labels::new().with("table", v.table.as_str()).with("name", v.name.as_str()).with("type", v.limit_type.as_str());
        push_gauge(
            out,
            "nft_named_limit_rate",
            "Configured rate for a named nftables limit object.",
            &labels,
            GaugeValue::Whole(v.rate as i128),
        );
        push_gauge(
            out,
            "nft_named_limit_burst",
            "Configured burst allowance for a named nftables limit object.",
            &labels,
            GaugeValue::Whole(v.burst as i128),
        );
        proof {
            assert(views(out@) =~= before + limit_samples(v@));
            let done = model_views(items@.take(i as int));
            let next = model_views(items@.take(i as int + 1));
            assert(next.drop_last() =~= done);
            assert(next.last() == v@);
            assert(start + (flat(done, per_limit()) + limit_samples(v@)) =~= before + limit_samples(v@));
        }
        i += 1;
    }
}

/// The samples of one flowtable.
pub open spec fn flowtable_samples(v: NftFlowtableView) -> Seq<SampleView> {
    let labels = no_labels()
        .insert("table"@, v.table)
        .insert("name"@, v.name)
        .insert("hook"@, v.hook)
        .insert("priority"@, signed_dec(v.priority as int))
        .insert("hw_offload"@, if v.hw_offload { "1"@ } else { "0"@ });
    seq![
        gauge_view(
            "nft_flowtable_info"@,
            "Metadata gauge (always 1) for each nftables flowtable."@,
            labels,
            whole(1),
        ),
    ]
}

pub open spec fn per_flowtable() -> spec_fn(NftFlowtableView) -> Seq<SampleView> {
    |v: NftFlowtableView| flowtable_samples(v)
}

fn push_flowtables(out: &mut Vec<MetricSample>, items: &[NftFlowtable], limit: usize)
    requires
        limit <= items@.len(),
    ensures
        views(final(out)@) == views(old(out)@) + flat(
            model_views(items@.take(limit as int)),
            per_flowtable(),
        ),
{
    let ghost start = views(out@);
    let mut i: usize = 0;
    proof {
        assert(model_views(items@.take(0)) =~= seq![]);
        assert(start + flat(model_views(items@.take(0)), per_flowtable()) =~= start);
    }
    while i < limit
        invariant
            i <= limit <= items@.len(),
            views(out@) == start + flat(model_views(items@.take(i as int)), per_flowtable()),
        decreases limit - i,
    {
        let v = &items[i];
        let ghost before = views(out@);
        let labels = Labels::new().with("table", v.table.as_str()).with("name", v.name.as_str()).with("hook", v.hook.as_str()).with("priority", signed_dec_text(v.priority as i64).as_str()).with("hw_offload", if v.hw_offload { "1" } else { "0" });
        push_gauge(
            out,
            "nft_flowtable_info",
            "Metadata gauge (always 1) for each nftables flowtable.",
            &labels,
            GaugeValue::Whole(1),
        );
        proof {
            assert(views(out@) =~= before + flowtable_samples(v@));
            let done = model_views(items@.take(i as int));
            let next = model_views(items@.take(i as int + 1));
            assert(next.drop_last() =~= done);
            assert(next.last() == v@);
            assert(start + (flat(done, per_flowtable()) + flowtable_samples(v@)) =~= before + flowtable_samples(v@));
        }
        i += 1;
    }
}

/// The rules whose counters are emitted: as many as the cap allows, from the front.
pub open spec fn emitted_rules(rules: Seq<NftRuleCounterView>) -> Seq<NftRuleCounterView> {
    if rules.len() <= RULE_COUNTER_MAX_SERIES {
        rules
    } else {
        rules.take(RULE_COUNTER_MAX_SERIES as int)
    }
}

/// The report on rules beyond the cap: one counter with their number, if any.
pub open spec fn overflow_samples(rules: Seq<NftRuleCounterView>) -> Seq<SampleView> {
    if rules.len() <= RULE_COUNTER_MAX_SERIES {
        seq![]
    } else {
        seq![
            counter_view(
                "nft_scrape_collector_error_total"@,
                "Total errors during collection partitioned by collector and reason."@,
                no_labels().insert("collector"@, "nftables"@).insert("reason"@, "cardinality_overflow"@),
                (rules.len() - RULE_COUNTER_MAX_SERIES) as u64,
            ),
        ]
    }
}

/// The ruleset generation sample.
pub open spec fn generation_sample(generation: u32) -> SampleView {
    gauge_view(
        "nft_ruleset_generation"@,
        "Current nftables ruleset generation ID (NFTA_GEN_ID)."@,
        no_labels(),
        whole(generation as int),
    )
}

/// All samples of the nftables collector, in order.
pub open spec fn nft_samples(
    tables: Seq<NftTableView>,
    chains: Seq<NftChainView>,
    rules: Seq<NftRuleCounterView>,
    counters: Seq<NftCounterView>,
    sets: Seq<NftSetView>,
    quotas: Seq<NftQuotaView>,
    limits: Seq<NftLimitView>,
    generation: u32,
    flowtables: Seq<NftFlowtableView>,
) -> Seq<SampleView> {
    flat(tables, per_table()) + flat(chains, per_chain()) + flat(emitted_rules(rules), per_rule())
        + overflow_samples(rules) + flat(counters, per_counter()) + flat(sets, per_set()) + flat(
        quotas,
        per_quota(),
    ) + flat(limits, per_limit()) + seq![generation_sample(generation)] + flat(
        flowtables,
        per_flowtable(),
    )
}

/// Builds the full metric surface from parsed read models.
///
/// `anonymous_rule_count` is the number of rules that were skipped for want of
/// a comment or a counter; it is informational and changes nothing.
pub fn build_metrics(
    tables: &[NftTable],
    chains: &[NftChain],
    rule_counters: &[NftRuleCounter],
    named_counters: &[NftCounter],
    sets: &[NftSet],
    quotas: &[NftQuota],
    limits: &[NftLimit],
    generation: u32,
    flowtables: &[NftFlowtable],
    anonymous_rule_count: u64,
) -> (r: Vec<MetricSample>)
    ensures
        views(r@) == nft_samples(
            model_views(tables@),
            model_views(chains@),
            model_views(rule_counters@),
            model_views(named_counters@),
            model_views(sets@),
            model_views(quotas@),
            model_views(limits@),
            generation,
            model_views(flowtables@),
        ),
{
    let mut out: Vec<MetricSample> = Vec::new();
    proof {
        assert(tables@.take(tables@.len() as int) =~= tables@);
        assert(chains@.take(chains@.len() as int) =~= chains@);
        assert(named_counters@.take(named_counters@.len() as int) =~= named_counters@);
        assert(sets@.take(sets@.len() as int) =~= sets@);
        assert(quotas@.take(quotas@.len() as int) =~= quotas@);
        assert(limits@.take(limits@.len() as int) =~= limits@);
        assert(flowtables@.take(flowtables@.len() as int) =~= flowtables@);
    }
    push_tables(&mut out, tables, tables.len());
    proof {
        assert(views(out@) =~= flat(model_views(tables@), per_table()));
    }
    push_chains(&mut out, chains, chains.len());
    let rules: usize = if rule_counters.len() <= RULE_COUNTER_MAX_SERIES {
        rule_counters.len()
    } else {
        RULE_COUNTER_MAX_SERIES
    };
    push_rules(&mut out, rule_counters, rules);
    proof {
        assert(model_views(rule_counters@.take(rules as int)) =~= emitted_rules(
            model_views(rule_counters@),
        ));
    }
    let ghost capped = views(out@);
    if rule_counters.len() > RULE_COUNTER_MAX_SERIES {
        let labels = Labels::new().with("collector", "nftables").with(
            "reason",
            "cardinality_overflow",
        );
        push_counter(
            &mut out,
            "nft_scrape_collector_error_total",
            "Total errors during collection partitioned by collector and reason.",
            &labels,
            (rule_counters.len() - RULE_COUNTER_MAX_SERIES) as u64,
        );
    }
    proof {
        assert(views(out@) =~= capped + overflow_samples(model_views(rule_counters@)));
    }
    push_counters(&mut out, named_counters, named_counters.len());
    push_sets(&mut out, sets, sets.len());
    push_quotas(&mut out, quotas, quotas.len());
    push_limits(&mut out, limits, limits.len());
    let ghost scalar = views(out@);
    push_gauge(
        &mut out,
        "nft_ruleset_generation",
        "Current nftables ruleset generation ID (NFTA_GEN_ID).",
        &Labels::new(),
        GaugeValue::Whole(generation as i128),
    );
    proof {
        assert(views(out@) =~= scalar + seq![generation_sample(generation)]);
    }
    push_flowtables(&mut out, flowtables, flowtables.len());
    out
}

// ---------------------------------------------------------------------------
// Dumps
// ---------------------------------------------------------------------------

pub open spec fn table_parser() -> spec_fn(Seq<u8>) -> Option<NftTableView> {
    |frame: Seq<u8>| table_of(frame)
}

/// Parses the frames of a dump; frames that describe no table are left out.
pub fn parse_tables(frames: &[Vec<u8>]) -> (r: Vec<NftTable>)
    ensures
        model_views(r@) == parsed(frames@, table_parser()),
{
    let mut r: Vec<NftTable> = Vec::new();
    let mut i: usize = 0;
    proof {
        assert(model_views(r@) =~= parsed(frames@.take(0), table_parser()));
    }
    while i < frames.len()
        invariant
            i <= frames.len(),
            model_views(r@) == parsed(frames@.take(i as int), table_parser()),
        decreases frames.len() - i,
    {
        let ghost done = r@;
        proof {
            assert(frames@.take(i as int + 1).drop_last() =~= frames@.take(i as int));
        }
        if let Some(v) = parse_table_frame(frames[i].as_slice()) {
            r.push(v);
            proof {
                assert(model_views(r@) =~= model_views(done).push(v@));
            }
        }
        i += 1;
    }
    proof {
        assert(frames@.take(i as int) =~= frames@);
    }
    r
}

pub open spec fn chain_parser() -> spec_fn(Seq<u8>) -> Option<NftChainView> {
    |frame: Seq<u8>| chain_of(frame)
}

/// Parses the frames of a dump; frames that describe no chain are left out.
pub fn parse_chains(frames: &[Vec<u8>]) -> (r: Vec<NftChain>)
    ensures
        model_views(r@) == parsed(frames@, chain_parser()),
{
    let mut r: Vec<NftChain> = Vec::new();
    let mut i: usize = 0;
    proof {
        assert(model_views(r@) =~= parsed(frames@.take(0), chain_parser()));
    }
    while i < frames.len()
        invariant
            i <= frames.len(),
            model_views(r@) == parsed(frames@.take(i as int), chain_parser()),
        decreases frames.len() - i,
    {
        let ghost done = r@;
        proof {
            assert(frames@.take(i as int + 1).drop_last() =~= frames@.take(i as int));
        }
        if let Some(v) = parse_chain_frame(frames[i].as_slice()) {
            r.push(v);
            proof {
                assert(model_views(r@) =~= model_views(done).push(v@));
            }
        }
        i += 1;
    }
    proof {
        assert(frames@.take(i as int) =~= frames@);
    }
    r
}

pub open spec fn rule_parser() -> spec_fn(Seq<u8>) -> Option<NftRuleCounterView> {
    |frame: Seq<u8>| rule_of(frame)
}

/// Parses the frames of a dump; frames that describe no rule counter are left out.
pub fn parse_rules(frames: &[Vec<u8>]) -> (r: Vec<NftRuleCounter>)
    ensures
        model_views(r@) == parsed(frames@, rule_parser()),
{
    let mut r: Vec<NftRuleCounter> = Vec::new();
    let mut i: usize = 0;
    proof {
        assert(model_views(r@) =~= parsed(frames@.take(0), rule_parser()));
    }
    while i < frames.len()
        invariant
            i <= frames.len(),
            model_views(r@) == parsed(frames@.take(i as int), rule_parser()),
        decreases frames.len() - i,
    {
        let ghost done = r@;
        proof {
            assert(frames@.take(i as int + 1).drop_last() =~= frames@.take(i as int));
        }
        if let Some(v) = parse_rule_frame(frames[i].as_slice()) {
            r.push(v);
            proof {
                assert(model_views(r@) =~= model_views(done).push(v@));
            }
        }
        i += 1;
    }
    proof {
        assert(frames@.take(i as int) =~= frames@);
    }
    r
}

pub open spec fn counter_parser() -> spec_fn(Seq<u8>) -> Option<NftCounterView> {
    |frame: Seq<u8>| counter_of(frame)
}

/// Parses the frames of a dump; frames that describe no counter are left out.
pub fn parse_counters(frames: &[Vec<u8>]) -> (r: Vec<NftCounter>)
    ensures
        model_views(r@) == parsed(frames@, counter_parser()),
{
    let mut r: Vec<NftCounter> = Vec::new();
    let mut i: usize = 0;
    proof {
        assert(model_views(r@) =~= parsed(frames@.take(0), counter_parser()));
    }
    while i < frames.len()
        invariant
            i <= frames.len(),
            model_views(r@) == parsed(frames@.take(i as int), counter_parser()),
        decreases frames.len() - i,
    {
        let ghost done = r@;
        proof {
            assert(frames@.take(i as int + 1).drop_last() =~= frames@.take(i as int));
        }
        if let Some(v) = parse_counter(frames[i].as_slice()) {
            r.push(v);
            proof {
                assert(model_views(r@) =~= model_views(done).push(v@));
            }
        }
        i += 1;
    }
    proof {
        assert(frames@.take(i as int) =~= frames@);
    }
    r
}

pub open spec fn set_parser() -> spec_fn(Seq<u8>) -> Option<NftSetView> {
    |frame: Seq<u8>| set_of(frame)
}

/// Parses the frames of a dump; frames that describe no set are left out.
pub fn parse_sets(frames: &[Vec<u8>]) -> (r: Vec<NftSet>)
    ensures
        model_views(r@) == parsed(frames@, set_parser()),
{
    let mut r: Vec<NftSet> = Vec::new();
    let mut i: usize = 0;
    proof {
        assert(model_views(r@) =~= parsed(frames@.take(0), set_parser()));
    }
    while i < frames.len()
        invariant
            i <= frames.len(),
            model_views(r@) == parsed(frames@.take(i as int), set_parser()),
        decreases frames.len() - i,
    {
        let ghost done = r@;
        proof {
            assert(frames@.take(i as int + 1).drop_last() =~= frames@.take(i as int));
        }
        if let Some(v) = parse_set_frame(frames[i].as_slice()) {
            r.push(v);
            proof {
                assert(model_views(r@) =~= model_views(done).push(v@));
            }
        }
        i += 1;
    }
    proof {
        assert(frames@.take(i as int) =~= frames@);
    }
    r
}

pub open spec fn quota_parser() -> spec_fn(Seq<u8>) -> Option<NftQuotaView> {
    |frame: Seq<u8>| quota_of(frame)
}

/// Parses the frames of a dump; frames that describe no quota are left out.
pub fn parse_quotas(frames: &[Vec<u8>]) -> (r: Vec<NftQuota>)
    ensures
        model_views(r@) == parsed(frames@, quota_parser()),
{
    let mut r: Vec<NftQuota> = Vec::new();
    let mut i: usize = 0;
    proof {
        assert(model_views(r@) =~= parsed(frames@.take(0), quota_parser()));
    }
    while i < frames.len()
        invariant
            i <= frames.len(),
            model_views(r@) == parsed(frames@.take(i as int), quota_parser()),
        decreases frames.len() - i,
    {
        let ghost done = r@;
        proof {
            assert(frames@.take(i as int + 1).drop_last() =~= frames@.take(i as int));
        }
        if let Some(v) = parse_quota(frames[i].as_slice()) {
            r.push(v);
            proof {
                assert(model_views(r@) =~= model_views(done).push(v@));
            }
        }
        i += 1;
    }
    proof {
        assert(frames@.take(i as int) =~= frames@);
    }
    r
}

pub open spec fn limit_parser() -> spec_fn(Seq<u8>) -> Option<NftLimitView> {
    |frame: Seq<u8>| limit_of(frame)
}

/// Parses the frames of a dump; frames that describe no limit are left out.
pub fn parse_limits(frames: &[Vec<u8>]) -> (r: Vec<NftLimit>)
    ensures
        model_views(r@) == parsed(frames@, limit_parser()),
{
    let mut r: Vec<NftLimit> = Vec::new();
    let mut i: usize = 0;
    proof {
        assert(model_views(r@) =~= parsed(frames@.take(0), limit_parser()));
    }
    while i < frames.len()
        invariant
            i <= frames.len(),
            model_views(r@) == parsed(frames@.take(i as int), limit_parser()),
        decreases frames.len() - i,
    {
        let ghost done = r@;
        proof {
            assert(frames@.take(i as int + 1).drop_last() =~= frames@.take(i as int));
        }
        if let Some(v) = parse_limit(frames[i].as_slice()) {
            r.push(v);
            proof {
                assert(model_views(r@) =~= model_views(done).push(v@));
            }
        }
        i += 1;
    }
    proof {
        assert(frames@.take(i as int) =~= frames@);
    }
    r
}

pub open spec fn flowtable_parser() -> spec_fn(Seq<u8>) -> Option<NftFlowtableView> {
    |frame: Seq<u8>| flowtable_of(frame)
}

/// Parses the frames of a dump; frames that describe no flowtable are left out.
pub fn parse_flowtables(frames: &[Vec<u8>]) -> (r: Vec<NftFlowtable>)
    ensures
        model_views(r@) == parsed(frames@, flowtable_parser()),
{
    let mut r: Vec<NftFlowtable> = Vec::new();
    let mut i: usize = 0;
    proof {
        assert(model_views(r@) =~= parsed(frames@.take(0), flowtable_parser()));
    }
    while i < frames.len()
        invariant
            i <= frames.len(),
            model_views(r@) == parsed(frames@.take(i as int), flowtable_parser()),
        decreases frames.len() - i,
    {
        let ghost done = r@;
        proof {
            assert(frames@.take(i as int + 1).drop_last() =~= frames@.take(i as int));
        }
        if let Some(v) = parse_flowtable_frame(frames[i].as_slice()) {
            r.push(v);
            proof {
                assert(model_views(r@) =~= model_views(done).push(v@));
            }
        }
        i += 1;
    }
    proof {
        assert(frames@.take(i as int) =~= frames@);
    }
    r
}

/// The frames of one scrape, one dump for each kind of object.
pub struct NftDumps {
    /// Replies to `NFT_MSG_GETTABLE`.
    pub tables: Vec<Vec<u8>>,
    /// Replies to `NFT_MSG_GETCHAIN`.
    pub chains: Vec<Vec<u8>>,
    /// Replies to `NFT_MSG_GETRULE`.
    pub rules: Vec<Vec<u8>>,
    /// Replies to `NFT_MSG_GETOBJ`, read for counters.
    pub counters: Vec<Vec<u8>>,
    /// Replies to `NFT_MSG_GETSET`.
    pub sets: Vec<Vec<u8>>,
    /// Replies to `NFT_MSG_GETOBJ`, read for quotas.
    pub quotas: Vec<Vec<u8>>,
    /// Replies to `NFT_MSG_GETOBJ`, read for limits.
    pub limits: Vec<Vec<u8>>,
    /// The reply to `NFT_MSG_GETGEN`, if there was one.
    pub generation: Option<Vec<u8>>,
    /// Replies to `NFT_MSG_GETFLOWTABLE`.
    pub flowtables: Vec<Vec<u8>>,
}

/// The ruleset generation in a reply; zero without one.
pub open spec fn generation_or_zero(reply: Option<Vec<u8>>) -> u32 {
    match reply {
        Some(frame) => match generation_of(frame@) {
            Some(id) => id,
            None => 0,
        },
        None => 0,
    }
}

/// Reads the ruleset generation from the reply to `NFT_MSG_GETGEN`.
pub fn ruleset_generation(reply: &Option<Vec<u8>>) -> (r: u32)
    ensures
        r == generation_or_zero(*reply),
{
    match reply {
        Some(frame) => parse_gen_frame(frame.as_slice()).unwrap_or(0),
        None => 0,
    }
}

/// Collector for the nftables firewall surface.
pub struct NftablesCollector;

impl NftablesCollector {
    /// Name of the collector.
    pub fn name(&self) -> (r: &'static str)
        ensures
            r@ == "nftables"@,
    {
        "nftables"
    }

    /// Turns the frames of one scrape into samples.
    pub fn collect(&self, dumps: &NftDumps) -> (r: Vec<MetricSample>)
        ensures
            views(r@) == nft_samples(
                parsed(dumps.tables@, table_parser()),
                parsed(dumps.chains@, chain_parser()),
                parsed(dumps.rules@, rule_parser()),
                parsed(dumps.counters@, counter_parser()),
                parsed(dumps.sets@, set_parser()),
                parsed(dumps.quotas@, quota_parser()),
                parsed(dumps.limits@, limit_parser()),
                generation_or_zero(dumps.generation),
                parsed(dumps.flowtables@, flowtable_parser()),
            ),
    {
        let tables = parse_tables(dumps.tables.as_slice());
        let chains = parse_chains(dumps.chains.as_slice());
        let rules = parse_rules(dumps.rules.as_slice());
        let counters = parse_counters(dumps.counters.as_slice());
        let sets = parse_sets(dumps.sets.as_slice());
        let quotas = parse_quotas(dumps.quotas.as_slice());
        let limits = parse_limits(dumps.limits.as_slice());
        let generation: u32 = ruleset_generation(&dumps.generation);
        let flowtables = parse_flowtables(dumps.flowtables.as_slice());
        build_metrics(
            tables.as_slice(),
            chains.as_slice(),
            rules.as_slice(),
            counters.as_slice(),
            sets.as_slice(),
            quotas.as_slice(),
            limits.as_slice(),
            generation,
            flowtables.as_slice(),
            0,
        )
    }
}

/// Turns a domain error into a collector error.
pub fn map_domain_err(e: DomainError) -> (r: CollectError)
    ensures
        r matches CollectError::Io(message) && message@ == e.text(),
{
    CollectError::Io(e.message())
}

// ---------------------------------------------------------------------------
// Laws
// ---------------------------------------------------------------------------

/// The series of rule counters are capped, and no rule is lost silently: the
/// emitted rules are the first of all, at most as many as the cap, with two
/// samples each, and the overflow counter reports exactly how many are missing.
pub proof fn law_rule_cap(rules: Seq<NftRuleCounterView>)
    requires
        rules.len() <= u64::MAX,
    ensures
        emitted_rules(rules).len() <= RULE_COUNTER_MAX_SERIES,
        emitted_rules(rules).is_prefix_of(rules),
        flat(emitted_rules(rules), per_rule()).len() == 2 * emitted_rules(rules).len(),
        overflow_samples(rules).len() == 0 <==> emitted_rules(rules) == rules,
        overflow_samples(rules).len() > 0 ==> overflow_samples(rules).len() == 1
            && overflow_samples(rules)[0].value == crate::metric::MetricValue::U64(
            (rules.len() - emitted_rules(rules).len()) as u64,
        ),
{
    lemma_two_each(emitted_rules(rules));
    if rules.len() > RULE_COUNTER_MAX_SERIES {
        assert(emitted_rules(rules).len() != rules.len());
    }
}

proof fn lemma_two_each(rules: Seq<NftRuleCounterView>)
    ensures
        flat(rules, per_rule()).len() == 2 * rules.len(),
    decreases rules.len(),
{
    if rules.len() > 0 {
        lemma_two_each(rules.drop_last());
        assert(rule_samples(rules.last()).len() == 2);
    }
}

/// Only rules with a comment are exported: without a record that holds one, a
/// rule gives no counter.
pub proof fn law_uncommented_rules_skipped(frame: Seq<u8>)
    requires
        match last_attr(frame_attrs(frame), NFTA_RULE_USERDATA, 0) {
            Some(blob) => comment_of(blob) is None,
            None => true,
        },
    ensures
        rule_of(frame) is None,
{
}

/// Anonymous sets are never exported.
pub proof fn law_anonymous_set_excluded(frame: Seq<u8>)
    requires
        u32_or(last_attr(frame_attrs(frame), NFTA_SET_FLAGS, 0), 0) & NFT_SET_ANONYMOUS != 0,
    ensures
        set_of(frame) is None,
{
}

/// A named object is exported under one kind at most: no frame is both a
/// counter and a quota, a counter and a limit, or a quota and a limit.
pub proof fn law_object_kinds_exclusive(frame: Seq<u8>)
    ensures
        !(counter_of(frame) is Some && quota_of(frame) is Some),
        !(counter_of(frame) is Some && limit_of(frame) is Some),
        !(quota_of(frame) is Some && limit_of(frame) is Some),
{
}

/// A name in valid UTF-8 stays as it is, with or without its terminator.
pub proof fn law_text_kept(bytes: Seq<u8>)
    requires
        vstd::utf8::valid_utf8(bytes),
    ensures
        cstr(bytes.push(0)) == vstd::utf8::decode_utf8(bytes),
        (bytes.len() == 0 || bytes.last() != 0) ==> cstr(bytes) == vstd::utf8::decode_utf8(bytes),
{
    assert(bytes.push(0).drop_last() =~= bytes);
}

// ---------------------------------------------------------------------------
// What the frames stand for
// ---------------------------------------------------------------------------

/// A list element whose expression is named "counter".
pub open spec fn is_counter_expression(e: Attr) -> bool {
    e.0 == 1 && attr_text(attrs(e.1), 1) == "counter"@
}

/// An expression that is no counter does not matter: in front of a list it
/// leaves the counter that is found in it unchanged.
pub proof fn law_other_expressions_skipped(e: Attr, elems: Seq<Attr>)
    requires
        !is_counter_expression(e),
    ensures
        counter_in(seq![e] + elems) == counter_in(elems),
{
    assert((seq![e] + elems).skip(1) =~= elems);
}

/// A counter expression is found wherever it stands in the list, and its two
/// numbers are those of its data attribute.
pub proof fn law_counter_found_anywhere(front: Seq<Attr>, e: Attr, back: Seq<Attr>)
    requires
        forall|i: int| 0 <= i < front.len() ==> !is_counter_expression(#[trigger] front[i]),
        is_counter_expression(e),
    ensures
        counter_in(front + seq![e] + back) == Some(
            (
                opt_u64(last_nested(attrs(e.1), 2, 1, 0)),
                opt_u64(last_nested(attrs(e.1), 2, 2, 0)),
            ),
        ),
    decreases front.len(),
{
    let all = front + seq![e] + back;
    if front.len() == 0 {
        assert(all[0] == e);
    } else {
        let rest = front.skip(1) + seq![e] + back;
        assert forall|i: int| 0 <= i < front.skip(1).len() implies !is_counter_expression(
            #[trigger] front.skip(1)[i],
        ) by {
            assert(front.skip(1)[i] == front[i + 1]);
        }
        law_counter_found_anywhere(front.skip(1), e, back);
        assert(!is_counter_expression(front[0]));
        law_other_expressions_skipped(front[0], rest);
        assert(all =~= seq![front[0]] + rest);
    }
}

/// A list without a counter expression has no counter.
pub proof fn law_no_counter_expression(elems: Seq<Attr>)
    requires
        forall|i: int| 0 <= i < elems.len() ==> !is_counter_expression(#[trigger] elems[i]),
    ensures
        counter_in(elems) is None,
    decreases elems.len(),
{
    if elems.len() > 0 {
        assert forall|i: int| 0 <= i < elems.skip(1).len() implies !is_counter_expression(
            #[trigger] elems.skip(1)[i],
        ) by {
            assert(elems.skip(1)[i] == elems[i + 1]);
        }
        law_no_counter_expression(elems.skip(1));
        assert(!is_counter_expression(elems[0]));
    }
}

/// The last list of expressions with a counter decides on the counter of a rule:
/// attributes of another type, and lists without a counter, leave it unchanged.
pub proof fn law_rule_counter_from_expressions(a: Seq<Attr>, i: int)
    requires
        0 <= i < a.len(),
        a[i].0 == 4,
        counter_in(attrs(a[i].1)) is Some,
        forall|j: int|
            i < j < a.len() ==> (#[trigger] a[j]).0 != 4 || counter_in(attrs(a[j].1)) is None,
    ensures
        rule_counter(a) == counter_in(attrs(a[i].1))->0,
    decreases a.len(),
{
    if i < a.len() - 1 {
        let front = a.drop_last();
        assert(a[a.len() - 1].0 != 4 || counter_in(attrs(a[a.len() - 1].1)) is None);
        assert forall|j: int| i < j < front.len() implies (#[trigger] front[j]).0 != 4
            || counter_in(attrs(front[j].1)) is None by {
            assert(front[j] == a[j]);
        }
        law_rule_counter_from_expressions(front, i);
    }
}

/// A rule whose counter lacks a number, or that has none, is not reported.
pub proof fn law_incomplete_counter_skipped(frame: Seq<u8>, a: Seq<Attr>)
    requires
        a == attrs(frame.skip(4)),
        rule_counter(a).0 is None || rule_counter(a).1 is None,
    ensures
        rule_of(frame) is None,
{
}

/// Without a list of expressions there is no counter.
pub proof fn law_no_expressions_no_counter(a: Seq<Attr>)
    requires
        forall|j: int|
            0 <= j < a.len() ==> (#[trigger] a[j]).0 != 4 || counter_in(attrs(a[j].1)) is None,
    ensures
        rule_counter(a).0 is None,
        rule_counter(a).1 is None,
    decreases a.len(),
{
    if a.len() > 0 {
        let front = a.drop_last();
        assert(a[a.len() - 1].0 != 4 || counter_in(attrs(a[a.len() - 1].1)) is None);
        assert forall|j: int| 0 <= j < front.len() implies (#[trigger] front[j]).0 != 4
            || counter_in(attrs(front[j].1)) is None by {
            assert(front[j] == a[j]);
        }
        law_no_expressions_no_counter(front);
    }
}

/// A frame without a whole header stands for nothing.
pub proof fn law_short_frames_skipped(frame: Seq<u8>)
    requires
        frame.len() < 4,
    ensures
        table_of(frame) is None,
        chain_of(frame) is None,
        rule_of(frame) is None,
        set_of(frame) is None,
        counter_of(frame) is None,
        quota_of(frame) is None,
        limit_of(frame) is None,
        flowtable_of(frame) is None,
        generation_of(frame) is None,
        obj_type_of(frame) is None,
{
}

/// A rule with a comment and a counter expression with both numbers is
/// reported, wherever in its expressions the counter stands: under its table,
/// its chain and its comment, with those numbers.
pub proof fn law_rule_reported(
    frame: Seq<u8>,
    a: Seq<Attr>,
    i: int,
    front: Seq<Attr>,
    e: Attr,
    back: Seq<Attr>,
    userdata: Seq<u8>,
    comment: Seq<char>,
    bytes: Seq<u8>,
    packets: Seq<u8>,
    labels: Map<Seq<char>, Seq<char>>,
)
    requires
        frame.len() >= 4,
        a == attrs(frame.skip(4)),
        0 <= i < a.len(),
        a[i].0 == 4,
        forall|j: int| i < j < a.len() ==> (#[trigger] a[j]).0 != 4,
        attrs(a[i].1) == front + seq![e] + back,
        forall|j: int| 0 <= j < front.len() ==> !is_counter_expression(#[trigger] front[j]),
        is_counter_expression(e),
        last_nested(attrs(e.1), 2, 1, 0) == Some(bytes),
        last_nested(attrs(e.1), 2, 2, 0) == Some(packets),
        bytes.len() >= 8,
        packets.len() >= 8,
        last_attr(a, 7, 0) == Some(userdata),
        comment_of(userdata) == Some(comment),
        labels == no_labels().insert("table"@, attr_text(a, 1)).insert(
            "chain"@,
            attr_text(a, 2),
        ).insert("comment"@, comment),
    ensures
        rule_of(frame) is Some,
        ({
            let s = rule_samples(rule_of(frame)->0);
            &&& s.len() == 2
            &&& counts(s, "nft_rule_counter_bytes_total"@, labels, u64_be(bytes))
            &&& counts(s, "nft_rule_counter_packets_total"@, labels, u64_be(packets))
        }),
{
    law_counter_found_anywhere(front, e, back);
    law_rule_counter_from_expressions(a, i);
    let s = rule_samples(rule_of(frame)->0);
    assert(is_counter(s[0], "nft_rule_counter_bytes_total"@, labels, u64_be(bytes)));
    assert(is_counter(s[1], "nft_rule_counter_packets_total"@, labels, u64_be(packets)));
}

/// A comment is found behind any other user data: an entry of another type in
/// front leaves it unchanged, and a comment comes out as it was put in.
pub proof fn law_comment_found(ty: u8, data: Seq<u8>, rest: Seq<u8>)
    requires
        data.len() <= 0xff,
    ensures
        ty != 0 || strip_nul(data).len() == 0 ==> comment_of(
            seq![ty, data.len() as u8] + data + rest,
        ) == comment_of(rest),
        ty == 0 && strip_nul(data).len() > 0 ==> comment_of(
            seq![ty, data.len() as u8] + data + rest,
        ) == Some(cstr(data)),
{
    let blob = seq![ty, data.len() as u8] + data + rest;
    let end = 2 + data.len() as int;
    assert(blob[0] == ty && blob[1] == data.len());
    assert(blob.subrange(2, end) =~= data);
    assert(blob.skip(end) =~= rest);
}

/// The number of eight bytes in a nested attribute; zero where it is missing or
/// short.
pub open spec fn nested_u64(a: Seq<Attr>, outer: u16, inner: u16) -> u64 {
    match last_nested(a, outer, inner, 0) {
        Some(p) => if p.len() >= 8 {
            u64_be(p)
        } else {
            0
        },
        None => 0,
    }
}

/// The number of four bytes in a nested attribute; zero where it is missing or
/// short.
pub open spec fn nested_u32(a: Seq<Attr>, outer: u16, inner: u16) -> u32 {
    match last_nested(a, outer, inner, 0) {
        Some(p) => if p.len() >= 4 {
            u32_be(p)
        } else {
            0
        },
        None => 0,
    }
}

/// The number of four bytes in an attribute; zero where it is missing or short.
pub open spec fn number_at(a: Seq<Attr>, ty: u16) -> u32 {
    match last_attr(a, ty, 0) {
        Some(p) => if p.len() >= 4 {
            u32_be(p)
        } else {
            0
        },
        None => 0,
    }
}

/// The number of elements of a set: that of the count attribute, even where it
/// is short, and without one the described size.
pub open spec fn elements_at(a: Seq<Attr>) -> u32 {
    if last_attr(a, 20, 0) is Some {
        number_at(a, 20)
    } else {
        described_size(a)
    }
}

/// The table and the name of an object.
pub open spec fn object_labels(a: Seq<Attr>) -> Map<Seq<char>, Seq<char>> {
    no_labels().insert("table"@, attr_text(a, 1)).insert("name"@, attr_text(a, 2))
}

/// A named counter is reported with its bytes and its packets under their own
/// names.
pub proof fn law_counter_reported(frame: Seq<u8>, a: Seq<Attr>, labels: Map<Seq<char>, Seq<char>>)
    requires
        frame.len() >= 4,
        a == attrs(frame.skip(4)),
        number_at(a, 3) == 1,
        has_text(a, 2),
        labels == object_labels(a),
    ensures
        counter_of(frame) is Some,
        ({
            let s = counter_samples(counter_of(frame)->0);
            &&& s.len() == 2
            &&& counts(s, "nft_named_counter_bytes_total"@, labels, nested_u64(a, 4, 1))
            &&& counts(s, "nft_named_counter_packets_total"@, labels, nested_u64(a, 4, 2))
        }),
{
    let s = counter_samples(counter_of(frame)->0);
    assert(is_counter(s[0], "nft_named_counter_bytes_total"@, labels, nested_u64(a, 4, 1)));
    assert(is_counter(s[1], "nft_named_counter_packets_total"@, labels, nested_u64(a, 4, 2)));
}

/// A quota is reported with its ceiling, with what is used of it, and with
/// whether it is used up.
pub proof fn law_quota_reported(frame: Seq<u8>, a: Seq<Attr>, labels: Map<Seq<char>, Seq<char>>)
    requires
        frame.len() >= 4,
        a == attrs(frame.skip(4)),
        number_at(a, 3) == 2,
        has_text(a, 2),
        labels == object_labels(a),
    ensures
        quota_of(frame) is Some,
        ({
            let s = quota_samples(quota_of(frame)->0);
            &&& s.len() == 3
            &&& reads(
                s,
                "nft_named_quota_bytes_total"@,
                labels,
                GaugeValue::Whole(nested_u64(a, 4, 1) as i128),
            )
            &&& reads(
                s,
                "nft_named_quota_consumed_bytes_total"@,
                labels,
                GaugeValue::Whole(nested_u64(a, 4, 4) as i128),
            )
            &&& reads(
                s,
                "nft_named_quota_depleted"@,
                labels,
                GaugeValue::Whole(if nested_u32(a, 4, 2) & 2 != 0 { 1 } else { 0 }),
            )
        }),
{
    let s = quota_samples(quota_of(frame)->0);
    assert(is_gauge(
        s[0],
        "nft_named_quota_bytes_total"@,
        labels,
        GaugeValue::Whole(nested_u64(a, 4, 1) as i128),
    ));
    assert(is_gauge(
        s[1],
        "nft_named_quota_consumed_bytes_total"@,
        labels,
        GaugeValue::Whole(nested_u64(a, 4, 4) as i128),
    ));
    assert(is_gauge(
        s[2],
        "nft_named_quota_depleted"@,
        labels,
        GaugeValue::Whole(if nested_u32(a, 4, 2) & 2 != 0 { 1 } else { 0 }),
    ));
}

/// A limit is reported with its rate and its burst, under the type of what it
/// limits.
pub proof fn law_limit_reported(frame: Seq<u8>, a: Seq<Attr>, labels: Map<Seq<char>, Seq<char>>)
    requires
        frame.len() >= 4,
        a == attrs(frame.skip(4)),
        number_at(a, 3) == 4,
        has_text(a, 2),
        labels == object_labels(a).insert(
            "type"@,
            if nested_u32(a, 4, 4) == 0 {
                "pkts"@
            } else if nested_u32(a, 4, 4) == 1 {
                "bytes"@
            } else {
                "other"@
            },
        ),
    ensures
        limit_of(frame) is Some,
        ({
            let s = limit_samples(limit_of(frame)->0);
            &&& s.len() == 2
            &&& reads(
                s,
                "nft_named_limit_rate"@,
                labels,
                GaugeValue::Whole(nested_u64(a, 4, 1) as i128),
            )
            &&& reads(
                s,
                "nft_named_limit_burst"@,
                labels,
                GaugeValue::Whole(nested_u32(a, 4, 3) as i128),
            )
        }),
{
    let s = limit_samples(limit_of(frame)->0);
    assert(is_gauge(
        s[0],
        "nft_named_limit_rate"@,
        labels,
        GaugeValue::Whole(nested_u64(a, 4, 1) as i128),
    ));
    assert(is_gauge(
        s[1],
        "nft_named_limit_burst"@,
        labels,
        GaugeValue::Whole(nested_u32(a, 4, 3) as i128),
    ));
}

/// A limit without a unit counts by the second, and else by its own unit.
pub proof fn law_limit_unit(frame: Seq<u8>, v: NftLimitView, a: Seq<Attr>)
    requires
        limit_of(frame) == Some(v),
        a == attrs(frame.skip(4)),
    ensures
        last_nested(a, 4, 2, 0) is None ==> v.unit_secs == 1,
        last_nested(a, 4, 2, 0) matches Some(p) ==> p.len() >= 8 ==> v.unit_secs == u64_be(p),
{
}

/// A set that is not anonymous is reported with the number of its elements,
/// which the count attribute gives where there is one, and else a description.
pub proof fn law_set_reported(frame: Seq<u8>, a: Seq<Attr>, labels: Map<Seq<char>, Seq<char>>)
    requires
        frame.len() >= 4,
        a == attrs(frame.skip(4)),
        number_at(a, 3) & 1 == 0,
        has_text(a, 2),
        labels == no_labels().insert("table"@, attr_text(a, 1)).insert(
            "name"@,
            attr_text(a, 2),
        ).insert("type"@, key_type_text(number_at(a, 4))),
    ensures
        set_of(frame) is Some,
        ({
            let s = set_samples(set_of(frame)->0);
            &&& s.len() == 1
            &&& reads(s, "nft_set_elements"@, labels, GaugeValue::Whole(elements_at(a) as i128))
        }),
{
    let s = set_samples(set_of(frame)->0);
    assert(is_gauge(s[0], "nft_set_elements"@, labels, GaugeValue::Whole(elements_at(a) as i128)));
}

/// Without a count attribute, the number of elements is the first size, other
/// than zero, of the descriptions.
pub proof fn law_described_size_first(a: Seq<Attr>, ty: u16, p: Seq<u8>)
    ensures
        described_size(seq![]) == 0,
        described_size(a) != 0 ==> described_size(a.push((ty, p))) == described_size(a),
        ty != 9 ==> described_size(a.push((ty, p))) == described_size(a),
        ty == 9 && described_size(a) == 0 ==> described_size(a.push((ty, p))) == number_at(
            attrs(p),
            1,
        ),
{
    assert(a.push((ty, p)).drop_last() =~= a);
}

/// A table is reported under its name and its family.
pub proof fn law_table_reported(frame: Seq<u8>, a: Seq<Attr>, labels: Map<Seq<char>, Seq<char>>)
    requires
        frame.len() >= 4,
        a == attrs(frame.skip(4)),
        has_text(a, 1),
        labels == no_labels().insert("table"@, attr_text(a, 1)).insert(
            "family"@,
            family_text(frame[0]),
        ),
    ensures
        table_of(frame) is Some,
        ({
            let s = table_samples(table_of(frame)->0);
            &&& s.len() == 1
            &&& reads(s, "nft_table_info"@, labels, GaugeValue::Whole(1))
        }),
{
    let s = table_samples(table_of(frame)->0);
    assert(is_gauge(s[0], "nft_table_info"@, labels, GaugeValue::Whole(1)));
}

/// A chain is reported under its table, name, type, hook, priority and policy,
/// each from its own attribute; what is missing is empty, or zero.
pub proof fn law_chain_reported(frame: Seq<u8>, a: Seq<Attr>, labels: Map<Seq<char>, Seq<char>>)
    requires
        frame.len() >= 4,
        a == attrs(frame.skip(4)),
        has_text(a, 3),
        labels == no_labels().insert("table"@, attr_text(a, 1)).insert(
            "chain"@,
            attr_text(a, 3),
        ).insert("type"@, attr_text(a, 7)).insert(
            "hook"@,
            match last_nested(a, 4, 1, 4) {
                Some(p) => hook_text(u32_be(p)),
                None => Seq::empty(),
            },
        ).insert(
            "priority"@,
            match last_nested(a, 4, 2, 4) {
                Some(p) => signed_dec(two_complement(u32_be(p))),
                None => signed_dec(0),
            },
        ).insert(
            "policy"@,
            match last_attr(a, 5, 4) {
                Some(p) => policy_text(u32_be(p)),
                None => Seq::empty(),
            },
        ),
    ensures
        chain_of(frame) is Some,
        ({
            let s = chain_samples(chain_of(frame)->0);
            &&& s.len() == 1
            &&& reads(s, "nft_chain_info"@, labels, GaugeValue::Whole(1))
        }),
{
    lemma_last_nested_len(a, 4, 2, 4);
    let s = chain_samples(chain_of(frame)->0);
    assert(is_gauge(s[0], "nft_chain_info"@, labels, GaugeValue::Whole(1)));
}

/// A flowtable is reported under its table, name, hook, priority and offload
/// flag, each from its own attribute; what is missing is empty, or zero.
pub proof fn law_flowtable_reported(frame: Seq<u8>, a: Seq<Attr>, labels: Map<Seq<char>, Seq<char>>)
    requires
        frame.len() >= 4,
        a == attrs(frame.skip(4)),
        has_text(a, 2),
        labels == no_labels().insert("table"@, attr_text(a, 1)).insert(
            "name"@,
            attr_text(a, 2),
        ).insert(
            "hook"@,
            match last_nested(a, 3, 1, 4) {
                Some(p) => hook_text(u32_be(p)),
                None => Seq::empty(),
            },
        ).insert(
            "priority"@,
            match last_nested(a, 3, 2, 4) {
                Some(p) => signed_dec(two_complement(u32_be(p))),
                None => signed_dec(0),
            },
        ).insert(
            "hw_offload"@,
            if number_at(a, 7) & 1 != 0 {
                "1"@
            } else {
                "0"@
            },
        ),
    ensures
        flowtable_of(frame) is Some,
        ({
            let s = flowtable_samples(flowtable_of(frame)->0);
            &&& s.len() == 1
            &&& reads(s, "nft_flowtable_info"@, labels, GaugeValue::Whole(1))
        }),
{
    lemma_last_nested_len(a, 3, 2, 4);
    let s = flowtable_samples(flowtable_of(frame)->0);
    assert(is_gauge(s[0], "nft_flowtable_info"@, labels, GaugeValue::Whole(1)));
}

/// The signed number that 32 bits stand for in two's complement.
pub open spec fn two_complement(n: u32) -> int {
    if n >= 0x8000_0000 {
        n - 0x1_0000_0000
    } else {
        n as int
    }
}

/// The ruleset generation is that of the first generation attribute.
pub proof fn law_generation_reported(frame: Seq<u8>, p: Seq<u8>)
    requires
        frame.len() >= 4,
        first_attr(attrs(frame.skip(4)), 1) == Some(p),
        p.len() >= 4,
    ensures
        generation_of(frame) == Some(u32_be(p)),
        is_gauge(
            generation_sample(u32_be(p)),
            "nft_ruleset_generation"@,
            no_labels(),
            GaugeValue::Whole(u32_be(p) as i128),
        ),
{
}

/// Nothing is left out of a scrape: the samples of every table, chain, counter,
/// set, quota, limit and flowtable, and those of every rule within the cap,
/// stand in it in one piece, and so does the generation.
pub proof fn law_everything_exported(
    tables: Seq<NftTableView>,
    chains: Seq<NftChainView>,
    rules: Seq<NftRuleCounterView>,
    counters: Seq<NftCounterView>,
    sets: Seq<NftSetView>,
    quotas: Seq<NftQuotaView>,
    limits: Seq<NftLimitView>,
    generation: u32,
    flowtables: Seq<NftFlowtableView>,
    i: int,
)
    ensures
        ({
            let all = nft_samples(
                tables,
                chains,
                rules,
                counters,
                sets,
                quotas,
                limits,
                generation,
                flowtables,
            );
            &&& 0 <= i < tables.len() ==> holds(all, table_samples(tables[i]))
            &&& 0 <= i < chains.len() ==> holds(all, chain_samples(chains[i]))
            &&& 0 <= i < rules.len() && i < 1000 ==> holds(all, rule_samples(rules[i]))
            &&& 0 <= i < counters.len() ==> holds(all, counter_samples(counters[i]))
            &&& 0 <= i < sets.len() ==> holds(all, set_samples(sets[i]))
            &&& 0 <= i < quotas.len() ==> holds(all, quota_samples(quotas[i]))
            &&& 0 <= i < limits.len() ==> holds(all, limit_samples(limits[i]))
            &&& 0 <= i < flowtables.len() ==> holds(all, flowtable_samples(flowtables[i]))
            &&& holds(all, seq![generation_sample(generation)])
        }),
{
    let p0 = flat(tables, per_table());
    let p1 = flat(chains, per_chain());
    let p2 = flat(emitted_rules(rules), per_rule());
    let p3 = overflow_samples(rules);
    let p4 = flat(counters, per_counter());
    let p5 = flat(sets, per_set());
    let p6 = flat(quotas, per_quota());
    let p7 = flat(limits, per_limit());
    let p8 = seq![generation_sample(generation)];
    let p9 = flat(flowtables, per_flowtable());
    lemma_items_held(tables, i, per_table());
    lemma_items_held(chains, i, per_chain());
    lemma_items_held(emitted_rules(rules), i, per_rule());
    lemma_items_held(counters, i, per_counter());
    lemma_items_held(sets, i, per_set());
    lemma_items_held(quotas, i, per_quota());
    lemma_items_held(limits, i, per_limit());
    lemma_items_held(flowtables, i, per_flowtable());
    lemma_holds_itself(p8);
    lemma_joined_holds(p0, p1);
    lemma_joined_holds(p0 + p1, p2);
    lemma_joined_holds(p0 + p1 + p2, p3);
    lemma_joined_holds(p0 + p1 + p2 + p3, p4);
    lemma_joined_holds(p0 + p1 + p2 + p3 + p4, p5);
    lemma_joined_holds(p0 + p1 + p2 + p3 + p4 + p5, p6);
    lemma_joined_holds(p0 + p1 + p2 + p3 + p4 + p5 + p6, p7);
    lemma_joined_holds(p0 + p1 + p2 + p3 + p4 + p5 + p6 + p7, p8);
    lemma_joined_holds(p0 + p1 + p2 + p3 + p4 + p5 + p6 + p7 + p8, p9);
}

/// The samples of an item are held by those of all.
proof fn lemma_items_held<T>(items: Seq<T>, i: int, f: spec_fn(T) -> Seq<SampleView>)
    ensures
        0 <= i < items.len() ==> holds(flat(items, f), f(items[i])),
{
    if 0 <= i < items.len() {
        law_flat_holds_each(items, i, f);
    }
}

/// Where the rules exceed the cap, the overflow is counted: with those that are
/// reported it makes up all rules.
pub proof fn law_overflow_counted(rules: Seq<NftRuleCounterView>)
    requires
        1000 < rules.len() <= u64::MAX,
    ensures
        counts(
            overflow_samples(rules),
            "nft_scrape_collector_error_total"@,
            no_labels().insert("collector"@, "nftables"@).insert(
                "reason"@,
                "cardinality_overflow"@,
            ),
            (rules.len() - emitted_rules(rules).len()) as u64,
        ),
        emitted_rules(rules).len() == 1000,
{
    assert(is_counter(
        overflow_samples(rules)[0],
        "nft_scrape_collector_error_total"@,
        no_labels().insert("collector"@, "nftables"@).insert("reason"@, "cardinality_overflow"@),
        (rules.len() - emitted_rules(rules).len()) as u64,
    ));
}

/// Every address family goes by its own name, and no two share one.
pub proof fn law_families_told_apart(code: u8)
    ensures
        family_text(code) == "unspec"@ <==> code == 0,
        family_text(code) == "inet"@ <==> code == 1,
        family_text(code) == "ip"@ <==> code == 2,
        family_text(code) == "arp"@ <==> code == 3,
        family_text(code) == "netdev"@ <==> code == 5,
        family_text(code) == "bridge"@ <==> code == 7,
        family_text(code) == "ip6"@ <==> code == 10,
        ({
            &&& code != 0
            &&& code != 1
            &&& code != 2
            &&& code != 3
            &&& code != 5
            &&& code != 7
            &&& code != 10
        }) ==> family_text(code) == "other"@,
{
    reveal_strlit("unspec");
    reveal_strlit("inet");
    reveal_strlit("ip");
    reveal_strlit("arp");
    reveal_strlit("netdev");
    reveal_strlit("bridge");
    reveal_strlit("ip6");
    reveal_strlit("other");
    assert("unspec"@.len() == 6);
    assert("inet"@.len() == 4);
    assert("ip"@.len() == 2);
    assert("arp"@.len() == 3);
    assert("netdev"@.len() == 6);
    assert("bridge"@.len() == 6);
    assert("ip6"@.len() == 3);
    assert("other"@.len() == 5);
    assert("unspec"@[0] == 'u' && "netdev"@[0] == 'n');
    assert("unspec"@[0] == 'u' && "bridge"@[0] == 'b');
    assert("arp"@[0] == 'a' && "ip6"@[0] == 'i');
    assert("netdev"@[0] == 'n' && "bridge"@[0] == 'b');
}

/// Every hook goes by its own name, in the order in which packets pass them.
pub proof fn law_hooks_told_apart(code: u32)
    ensures
        hook_text(code) == "prerouting"@ <==> code == 0,
        hook_text(code) == "input"@ <==> code == 1,
        hook_text(code) == "forward"@ <==> code == 2,
        hook_text(code) == "output"@ <==> code == 3,
        hook_text(code) == "postrouting"@ <==> code == 4,
        hook_text(code) == "ingress"@ <==> code == 5,
        hook_text(code) == "egress"@ <==> code == 6,
        ({
            &&& code != 0
            &&& code != 1
            &&& code != 2
            &&& code != 3
            &&& code != 4
            &&& code != 5
            &&& code != 6
        }) ==> hook_text(code) == "other"@,
{
    reveal_strlit("prerouting");
    reveal_strlit("input");
    reveal_strlit("forward");
    reveal_strlit("output");
    reveal_strlit("postrouting");
    reveal_strlit("ingress");
    reveal_strlit("egress");
    reveal_strlit("other");
    assert("prerouting"@.len() == 10);
    assert("input"@.len() == 5);
    assert("forward"@.len() == 7);
    assert("output"@.len() == 6);
    assert("postrouting"@.len() == 11);
    assert("ingress"@.len() == 7);
    assert("egress"@.len() == 6);
    assert("other"@.len() == 5);
    assert("input"@[0] == 'i' && "other"@[0] == 'o');
    assert("forward"@[0] == 'f' && "ingress"@[0] == 'i');
    assert("output"@[0] == 'o' && "egress"@[0] == 'e');
}

/// A policy is to drop or to accept.
pub proof fn law_policies_told_apart(code: u32)
    ensures
        policy_text(code) == "drop"@ <==> code == 0,
        policy_text(code) == "accept"@ <==> code == 1,
        (code != 0 && code != 1) ==> policy_text(code) == "other"@,
{
    reveal_strlit("drop");
    reveal_strlit("accept");
    reveal_strlit("other");
    assert("drop"@.len() == 4);
    assert("accept"@.len() == 6);
    assert("other"@.len() == 5);
}

/// Every key type goes by its own name.
pub proof fn law_key_types_told_apart(code: u32)
    ensures
        key_type_text(code) == "ipv4_addr"@ <==> code == 12,
        key_type_text(code) == "ipv6_addr"@ <==> code == 13,
        key_type_text(code) == "inet_service"@ <==> code == 11,
        key_type_text(code) == "ether_addr"@ <==> code == 5,
        key_type_text(code) == "mark"@ <==> code == 9,
        ({
            &&& code != 12
            &&& code != 13
            &&& code != 11
            &&& code != 5
            &&& code != 9
        }) ==> key_type_text(code) == "other"@,
{
    reveal_strlit("ipv4_addr");
    reveal_strlit("ipv6_addr");
    reveal_strlit("inet_service");
    reveal_strlit("ether_addr");
    reveal_strlit("mark");
    reveal_strlit("other");
    assert("ipv4_addr"@.len() == 9);
    assert("ipv6_addr"@.len() == 9);
    assert("inet_service"@.len() == 12);
    assert("ether_addr"@.len() == 10);
    assert("mark"@.len() == 4);
    assert("other"@.len() == 5);
    assert("ipv4_addr"@[3] == '4' && "ipv6_addr"@[3] == '6');
}

/// Nothing that the kernel reports is left out: the samples of every frame that
/// stands for a table, a chain, a rule within the cap, a counter, a set, a
/// quota, a limit or a flowtable stand in the scrape in one piece, and the
/// generation is that of its reply.
pub proof fn law_frames_exported(dumps: NftDumps, i: int)
    ensures
        ({
            let all = nft_samples(
                parsed(dumps.tables@, table_parser()),
                parsed(dumps.chains@, chain_parser()),
                parsed(dumps.rules@, rule_parser()),
                parsed(dumps.counters@, counter_parser()),
                parsed(dumps.sets@, set_parser()),
                parsed(dumps.quotas@, quota_parser()),
                parsed(dumps.limits@, limit_parser()),
                generation_or_zero(dumps.generation),
                parsed(dumps.flowtables@, flowtable_parser()),
            );
            &&& 0 <= i < dumps.tables@.len() ==> (table_of(dumps.tables@[i]@)
                matches Some(v) ==> holds(
                all,
                table_samples(v),
            ))
            &&& 0 <= i < dumps.chains@.len() ==> (chain_of(dumps.chains@[i]@)
                matches Some(v) ==> holds(
                all,
                chain_samples(v),
            ))
            &&& 0 <= i < dumps.rules@.len() && i < 1000 ==> (rule_of(dumps.rules@[i]@)
                matches Some(v) ==> holds(
                all,
                rule_samples(v),
            ))
            &&& 0 <= i < dumps.counters@.len() ==> (counter_of(dumps.counters@[i]@)
                matches Some(v) ==> holds(
                all,
                counter_samples(v),
            ))
            &&& 0 <= i < dumps.sets@.len() ==> (set_of(dumps.sets@[i]@) matches Some(v) ==> holds(
                all,
                set_samples(v),
            ))
            &&& 0 <= i < dumps.quotas@.len() ==> (quota_of(dumps.quotas@[i]@)
                matches Some(v) ==> holds(
                all,
                quota_samples(v),
            ))
            &&& 0 <= i < dumps.limits@.len() ==> (limit_of(dumps.limits@[i]@)
                matches Some(v) ==> holds(
                all,
                limit_samples(v),
            ))
            &&& 0 <= i < dumps.flowtables@.len() ==> (flowtable_of(dumps.flowtables@[i]@)
                matches Some(v) ==> holds(
                all,
                flowtable_samples(v),
            ))
            &&& dumps.generation matches Some(frame) ==> (generation_of(frame@) matches Some(id)
                ==> holds(all, seq![generation_sample(id)]))
            &&& dumps.generation matches Some(frame) ==> (generation_of(frame@) is None ==> holds(
                all,
                seq![generation_sample(0)],
            ))
            &&& dumps.generation is None ==> holds(all, seq![generation_sample(0)])
        }),
{
    let tables = parsed(dumps.tables@, table_parser());
    let chains = parsed(dumps.chains@, chain_parser());
    let rules = parsed(dumps.rules@, rule_parser());
    let counters = parsed(dumps.counters@, counter_parser());
    let sets = parsed(dumps.sets@, set_parser());
    let quotas = parsed(dumps.quotas@, quota_parser());
    let limits = parsed(dumps.limits@, limit_parser());
    let flowtables = parsed(dumps.flowtables@, flowtable_parser());
    let generation = generation_or_zero(dumps.generation);
    law_everything_exported(
        tables,
        chains,
        rules,
        counters,
        sets,
        quotas,
        limits,
        generation,
        flowtables,
        i,
    );
    if 0 <= i < dumps.tables@.len() && table_of(dumps.tables@[i]@) is Some {
        let k = law_parsed_holds_each(dumps.tables@, i, table_parser());
        law_everything_exported(
            tables,
            chains,
            rules,
            counters,
            sets,
            quotas,
            limits,
            generation,
            flowtables,
            k,
        );
    }
    if 0 <= i < dumps.chains@.len() && chain_of(dumps.chains@[i]@) is Some {
        let k = law_parsed_holds_each(dumps.chains@, i, chain_parser());
        law_everything_exported(
            tables,
            chains,
            rules,
            counters,
            sets,
            quotas,
            limits,
            generation,
            flowtables,
            k,
        );
    }
    if 0 <= i < dumps.rules@.len() && i < 1000 && rule_of(dumps.rules@[i]@) is Some {
        let k = law_parsed_holds_each(dumps.rules@, i, rule_parser());
        law_everything_exported(
            tables,
            chains,
            rules,
            counters,
            sets,
            quotas,
            limits,
            generation,
            flowtables,
            k,
        );
    }
    if 0 <= i < dumps.counters@.len() && counter_of(dumps.counters@[i]@) is Some {
        let k = law_parsed_holds_each(dumps.counters@, i, counter_parser());
        law_everything_exported(
            tables,
            chains,
            rules,
            counters,
            sets,
            quotas,
            limits,
            generation,
            flowtables,
            k,
        );
    }
    if 0 <= i < dumps.sets@.len() && set_of(dumps.sets@[i]@) is Some {
        let k = law_parsed_holds_each(dumps.sets@, i, set_parser());
        law_everything_exported(
            tables,
            chains,
            rules,
            counters,
            sets,
            quotas,
            limits,
            generation,
            flowtables,
            k,
        );
    }
    if 0 <= i < dumps.quotas@.len() && quota_of(dumps.quotas@[i]@) is Some {
        let k = law_parsed_holds_each(dumps.quotas@, i, quota_parser());
        law_everything_exported(
            tables,
            chains,
            rules,
            counters,
            sets,
            quotas,
            limits,
            generation,
            flowtables,
            k,
        );
    }
    if 0 <= i < dumps.limits@.len() && limit_of(dumps.limits@[i]@) is Some {
        let k = law_parsed_holds_each(dumps.limits@, i, limit_parser());
        law_everything_exported(
            tables,
            chains,
            rules,
            counters,
            sets,
            quotas,
            limits,
            generation,
            flowtables,
            k,
        );
    }
    if 0 <= i < dumps.flowtables@.len() && flowtable_of(dumps.flowtables@[i]@) is Some {
        let k = law_parsed_holds_each(dumps.flowtables@, i, flowtable_parser());
        law_everything_exported(
            tables,
            chains,
            rules,
            counters,
            sets,
            quotas,
            limits,
            generation,
            flowtables,
            k,
        );
    }
}

/// The type of an object is the number in its first type attribute.
pub proof fn law_object_type_read(frame: Seq<u8>, p: Seq<u8>)
    requires
        frame.len() >= 4,
        first_attr(attrs(frame.skip(4)), 3) == Some(p),
    ensures
        p.len() >= 4 ==> obj_type_of(frame) == Some(u32_be(p)),
        p.len() < 4 ==> obj_type_of(frame) is None,
{
}

/// An object without a name, or of another type, is none of the three kinds.
pub proof fn law_other_objects_skipped(frame: Seq<u8>, a: Seq<Attr>)
    requires
        a == attrs(frame.skip(4)),
    ensures
        !has_text(a, 2) || number_at(a, 3) != 1 ==> counter_of(frame) is None,
        !has_text(a, 2) || number_at(a, 3) != 2 ==> quota_of(frame) is None,
        !has_text(a, 2) || number_at(a, 3) != 4 ==> limit_of(frame) is None,
        !has_text(a, 1) ==> table_of(frame) is None,
        !has_text(a, 3) ==> chain_of(frame) is None,
        !has_text(a, 2) ==> set_of(frame) is None,
        !has_text(a, 2) ==> flowtable_of(frame) is None,
{
}

/// A text attribute is its bytes without the closing NUL.
pub proof fn law_text_without_nul(bytes: Seq<u8>)
    ensures
        strip_nul(bytes.push(0)) == bytes,
        bytes.len() == 0 || bytes.last() != 0 ==> strip_nul(bytes) == bytes,
{
    assert(bytes.push(0).drop_last() =~= bytes);
}

/// The text of an attribute is that of its last occurrence; there is one exactly
/// when a byte is left without the closing NUL.
pub proof fn law_attribute_text(a: Seq<Attr>, ty: u16)
    ensures
        (match last_attr(a, ty, 0) {
            Some(p) => {
                &&& attr_text(a, ty) == decoded(strip_nul(p))
                &&& has_text(a, ty) <==> strip_nul(p).len() > 0
            },
            None => attr_text(a, ty).len() == 0 && !has_text(a, ty),
        }),
{
}

} // verus!
