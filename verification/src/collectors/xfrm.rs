//! XFRM `IPsec` collector.
//!
//! Netlink family `NETLINK_XFRM`.  Security associations and policies are
//! counted from their dumps; the hash table sizes come from single replies,
//! which start with four echoed bytes before the attributes.
use crate::dump::{collect_error_view, CollectErrorView};
use crate::error::{CollectError, TransportError};
use crate::labels::{no_labels, Labels};
use crate::metric::{
    gauge_view, holds, is_gauge, lemma_holds, push_gauge, reads, views, whole, GaugeValue,
    MetricSample, SampleView,
};
use crate::tally::{
    law_counts_reported, law_tally_total, occurrences, pair_gauges, push_pair_gauges, tally, total,
    Key, Tally,
};
use crate::wire::{attrs, find_last, last_attr, lemma_last_attr_len, read_u32, u32_ne};
use vstd::prelude::*;
use vstd::slice::slice_subrange;

verus! {

/// `NETLINK_XFRM` protocol constant.
pub const NETLINK_XFRM: i32 = 6;

/// Dump all security associations.
pub const XFRM_MSG_GETSA: u16 = 0x0012;

/// Dump all security policies.
pub const XFRM_MSG_GETPOLICY: u16 = 0x0015;

/// Hash info of the association database.
pub const XFRM_MSG_GETSADINFO: u16 = 0x0023;

/// Hash info of the policy database.
pub const XFRM_MSG_GETSPDINFO: u16 = 0x0025;

/// Flags sent with the hash info requests.
pub const XFRM_INFO_FLAGS: u32 = 0xFFFF_FFFF;

/// Minimum body size of `xfrm_usersa_info`.
pub const XFRM_SA_INFO_MIN: usize = 220;

/// Byte offset of `id.proto` within `xfrm_usersa_info`.
pub const SA_PROTO_OFFSET: usize = 76;

/// Byte offset of `mode` within `xfrm_usersa_info`.
pub const SA_MODE_OFFSET: usize = 214;

/// Minimum body size of `xfrm_userpolicy_info`.
pub const XFRM_POLICY_INFO_MIN: usize = 164;

/// Byte offset of `dir` within `xfrm_userpolicy_info`.
pub const POLICY_DIR_OFFSET: usize = 160;

/// Byte offset of `action` within `xfrm_userpolicy_info`.
pub const POLICY_ACTION_OFFSET: usize = 161;

/// Hash info attribute of the association database.
pub const XFRMA_SAD_HINFO: u16 = 2;

/// Hash info attribute of the policy database.
pub const XFRMA_SPD_HINFO: u16 = 2;

/// Minimum payload size of a hash info attribute.
pub const XFRM_HASHINFO_MIN: usize = 8;

pub open spec fn proto_text(proto: u8) -> Seq<char> {
    match proto {
        50 => "esp"@,
        51 => "ah"@,
        108 => "comp"@,
        _ => "other"@,
    }
}

/// Name of an `IPsec` protocol.
pub fn proto_label(proto: u8) -> (r: &'static str)
    ensures
        r@ == proto_text(proto),
{
    match proto {
        50 => "esp",
        51 => "ah",
        108 => "comp",
        _ => "other",
    }
}

pub open spec fn mode_text(mode: u8) -> Seq<char> {
    match mode {
        0 => "transport"@,
        1 => "tunnel"@,
        4 => "beet"@,
        _ => "other"@,
    }
}

/// Name of a security association's mode.
pub fn mode_label(mode: u8) -> (r: &'static str)
    ensures
        r@ == mode_text(mode),
{
    match mode {
        0 => "transport",
        1 => "tunnel",
        4 => "beet",
        _ => "other",
    }
}

pub open spec fn dir_text(dir: u8) -> Seq<char> {
    match dir {
        0 => "in"@,
        1 => "out"@,
        2 => "fwd"@,
        _ => "other"@,
    }
}

/// Name of a policy direction.
pub fn dir_label(dir: u8) -> (r: &'static str)
    ensures
        r@ == dir_text(dir),
{
    match dir {
        0 => "in",
        1 => "out",
        2 => "fwd",
        _ => "other",
    }
}

pub open spec fn action_text(action: u8) -> Seq<char> {
    match action {
        0 => "allow"@,
        _ => "block"@,
    }
}

/// Name of a policy action.
pub fn action_label(action: u8) -> (r: &'static str)
    ensures
        r@ == action_text(action),
{
    match action {
        0 => "allow",
        _ => "block",
    }
}

/// The protocol and mode of each security association, without short frames.
pub open spec fn sa_keys(frames: Seq<Vec<u8>>) -> Seq<Key>
    decreases frames.len(),
{
    if frames.len() == 0 {
        seq![]
    } else {
        let f = frames.last()@;
        let rest = sa_keys(frames.drop_last());
        if f.len() < XFRM_SA_INFO_MIN {
            rest
        } else {
            rest.push((proto_text(f[SA_PROTO_OFFSET as int]), mode_text(f[SA_MODE_OFFSET as int])))
        }
    }
}

/// The direction and action of each policy, without short frames.
pub open spec fn policy_keys(frames: Seq<Vec<u8>>) -> Seq<Key>
    decreases frames.len(),
{
    if frames.len() == 0 {
        seq![]
    } else {
        let f = frames.last()@;
        let rest = policy_keys(frames.drop_last());
        if f.len() < XFRM_POLICY_INFO_MIN {
            rest
        } else {
            rest.push(
                (dir_text(f[POLICY_DIR_OFFSET as int]), action_text(f[POLICY_ACTION_OFFSET as int])),
            )
        }
    }
}

/// The samples of the security associations.
pub open spec fn sa_samples(frames: Seq<Vec<u8>>) -> Seq<SampleView> {
    pair_gauges(
        tally(sa_keys(frames)),
        "nft_xfrm_sa_count"@,
        "Number of XFRM Security Associations by protocol and mode"@,
        "proto"@,
        "mode"@,
    )
}

/// The samples of the policies.
pub open spec fn policy_samples(frames: Seq<Vec<u8>>) -> Seq<SampleView> {
    pair_gauges(
        tally(policy_keys(frames)),
        "nft_xfrm_sp_count"@,
        "Number of XFRM Security Policies by direction and action"@,
        "dir"@,
        "action"@,
    )
}

/// Counts security associations by protocol and mode; short frames are skipped.
pub fn count_associations(frames: &[Vec<u8>]) -> (r: Tally)
    ensures
        r@ == tally(sa_keys(frames@)),
{
    let mut t = Tally::new();
    let mut i: usize = 0;
    proof {
        assert(frames@.take(0) =~= seq![]);
    }
    while i < frames.len()
        invariant
            i <= frames.len(),
            t@ == tally(sa_keys(frames@.take(i as int))),
            sa_keys(frames@.take(i as int)).len() <= i,
        decreases frames.len() - i,
    {
        let f = &frames[i];
        proof {
            assert(frames@.take(i as int + 1).drop_last() =~= frames@.take(i as int));
            law_tally_total(sa_keys(frames@.take(i as int)));
        }
        if f.len() >= XFRM_SA_INFO_MIN {
            let proto = proto_label(f[SA_PROTO_OFFSET]);
            let mode = mode_label(f[SA_MODE_OFFSET]);
            t.add(proto, mode);
            proof {
                let keys = sa_keys(frames@.take(i as int));
                assert(keys.push((proto@, mode@)).drop_last() =~= keys);
            }
        }
        i += 1;
    }
    proof {
        assert(frames@.take(i as int) =~= frames@);
    }
    t
}

/// Counts policies by direction and action; short frames are skipped.
pub fn count_policies(frames: &[Vec<u8>]) -> (r: Tally)
    ensures
        r@ == tally(policy_keys(frames@)),
{
    let mut t = Tally::new();
    let mut i: usize = 0;
    proof {
        assert(frames@.take(0) =~= seq![]);
    }
    while i < frames.len()
        invariant
            i <= frames.len(),
            t@ == tally(policy_keys(frames@.take(i as int))),
            policy_keys(frames@.take(i as int)).len() <= i,
        decreases frames.len() - i,
    {
        let f = &frames[i];
        proof {
            assert(frames@.take(i as int + 1).drop_last() =~= frames@.take(i as int));
            law_tally_total(policy_keys(frames@.take(i as int)));
        }
        if f.len() >= XFRM_POLICY_INFO_MIN {
            let dir = dir_label(f[POLICY_DIR_OFFSET]);
            let action = action_label(f[POLICY_ACTION_OFFSET]);
            t.add(dir, action);
            proof {
                let keys = policy_keys(frames@.take(i as int));
                assert(keys.push((dir@, action@)).drop_last() =~= keys);
            }
        }
        i += 1;
    }
    proof {
        assert(frames@.take(i as int) =~= frames@);
    }
    t
}

/// The current and the largest hash count in a hash info reply: those of the
/// last attribute `ty` that is long enough, zeros without one.
pub open spec fn hash_info(payload: Seq<u8>, ty: u16) -> (u32, u32) {
    match last_attr(attrs(payload.skip(4)), ty, XFRM_HASHINFO_MIN as nat) {
        Some(p) => (u32_ne(p), u32_ne(p.skip(4))),
        None => (0, 0),
    }
}

fn read_hash_info(payload: &[u8], ty: u16) -> (r: (u32, u32))
    requires
        payload@.len() >= 4,
    ensures
        r == hash_info(payload@, ty),
{
    let buf = slice_subrange(payload, 4, payload.len());
    proof {
        assert(buf@ =~= payload@.skip(4));
        lemma_last_attr_len(attrs(buf@), ty, XFRM_HASHINFO_MIN as nat);
    }
    match find_last(buf, ty, XFRM_HASHINFO_MIN) {
        Some(p) => {
            let high = slice_subrange(p, 4, p.len());
            proof {
                assert(high@ =~= p@.skip(4));
            }
            (read_u32(p).unwrap_or(0), read_u32(high).unwrap_or(0))
        },
        None => (0, 0),
    }
}

/// A reply to a hash info request.
pub type InfoReply = Result<Option<Vec<u8>>, TransportError>;

/// Errors that mean the subsystem is absent (`EPERM`, `ENOENT`).
pub open spec fn is_absent(e: TransportError) -> bool {
    e matches TransportError::NlError { errno } && (errno == 1 || errno == 2)
}

/// The failure that a hash info reply stands for.
pub open spec fn info_error(reply: InfoReply) -> Option<CollectErrorView> {
    match reply {
        Err(e) if !is_absent(e) => Some(CollectErrorView::Io(e.text())),
        _ => None,
    }
}

/// The two samples of a hash info reply; none without a usable reply.
pub open spec fn info_samples(
    reply: InfoReply,
    ty: u16,
    count_name: Seq<char>,
    count_help: Seq<char>,
    max_name: Seq<char>,
    max_help: Seq<char>,
) -> Seq<SampleView> {
    match reply {
        Ok(Some(payload)) if payload@.len() >= 4 => seq![
            gauge_view(count_name, count_help, no_labels(), whole(hash_info(payload@, ty).0 as int)),
            gauge_view(max_name, max_help, no_labels(), whole(hash_info(payload@, ty).1 as int)),
        ],
        _ => seq![],
    }
}

/// The samples of the association database's hash table.
pub open spec fn sad_samples(reply: InfoReply) -> Seq<SampleView> {
    info_samples(
        reply,
        XFRMA_SAD_HINFO,
        "nft_xfrm_sad_hash_count"@,
        "Current SAD hash entry count"@,
        "nft_xfrm_sad_hash_max"@,
        "SAD hash bucket capacity"@,
    )
}

/// The samples of the policy database's hash table.
pub open spec fn spd_samples(reply: InfoReply) -> Seq<SampleView> {
    info_samples(
        reply,
        XFRMA_SPD_HINFO,
        "nft_xfrm_spd_hash_count"@,
        "Current SPD hash entry count"@,
        "nft_xfrm_spd_hash_max"@,
        "SPD hash bucket capacity"@,
    )
}

/// The failure of a hash info request, if it failed for another reason than an
/// absent subsystem.
pub fn info_failure(reply: &InfoReply) -> (r: Option<CollectError>)
    ensures
        r is Some <==> info_error(*reply) is Some,
        r matches Some(e) ==> info_error(*reply) == Some(collect_error_view(e)),
{
    match reply {
        Err(TransportError::NlError { errno }) => {
            if *errno == 1 || *errno == 2 {
                None
            } else {
                Some(CollectError::Io(TransportError::NlError { errno: *errno }.message()))
            }
        },
        Err(e) => Some(CollectError::Io(e.message())),
        Ok(_) => None,
    }
}

fn push_info(
    out: &mut Vec<MetricSample>,
    reply: &InfoReply,
    ty: u16,
    count_name: &'static str,
    count_help: &'static str,
    max_name: &'static str,
    max_help: &'static str,
)
    ensures
        views(final(out)@) == views(old(out)@) + info_samples(
            *reply,
            ty,
            count_name@,
            count_help@,
            max_name@,
            max_help@,
        ),
{
    let ghost start = views(out@);
    if let Ok(Some(payload)) = reply {
        if payload.len() >= 4 {
            let info = read_hash_info(payload.as_slice(), ty);
            let none = Labels::new();
            push_gauge(out, count_name, count_help, &none, GaugeValue::Whole(info.0 as i128));
            push_gauge(out, max_name, max_help, &none, GaugeValue::Whole(info.1 as i128));
        }
    }
    proof {
        assert(views(out@) =~= start + info_samples(
            *reply,
            ty,
            count_name@,
            count_help@,
            max_name@,
            max_help@,
        ));
    }
}

/// The failure of a scrape: that of the first hash info request that failed.
pub open spec fn xfrm_error(sad: InfoReply, spd: InfoReply) -> Option<CollectErrorView> {
    if info_error(sad) is Some {
        info_error(sad)
    } else {
        info_error(spd)
    }
}

/// Turns the replies of one scrape into samples.
///
/// Fails when a hash info request failed for another reason than an absent
/// subsystem, with the first such failure.
pub fn collect_xfrm(
    associations: &[Vec<u8>],
    policies: &[Vec<u8>],
    sad: &InfoReply,
    spd: &InfoReply,
) -> (r: Result<Vec<MetricSample>, CollectError>)
    ensures
        r is Err <==> xfrm_error(*sad, *spd) is Some,
        r matches Err(e) ==> xfrm_error(*sad, *spd) == Some(collect_error_view(e)),
        r matches Ok(samples) ==> views(samples@) == sa_samples(associations@) + policy_samples(
            policies@,
        ) + sad_samples(*sad) + spd_samples(*spd),
{
    if let Some(e) = info_failure(sad) {
        return Err(e);
    }
    if let Some(e) = info_failure(spd) {
        return Err(e);
    }
    let mut out: Vec<MetricSample> = Vec::new();
    let counted = count_associations(associations);
    push_pair_gauges(
        &mut out,
        &counted,
        "nft_xfrm_sa_count",
        "Number of XFRM Security Associations by protocol and mode",
        "proto",
        "mode",
    );
    proof {
        assert(views(out@) =~= sa_samples(associations@));
    }
    let counted = count_policies(policies);
    push_pair_gauges(
        &mut out,
        &counted,
        "nft_xfrm_sp_count",
        "Number of XFRM Security Policies by direction and action",
        "dir",
        "action",
    );
    push_info(
        &mut out,
        sad,
        XFRMA_SAD_HINFO,
        "nft_xfrm_sad_hash_count",
        "Current SAD hash entry count",
        "nft_xfrm_sad_hash_max",
        "SAD hash bucket capacity",
    );
    push_info(
        &mut out,
        spd,
        XFRMA_SPD_HINFO,
        "nft_xfrm_spd_hash_count",
        "Current SPD hash entry count",
        "nft_xfrm_spd_hash_max",
        "SPD hash bucket capacity",
    );
    Ok(out)
}

/// Collector for `IPsec` security associations and policies.
pub struct XfrmCollector;

impl XfrmCollector {
    /// Name of the collector.
    pub fn name(&self) -> (r: &'static str)
        ensures
            r@ == "xfrm-ipsec"@,
    {
        "xfrm-ipsec"
    }

    /// Whether the reply to the hash info probe shows the subsystem available.
    pub fn available(&self, probe: &InfoReply) -> (r: bool)
        ensures
            r == (*probe is Ok),
    {
        probe.is_ok()
    }
}

/// Every association that is long enough to be read is counted once: the counts
/// add up to the number of such frames.
pub proof fn law_associations_counted(frames: Seq<Vec<u8>>)
    ensures
        total(tally(sa_keys(frames))) == frames.filter(
            |f: Vec<u8>| f@.len() >= XFRM_SA_INFO_MIN,
        ).len(),
    decreases frames.len(),
{
    law_tally_total(sa_keys(frames));
    reveal(Seq::filter);
    if frames.len() > 0 {
        law_associations_counted(frames.drop_last());
        law_tally_total(sa_keys(frames.drop_last()));
    }
}

/// Every policy that is long enough to be read is counted once: the counts add
/// up to the number of such frames.
pub proof fn law_policies_counted(frames: Seq<Vec<u8>>)
    ensures
        total(tally(policy_keys(frames))) == frames.filter(
            |f: Vec<u8>| f@.len() >= XFRM_POLICY_INFO_MIN,
        ).len(),
    decreases frames.len(),
{
    law_tally_total(policy_keys(frames));
    reveal(Seq::filter);
    if frames.len() > 0 {
        law_policies_counted(frames.drop_last());
        law_tally_total(policy_keys(frames.drop_last()));
    }
}

/// Every security association counts for the protocol and the mode that stand in
/// its frame.
pub proof fn law_association_counts_once(frames: Seq<Vec<u8>>, frame: Vec<u8>, k: Key)
    ensures
        occurrences(sa_keys(frames.push(frame)), k) == occurrences(sa_keys(frames), k)
            + if frame@.len() >= 220 && k == (proto_text(frame@[76]), mode_text(frame@[214])) {
            1nat
        } else {
            0nat
        },
{
    assert(frames.push(frame).drop_last() =~= frames);
    let rest = sa_keys(frames);
    assert(rest.push((proto_text(frame@[76]), mode_text(frame@[214]))).drop_last() =~= rest);
}

/// Every policy counts for the direction and the action that stand in its frame.
pub proof fn law_policy_counts_once(frames: Seq<Vec<u8>>, frame: Vec<u8>, k: Key)
    ensures
        occurrences(policy_keys(frames.push(frame)), k) == occurrences(policy_keys(frames), k)
            + if frame@.len() >= 164 && k == (dir_text(frame@[160]), action_text(frame@[161])) {
            1nat
        } else {
            0nat
        },
{
    assert(frames.push(frame).drop_last() =~= frames);
    let rest = policy_keys(frames);
    assert(rest.push((dir_text(frame@[160]), action_text(frame@[161]))).drop_last() =~= rest);
}

/// The counts go out under the labels of what was counted.
pub proof fn law_counts_exported(frames: Seq<Vec<u8>>, k: Key)
    ensures
        occurrences(sa_keys(frames), k) > 0 ==> reads(
            sa_samples(frames),
            "nft_xfrm_sa_count"@,
            no_labels().insert("proto"@, k.0).insert("mode"@, k.1),
            GaugeValue::Whole(occurrences(sa_keys(frames), k) as i128),
        ),
        occurrences(policy_keys(frames), k) > 0 ==> reads(
            policy_samples(frames),
            "nft_xfrm_sp_count"@,
            no_labels().insert("dir"@, k.0).insert("action"@, k.1),
            GaugeValue::Whole(occurrences(policy_keys(frames), k) as i128),
        ),
{
    if occurrences(sa_keys(frames), k) > 0 {
        law_counts_reported(
            sa_keys(frames),
            k,
            "nft_xfrm_sa_count"@,
            "Number of XFRM Security Associations by protocol and mode"@,
            "proto"@,
            "mode"@,
        );
    }
    if occurrences(policy_keys(frames), k) > 0 {
        law_counts_reported(
            policy_keys(frames),
            k,
            "nft_xfrm_sp_count"@,
            "Number of XFRM Security Policies by direction and action"@,
            "dir"@,
            "action"@,
        );
    }
}

/// The hash tables are reported from their own replies: the first four bytes of
/// the attribute are the number of entries, the next four the capacity.
pub proof fn law_hash_tables_reported(reply: InfoReply, payload: Vec<u8>, p: Seq<u8>)
    requires
        reply == Ok::<Option<Vec<u8>>, TransportError>(Some(payload)),
        payload@.len() >= 4,
        last_attr(attrs(payload@.skip(4)), 2, 8) == Some(p),
    ensures
        reads(
            sad_samples(reply),
            "nft_xfrm_sad_hash_count"@,
            no_labels(),
            GaugeValue::Whole(u32_ne(p.subrange(0, 4)) as i128),
        ),
        reads(
            sad_samples(reply),
            "nft_xfrm_sad_hash_max"@,
            no_labels(),
            GaugeValue::Whole(u32_ne(p.subrange(4, 8)) as i128),
        ),
        reads(
            spd_samples(reply),
            "nft_xfrm_spd_hash_count"@,
            no_labels(),
            GaugeValue::Whole(u32_ne(p.subrange(0, 4)) as i128),
        ),
        reads(
            spd_samples(reply),
            "nft_xfrm_spd_hash_max"@,
            no_labels(),
            GaugeValue::Whole(u32_ne(p.subrange(4, 8)) as i128),
        ),
        sad_samples(reply).len() == 2 && spd_samples(reply).len() == 2,
{
    lemma_last_attr_len(attrs(payload@.skip(4)), 2, 8);
    let t = p.subrange(0, 4);
    assert(t[0] == p[0] && t[1] == p[1] && t[2] == p[2] && t[3] == p[3]);
    let q = p.skip(4);
    let u = p.subrange(4, 8);
    assert(q[0] == u[0] && q[1] == u[1] && q[2] == u[2] && q[3] == u[3]);
    let count = GaugeValue::Whole(u32_ne(t) as i128);
    let most = GaugeValue::Whole(u32_ne(u) as i128);
    assert(is_gauge(sad_samples(reply)[0], "nft_xfrm_sad_hash_count"@, no_labels(), count));
    assert(is_gauge(sad_samples(reply)[1], "nft_xfrm_sad_hash_max"@, no_labels(), most));
    assert(is_gauge(spd_samples(reply)[0], "nft_xfrm_spd_hash_count"@, no_labels(), count));
    assert(is_gauge(spd_samples(reply)[1], "nft_xfrm_spd_hash_max"@, no_labels(), most));
}

/// A kernel without the tables is no error: permission and absence give no
/// samples, every other refusal is passed on, the first one where both fail.
pub proof fn law_absence_is_no_error(e: TransportError, other: InfoReply, errno: i32)
    ensures
        is_absent(e) ==> info_error(Err(e)) is None && sad_samples(Err(e)).len() == 0
            && spd_samples(Err(e)).len() == 0,
        !is_absent(e) ==> xfrm_error(Err(e), other) == Some(CollectErrorView::Io(e.text())),
        is_absent(e) ==> xfrm_error(Err(e), other) == info_error(other),
        is_absent(TransportError::NlError { errno }) <==> errno == 1 || errno == 2,
{
}

/// Every protocol goes by its own name.
pub proof fn law_protocols_told_apart(code: u8)
    ensures
        proto_text(code) == "esp"@ <==> code == 50,
        proto_text(code) == "ah"@ <==> code == 51,
        proto_text(code) == "comp"@ <==> code == 108,
        (code != 50 && code != 51 && code != 108) ==> proto_text(code) == "other"@,
{
    reveal_strlit("esp");
    reveal_strlit("ah");
    reveal_strlit("comp");
    reveal_strlit("other");
    assert("esp"@.len() == 3);
    assert("ah"@.len() == 2);
    assert("comp"@.len() == 4);
    assert("other"@.len() == 5);
}

/// Every mode goes by its own name.
pub proof fn law_modes_told_apart(code: u8)
    ensures
        mode_text(code) == "transport"@ <==> code == 0,
        mode_text(code) == "tunnel"@ <==> code == 1,
        mode_text(code) == "beet"@ <==> code == 4,
        (code != 0 && code != 1 && code != 4) ==> mode_text(code) == "other"@,
{
    reveal_strlit("transport");
    reveal_strlit("tunnel");
    reveal_strlit("beet");
    reveal_strlit("other");
    assert("transport"@.len() == 9);
    assert("tunnel"@.len() == 6);
    assert("beet"@.len() == 4);
    assert("other"@.len() == 5);
}

/// Every direction goes by its own name.
pub proof fn law_directions_told_apart(code: u8)
    ensures
        dir_text(code) == "in"@ <==> code == 0,
        dir_text(code) == "out"@ <==> code == 1,
        dir_text(code) == "fwd"@ <==> code == 2,
        (code != 0 && code != 1 && code != 2) ==> dir_text(code) == "other"@,
{
    reveal_strlit("in");
    reveal_strlit("out");
    reveal_strlit("fwd");
    reveal_strlit("other");
    assert("in"@.len() == 2);
    assert("out"@.len() == 3);
    assert("fwd"@.len() == 3);
    assert("other"@.len() == 5);
    assert("out"@[0] == 'o' && "fwd"@[0] == 'f');
}

/// An action of zero allows, every other blocks.
pub proof fn law_actions_told_apart(code: u8)
    ensures
        action_text(code) == "allow"@ <==> code == 0,
        (code != 0) ==> action_text(code) == "block"@,
{
    reveal_strlit("allow");
    reveal_strlit("block");
    assert("allow"@.len() == 5);
    assert("block"@.len() == 5);
    assert("allow"@[0] == 'a' && "block"@[0] == 'b');
}

/// A scrape holds all four parts: the counts of associations and policies, and
/// what the two tables report.
pub proof fn law_all_parts_exported(
    associations: Seq<Vec<u8>>,
    policies: Seq<Vec<u8>>,
    sad: InfoReply,
    spd: InfoReply,
)
    ensures
        ({
            let all = sa_samples(associations) + policy_samples(policies) + sad_samples(sad)
                + spd_samples(spd);
            &&& holds(all, sa_samples(associations))
            &&& holds(all, policy_samples(policies))
            &&& holds(all, sad_samples(sad))
            &&& holds(all, spd_samples(spd))
        }),
{
    let a = sa_samples(associations);
    let b = policy_samples(policies);
    let c = sad_samples(sad);
    let d = spd_samples(spd);
    let all = a + b + c + d;
    assert(all =~= seq![] + a + (b + c + d));
    lemma_holds(all, seq![], a, b + c + d);
    assert(all =~= a + b + (c + d));
    lemma_holds(all, a, b, c + d);
    lemma_holds(all, a + b, c, d);
    assert(all =~= (a + b + c) + d + seq![]);
    lemma_holds(all, a + b + c, d, seq![]);
}

/// No reply, or one without a whole header, gives no samples; a reply without the
/// attribute gives zeros.
pub proof fn law_hash_tables_missing(payload: Vec<u8>)
    ensures
        sad_samples(Ok(None)).len() == 0 && spd_samples(Ok(None)).len() == 0,
        payload@.len() < 4 ==> sad_samples(Ok(Some(payload))).len() == 0 && spd_samples(
            Ok(Some(payload)),
        ).len() == 0,
        payload@.len() >= 4 && last_attr(attrs(payload@.skip(4)), 2, 8) is None ==> hash_info(
            payload@,
            2,
        ) == (0u32, 0u32) && sad_samples(Ok(Some(payload))).len() == 2 && spd_samples(
            Ok(Some(payload)),
        ).len() == 2,
{
}

} // verus!
