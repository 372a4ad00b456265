//! IPsec labels and hash-table information.
use netlink_exporter::collectors::xfrm::{
    action_label, collect_xfrm, count_associations, count_policies, dir_label, info_failure,
    mode_label, proto_label, POLICY_ACTION_OFFSET, POLICY_DIR_OFFSET, SA_MODE_OFFSET,
    SA_PROTO_OFFSET, XFRMA_SAD_HINFO, XFRM_HASHINFO_MIN, XFRM_POLICY_INFO_MIN, XFRM_SA_INFO_MIN,
    XfrmCollector,
};
use netlink_exporter::error::{CollectError, TransportError};
use netlink_exporter::labels::Labels;
use netlink_exporter::metric::{GaugeValue, MetricValue};
use netlink_exporter::wire::{parse_attrs, push_nlattr};

#[test]
fn proto_label_known_protocols() {
    assert_eq!(proto_label(50), "esp");
    assert_eq!(proto_label(51), "ah");
    assert_eq!(proto_label(108), "comp");
}

#[test]
fn proto_label_unknown_falls_back() {
    assert_eq!(proto_label(0), "other");
    assert_eq!(proto_label(255), "other");
    assert_eq!(proto_label(17), "other"); // UDP is not an IPsec proto
}

#[test]
fn mode_label_known_modes() {
    assert_eq!(mode_label(0), "transport");
    assert_eq!(mode_label(1), "tunnel");
    assert_eq!(mode_label(4), "beet");
}

#[test]
fn mode_label_unknown_falls_back() {
    assert_eq!(mode_label(2), "other");
    assert_eq!(mode_label(3), "other");
    assert_eq!(mode_label(255), "other");
}

#[test]
fn dir_label_xfrm_policy_directions() {
    // XFRM_POLICY_IN=0, XFRM_POLICY_OUT=1, XFRM_POLICY_FWD=2
    // include/uapi/linux/xfrm.h:137-139
    assert_eq!(dir_label(0), "in");
    assert_eq!(dir_label(1), "out");
    assert_eq!(dir_label(2), "fwd");
}

#[test]
fn dir_label_unknown_falls_back() {
    assert_eq!(dir_label(3), "other");
    assert_eq!(dir_label(255), "other");
}

#[test]
fn action_label_allow_and_block() {
    assert_eq!(action_label(0), "allow");
    assert_eq!(action_label(1), "block");
    assert_eq!(action_label(2), "block");
    assert_eq!(action_label(255), "block");
}

//
// Validates that XFRMA_SAD_HINFO is correctly recognised at NLA type 2
// (not 3) and that sadhcnt / sadhmcnt are decoded from the right offsets.
//
// Wire layout of a synthetic GETSADINFO unicast reply payload (after the
// netlink message header):
//
//   [0..4]   u32 flags (echoed) = 0xFFFF_FFFF (native-endian)
//   [4..]    NLA sequence:
//     NLA 1: XFRMA_SAD_CNT (type=1)  — 4-byte header + 4-byte u32 payload
//       nla_len=8, nla_type=1, payload=42 (u32 native-endian)
//     NLA 2: XFRMA_SAD_HINFO (type=2) — 4-byte header + 8-byte struct payload
//       nla_len=12, nla_type=2, payload={sadhcnt=7, sadhmcnt=64} (u32 ne each)
//
// NLA header format (include/uapi/linux/netlink.h):
//   u16 nla_len  (LE) — total length including 4-byte header
//   u16 nla_type (LE) — attribute type; bits 14-15 reserved, masked by NlaIter
//
// Total payload: 4 (flags) + 8 (NLA1) + 12 (NLA2) = 24 bytes.
// NLA1 stride = align4(8) = 8; NLA2 stride = align4(12) = 12.

#[test]
fn parse_getsadinfo_reply_hinfo_type2() {
    // flags: 0xFFFF_FFFF in native-endian
    let flags = 0xFFFF_FFFFu32.to_ne_bytes();

    // NLA 1: XFRMA_SAD_CNT (type=1), payload=42u32
    let nla1_len: u16 = 8; // 4 hdr + 4 payload
    let nla1_type: u16 = 1; // XFRMA_SAD_CNT
    let nla1_payload = 42u32.to_ne_bytes();

    // NLA 2: XFRMA_SAD_HINFO (type=2), payload={sadhcnt=7, sadhmcnt=64}
    let nla2_len: u16 = 12; // 4 hdr + 8 payload
    let nla2_type: u16 = 2; // XFRMA_SAD_HINFO — must be 2, not 3
    let sadhcnt = 7u32.to_ne_bytes();
    let sadhmcnt = 64u32.to_ne_bytes();

    let mut buf: Vec<u8> = Vec::with_capacity(24);
    buf.extend_from_slice(&flags);
    buf.extend_from_slice(&nla1_len.to_ne_bytes());
    buf.extend_from_slice(&nla1_type.to_ne_bytes());
    buf.extend_from_slice(&nla1_payload);
    buf.extend_from_slice(&nla2_len.to_ne_bytes());
    buf.extend_from_slice(&nla2_type.to_ne_bytes());
    buf.extend_from_slice(&sadhcnt);
    buf.extend_from_slice(&sadhmcnt);

    assert_eq!(buf.len(), 24);

    // The attributes follow the 4-byte flags prefix.
    let nla_buf = buf.get(4..).expect("nla_buf slice");
    let (mut parsed_sadhcnt, mut parsed_sadhmcnt) = (0u32, 0u32);
    for attr in parse_attrs(nla_buf).collect() {
        if attr.ty == XFRMA_SAD_HINFO && attr.payload.len() >= XFRM_HASHINFO_MIN {
            if let (Some(hcnt), Some(hmcnt)) = (attr.payload.get(0..4), attr.payload.get(4..8))
            {
                parsed_sadhcnt = u32::from_ne_bytes(hcnt.try_into().expect("hcnt 4 bytes"));
                parsed_sadhmcnt = u32::from_ne_bytes(hmcnt.try_into().expect("hmcnt 4 bytes"));
            }
        }
    }

    // XFRMA_SAD_HINFO at type=2 must be matched (not skipped as type=3).
    assert_eq!(
        parsed_sadhcnt, 7,
        "sadhcnt must be parsed when XFRMA_SAD_HINFO=2"
    );
    assert_eq!(
        parsed_sadhmcnt, 64,
        "sadhmcnt must be parsed when XFRMA_SAD_HINFO=2"
    );

    let out = collect_xfrm(&[], &[], &Ok(Some(buf)), &Ok(None)).unwrap();
    assert_eq!(out[0].value, MetricValue::F64(GaugeValue::Whole(7)));
    assert_eq!(out[1].value, MetricValue::F64(GaugeValue::Whole(64)));
}

/// An attribute of type 3 is no hash information: both counts stay at 0.
#[test]
fn parse_getsadinfo_reply_wrong_type3_yields_zero() {
    let flags = 0u32.to_ne_bytes();
    let nla_len: u16 = 12;
    let wrong_type: u16 = 3;
    let sadhcnt = 99u32.to_ne_bytes();
    let sadhmcnt = 128u32.to_ne_bytes();

    let mut buf: Vec<u8> = Vec::with_capacity(16);
    buf.extend_from_slice(&flags);
    buf.extend_from_slice(&nla_len.to_ne_bytes());
    buf.extend_from_slice(&wrong_type.to_ne_bytes());
    buf.extend_from_slice(&sadhcnt);
    buf.extend_from_slice(&sadhmcnt);

    let nla_buf = buf.get(4..).expect("nla_buf");
    let (mut parsed_sadhcnt, mut parsed_sadhmcnt) = (0u32, 0u32);
    for attr in parse_attrs(nla_buf).collect() {
        // XFRMA_SAD_HINFO is 2 — type=3 must NOT match.
        if attr.ty == XFRMA_SAD_HINFO && attr.payload.len() >= XFRM_HASHINFO_MIN {
            if let (Some(hcnt), Some(hmcnt)) = (attr.payload.get(0..4), attr.payload.get(4..8))
            {
                parsed_sadhcnt = u32::from_ne_bytes(hcnt.try_into().expect("hcnt"));
                parsed_sadhmcnt = u32::from_ne_bytes(hmcnt.try_into().expect("hmcnt"));
            }
        }
    }
    assert_eq!(parsed_sadhcnt, 0, "type=3 must not match XFRMA_SAD_HINFO=2");
    assert_eq!(
        parsed_sadhmcnt, 0,
        "type=3 must not match XFRMA_SAD_HINFO=2"
    );

    let out = collect_xfrm(&[], &[], &Ok(Some(buf)), &Ok(None)).unwrap();
    assert_eq!(out[0].value, MetricValue::F64(GaugeValue::Whole(0)));
    assert_eq!(out[1].value, MetricValue::F64(GaugeValue::Whole(0)));
}

fn association(proto: u8, mode: u8) -> Vec<u8> {
    let mut f = vec![0u8; XFRM_SA_INFO_MIN];
    f[SA_PROTO_OFFSET] = proto;
    f[SA_MODE_OFFSET] = mode;
    f
}

fn policy(dir: u8, action: u8) -> Vec<u8> {
    let mut f = vec![0u8; XFRM_POLICY_INFO_MIN];
    f[POLICY_DIR_OFFSET] = dir;
    f[POLICY_ACTION_OFFSET] = action;
    f
}

fn info(count: u32, max: u32) -> Vec<u8> {
    let mut f = 0xFFFF_FFFFu32.to_ne_bytes().to_vec();
    push_nlattr(&mut f, 1, &42u32.to_ne_bytes());
    let mut both = count.to_ne_bytes().to_vec();
    both.extend_from_slice(&max.to_ne_bytes());
    push_nlattr(&mut f, XFRMA_SAD_HINFO, &both);
    f
}

/// Every frame that is long enough is counted once.
#[test]
fn frames_are_counted() {
    let t = count_associations(&[
        association(50, 1),
        association(51, 0),
        association(50, 1),
        vec![0; XFRM_SA_INFO_MIN - 1],
    ]);
    assert_eq!(t.get("esp", "tunnel"), 2);
    assert_eq!(t.get("ah", "transport"), 1);
    assert_eq!(t.entries.iter().map(|c| c.count).sum::<u64>(), 3);
    let t = count_policies(&[policy(2, 0), policy(2, 9), vec![0; XFRM_POLICY_INFO_MIN - 1]]);
    assert_eq!(t.get("fwd", "allow"), 1);
    assert_eq!(t.get("fwd", "block"), 1);
    assert_eq!(t.entries.len(), 2);
}

#[test]
fn samples_of_one_scrape() {
    let out = collect_xfrm(
        &[association(50, 1)],
        &[policy(0, 0)],
        &Ok(Some(info(7, 64))),
        &Ok(Some(info(8, 128))),
    )
    .unwrap();
    let all: Vec<(&str, MetricValue)> = out.iter().map(|s| (s.name, s.value)).collect();
    let whole = |n| MetricValue::F64(GaugeValue::Whole(n));
    assert_eq!(
        all,
        vec![
            ("nft_xfrm_sa_count", whole(1)),
            ("nft_xfrm_sp_count", whole(1)),
            ("nft_xfrm_sad_hash_count", whole(7)),
            ("nft_xfrm_sad_hash_max", whole(64)),
            ("nft_xfrm_spd_hash_count", whole(8)),
            ("nft_xfrm_spd_hash_max", whole(128)),
        ]
    );
    assert_eq!(out[0].labels, Labels::new().with("proto", "esp").with("mode", "tunnel"));
    assert_eq!(out[1].labels, Labels::new().with("dir", "in").with("action", "allow"));
    assert!(out[2].labels.is_empty());
}

/// An attribute of another type leaves the hash information at zero.
#[test]
fn hash_information_of_another_type() {
    let mut reply = vec![0u8; 4];
    push_nlattr(&mut reply, 3, &[9; 8]);
    let out = collect_xfrm(&[], &[], &Ok(Some(reply)), &Ok(None)).unwrap();
    assert_eq!(out.len(), 2);
    assert_eq!(out[0].value, MetricValue::F64(GaugeValue::Whole(0)));
}

/// An absent subsystem or a missing or short reply gives no hash samples.
#[test]
fn absent_hash_information() {
    for errno in [1, 2] {
        let absent = || Err(TransportError::NlError { errno });
        assert!(collect_xfrm(&[], &[], &absent(), &absent()).unwrap().is_empty());
    }
    assert!(collect_xfrm(&[], &[], &Ok(None), &Ok(Some(vec![0; 3]))).unwrap().is_empty());
}

/// Other failures end the scrape, the first of them being told.
#[test]
fn failed_hash_information() {
    let sad = Err(TransportError::NlError { errno: 13 });
    let spd = Err(TransportError::RecvBufOverflow);
    assert_eq!(
        collect_xfrm(&[], &[], &sad, &spd),
        Err(CollectError::Io("netlink error response: errno=13".to_owned()))
    );
    assert_eq!(
        collect_xfrm(&[], &[], &Ok(None), &spd),
        Err(CollectError::Io("netlink receive buffer overflow (ENOBUFS)".to_owned()))
    );
    assert!(info_failure(&sad).is_some());
    assert!(info_failure(&Ok(None)).is_none());
}

#[test]
fn probe_of_the_subsystem() {
    assert!(XfrmCollector.available(&Ok(None)));
    assert!(!XfrmCollector.available(&Err(TransportError::NlError { errno: 2 })));
    assert_eq!(XfrmCollector.name(), "xfrm-ipsec");
}
