//! Frames of the packet filter and the samples built from them.
use netlink_exporter::collectors::nftables::{
    build_metrics, cstr_to_string, extract_rule_comment, family_label, hook_label, key_type_label,
    limit_type_label, map_domain_err, nfgenmsg, parse_chain_frame, parse_counter, parse_counters,
    parse_flowtable_frame, parse_gen_frame, parse_limit, parse_limits, parse_obj_type, parse_quota,
    parse_quotas, parse_rule_frame, parse_set_frame, parse_table_frame, policy_label,
    ruleset_generation,
    NFTA_CHAIN_HOOK, NFTA_CHAIN_NAME, NFTA_CHAIN_POLICY, NFTA_CHAIN_TABLE, NFTA_CHAIN_TYPE,
    NFTA_COUNTER_BYTES, NFTA_COUNTER_PACKETS, NFTA_EXPR_DATA, NFTA_EXPR_NAME, NFTA_FLOWTABLE_FLAGS,
    NFTA_FLOWTABLE_HOOK, NFTA_FLOWTABLE_HOOK_NUM, NFTA_FLOWTABLE_HOOK_PRIORITY,
    NFTA_FLOWTABLE_NAME, NFTA_FLOWTABLE_TABLE, NFTA_GEN_ID, NFTA_HOOK_HOOKNUM, NFTA_HOOK_PRIORITY,
    NFTA_LIMIT_BURST, NFTA_LIMIT_RATE, NFTA_LIMIT_TYPE, NFTA_LIMIT_UNIT, NFTA_LIST_ELEM,
    NFTA_OBJ_DATA, NFTA_OBJ_NAME, NFTA_OBJ_TABLE, NFTA_OBJ_TYPE, NFTA_QUOTA_BYTES,
    NFTA_QUOTA_CONSUMED, NFTA_QUOTA_FLAGS, NFTA_RULE_CHAIN, NFTA_RULE_EXPRESSIONS, NFTA_RULE_TABLE,
    NFTA_RULE_USERDATA, NFTA_SET_COUNT, NFTA_SET_DESC, NFTA_SET_DESC_SIZE, NFTA_SET_FLAGS,
    NFTA_SET_KEY_TYPE, NFTA_SET_NAME, NFTA_SET_TABLE, NFTA_TABLE_NAME, NFT_FLOWTABLE_HW_OFFLOAD,
    NFT_MSG_GETCHAIN, NFT_MSG_GETFLOWTABLE, NFT_MSG_GETGEN, NFT_MSG_GETOBJ, NFT_MSG_GETRULE,
    NFT_MSG_GETSET, NFT_MSG_GETTABLE, NFT_OBJECT_LIMIT, NFT_OBJECT_QUOTA, NFT_QUOTA_F_DEPLETED,
    NFT_SET_ANONYMOUS, NftDumps, NftablesCollector, RULE_COUNTER_MAX_SERIES,
};
use netlink_exporter::error::{CollectError, DomainError};
use netlink_exporter::metric::{GaugeValue, MetricValue};
use netlink_exporter::model::nftables::{NftChain, NftCounter, NftRuleCounter, NftTable};
use netlink_exporter::wire::{align4, NLA_HDRLEN};

fn make_nla(ty: u16, payload: &[u8]) -> Vec<u8> {
    let nla_len = NLA_HDRLEN + payload.len();
    let padded = align4(nla_len);
    let mut out = Vec::with_capacity(padded);
    out.extend_from_slice(&(nla_len as u16).to_ne_bytes());
    out.extend_from_slice(&ty.to_ne_bytes());
    out.extend_from_slice(payload);
    out.resize(padded, 0u8);
    out
}

fn make_nested_nla(ty: u16, inner: &[u8]) -> Vec<u8> {
    make_nla(ty | 0x8000u16, inner) // NLA_F_NESTED set in wire encoding
}

fn make_table_frame(family: u8, name: &str) -> Vec<u8> {
    let mut frame = vec![family, 0u8, 0u8, 0u8]; // nfgenmsg
    let mut nul_name = name.as_bytes().to_vec();
    nul_name.push(0u8);
    frame.extend_from_slice(&make_nla(NFTA_TABLE_NAME, &nul_name));
    frame
}

/// Build a chain frame with HOOK nested containing HOOKNUM + PRIORITY (BE).
fn make_chain_frame_be(hooknum: u32, priority: i32, policy: u32) -> Vec<u8> {
    let mut frame = vec![2u8, 0u8, 0u8, 0u8]; // nfgenmsg AF_INET(2)
    frame.extend_from_slice(&make_nla(NFTA_CHAIN_TABLE, b"filter "));
    frame.extend_from_slice(&make_nla(NFTA_CHAIN_NAME, b"input "));
    frame.extend_from_slice(&make_nla(NFTA_CHAIN_TYPE, b"filter "));

    let mut hook_inner = make_nla(NFTA_HOOK_HOOKNUM, &hooknum.to_be_bytes());
    hook_inner.extend_from_slice(&make_nla(
        NFTA_HOOK_PRIORITY,
        &(priority as u32).to_be_bytes(),
    ));
    frame.extend_from_slice(&make_nested_nla(NFTA_CHAIN_HOOK, &hook_inner));
    frame.extend_from_slice(&make_nla(NFTA_CHAIN_POLICY, &policy.to_be_bytes()));
    frame
}

/// Build a rule frame with a "counter" expression and a userdata comment.
fn make_rule_frame_with_counter(
    table: &str,
    chain: &str,
    comment: &str,
    bytes: u64,
    packets: u64,
) -> Vec<u8> {
    let mut frame = vec![0u8; 4]; // nfgenmsg

    // Table + chain
    let mut tbl = table.as_bytes().to_vec();
    tbl.push(0u8);
    let mut chn = chain.as_bytes().to_vec();
    chn.push(0u8);
    frame.extend_from_slice(&make_nla(NFTA_RULE_TABLE, &tbl));
    frame.extend_from_slice(&make_nla(NFTA_RULE_CHAIN, &chn));

    // Userdata TLV: type=0, len=comment.len()+1, data=comment+NUL
    let comment_bytes = comment.as_bytes();
    let tlv_len = comment_bytes.len() + 1; // +1 for NUL
    let mut userdata = vec![0u8, tlv_len as u8];
    userdata.extend_from_slice(comment_bytes);
    userdata.push(0u8); // NUL terminator
    frame.extend_from_slice(&make_nla(NFTA_RULE_USERDATA, &userdata));

    // Expressions: one LIST_ELEM containing EXPR_NAME="counter" + EXPR_DATA
    let mut expr_name_bytes = b"counter".to_vec();
    expr_name_bytes.push(0u8);
    let expr_name_nla = make_nla(NFTA_EXPR_NAME, &expr_name_bytes);

    let bytes_nla = make_nla(NFTA_COUNTER_BYTES, &bytes.to_be_bytes());
    let pkts_nla = make_nla(NFTA_COUNTER_PACKETS, &packets.to_be_bytes());
    let mut counter_data = bytes_nla;
    counter_data.extend_from_slice(&pkts_nla);
    let expr_data_nla = make_nested_nla(NFTA_EXPR_DATA, &counter_data);

    let mut expr_inner = expr_name_nla;
    expr_inner.extend_from_slice(&expr_data_nla);
    let list_elem_nla = make_nested_nla(NFTA_LIST_ELEM, &expr_inner);

    let exprs_nla = make_nested_nla(NFTA_RULE_EXPRESSIONS, &list_elem_nla);
    frame.extend_from_slice(&exprs_nla);

    frame
}

#[test]
fn parse_table_frame_basic() {
    let frame = make_table_frame(2, "my_table"); // AF_INET
    let table = parse_table_frame(&frame).expect("should parse");
    assert_eq!(table.family, "ip");
    assert_eq!(table.name, "my_table");
}

#[test]
fn parse_table_frame_empty_name_returns_none() {
    let frame = vec![1u8, 0u8, 0u8, 0u8]; // nfgenmsg only, no NFTA_TABLE_NAME
    assert!(parse_table_frame(&frame).is_none());
}

#[test]
fn parse_chain_frame_policy_accept_big_endian() {
    let frame = make_chain_frame_be(1, 0, 1 /* NF_ACCEPT */);
    let chain = parse_chain_frame(&frame).expect("should parse chain frame");
    assert_eq!(chain.policy, "accept");
}

#[test]
fn parse_chain_frame_policy_drop_big_endian() {
    let frame = make_chain_frame_be(3, 0, 0 /* NF_DROP */);
    let chain = parse_chain_frame(&frame).expect("should parse chain frame");
    assert_eq!(chain.policy, "drop");
}

#[test]
fn parse_chain_frame_hooknum_input_big_endian() {
    let frame = make_chain_frame_be(1, 0, 1);
    let chain = parse_chain_frame(&frame).expect("should parse");
    assert_eq!(chain.hook, "input");
}

#[test]
fn parse_chain_frame_hooknum_forward_big_endian() {
    let frame = make_chain_frame_be(2, 0, 1);
    let chain = parse_chain_frame(&frame).expect("should parse");
    assert_eq!(chain.hook, "forward");
}

#[test]
fn parse_chain_frame_priority_negative_big_endian() {
    let frame = make_chain_frame_be(1, -100, 1);
    let chain = parse_chain_frame(&frame).expect("should parse");
    assert_eq!(chain.priority, -100);
}

#[test]
fn parse_rule_frame_with_comment_and_counter() {
    let frame = make_rule_frame_with_counter("filter", "input", "allow_https", 4096, 32);
    let rc = parse_rule_frame(&frame).expect("should parse rule with counter+comment");
    assert_eq!(rc.table, "filter");
    assert_eq!(rc.chain, "input");
    assert_eq!(rc.comment, "allow_https");
    assert_eq!(rc.bytes, 4096);
    assert_eq!(rc.packets, 32);
}

#[test]
fn parse_rule_frame_anonymous_returns_none() {
    // Rule with no NFTA_RULE_USERDATA → no comment → None.
    let mut frame = vec![0u8; 4];
    frame.extend_from_slice(&make_nla(NFTA_RULE_TABLE, b"filter\0"));
    frame.extend_from_slice(&make_nla(NFTA_RULE_CHAIN, b"input\0"));
    // Expressions with counter but no userdata.
    let bytes_nla = make_nla(NFTA_COUNTER_BYTES, &0u64.to_be_bytes());
    let pkts_nla = make_nla(NFTA_COUNTER_PACKETS, &0u64.to_be_bytes());
    let mut counter_data = bytes_nla;
    counter_data.extend_from_slice(&pkts_nla);
    let expr_data_nla = make_nested_nla(NFTA_EXPR_DATA, &counter_data);
    let expr_name_nla = make_nla(NFTA_EXPR_NAME, b"counter\0");
    let mut expr_inner = expr_name_nla;
    expr_inner.extend_from_slice(&expr_data_nla);
    let list_elem = make_nested_nla(NFTA_LIST_ELEM, &expr_inner);
    let exprs = make_nested_nla(NFTA_RULE_EXPRESSIONS, &list_elem);
    frame.extend_from_slice(&exprs);
    assert!(parse_rule_frame(&frame).is_none());
}

#[test]
fn parse_rule_frame_no_counter_returns_none() {
    // Rule has comment but only a "meta" expression (no counter).
    let mut frame = vec![0u8; 4];
    frame.extend_from_slice(&make_nla(NFTA_RULE_TABLE, b"filter\0"));
    frame.extend_from_slice(&make_nla(NFTA_RULE_CHAIN, b"input\0"));
    // Userdata with comment.
    let comment_bytes = b"my_rule";
    let tlv_len = comment_bytes.len() + 1;
    let mut userdata = vec![0u8, tlv_len as u8];
    userdata.extend_from_slice(comment_bytes);
    userdata.push(0u8);
    frame.extend_from_slice(&make_nla(NFTA_RULE_USERDATA, &userdata));
    // Expression: "meta" (not counter).
    let expr_name_nla = make_nla(NFTA_EXPR_NAME, b"meta\0");
    let list_elem = make_nested_nla(NFTA_LIST_ELEM, &expr_name_nla);
    let exprs = make_nested_nla(NFTA_RULE_EXPRESSIONS, &list_elem);
    frame.extend_from_slice(&exprs);
    assert!(parse_rule_frame(&frame).is_none());
}

#[test]
fn parse_counter_obj_bytes_big_endian() {
    let bytes_be: u64 = 0x0102_0304_0506_0708;
    let pkts_be: u64 = 0x0000_0000_0000_0042;

    let bytes_nla = make_nla(NFTA_COUNTER_BYTES, &bytes_be.to_be_bytes());
    let pkts_nla = make_nla(NFTA_COUNTER_PACKETS, &pkts_be.to_be_bytes());
    let mut data_inner = bytes_nla;
    data_inner.extend_from_slice(&pkts_nla);
    let obj_data_nla = make_nested_nla(NFTA_OBJ_DATA, &data_inner);

    let mut frame = vec![0u8; 4];
    frame.extend_from_slice(&make_nla(NFTA_OBJ_TABLE, b"filter\0"));
    frame.extend_from_slice(&make_nla(NFTA_OBJ_NAME, b"my_counter\0"));
    frame.extend_from_slice(&make_nla(NFTA_OBJ_TYPE, &1u32.to_be_bytes()));
    frame.extend_from_slice(&obj_data_nla);

    let counter = parse_counter(&frame).expect("should parse counter frame");
    assert_eq!(counter.bytes, bytes_be);
    assert_eq!(counter.packets, pkts_be);
}

#[test]
fn parse_obj_frame_non_counter_returns_none_for_parse_counter() {
    let mut frame = vec![0u8; 4];
    frame.extend_from_slice(&make_nla(NFTA_OBJ_TYPE, &2u32.to_be_bytes())); // quota
    frame.extend_from_slice(&make_nla(NFTA_OBJ_NAME, b"x\0"));
    assert!(parse_counter(&frame).is_none());
}

#[test]
fn parse_set_frame_named_set() {
    let mut frame = vec![0u8; 4];
    frame.extend_from_slice(&make_nla(NFTA_SET_TABLE, b"filter\0"));
    frame.extend_from_slice(&make_nla(NFTA_SET_NAME, b"blacklist\0"));
    frame.extend_from_slice(&make_nla(NFTA_SET_FLAGS, &0u32.to_be_bytes()));
    frame.extend_from_slice(&make_nla(NFTA_SET_KEY_TYPE, &0x000cu32.to_be_bytes())); // ipv4_addr
    frame.extend_from_slice(&make_nla(NFTA_SET_COUNT, &42u32.to_be_bytes()));

    let set = parse_set_frame(&frame).expect("should parse named set");
    assert_eq!(set.table, "filter");
    assert_eq!(set.name, "blacklist");
    assert_eq!(set.key_type, "ipv4_addr");
    assert_eq!(set.element_count, 42);
}

#[test]
fn parse_set_frame_anonymous_excluded() {
    let mut frame = vec![0u8; 4];
    frame.extend_from_slice(&make_nla(NFTA_SET_TABLE, b"filter\0"));
    frame.extend_from_slice(&make_nla(NFTA_SET_NAME, b"__anon_set\0"));
    frame.extend_from_slice(&make_nla(NFTA_SET_FLAGS, &NFT_SET_ANONYMOUS.to_be_bytes()));
    frame.extend_from_slice(&make_nla(NFTA_SET_COUNT, &10u32.to_be_bytes()));
    assert!(parse_set_frame(&frame).is_none());
}

#[test]
fn parse_gen_frame_be() {
    let mut frame = vec![0u8; 4]; // nfgenmsg
    frame.extend_from_slice(&make_nla(NFTA_GEN_ID, &42u32.to_be_bytes()));
    let gen_id = parse_gen_frame(&frame).expect("should parse gen frame");
    assert_eq!(gen_id, 42);
}

#[test]
fn parse_quota_frame_depleted() {
    let quota_flags = NFT_QUOTA_F_DEPLETED;

    let bytes_nla = make_nla(NFTA_QUOTA_BYTES, &1_000_000u64.to_be_bytes());
    let flags_nla = make_nla(NFTA_QUOTA_FLAGS, &quota_flags.to_be_bytes());
    let consumed_nla = make_nla(NFTA_QUOTA_CONSUMED, &1_000_001u64.to_be_bytes());

    let mut data_inner = bytes_nla;
    data_inner.extend_from_slice(&flags_nla);
    data_inner.extend_from_slice(&consumed_nla);
    let obj_data_nla = make_nested_nla(NFTA_OBJ_DATA, &data_inner);

    let mut frame = vec![0u8; 4];
    frame.extend_from_slice(&make_nla(NFTA_OBJ_TABLE, b"filter\0"));
    frame.extend_from_slice(&make_nla(NFTA_OBJ_NAME, b"monthly_cap\0"));
    frame.extend_from_slice(&make_nla(NFTA_OBJ_TYPE, &NFT_OBJECT_QUOTA.to_be_bytes()));
    frame.extend_from_slice(&obj_data_nla);

    let quota = parse_quota(&frame).expect("should parse quota");
    assert!(quota.depleted, "quota should be marked depleted");
    assert_eq!(quota.bytes_ceiling, 1_000_000);
    assert_eq!(quota.bytes_consumed, 1_000_001);
}

#[test]
fn parse_quota_frame_not_depleted() {
    let bytes_nla = make_nla(NFTA_QUOTA_BYTES, &1_000_000u64.to_be_bytes());
    let flags_nla = make_nla(NFTA_QUOTA_FLAGS, &0u32.to_be_bytes());
    let consumed_nla = make_nla(NFTA_QUOTA_CONSUMED, &500_000u64.to_be_bytes());

    let mut data_inner = bytes_nla;
    data_inner.extend_from_slice(&flags_nla);
    data_inner.extend_from_slice(&consumed_nla);
    let obj_data_nla = make_nested_nla(NFTA_OBJ_DATA, &data_inner);

    let mut frame = vec![0u8; 4];
    frame.extend_from_slice(&make_nla(NFTA_OBJ_TABLE, b"filter\0"));
    frame.extend_from_slice(&make_nla(NFTA_OBJ_NAME, b"daily_cap\0"));
    frame.extend_from_slice(&make_nla(NFTA_OBJ_TYPE, &NFT_OBJECT_QUOTA.to_be_bytes()));
    frame.extend_from_slice(&obj_data_nla);

    let quota = parse_quota(&frame).expect("should parse quota");
    assert!(!quota.depleted);
    assert_eq!(quota.bytes_consumed, 500_000);
}

#[test]
fn parse_limit_frame_bytes_type() {
    let rate_nla = make_nla(NFTA_LIMIT_RATE, &1_000_000u64.to_be_bytes());
    let unit_nla = make_nla(NFTA_LIMIT_UNIT, &1u64.to_be_bytes()); // 1 second
    let burst_nla = make_nla(NFTA_LIMIT_BURST, &256u32.to_be_bytes());
    let type_nla = make_nla(NFTA_LIMIT_TYPE, &1u32.to_be_bytes()); // NFT_LIMIT_PKT_BYTES

    let mut data_inner = rate_nla;
    data_inner.extend_from_slice(&unit_nla);
    data_inner.extend_from_slice(&burst_nla);
    data_inner.extend_from_slice(&type_nla);
    let obj_data_nla = make_nested_nla(NFTA_OBJ_DATA, &data_inner);

    let mut frame = vec![0u8; 4];
    frame.extend_from_slice(&make_nla(NFTA_OBJ_TABLE, b"filter\0"));
    frame.extend_from_slice(&make_nla(NFTA_OBJ_NAME, b"bw_limit\0"));
    frame.extend_from_slice(&make_nla(NFTA_OBJ_TYPE, &NFT_OBJECT_LIMIT.to_be_bytes()));
    frame.extend_from_slice(&obj_data_nla);

    let limit = parse_limit(&frame).expect("should parse limit");
    assert_eq!(limit.limit_type, "bytes");
    assert_eq!(limit.rate, 1_000_000);
    assert_eq!(limit.burst, 256);
    assert_eq!(limit.unit_secs, 1);
}

#[test]
fn parse_limit_frame_pkts_type() {
    let rate_nla = make_nla(NFTA_LIMIT_RATE, &100u64.to_be_bytes());
    let unit_nla = make_nla(NFTA_LIMIT_UNIT, &1u64.to_be_bytes());
    let burst_nla = make_nla(NFTA_LIMIT_BURST, &0u32.to_be_bytes());
    let type_nla = make_nla(NFTA_LIMIT_TYPE, &0u32.to_be_bytes()); // NFT_LIMIT_PKTS

    let mut data_inner = rate_nla;
    data_inner.extend_from_slice(&unit_nla);
    data_inner.extend_from_slice(&burst_nla);
    data_inner.extend_from_slice(&type_nla);
    let obj_data_nla = make_nested_nla(NFTA_OBJ_DATA, &data_inner);

    let mut frame = vec![0u8; 4];
    frame.extend_from_slice(&make_nla(NFTA_OBJ_TABLE, b"filter\0"));
    frame.extend_from_slice(&make_nla(NFTA_OBJ_NAME, b"syn_limit\0"));
    frame.extend_from_slice(&make_nla(NFTA_OBJ_TYPE, &NFT_OBJECT_LIMIT.to_be_bytes()));
    frame.extend_from_slice(&obj_data_nla);

    let limit = parse_limit(&frame).expect("should parse limit");
    assert_eq!(limit.limit_type, "pkts");
}

#[test]
fn parse_flowtable_frame_hw_offload_on() {
    let flags = NFT_FLOWTABLE_HW_OFFLOAD;

    let mut hook_inner = make_nla(NFTA_FLOWTABLE_HOOK_NUM, &5u32.to_be_bytes()); // ingress
    hook_inner.extend_from_slice(&make_nla(NFTA_FLOWTABLE_HOOK_PRIORITY, &0i32.to_be_bytes()));
    let hook_nla = make_nested_nla(NFTA_FLOWTABLE_HOOK, &hook_inner);

    let mut frame = vec![0u8; 4];
    frame.extend_from_slice(&make_nla(NFTA_FLOWTABLE_TABLE, b"filter\0"));
    frame.extend_from_slice(&make_nla(NFTA_FLOWTABLE_NAME, b"ft0\0"));
    frame.extend_from_slice(&hook_nla);
    frame.extend_from_slice(&make_nla(NFTA_FLOWTABLE_FLAGS, &flags.to_be_bytes()));

    let ft = parse_flowtable_frame(&frame).expect("should parse flowtable");
    assert!(ft.hw_offload, "hw_offload bit must be set");
    assert_eq!(ft.name, "ft0");
    assert_eq!(ft.hook, "ingress");
}

#[test]
fn parse_flowtable_frame_no_offload() {
    let mut hook_inner = make_nla(NFTA_FLOWTABLE_HOOK_NUM, &1u32.to_be_bytes());
    hook_inner.extend_from_slice(&make_nla(NFTA_FLOWTABLE_HOOK_PRIORITY, &0u32.to_be_bytes()));
    let hook_nla = make_nested_nla(NFTA_FLOWTABLE_HOOK, &hook_inner);

    let mut frame = vec![0u8; 4];
    frame.extend_from_slice(&make_nla(NFTA_FLOWTABLE_TABLE, b"nat\0"));
    frame.extend_from_slice(&make_nla(NFTA_FLOWTABLE_NAME, b"sw_ft\0"));
    frame.extend_from_slice(&hook_nla);
    frame.extend_from_slice(&make_nla(NFTA_FLOWTABLE_FLAGS, &0u32.to_be_bytes()));

    let ft = parse_flowtable_frame(&frame).expect("should parse flowtable");
    assert!(!ft.hw_offload);
}

#[test]
fn build_metrics_table_info_one_per_table() {
    let tables = vec![
        NftTable {
            name: "filter".to_owned(),
            family: "ip".to_owned(),
        },
        NftTable {
            name: "nat".to_owned(),
            family: "inet".to_owned(),
        },
    ];
    let metrics = build_metrics(&tables, &[], &[], &[], &[], &[], &[], 0, &[], 0);
    let table_info: Vec<_> = metrics
        .iter()
        .filter(|s| s.name == "nft_table_info")
        .collect();
    assert_eq!(table_info.len(), 2);
    assert!(table_info.iter().any(|s| {
        s.labels
            .get("table")
            .map(|v| v == "filter")
            .unwrap_or(false)
    }));
    assert!(
        table_info
            .iter()
            .any(|s| s.labels.get("table").map(|v| v == "nat").unwrap_or(false))
    );
}

#[test]
fn build_metrics_chain_info_has_priority_label() {
    let chains = vec![NftChain {
        table: "filter".to_owned(),
        chain: "input".to_owned(),
        chain_type: "filter".to_owned(),
        hook: "input".to_owned(),
        priority: -100,
        policy: "drop".to_owned(),
    }];
    let metrics = build_metrics(&[], &chains, &[], &[], &[], &[], &[], 0, &[], 0);
    let chain_info = metrics
        .iter()
        .find(|s| s.name == "nft_chain_info")
        .expect("nft_chain_info must be emitted");
    assert_eq!(
        chain_info.labels.get("priority").map(|v| v.as_str()),
        Some("-100")
    );
}

#[test]
fn build_metrics_named_counter_correct_prefix() {
    let counters = vec![NftCounter {
        table: "filter".to_owned(),
        name: "http_in".to_owned(),
        bytes: 1024,
        packets: 8,
    }];
    let metrics = build_metrics(&[], &[], &[], &counters, &[], &[], &[], 0, &[], 0);
    assert!(
        metrics
            .iter()
            .any(|s| s.name == "nft_named_counter_bytes_total"),
        "must emit nft_named_counter_bytes_total"
    );
    assert!(
        metrics
            .iter()
            .any(|s| s.name == "nft_named_counter_packets_total"),
        "must emit nft_named_counter_packets_total"
    );
    assert!(
        !metrics
            .iter()
            .any(|s| s.name == "nft_nft_counter_bytes_total"),
        "nft_nft_counter_bytes_total must NOT be emitted"
    );
}

#[test]
fn build_metrics_ruleset_generation_emitted() {
    let metrics = build_metrics(&[], &[], &[], &[], &[], &[], &[], 99, &[], 0);
    let gen_metric = metrics
        .iter()
        .find(|s| s.name == "nft_ruleset_generation")
        .expect("nft_ruleset_generation must be emitted");
    assert!(gen_metric.labels.is_empty(), "generation has no labels");
    assert_eq!(gen_metric.value, MetricValue::F64(GaugeValue::Whole(99)));
}

fn rc(i: usize) -> NftRuleCounter {
    NftRuleCounter {
        table: "t".to_owned(),
        chain: "c".to_owned(),
        comment: format!("rule{i}"),
        bytes: 1,
        packets: 1,
    }
}

#[test]
fn build_metrics_cardinality_overflow_emitted_when_exceeded() {
    // RULE_COUNTER_MAX_SERIES + 1 commented rules → cap at MAX, 1 dropped.
    let rcs: Vec<NftRuleCounter> = (0..=RULE_COUNTER_MAX_SERIES).map(rc).collect();
    let metrics = build_metrics(&[], &[], &rcs, &[], &[], &[], &[], 0, &[], 0);
    let overflow = metrics
        .iter()
        .find(|s| s.name == "nft_scrape_collector_error_total")
        .expect("overflow error counter must be emitted");
    assert_eq!(
        overflow.labels.get("reason").map(|v| v.as_str()),
        Some("cardinality_overflow")
    );
    assert_eq!(
        overflow.value,
        MetricValue::U64(1),
        "exactly the excess (len - cap) is reported"
    );
    let emitted = metrics
        .iter()
        .filter(|s| s.name == "nft_rule_counter_bytes_total")
        .count();
    assert_eq!(
        emitted, RULE_COUNTER_MAX_SERIES,
        "emission capped at the limit"
    );
}

#[test]
fn build_metrics_no_overflow_under_cap_or_for_anonymous() {
    // Under the cap → no overflow. Anonymous count is informational only and
    // must NOT trigger overflow.
    let rcs: Vec<NftRuleCounter> = (0..10).map(rc).collect();
    let metrics = build_metrics(&[], &[], &rcs, &[], &[], &[], &[], 0, &[], 9999);
    let overflow = metrics
        .iter()
        .find(|s| s.name == "nft_scrape_collector_error_total");
    assert!(
        overflow.is_none(),
        "no overflow when commented rules are under the cap, regardless of anonymous count"
    );
}

#[test]
fn nft_msg_constants_match_kernel_enum() {
    assert_eq!(NFT_MSG_GETTABLE, 0x0A01);
    assert_eq!(NFT_MSG_GETCHAIN, 0x0A04);
    assert_eq!(NFT_MSG_GETRULE, 0x0A07);
    assert_eq!(NFT_MSG_GETSET, 0x0A0A);
    assert_eq!(NFT_MSG_GETGEN, 0x0A10);
    assert_eq!(NFT_MSG_GETOBJ, 0x0A13);
    assert_eq!(NFT_MSG_GETFLOWTABLE, 0x0A17);
}

#[test]
fn cstr_to_string_strips_nul() {
    assert_eq!(cstr_to_string(b"hello\0"), "hello");
}

#[test]
fn cstr_to_string_no_nul_passthrough() {
    assert_eq!(cstr_to_string(b"world"), "world");
}

#[test]
fn family_label_coverage() {
    assert_eq!(family_label(0), "unspec");
    assert_eq!(family_label(1), "inet");
    assert_eq!(family_label(2), "ip");
    assert_eq!(family_label(10), "ip6");
    assert_eq!(family_label(255), "other");
}

#[test]
fn key_type_label_coverage() {
    assert_eq!(key_type_label(0x000c), "ipv4_addr");
    assert_eq!(key_type_label(0x000d), "ipv6_addr");
    assert_eq!(key_type_label(0x000b), "inet_service");
    assert_eq!(key_type_label(0x0005), "ether_addr");
    assert_eq!(key_type_label(0x0009), "mark");
    assert_eq!(key_type_label(0xFFFF), "other");
}

#[test]
fn extract_rule_comment_valid() {
    let comment = b"my_rule";
    let tlv_len = comment.len() + 1;
    let mut blob = vec![0u8, tlv_len as u8];
    blob.extend_from_slice(comment);
    blob.push(0u8);
    assert_eq!(extract_rule_comment(&blob), Some("my_rule".to_owned()));
}

#[test]
fn extract_rule_comment_absent() {
    assert_eq!(extract_rule_comment(&[]), None);
}

#[test]
fn labels_of_hooks_policies_and_limits() {
    assert_eq!(hook_label(0), "prerouting");
    assert_eq!(hook_label(4), "postrouting");
    assert_eq!(policy_label(0), "drop");
    assert_eq!(policy_label(1), "accept");
    assert_eq!(limit_type_label(7), "other");
    assert_eq!(nfgenmsg(2), [2, 0, 0, 0]);
}

/// Bytes that are no UTF-8 become replacement characters; only a last NUL is
/// taken off.
#[test]
fn attribute_text() {
    assert_eq!(cstr_to_string(b"a\xffb\0"), "a\u{fffd}b");
    assert_eq!(cstr_to_string(b"a\0b\0"), "a\0b");
    assert_eq!(cstr_to_string(b""), "");
}

/// Records before the comment are skipped, and a truncated record ends the walk.
#[test]
fn comment_among_other_records() {
    let blob = [7, 2, 0, 0, 0, 1, 0, 0, 3, b'a', b'b', b'c'];
    assert_eq!(extract_rule_comment(&blob), Some("abc".to_owned()));
    assert_eq!(extract_rule_comment(&blob[..11]), None);
    assert_eq!(extract_rule_comment(&[0, 0]), None);
}

#[test]
fn set_size_stands_in_for_the_count() {
    let mut frame = vec![0u8; 4];
    frame.extend_from_slice(&make_nla(NFTA_SET_NAME, b"s\0"));
    let size = make_nla(NFTA_SET_DESC_SIZE, &9u32.to_be_bytes());
    frame.extend_from_slice(&make_nested_nla(NFTA_SET_DESC, &size));
    assert_eq!(parse_set_frame(&frame).unwrap().element_count, 9);
    frame.extend_from_slice(&make_nla(NFTA_SET_COUNT, &4u32.to_be_bytes()));
    frame.extend_from_slice(&make_nested_nla(NFTA_SET_DESC, &size));
    assert_eq!(parse_set_frame(&frame).unwrap().element_count, 4);
}

fn object(ty: u32) -> Vec<u8> {
    let mut frame = vec![0u8; 4];
    frame.extend_from_slice(&make_nla(NFTA_OBJ_NAME, b"o\0"));
    frame.extend_from_slice(&make_nla(NFTA_OBJ_TYPE, &ty.to_be_bytes()));
    frame
}

/// An object is read as one kind at most.
#[test]
fn object_kinds_are_exclusive() {
    let frames = vec![object(1), object(2), object(4), object(3), vec![0; 3]];
    assert_eq!(parse_counters(&frames).len(), 1);
    assert_eq!(parse_quotas(&frames).len(), 1);
    assert_eq!(parse_limits(&frames).len(), 1);
    assert_eq!(parse_limits(&frames)[0].unit_secs, 1);
}

#[test]
fn generation_without_a_reply() {
    assert_eq!(ruleset_generation(&None), 0);
    assert_eq!(ruleset_generation(&Some(vec![0; 3])), 0);
    let mut frame = vec![0u8; 4];
    frame.extend_from_slice(&make_nla(NFTA_GEN_ID, &7u32.to_be_bytes()));
    assert_eq!(ruleset_generation(&Some(frame)), 7);
}

#[test]
fn samples_of_all_replies() {
    let mut set = vec![0u8; 4];
    set.extend_from_slice(&make_nla(NFTA_SET_NAME, b"s\0"));
    let mut flowtable = vec![0u8; 4];
    flowtable.extend_from_slice(&make_nla(NFTA_FLOWTABLE_NAME, b"f\0"));
    let dumps = NftDumps {
        tables: vec![make_table_frame(2, "filter"), vec![0]],
        chains: vec![make_chain_frame_be(1, -5, 0)],
        rules: vec![make_rule_frame_with_counter("filter", "input", "web", 10, 2)],
        counters: vec![object(1), object(2)],
        sets: vec![set],
        quotas: vec![object(2)],
        limits: vec![object(4)],
        generation: None,
        flowtables: vec![flowtable],
    };
    let out = NftablesCollector.collect(&dumps);
    let names: Vec<&str> = out.iter().map(|s| s.name).collect();
    assert_eq!(
        names,
        vec![
            "nft_table_info",
            "nft_chain_info",
            "nft_rule_counter_bytes_total",
            "nft_rule_counter_packets_total",
            "nft_named_counter_bytes_total",
            "nft_named_counter_packets_total",
            "nft_set_elements",
            "nft_named_quota_bytes_total",
            "nft_named_quota_consumed_bytes_total",
            "nft_named_quota_depleted",
            "nft_named_limit_rate",
            "nft_named_limit_burst",
            "nft_ruleset_generation",
            "nft_flowtable_info",
        ]
    );
    assert_eq!(out[2].value, MetricValue::U64(10));
    assert_eq!(out[13].labels.get("hw_offload").map(String::as_str), Some("0"));
    assert_eq!(NftablesCollector.name(), "nftables");
}

#[test]
fn domain_errors_become_collector_errors() {
    assert_eq!(
        map_domain_err(DomainError::Collector("x".to_owned())),
        CollectError::Io("collector error: x".to_owned())
    );
}

#[test]
fn object_type_is_announced() {
    assert_eq!(parse_obj_type(&object(2)), Some(2));
    assert_eq!(parse_obj_type(&[0, 0, 0]), None);
    assert_eq!(parse_obj_type(&make_table_frame(2, "filter")), None);
}

/// A count that is present is kept, also when it is zero.
#[test]
fn present_count_of_zero_is_kept() {
    let mut frame = vec![0u8; 4];
    frame.extend_from_slice(&make_nla(NFTA_SET_TABLE, b"t\0"));
    frame.extend_from_slice(&make_nla(NFTA_SET_NAME, b"s\0"));
    frame.extend_from_slice(&make_nla(NFTA_SET_COUNT, &0u32.to_be_bytes()));
    let size = make_nla(NFTA_SET_DESC_SIZE, &5u32.to_be_bytes());
    frame.extend_from_slice(&make_nla(NFTA_SET_DESC, &size));
    let set = parse_set_frame(&frame).unwrap();
    assert_eq!(set.table, "t");
    assert_eq!(set.name, "s");
    assert_eq!(set.key_type, "other");
    assert_eq!(set.element_count, 0);
}

/// Valid names stay unchanged, and invalid bytes are replaced.
#[test]
fn names_are_decoded() {
    let valid = make_table_frame(2, "caf\u{e9}");
    assert_eq!(parse_table_frame(&valid).unwrap().name, "caf\u{e9}");
    let mut invalid = vec![2u8, 0, 0, 0];
    invalid.extend_from_slice(&make_nla(NFTA_TABLE_NAME, &[b'a', 0xff, b'b', 0]));
    assert_eq!(parse_table_frame(&invalid).unwrap().name, "a\u{fffd}b");
}

/// Of several descriptions the first size that is not zero stands in.
#[test]
fn first_described_size_stands_in() {
    let sizes = |list: &[u32]| {
        let mut frame = vec![0u8; 4];
        frame.extend_from_slice(&make_nla(NFTA_SET_NAME, b"s\0"));
        for size in list {
            let inner = make_nla(NFTA_SET_DESC_SIZE, &size.to_be_bytes());
            frame.extend_from_slice(&make_nested_nla(NFTA_SET_DESC, &inner));
        }
        parse_set_frame(&frame).unwrap().element_count
    };
    assert_eq!(sizes(&[5, 7]), 5);
    assert_eq!(sizes(&[0, 7, 9]), 7);
    assert_eq!(sizes(&[0]), 0);
    assert_eq!(sizes(&[]), 0);
}

/// A name of invalid bytes is still a name.
#[test]
fn invalid_name_is_kept() {
    let mut frame = vec![2u8, 0, 0, 0];
    frame.extend_from_slice(&make_nla(NFTA_TABLE_NAME, &[0xff, 0]));
    assert_eq!(parse_table_frame(&frame).unwrap().name, "\u{fffd}");
}
