//! nftables read models.
//!
//! Domain structs for the nftables firewall observability surface.
//! All structs are pure data — no I/O, no kernel types.
use vstd::prelude::*;

verus! {

/// nftables table read model (`NFT_MSG_GETTABLE`).
#[derive(Debug, Clone, PartialEq, Eq)]
pub struct NftTable {
    /// Table name.
    pub name: String,
    /// Address family string (`"inet"`, `"ip"`, `"ip6"`, `"arp"`, `"bridge"`, `"netdev"`).
    pub family: String,
}

/// nftables chain read model (`NFT_MSG_GETCHAIN`).
#[derive(Debug, Clone, PartialEq, Eq)]
pub struct NftChain {
    /// Parent table name.
    pub table: String,
    /// Chain name.
    pub chain: String,
    /// Chain type (`"filter"`, `"route"`, `"nat"`); empty for non-base chains.
    pub chain_type: String,
    /// Netfilter hook name (e.g. `"input"`, `"forward"`); empty for non-base chains.
    pub hook: String,
    /// Hook priority; 0 when not a base chain.
    pub priority: i32,
    /// Default policy (`"accept"` or `"drop"`); empty for non-base chains.
    pub policy: String,
}

/// Named nftables counter object (`NFT_MSG_GETOBJ` with `NFT_OBJECT_COUNTER`).
#[derive(Debug, Clone, PartialEq, Eq)]
pub struct NftCounter {
    /// Parent table name.
    pub table: String,
    /// Counter name.
    pub name: String,
    /// Byte count.
    pub bytes: u64,
    /// Packet count.
    pub packets: u64,
}

/// Named nftables set or map (`NFT_MSG_GETSET`).
///
/// Anonymous sets (`NFT_SET_ANONYMOUS` flag) are excluded — only named sets
/// are exported.
#[derive(Debug, Clone, PartialEq, Eq)]
pub struct NftSet {
    /// Parent table name.
    pub table: String,
    /// Set name.
    pub name: String,
    /// Key type string (e.g. `"ipv4_addr"`, `"inet_service"`).
    pub key_type: String,
    /// Current element count.
    pub element_count: u32,
}

/// Rule with counter expression (from `NFT_MSG_GETRULE`).
///
/// Only rules carrying a non-empty `comment` in `NFTA_RULE_USERDATA` and a
/// `"counter"` expression in `NFTA_RULE_EXPRESSIONS` are exported.
#[derive(Debug, Clone, PartialEq, Eq)]
pub struct NftRuleCounter {
    /// Parent table name.
    pub table: String,
    /// Parent chain name.
    pub chain: String,
    /// Rule comment expression; guaranteed non-empty.
    pub comment: String,
    /// Byte count from the rule's counter expression.
    pub bytes: u64,
    /// Packet count from the rule's counter expression.
    pub packets: u64,
}

/// Named nftables quota object (`NFT_MSG_GETOBJ` with `NFT_OBJECT_QUOTA`).
///
/// Source: `NFTA_QUOTA_BYTES` (1, BE u64), `NFTA_QUOTA_CONSUMED` (4, BE u64),
/// `NFTA_QUOTA_FLAGS` (2, BE u32) bit 1 = `NFT_QUOTA_F_DEPLETED`.
#[derive(Debug, Clone, PartialEq, Eq)]
pub struct NftQuota {
    /// Parent table name.
    pub table: String,
    /// Quota object name.
    pub name: String,
    /// Configured ceiling in bytes (`NFTA_QUOTA_BYTES`).
    pub bytes_ceiling: u64,
    /// Bytes consumed so far (`NFTA_QUOTA_CONSUMED`).
    pub bytes_consumed: u64,
    /// `true` when `NFT_QUOTA_F_DEPLETED` bit is set in `NFTA_QUOTA_FLAGS`.
    pub depleted: bool,
}

/// Named nftables limit object (`NFT_MSG_GETOBJ` with `NFT_OBJECT_LIMIT`).
///
/// Captures the static configuration; no runtime token-bucket state is exported.
/// Source: `NFTA_LIMIT_RATE` (1, BE u64), `NFTA_LIMIT_BURST` (3, BE u32),
/// `NFTA_LIMIT_TYPE` (4, BE u32).
#[derive(Debug, Clone, PartialEq, Eq)]
pub struct NftLimit {
    /// Parent table name.
    pub table: String,
    /// Limit object name.
    pub name: String,
    /// Rate in tokens per `unit_secs` seconds (`NFTA_LIMIT_RATE`, BE u64).
    pub rate: u64,
    /// Time unit in seconds (`NFTA_LIMIT_UNIT`, BE u64).
    pub unit_secs: u64,
    /// Burst allowance (`NFTA_LIMIT_BURST`, BE u32).
    pub burst: u32,
    /// Limit type: `"pkts"` (`NFT_LIMIT_PKTS=0`), `"bytes"` (`NFT_LIMIT_PKT_BYTES=1`).
    pub limit_type: String,
}

/// Named nftables flowtable (`NFT_MSG_GETFLOWTABLE`).
///
/// Source: `NFTA_FLOWTABLE_TABLE` (1), `NFTA_FLOWTABLE_NAME` (2),
/// `NFTA_FLOWTABLE_HOOK` (3, nested), `NFTA_FLOWTABLE_FLAGS` (7, BE u32).
#[derive(Debug, Clone, PartialEq, Eq)]
pub struct NftFlowtable {
    /// Parent table name.
    pub table: String,
    /// Flowtable name.
    pub name: String,
    /// Hook point name (mapped from `NFTA_FLOWTABLE_HOOK_NUM`).
    pub hook: String,
    /// Hook priority, reinterpreted as signed i32 (`NFTA_FLOWTABLE_HOOK_PRIORITY`).
    pub priority: i32,
    /// `true` when `NFT_FLOWTABLE_HW_OFFLOAD` (bit 0) is set in `NFTA_FLOWTABLE_FLAGS`.
    pub hw_offload: bool,
}

/// The mathematical content of [`NftTable`].
pub struct NftTableView {
    pub name: Seq<char>,
    pub family: Seq<char>,
}

impl View for NftTable {
    type V = NftTableView;

    open spec fn view(&self) -> NftTableView {
        NftTableView {
            name: self.name@,
            family: self.family@,
        }
    }
}

/// The mathematical content of [`NftChain`].
pub struct NftChainView {
    pub table: Seq<char>,
    pub chain: Seq<char>,
    pub chain_type: Seq<char>,
    pub hook: Seq<char>,
    pub priority: i32,
    pub policy: Seq<char>,
}

impl View for NftChain {
    type V = NftChainView;

    open spec fn view(&self) -> NftChainView {
        NftChainView {
            table: self.table@,
            chain: self.chain@,
            chain_type: self.chain_type@,
            hook: self.hook@,
            priority: self.priority,
            policy: self.policy@,
        }
    }
}

/// The mathematical content of [`NftCounter`].
pub struct NftCounterView {
    pub table: Seq<char>,
    pub name: Seq<char>,
    pub bytes: u64,
    pub packets: u64,
}

impl View for NftCounter {
    type V = NftCounterView;

    open spec fn view(&self) -> NftCounterView {
        NftCounterView {
            table: self.table@,
            name: self.name@,
            bytes: self.bytes,
            packets: self.packets,
        }
    }
}

/// The mathematical content of [`NftSet`].
pub struct NftSetView {
    pub table: Seq<char>,
    pub name: Seq<char>,
    pub key_type: Seq<char>,
    pub element_count: u32,
}

impl View for NftSet {
    type V = NftSetView;

    open spec fn view(&self) -> NftSetView {
        NftSetView {
            table: self.table@,
            name: self.name@,
            key_type: self.key_type@,
            element_count: self.element_count,
        }
    }
}

/// The mathematical content of [`NftRuleCounter`].
pub struct NftRuleCounterView {
    pub table: Seq<char>,
    pub chain: Seq<char>,
    pub comment: Seq<char>,
    pub bytes: u64,
    pub packets: u64,
}

impl View for NftRuleCounter {
    type V = NftRuleCounterView;

    open spec fn view(&self) -> NftRuleCounterView {
        NftRuleCounterView {
            table: self.table@,
            chain: self.chain@,
            comment: self.comment@,
            bytes: self.bytes,
            packets: self.packets,
        }
    }
}

/// The mathematical content of [`NftQuota`].
pub struct NftQuotaView {
    pub table: Seq<char>,
    pub name: Seq<char>,
    pub bytes_ceiling: u64,
    pub bytes_consumed: u64,
    pub depleted: bool,
}

impl View for NftQuota {
    type V = NftQuotaView;

    open spec fn view(&self) -> NftQuotaView {
        NftQuotaView {
            table: self.table@,
            name: self.name@,
            bytes_ceiling: self.bytes_ceiling,
            bytes_consumed: self.bytes_consumed,
            depleted: self.depleted,
        }
    }
}

/// The mathematical content of [`NftLimit`].
pub struct NftLimitView {
    pub table: Seq<char>,
    pub name: Seq<char>,
    pub rate: u64,
    pub unit_secs: u64,
    pub burst: u32,
    pub limit_type: Seq<char>,
}

impl View for NftLimit {
    type V = NftLimitView;

    open spec fn view(&self) -> NftLimitView {
        NftLimitView {
            table: self.table@,
            name: self.name@,
            rate: self.rate,
            unit_secs: self.unit_secs,
            burst: self.burst,
            limit_type: self.limit_type@,
        }
    }
}

/// The mathematical content of [`NftFlowtable`].
pub struct NftFlowtableView {
    pub table: Seq<char>,
    pub name: Seq<char>,
    pub hook: Seq<char>,
    pub priority: i32,
    pub hw_offload: bool,
}

impl View for NftFlowtable {
    type V = NftFlowtableView;

    open spec fn view(&self) -> NftFlowtableView {
        NftFlowtableView {
            table: self.table@,
            name: self.name@,
            hook: self.hook@,
            priority: self.priority,
            hw_offload: self.hw_offload,
        }
    }
}

} // verus!
