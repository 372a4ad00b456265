//! One module per collector: how its kernel replies become samples.
pub mod nftables;
pub mod xfrm;
pub mod rt;
pub mod ethtool;
pub mod ipvs;
pub mod wireguard;
pub mod conntrack;
pub mod conntrack_expect;
pub mod devlink;
pub mod drop_monitor;
pub mod sockdiag;
pub mod tc;
pub mod rt_extended;
