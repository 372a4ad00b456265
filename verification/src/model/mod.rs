//! Read models of the netlink subsystems.
pub mod address;
pub mod conntrack;
pub mod devlink;
pub mod drop_monitor;
pub mod ethtool;
pub mod ipvs;
pub mod link;
pub mod neighbor;
pub mod nftables;
pub mod route;
pub mod sockdiag;
pub mod tc;
pub mod wireguard;
pub mod xfrm;
