//! Readers of procfs and sysfs pseudo-files.
//!
//! They cover signals that have no netlink interface.  Formats drift across
//! kernels, so a missing column or an unknown line is skipped.
pub mod irq;
pub mod netstat;
pub mod nic_bql;
pub mod nic_pcie;
pub mod nic_temp;
pub mod paths;
pub mod sockstat;
pub mod softirq;
pub mod softnet;
