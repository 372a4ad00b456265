//! WireGuard genetlink read model.
use vstd::prelude::*;

verus! {

/// WireGuard device and its peers (`WG_CMD_GET_DEVICE`).
#[derive(Debug, Clone, PartialEq)]
pub struct WireguardDevice {
    /// Interface name.
    pub if_name: String,
    /// UDP listen port (`WGDEVICE_A_LISTEN_PORT` u16 LE); 0 when unbound.
    pub listen_port: u16,
    /// Firewall mark (`WGDEVICE_A_FWMARK` u32 LE); 0 when unset.
    pub fwmark: u32,
    /// Peers attached to this device.
    pub peers: Vec<WireguardPeer>,
}

/// One WireGuard peer.
///
/// The public key is hashed to an 8-byte hex string for the `peer` label
/// (bounded cardinality).  The raw key is not stored.
#[derive(Debug, Clone, PartialEq)]
pub struct WireguardPeer {
    /// 16-character hex hash of the public key, or operator-configured name.
    pub peer_id: String,
    /// Cumulative bytes received (`WGPEER_A_RX_BYTES` u64 native-endian).
    pub rx_bytes: u64,
    /// Cumulative bytes transmitted (`WGPEER_A_TX_BYTES` u64 native-endian).
    pub tx_bytes: u64,
    /// Seconds since last handshake (`now - WGPEER_A_LAST_HANDSHAKE_TIME.tv_sec`).
    /// `None` when `tv_sec == 0` (never completed a handshake).
    pub last_handshake_secs: Option<u64>,
    /// Persistent keepalive interval in seconds; 0 when disabled.
    pub persistent_keepalive_secs: u16,
    /// `true` when `WGPEER_A_ENDPOINT` is present in the kernel response.
    pub endpoint_present: bool,
}

/// The mathematical content of [`WireguardDevice`].
pub struct WireguardDeviceView {
    pub if_name: Seq<char>,
    pub listen_port: u16,
    pub fwmark: u32,
    pub peers: Seq<WireguardPeerView>,
}

impl View for WireguardDevice {
    type V = WireguardDeviceView;

    open spec fn view(&self) -> WireguardDeviceView {
        WireguardDeviceView {
            if_name: self.if_name@,
            listen_port: self.listen_port,
            fwmark: self.fwmark,
            peers: self.peers@.map_values(|p: WireguardPeer| p@),
        }
    }
}

/// The mathematical content of [`WireguardPeer`].
pub struct WireguardPeerView {
    pub peer_id: Seq<char>,
    pub rx_bytes: u64,
    pub tx_bytes: u64,
    pub last_handshake_secs: Option<u64>,
    pub persistent_keepalive_secs: u16,
    pub endpoint_present: bool,
}

impl View for WireguardPeer {
    type V = WireguardPeerView;

    open spec fn view(&self) -> WireguardPeerView {
        WireguardPeerView {
            peer_id: self.peer_id@,
            rx_bytes: self.rx_bytes,
            tx_bytes: self.tx_bytes,
            last_handshake_secs: self.last_handshake_secs,
            persistent_keepalive_secs: self.persistent_keepalive_secs,
            endpoint_present: self.endpoint_present,
        }
    }
}

} // verus!
