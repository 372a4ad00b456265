//! IPVS genetlink read models.
use vstd::prelude::*;

verus! {

/// IPVS virtual service read model.
#[derive(Debug, Clone, PartialEq, Eq)]
pub struct IpvsService {
    /// Protocol string: `"tcp"`, `"udp"`, `"sctp"`.
    pub proto: String,
    /// Virtual IP in presentation form (IPv4 or IPv6); empty for fwmark services.
    pub vip: String,
    /// Port as decimal string, or fwmark as hex string.
    pub port: String,
    /// Scheduler name (e.g. `"rr"`, `"lc"`, `"wlc"`).
    pub sched: String,
    /// Total connections (`IPVS_STATS64_ATTR_CONNS`).
    pub conns: u64,
    /// Total incoming packets.
    pub in_pkts: u64,
    /// Total outgoing packets.
    pub out_pkts: u64,
    /// Total incoming bytes.
    pub in_bytes: u64,
    /// Total outgoing bytes.
    pub out_bytes: u64,
    /// EMA connections per second.
    pub cps: u64,
    /// EMA incoming packets per second.
    pub in_pps: u64,
    /// EMA outgoing packets per second.
    pub out_pps: u64,
    /// EMA incoming bytes per second.
    pub in_bps: u64,
    /// EMA outgoing bytes per second.
    pub out_bps: u64,
}

/// IPVS real-server destination.
#[derive(Debug, Clone, PartialEq, Eq)]
pub struct IpvsDestination {
    /// Parent virtual service proto.
    pub svc_proto: String,
    /// Parent virtual IP.
    pub svc_vip: String,
    /// Parent virtual port.
    pub svc_port: String,
    /// Real server IP in presentation form.
    pub rip: String,
    /// Real server port as decimal string.
    pub rport: String,
    /// Current active connections.
    pub active_conns: u32,
    /// Current inactive connections.
    pub inactive_conns: u32,
    /// Total connections to this destination.
    pub conns: u64,
    /// Total incoming bytes to this destination.
    pub in_bytes: u64,
    /// Total outgoing bytes from this destination.
    pub out_bytes: u64,
}

/// The mathematical content of [`IpvsService`].
pub struct IpvsServiceView {
    pub proto: Seq<char>,
    pub vip: Seq<char>,
    pub port: Seq<char>,
    pub sched: Seq<char>,
    pub conns: u64,
    pub in_pkts: u64,
    pub out_pkts: u64,
    pub in_bytes: u64,
    pub out_bytes: u64,
    pub cps: u64,
    pub in_pps: u64,
    pub out_pps: u64,
    pub in_bps: u64,
    pub out_bps: u64,
}

impl View for IpvsService {
    type V = IpvsServiceView;

    open spec fn view(&self) -> IpvsServiceView {
        IpvsServiceView {
            proto: self.proto@,
            vip: self.vip@,
            port: self.port@,
            sched: self.sched@,
            conns: self.conns,
            in_pkts: self.in_pkts,
            out_pkts: self.out_pkts,
            in_bytes: self.in_bytes,
            out_bytes: self.out_bytes,
            cps: self.cps,
            in_pps: self.in_pps,
            out_pps: self.out_pps,
            in_bps: self.in_bps,
            out_bps: self.out_bps,
        }
    }
}

/// The mathematical content of [`IpvsDestination`].
pub struct IpvsDestinationView {
    pub svc_proto: Seq<char>,
    pub svc_vip: Seq<char>,
    pub svc_port: Seq<char>,
    pub rip: Seq<char>,
    pub rport: Seq<char>,
    pub active_conns: u32,
    pub inactive_conns: u32,
    pub conns: u64,
    pub in_bytes: u64,
    pub out_bytes: u64,
}

impl View for IpvsDestination {
    type V = IpvsDestinationView;

    open spec fn view(&self) -> IpvsDestinationView {
        IpvsDestinationView {
            svc_proto: self.svc_proto@,
            svc_vip: self.svc_vip@,
            svc_port: self.svc_port@,
            rip: self.rip@,
            rport: self.rport@,
            active_conns: self.active_conns,
            inactive_conns: self.inactive_conns,
            conns: self.conns,
            in_bytes: self.in_bytes,
            out_bytes: self.out_bytes,
        }
    }
}

} // verus!
