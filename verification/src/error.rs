//! Error types of the exporter and their messages.
use crate::text::{dec, join2, push_dec, signed_dec, signed_dec_text};
use vstd::prelude::*;
use vstd::string::*;

verus! {

/// Errors of domain operations.
#[derive(Clone, Debug, PartialEq, Eq)]
#[non_exhaustive]
pub enum DomainError {
    /// A netlink dump was interrupted by the kernel too often.
    DumpIntr,
    /// The kernel reported a receive-buffer overflow (`ENOBUFS`).
    RecvBufOverflow,
    /// A collector subsystem is not available in the current kernel configuration.
    CollectorUnavailable {
        /// Collector identifier (e.g. `"conntrack"`, `"ethtool"`).
        name: &'static str,
        /// Human-readable reason.
        reason: String,
    },
    /// Generic collector-level error carrying a message.
    Collector(String),
}

impl DomainError {
    /// The message of the error.
    pub open spec fn text(&self) -> Seq<char> {
        match self {
            DomainError::DumpIntr =>
                "netlink dump interrupted (NLM_F_DUMP_INTR); max restarts exceeded"@,
            DomainError::RecvBufOverflow => "netlink receive buffer overflow (ENOBUFS)"@,
            DomainError::CollectorUnavailable { name, reason } => "collector "@ + name@
                + " not available: "@ + reason@,
            DomainError::Collector(message) => "collector error: "@ + message@,
        }
    }

    /// Writes the message of the error.
    pub fn message(&self) -> (r: String)
        ensures
            r@ == self.text(),
    {
        match self {
            DomainError::DumpIntr =>
                "netlink dump interrupted (NLM_F_DUMP_INTR); max restarts exceeded".to_owned(),
            DomainError::RecvBufOverflow => "netlink receive buffer overflow (ENOBUFS)".to_owned(),
            DomainError::CollectorUnavailable { name, reason } => {
                let mut r = join2("collector ", name);
                r.append(" not available: ");
                r.append(reason.as_str());
                r
            },
            DomainError::Collector(message) => join2("collector error: ", message.as_str()),
        }
    }
}

/// Errors of a collector run.
#[derive(Clone, Debug, PartialEq, Eq)]
#[non_exhaustive]
pub enum CollectError {
    /// The collector's kernel subsystem is unavailable on this host.
    Unavailable {
        /// Human-readable reason (e.g. `"module not loaded"`).
        reason: String,
    },
    /// A netlink dump was interrupted too often.
    DumpIntr,
    /// Receive buffer overflow (`ENOBUFS`).
    RecvBufOverflow,
    /// A netlink message could not be decoded.
    Parse(String),
    /// The scrape timeout was reached.
    Timeout {
        /// Configured timeout in milliseconds.
        millis: u64,
    },
    /// An I/O error at the socket layer.
    Io(String),
}

impl CollectError {
    /// The message of the error.
    pub open spec fn text(&self) -> Seq<char> {
        match self {
            CollectError::Unavailable { reason } => "subsystem unavailable: "@ + reason@,
            CollectError::DumpIntr => "netlink dump interrupted: max restarts exceeded"@,
            CollectError::RecvBufOverflow => "netlink receive buffer overflow (ENOBUFS)"@,
            CollectError::Parse(message) => "parse error: "@ + message@,
            CollectError::Timeout { millis } => "scrape timeout after "@ + dec(*millis as nat) + "ms"@,
            CollectError::Io(message) => "netlink socket I/O error: "@ + message@,
        }
    }

    /// Writes the message of the error.
    pub fn message(&self) -> (r: String)
        ensures
            r@ == self.text(),
    {
        match self {
            CollectError::Unavailable { reason } => join2("subsystem unavailable: ", reason.as_str()),
            CollectError::DumpIntr => "netlink dump interrupted: max restarts exceeded".to_owned(),
            CollectError::RecvBufOverflow => "netlink receive buffer overflow (ENOBUFS)".to_owned(),
            CollectError::Parse(message) => join2("parse error: ", message.as_str()),
            CollectError::Timeout { millis } => {
                let mut r = "scrape timeout after ".to_owned();
                push_dec(&mut r, *millis);
                r.append("ms");
                r
            },
            CollectError::Io(message) => join2("netlink socket I/O error: ", message.as_str()),
        }
    }
}

/// Errors of the netlink transport.
#[derive(Clone, Debug, PartialEq, Eq)]
#[non_exhaustive]
pub enum TransportError {
    /// Socket creation or bind failed.
    Open(String),
    /// A dump was interrupted too often.
    DumpIntr,
    /// Receive buffer overflow (`ENOBUFS`) after doubling the buffer.
    RecvBufOverflow,
    /// A receive call returned an unexpected error.
    Recv(String),
    /// A send call returned an error.
    Send(String),
    /// The kernel answered with an error frame.
    NlError {
        /// Errno value of the frame.
        errno: i32,
    },
}

impl TransportError {
    /// The message of the error.
    pub open spec fn text(&self) -> Seq<char> {
        match self {
            TransportError::Open(message) => "netlink socket open failed: "@ + message@,
            TransportError::DumpIntr =>
                "netlink dump interrupted (NLM_F_DUMP_INTR); max restarts exceeded"@,
            TransportError::RecvBufOverflow => "netlink receive buffer overflow (ENOBUFS)"@,
            TransportError::Recv(message) => "recvmsg error: "@ + message@,
            TransportError::Send(message) => "sendmsg error: "@ + message@,
            TransportError::NlError { errno } => "netlink error response: errno="@ + signed_dec(
                *errno as int,
            ),
        }
    }

    /// Writes the message of the error.
    pub fn message(&self) -> (r: String)
        ensures
            r@ == self.text(),
    {
        match self {
            TransportError::Open(message) => join2("netlink socket open failed: ", message.as_str()),
            TransportError::DumpIntr =>
                "netlink dump interrupted (NLM_F_DUMP_INTR); max restarts exceeded".to_owned(),
            TransportError::RecvBufOverflow => "netlink receive buffer overflow (ENOBUFS)".to_owned(),
            TransportError::Recv(message) => join2("recvmsg error: ", message.as_str()),
            TransportError::Send(message) => join2("sendmsg error: ", message.as_str()),
            TransportError::NlError { errno } => join2(
                "netlink error response: errno=",
                signed_dec_text(*errno as i64).as_str(),
            ),
        }
    }
}

/// Errors of the metric registry.
#[derive(Clone, Debug, PartialEq, Eq)]
pub enum RegistryError {
    /// Text encoding failed.
    Encode(String),
    /// The registry lock was poisoned by a panicking thread.
    LockPoisoned,
}

impl RegistryError {
    /// The message of the error.
    pub open spec fn text(&self) -> Seq<char> {
        match self {
            RegistryError::Encode(message) => "OpenMetrics encode error: "@ + message@,
            RegistryError::LockPoisoned => "metric registry lock poisoned"@,
        }
    }

    /// Writes the message of the error.
    pub fn message(&self) -> (r: String)
        ensures
            r@ == self.text(),
    {
        match self {
            RegistryError::Encode(message) => join2("OpenMetrics encode error: ", message.as_str()),
            RegistryError::LockPoisoned => "metric registry lock poisoned".to_owned(),
        }
    }
}

/// Errors of the HTTP adapter.
#[derive(Clone, Debug, PartialEq, Eq)]
pub enum HttpAdapterError {
    /// TCP bind or server startup failed.
    Serve(String),
}

impl HttpAdapterError {
    /// The message of the error.
    pub open spec fn text(&self) -> Seq<char> {
        match self {
            HttpAdapterError::Serve(message) => "HTTP server bind/serve error: "@ + message@,
        }
    }

    /// Writes the message of the error.
    pub fn message(&self) -> (r: String)
        ensures
            r@ == self.text(),
    {
        match self {
            HttpAdapterError::Serve(message) => join2(
                "HTTP server bind/serve error: ",
                message.as_str(),
            ),
        }
    }
}

/// Errors of configuration loading.
#[derive(Clone, Debug, PartialEq, Eq)]
#[non_exhaustive]
pub enum ConfigLoadError {
    /// The merged sources do not make up a configuration.
    Extract(String),
}

impl ConfigLoadError {
    /// The message of the error.
    pub open spec fn text(&self) -> Seq<char> {
        match self {
            ConfigLoadError::Extract(message) => "config extraction failed: "@ + message@,
        }
    }

    /// Writes the message of the error.
    pub fn message(&self) -> (r: String)
        ensures
            r@ == self.text(),
    {
        match self {
            ConfigLoadError::Extract(message) => join2("config extraction failed: ", message.as_str()),
        }
    }
}

/// The message of an error ends with the message that it passes on.
pub proof fn law_message_kept(m: String, name: &'static str, errno: i32, millis: u64)
    ensures
        m@.is_suffix_of(DomainError::Collector(m).text()),
        m@.is_suffix_of(DomainError::CollectorUnavailable { name, reason: m }.text()),
        m@.is_suffix_of(CollectError::Unavailable { reason: m }.text()),
        m@.is_suffix_of(CollectError::Parse(m).text()),
        m@.is_suffix_of(CollectError::Io(m).text()),
        m@.is_suffix_of(TransportError::Open(m).text()),
        m@.is_suffix_of(TransportError::Recv(m).text()),
        m@.is_suffix_of(TransportError::Send(m).text()),
        signed_dec(errno as int).is_suffix_of(TransportError::NlError { errno }.text()),
        m@.is_suffix_of(RegistryError::Encode(m).text()),
        m@.is_suffix_of(HttpAdapterError::Serve(m).text()),
        m@.is_suffix_of(ConfigLoadError::Extract(m).text()),
        (dec(millis as nat) + "ms"@).is_suffix_of(CollectError::Timeout { millis }.text()),
{
    lemma_suffix("collector error: "@, m@);
    lemma_suffix("collector "@ + name@ + " not available: "@, m@);
    lemma_suffix("subsystem unavailable: "@, m@);
    lemma_suffix("parse error: "@, m@);
    lemma_suffix("netlink socket I/O error: "@, m@);
    lemma_suffix("netlink socket open failed: "@, m@);
    lemma_suffix("recvmsg error: "@, m@);
    lemma_suffix("sendmsg error: "@, m@);
    lemma_suffix("netlink error response: errno="@, signed_dec(errno as int));
    lemma_suffix("OpenMetrics encode error: "@, m@);
    lemma_suffix("HTTP server bind/serve error: "@, m@);
    lemma_suffix("config extraction failed: "@, m@);
    let after = "scrape timeout after "@;
    let time = dec(millis as nat);
    assert(after + time + "ms"@ =~= after + (time + "ms"@));
    lemma_suffix(after, time + "ms"@);
}

proof fn lemma_suffix(a: Seq<char>, b: Seq<char>)
    ensures
        b.is_suffix_of(a + b),
{
    assert((a + b).skip(a.len() as int) =~= b);
}

} // verus!
