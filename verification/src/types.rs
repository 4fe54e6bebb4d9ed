//! The data model: protocols, TCP states, connection records, traffic
//! events, and packet snippets.

use vstd::prelude::*;

use crate::clock::TimeOfDay;
use crate::net::IpAddress;

verus! {

// ─── Protocol ────────────────────────────────────────────────────────────

#[derive(Clone, Copy, Debug, PartialEq, Eq, Hash, Structural)]
pub enum ConnProto {
    Tcp,
    Udp,
}

impl ConnProto {
    pub open spec fn spec_label(self) -> Seq<char> {
        match self {
            ConnProto::Tcp => "TCP"@,
            ConnProto::Udp => "UDP"@,
        }
    }

    pub fn label(&self) -> (r: &'static str)
        ensures
            r@ == self.spec_label(),
    {
        match self {
            ConnProto::Tcp => "TCP",
            ConnProto::Udp => "UDP",
        }
    }
}

// ─── TCP state ───────────────────────────────────────────────────────────

#[derive(Clone, Copy, Debug, PartialEq, Eq, Hash, Structural)]
pub enum TcpState {
    Closed,
    Listen,
    SynSent,
    SynReceived,
    Established,
    FinWait1,
    FinWait2,
    CloseWait,
    Closing,
    LastAck,
    TimeWait,
    DeleteTcb,
    Unknown(u32),
}

impl TcpState {
    /// The numeric state of the kernel tables: 1 is CLOSED through 12 is
    /// DELETE_TCB; any other value is kept as `Unknown`.
    pub open spec fn spec_from_raw(v: u32) -> TcpState {
        if v == 1 {
            TcpState::Closed
        } else if v == 2 {
            TcpState::Listen
        } else if v == 3 {
            TcpState::SynSent
        } else if v == 4 {
            TcpState::SynReceived
        } else if v == 5 {
            TcpState::Established
        } else if v == 6 {
            TcpState::FinWait1
        } else if v == 7 {
            TcpState::FinWait2
        } else if v == 8 {
            TcpState::CloseWait
        } else if v == 9 {
            TcpState::Closing
        } else if v == 10 {
            TcpState::LastAck
        } else if v == 11 {
            TcpState::TimeWait
        } else if v == 12 {
            TcpState::DeleteTcb
        } else {
            TcpState::Unknown(v)
        }
    }

    pub fn from_raw(v: u32) -> (s: TcpState)
        ensures
            s == TcpState::spec_from_raw(v),
    {
        match v {
            1 => TcpState::Closed,
            2 => TcpState::Listen,
            3 => TcpState::SynSent,
            4 => TcpState::SynReceived,
            5 => TcpState::Established,
            6 => TcpState::FinWait1,
            7 => TcpState::FinWait2,
            8 => TcpState::CloseWait,
            9 => TcpState::Closing,
            10 => TcpState::LastAck,
            11 => TcpState::TimeWait,
            12 => TcpState::DeleteTcb,
            _ => TcpState::Unknown(v),
        }
    }

    pub open spec fn spec_label(self) -> Seq<char> {
        match self {
            TcpState::Closed => "CLOSED"@,
            TcpState::Listen => "LISTEN"@,
            TcpState::SynSent => "SYN_SENT"@,
            TcpState::SynReceived => "SYN_RECV"@,
            TcpState::Established => "ESTABLISHED"@,
            TcpState::FinWait1 => "FIN_WAIT1"@,
            TcpState::FinWait2 => "FIN_WAIT2"@,
            TcpState::CloseWait => "CLOSE_WAIT"@,
            TcpState::Closing => "CLOSING"@,
            TcpState::LastAck => "LAST_ACK"@,
            TcpState::TimeWait => "TIME_WAIT"@,
            TcpState::DeleteTcb => "DELETE_TCB"@,
            TcpState::Unknown(_) => "UNKNOWN"@,
        }
    }

    pub fn label(&self) -> (r: &'static str)
        ensures
            r@ == self.spec_label(),
    {
        match self {
            TcpState::Closed => "CLOSED",
            TcpState::Listen => "LISTEN",
            TcpState::SynSent => "SYN_SENT",
            TcpState::SynReceived => "SYN_RECV",
            TcpState::Established => "ESTABLISHED",
            TcpState::FinWait1 => "FIN_WAIT1",
            TcpState::FinWait2 => "FIN_WAIT2",
            TcpState::CloseWait => "CLOSE_WAIT",
            TcpState::Closing => "CLOSING",
            TcpState::LastAck => "LAST_ACK",
            TcpState::TimeWait => "TIME_WAIT",
            TcpState::DeleteTcb => "DELETE_TCB",
            TcpState::Unknown(_) => "UNKNOWN",
        }
    }
}

// ─── Connection ──────────────────────────────────────────────────────────

/// A kernel-visible socket with its owning process, at a point in time.
/// A UDP record carries no state and, when it is only a bound socket,
/// no remote endpoint.
#[derive(Debug)]
pub struct Connection {
    pub proto: ConnProto,
    pub local_addr: IpAddress,
    pub local_port: u16,
    pub remote_addr: Option<IpAddress>,
    pub remote_port: Option<u16>,
    pub state: Option<TcpState>,
    pub pid: u32,
    pub process_name: String,
    /// DNS-resolved hostname for the remote address, if available.
    pub dns_hostname: Option<String>,
}

/// The spec-level image of a `Connection`, with strings as character
/// sequences.
pub struct ConnectionModel {
    pub proto: ConnProto,
    pub local_addr: IpAddress,
    pub local_port: u16,
    pub remote_addr: Option<IpAddress>,
    pub remote_port: Option<u16>,
    pub state: Option<TcpState>,
    pub pid: u32,
    pub process_name: Seq<char>,
    pub dns_hostname: Option<Seq<char>>,
}

impl View for Connection {
    type V = ConnectionModel;

    open spec fn view(&self) -> ConnectionModel {
        ConnectionModel {
            proto: self.proto,
            local_addr: self.local_addr,
            local_port: self.local_port,
            remote_addr: self.remote_addr,
            remote_port: self.remote_port,
            state: self.state,
            pid: self.pid,
            process_name: self.process_name@,
            dns_hostname: match self.dns_hostname {
                Some(ref h) => Some(h@),
                None => None,
            },
        }
    }
}

impl DeepView for Connection {
    type V = ConnectionModel;

    open spec fn deep_view(&self) -> ConnectionModel {
        self.view()
    }
}

impl Clone for Connection {
    fn clone(&self) -> (r: Self)
        ensures
            r == *self,
    {
        Connection {
            proto: self.proto,
            local_addr: self.local_addr,
            local_port: self.local_port,
            remote_addr: self.remote_addr,
            remote_port: self.remote_port,
            state: self.state,
            pid: self.pid,
            process_name: self.process_name.clone(),
            dns_hostname: match &self.dns_hostname {
                Some(h) => Some(h.clone()),
                None => None,
            },
        }
    }
}

/// The identity of a socket across ticks: protocol plus both endpoints.
#[derive(Clone, Copy, Debug, PartialEq, Eq, Hash, Structural)]
pub struct ConnKey {
    pub proto: ConnProto,
    pub local_addr: IpAddress,
    pub local_port: u16,
    pub remote_addr: Option<IpAddress>,
    pub remote_port: Option<u16>,
}

/// The remote ports of the outbound heuristic: services this host would
/// connect out to.
pub open spec fn spec_is_well_known_port(p: u16) -> bool {
    ||| p == 80
    ||| p == 443
    ||| p == 22
    ||| p == 21
    ||| p == 25
    ||| p == 53
    ||| p == 110
    ||| p == 143
    ||| p == 993
    ||| p == 995
    ||| p == 587
    ||| p == 465
    ||| p == 8080
    ||| p == 8443
    ||| p == 3306
    ||| p == 5432
    ||| p == 6379
    ||| p == 27017
}

impl ConnectionModel {
    pub open spec fn spec_key(self) -> ConnKey {
        ConnKey {
            proto: self.proto,
            local_addr: self.local_addr,
            local_port: self.local_port,
            remote_addr: self.remote_addr,
            remote_port: self.remote_port,
        }
    }

    /// The outbound heuristic: a well-known remote port, or an ephemeral
    /// local port talking to a privileged remote port, or a local port in
    /// the dynamic range. A record without a remote port is not outbound.
    pub open spec fn spec_is_outbound(self) -> bool {
        match self.remote_port {
            Some(rp) => spec_is_well_known_port(rp) || (self.local_port > 1024 && rp <= 1024)
                || self.local_port > 49152,
            None => false,
        }
    }
}

impl Connection {
    pub fn key(&self) -> (k: ConnKey)
        ensures
            k == self@.spec_key(),
    {
        ConnKey {
            proto: self.proto,
            local_addr: self.local_addr,
            local_port: self.local_port,
            remote_addr: self.remote_addr,
            remote_port: self.remote_port,
        }
    }

    pub fn is_outbound(&self) -> (r: bool)
        ensures
            r == self@.spec_is_outbound(),
    {
        if let Some(rp) = self.remote_port {
            matches!(
                rp,
                80 | 443 | 22 | 21 | 25 | 53 | 110 | 143 | 993 | 995 | 587 | 465 | 8080 | 8443
                    | 3306 | 5432 | 6379 | 27017
            ) || (self.local_port > 1024 && rp <= 1024) || (self.local_port > 49152)
        } else {
            false
        }
    }
}

/// The outbound heuristic in the three statements callers rely on: a
/// local port above 49152 is outbound whatever the remote port; a
/// well-known remote port is outbound whatever the local port; a record
/// without a remote port is never outbound.
pub proof fn lemma_outbound_heuristic(c: ConnectionModel)
    ensures
        c.local_port > 49152 && c.remote_port is Some ==> c.spec_is_outbound(),
        (match c.remote_port {
            Some(rp) => spec_is_well_known_port(rp),
            None => false,
        }) ==> c.spec_is_outbound(),
        c.remote_port is None ==> !c.spec_is_outbound(),
{
}

// ─── Traffic events ──────────────────────────────────────────────────────

#[derive(Clone, Copy, Debug, PartialEq, Eq, Structural)]
pub enum TrafficEventKind {
    NewConnection,
    ConnectionClosed,
    StateChange { from: TcpState, to: TcpState },
    /// Reserved for a future byte-counting source; never emitted.
    DataActivity { bytes: usize, inbound: bool },
}

impl TrafficEventKind {
    pub open spec fn spec_label(self) -> Seq<char> {
        match self {
            TrafficEventKind::NewConnection => "CONNECT"@,
            TrafficEventKind::ConnectionClosed => "CLOSE"@,
            TrafficEventKind::StateChange { .. } => "STATE"@,
            TrafficEventKind::DataActivity { .. } => "DATA"@,
        }
    }

    pub fn label(&self) -> (r: &'static str)
        ensures
            r@ == self.spec_label(),
    {
        match self {
            TrafficEventKind::NewConnection => "CONNECT",
            TrafficEventKind::ConnectionClosed => "CLOSE",
            TrafficEventKind::StateChange { .. } => "STATE",
            TrafficEventKind::DataActivity { .. } => "DATA",
        }
    }
}

/// One event of the traffic log, immutable once emitted.
#[derive(Debug)]
pub struct TrafficEntry {
    pub timestamp: TimeOfDay,
    pub event: TrafficEventKind,
    pub proto: ConnProto,
    pub local_addr: IpAddress,
    pub local_port: u16,
    pub remote_addr: Option<IpAddress>,
    pub remote_port: Option<u16>,
    pub process_name: String,
    pub outbound: bool,
    pub state_label: String,
    /// DNS-resolved hostname for the remote address, if available.
    pub dns_name: Option<String>,
    /// Estimated data transferred for the connection at event time.
    pub data_size: Option<u64>,
}

/// The spec-level image of a `TrafficEntry`.
pub struct TrafficEntryModel {
    pub timestamp: TimeOfDay,
    pub event: TrafficEventKind,
    pub proto: ConnProto,
    pub local_addr: IpAddress,
    pub local_port: u16,
    pub remote_addr: Option<IpAddress>,
    pub remote_port: Option<u16>,
    pub process_name: Seq<char>,
    pub outbound: bool,
    pub state_label: Seq<char>,
    pub dns_name: Option<Seq<char>>,
    pub data_size: Option<u64>,
}

impl View for TrafficEntry {
    type V = TrafficEntryModel;

    open spec fn view(&self) -> TrafficEntryModel {
        TrafficEntryModel {
            timestamp: self.timestamp,
            event: self.event,
            proto: self.proto,
            local_addr: self.local_addr,
            local_port: self.local_port,
            remote_addr: self.remote_addr,
            remote_port: self.remote_port,
            process_name: self.process_name@,
            outbound: self.outbound,
            state_label: self.state_label@,
            dns_name: match self.dns_name {
                Some(ref h) => Some(h@),
                None => None,
            },
            data_size: self.data_size,
        }
    }
}

impl DeepView for TrafficEntry {
    type V = TrafficEntryModel;

    open spec fn deep_view(&self) -> TrafficEntryModel {
        self.view()
    }
}

impl Clone for TrafficEntry {
    fn clone(&self) -> (r: Self)
        ensures
            r@ == self@,
    {
        TrafficEntry {
            timestamp: self.timestamp,
            event: self.event,
            proto: self.proto,
            local_addr: self.local_addr,
            local_port: self.local_port,
            remote_addr: self.remote_addr,
            remote_port: self.remote_port,
            process_name: self.process_name.clone(),
            outbound: self.outbound,
            state_label: self.state_label.clone(),
            dns_name: match &self.dns_name {
                Some(h) => Some(h.clone()),
                None => None,
            },
            data_size: self.data_size,
        }
    }
}

// ─── Packet snippets ─────────────────────────────────────────────────────

#[derive(Clone, Copy, Debug, PartialEq, Eq, Structural)]
pub enum PacketDirection {
    Inbound,
    Outbound,
}

/// A readable fragment extracted from one captured packet's payload.
#[derive(Debug)]
pub struct PacketSnippet {
    pub timestamp: TimeOfDay,
    pub direction: PacketDirection,
    pub src_ip: IpAddress,
    pub dst_ip: IpAddress,
    pub src_port: u16,
    pub dst_port: u16,
    pub protocol: ConnProto,
    /// Printable ASCII snippet from the payload.
    pub snippet: String,
    /// Total payload size in bytes.
    pub payload_size: usize,
}

/// The spec-level image of a `PacketSnippet`.
pub struct PacketSnippetModel {
    pub timestamp: TimeOfDay,
    pub direction: PacketDirection,
    pub src_ip: IpAddress,
    pub dst_ip: IpAddress,
    pub src_port: u16,
    pub dst_port: u16,
    pub protocol: ConnProto,
    pub snippet: Seq<char>,
    pub payload_size: usize,
}

impl View for PacketSnippet {
    type V = PacketSnippetModel;

    open spec fn view(&self) -> PacketSnippetModel {
        PacketSnippetModel {
            timestamp: self.timestamp,
            direction: self.direction,
            src_ip: self.src_ip,
            dst_ip: self.dst_ip,
            src_port: self.src_port,
            dst_port: self.dst_port,
            protocol: self.protocol,
            snippet: self.snippet@,
            payload_size: self.payload_size,
        }
    }
}

impl DeepView for PacketSnippet {
    type V = PacketSnippetModel;

    open spec fn deep_view(&self) -> PacketSnippetModel {
        self.view()
    }
}

impl Clone for PacketSnippet {
    fn clone(&self) -> (r: Self)
        ensures
            r@ == self@,
    {
        PacketSnippet {
            timestamp: self.timestamp,
            direction: self.direction,
            src_ip: self.src_ip,
            dst_ip: self.dst_ip,
            src_port: self.src_port,
            dst_port: self.dst_port,
            protocol: self.protocol,
            snippet: self.snippet.clone(),
            payload_size: self.payload_size,
        }
    }
}

// ─── Bottom pane tab ─────────────────────────────────────────────────────

#[derive(Clone, Copy, Debug, PartialEq, Eq, Structural)]
pub enum BottomTab {
    Traffic,
    Connections,
}

impl BottomTab {
    pub fn next(&self) -> (r: Self)
        ensures
            r == (match self {
                BottomTab::Traffic => BottomTab::Connections,
                BottomTab::Connections => BottomTab::Traffic,
            }),
    {
        match self {
            BottomTab::Traffic => BottomTab::Connections,
            BottomTab::Connections => BottomTab::Traffic,
        }
    }
}


impl View for ConnProto {
    type V = ConnProto;

    open spec fn view(&self) -> ConnProto {
        *self
    }
}

impl DeepView for ConnProto {
    type V = ConnProto;

    open spec fn deep_view(&self) -> ConnProto {
        *self
    }
}


impl View for TcpState {
    type V = TcpState;

    open spec fn view(&self) -> TcpState {
        *self
    }
}

impl DeepView for TcpState {
    type V = TcpState;

    open spec fn deep_view(&self) -> TcpState {
        *self
    }
}


impl View for ConnKey {
    type V = ConnKey;

    open spec fn view(&self) -> ConnKey {
        *self
    }
}

impl DeepView for ConnKey {
    type V = ConnKey;

    open spec fn deep_view(&self) -> ConnKey {
        *self
    }
}


impl View for TrafficEventKind {
    type V = TrafficEventKind;

    open spec fn view(&self) -> TrafficEventKind {
        *self
    }
}

impl DeepView for TrafficEventKind {
    type V = TrafficEventKind;

    open spec fn deep_view(&self) -> TrafficEventKind {
        *self
    }
}


impl View for PacketDirection {
    type V = PacketDirection;

    open spec fn view(&self) -> PacketDirection {
        *self
    }
}

impl DeepView for PacketDirection {
    type V = PacketDirection;

    open spec fn deep_view(&self) -> PacketDirection {
        *self
    }
}

} // verus!
