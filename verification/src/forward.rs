//! Forwarding of TCP connections, and the SOCKS5 requests that ask for it.

use vstd::prelude::*;
use vstd::string::*;

use crate::text::text_from_utf8;

verus! {

pub const MAX_ACTIVE_FORWARD_CONNECTIONS: usize = 256;

pub const FORWARD_CHANNEL_OPEN_TIMEOUT_SECS: u64 = 15;

pub const SOCKS_HANDSHAKE_TIMEOUT_SECS: u64 = 10;

/// An address of the internet protocol, by its octets.
#[derive(Debug, Clone, Copy, PartialEq, Eq, Structural)]
pub enum IpOctets {
    V4 { a: u8, b: u8, c: u8, d: u8 },
    /// Sixteen octets, the first eight in `high`.
    V6 { high: u64, low: u64 },
}

/// An address and a port.
#[derive(Debug, Clone, Copy, PartialEq, Eq, Structural)]
pub struct SocketAddress {
    pub ip: IpOctets,
    pub port: u16,
}

/// The port on this machine, for connections from this machine.
pub fn loopback(port: u16) -> (r: SocketAddress)
    ensures
        r == (SocketAddress { ip: IpOctets::V4 { a: 127, b: 0, c: 0, d: 1 }, port }),
{
    SocketAddress { ip: IpOctets::V4 { a: 127, b: 0, c: 0, d: 1 }, port }
}

#[derive(Debug, Clone, PartialEq, Eq)]
pub struct LocalForward {
    pub bind: SocketAddress,
    pub target_host: String,
    pub target_port: u16,
}

#[derive(Debug, Clone, PartialEq, Eq)]
pub struct RemoteForward {
    pub bind_address: String,
    pub bind_port: u16,
    pub target_host: String,
    pub target_port: u16,
}

#[derive(Debug, Clone, Copy, PartialEq, Eq, Structural)]
pub struct DynamicForward {
    pub bind: SocketAddress,
}

/// A listener on this machine.
#[derive(Debug, PartialEq, Eq)]
pub struct ForwardHandle {
    pub address: SocketAddress,
}

impl ForwardHandle {
    /// The address that the system bound.
    pub fn bound_addr(&self) -> (r: SocketAddress)
        ensures
            r == self.address,
    {
        self.address
    }

    pub fn bound_port(&self) -> (r: u16)
        ensures
            r == self.address.port,
    {
        self.address.port
    }
}

/// A listener at the server.
#[derive(Debug, PartialEq, Eq)]
pub struct RemoteForwardHandle {
    pub address: String,
    pub bind_port: u16,
    /// It has not been taken back.
    pub active: bool,
}

impl RemoteForwardHandle {
    pub fn port(&self) -> (r: u16)
        ensures
            r == self.bind_port,
    {
        self.bind_port
    }

    pub fn bind_address(&self) -> (r: &str)
        ensures
            r@ == self.address@,
    {
        self.address.as_str()
    }

    /// The server is to be asked to take the listener back; this is said once.
    pub fn retire(&mut self) -> (r: bool)
        ensures
            r == old(self).active,
            !final(self).active,
            final(self).address@ == old(self).address@,
            final(self).bind_port == old(self).bind_port,
    {
        let was = self.active;
        self.active = false;
        was
    }
}

/// The port of a listener at the server: the one that was asked for, or else
/// the one that the server chose, which has to be a port.
pub fn remote_port(requested: u16, allocated: u32) -> (r: Option<u16>)
    ensures
        match r {
            Some(port) => if requested == 0 {
                port == allocated
            } else {
                port == requested
            },
            None => requested == 0 && allocated > u16::MAX,
        },
{
    if requested != 0 {
        return Some(requested);
    }
    if allocated <= 65535 {
        Some(allocated as u16)
    } else {
        None
    }
}

#[derive(Debug, Clone, Copy, PartialEq, Eq, Structural)]
pub enum SocksProblem {
    Version,
    TooManyMethods,
    NoAuthMethod,
    RequestVersion,
    ReservedByte,
    Command,
    EmptyDomain,
    DomainNotText,
    AddressType,
}

impl SocksProblem {
    pub open spec fn text(self) -> Seq<char> {
        match self {
            SocksProblem::Version => "unsupported SOCKS version"@,
            SocksProblem::TooManyMethods => "too many SOCKS auth methods"@,
            SocksProblem::NoAuthMethod => "SOCKS client does not support no-auth mode"@,
            SocksProblem::RequestVersion => "invalid SOCKS request version"@,
            SocksProblem::ReservedByte => "invalid SOCKS reserved byte"@,
            SocksProblem::Command => "only SOCKS CONNECT is supported"@,
            SocksProblem::EmptyDomain => "empty SOCKS domain"@,
            SocksProblem::DomainNotText => "SOCKS domain is not UTF-8"@,
            SocksProblem::AddressType => "unsupported SOCKS address type"@,
        }
    }

    pub fn message(self) -> (r: &'static str)
        ensures
            r@ == self.text(),
    {
        match self {
            SocksProblem::Version => "unsupported SOCKS version",
            SocksProblem::TooManyMethods => "too many SOCKS auth methods",
            SocksProblem::NoAuthMethod => "SOCKS client does not support no-auth mode",
            SocksProblem::RequestVersion => "invalid SOCKS request version",
            SocksProblem::ReservedByte => "invalid SOCKS reserved byte",
            SocksProblem::Command => "only SOCKS CONNECT is supported",
            SocksProblem::EmptyDomain => "empty SOCKS domain",
            SocksProblem::DomainNotText => "SOCKS domain is not UTF-8",
            SocksProblem::AddressType => "unsupported SOCKS address type",
        }
    }
}

#[derive(Debug, Clone, PartialEq, Eq)]
pub enum SocksHost {
    Address(IpOctets),
    Domain(String),
}

#[verifier::ext_equal]
pub enum SocksHostView {
    Address(IpOctets),
    Domain(Seq<char>),
}

impl View for SocksHost {
    type V = SocksHostView;

    open spec fn view(&self) -> SocksHostView {
        match *self {
            SocksHost::Address(ip) => SocksHostView::Address(ip),
            SocksHost::Domain(name) => SocksHostView::Domain(name@),
        }
    }
}

/// Where a SOCKS client wants to go.
#[derive(Debug, Clone, PartialEq, Eq)]
pub struct SocksTarget {
    pub host: SocksHost,
    pub port: u16,
}

/// How far a SOCKS exchange has come, after all the bytes that the client sent
/// so far.
#[derive(Debug, PartialEq, Eq)]
pub enum SocksStatus {
    /// The client has to send this many bytes in all, at least.
    NeedBytes(usize),
    Refused(SocksProblem),
    Ready(SocksTarget),
}

#[verifier::ext_equal]
pub enum SocksView {
    NeedBytes(int),
    Refused(SocksProblem),
    Ready { host: SocksHostView, port: int },
}

impl View for SocksStatus {
    type V = SocksView;

    open spec fn view(&self) -> SocksView {
        match *self {
            SocksStatus::NeedBytes(n) => SocksView::NeedBytes(n as int),
            SocksStatus::Refused(p) => SocksView::Refused(p),
            SocksStatus::Ready(t) => SocksView::Ready { host: t.host@, port: t.port as int },
        }
    }
}

/// A reply to a request: a code, and no address.
pub open spec fn request_reply(code: u8) -> Seq<u8> {
    seq![5u8, code, 0, 1, 0, 0, 0, 0, 0, 0]
}

pub fn socks_reply(code: u8) -> (r: Vec<u8>)
    ensures
        r@ == request_reply(code),
{
    let r = vec![5u8, code, 0, 1, 0, 0, 0, 0, 0, 0];
    assert(r@ =~= request_reply(code));
    r
}

/// What became of the channel that a request asked for.
#[derive(Debug, Clone, Copy, PartialEq, Eq, Structural)]
pub enum ChannelOutcome {
    Opened,
    Refused,
    TimedOut,
}

/// The last reply to a request.
pub fn final_reply(outcome: ChannelOutcome) -> (r: Vec<u8>)
    ensures
        r@ == request_reply(
            match outcome {
                ChannelOutcome::Opened => 0u8,
                ChannelOutcome::Refused => 5u8,
                ChannelOutcome::TimedOut => 1u8,
            },
        ),
{
    match outcome {
        ChannelOutcome::Opened => socks_reply(0),
        ChannelOutcome::Refused => socks_reply(5),
        ChannelOutcome::TimedOut => socks_reply(1),
    }
}

/// The number that two bytes stand for, the high one first.
pub open spec fn two_bytes(b: Seq<u8>, i: int) -> int {
    b[i] * 256 + b[i + 1]
}

pub open spec fn eight_bytes(b: Seq<u8>, i: int) -> int {
    two_bytes(b, i) * 0x1_0000_0000_0000 + two_bytes(b, i + 2) * 0x1_0000_0000 + two_bytes(b, i + 4)
        * 0x1_0000 + two_bytes(b, i + 6)
}

/// The port behind the address, once it is there.
pub open spec fn with_port(b: Seq<u8>, host: SocksHostView, i: int) -> SocksView {
    if b.len() < i + 2 {
        SocksView::NeedBytes(i + 2)
    } else {
        SocksView::Ready { host, port: two_bytes(b, i) }
    }
}

/// What the bytes of a request, which begins at index `q`, ask for, and the
/// reply where it is refused with one.
pub open spec fn request(b: Seq<u8>, q: int) -> (Seq<u8>, SocksView) {
    let none = Seq::<u8>::empty();
    if b.len() < q + 1 {
        (none, SocksView::NeedBytes(q + 1))
    } else if b[q] != 5 {
        (none, SocksView::Refused(SocksProblem::RequestVersion))
    } else if b.len() < q + 3 {
        (none, SocksView::NeedBytes(q + 3))
    } else if b[q + 2] != 0 {
        (none, SocksView::Refused(SocksProblem::ReservedByte))
    } else if b[q + 1] != 1 {
        (request_reply(7), SocksView::Refused(SocksProblem::Command))
    } else if b.len() < q + 4 {
        (none, SocksView::NeedBytes(q + 4))
    } else if b[q + 3] == 1 {
        if b.len() < q + 8 {
            (none, SocksView::NeedBytes(q + 8))
        } else {
            (
                none,
                with_port(
                    b,
                    SocksHostView::Address(
                        IpOctets::V4 { a: b[q + 4], b: b[q + 5], c: b[q + 6], d: b[q + 7] },
                    ),
                    q + 8,
                ),
            )
        }
    } else if b[q + 3] == 3 {
        if b.len() < q + 5 {
            (none, SocksView::NeedBytes(q + 5))
        } else if b[q + 4] == 0 {
            (none, SocksView::Refused(SocksProblem::EmptyDomain))
        } else if b.len() < q + 5 + b[q + 4] {
            (none, SocksView::NeedBytes(q + 5 + b[q + 4]))
        } else {
            let name = b.subrange(q + 5, q + 5 + b[q + 4]);
            if !vstd::utf8::valid_utf8(name) {
                (none, SocksView::Refused(SocksProblem::DomainNotText))
            } else {
                (
                    none,
                    with_port(
                        b,
                        SocksHostView::Domain(vstd::utf8::decode_utf8(name)),
                        q + 5 + b[q + 4],
                    ),
                )
            }
        }
    } else if b[q + 3] == 4 {
        if b.len() < q + 20 {
            (none, SocksView::NeedBytes(q + 20))
        } else {
            (
                none,
                with_port(
                    b,
                    SocksHostView::Address(
                        IpOctets::V6 {
                            high: eight_bytes(b, q + 4) as u64,
                            low: eight_bytes(b, q + 12) as u64,
                        },
                    ),
                    q + 20,
                ),
            )
        }
    } else {
        (request_reply(8), SocksView::Refused(SocksProblem::AddressType))
    }
}

/// What the bytes of a SOCKS5 client amount to, and all that is replied to
/// them. First the client offers ways to authenticate, of which only the one
/// without is taken; then it asks to be connected.
pub open spec fn socks(b: Seq<u8>) -> (Seq<u8>, SocksView) {
    let none = Seq::<u8>::empty();
    if b.len() < 1 {
        (none, SocksView::NeedBytes(1))
    } else if b[0] != 5 {
        (none, SocksView::Refused(SocksProblem::Version))
    } else if b.len() < 2 {
        (none, SocksView::NeedBytes(2))
    } else if b[1] > 32 {
        (none, SocksView::Refused(SocksProblem::TooManyMethods))
    } else if b.len() < 2 + b[1] {
        (none, SocksView::NeedBytes(2 + b[1]))
    } else if !b.subrange(2, 2 + b[1]).contains(0u8) {
        (seq![5u8, 0xff], SocksView::Refused(SocksProblem::NoAuthMethod))
    } else {
        let (reply, status) = request(b, 2 + b[1]);
        (seq![5u8, 0u8] + reply, status)
    }
}

fn read_port(b: &[u8], host: SocksHost, i: usize) -> (r: SocksStatus)
    requires
        i <= b@.len(),
        i <= 1000,
    ensures
        r@ == with_port(b@, host@, i as int),
{
    if b.len() < i + 2 {
        return SocksStatus::NeedBytes(i + 2);
    }
    let port = b[i] as u16 * 256 + b[i + 1] as u16;
    SocksStatus::Ready(SocksTarget { host, port })
}

fn read_eight(b: &[u8], i: usize) -> (r: u64)
    requires
        i + 8 <= b@.len(),
    ensures
        r == eight_bytes(b@, i as int),
{
    let p0 = b[i] as u64 * 256 + b[i + 1] as u64;
    let p1 = b[i + 2] as u64 * 256 + b[i + 3] as u64;
    let p2 = b[i + 4] as u64 * 256 + b[i + 5] as u64;
    let p3 = b[i + 6] as u64 * 256 + b[i + 7] as u64;
    p0 * 0x1_0000_0000_0000 + p1 * 0x1_0000_0000 + p2 * 0x1_0000 + p3
}

fn read_request(b: &[u8], q: usize) -> (r: (Vec<u8>, SocksStatus))
    requires
        q <= b@.len(),
        q <= 34,
    ensures
        (r.0@, r.1@) == request(b@, q as int),
{
    let none: Vec<u8> = Vec::new();
    assert(none@ =~= Seq::<u8>::empty());
    if b.len() < q + 1 {
        return (none, SocksStatus::NeedBytes(q + 1));
    }
    if b[q] != 5 {
        return (none, SocksStatus::Refused(SocksProblem::RequestVersion));
    }
    if b.len() < q + 3 {
        return (none, SocksStatus::NeedBytes(q + 3));
    }
    if b[q + 2] != 0 {
        return (none, SocksStatus::Refused(SocksProblem::ReservedByte));
    }
    if b[q + 1] != 1 {
        return (socks_reply(7), SocksStatus::Refused(SocksProblem::Command));
    }
    if b.len() < q + 4 {
        return (none, SocksStatus::NeedBytes(q + 4));
    }
    let kind = b[q + 3];
    if kind == 1 {
        if b.len() < q + 8 {
            return (none, SocksStatus::NeedBytes(q + 8));
        }
        let ip = IpOctets::V4 { a: b[q + 4], b: b[q + 5], c: b[q + 6], d: b[q + 7] };
        return (none, read_port(b, SocksHost::Address(ip), q + 8));
    }
    if kind == 3 {
        if b.len() < q + 5 {
            return (none, SocksStatus::NeedBytes(q + 5));
        }
        let n = b[q + 4] as usize;
        if n == 0 {
            return (none, SocksStatus::Refused(SocksProblem::EmptyDomain));
        }
        if b.len() < q + 5 + n {
            return (none, SocksStatus::NeedBytes(q + 5 + n));
        }
        let name = vstd::slice::slice_subrange(b, q + 5, q + 5 + n);
        return match text_from_utf8(name) {
            None => (none, SocksStatus::Refused(SocksProblem::DomainNotText)),
            Some(text) => (none, read_port(b, SocksHost::Domain(text), q + 5 + n)),
        };
    }
    if kind == 4 {
        if b.len() < q + 20 {
            return (none, SocksStatus::NeedBytes(q + 20));
        }
        let ip = IpOctets::V6 { high: read_eight(b, q + 4), low: read_eight(b, q + 12) };
        return (none, read_port(b, SocksHost::Address(ip), q + 20));
    }
    (socks_reply(8), SocksStatus::Refused(SocksProblem::AddressType))
}

/// Tells how far a SOCKS5 exchange has come: all that is replied to the bytes
/// so far, and what is to be done next.
pub fn negotiate_socks5(received: &[u8]) -> (r: (Vec<u8>, SocksStatus))
    ensures
        (r.0@, r.1@) == socks(received@),
{
    let none: Vec<u8> = Vec::new();
    assert(none@ =~= Seq::<u8>::empty());
    if received.len() < 1 {
        return (none, SocksStatus::NeedBytes(1));
    }
    if received[0] != 5 {
        return (none, SocksStatus::Refused(SocksProblem::Version));
    }
    if received.len() < 2 {
        return (none, SocksStatus::NeedBytes(2));
    }
    let count = received[1] as usize;
    if count > 32 {
        return (none, SocksStatus::Refused(SocksProblem::TooManyMethods));
    }
    if received.len() < 2 + count {
        return (none, SocksStatus::NeedBytes(2 + count));
    }
    let ghost methods = received@.subrange(2, 2 + received@[1]);
    let mut offered = false;
    let mut i: usize = 2;
    while i < 2 + count
        invariant
            2 <= i <= 2 + count,
            count == received@[1],
            2 + count <= received@.len(),
            count <= 32,
            methods == received@.subrange(2, 2 + received@[1]),
            offered == exists|k: int| 0 <= k < i - 2 && #[trigger] methods[k] == 0u8,
        decreases 2 + count - i,
    {
        assert(methods[i - 2] == received@[i as int]);
        if received[i] == 0 {
            offered = true;
        }
        i += 1;
    }
    if !offered {
        assert(!methods.contains(0u8));
        let reply = vec![5u8, 0xff];
        assert(reply@ =~= seq![5u8, 0xff]);
        return (reply, SocksStatus::Refused(SocksProblem::NoAuthMethod));
    }
    assert(methods.contains(0u8)) by {
        let k = choose|k: int| 0 <= k < i - 2 && #[trigger] methods[k] == 0u8;
        assert(methods[k] == 0u8);
    }
    let answer = read_request(received, 2 + count);
    let mut reply = vec![5u8, 0];
    let mut rest = answer.0;
    let ghost rest_view = rest@;
    reply.append(&mut rest);
    assert(reply@ =~= seq![5u8, 0u8] + rest_view);
    (reply, answer.1)
}

/// A client is asked for more than it sent, but for no more than 296 bytes in
/// all; so an exchange ends.
pub proof fn exchanges_are_bounded(b: Seq<u8>)
    ensures
        socks(b).1 matches SocksView::NeedBytes(n) ==> b.len() < n <= 296,
{
}

/// More bytes never change what was replied, nor what was settled.
pub proof fn exchanges_go_on_as_they_began(b: Seq<u8>, more: Seq<u8>)
    ensures
        socks(b).0.is_prefix_of(socks(b + more).0),
        !(socks(b).1 is NeedBytes) ==> socks(b + more) == socks(b),
{
    let all = b + more;
    assert forall|k: int| 0 <= k < b.len() implies #[trigger] all[k] == b[k] by {}
    if b.len() >= 2 && b[1] <= 32 && b.len() >= 2 + b[1] {
        assert(all.subrange(2, 2 + all[1]) =~= b.subrange(2, 2 + b[1]));
        let q = 2 + b[1];
        if b.len() >= q + 5 && b.len() >= q + 5 + b[q + 4] {
            assert(all.subrange(q + 5, q + 5 + all[q + 4]) =~= b.subrange(q + 5, q + 5 + b[q + 4]));
        }
    }
    assert(seq![5u8, 0u8].is_prefix_of(seq![5u8, 0u8] + request(all, 2 + all[1]).0));
}

} // verus!
