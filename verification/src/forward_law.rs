//! What a SOCKS5 client asks for is what it gets.

use vstd::prelude::*;

use crate::forward::IpOctets;
use crate::forward::SocksHostView;
use crate::forward::SocksProblem;
use crate::forward::SocksView;

verus! {

/// A number in so many bytes, the high ones first.
pub open spec fn big_endian(n: nat, count: nat) -> Seq<u8>
    decreases count,
{
    if count == 0 {
        Seq::empty()
    } else {
        big_endian(n / 256, (count - 1) as nat).push((n % 256) as u8)
    }
}

proof fn lemma_prefix(n: nat, count: nat)
    requires
        count >= 2,
    ensures
        big_endian(n, count) == big_endian(n / 0x1_0000, (count - 2) as nat) + seq![
            ((n / 256) % 256) as u8,
            (n % 256) as u8,
        ],
{
    reveal_with_fuel(big_endian, 3);
    assert(n / 256 / 256 == n / 0x1_0000);
    assert(big_endian(n, count) =~= big_endian(n / 0x1_0000, (count - 2) as nat) + seq![
        ((n / 256) % 256) as u8,
        (n % 256) as u8,
    ]);
}

proof fn lemma_big_endian_len(n: nat, count: nat)
    ensures
        big_endian(n, count).len() == count,
    decreases count,
{
    if count > 0 {
        lemma_big_endian_len(n / 256, (count - 1) as nat);
    }
}

/// Eight bytes that stand for a number are read as that number.
proof fn lemma_eight(n: u64, b: Seq<u8>, i: int)
    requires
        0 <= i,
        i + 8 <= b.len(),
        b.subrange(i, i + 8) == big_endian(n as nat, 8),
    ensures
        crate::forward::eight_bytes(b, i) == n,
{
    let m = n as nat;
    let s = big_endian(m, 8);
    lemma_prefix(m, 8);
    lemma_prefix(m / 0x1_0000, 6);
    lemma_prefix(m / 0x1_0000 / 0x1_0000, 4);
    lemma_prefix(m / 0x1_0000 / 0x1_0000 / 0x1_0000, 2);
    lemma_big_endian_len(m / 0x1_0000, 6);
    lemma_big_endian_len(m / 0x1_0000 / 0x1_0000, 4);
    lemma_big_endian_len(m / 0x1_0000 / 0x1_0000 / 0x1_0000, 2);
    lemma_big_endian_len(m / 0x1_0000 / 0x1_0000 / 0x1_0000 / 0x1_0000, 0);
    assert forall|k: int| 0 <= k < 8 implies b[i + k] == #[trigger] s[k] by {
        assert(b.subrange(i, i + 8)[k] == b[i + k]);
    }
    let m1 = m / 0x1_0000;
    let m2 = m1 / 0x1_0000;
    let m3 = m2 / 0x1_0000;
    assert(m3 < 0x1_0000);
    assert(s[7] == (m % 256) as u8 && s[6] == ((m / 256) % 256) as u8);
    assert(s[5] == (m1 % 256) as u8 && s[4] == ((m1 / 256) % 256) as u8);
    assert(s[3] == (m2 % 256) as u8 && s[2] == ((m2 / 256) % 256) as u8);
    assert(s[1] == (m3 % 256) as u8 && s[0] == ((m3 / 256) % 256) as u8);
    assert(b[i] == s[0] && b[i + 1] == s[1] && b[i + 2] == s[2] && b[i + 3] == s[3]);
    assert(b[i + 4] == s[4] && b[i + 5] == s[5] && b[i + 6] == s[6] && b[i + 7] == s[7]);
    assert(crate::forward::two_bytes(b, i) == m3);
    assert(crate::forward::two_bytes(b, i + 2) == m2 % 0x1_0000);
    assert(crate::forward::two_bytes(b, i + 4) == m1 % 0x1_0000);
    assert(crate::forward::two_bytes(b, i + 6) == m % 0x1_0000);
}

/// The bytes by which a client greets and asks to be connected: it offers these
/// ways to authenticate, and wants to go to this address and port.
pub open spec fn connect_request(methods: Seq<u8>, address: Seq<u8>, port: u16) -> Seq<u8> {
    seq![5u8, methods.len() as u8] + methods + seq![5u8, 1, 0] + address + seq![
        (port / 256) as u8,
        (port % 256) as u8,
    ]
}

proof fn lemma_request_parts(methods: Seq<u8>, address: Seq<u8>, port: u16)
    requires
        methods.len() <= 32,
        address.len() >= 1,
    ensures
        ({
            let b = connect_request(methods, address, port);
            let q = 2 + methods.len() as int;
            &&& b.len() == q + 3 + address.len() + 2
            &&& b[0] == 5 && b[1] == methods.len()
            &&& b.subrange(2, q) == methods
            &&& b[q] == 5 && b[q + 1] == 1 && b[q + 2] == 0
            &&& b.subrange(q + 3, q + 3 + address.len()) == address
            &&& forall|k: int| 0 <= k < address.len() ==> b[q + 3 + k] == #[trigger] address[k]
            &&& b[q + 3 + address.len()] == port / 256
            &&& b[q + 4 + address.len()] == port % 256
        }),
{
    let b = connect_request(methods, address, port);
    let q = 2 + methods.len() as int;
    assert(b.subrange(2, q) =~= methods);
    assert(b.subrange(q + 3, q + 3 + address.len()) =~= address);
    assert forall|k: int| 0 <= k < address.len() implies b[q + 3 + k] == #[trigger] address[k] by {}
}

/// A request for a host by name is settled with that name and that port.
pub proof fn named_hosts_come_through(methods: Seq<u8>, name: Seq<char>, port: u16)
    requires
        methods.len() <= 32,
        methods.contains(0u8),
        0 < vstd::utf8::encode_utf8(name).len() <= 255,
    ensures
        ({
            let bytes = vstd::utf8::encode_utf8(name);
            crate::forward::socks(
                connect_request(methods, seq![3u8, bytes.len() as u8] + bytes, port),
            ) == (
                seq![5u8, 0u8],
                SocksView::Ready { host: SocksHostView::Domain(name), port: port as int },
            )
        }),
{
    let bytes = vstd::utf8::encode_utf8(name);
    let address = seq![3u8, bytes.len() as u8] + bytes;
    lemma_request_parts(methods, address, port);
    let b = connect_request(methods, address, port);
    let q = 2 + methods.len() as int;
    assert(address[0] == 3 && address[1] == bytes.len());
    assert(b[q + 3 + 0] == 3);
    assert(b[q + 3 + 1] == bytes.len());
    assert(b.subrange(q + 5, q + 5 + b[q + 4]) =~= bytes);
    vstd::utf8::encode_utf8_valid_utf8(name);
    vstd::utf8::encode_utf8_decode_utf8(name);
    assert(seq![5u8, 0u8] + Seq::<u8>::empty() =~= seq![5u8, 0u8]);
}

/// A request for an address of four octets is settled with them and that port.
pub proof fn short_addresses_come_through(methods: Seq<u8>, a: u8, b: u8, c: u8, d: u8, port: u16)
    requires
        methods.len() <= 32,
        methods.contains(0u8),
    ensures
        crate::forward::socks(connect_request(methods, seq![1u8, a, b, c, d], port)) == (
            seq![5u8, 0u8],
            SocksView::Ready {
                host: SocksHostView::Address(IpOctets::V4 { a, b, c, d }),
                port: port as int,
            },
        ),
{
    let address = seq![1u8, a, b, c, d];
    lemma_request_parts(methods, address, port);
    let all = connect_request(methods, address, port);
    let q = 2 + methods.len() as int;
    assert(all[q + 3 + 0] == address[0]);
    assert(all[q + 3 + 1] == address[1]);
    assert(all[q + 3 + 2] == address[2]);
    assert(all[q + 3 + 3] == address[3]);
    assert(all[q + 3 + 4] == address[4]);
    assert(seq![5u8, 0u8] + Seq::<u8>::empty() =~= seq![5u8, 0u8]);
}

/// A request for an address of sixteen octets is settled with them and that
/// port.
pub proof fn long_addresses_come_through(methods: Seq<u8>, high: u64, low: u64, port: u16)
    requires
        methods.len() <= 32,
        methods.contains(0u8),
    ensures
        crate::forward::socks(
            connect_request(
                methods,
                seq![4u8] + big_endian(high as nat, 8) + big_endian(low as nat, 8),
                port,
            ),
        ) == (
            seq![5u8, 0u8],
            SocksView::Ready {
                host: SocksHostView::Address(IpOctets::V6 { high, low }),
                port: port as int,
            },
        ),
{
    let address = seq![4u8] + big_endian(high as nat, 8) + big_endian(low as nat, 8);
    lemma_big_endian_len(high as nat, 8);
    lemma_big_endian_len(low as nat, 8);
    lemma_request_parts(methods, address, port);
    let all = connect_request(methods, address, port);
    let q = 2 + methods.len() as int;
    assert(all[q + 3 + 0] == address[0]);
    assert(all.subrange(q + 4, q + 12) =~= address.subrange(1, 9));
    assert(address.subrange(1, 9) =~= big_endian(high as nat, 8));
    assert(all.subrange(q + 12, q + 20) =~= address.subrange(9, 17));
    assert(address.subrange(9, 17) =~= big_endian(low as nat, 8));
    lemma_eight(high, all, q + 4);
    lemma_eight(low, all, q + 12);
    assert(seq![5u8, 0u8] + Seq::<u8>::empty() =~= seq![5u8, 0u8]);
}

/// Only a client that speaks version 5, offers to go without authentication and
/// asks to be connected is ever settled; the port is in the last two of the
/// bytes that count.
pub proof fn only_proper_requests_are_settled(b: Seq<u8>)
    ensures
        crate::forward::socks(b).1 matches SocksView::Ready { host, port } ==> {
            let q = 2 + b[1] as int;
            let n = if b[q + 3] == 1 {
                4int
            } else if b[q + 3] == 4 {
                16int
            } else {
                1 + b[q + 4] as int
            };
            &&& b[0] == 5 && b[1] <= 32
            &&& exists|k: int| 2 <= k < q && #[trigger] b[k] == 0
            &&& b[q] == 5 && b[q + 1] == 1 && b[q + 2] == 0
            &&& b[q + 3] == 1 || b[q + 3] == 3 || b[q + 3] == 4
            &&& b[q + 3] == 3 <==> host is Domain
            &&& b[q + 3] == 3 ==> b[q + 4] > 0
            &&& b.len() >= q + 4 + n + 2
            &&& port == b[q + 4 + n] * 256 + b[q + 5 + n]
        },
{
    if crate::forward::socks(b).1 is Ready {
        let methods = b.subrange(2, 2 + b[1]);
        let k = choose|k: int| 0 <= k < methods.len() && methods[k] == 0u8;
        assert(b[2 + k] == 0);
    }
}

/// What is refused, and what is said to the client: nothing where it does not
/// speak the protocol, and a reply that names the reason where no way to
/// authenticate, the command or the kind of address is not supported.
pub proof fn refusals_are_answered(b: Seq<u8>)
    ensures
        crate::forward::socks(b).1 matches SocksView::Refused(problem) ==> {
            let q = 2 + b[1] as int;
            let reply = crate::forward::socks(b).0;
            match problem {
                SocksProblem::Version => b[0] != 5 && reply.len() == 0,
                SocksProblem::TooManyMethods => b[1] > 32 && reply.len() == 0,
                SocksProblem::NoAuthMethod => (forall|k: int| 2 <= k < q ==> b[k] != 0) && reply
                    == seq![5u8, 255u8],
                SocksProblem::RequestVersion => b[q] != 5 && reply == seq![5u8, 0u8],
                SocksProblem::ReservedByte => b[q + 2] != 0 && reply == seq![5u8, 0u8],
                SocksProblem::Command => b[q + 1] != 1 && reply == seq![
                    5u8, 0, 5, 7, 0, 1, 0, 0, 0, 0, 0, 0,
                ],
                SocksProblem::AddressType => b[q + 3] != 1 && b[q + 3] != 3 && b[q + 3] != 4
                    && reply == seq![5u8, 0, 5, 8, 0, 1, 0, 0, 0, 0, 0, 0],
                SocksProblem::EmptyDomain => b[q + 3] == 3 && b[q + 4] == 0 && reply == seq![
                    5u8, 0u8,
                ],
                SocksProblem::DomainNotText => b[q + 3] == 3 && !vstd::utf8::valid_utf8(
                    b.subrange(q + 5, q + 5 + b[q + 4]),
                ) && reply == seq![5u8, 0u8],
            }
        },
{
    if b.len() >= 2 {
        let q = 2 + b[1] as int;
        assert(seq![5u8, 0u8] + Seq::<u8>::empty() =~= seq![5u8, 0u8]);
        assert(seq![5u8, 0u8] + crate::forward::request_reply(7) =~= seq![
            5u8, 0, 5, 7, 0, 1, 0, 0, 0, 0, 0, 0,
        ]);
        assert(seq![5u8, 0u8] + crate::forward::request_reply(8) =~= seq![
            5u8, 0, 5, 8, 0, 1, 0, 0, 0, 0, 0, 0,
        ]);
        if b.len() >= q {
            let methods = b.subrange(2, q);
            if !methods.contains(0u8) {
                assert forall|k: int| 2 <= k < q implies b[k] != 0 by {
                    assert(methods[k - 2] == b[k]);
                }
            }
        }
    }
}

/// The last reply has ten bytes: the version, the code, and an empty address of
/// the short kind.
pub proof fn replies_have_their_shape(code: u8, k: int)
    requires
        0 <= k < 10,
    ensures
        crate::forward::request_reply(code).len() == 10,
        crate::forward::request_reply(code)[k] == (if k == 0 {
            5u8
        } else if k == 1 {
            code
        } else if k == 3 {
            1
        } else {
            0
        }),
{
}

/// A request that is cut short says how many bytes it takes to read on: until they
/// are there nothing changes. What has been settled or refused stays so, whatever
/// follows.
pub proof fn short_requests_wait_for_what_is_missing(b: Seq<u8>, more: Seq<u8>)
    ensures
        match crate::forward::socks(b).1 {
            SocksView::NeedBytes(n) => {
                &&& n > b.len()
                &&& b.len() + more.len() < n ==> crate::forward::socks(b + more)
                    == crate::forward::socks(b)
            },
            _ => crate::forward::socks(b + more) == crate::forward::socks(b),
        },
{
    let all = b + more;
    assert forall|i: int| 0 <= i < b.len() implies #[trigger] all[i] == b[i] by {}
    if b.len() >= 2 && b.len() >= 2 + b[1] {
        let q = 2 + b[1] as int;
        assert(all.subrange(2, q) =~= b.subrange(2, q));
        if b.len() >= q + 5 && b.len() >= q + 5 + b[q + 4] {
            let m = q + 5 + b[q + 4] as int;
            assert(all.subrange(q + 5, m) =~= b.subrange(q + 5, m));
        }
    }
}

} // verus!
