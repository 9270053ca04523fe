//! ICMP echo packets: the request that is sent and the reading of what a raw
//! IPv4 socket receives.
use vstd::prelude::*;

use crate::net::Ipv4Addr;
use vstd::arithmetic::div_mod::{lemma_fundamental_div_mod, lemma_mod_multiples_vanish};

verus! {

/// Why a network operation failed.
#[derive(Debug)]
pub enum NetError {
    UnexpetedError(String),
    Socket2Error(String),
    SocketCreationError(String),
    SocketBindError(String),
    IcpmSendError(String),
    IcmpReplyError(String),
    PingError(String),
    WrongSequenceNumber(u16),
}

/// Namespace of the echo packet operations.
pub struct PingNet;

/// What a received echo tells: the address it came from and its sequence number.
pub type RecvRespond = (Ipv4Addr, u16);

/// Bytes read per received packet: a minimal IPv4 header and a minimal echo reply.
pub const ECHO_IPV4_PACKET_BUFFER_SIZE: usize = 28;

/// IPv4 protocol number of ICMP.
pub const IP_PROTOCOL_ICMP: u8 = 1;

/// ICMP type of an echo reply.
pub const ICMP_ECHO_REPLY: u8 = 0;

/// ICMP type of an echo request.
pub const ICMP_ECHO_REQUEST: u8 = 8;

/// The two bytes of `v`, most significant first.
pub open spec fn be_bytes(v: u16) -> Seq<u8> {
    seq![(v / 256) as u8, (v % 256) as u8]
}

/// The number whose big-endian bytes are `hi` and `lo`.
pub open spec fn be_u16(hi: u8, lo: u8) -> u16 {
    (hi as int * 256 + lo as int) as u16
}

/// An echo request with the given fields: type 8, code 0, then checksum,
/// identifier and sequence number, each big-endian.
pub open spec fn echo_request_bytes(seq: u16, identifier: u16, checksum: u16) -> Seq<u8> {
    seq![ICMP_ECHO_REQUEST, 0u8] + be_bytes(checksum) + be_bytes(identifier) + be_bytes(seq)
}

/// The sum of the big-endian 16-bit words of `data` from word `i` on,
/// leaving out word `skip`; a last odd byte counts as the high byte of a word.
pub open spec fn be_word_sum(data: Seq<u8>, i: nat, skip: int) -> nat
    decreases data.len() - 2 * i,
{
    if 2 * i + 2 <= data.len() {
        (if i == skip {
            0
        } else {
            data[2 * i as int] as nat * 256 + data[2 * i as int + 1] as nat
        }) + be_word_sum(data, i + 1, skip)
    } else if 2 * i + 1 == data.len() {
        if i == skip {
            0
        } else {
            data[2 * i as int] as nat * 256
        }
    } else {
        0
    }
}

/// `sum` with its carries above 16 bits added back in until it fits 16 bits.
pub open spec fn fold_carries(sum: nat) -> nat
    decreases sum,
{
    if sum >= 65536 {
        proof {
            assert(sum / 65536 + sum % 65536 < sum) by (nonlinear_arith)
                requires
                    sum >= 65536,
            ;
        }
        fold_carries(sum / 65536 + sum % 65536)
    } else {
        sum
    }
}

/// The internet checksum of `data` with word `skip` (the checksum field) left
/// out: the one's-complement of the folded sum of its big-endian words.
pub open spec fn internet_checksum(data: Seq<u8>, skip: int) -> u16 {
    if data.len() == 0 {
        0
    } else {
        (0xffff - fold_carries(be_word_sum(data, 0, skip))) as u16
    }
}

/// Calls `pnet::packet::icmp::checksum` on the ICMP packet held in `packet`.
/// pnet sums the packet's big-endian 16-bit words as 32-bit numbers, leaving
/// out word 1 (the checksum field) and taking a last odd byte as a high byte,
/// folds the carries back in and complements the result: the internet
/// checksum, as `internet_checksum` states. The length bounds keep pnet from
/// panicking: it needs a 4-byte ICMP header, and its 32-bit sum stays clear
/// of overflow below 64 KiB.
#[verifier::external_body]
fn icmp_checksum(packet: &[u8]) -> (res: u16)
    requires
        4 <= packet@.len() <= 0xffff,
    ensures
        res == internet_checksum(packet@, 1),
{
    pnet::packet::icmp::checksum(&pnet::packet::icmp::IcmpPacket::new(packet).unwrap())
}

/// Folding the carries gives a 16-bit number, keeps the sum's residue modulo
/// 65535, and keeps a non-zero sum non-zero.
pub proof fn lemma_fold_carries(x: nat)
    ensures
        fold_carries(x) < 65536,
        fold_carries(x) % 65535 == x % 65535,
        x > 0 ==> fold_carries(x) > 0,
    decreases x,
{
    if x >= 65536 {
        let q = x / 65536;
        let r = x % 65536;
        assert(x == 65536 * q + r) by {
            lemma_fundamental_div_mod(x as int, 65536);
        }
        assert(q + r < x) by (nonlinear_arith)
            requires
                x >= 65536,
                q == x / 65536,
                r == x % 65536,
        ;
        assert(q >= 1) by (nonlinear_arith)
            requires
                x >= 65536,
                q == x / 65536,
        ;
        lemma_fold_carries((q + r) as nat);
        assert(x == 65535 * q + (q + r));
        assert((65535 * (q as int) + (q + r) as int) % 65535 == ((q + r) as int) % 65535) by {
            lemma_mod_multiples_vanish(q as int, (q + r) as int, 65535);
        }
    }
}

/// The sum of the four words of an 8-byte packet, leaving out word `skip`.
pub proof fn lemma_word_sum_of_eight(p: Seq<u8>, skip: int)
    requires
        p.len() == 8,
    ensures
        be_word_sum(p, 0, skip) == (if skip == 0 {
            0
        } else {
            p[0] as nat * 256 + p[1] as nat
        }) + (if skip == 1 {
            0
        } else {
            p[2] as nat * 256 + p[3] as nat
        }) + (if skip == 2 {
            0
        } else {
            p[4] as nat * 256 + p[5] as nat
        }) + (if skip == 3 {
            0
        } else {
            p[6] as nat * 256 + p[7] as nat
        }),
{
    reveal_with_fuel(be_word_sum, 5);
}

/// The big-endian bytes of `v` make up `v` again.
pub proof fn lemma_be_bytes(v: u16)
    ensures
        be_bytes(v)[0] as nat * 256 + be_bytes(v)[1] as nat == v,
{
}

/// The echo request that `create_icmp_request_packet` builds carries a valid
/// checksum: the one's-complement sum of all its big-endian words, the
/// checksum included, is `0xffff`.
pub proof fn lemma_request_checksum_valid(seq: u16, identifier: u16)
    ensures
        fold_carries(
            be_word_sum(
                echo_request_bytes(
                    seq,
                    identifier,
                    internet_checksum(echo_request_bytes(seq, identifier, 0), 1),
                ),
                0,
                -1,
            ),
        ) == 0xffff,
{
    let zero = echo_request_bytes(seq, identifier, 0);
    lemma_word_sum_of_eight(zero, 1);
    lemma_be_bytes(identifier);
    lemma_be_bytes(seq);
    let t = be_word_sum(zero, 0, 1);
    assert(t == 0x0800 + identifier + seq);
    lemma_fold_carries(t);
    let f = fold_carries(t);
    let cs = internet_checksum(zero, 1);
    assert(cs == 0xffff - f);
    let full = echo_request_bytes(seq, identifier, cs);
    lemma_word_sum_of_eight(full, -1);
    lemma_be_bytes(cs);
    let total = be_word_sum(full, 0, -1);
    assert(total == t + 0xffff - f);
    // `t` and `f` leave the same residue, so `total` is a multiple of 65535.
    let qt = t as int / 65535;
    let qf = f as int / 65535;
    assert(t == 65535 * qt + t % 65535) by {
        lemma_fundamental_div_mod(t as int, 65535);
    }
    assert(f == 65535 * qf + f % 65535) by {
        lemma_fundamental_div_mod(f as int, 65535);
    }
    assert(total == 65535 * (qt - qf + 1));
    assert((total as int) % 65535 == 0) by {
        lemma_mod_multiples_vanish(qt - qf + 1, 0, 65535);
    }
    lemma_fold_carries(total);
}

/// Start and end of the IPv4 payload within the packet `p`, as pnet reads
/// them: the payload starts after the header (at least 20 bytes) and runs
/// for the total length less the header length, cut at the end of `p`.
pub open spec fn ipv4_payload_bounds(p: Seq<u8>) -> (int, int) {
    let header_len = (p[0] % 16) as int * 4;
    let start = if header_len > 20 {
        header_len
    } else {
        20
    };
    let total = be_u16(p[2], p[3]) as int;
    let payload_len = if total > header_len {
        total - header_len
    } else {
        0
    };
    let end = if start + payload_len < p.len() {
        start + payload_len
    } else {
        p.len() as int
    };
    (start, end)
}

/// The source address in the IPv4 header `p`.
pub open spec fn ipv4_source(p: Seq<u8>) -> Ipv4Addr {
    Ipv4Addr { a: p[12], b: p[13], c: p[14], d: p[15] }
}

/// The destination address in the IPv4 header `p`.
pub open spec fn ipv4_destination(p: Seq<u8>) -> Ipv4Addr {
    Ipv4Addr { a: p[16], b: p[17], c: p[18], d: p[19] }
}

/// What a received packet tells, read from its first 28 bytes: nothing
/// unless it carries ICMP with at least 8 bytes of payload whose type is an
/// echo reply, or an echo request sent from 127.0.0.1 to 127.0.0.1 (as a
/// loopback ping is seen); otherwise the source address and the sequence
/// number of the echo.
pub open spec fn spec_parse_ping_respond(received: Seq<u8>) -> Option<RecvRespond> {
    if received.len() < 28 {
        None
    } else {
        let p = received.take(28);
        let (start, end) = ipv4_payload_bounds(p);
        if p[9] != IP_PROTOCOL_ICMP || p.len() <= start || end - start < 8 {
            None
        } else {
            let echo_type = p[start];
            let source = ipv4_source(p);
            let destination = ipv4_destination(p);
            if echo_type == ICMP_ECHO_REPLY || (echo_type == ICMP_ECHO_REQUEST && source
                == Ipv4Addr::spec_localhost() && destination == Ipv4Addr::spec_localhost()) {
                Some((source, be_u16(p[start + 6], p[start + 7])))
            } else {
                None
            }
        }
    }
}

impl PingNet {
    /// The echo request with sequence number `seq`, identifier `identifier`
    /// and checksum `checksum`.
    pub fn echo_request_packet(seq: u16, identifier: u16, checksum: u16) -> (res: Vec<u8>)
        ensures
            res@ == echo_request_bytes(seq, identifier, checksum),
    {
        let res = vec![
            ICMP_ECHO_REQUEST,
            0u8,
            (checksum / 256) as u8,
            (checksum % 256) as u8,
            (identifier / 256) as u8,
            (identifier % 256) as u8,
            (seq / 256) as u8,
            (seq % 256) as u8,
        ];
        assert(res@ =~= echo_request_bytes(seq, identifier, checksum));
        res
    }

    /// The echo request to send for `seq`: its checksum is the internet
    /// checksum (computed by pnet) of the request with a zero checksum field,
    /// which makes the request's checksum valid (`lemma_request_checksum_valid`).
    pub fn create_icmp_request_packet(seq: u16, identifier: u16) -> (res: Vec<u8>)
        ensures
            res@ == echo_request_bytes(
                seq,
                identifier,
                internet_checksum(echo_request_bytes(seq, identifier, 0), 1),
            ),
    {
        let unchecked = PingNet::echo_request_packet(seq, identifier, 0);
        let checksum = icmp_checksum(unchecked.as_slice());
        PingNet::echo_request_packet(seq, identifier, checksum)
    }

    /// Reads what a raw IPv4 socket received, as `spec_parse_ping_respond`
    /// describes.
    pub fn parse_ping_respond(received: &[u8]) -> (res: Option<RecvRespond>)
        ensures
            res == spec_parse_ping_respond(received@),
    {
        if received.len() < ECHO_IPV4_PACKET_BUFFER_SIZE {
            return None;
        }
        let ghost p = received@.take(28);
        assert(forall|i: int| 0 <= i < 28 ==> p[i] == received@[i]);
        let header_len: usize = (received[0] % 16) as usize * 4;
        let start: usize = if header_len > 20 {
            header_len
        } else {
            20
        };
        let total: usize = received[2] as usize * 256 + received[3] as usize;
        let payload_len: usize = if total > header_len {
            total - header_len
        } else {
            0
        };
        let end: usize = if start + payload_len < 28 {
            start + payload_len
        } else {
            28
        };
        assert(ipv4_payload_bounds(p) == (start as int, end as int));
        if received[9] != IP_PROTOCOL_ICMP || 28 <= start || end - start < 8 {
            return None;
        }
        let echo_type = received[start];
        let source = Ipv4Addr::new(received[12], received[13], received[14], received[15]);
        let destination = Ipv4Addr::new(received[16], received[17], received[18], received[19]);
        let localhost = Ipv4Addr::new(127, 0, 0, 1);
        assert(source == ipv4_source(p));
        assert(destination == ipv4_destination(p));
        if echo_type == ICMP_ECHO_REPLY || (echo_type == ICMP_ECHO_REQUEST && source == localhost
            && destination == localhost) {
            let seq = received[start + 6] as u16 * 256 + received[start + 7] as u16;
            Some((source, seq))
        } else {
            None
        }
    }
}

/// An echo request from `create_icmp_request_packet`, whatever its checksum,
/// carried from 127.0.0.1 to 127.0.0.1 in a 20-byte IPv4 header that names
/// ICMP and a total length of 28, is read back as the loopback address and
/// the request's sequence number.
pub proof fn lemma_loopback_request_read_back(
    header: Seq<u8>,
    seq: u16,
    identifier: u16,
    checksum: u16,
)
    requires
        header.len() == 20,
        header[0] % 16 == 5,
        be_u16(header[2], header[3]) == 28,
        header[9] == IP_PROTOCOL_ICMP,
        ipv4_source(header) == Ipv4Addr::spec_localhost(),
        ipv4_destination(header) == Ipv4Addr::spec_localhost(),
    ensures
        spec_parse_ping_respond(header + echo_request_bytes(seq, identifier, checksum)) == Some(
            (Ipv4Addr::spec_localhost(), seq),
        ),
{
    let r = header + echo_request_bytes(seq, identifier, checksum);
    let p = r.take(28);
    assert(p =~= r);
    assert(ipv4_source(p) == ipv4_source(header));
    assert(ipv4_destination(p) == ipv4_destination(header));
    assert(p[20] == ICMP_ECHO_REQUEST);
    assert(be_u16(p[26], p[27]) == seq);
}

/// An echo reply carried in a 20-byte IPv4 header that names ICMP and a
/// total length of at least 28 is read back as its source address and its
/// sequence number, wherever it came from.
pub proof fn lemma_echo_reply_read_back(header: Seq<u8>, echo: Seq<u8>)
    requires
        header.len() == 20,
        echo.len() >= 8,
        header[0] % 16 == 5,
        be_u16(header[2], header[3]) >= 28,
        header[9] == IP_PROTOCOL_ICMP,
        echo[0] == ICMP_ECHO_REPLY,
    ensures
        spec_parse_ping_respond(header + echo) == Some(
            (ipv4_source(header), be_u16(echo[6], echo[7])),
        ),
{
    let r = header + echo;
    let p = r.take(28);
    assert(ipv4_source(p) == ipv4_source(header));
    assert(p[20] == echo[0]);
    assert(p[26] == echo[6]);
    assert(p[27] == echo[7]);
}

} // verus!
