//! The record of one echo request: where it went, its sequence number, when
//! it was sent, how long it took and how it ended.
use vstd::prelude::*;

use crate::config::first_column;
use crate::net::{
    ipv4_chars, lemma_ipv4_chars_digits_and_dots, lemma_ipv4_roundtrip, lemma_split_once_concat,
    push_ipv4, spec_parse_ipv4, Ipv4Addr,
};
use crate::text::{
    decimal_chars, is_digit, lemma_decimal_chars, lemma_decimal_roundtrip, push_decimal,
    spec_parse_unsigned,
};

verus! {

/// Where an echo request stands.
#[derive(Debug, Clone, Copy, PartialEq, Eq, Hash, Structural)]
pub enum EchoStatus {
    Pending,
    Sent,
    Received,
    Elapsed,
    Failed,
}

/// The name of a status, as it is printed.
pub open spec fn status_chars(s: EchoStatus) -> Seq<char> {
    match s {
        EchoStatus::Pending => "Pending"@,
        EchoStatus::Sent => "Sent"@,
        EchoStatus::Received => "Received"@,
        EchoStatus::Elapsed => "Elapsed"@,
        EchoStatus::Failed => "Failed"@,
    }
}

/// Different statuses have different names.
pub proof fn lemma_status_names_distinct(s: EchoStatus, t: EchoStatus)
    ensures
        status_chars(s) == status_chars(t) ==> s == t,
{
    reveal_strlit("Pending");
    reveal_strlit("Sent");
    reveal_strlit("Received");
    reveal_strlit("Elapsed");
    reveal_strlit("Failed");
    if s != t {
        let a = status_chars(s);
        let b = status_chars(t);
        assert(a.len() != b.len() || a[0] != b[0] || a[1] != b[1]);
    }
}

impl EchoStatus {
    /// The name of the status, such as `Pending`.
    pub fn name(&self) -> (res: &'static str)
        ensures
            res@ == status_chars(*self),
    {
        match self {
            EchoStatus::Pending => "Pending",
            EchoStatus::Sent => "Sent",
            EchoStatus::Received => "Received",
            EchoStatus::Elapsed => "Elapsed",
            EchoStatus::Failed => "Failed",
        }
    }

    /// The name of the status, as a string.
    pub fn to_string(&self) -> (res: String)
        ensures
            res@ == status_chars(*self),
    {
        String::from_str(self.name())
    }
}

/// A point in time, as nanoseconds from a fixed origin of the process.
#[derive(Debug, Clone, Copy, PartialEq, Eq, Hash, Structural)]
pub struct Instant {
    pub nanos: u128,
}

/// Whole microseconds from `earlier` to `now`, and zero when `earlier`
/// is the later of the two.
pub open spec fn spec_micros_between(earlier: Instant, now: Instant) -> u128 {
    if now.nanos >= earlier.nanos {
        ((now.nanos - earlier.nanos) / 1000) as u128
    } else {
        0
    }
}

impl Instant {
    /// The instant `nanos` nanoseconds after the origin.
    pub fn from_nanos(nanos: u128) -> (res: Instant)
        ensures
            res.nanos == nanos,
    {
        Instant { nanos }
    }

    /// Whole microseconds from `earlier` to `self`, saturating at zero.
    pub fn micros_since(&self, earlier: Instant) -> (res: u128)
        ensures
            res == spec_micros_between(earlier, *self),
    {
        if self.nanos >= earlier.nanos {
            (self.nanos - earlier.nanos) / 1000
        } else {
            0
        }
    }
}

/// One echo request and what became of it.
#[derive(Debug, Clone, Copy, PartialEq, Eq, Structural)]
pub struct EchoHandle {
    pub destination_ipv4: Ipv4Addr,
    pub seq: u16,
    pub identifier: u16,
    pub earlier: Instant,
    pub now: Instant,
    pub elapsed_micros: u128,
    pub status: EchoStatus,
}

/// The line printed for a request: address, sequence number, and then the
/// round-trip time for a received reply, `timeout` for a request that timed
/// out, or the time so far and the status otherwise.
pub open spec fn output_chars(h: EchoHandle) -> Seq<char> {
    ipv4_chars(h.destination_ipv4) + seq![','] + decimal_chars(h.seq as nat) + seq![','] + match h.status {
        EchoStatus::Received => decimal_chars(h.elapsed_micros as nat),
        EchoStatus::Elapsed => "timeout"@,
        _ => decimal_chars(h.elapsed_micros as nat) + " - "@ + status_chars(h.status),
    }
}

/// The line printed for a request whose sending or reply timed out:
/// address, sequence number and `time out`.
pub open spec fn timeout_chars(ip: Ipv4Addr, seq: u16) -> Seq<char> {
    ipv4_chars(ip) + seq![','] + decimal_chars(seq as nat) + ",time out"@
}

/// The line printed for the request `seq` to `destination_ipv4` when its
/// sending or its reply timed out, such as `1.1.1.1,3,time out`.
pub fn timeout_output_format(destination_ipv4: Ipv4Addr, seq: u16) -> (res: String)
    ensures
        res@ == timeout_chars(destination_ipv4, seq),
{
    proof {
        reveal_strlit(",");
    }
    let mut s = String::new();
    push_ipv4(&mut s, destination_ipv4);
    s.append(",");
    push_decimal(&mut s, seq as u128);
    s.append(",time out");
    assert(s@ =~= timeout_chars(destination_ipv4, seq));
    s
}

/// The text form `address,seq,elapsed - status` of a request.
pub open spec fn handle_chars(ip: Ipv4Addr, seq: u16, elapsed_micros: u128, status: EchoStatus) -> Seq<
    char,
> {
    ipv4_chars(ip) + seq![','] + decimal_chars(seq as nat) + seq![','] + decimal_chars(
        elapsed_micros as nat,
    ) + " - "@ + status_chars(status)
}

/// Appends `address,seq,elapsed - status` to `out`.
pub fn push_handle_text(
    out: &mut String,
    ip: Ipv4Addr,
    seq: u16,
    elapsed_micros: u128,
    status: EchoStatus,
)
    ensures
        final(out)@ == old(out)@ + handle_chars(ip, seq, elapsed_micros, status),
{
    proof {
        reveal_strlit(",");
    }
    push_ipv4(out, ip);
    out.append(",");
    push_decimal(out, seq as u128);
    out.append(",");
    push_decimal(out, elapsed_micros);
    out.append(" - ");
    out.append(status.name());
    assert(final(out)@ =~= old(out)@ + handle_chars(ip, seq, elapsed_micros, status));
}

impl EchoHandle {
    /// A request to `destination_ipv4` sent at `earlier`, looked at `now`;
    /// the elapsed time is the whole microseconds between the two.
    pub fn new(
        destination_ipv4: Ipv4Addr,
        seq: u16,
        identifier: u16,
        earlier: Instant,
        now: Instant,
        status: EchoStatus,
    ) -> (res: EchoHandle)
        ensures
            res == (EchoHandle {
                destination_ipv4,
                seq,
                identifier,
                earlier,
                now,
                elapsed_micros: spec_micros_between(earlier, now),
                status,
            }),
    {
        let elapsed_micros = now.micros_since(earlier);
        EchoHandle { destination_ipv4, seq, identifier, earlier, now, elapsed_micros, status }
    }

    /// The same request, answered at `now`.
    pub fn to_received(self, now: Instant) -> (res: EchoHandle)
        ensures
            res == (EchoHandle {
                now,
                elapsed_micros: spec_micros_between(self.earlier, now),
                status: EchoStatus::Received,
                ..self
            }),
    {
        EchoHandle::new(
            self.destination_ipv4,
            self.seq,
            self.identifier,
            self.earlier,
            now,
            EchoStatus::Received,
        )
    }

    /// The line printed for the request, such as `127.0.0.1,3,650`.
    pub fn to_output_format(&self) -> (res: String)
        ensures
            res@ == output_chars(*self),
    {
        proof {
            reveal_strlit(",");
            reveal_strlit("timeout");
        }
        let mut s = String::new();
        push_ipv4(&mut s, self.destination_ipv4);
        s.append(",");
        push_decimal(&mut s, self.seq as u128);
        s.append(",");
        match self.status {
            EchoStatus::Received => {
                push_decimal(&mut s, self.elapsed_micros);
            },
            EchoStatus::Elapsed => {
                s.append("timeout");
            },
            _ => {
                push_decimal(&mut s, self.elapsed_micros);
                s.append(" - ");
                s.append(self.status.name());
            },
        }
        assert(s@ =~= output_chars(*self));
        s
    }

    /// The text form `address,seq,elapsed - status`.
    pub fn to_display_string(&self) -> (res: String)
        ensures
            res@ == handle_chars(self.destination_ipv4, self.seq, self.elapsed_micros, self.status),
    {
        let mut s = String::new();
        push_handle_text(&mut s, self.destination_ipv4, self.seq, self.elapsed_micros, self.status);
        assert(s@ =~= handle_chars(self.destination_ipv4, self.seq, self.elapsed_micros, self.status));
        s
    }
}

/// The largest `u128`.
pub open spec fn u128_max() -> nat {
    0xffff_ffff_ffff_ffff_ffff_ffff_ffff_ffff
}

/// `line` reads as `address,seq,rest`: cut at its commas, its first column
/// is the dotted-decimal form of `ip`, its second the decimal numeral of
/// `seq`, and what follows the second comma is `rest`.
pub open spec fn reads_as_columns(line: Seq<char>, ip: Ipv4Addr, seq: u16, rest: Seq<char>) -> bool {
    let (a, r1) = first_column(line);
    &&& spec_parse_ipv4(a) == Some(ip)
    &&& r1 is Some
    &&& spec_parse_unsigned(first_column(r1->0).0, 0xffff) == Some(seq as nat)
    &&& first_column(r1->0).1 == Some(rest)
}

/// What follows the second comma of `line`.
pub open spec fn third_column(line: Seq<char>) -> Seq<char> {
    first_column(first_column(line).1->0).1->0
}

/// `r` is a decimal numeral of `value` followed by `tail`.
pub open spec fn numeral_then(r: Seq<char>, value: nat, tail: Seq<char>) -> bool {
    exists|c: Seq<char>|
        #![trigger spec_parse_unsigned(c, u128_max())]
        r == c + tail && spec_parse_unsigned(c, u128_max()) == Some(value)
}

/// A line `address,seq,rest` written from an address and a sequence number
/// reads back as that address and that sequence number, followed by `rest`.
pub proof fn lemma_columns_read_back(ip: Ipv4Addr, seq: u16, rest: Seq<char>)
    ensures
        reads_as_columns(
            ipv4_chars(ip) + seq![','] + decimal_chars(seq as nat) + seq![','] + rest,
            ip,
            seq,
            rest,
        ),
{
    let ips = ipv4_chars(ip);
    let ds = decimal_chars(seq as nat);
    lemma_ipv4_chars_digits_and_dots(ip);
    lemma_decimal_chars(seq as nat);
    assert forall|j: int| 0 <= j < ips.len() implies ips[j] != ',' by {
        assert(is_digit(ips[j]) || ips[j] == '.');
    }
    assert forall|j: int| 0 <= j < ds.len() implies ds[j] != ',' by {
        assert(is_digit(ds[j]));
    }
    let r1 = ds + seq![','] + rest;
    assert(ips + seq![','] + ds + seq![','] + rest =~= ips + seq![','] + r1);
    lemma_split_once_concat(ips, ',', r1);
    lemma_split_once_concat(ds, ',', rest);
    lemma_ipv4_roundtrip(ip);
    lemma_decimal_roundtrip(seq as nat, 0xffff);
}

/// The timeout line reads back as the request's address and sequence
/// number, followed by `time out`.
pub proof fn lemma_timeout_line_read_back(ip: Ipv4Addr, seq: u16)
    ensures
        reads_as_columns(timeout_chars(ip, seq), ip, seq, "time out"@),
{
    reveal_strlit(",time out");
    reveal_strlit("time out");
    assert(timeout_chars(ip, seq) =~= ipv4_chars(ip) + seq![','] + decimal_chars(seq as nat)
        + seq![','] + "time out"@);
    lemma_columns_read_back(ip, seq, "time out"@);
}

/// The text form of a request reads back as its address, its sequence
/// number, and then its elapsed microseconds followed by ` - ` and its
/// status.
pub proof fn lemma_handle_line_read_back(
    ip: Ipv4Addr,
    seq: u16,
    elapsed_micros: u128,
    status: EchoStatus,
)
    ensures
        ({
            let line = handle_chars(ip, seq, elapsed_micros, status);
            &&& reads_as_columns(line, ip, seq, third_column(line))
            &&& numeral_then(
                third_column(line),
                elapsed_micros as nat,
                " - "@ + status_chars(status),
            )
        }),
{
    let rest = decimal_chars(elapsed_micros as nat) + " - "@ + status_chars(status);
    let line = handle_chars(ip, seq, elapsed_micros, status);
    assert(line =~= ipv4_chars(ip) + seq![','] + decimal_chars(seq as nat) + seq![','] + rest);
    lemma_columns_read_back(ip, seq, rest);
    lemma_decimal_roundtrip(elapsed_micros as nat, u128_max());
    assert(rest =~= decimal_chars(elapsed_micros as nat) + (" - "@ + status_chars(status)));
}

/// The line printed for a request reads back as its address and sequence
/// number, and then: for a received reply, its elapsed microseconds; for a
/// request that timed out, `timeout`; otherwise its elapsed microseconds
/// followed by ` - ` and its status.
pub proof fn lemma_output_line_read_back(h: EchoHandle)
    ensures
        ({
            let line = output_chars(h);
            let rest = third_column(line);
            &&& reads_as_columns(line, h.destination_ipv4, h.seq, rest)
            &&& match h.status {
                EchoStatus::Received => spec_parse_unsigned(rest, u128_max()) == Some(
                    h.elapsed_micros as nat,
                ),
                EchoStatus::Elapsed => rest == "timeout"@,
                _ => numeral_then(rest, h.elapsed_micros as nat, " - "@ + status_chars(h.status)),
            }
        }),
{
    let tail = match h.status {
        EchoStatus::Received => decimal_chars(h.elapsed_micros as nat),
        EchoStatus::Elapsed => "timeout"@,
        _ => decimal_chars(h.elapsed_micros as nat) + " - "@ + status_chars(h.status),
    };
    let line = output_chars(h);
    assert(line =~= ipv4_chars(h.destination_ipv4) + seq![','] + decimal_chars(h.seq as nat)
        + seq![','] + tail);
    lemma_columns_read_back(h.destination_ipv4, h.seq, tail);
    lemma_decimal_roundtrip(h.elapsed_micros as nat, u128_max());
    if h.status != EchoStatus::Received && h.status != EchoStatus::Elapsed {
        assert(tail =~= decimal_chars(h.elapsed_micros as nat) + (" - "@ + status_chars(h.status)));
    }
}

/// The elapsed time is the whole microseconds between the two instants,
/// without wrapping: when `now` is not before `earlier`, it is the largest
/// number of microseconds that fits in the nanoseconds between them, and it
/// is zero otherwise.
pub proof fn lemma_micros_between(earlier: Instant, now: Instant)
    ensures
        now.nanos >= earlier.nanos ==> spec_micros_between(earlier, now) * 1000 <= now.nanos
            - earlier.nanos < (spec_micros_between(earlier, now) + 1) * 1000,
        now.nanos < earlier.nanos ==> spec_micros_between(earlier, now) == 0,
{
    if now.nanos >= earlier.nanos {
        let d = (now.nanos - earlier.nanos) as int;
        assert(d / 1000 * 1000 <= d < (d / 1000 + 1) * 1000) by (nonlinear_arith)
            requires
                d >= 0,
        ;
    }
}

} // verus!
