//! The table of outstanding echo requests and the decisions taken on it as
//! requests are sent, time out, fail or are answered.
use vstd::prelude::*;

use std::collections::HashMap;
use vstd::std_specs::iter::IteratorSpec;

use crate::connection_handle::{ConnectionHandle, EchoStatus};
use crate::echo_handle::{
    handle_chars, lemma_handle_line_read_back, lemma_timeout_line_read_back, numeral_then,
    reads_as_columns, spec_micros_between, status_chars, third_column, timeout_chars,
    timeout_output_format, Instant,
};
use crate::net::{lemma_ipv4_roundtrip, spec_parse_ipv4};
use crate::net::{ipv4_chars, Ipv4Addr};
use crate::ping_net::{NetError, RecvRespond};

verus! {

broadcast use vstd::std_specs::hash::group_hash_axioms;

/// Why a run, or one of its requests, failed.
#[derive(Debug)]
pub enum RunError {
    EchoReplyFailure,
    UnknownSequenceNumber(u16),
    ElapsedReply,
    UnexpectedReplyEchoStatus(EchoStatus),
    UnexpectedIP(String),
    PingNetError(NetError),
    /// The sequence number that could not be handed to the sending task.
    MpscSendError(u16),
    MpscRecvError(String),
    SendRecvError(String),
}

/// A `RunError` with its messages taken as character sequences.
pub enum RunErrorView {
    EchoReplyFailure,
    UnknownSequenceNumber(u16),
    ElapsedReply,
    UnexpectedReplyEchoStatus(EchoStatus),
    UnexpectedIP(Seq<char>),
    PingNetError(NetError),
    MpscSendError(u16),
    MpscRecvError(Seq<char>),
    SendRecvError(Seq<char>),
}

impl View for RunError {
    type V = RunErrorView;

    open spec fn view(&self) -> RunErrorView {
        match self {
            RunError::EchoReplyFailure => RunErrorView::EchoReplyFailure,
            RunError::UnknownSequenceNumber(s) => RunErrorView::UnknownSequenceNumber(*s),
            RunError::ElapsedReply => RunErrorView::ElapsedReply,
            RunError::UnexpectedReplyEchoStatus(s) => RunErrorView::UnexpectedReplyEchoStatus(*s),
            RunError::UnexpectedIP(m) => RunErrorView::UnexpectedIP(m@),
            RunError::PingNetError(e) => RunErrorView::PingNetError(*e),
            RunError::MpscSendError(s) => RunErrorView::MpscSendError(*s),
            RunError::MpscRecvError(m) => RunErrorView::MpscRecvError(m@),
            RunError::SendRecvError(m) => RunErrorView::SendRecvError(m@),
        }
    }
}

/// Every entry of `m` is kept under its own sequence number.
pub open spec fn keyed_by_seq(m: Map<u16, ConnectionHandle>) -> bool {
    forall|k: u16| #[trigger] m.contains_key(k) ==> m[k].seq == k
}

/// `m` after the request `handle` is registered: added unless its sequence
/// number is already there.
pub open spec fn after_register(m: Map<u16, ConnectionHandle>, handle: ConnectionHandle) -> Map<
    u16,
    ConnectionHandle,
> {
    if m.contains_key(handle.seq) {
        m
    } else {
        m.insert(handle.seq, handle)
    }
}

/// `m` after the request `seq`, if it is there, went out after
/// `elapsed_micros`.
pub open spec fn after_sent(m: Map<u16, ConnectionHandle>, seq: u16, elapsed_micros: u128) -> Map<
    u16,
    ConnectionHandle,
> {
    if m.contains_key(seq) {
        m.insert(seq, ConnectionHandle { status: EchoStatus::Sent, elapsed_micros, ..m[seq] })
    } else {
        m
    }
}

/// `m` with the entry of `seq`, if there is one, given status `status`.
pub open spec fn with_status(m: Map<u16, ConnectionHandle>, seq: u16, status: EchoStatus) -> Map<
    u16,
    ConnectionHandle,
> {
    if m.contains_key(seq) {
        m.insert(seq, ConnectionHandle { status, ..m[seq] })
    } else {
        m
    }
}

/// The entry `c`, answered at `now`.
pub open spec fn received_at(c: ConnectionHandle, now: Instant) -> ConnectionHandle {
    ConnectionHandle {
        now,
        elapsed_micros: spec_micros_between(c.earlier, now),
        status: EchoStatus::Received,
        ..c
    }
}

/// What a reply does to the table `m` of requests sent to `destination`,
/// and what it is answered: a missing reply fails; a reply from another
/// address is refused with that address; an unknown sequence number, a
/// request that already timed out, and a request that is not waiting for a
/// reply (not `Sent`) are refused; a reply for a waiting request marks it
/// received at `now` and gives its entry. Only an accepted reply changes
/// the table.
pub open spec fn reply_outcome(
    m: Map<u16, ConnectionHandle>,
    destination: Ipv4Addr,
    reply: Option<RecvRespond>,
    now: Instant,
) -> (Map<u16, ConnectionHandle>, Result<ConnectionHandle, RunErrorView>) {
    match reply {
        None => (m, Err(RunErrorView::EchoReplyFailure)),
        Some((ip, seq)) => if ip != destination {
            (m, Err(RunErrorView::UnexpectedIP(ipv4_chars(ip))))
        } else if !m.contains_key(seq) {
            (m, Err(RunErrorView::UnknownSequenceNumber(seq)))
        } else {
            let c = m[seq];
            match c.status {
                EchoStatus::Elapsed => (m, Err(RunErrorView::ElapsedReply)),
                EchoStatus::Sent => {
                    let r = received_at(c, now);
                    (m.insert(seq, r), Ok(r))
                },
                s => (m, Err(RunErrorView::UnexpectedReplyEchoStatus(s))),
            }
        },
    }
}

/// `res` is the outcome `spec` describes, with the error taken by its view.
pub open spec fn reply_result_is(
    res: Result<ConnectionHandle, RunError>,
    spec: Result<ConnectionHandle, RunErrorView>,
) -> bool {
    match res {
        Ok(c) => spec == Ok::<ConnectionHandle, RunErrorView>(c),
        Err(e) => spec == Err::<ConnectionHandle, RunErrorView>(e@),
    }
}

/// How the wait for the reply to a request ended.
#[derive(Debug, Clone, Copy)]
pub enum ReplyWait {
    /// The wait timed out.
    TimedOut,
    /// The task that awaited the reply failed.
    TaskFailed,
    /// The reply was accepted; this is the entry it answered.
    Replied(ConnectionHandle),
    /// The reply was refused or did not come.
    ReplyFailed,
}

/// What the end of the wait for the reply to `seq` (a request sent to
/// `destination`) does: the new table, the status the wait ends with, and
/// the line to print. A timeout marks the entry `Elapsed` (ending `Failed`
/// when there is none) and prints the timeout line; a failed task or a failed
/// reply marks the entry `Failed`; an accepted reply leaves the table and
/// prints the answered entry.
pub open spec fn settle_outcome(
    m: Map<u16, ConnectionHandle>,
    destination: Ipv4Addr,
    seq: u16,
    wait: ReplyWait,
) -> (Map<u16, ConnectionHandle>, EchoStatus, Option<Seq<char>>) {
    match wait {
        ReplyWait::TimedOut => (
            with_status(m, seq, EchoStatus::Elapsed),
            if m.contains_key(seq) {
                EchoStatus::Elapsed
            } else {
                EchoStatus::Failed
            },
            Some(timeout_chars(destination, seq)),
        ),
        ReplyWait::TaskFailed => (with_status(m, seq, EchoStatus::Failed), EchoStatus::Failed, None),
        ReplyWait::Replied(h) => (
            m,
            EchoStatus::Received,
            Some(handle_chars(h.destination_ipv4, h.seq, h.elapsed_micros, h.status)),
        ),
        ReplyWait::ReplyFailed => (with_status(m, seq, EchoStatus::Failed), EchoStatus::Failed, None),
    }
}

/// The table of echo requests of a run, by sequence number.
pub struct ConnectionHandleMap {
    map: HashMap<u16, ConnectionHandle>,
}

impl View for ConnectionHandleMap {
    type V = Map<u16, ConnectionHandle>;

    closed spec fn view(&self) -> Map<u16, ConnectionHandle> {
        self.map@
    }
}

impl ConnectionHandleMap {
    /// The table keeps each entry under its own sequence number.
    pub open spec fn wf(&self) -> bool {
        keyed_by_seq(self@)
    }

    /// An empty table.
    pub fn new() -> (res: ConnectionHandleMap)
        ensures
            res@ == Map::<u16, ConnectionHandle>::empty(),
            res.wf(),
    {
        ConnectionHandleMap { map: HashMap::new() }
    }

    /// The entry of `seq`.
    pub fn get(&self, seq: u16) -> (res: Option<ConnectionHandle>)
        ensures
            match res {
                Some(c) => self@.contains_key(seq) && self@[seq] == c,
                None => !self@.contains_key(seq),
            },
    {
        match self.map.get(&seq) {
            Some(c) => Some(*c),
            None => None,
        }
    }

    /// All entries, each exactly once, in no particular order.
    pub fn handles(&self) -> (res: Vec<ConnectionHandle>)
        requires
            self.wf(),
        ensures
            res@.to_set() == self@.values(),
            res@.len() == self@.dom().len(),
            res@.no_duplicates(),
    {
        let mut res: Vec<ConnectionHandle> = Vec::new();
        let ghost all = vstd::std_specs::hash::spec_values_iter(&self.map).remaining();
        for c in it: self.map.values()
            invariant
                it.seq() == all,
                all.unref().to_set() == self@.values(),
                all.len() == self@.dom().len(),
                res@ == it.seq().take(it.index() as int).map_values(|r: &ConnectionHandle| *r),
        {
            res.push(*c);
            assert(it.seq().take(it.index() + 1).map_values(|r: &ConnectionHandle| *r)
                =~= it.seq().take(it.index() as int).map_values(|r: &ConnectionHandle| *r).push(*c));
        }
        assert(res@ =~= all.unref());
        proof {
            // Entries are told apart by their sequence numbers, so the table
            // has as many distinct entries as keys.
            let m = self@;
            assert(m.is_injective()) by {
                assert forall|x: u16, y: u16|
                    x != y && m.dom().contains(x) && m.dom().contains(y) implies #[trigger] m[x]
                    != #[trigger] m[y] by {
                    assert(m.contains_key(x) && m.contains_key(y));
                }
            }
            m.lemma_injective_values_len();
            res@.lemma_no_dup_set_cardinality();
        }
        res
    }

    /// Records a request about to be sent, unless its sequence number is
    /// already in the table; gives the status of the entry now held.
    pub fn register_pending(&mut self, handle: ConnectionHandle) -> (res: EchoStatus)
        requires
            old(self).wf(),
        ensures
            final(self).wf(),
            old(self)@.contains_key(handle.seq) ==> final(self)@ == old(self)@,
            !old(self)@.contains_key(handle.seq) ==> final(self)@ == old(self)@.insert(
                handle.seq,
                handle,
            ),
            final(self)@ == after_register(old(self)@, handle),
            res == final(self)@[handle.seq].status,
    {
        match self.map.get(&handle.seq) {
            Some(c) => c.status,
            None => {
                self.map.insert(handle.seq, handle);
                handle.status
            },
        }
    }

    /// Gives the entry of `seq`, if there is one, status `status`; tells
    /// whether there was one.
    fn set_status(&mut self, seq: u16, status: EchoStatus) -> (res: Option<EchoStatus>)
        requires
            old(self).wf(),
        ensures
            final(self).wf(),
            final(self)@ == with_status(old(self)@, seq, status),
            match res {
                Some(s) => old(self)@.contains_key(seq) && s == old(self)@[seq].status,
                None => !old(self)@.contains_key(seq),
            },
    {
        match self.map.get(&seq) {
            Some(c) => {
                let old_status = c.status;
                let updated = ConnectionHandle { status, ..*c };
                self.map.insert(seq, updated);
                Some(old_status)
            },
            None => None,
        }
    }

    /// A request, or the wait for its reply, timed out: its entry becomes
    /// `Elapsed`, and that status is given; with no entry nothing changes and
    /// `Failed` is given.
    pub fn mark_elapsed(&mut self, seq: u16) -> (res: EchoStatus)
        requires
            old(self).wf(),
        ensures
            final(self).wf(),
            final(self)@ == with_status(old(self)@, seq, EchoStatus::Elapsed),
            res == (if old(self)@.contains_key(seq) {
                EchoStatus::Elapsed
            } else {
                EchoStatus::Failed
            }),
    {
        match self.set_status(seq, EchoStatus::Elapsed) {
            Some(_) => EchoStatus::Elapsed,
            None => EchoStatus::Failed,
        }
    }

    /// A request failed: its entry becomes `Failed`; gives the status it had.
    pub fn mark_failed(&mut self, seq: u16) -> (res: Option<EchoStatus>)
        requires
            old(self).wf(),
        ensures
            final(self).wf(),
            final(self)@ == with_status(old(self)@, seq, EchoStatus::Failed),
            match res {
                Some(s) => old(self)@.contains_key(seq) && s == old(self)@[seq].status,
                None => !old(self)@.contains_key(seq),
            },
    {
        self.set_status(seq, EchoStatus::Failed)
    }

    /// A request went out after `elapsed_micros`: its entry becomes `Sent`
    /// with that time, and `Sent` is given; with no entry nothing changes
    /// and `Failed` is given.
    pub fn mark_sent(&mut self, seq: u16, elapsed_micros: u128) -> (res: EchoStatus)
        requires
            old(self).wf(),
        ensures
            final(self).wf(),
            old(self)@.contains_key(seq) ==> final(self)@ == old(self)@.insert(
                seq,
                ConnectionHandle { status: EchoStatus::Sent, elapsed_micros, ..old(self)@[seq] },
            ) && res == EchoStatus::Sent,
            !old(self)@.contains_key(seq) ==> final(self)@ == old(self)@ && res
                == EchoStatus::Failed,
            final(self)@ == after_sent(old(self)@, seq, elapsed_micros),
    {
        match self.map.get(&seq) {
            Some(c) => {
                let updated = ConnectionHandle { status: EchoStatus::Sent, elapsed_micros, ..*c };
                self.map.insert(seq, updated);
                EchoStatus::Sent
            },
            None => EchoStatus::Failed,
        }
    }

    /// Ends the wait for the reply to `seq`, a request sent to `destination`,
    /// as `settle_outcome` describes; gives the status the wait ends with and
    /// the line to print. A failed reply must name a request in the table.
    pub fn settle_reply_wait(&mut self, destination: Ipv4Addr, seq: u16, wait: ReplyWait) -> (res: (
        EchoStatus,
        Option<String>,
    ))
        requires
            old(self).wf(),
            wait is ReplyFailed ==> old(self)@.contains_key(seq),
        ensures
            final(self).wf(),
            final(self)@ == settle_outcome(old(self)@, destination, seq, wait).0,
            res.0 == settle_outcome(old(self)@, destination, seq, wait).1,
            match res.1 {
                Some(line) => settle_outcome(old(self)@, destination, seq, wait).2 == Some(line@),
                None => settle_outcome(old(self)@, destination, seq, wait).2 is None,
            },
    {
        match wait {
            ReplyWait::TimedOut => {
                let status = self.mark_elapsed(seq);
                (status, Some(timeout_output_format(destination, seq)))
            },
            ReplyWait::TaskFailed => {
                self.mark_failed(seq);
                (EchoStatus::Failed, None)
            },
            ReplyWait::Replied(h) => (EchoStatus::Received, Some(h.to_display_string())),
            ReplyWait::ReplyFailed => {
                self.mark_failed(seq);
                (EchoStatus::Failed, None)
            },
        }
    }

    /// Takes a reply (or its absence) for the requests sent to
    /// `destination`, as `reply_outcome` describes.
    pub fn accept_reply(
        &mut self,
        destination: Ipv4Addr,
        reply: Option<RecvRespond>,
        now: Instant,
    ) -> (res: Result<ConnectionHandle, RunError>)
        requires
            old(self).wf(),
        ensures
            final(self).wf(),
            final(self)@ == reply_outcome(old(self)@, destination, reply, now).0,
            reply_result_is(res, reply_outcome(old(self)@, destination, reply, now).1),
    {
        let (ip, seq) = match reply {
            Some(r) => r,
            None => return Err(RunError::EchoReplyFailure),
        };
        if ip != destination {
            return Err(RunError::UnexpectedIP(ip.to_string()));
        }
        let c = match self.map.get(&seq) {
            Some(c) => *c,
            None => return Err(RunError::UnknownSequenceNumber(seq)),
        };
        match c.status {
            EchoStatus::Elapsed => Err(RunError::ElapsedReply),
            EchoStatus::Sent => {
                let r = c.to_received(now);
                self.map.insert(seq, r);
                Ok(r)
            },
            s => Err(RunError::UnexpectedReplyEchoStatus(s)),
        }
    }
}

/// One thing that happens to the table of a run: a request is registered,
/// goes out, times out, fails, or a reply (or its absence) for the requests
/// sent to an address comes in.
pub enum TableEvent {
    Register(ConnectionHandle),
    Sent(u16, u128),
    TimedOut(u16),
    Failed(u16),
    Reply(Ipv4Addr, Option<RecvRespond>, Instant),
}

/// The table after `e`, as the method for it (`register_pending`,
/// `mark_sent`, `mark_elapsed`, `mark_failed`, `accept_reply`) leaves it.
pub open spec fn table_step(m: Map<u16, ConnectionHandle>, e: TableEvent) -> Map<
    u16,
    ConnectionHandle,
> {
    match e {
        TableEvent::Register(h) => after_register(m, h),
        TableEvent::Sent(seq, elapsed) => after_sent(m, seq, elapsed),
        TableEvent::TimedOut(seq) => with_status(m, seq, EchoStatus::Elapsed),
        TableEvent::Failed(seq) => with_status(m, seq, EchoStatus::Failed),
        TableEvent::Reply(destination, reply, now) => reply_outcome(m, destination, reply, now).0,
    }
}

/// The table after the events `events`, in order.
pub open spec fn table_run(m: Map<u16, ConnectionHandle>, events: Seq<TableEvent>) -> Map<
    u16,
    ConnectionHandle,
>
    decreases events.len(),
{
    if events.len() == 0 {
        m
    } else {
        table_step(table_run(m, events.drop_last()), events.last())
    }
}

/// Every entry of `m` is kept under its own sequence number and belongs to
/// the run that sends to `destination` with identifier `identifier`.
pub open spec fn entries_of_run(
    m: Map<u16, ConnectionHandle>,
    destination: Ipv4Addr,
    identifier: u16,
) -> bool {
    forall|k: u16|
        #[trigger] m.contains_key(k) ==> m[k].seq == k && m[k].destination_ipv4 == destination
            && m[k].identifier == identifier
}

/// `e` registers only requests of the run that sends to `destination` with
/// identifier `identifier`.
pub open spec fn event_of_run(e: TableEvent, destination: Ipv4Addr, identifier: u16) -> bool {
    match e {
        TableEvent::Register(h) => h.destination_ipv4 == destination && h.identifier == identifier,
        _ => true,
    }
}

/// `events` registers a request with sequence number `k`.
pub open spec fn registers(events: Seq<TableEvent>, k: u16) -> bool {
    exists|i: int|
        0 <= i < events.len() && (#[trigger] events[i] matches TableEvent::Register(h) && h.seq
            == k)
}

/// One event keeps the table a table of the run, and removes no entry.
pub proof fn lemma_table_step_of_run(
    m: Map<u16, ConnectionHandle>,
    e: TableEvent,
    destination: Ipv4Addr,
    identifier: u16,
)
    requires
        entries_of_run(m, destination, identifier),
        event_of_run(e, destination, identifier),
    ensures
        entries_of_run(table_step(m, e), destination, identifier),
        m.dom().subset_of(table_step(m, e).dom()),
        forall|k: u16|
            #[trigger] table_step(m, e).contains_key(k) && !m.contains_key(k) ==> (
            e matches TableEvent::Register(h) && h.seq == k),
{
}

/// Whatever the send and receive tasks do to the table of a run, every
/// entry stays under its own sequence number with the run's destination and
/// identifier, entries are only added, never removed, and every added entry
/// was registered by one of the events.
pub proof fn lemma_table_run_of_run(
    m: Map<u16, ConnectionHandle>,
    events: Seq<TableEvent>,
    destination: Ipv4Addr,
    identifier: u16,
)
    requires
        entries_of_run(m, destination, identifier),
        forall|i: int| 0 <= i < events.len() ==> event_of_run(#[trigger] events[i], destination, identifier),
    ensures
        entries_of_run(table_run(m, events), destination, identifier),
        m.dom().subset_of(table_run(m, events).dom()),
        forall|k: u16|
            #[trigger] table_run(m, events).contains_key(k) && !m.contains_key(k) ==> registers(
                events,
                k,
            ),
    decreases events.len(),
{
    if events.len() > 0 {
        let prefix = events.drop_last();
        assert forall|i: int| 0 <= i < prefix.len() implies event_of_run(
            #[trigger] prefix[i],
            destination,
            identifier,
        ) by {
            assert(prefix[i] == events[i]);
        }
        lemma_table_run_of_run(m, prefix, destination, identifier);
        let before = table_run(m, prefix);
        assert(event_of_run(events[events.len() - 1], destination, identifier));
        lemma_table_step_of_run(before, events.last(), destination, identifier);
        assert forall|k: u16|
            #[trigger] table_run(m, events).contains_key(k) && !m.contains_key(k) implies registers(
            events,
            k,
        ) by {
            if before.contains_key(k) {
                let i = choose|i: int|
                    0 <= i < prefix.len() && (#[trigger] prefix[i] matches TableEvent::Register(h)
                        && h.seq == k);
                assert(events[i] == prefix[i]);
            } else {
                assert(events[events.len() - 1] == events.last());
            }
        }
    }
}

/// A reply is accepted at most once: after a waiting request has been
/// answered, a second reply with its sequence number is refused as coming
/// for a request that is not waiting, and leaves the table as it is.
pub proof fn lemma_reply_accepted_once(
    m: Map<u16, ConnectionHandle>,
    destination: Ipv4Addr,
    seq: u16,
    now: Instant,
    later: Instant,
)
    requires
        m.contains_key(seq),
        m[seq].status == EchoStatus::Sent,
    ensures
        ({
            let (m1, first) = reply_outcome(m, destination, Some((destination, seq)), now);
            let (m2, second) = reply_outcome(m1, destination, Some((destination, seq)), later);
            &&& first == Ok::<ConnectionHandle, RunErrorView>(received_at(m[seq], now))
            &&& second == Err::<ConnectionHandle, RunErrorView>(
                RunErrorView::UnexpectedReplyEchoStatus(EchoStatus::Received),
            )
            &&& m2 == m1
        }),
{
}

/// A request that timed out stays timed out: once its entry is marked
/// `Elapsed`, a reply for it is refused as late and changes nothing.
pub proof fn lemma_elapsed_reply_refused(
    m: Map<u16, ConnectionHandle>,
    destination: Ipv4Addr,
    seq: u16,
    now: Instant,
)
    requires
        m.contains_key(seq),
    ensures
        ({
            let m1 = with_status(m, seq, EchoStatus::Elapsed);
            reply_outcome(m1, destination, Some((destination, seq)), now) == (
                m1,
                Err::<ConnectionHandle, RunErrorView>(RunErrorView::ElapsedReply),
            )
        }),
{
}

/// Replies never touch entries other than the one they name, and never
/// create entries.
pub proof fn lemma_reply_touches_only_its_entry(
    m: Map<u16, ConnectionHandle>,
    destination: Ipv4Addr,
    reply: Option<RecvRespond>,
    now: Instant,
    other: u16,
)
    requires
        match reply {
            Some((_, seq)) => seq != other,
            None => true,
        },
    ensures
        reply_outcome(m, destination, reply, now).0.dom() == m.dom(),
        m.contains_key(other) ==> reply_outcome(m, destination, reply, now).0[other] == m[other],
{
    if let Some((_, seq)) = reply {
        if m.contains_key(seq) {
            assert(m.insert(seq, received_at(m[seq], now)).dom() =~= m.dom());
        }
    }
}

/// A reply from any address other than the destination, whichever octet
/// differs, is refused with the text of that address and leaves the table
/// as it was; so an accepted reply always came from the destination and
/// names the sequence number of the entry it answers.
pub proof fn lemma_foreign_reply_refused(
    m: Map<u16, ConnectionHandle>,
    destination: Ipv4Addr,
    ip: Ipv4Addr,
    seq: u16,
    now: Instant,
)
    requires
        ip != destination,
    ensures
        reply_outcome(m, destination, Some((ip, seq)), now).0 == m,
        reply_outcome(m, destination, Some((ip, seq)), now).1 matches Err(
            RunErrorView::UnexpectedIP(text),
        ) && spec_parse_ipv4(text) == Some(ip),
{
    lemma_ipv4_roundtrip(ip);
}

/// An accepted reply came from the destination, for an entry that was
/// waiting, and the entry it gives is the table's new entry for that
/// sequence number, marked received at the reply's time.
pub proof fn lemma_accepted_reply_from_destination(
    m: Map<u16, ConnectionHandle>,
    destination: Ipv4Addr,
    reply: Option<RecvRespond>,
    now: Instant,
)
    requires
        reply_outcome(m, destination, reply, now).1 is Ok,
    ensures
        ({
            let (ip, seq) = reply->0;
            let c = reply_outcome(m, destination, reply, now).1->Ok_0;
            &&& reply is Some
            &&& ip == destination
            &&& m.contains_key(seq)
            &&& m[seq].status == EchoStatus::Sent
            &&& c.seq == m[seq].seq && c.destination_ipv4 == m[seq].destination_ipv4
            &&& c.identifier == m[seq].identifier && c.earlier == m[seq].earlier
            &&& c.now == now && c.status == EchoStatus::Received
            &&& reply_outcome(m, destination, reply, now).0 == m.insert(seq, c)
        }),
{
}

/// When the wait for a reply ends with the accepted entry `h`, the line to
/// print reads back as `h`'s address, sequence number and elapsed
/// microseconds, followed by ` - ` and its status; when it times out, the
/// line reads back as the destination and the request's sequence number,
/// followed by `time out`.
pub proof fn lemma_settle_lines_read_back(
    m: Map<u16, ConnectionHandle>,
    destination: Ipv4Addr,
    seq: u16,
    h: ConnectionHandle,
)
    ensures
        settle_outcome(m, destination, seq, ReplyWait::Replied(h)).2 matches Some(line) && ({
            &&& reads_as_columns(line, h.destination_ipv4, h.seq, third_column(line))
            &&& numeral_then(
                third_column(line),
                h.elapsed_micros as nat,
                " - "@ + status_chars(h.status),
            )
        }),
        settle_outcome(m, destination, seq, ReplyWait::TimedOut).2 matches Some(line)
            && reads_as_columns(line, destination, seq, "time out"@),
{
    lemma_handle_line_read_back(h.destination_ipv4, h.seq, h.elapsed_micros, h.status);
    lemma_timeout_line_read_back(destination, seq);
}

} // verus!
