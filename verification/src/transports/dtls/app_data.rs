//! Application data: a payload is cut into records that fit a datagram, and
//! collected from them.

use vstd::prelude::*;
use vstd::slice::{slice_subrange, slice_to_vec};

use crate::transports::dtls::error::DtlsError;

verus! {

/// The longest record of application data, in bytes. It leaves room for what is
/// put around a record on the way, so that no datagram has to be fragmented.
pub const MAX_APP_DATA_RECORD_SIZE: usize = 1200;

/// The number of records that a payload of `len` bytes is cut into.
pub open spec fn record_count(len: nat) -> nat {
    ((len + MAX_APP_DATA_RECORD_SIZE - 1) / MAX_APP_DATA_RECORD_SIZE as int) as nat
}

/// Where record `i` of a payload of `len` bytes ends.
pub open spec fn record_end(len: nat, i: int) -> int {
    if (i + 1) * MAX_APP_DATA_RECORD_SIZE <= len {
        (i + 1) * MAX_APP_DATA_RECORD_SIZE
    } else {
        len as int
    }
}

/// The records that a payload is cut into: all but the last are as long as they
/// may be.
pub open spec fn records_of(payload: Seq<u8>) -> Seq<Seq<u8>> {
    Seq::new(
        record_count(payload.len()),
        |i: int|
            payload.subrange(i * MAX_APP_DATA_RECORD_SIZE, record_end(payload.len(), i)),
    )
}

/// Cuts a payload into records.
pub fn fragment_application_data(payload: &[u8]) -> (records: Vec<Vec<u8>>)
    ensures
        records@.map_values(|record: Vec<u8>| record@) == records_of(payload@),
{
    let mut records: Vec<Vec<u8>> = Vec::new();
    let mut at: usize = 0;
    let ghost made: Seq<Seq<u8>> = seq![];
    assert(made =~= records_of(payload@).take(0));
    while at < payload.len()
        invariant
            at <= payload@.len(),
            made == records@.map_values(|record: Vec<u8>| record@),
            made == records_of(payload@).take(made.len() as int),
            made.len() <= record_count(payload@.len()),
            at == payload@.len() && made.len() == record_count(payload@.len()) || at == made.len()
                * MAX_APP_DATA_RECORD_SIZE,
        decreases payload@.len() - at,
    {
        let rest: usize = payload.len() - at;
        let len: usize = if rest < MAX_APP_DATA_RECORD_SIZE {
            rest
        } else {
            MAX_APP_DATA_RECORD_SIZE
        };
        let record: Vec<u8> = slice_to_vec(slice_subrange(payload, at, at + len));
        proof {
            let i = made.len() as int;
            assert(at + len == record_end(payload@.len(), i));
            assert(records_of(payload@)[i] == record@);
            assert(records_of(payload@).take(i + 1) =~= made.push(record@));
        }
        records.push(record);
        at += len;
        proof {
            made = made.push(record@);
            assert(made =~= records@.map_values(|record: Vec<u8>| record@));
        }
    }
    assert(records_of(payload@).take(made.len() as int) =~= records_of(payload@));
    records
}

/// Collects the records of a payload whose length is known.
#[derive(Debug)]
pub struct RecordCollector {
    pub expected: usize,
    pub record_count: usize,
    pub received: Vec<u8>,
}

/// The contents of a [`RecordCollector`].
#[verifier::ext_equal]
pub struct CollectorView {
    pub expected: nat,
    pub record_count: nat,
    pub received: Seq<u8>,
}

impl View for RecordCollector {
    type V = CollectorView;

    open spec fn view(&self) -> CollectorView {
        CollectorView {
            expected: self.expected as nat,
            record_count: self.record_count as nat,
            received: self.received@,
        }
    }
}

/// What can come of waiting for a record.
#[derive(Debug)]
pub enum RecordEvent {
    Received(Vec<u8>),
    /// None arrived for too long.
    Silence,
    /// None will arrive any more.
    Closed,
}

/// What to do next while collecting.
#[derive(Debug, Clone, Copy, PartialEq, Eq, Structural)]
pub enum CollectStep {
    /// The payload is complete.
    Done,
    /// Wait for a record.
    Receive,
}

impl CollectorView {
    /// Nothing has been collected.
    pub open spec fn initial(expected: nat) -> Self {
        CollectorView { expected, record_count: 0, received: seq![] }
    }

    /// Whether all bytes have been collected.
    pub open spec fn is_done(self) -> bool {
        self.received.len() >= self.expected
    }

    /// One more record has been collected.
    pub open spec fn with_record(self, record: Seq<u8>) -> Self {
        CollectorView {
            record_count: self.record_count + 1,
            received: self.received + record,
            ..self
        }
    }
}

impl RecordCollector {
    /// A collector of a payload of `expected` bytes.
    pub fn new(expected: usize) -> (collector: Self)
        ensures
            collector@ == CollectorView::initial(expected as nat),
    {
        RecordCollector { expected, record_count: 0, received: Vec::new() }
    }

    /// What to do next, at time `now`. Fails once the deadline has passed and the
    /// payload is not complete.
    pub fn next_step(&self, now: u64, deadline: u64) -> (step: Result<CollectStep, DtlsError>)
        ensures
            step == if self@.is_done() {
                Ok(CollectStep::Done)
            } else if now < deadline {
                Ok(CollectStep::Receive)
            } else {
                Err(DtlsError::CollectTimedOut)
            },
    {
        if self.received.len() >= self.expected {
            Ok(CollectStep::Done)
        } else if now < deadline {
            Ok(CollectStep::Receive)
        } else {
            Err(DtlsError::CollectTimedOut)
        }
    }

    /// Takes what came of waiting for a record. A record that is too long is not
    /// collected.
    pub fn take_event(&mut self, event: RecordEvent) -> (result: Result<(), DtlsError>)
        requires
            old(self)@.record_count < usize::MAX,
        ensures
            match event {
                RecordEvent::Received(record) => if record@.len() <= MAX_APP_DATA_RECORD_SIZE {
                    result is Ok && final(self)@ == old(self)@.with_record(record@)
                } else {
                    result == Err::<(), _>(DtlsError::RecordTooLong) && *final(self) == *old(self)
                },
                RecordEvent::Silence => {
                    result == Err::<(), _>(DtlsError::RecordTimedOut) && *final(self) == *old(self)
                },
                RecordEvent::Closed => {
                    result == Err::<(), _>(DtlsError::ChannelClosed) && *final(self) == *old(self)
                },
            },
    {
        match event {
            RecordEvent::Received(record) => {
                if record.len() > MAX_APP_DATA_RECORD_SIZE {
                    return Err(DtlsError::RecordTooLong);
                }
                self.record_count += 1;
                self.received.extend_from_slice(record.as_slice());
                assert(self@ =~= old(self)@.with_record(record@));
                Ok(())
            },
            RecordEvent::Silence => Err(DtlsError::RecordTimedOut),
            RecordEvent::Closed => Err(DtlsError::ChannelClosed),
        }
    }
}

/// Records are collected one after another.
pub open spec fn collected(start: CollectorView, records: Seq<Seq<u8>>) -> CollectorView
    decreases records.len(),
{
    if records.len() == 0 {
        start
    } else {
        collected(start, records.drop_last()).with_record(records.last())
    }
}

/// No record is longer than a record may be.
pub proof fn records_fit_datagrams(payload: Seq<u8>, i: int)
    requires
        0 <= i < records_of(payload).len(),
    ensures
        0 < records_of(payload)[i].len() <= MAX_APP_DATA_RECORD_SIZE,
{
}

/// A payload takes one record up to the longest record, two records just above it,
/// and in general the fewest that hold it.
pub proof fn records_are_few(len: nat)
    ensures
        0 < len <= MAX_APP_DATA_RECORD_SIZE ==> record_count(len) == 1,
        len == MAX_APP_DATA_RECORD_SIZE + 1 ==> record_count(len) == 2,
        len <= record_count(len) * MAX_APP_DATA_RECORD_SIZE < len + MAX_APP_DATA_RECORD_SIZE,
{
}

proof fn lemma_collected(payload: Seq<u8>, n: int)
    requires
        0 <= n <= record_count(payload.len()),
    ensures
        ({
            let now = collected(
                CollectorView::initial(payload.len()),
                records_of(payload).take(n),
            );
            &&& now.expected == payload.len()
            &&& now.record_count == n
            &&& n < record_count(payload.len()) ==> now.received == payload.take(
                n * MAX_APP_DATA_RECORD_SIZE,
            )
            &&& n == record_count(payload.len()) ==> now.received == payload
        }),
    decreases n,
{
    let records = records_of(payload);
    if n > 0 {
        lemma_collected(payload, n - 1);
        assert(records.take(n).drop_last() =~= records.take(n - 1));
        assert(records.take(n).last() == records[n - 1]);
        let end = record_end(payload.len(), n - 1);
        assert(payload.take((n - 1) * MAX_APP_DATA_RECORD_SIZE) + records[n - 1] =~= payload.take(
            end,
        ));
        if n == record_count(payload.len()) {
            assert(payload.take(end) =~= payload);
        }
    } else {
        assert(records.take(0) =~= seq![]);
        if n == record_count(payload.len()) {
            assert(payload =~= seq![]);
        } else {
            assert(payload.take(0) =~= seq![]);
        }
    }
}

/// Collecting the records of a payload gives back the payload, and ends with the
/// last of them and not before.
pub proof fn collecting_gives_back_payload(payload: Seq<u8>, n: int)
    requires
        0 <= n <= record_count(payload.len()),
    ensures
        ({
            let start = CollectorView::initial(payload.len());
            let now = collected(start, records_of(payload).take(n));
            let end = collected(start, records_of(payload));
            &&& now.is_done() <==> n == record_count(payload.len())
            &&& end.received == payload
            &&& end.record_count == record_count(payload.len())
        }),
{
    let all = record_count(payload.len()) as int;
    lemma_collected(payload, n);
    lemma_collected(payload, all);
    assert(records_of(payload).take(all) =~= records_of(payload));
}

/// What collecting comes to when these records arrive one after another: it stops
/// once it is done, and fails at a record that is too long.
pub open spec fn collect_run(start: CollectorView, records: Seq<Seq<u8>>) -> Result<
    CollectorView,
    DtlsError,
>
    decreases records.len(),
{
    if start.is_done() || records.len() == 0 {
        Ok(start)
    } else if records[0].len() > MAX_APP_DATA_RECORD_SIZE {
        Err(DtlsError::RecordTooLong)
    } else {
        collect_run(start.with_record(records[0]), records.drop_first())
    }
}

/// Whether the first `n` records are those that are collected: as few as reach the
/// length that is still missing, or all of them if they do not.
pub open spec fn suffices(missing: int, records: Seq<Seq<u8>>, n: int) -> bool {
    &&& 0 <= n <= records.len()
    &&& n == records.len() || records.take(n).flatten().len() >= missing
    &&& forall|k: int| 0 <= k < n ==> (#[trigger] records.take(k)).flatten().len() < missing
}

proof fn lemma_collect_run(start: CollectorView, records: Seq<Seq<u8>>, n: int)
    requires
        suffices(start.expected - start.received.len(), records, n),
        forall|i: int|
            0 <= i < n ==> (#[trigger] records[i]).len() <= MAX_APP_DATA_RECORD_SIZE,
    ensures
        collect_run(start, records) == Ok::<_, DtlsError>(
            CollectorView {
                expected: start.expected,
                record_count: (start.record_count + n) as nat,
                received: start.received + records.take(n).flatten(),
            },
        ),
    decreases records.len(),
{
    let missing = start.expected - start.received.len();
    assert(records.take(0) =~= seq![]);
    if n == 0 {
        assert(start.received + records.take(0).flatten() =~= start.received);
    } else {
        let rest = records.drop_first();
        let next = start.with_record(records[0]);
        let less = missing - records[0].len();
        assert(records.take(0).flatten().len() < missing);
        assert forall|k: int| 0 <= k < n implies records.take(k + 1).flatten() == records[0] + (
        #[trigger] rest.take(k)).flatten() by {
            assert(records.take(k + 1).drop_first() =~= rest.take(k));
        }
        assert(rest.take(n - 1).flatten().len() + records[0].len() == records.take(
            n,
        ).flatten().len());
        assert forall|k: int| 0 <= k < n - 1 implies (#[trigger] rest.take(k)).flatten().len()
            < less by {
            assert(records.take(k + 1).flatten().len() < missing);
        }
        assert forall|i: int| 0 <= i < n - 1 implies (#[trigger] rest[i]).len()
            <= MAX_APP_DATA_RECORD_SIZE by {
            assert(rest[i] == records[i + 1]);
        }
        lemma_collect_run(next, rest, n - 1);
        assert(next.received + rest.take(n - 1).flatten() =~= start.received + records.take(
            n,
        ).flatten());
    }
}

/// Whatever records arrive, collecting takes as few of them as reach the expected
/// length, and joins their bytes.
pub proof fn collecting_stops_when_enough(expected: nat, records: Seq<Seq<u8>>, n: int)
    requires
        suffices(expected as int, records, n),
        forall|i: int|
            0 <= i < n ==> (#[trigger] records[i]).len() <= MAX_APP_DATA_RECORD_SIZE,
    ensures
        collect_run(CollectorView::initial(expected), records) == Ok::<_, DtlsError>(
            CollectorView {
                expected,
                record_count: n as nat,
                received: records.take(n).flatten(),
            },
        ),
{
    let start = CollectorView::initial(expected);
    lemma_collect_run(start, records, n);
    assert(start.received + records.take(n).flatten() =~= records.take(n).flatten());
}

/// A record that is too long fails the collecting, unless it was done before.
pub proof fn long_record_fails_collecting(expected: nat, records: Seq<Seq<u8>>, n: int)
    requires
        0 <= n < records.len(),
        records[n].len() > MAX_APP_DATA_RECORD_SIZE,
        records.take(n).flatten().len() < expected,
        forall|i: int|
            0 <= i < n ==> (#[trigger] records[i]).len() <= MAX_APP_DATA_RECORD_SIZE,
    ensures
        collect_run(CollectorView::initial(expected), records) == Err::<CollectorView, _>(
            DtlsError::RecordTooLong,
        ),
{
    lemma_long_record(CollectorView::initial(expected), records, n);
}

proof fn lemma_long_record(start: CollectorView, records: Seq<Seq<u8>>, n: int)
    requires
        0 <= n < records.len(),
        records[n].len() > MAX_APP_DATA_RECORD_SIZE,
        start.received.len() + records.take(n).flatten().len() < start.expected,
        forall|i: int|
            0 <= i < n ==> (#[trigger] records[i]).len() <= MAX_APP_DATA_RECORD_SIZE,
    ensures
        collect_run(start, records) == Err::<CollectorView, _>(DtlsError::RecordTooLong),
    decreases n,
{
    if n > 0 {
        let rest = records.drop_first();
        assert(records.take(n).drop_first() =~= rest.take(n - 1));
        assert forall|i: int| 0 <= i < n - 1 implies (#[trigger] rest[i]).len()
            <= MAX_APP_DATA_RECORD_SIZE by {
            assert(rest[i] == records[i + 1]);
        }
        lemma_long_record(start.with_record(records[0]), rest, n - 1);
    }
}

proof fn lemma_joined_records(payload: Seq<u8>, n: int)
    requires
        0 <= n <= record_count(payload.len()),
    ensures
        n < record_count(payload.len()) ==> records_of(payload).take(n).flatten() == payload.take(
            n * MAX_APP_DATA_RECORD_SIZE,
        ),
        n == record_count(payload.len()) ==> records_of(payload).take(n).flatten() == payload,
    decreases n,
{
    let records = records_of(payload);
    if n > 0 {
        lemma_joined_records(payload, n - 1);
        let earlier = records.take(n - 1);
        assert(records.take(n) =~= earlier.push(records[n - 1]));
        earlier.lemma_flatten_push(records[n - 1]);
        let end = record_end(payload.len(), n - 1);
        assert(payload.take((n - 1) * MAX_APP_DATA_RECORD_SIZE) + records[n - 1] =~= payload.take(
            end,
        ));
        if n == record_count(payload.len()) {
            assert(payload.take(end) =~= payload);
        }
    } else {
        assert(records.take(0) =~= seq![]);
        if n == record_count(payload.len()) {
            assert(payload =~= seq![]);
        } else {
            assert(payload.take(0) =~= seq![]);
        }
    }
}

/// The records of a payload joined are the payload, byte for byte. All but the last
/// are as long as a record may be.
pub proof fn records_join_to_the_payload(payload: Seq<u8>)
    ensures
        records_of(payload).flatten() == payload,
        forall|i: int|
            0 <= i < records_of(payload).len() - 1 ==> (#[trigger] records_of(payload)[i]).len()
                == MAX_APP_DATA_RECORD_SIZE,
        forall|i: int|
            0 <= i < records_of(payload).len() ==> 0 < (#[trigger] records_of(payload)[i]).len()
                <= MAX_APP_DATA_RECORD_SIZE,
{
    let all = record_count(payload.len()) as int;
    lemma_joined_records(payload, all);
    assert(records_of(payload).take(all) =~= records_of(payload));
}

/// A collector is seen as what its fields hold.
pub proof fn collector_is_seen_as_it_is(collector: RecordCollector)
    ensures
        collector@.expected == collector.expected,
        collector@.record_count == collector.record_count,
        collector@.received == collector.received@,
{
}

/// A new collector holds nothing. It is done once it holds as many bytes as it
/// expects, and a record goes behind what it holds and is counted.
pub proof fn records_are_collected(collector: CollectorView, expected: nat, record: Seq<u8>)
    ensures
        CollectorView::initial(expected).expected == expected,
        CollectorView::initial(expected).record_count == 0,
        CollectorView::initial(expected).received.len() == 0,
        collector.is_done() <==> collector.received.len() >= collector.expected,
        collector.with_record(record).received == collector.received + record,
        collector.with_record(record).record_count == collector.record_count + 1,
        collector.with_record(record).expected == collector.expected,
{
}

/// The longest record, with the header of the record, the nonce and the tag of its
/// encryption and the headers of UDP and IP, fits a frame of 1500 bytes.
pub proof fn longest_record_fits_a_frame()
    ensures
        MAX_APP_DATA_RECORD_SIZE == 1200,
        MAX_APP_DATA_RECORD_SIZE + 13 + 8 + 16 + 8 + 40 <= 1500,
{
}

} // verus!
