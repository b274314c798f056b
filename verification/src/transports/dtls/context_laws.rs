//! Laws of the handshake: in what order messages are handled, and what a refused
//! message leaves behind.

use vstd::prelude::*;

use crate::transports::dtls::certificate::{certificate_round_trip, chain_fits, encoded_chain};
use crate::transports::dtls::cipher_suite::SUPPORTED_CIPHER_SUITE;
use crate::transports::dtls::client_hello::{client_hello_round_trip, ClientHelloView};
use crate::transports::dtls::context::{
    lemma_position, position, ContextView, Outcome, WholeMessageView,
};
use crate::transports::dtls::error::DtlsError;
use crate::transports::dtls::fingerprint::sha256;
use crate::transports::dtls::handshake::{
    decoding_is_unambiguous, handshake_round_trip, has_handshake_message, starts_with_message,
    HandshakeMessageView, HandshakeType, HANDSHAKE_HEADER_LEN,
};
use crate::transports::dtls::messages::whole_message;
use crate::transports::dtls::reassembly::{ReassemblyView, MAX_HANDSHAKE_MESSAGE_LEN};
use crate::transports::dtls::reassembly_laws::two_fragments_complete;
use crate::transports::dtls::server_hello::{server_hello_round_trip, ServerHelloView};
use crate::transports::dtls::state::{DtlsState, TransportEvent};

verus! {

/// Messages are handled one after another, up to the first failure.
pub open spec fn in_order(start: ContextView, messages: Seq<WholeMessageView>) -> Outcome
    decreases messages.len(),
{
    if messages.len() == 0 {
        start.accepted()
    } else {
        let before = in_order(start, messages.drop_last());
        match before.result {
            Err(_) => before,
            Ok(()) => before.context.after_next(messages.last()),
        }
    }
}

/// Messages arrive one after another, up to the first failure. `arrivals` says
/// which of the messages arrives when.
pub open spec fn arrived(
    start: ContextView,
    messages: Seq<WholeMessageView>,
    arrivals: Seq<int>,
) -> Outcome
    decreases arrivals.len(),
{
    if arrivals.len() == 0 {
        start.accepted()
    } else {
        let before = arrived(start, messages, arrivals.drop_last());
        match before.result {
            Err(_) => before,
            Ok(()) => before.context.delivered(messages[arrivals.last()]),
        }
    }
}

/// Whether the messages are numbered from the next one on.
pub open spec fn numbered(start: ContextView, messages: Seq<WholeMessageView>) -> bool {
    forall|i: int|
        0 <= i < messages.len() ==> (#[trigger] messages[i]).message_seq == start.recv_message_seq
            + i
}

/// Whether a message of `messages` from `first` on waits in `early`.
spec fn waits(
    messages: Seq<WholeMessageView>,
    first: int,
    arrivals: Seq<int>,
    message: WholeMessageView,
) -> bool {
    exists|i: int|
        first <= i < messages.len() && arrivals.contains(i) && #[trigger] messages[i] == message
}

/// Those of `messages` that arrived from `n` on wait in `early`, each of them once.
spec fn queued(
    messages: Seq<WholeMessageView>,
    arrivals: Seq<int>,
    n: int,
    early: Seq<WholeMessageView>,
) -> bool {
    &&& forall|j: int|
        0 <= j < early.len() ==> waits(messages, n, arrivals, #[trigger] early[j])
    &&& forall|i: int|
        n <= i < messages.len() && #[trigger] arrivals.contains(i) ==> early.contains(messages[i])
    &&& forall|j: int, k: int|
        0 <= j < k < early.len() ==> (#[trigger] early[j]).message_seq != (
        #[trigger] early[k]).message_seq
}

/// The first `n` messages have been handled, and those that arrived from `n` on
/// wait.
spec fn handled_up_to(
    start: ContextView,
    messages: Seq<WholeMessageView>,
    arrivals: Seq<int>,
    n: int,
    now: ContextView,
) -> bool {
    &&& 0 <= n <= messages.len()
    &&& now == (ContextView { early: now.early, ..in_order(start, messages.take(n)).context })
    &&& forall|i: int| 0 <= i < n ==> #[trigger] arrivals.contains(i)
    &&& queued(messages, arrivals, n, now.early)
}

proof fn lemma_prefix_in_order(start: ContextView, messages: Seq<WholeMessageView>, n: int)
    requires
        0 <= n <= messages.len(),
        in_order(start, messages).result is Ok,
    ensures
        in_order(start, messages.take(n)).result is Ok,
        in_order(start, messages.take(n)).context.recv_message_seq == start.recv_message_seq + n,
        in_order(start, messages.take(n)).context.early == start.early,
        n < messages.len() ==> in_order(start, messages.take(n + 1)) == in_order(
            start,
            messages.take(n),
        ).context.after_next(messages[n]),
    decreases messages.len(),
{
    if n == messages.len() {
        assert(messages.take(n) =~= messages);
        if n > 0 {
            lemma_prefix_in_order(start, messages.drop_last(), n - 1);
            assert(messages.drop_last().take(n - 1) =~= messages.drop_last());
        }
    } else {
        lemma_prefix_in_order(start, messages.drop_last(), n);
        assert(messages.drop_last().take(n) =~= messages.take(n));
        assert(messages.take(n + 1).drop_last() =~= messages.take(n));
        assert(messages.take(n + 1).last() == messages[n]);
    }
}

/// What waits does not matter for what is done with the next message.
proof fn lemma_waiting_is_kept(
    context: ContextView,
    early: Seq<WholeMessageView>,
    message: WholeMessageView,
)
    ensures
        ({
            let with_early = (ContextView { early, ..context }).after_next(message);
            let plain = context.after_next(message);
            &&& with_early.result == plain.result
            &&& with_early.context == (ContextView { early, ..plain.context })
        }),
{
}

/// One more message is handled while others wait.
proof fn lemma_one_more(
    start: ContextView,
    messages: Seq<WholeMessageView>,
    n: int,
    now: ContextView,
)
    requires
        0 <= n < messages.len(),
        in_order(start, messages).result is Ok,
        now == (ContextView { early: now.early, ..in_order(start, messages.take(n)).context }),
    ensures
        ({
            let outcome = now.after_next(messages[n]);
            &&& outcome.result is Ok
            &&& outcome.context == (ContextView {
                early: now.early,
                ..in_order(start, messages.take(n + 1)).context
            })
        }),
{
    lemma_prefix_in_order(start, messages, n);
    lemma_prefix_in_order(start, messages, n + 1);
    lemma_waiting_is_kept(
        in_order(start, messages.take(n)).context,
        now.early,
        messages[n],
    );
}

/// The waiting message that is numbered like message `n` is message `n`, and those
/// behind it wait without it.
proof fn lemma_unqueued(
    base: int,
    messages: Seq<WholeMessageView>,
    arrivals: Seq<int>,
    n: int,
    early: Seq<WholeMessageView>,
    at: int,
)
    requires
        forall|i: int|
            0 <= i < messages.len() ==> (#[trigger] messages[i]).message_seq == base + i,
        queued(messages, arrivals, n, early),
        0 <= n,
        0 <= at < early.len(),
        early[at].message_seq == base + n,
    ensures
        n < messages.len(),
        arrivals.contains(n),
        early[at] == messages[n],
        queued(messages, arrivals, n + 1, early.remove(at)),
{
    assert(waits(messages, n, arrivals, early[at]));
    let found = choose|i: int|
        n <= i < messages.len() && arrivals.contains(i) && #[trigger] messages[i] == early[at];
    assert(found == n);
    let rest = early.remove(at);
    assert forall|j: int| 0 <= j < rest.len() implies waits(
        messages,
        n + 1,
        arrivals,
        #[trigger] rest[j],
    ) by {
        let k = if j < at { j } else { j + 1 };
        assert(rest[j] == early[k]);
        assert(waits(messages, n, arrivals, early[k]));
        let i = choose|i: int|
            n <= i < messages.len() && arrivals.contains(i) && #[trigger] messages[i] == early[k];
        assert(early[k].message_seq != early[at].message_seq);
        assert(i != n);
    }
    assert forall|i: int|
        n + 1 <= i < messages.len() && #[trigger] arrivals.contains(i) implies rest.contains(
        messages[i],
    ) by {
        let k = choose|k: int| 0 <= k < early.len() && early[k] == messages[i];
        assert(k != at);
        let j = if k < at { k } else { k - 1 };
        assert(rest[j] == messages[i]);
    }
}

/// The next message in order, if it waits, is the one that was numbered so, and
/// once it is handled, those behind it still wait.
proof fn lemma_next_of_waiting(
    start: ContextView,
    messages: Seq<WholeMessageView>,
    arrivals: Seq<int>,
    n: int,
    now: ContextView,
)
    requires
        numbered(start, messages),
        in_order(start, messages).result is Ok,
        handled_up_to(start, messages, arrivals, n, now),
        now.next_is_here(),
    ensures
        n < messages.len(),
        now.next_message() == messages[n],
        now.without_next().after_next(messages[n]).result is Ok,
        handled_up_to(
            start,
            messages,
            arrivals,
            n + 1,
            now.without_next().after_next(messages[n]).context,
        ),
        now.without_next().after_next(messages[n]).context.early.len() < now.early.len(),
{
    lemma_prefix_in_order(start, messages, n);
    lemma_position(now.early, now.recv_message_seq);
    let at = position(now.early, now.recv_message_seq);
    lemma_unqueued(start.recv_message_seq, messages, arrivals, n, now.early, at);
    lemma_one_more(start, messages, n, now.without_next());
}

/// Draining handles what has arrived without a gap.
proof fn lemma_drained(
    start: ContextView,
    messages: Seq<WholeMessageView>,
    arrivals: Seq<int>,
    n: int,
    now: ContextView,
) -> (m: int)
    requires
        numbered(start, messages),
        in_order(start, messages).result is Ok,
        handled_up_to(start, messages, arrivals, n, now),
    ensures
        now.drained().result is Ok,
        handled_up_to(start, messages, arrivals, m, now.drained().context),
        m < messages.len() ==> !arrivals.contains(m),
    decreases now.early.len(),
{
    if now.next_is_here() {
        lemma_next_of_waiting(start, messages, arrivals, n, now);
        lemma_drained(
            start,
            messages,
            arrivals,
            n + 1,
            now.without_next().after_next(messages[n]).context,
        )
    } else {
        if n < messages.len() && arrivals.contains(n) {
            lemma_prefix_in_order(start, messages, n);
            lemma_position(now.early, now.recv_message_seq);
            let k = choose|k: int| 0 <= k < now.early.len() && now.early[k] == messages[n];
            assert(now.early[k].message_seq == now.recv_message_seq);
        }
        n
    }
}

proof fn lemma_more_arrivals(arrivals: Seq<int>, arrival: int)
    ensures
        forall|i: int| #[trigger]
            arrivals.push(arrival).contains(i) <==> arrivals.contains(i) || i == arrival,
{
    let more = arrivals.push(arrival);
    assert forall|i: int| #[trigger] more.contains(i) <==> arrivals.contains(i) || i == arrival by {
        if arrivals.contains(i) {
            let k = choose|k: int| 0 <= k < arrivals.len() && arrivals[k] == i;
            assert(more[k] == i);
        }
        assert(more[arrivals.len() as int] == arrival);
        if more.contains(i) {
            let k = choose|k: int| 0 <= k < more.len() && more[k] == i;
            if k < arrivals.len() {
                assert(arrivals[k] == i);
            }
        }
    }
}

/// What waits still waits after an arrival, and so does what arrived, if it was not
/// waiting and its turn has not come.
proof fn lemma_queued(
    base: int,
    messages: Seq<WholeMessageView>,
    arrivals: Seq<int>,
    n: int,
    early: Seq<WholeMessageView>,
    arrival: int,
)
    requires
        forall|i: int|
            0 <= i < messages.len() ==> (#[trigger] messages[i]).message_seq == base + i,
        queued(messages, arrivals, n, early),
        0 <= arrival < messages.len(),
        0 <= n <= messages.len(),
        n < messages.len() ==> !arrivals.contains(n),
    ensures
        arrival < n ==> queued(messages, arrivals.push(arrival), n, early),
        arrival == n ==> queued(messages, arrivals.push(arrival), n + 1, early),
        arrival > n ==> ({
            let at = position(early, messages[arrival].message_seq as int);
            if at < early.len() {
                queued(messages, arrivals.push(arrival), n, early)
            } else {
                queued(messages, arrivals.push(arrival), n, early.push(messages[arrival]))
            }
        }),
{
    let more = arrivals.push(arrival);
    let message = messages[arrival];
    let first = if arrival == n { n + 1 } else { n };
    lemma_more_arrivals(arrivals, arrival);
    lemma_position(early, message.message_seq as int);
    let at = position(early, message.message_seq as int);
    assert forall|j: int| 0 <= j < early.len() implies waits(
        messages,
        first,
        more,
        #[trigger] early[j],
    ) by {
        assert(waits(messages, n, arrivals, early[j]));
        let i = choose|i: int|
            n <= i < messages.len() && arrivals.contains(i) && #[trigger] messages[i] == early[j];
        assert(more.contains(i));
        assert(i != n);
    }
    if arrival > n && at < early.len() {
        assert(waits(messages, n, arrivals, early[at]));
        let i = choose|i: int|
            n <= i < messages.len() && arrivals.contains(i) && #[trigger] messages[i] == early[at];
        assert(i == arrival);
        assert(early.contains(message));
    }
    if arrival > n && at == early.len() {
        let longer = early.push(message);
        assert(messages[arrival] == message && more.contains(arrival));
        assert(waits(messages, n, more, message));
        assert forall|j: int| 0 <= j < longer.len() implies waits(
            messages,
            n,
            more,
            #[trigger] longer[j],
        ) by {
            if j < early.len() {
                assert(longer[j] == early[j]);
            }
        }
        assert forall|i: int|
            n <= i < messages.len() && #[trigger] more.contains(i) implies longer.contains(
            messages[i],
        ) by {
            if i != arrival {
                assert(arrivals.contains(i));
                let k = choose|k: int| 0 <= k < early.len() && early[k] == messages[i];
                assert(longer[k] == messages[i]);
            } else {
                assert(longer[early.len() as int] == message);
            }
        }
    }
}

/// One more message arrives.
proof fn lemma_arrival(
    start: ContextView,
    messages: Seq<WholeMessageView>,
    arrivals: Seq<int>,
    n: int,
    now: ContextView,
    arrival: int,
) -> (m: int)
    requires
        numbered(start, messages),
        in_order(start, messages).result is Ok,
        handled_up_to(start, messages, arrivals, n, now),
        n < messages.len() ==> !arrivals.contains(n),
        0 <= arrival < messages.len(),
    ensures
        now.delivered(messages[arrival]).result is Ok,
        handled_up_to(
            start,
            messages,
            arrivals.push(arrival),
            m,
            now.delivered(messages[arrival]).context,
        ),
        m < messages.len() ==> !arrivals.push(arrival).contains(m),
{
    lemma_prefix_in_order(start, messages, n);
    lemma_more_arrivals(arrivals, arrival);
    lemma_queued(start.recv_message_seq, messages, arrivals, n, now.early, arrival);
    if arrival == n {
        lemma_one_more(start, messages, n, now);
        lemma_drained(
            start,
            messages,
            arrivals.push(arrival),
            n + 1,
            now.after_next(messages[arrival]).context,
        )
    } else {
        n
    }
}

proof fn lemma_arrivals(
    start: ContextView,
    messages: Seq<WholeMessageView>,
    arrivals: Seq<int>,
) -> (n: int)
    requires
        start.early.len() == 0,
        numbered(start, messages),
        in_order(start, messages).result is Ok,
        forall|k: int| 0 <= k < arrivals.len() ==> 0 <= #[trigger] arrivals[k] < messages.len(),
    ensures
        arrived(start, messages, arrivals).result is Ok,
        handled_up_to(start, messages, arrivals, n, arrived(start, messages, arrivals).context),
        n < messages.len() ==> !arrivals.contains(n),
    decreases arrivals.len(),
{
    if arrivals.len() == 0 {
        assert(messages.take(0) =~= seq![]);
        0
    } else {
        let before = arrivals.drop_last();
        assert forall|k: int| 0 <= k < before.len() implies 0 <= #[trigger] before[k]
            < messages.len() by {
            assert(before[k] == arrivals[k]);
        }
        let n = lemma_arrivals(start, messages, before);
        assert(before.push(arrivals.last()) =~= arrivals);
        lemma_arrival(
            start,
            messages,
            before,
            n,
            arrived(start, messages, before).context,
            arrivals.last(),
        )
    }
}

/// Once all messages have been handled, none waits.
proof fn lemma_nothing_waits(
    start: ContextView,
    messages: Seq<WholeMessageView>,
    arrivals: Seq<int>,
    now: ContextView,
)
    requires
        start.early.len() == 0,
        in_order(start, messages).result is Ok,
        handled_up_to(start, messages, arrivals, messages.len() as int, now),
    ensures
        now == in_order(start, messages).context,
{
    let n = messages.len() as int;
    lemma_prefix_in_order(start, messages, n);
    assert(messages.take(n) =~= messages);
    if now.early.len() > 0 {
        assert(waits(messages, n, arrivals, now.early[0]));
    }
    assert(now.early =~= start.early);
}

/// In whatever order the messages of a flight arrive, and however often, once each
/// has arrived the handshake stands where it would if they had arrived in order
/// and once.
pub proof fn arrival_order_is_irrelevant(
    start: ContextView,
    messages: Seq<WholeMessageView>,
    arrivals: Seq<int>,
)
    requires
        start.early.len() == 0,
        numbered(start, messages),
        in_order(start, messages).result is Ok,
        forall|k: int| 0 <= k < arrivals.len() ==> 0 <= #[trigger] arrivals[k] < messages.len(),
        forall|i: int| 0 <= i < messages.len() ==> #[trigger] arrivals.contains(i),
    ensures
        arrived(start, messages, arrivals).result is Ok,
        arrived(start, messages, arrivals).context == in_order(start, messages).context,
{
    let n = lemma_arrivals(start, messages, arrivals);
    assert(n == messages.len()) by {
        assert(n < messages.len() ==> arrivals.contains(n));
    }
    lemma_nothing_waits(start, messages, arrivals, arrived(start, messages, arrivals).context);
}

/// A message that was handled before changes nothing when it arrives again, whole
/// or in fragments.
pub proof fn handled_messages_are_ignored(start: ContextView, message: HandshakeMessageView)
    requires
        message.message_seq < start.recv_message_seq,
    ensures
        start.received(message) == start.accepted(),
{
}

/// A payload is taken message by message, up to the first failure.
pub proof fn payload_is_taken_message_by_message(
    start: ContextView,
    message: HandshakeMessageView,
    rest: Seq<u8>,
)
    requires
        message.well_formed(),
    ensures
        start.processed(message.encoded() + rest) == (match start.received(message).result {
            Err(_) => start.received(message),
            Ok(()) => start.received(message).context.processed(rest),
        }),
{
    let payload = message.encoded() + rest;
    handshake_round_trip(message, rest);
    decoding_is_unambiguous(
        payload,
        message,
        choose|other: HandshakeMessageView| starts_with_message(payload, other),
    );
}

/// A part of a message as a fragment.
pub open spec fn fragment_of(
    msg_type: HandshakeType,
    message_seq: u16,
    body: Seq<u8>,
    from: int,
    to: int,
) -> HandshakeMessageView {
    HandshakeMessageView {
        msg_type,
        total_length: body.len() as u32,
        message_seq,
        fragment_offset: from as u32,
        fragment_length: (to - from) as u32,
        body: body.subrange(from, to),
    }
}

/// A message that was not handled yet comes to the same whether it arrives whole,
/// or in two fragments of which the second may arrive first.
pub proof fn fragments_come_to_the_whole(
    start: ContextView,
    msg_type: HandshakeType,
    message_seq: u16,
    body: Seq<u8>,
    split: int,
)
    requires
        start.reassembly == ReassemblyView::idle(),
        message_seq >= start.recv_message_seq,
        body.len() <= MAX_HANDSHAKE_MESSAGE_LEN,
        0 < split < body.len(),
    ensures
        ({
            let len = body.len() as int;
            let whole = whole_message(msg_type, message_seq, body);
            let first = fragment_of(msg_type, message_seq, body, 0, split);
            let second = fragment_of(msg_type, message_seq, body, split, len);
            &&& start.received(first).result is Ok
            &&& start.received(first).context.received(second) == start.received(whole)
            &&& start.received(second).result is Ok
            &&& start.received(second).context.received(first) == start.received(whole)
        }),
{
    let len = body.len() as int;
    let first = fragment_of(msg_type, message_seq, body, 0, split);
    let second = fragment_of(msg_type, message_seq, body, split, len);
    two_fragments_complete(start.reassembly, message_seq, body, split as nat);
    assert(body.take(split) =~= first.body);
    assert(body.skip(split) =~= second.body);
    let idle = ContextView { reassembly: ReassemblyView::idle(), ..start };
    assert(idle == start);
    assert(ContextView {
        reassembly: ReassemblyView::idle(),
        ..start.received(first).context
    } == start);
    assert(ContextView {
        reassembly: ReassemblyView::idle(),
        ..start.received(second).context
    } == start);
}

/// A server takes a hello exactly if it offers the supported cipher suite. If not,
/// the handshake fails, unless it has ended before, and nothing of the hello is kept.
pub proof fn offer_decides(start: ContextView, hello: ClientHelloView)
    requires
        hello.fits(),
    ensures
        hello.cipher_suites.contains(SUPPORTED_CIPHER_SUITE) ==> start.after_client_hello(
            hello.encoded(),
        ) == start.agreed(hello.random, SUPPORTED_CIPHER_SUITE).accepted(),
        !hello.cipher_suites.contains(SUPPORTED_CIPHER_SUITE) ==> {
            let outcome = start.after_client_hello(hello.encoded());
            &&& outcome.result == Err::<(), _>(DtlsError::NoSharedCipherSuite)
            &&& outcome.context == (ContextView {
                state: start.state.spec_after(TransportEvent::HandshakeFailed),
                ..start
            })
            &&& outcome.context.state == DtlsState::Failed || start.state == DtlsState::Closed
        },
{
    client_hello_round_trip(hello);
}

/// A client takes a hello exactly if it chose the supported cipher suite. If not,
/// the handshake fails, unless it has ended before, and nothing of the hello is kept.
pub proof fn choice_decides(start: ContextView, hello: ServerHelloView)
    requires
        hello.fits(),
    ensures
        hello.cipher_suite == SUPPORTED_CIPHER_SUITE ==> {
            let outcome = start.after_server_hello(hello.encoded());
            &&& outcome.result is Ok
            &&& outcome.context.server_random == Some(hello.random)
            &&& outcome.context.cipher_suite == Some(SUPPORTED_CIPHER_SUITE)
            &&& outcome.context.state == start.state
        },
        hello.cipher_suite != SUPPORTED_CIPHER_SUITE ==> {
            let outcome = start.after_server_hello(hello.encoded());
            &&& outcome.result == Err::<(), _>(
                DtlsError::UnsupportedCipherSuite(hello.cipher_suite),
            )
            &&& outcome.context == (ContextView {
                state: start.state.spec_after(TransportEvent::HandshakeFailed),
                ..start
            })
            &&& outcome.context.state == DtlsState::Failed || start.state == DtlsState::Closed
        },
{
    server_hello_round_trip(hello);
}

/// A client takes a certificate chain without an expectation, or if the digest of
/// its first certificate is the expected one. Any other chain fails the handshake,
/// unless it has ended before, and its certificate is not kept.
pub proof fn fingerprint_binds_certificate(start: ContextView, chain: Seq<Seq<u8>>)
    requires
        chain_fits(chain),
        chain.len() > 0,
    ensures
        start.expected_fingerprint is None || start.expected_fingerprint == Some(
            sha256(chain[0]),
        ) ==> start.after_certificate(encoded_chain(chain)) == (ContextView {
            peer_certificate: Some(chain[0]),
            ..start
        }).accepted(),
        start.expected_fingerprint is Some && start.expected_fingerprint != Some(
            sha256(chain[0]),
        ) ==> {
            let outcome = start.after_certificate(encoded_chain(chain));
            &&& outcome.result == Err::<(), _>(DtlsError::FingerprintMismatch)
            &&& outcome.context == (ContextView {
                state: start.state.spec_after(TransportEvent::HandshakeFailed),
                ..start
            })
            &&& outcome.context.state == DtlsState::Failed || start.state == DtlsState::Closed
        },
{
    certificate_round_trip(chain);
}

/// One step of a handshake.
pub enum HandshakeStep {
    /// A client's hello is handled.
    ClientHello(Seq<u8>),
    /// A server's hello is handled.
    ServerHello(Seq<u8>),
    /// A certificate chain is handled.
    Certificate(Seq<u8>),
    /// A certificate chain whose first certificate has a digest is handled.
    CertificateWith(Seq<u8>, Seq<u8>),
    /// The digest of the peer's certificate is compared with the expected one.
    Fingerprint(Seq<u8>),
    /// A message or a fragment of one arrives.
    Received(HandshakeMessageView),
    /// A payload arrives.
    Processed(Seq<u8>),
}

/// What comes of one step.
pub open spec fn handshake_step(context: ContextView, step: HandshakeStep) -> Outcome {
    match step {
        HandshakeStep::ClientHello(body) => context.after_client_hello(body),
        HandshakeStep::ServerHello(body) => context.after_server_hello(body),
        HandshakeStep::Certificate(body) => context.after_certificate(body),
        HandshakeStep::CertificateWith(body, digest) => context.after_certificate_with(
            body,
            digest,
        ),
        HandshakeStep::Fingerprint(digest) => context.after_fingerprint(digest),
        HandshakeStep::Received(message) => context.received(message),
        HandshakeStep::Processed(payload) => context.processed(payload),
    }
}

/// The context after several steps, whether they succeed or not.
pub open spec fn handshake_run(start: ContextView, steps: Seq<HandshakeStep>) -> ContextView
    decreases steps.len(),
{
    if steps.len() == 0 {
        start
    } else {
        handshake_step(handshake_run(start, steps.drop_last()), steps.last()).context
    }
}

/// What a step keeps of the context before it.
#[verifier::opaque]
spec fn keeps(before: ContextView, after: ContextView) -> bool {
    &&& after.state == before.state || after.state == before.state.spec_after(
        TransportEvent::HandshakeFailed,
    )
    &&& before.early_are_distinct() ==> after.early_are_distinct()
}

proof fn lemma_drained_keeps(context: ContextView)
    ensures
        keeps(context, context.drained().context),
    decreases context.early.len(),
{
    reveal(keeps);
    if context.next_is_here() {
        lemma_position(context.early, context.recv_message_seq);
        let rest = context.without_next();
        let at = position(context.early, context.recv_message_seq);
        let outcome = rest.after_next(context.next_message());
        assert(rest.early.len() < context.early.len());
        assert(context.early_are_distinct() ==> rest.early_are_distinct()) by {
            assert forall|i: int, j: int|
                context.early_are_distinct() && 0 <= i < j < rest.early.len() implies (
            #[trigger] rest.early[i]).message_seq != (#[trigger] rest.early[j]).message_seq by {
                let k = if i < at { i } else { i + 1 };
                let l = if j < at { j } else { j + 1 };
                assert(rest.early[i] == context.early[k]);
                assert(rest.early[j] == context.early[l]);
            }
        }
        if outcome.result is Ok {
            lemma_drained_keeps(outcome.context);
        }
    }
}

proof fn lemma_delivered_keeps(context: ContextView, message: WholeMessageView)
    ensures
        keeps(context, context.delivered(message).context),
{
    reveal(keeps);
    if message.message_seq > context.recv_message_seq {
        lemma_position(context.early, message.message_seq as int);
    } else if message.message_seq == context.recv_message_seq {
        let outcome = context.after_next(message);
        if outcome.result is Ok {
            lemma_drained_keeps(outcome.context);
        }
    }
}

proof fn lemma_received_keeps(context: ContextView, message: HandshakeMessageView)
    ensures
        keeps(context, context.received(message).context),
{
    reveal(keeps);
    let len = message.total_length as nat;
    let at = message.fragment_offset as nat;
    if message.message_seq >= context.recv_message_seq {
        if message.is_whole() {
            lemma_delivered_keeps(
                context,
                WholeMessageView {
                    msg_type: message.msg_type,
                    message_seq: message.message_seq,
                    body: message.body,
                },
            );
        } else if let Ok(Some(body)) = context.reassembly.push_result(
            message.message_seq,
            len,
            at,
            message.body,
        ) {
            let reassembled = ContextView {
                reassembly: context.reassembly.after_push(
                    message.message_seq,
                    len,
                    at,
                    message.body,
                ),
                ..context
            };
            lemma_delivered_keeps(
                reassembled,
                WholeMessageView {
                    msg_type: message.msg_type,
                    message_seq: message.message_seq,
                    body,
                },
            );
        }
    }
}

proof fn lemma_processed_keeps(context: ContextView, payload: Seq<u8>)
    ensures
        keeps(context, context.processed(payload).context),
    decreases payload.len(),
{
    reveal(keeps);
    if has_handshake_message(payload) && exists|message: HandshakeMessageView|
        starts_with_message(payload, message) {
        let message = choose|message: HandshakeMessageView| starts_with_message(payload, message);
        let outcome = context.received(message);
        lemma_received_keeps(context, message);
        if outcome.result is Ok {
            lemma_processed_keeps(
                outcome.context,
                payload.skip(HANDSHAKE_HEADER_LEN + message.fragment_length),
            );
        }
    }
}

proof fn lemma_hello_keeps(context: ContextView, body: Seq<u8>)
    ensures
        keeps(context, context.after_client_hello(body).context),
        keeps(context, context.after_server_hello(body).context),
{
    reveal(keeps);
}

proof fn lemma_certificate_keeps(context: ContextView, body: Seq<u8>, digest: Seq<u8>)
    ensures
        keeps(context, context.after_certificate(body).context),
        keeps(context, context.after_certificate_with(body, digest).context),
        keeps(context, context.after_fingerprint(digest).context),
{
    reveal(keeps);
}

proof fn lemma_step_keeps(context: ContextView, step: HandshakeStep)
    ensures
        keeps(context, handshake_step(context, step).context),
{
    match step {
        HandshakeStep::ClientHello(body) => lemma_hello_keeps(context, body),
        HandshakeStep::ServerHello(body) => lemma_hello_keeps(context, body),
        HandshakeStep::Certificate(body) => lemma_certificate_keeps(context, body, seq![]),
        HandshakeStep::CertificateWith(body, digest) => lemma_certificate_keeps(
            context,
            body,
            digest,
        ),
        HandshakeStep::Fingerprint(digest) => lemma_certificate_keeps(context, seq![], digest),
        HandshakeStep::Received(message) => lemma_received_keeps(context, message),
        HandshakeStep::Processed(payload) => lemma_processed_keeps(context, payload),
    }
}

/// A handshake that has ended stays as it ended, whatever it is handed. One that has
/// not can only fail.
pub proof fn ended_handshake_stays_ended(start: ContextView, steps: Seq<HandshakeStep>)
    ensures
        start.state.is_over() ==> handshake_run(start, steps).state == start.state,
        handshake_run(start, steps).state == start.state || handshake_run(start, steps).state
            == DtlsState::Failed,
    decreases steps.len(),
{
    reveal(keeps);
    if steps.len() > 0 {
        ended_handshake_stays_ended(start, steps.drop_last());
        lemma_step_keeps(handshake_run(start, steps.drop_last()), steps.last());
    }
}

/// Whatever a handshake is handed, no two waiting messages share a sequence number.
pub proof fn waiting_messages_stay_distinct(start: ContextView, steps: Seq<HandshakeStep>)
    requires
        start.early_are_distinct(),
    ensures
        handshake_run(start, steps).early_are_distinct(),
    decreases steps.len(),
{
    reveal(keeps);
    if steps.len() > 0 {
        waiting_messages_stay_distinct(start, steps.drop_last());
        lemma_step_keeps(handshake_run(start, steps.drop_last()), steps.last());
    }
}

/// In a new handshake nothing waits.
pub proof fn new_handshake_has_nothing_waiting(
    is_client: bool,
    expected_fingerprint: Option<Seq<u8>>,
)
    ensures
        ContextView::initial(is_client, expected_fingerprint).early_are_distinct(),
        ContextView::initial(is_client, expected_fingerprint).early.len() == 0,
{
}

} // verus!
