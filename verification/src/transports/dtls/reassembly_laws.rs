//! Laws of handshake reassembly.

use vstd::prelude::*;

use crate::transports::dtls::error::DtlsError;
use crate::transports::dtls::reassembly::{
    MAX_HANDSHAKE_MESSAGE_LEN, ReassemblyView,
};
use crate::transports::dtls::reassembly::{
    assembled, complete, incomplete, is_complete, nothing_of, result_view, with_fragment,
};

verus! {

/// Where a fragment lies in its message.
pub struct Part {
    pub offset: nat,
    pub len: nat,
}

/// The bytes of `message` that a fragment carries.
pub open spec fn carried(message: Seq<u8>, part: Part) -> Seq<u8> {
    message.subrange(part.offset as int, (part.offset + part.len) as int)
}

/// Whether every fragment lies inside a message of `len` bytes.
pub open spec fn within(parts: Seq<Part>, len: nat) -> bool {
    forall|k: int| 0 <= k < parts.len() ==> (#[trigger] parts[k]).offset + parts[k].len <= len
}

/// Whether one of the fragments carries byte `i`.
pub open spec fn covered(parts: Seq<Part>, i: int) -> bool {
    exists|k: int|
        0 <= k < parts.len() && (#[trigger] parts[k]).offset <= i < parts[k].offset + parts[k].len
}

/// Whether the fragments together carry every byte of a message of `len` bytes.
pub open spec fn cover(parts: Seq<Part>, len: nat) -> bool {
    forall|i: int| 0 <= i < len ==> #[trigger] covered(parts, i)
}

/// The reassembly after fragments of `message` were pushed one after another.
pub open spec fn fed(
    start: ReassemblyView,
    message_seq: u16,
    message: Seq<u8>,
    parts: Seq<Part>,
) -> ReassemblyView
    decreases parts.len(),
{
    if parts.len() == 0 {
        start
    } else {
        let part = parts.last();
        fed(start, message_seq, message, parts.drop_last()).after_push(
            message_seq,
            message.len(),
            part.offset,
            carried(message, part),
        )
    }
}

/// The bytes of `message` that the fragments carry.
spec fn arrived(message: Seq<u8>, parts: Seq<Part>) -> Seq<Option<u8>> {
    Seq::new(
        message.len(),
        |i: int|
            if covered(parts, i) {
                Some(message[i])
            } else {
                None
            },
    )
}

proof fn lemma_covered_push(parts: Seq<Part>, i: int)
    requires
        parts.len() > 0,
    ensures
        covered(parts, i) <==> covered(parts.drop_last(), i) || parts.last().offset <= i
            < parts.last().offset + parts.last().len,
{
    let earlier = parts.drop_last();
    if covered(parts, i) {
        let k = choose|k: int|
            0 <= k < parts.len() && (#[trigger] parts[k]).offset <= i < parts[k].offset
                + parts[k].len;
        if k < earlier.len() {
            assert(earlier[k] == parts[k]);
        }
    }
    if covered(earlier, i) {
        let k = choose|k: int|
            0 <= k < earlier.len() && (#[trigger] earlier[k]).offset <= i < earlier[k].offset
                + earlier[k].len;
        assert(parts[k] == earlier[k]);
    }
    let last = parts.len() - 1;
    assert(parts[last] == parts.last());
}

proof fn lemma_joined(message: Seq<u8>, parts: Seq<Part>)
    requires
        parts.len() > 0,
        within(parts, message.len()),
    ensures
        with_fragment(
            arrived(message, parts.drop_last()),
            parts.last().offset as int,
            carried(message, parts.last()),
        ) == arrived(message, parts),
        is_complete(arrived(message, parts)) <==> cover(parts, message.len()),
{
    let last = parts.last();
    assert(parts[parts.len() - 1] == last);
    let joined = with_fragment(
        arrived(message, parts.drop_last()),
        last.offset as int,
        carried(message, last),
    );
    let body = arrived(message, parts);
    assert forall|i: int| 0 <= i < message.len() implies joined[i] == body[i] by {
        lemma_covered_push(parts, i);
    }
    assert(joined =~= body);
    if is_complete(body) {
        assert forall|i: int| 0 <= i < message.len() implies #[trigger] covered(parts, i) by {
            assert(body[i] is Some);
        }
    }
    if cover(parts, message.len()) {
        assert forall|i: int| 0 <= i < body.len() implies (#[trigger] body[i]) is Some by {
            assert(covered(parts, i));
        }
    }
}

proof fn lemma_fed(start: ReassemblyView, message_seq: u16, message: Seq<u8>, parts: Seq<Part>)
    requires
        start.known(message_seq, message.len()) == nothing_of(message.len()),
        message.len() <= MAX_HANDSHAKE_MESSAGE_LEN,
        within(parts, message.len()),
        parts.len() > 0 ==> !cover(parts, message.len()),
    ensures
        fed(start, message_seq, message, parts).known(message_seq, message.len()) == arrived(
            message,
            parts,
        ),
    decreases parts.len(),
{
    if parts.len() == 0 {
        assert(arrived(message, parts) =~= nothing_of(message.len()));
    } else {
        let earlier = parts.drop_last();
        assert forall|k: int| 0 <= k < earlier.len() implies (#[trigger] earlier[k]).offset
            + earlier[k].len <= message.len() by {
            assert(parts[k] == earlier[k]);
        }
        if cover(earlier, message.len()) {
            assert forall|i: int| 0 <= i < message.len() implies #[trigger] covered(parts, i) by {
                assert(covered(earlier, i));
                lemma_covered_push(parts, i);
            }
        }
        lemma_fed(start, message_seq, message, earlier);
        lemma_joined(message, parts);
        assert(parts[parts.len() - 1] == parts.last());
    }
}

/// Fragments may arrive in any order, overlap and be repeated: as soon as they
/// cover the message, and no sooner, the push returns it, and then it is byte for
/// byte the message that was sent.
pub proof fn completes_in_any_order(
    start: ReassemblyView,
    message_seq: u16,
    message: Seq<u8>,
    parts: Seq<Part>,
)
    requires
        start.known(message_seq, message.len()) == nothing_of(message.len()),
        message.len() <= MAX_HANDSHAKE_MESSAGE_LEN,
        within(parts, message.len()),
        parts.len() > 0,
        parts.len() > 1 ==> !cover(parts.drop_last(), message.len()),
    ensures
        fed(start, message_seq, message, parts.drop_last()).push_result(
            message_seq,
            message.len(),
            parts.last().offset,
            carried(message, parts.last()),
        ) == if cover(parts, message.len()) {
            complete(message)
        } else {
            incomplete()
        },
{
    let earlier = parts.drop_last();
    assert forall|k: int| 0 <= k < earlier.len() implies (#[trigger] earlier[k]).offset
        + earlier[k].len <= message.len() by {
        assert(parts[k] == earlier[k]);
    }
    assert(parts[parts.len() - 1] == parts.last());
    lemma_fed(start, message_seq, message, earlier);
    lemma_joined(message, parts);
    if cover(parts, message.len()) {
        let body = arrived(message, parts);
        assert forall|i: int| 0 <= i < message.len() implies body[i]->0 == message[i] by {
            assert(covered(parts, i));
        }
        assert(assembled(body) =~= message);
    }
}

/// A message cut in two at `split` is complete when its second piece arrives,
/// whichever of the two comes first.
pub proof fn two_fragments_complete(
    start: ReassemblyView,
    message_seq: u16,
    message: Seq<u8>,
    split: nat,
)
    requires
        start.known(message_seq, message.len()) == nothing_of(message.len()),
        message.len() <= MAX_HANDSHAKE_MESSAGE_LEN,
        0 < split < message.len(),
    ensures
        ({
            let len = message.len();
            let head = message.take(split as int);
            let tail = message.skip(split as int);
            &&& start.push_result(message_seq, len, 0, head) == incomplete()
            &&& start.after_push(message_seq, len, 0, head).push_result(
                message_seq,
                len,
                split,
                tail,
            ) == complete(message)
            &&& start.push_result(message_seq, len, split, tail) == incomplete()
            &&& start.after_push(message_seq, len, split, tail).push_result(
                message_seq,
                len,
                0,
                head,
            ) == complete(message)
        }),
{
    let head = Part { offset: 0, len: split };
    let tail = Part { offset: split, len: (message.len() - split) as nat };
    assert(carried(message, head) =~= message.take(split as int));
    assert(carried(message, tail) =~= message.skip(split as int));
    lemma_pair(start, message_seq, message, head, tail);
    lemma_pair(start, message_seq, message, tail, head);
}

proof fn lemma_pair(
    start: ReassemblyView,
    message_seq: u16,
    message: Seq<u8>,
    first: Part,
    second: Part,
)
    requires
        start.known(message_seq, message.len()) == nothing_of(message.len()),
        message.len() <= MAX_HANDSHAKE_MESSAGE_LEN,
        0 < first.len,
        0 < second.len,
        first.len + second.len == message.len(),
        first.offset == 0 && second.offset == first.len || second.offset == 0 && first.offset
            == second.len,
    ensures
        start.push_result(message_seq, message.len(), first.offset, carried(message, first)) == incomplete(),
        start.after_push(
            message_seq,
            message.len(),
            first.offset,
            carried(message, first),
        ).push_result(message_seq, message.len(), second.offset, carried(message, second)) == complete(message),
{
    let one = seq![first];
    let both = seq![first, second];
    assert(one.drop_last() =~= Seq::empty());
    assert(both.drop_last() =~= one);
    assert(!covered(one, second.offset as int));
    assert(!cover(one, message.len()));
    assert forall|i: int| 0 <= i < message.len() implies #[trigger] covered(both, i) by {
        assert(both[0] == first && both[1] == second);
    }
    reveal_with_fuel(fed, 2);
    completes_in_any_order(start, message_seq, message, one);
    completes_in_any_order(start, message_seq, message, both);
}

/// A fragment that arrives again changes nothing.
pub proof fn duplicates_are_ignored(
    state: ReassemblyView,
    message_seq: u16,
    total_length: nat,
    offset: nat,
    fragment: Seq<u8>,
)
    requires
        state.push_result(message_seq, total_length, offset, fragment) == incomplete(),
    ensures
        ({
            let once = state.after_push(message_seq, total_length, offset, fragment);
            &&& once.push_result(message_seq, total_length, offset, fragment) == incomplete()
            &&& once.after_push(message_seq, total_length, offset, fragment) == once
        }),
{
    let once = state.after_push(message_seq, total_length, offset, fragment);
    assert(once.joined(message_seq, total_length, offset, fragment) =~= once.known(
        message_seq,
        total_length,
    ));
}

/// A fragment of another message starts a fresh reassembly: it is treated as if
/// nothing had been pushed before.
pub proof fn other_message_starts_afresh(
    state: ReassemblyView,
    message_seq: u16,
    total_length: nat,
    offset: nat,
    fragment: Seq<u8>,
)
    requires
        state.partial matches Some(partial) && partial.message_seq != message_seq,
        state.refusal(message_seq, total_length, offset, fragment.len()) is None,
    ensures
        state.push_result(message_seq, total_length, offset, fragment)
            == ReassemblyView::idle().push_result(message_seq, total_length, offset, fragment),
        state.after_push(message_seq, total_length, offset, fragment)
            == ReassemblyView::idle().after_push(message_seq, total_length, offset, fragment),
{
}

/// A message that changes its length half-way is refused, and what has arrived of
/// it is kept.
pub proof fn total_length_is_fixed(
    state: ReassemblyView,
    message_seq: u16,
    total_length: nat,
    offset: nat,
    fragment: Seq<u8>,
)
    requires
        state.partial matches Some(partial) && partial.message_seq == message_seq
            && partial.body.len() != total_length,
    ensures
        state.push_result(message_seq, total_length, offset, fragment) is Err,
        state.after_push(message_seq, total_length, offset, fragment) == state,
{
}

/// No more is ever held than the longest message that is accepted.
pub proof fn memory_is_bounded(
    state: ReassemblyView,
    message_seq: u16,
    total_length: nat,
    offset: nat,
    fragment: Seq<u8>,
)
    requires
        state.partial matches Some(partial) ==> partial.body.len() <= MAX_HANDSHAKE_MESSAGE_LEN,
    ensures
        state.after_push(message_seq, total_length, offset, fragment).partial matches Some(partial)
            ==> partial.body.len() <= MAX_HANDSHAKE_MESSAGE_LEN,
{
}

/// A fragment is refused exactly if its message is too long, if it reaches past the
/// end of its message, or if the message had another length before. A refused fragment
/// changes nothing.
pub proof fn refused_iff_out_of_bounds(
    state: ReassemblyView,
    message_seq: u16,
    total_length: nat,
    offset: nat,
    fragment: Seq<u8>,
)
    ensures
        ({
            let result = state.push_result(message_seq, total_length, offset, fragment);
            let too_long = total_length > MAX_HANDSHAKE_MESSAGE_LEN;
            let overrun = offset + fragment.len() > total_length;
            let changed = state.partial matches Some(partial) && partial.message_seq == message_seq
                && partial.body.len() != total_length;
            &&& result is Err <==> too_long || overrun || changed
            &&& result == Err::<Option<Seq<u8>>, _>(DtlsError::MessageTooLong) <==> too_long
            &&& result == Err::<Option<Seq<u8>>, _>(DtlsError::FragmentOverrun) <==> !too_long
                && overrun
            &&& result == Err::<Option<Seq<u8>>, _>(DtlsError::TotalLengthChanged) <==> !too_long
                && !overrun && changed
            &&& result is Err ==> state.after_push(message_seq, total_length, offset, fragment)
                == state
        }),
{
}

/// The byte of a message that is known after a fragment: that of the fragment where it
/// lies, and elsewhere what was known of the same message before.
pub open spec fn byte_after(
    state: ReassemblyView,
    message_seq: u16,
    offset: nat,
    fragment: Seq<u8>,
    i: int,
) -> Option<u8> {
    if offset <= i < offset + fragment.len() {
        Some(fragment[i - offset])
    } else if state.partial matches Some(partial) && partial.message_seq == message_seq {
        state.partial->0.body[i]
    } else {
        None
    }
}

/// A fragment that is not refused adds its bytes to what is known of its message. Once
/// every byte is known, and not before, the message is returned and nothing is held
/// any more.
pub proof fn bytes_are_remembered_until_all_are_known(
    state: ReassemblyView,
    message_seq: u16,
    total_length: nat,
    offset: nat,
    fragment: Seq<u8>,
)
    requires
        state.push_result(message_seq, total_length, offset, fragment) is Ok,
    ensures
        ({
            let result = state.push_result(message_seq, total_length, offset, fragment);
            let after = state.after_push(message_seq, total_length, offset, fragment);
            let all_known = forall|i: int|
                0 <= i < total_length ==> (#[trigger] byte_after(
                    state,
                    message_seq,
                    offset,
                    fragment,
                    i,
                )) is Some;
            &&& result is Ok && (result->Ok_0 is Some <==> all_known)
            &&& result matches Ok(Some(message)) ==> {
                &&& after.partial is None
                &&& message.len() == total_length
                &&& forall|i: int|
                    0 <= i < total_length ==> byte_after(state, message_seq, offset, fragment, i)
                        == Some(#[trigger] message[i])
            }
            &&& result matches Ok(None) ==> {
                &&& after.partial matches Some(partial) && partial.message_seq == message_seq
                    && partial.body.len() == total_length && forall|i: int|
                    0 <= i < total_length ==> #[trigger] partial.body[i] == byte_after(
                        state,
                        message_seq,
                        offset,
                        fragment,
                        i,
                    )
            }
        }),
{
    let body = state.joined(message_seq, total_length, offset, fragment);
    assert forall|i: int| 0 <= i < total_length implies #[trigger] body[i] == byte_after(
        state,
        message_seq,
        offset,
        fragment,
        i,
    ) by {}
    assert(body.len() == total_length);
    if is_complete(body) {
        assert forall|i: int| 0 <= i < total_length implies (#[trigger] byte_after(
            state,
            message_seq,
            offset,
            fragment,
            i,
        )) is Some by {
            assert(body[i] is Some);
        }
    } else {
        let i = choose|i: int| 0 <= i < body.len() && !((#[trigger] body[i]) is Some);
        assert(byte_after(state, message_seq, offset, fragment, i) is None);
    }
}

/// Fragments in any order complete a message of which nothing was there: as soon as
/// they cover it, and no sooner, and byte for byte.
pub proof fn message_completes_from_scratch(
    start: ReassemblyView,
    message_seq: u16,
    message: Seq<u8>,
    parts: Seq<Part>,
)
    requires
        start.partial matches Some(partial) ==> partial.message_seq != message_seq,
        message.len() <= MAX_HANDSHAKE_MESSAGE_LEN,
        within(parts, message.len()),
        parts.len() > 0,
        parts.len() > 1 ==> !cover(parts.drop_last(), message.len()),
    ensures
        ({
            let result = fed(start, message_seq, message, parts.drop_last()).push_result(
                message_seq,
                message.len(),
                parts.last().offset,
                carried(message, parts.last()),
            );
            &&& result is Ok
            &&& cover(parts, message.len()) ==> result->Ok_0 == Some(message)
            &&& !cover(parts, message.len()) ==> result->Ok_0 is None
        }),
{
    assert(start.known(message_seq, message.len()) == nothing_of(message.len()));
    completes_in_any_order(start, message_seq, message, parts);
}

/// A result is seen as what it holds.
pub proof fn result_is_seen_as_it_is(result: Result<Option<Vec<u8>>, DtlsError>)
    ensures
        match result {
            Ok(Some(message)) => result_view(result) == complete(message@) && result_view(result)
                == Ok::<Option<Seq<u8>>, DtlsError>(Some(message@)),
            Ok(None) => result_view(result) is Ok && result_view(result)->Ok_0 is None,
            Err(error) => result_view(result) == Err::<Option<Seq<u8>>, DtlsError>(error),
        },
{
}

/// A message as long as a record can be, and more, is reassembled.
pub proof fn longest_message_is_longer_than_a_record()
    ensures
        MAX_HANDSHAKE_MESSAGE_LEN == 0x10000,
{
}

} // verus!
