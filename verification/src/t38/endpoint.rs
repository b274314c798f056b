//! Decisions of a fax endpoint.
//!
//! An endpoint owns a datagram transport and a codec. This module says what it
//! does with what they hand back; performing the actions is left to the caller.

use vstd::prelude::*;

use crate::errors::RtcResult;
use crate::t38::ifp::IfpPacket;

verus! {

/// How long the receive loop rests when there is nothing to read.
pub const RECV_IDLE_MILLIS: u64 = 5;

/// What the receive loop of an endpoint learns.
#[derive(Debug)]
pub enum FaxInput {
    /// The transport was polled: a payload, nothing to read yet, or an error.
    Polled(RtcResult<Option<Vec<u8>>>),
    /// A payload was handed to the IFP decoder.
    Decoded(RtcResult<IfpPacket>),
}

/// What the receive loop of an endpoint does next.
#[derive(Debug)]
pub enum FaxAction {
    /// Poll the transport.
    Poll,
    /// Decode this payload.
    Decode(Vec<u8>),
    /// Rest for so many milliseconds, then poll the transport.
    Rest(u64),
    /// Leave the loop with this result.
    Return(Option<IfpPacket>),
}

/// The next action of the receive loop: payloads are decoded, packets are
/// returned, payloads that do not decode are skipped, an idle transport is
/// polled again after a rest, and a transport error ends the loop without a
/// packet.
pub open spec fn recv_action(input: FaxInput) -> FaxAction {
    match input {
        FaxInput::Polled(Ok(Some(payload))) => FaxAction::Decode(payload),
        FaxInput::Polled(Ok(None)) => FaxAction::Rest(RECV_IDLE_MILLIS),
        FaxInput::Polled(Err(_)) => FaxAction::Return(None),
        FaxInput::Decoded(Ok(packet)) => FaxAction::Return(Some(packet)),
        FaxInput::Decoded(Err(_)) => FaxAction::Poll,
    }
}

/// The next action of the receive loop.
pub fn next_recv_action(input: FaxInput) -> (action: FaxAction)
    ensures
        action == recv_action(input),
{
    match input {
        FaxInput::Polled(Ok(Some(payload))) => FaxAction::Decode(payload),
        FaxInput::Polled(Ok(None)) => FaxAction::Rest(RECV_IDLE_MILLIS),
        FaxInput::Polled(Err(_)) => FaxAction::Return(None),
        FaxInput::Decoded(Ok(packet)) => FaxAction::Return(Some(packet)),
        FaxInput::Decoded(Err(_)) => FaxAction::Poll,
    }
}

/// What the receive loop returns when it learns these things one after another, or
/// `None` while it runs on.
pub open spec fn recv_result(inputs: Seq<FaxInput>) -> Option<Option<IfpPacket>>
    decreases inputs.len(),
{
    if inputs.len() == 0 {
        None
    } else {
        match recv_action(inputs[0]) {
            FaxAction::Return(result) => Some(result),
            _ => recv_result(inputs.drop_first()),
        }
    }
}

/// Whether the receive loop runs on: there was nothing to read, a payload is to be
/// decoded, or one could not be.
pub open spec fn runs_on(input: FaxInput) -> bool {
    input matches FaxInput::Polled(Ok(_)) || input matches FaxInput::Decoded(Err(_))
}

/// The receive loop returns the first packet that decodes, whatever idle times and
/// undecodable payloads come before it, unless the transport fails before that: then
/// it returns none. Nothing else ends it.
pub proof fn first_packet_is_returned(inputs: Seq<FaxInput>, n: int)
    requires
        0 <= n <= inputs.len(),
        forall|i: int| 0 <= i < n ==> runs_on(#[trigger] inputs[i]),
    ensures
        n == inputs.len() ==> recv_result(inputs) is None,
        n < inputs.len() && !runs_on(inputs[n]) ==> recv_result(inputs) == match inputs[n] {
            FaxInput::Decoded(Ok(packet)) => Some(Some(packet)),
            _ => Some(None),
        },
    decreases inputs.len(),
{
    if n > 0 {
        let rest = inputs.drop_first();
        assert(runs_on(inputs[0]));
        assert forall|i: int| 0 <= i < n - 1 implies runs_on(#[trigger] rest[i]) by {
            assert(rest[i] == inputs[i + 1]);
        }
        first_packet_is_returned(rest, n - 1);
    }
}

/// Every payload that the transport hands over is decoded, whatever it holds.
pub proof fn every_payload_is_decoded(payload: Vec<u8>)
    ensures
        recv_action(FaxInput::Polled(Ok(Some(payload)))) == FaxAction::Decode(payload),
{
}

/// Only an idle transport makes the loop rest, and then for five milliseconds.
pub proof fn only_idle_transport_makes_it_rest(input: FaxInput, millis: u64)
    ensures
        recv_action(input) == FaxAction::Rest(millis) <==> millis == 5 && (
        input matches FaxInput::Polled(Ok(None))),
{
}

/// Only a payload that does not decode is passed over, and then the transport is
/// polled at once.
pub proof fn only_undecodable_payload_is_passed_over(input: FaxInput)
    ensures
        recv_action(input) == FaxAction::Poll <==> (input matches FaxInput::Decoded(Err(_))),
{
}

/// The loop ends with a packet exactly if that packet was decoded, and without one
/// exactly if the transport failed.
pub proof fn only_packet_or_failure_ends_it(input: FaxInput, packet: IfpPacket)
    ensures
        recv_action(input) == FaxAction::Return(Some(packet)) <==> input == FaxInput::Decoded(
            Ok(packet),
        ),
        recv_action(input) == FaxAction::Return(None) <==> (input matches FaxInput::Polled(
            Err(_),
        )),
{
}

} // verus!
