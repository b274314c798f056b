//! Reassembly of fragmented handshake messages.
//!
//! A handshake message that does not fit a datagram arrives in fragments, in any
//! order and possibly more than once. One message is reassembled at a time.

use vstd::prelude::*;

use crate::transports::dtls::error::DtlsError;

verus! {

/// The longest handshake message that is reassembled, in bytes.
pub const MAX_HANDSHAKE_MESSAGE_LEN: u32 = 65536;

/// A message of which not all bytes have arrived.
#[derive(Debug)]
struct PartialMessage {
    message_seq: u16,
    body: Vec<Option<u8>>,
}

/// Collects the fragments of one handshake message at a time.
#[derive(Debug)]
pub struct HandshakeReassembly {
    partial: Option<PartialMessage>,
}

/// The contents of a message under reassembly: the bytes that have arrived.
#[verifier::ext_equal]
pub struct PartialView {
    pub message_seq: u16,
    pub body: Seq<Option<u8>>,
}

/// The contents of a [`HandshakeReassembly`].
#[verifier::ext_equal]
pub struct ReassemblyView {
    pub partial: Option<PartialView>,
}

impl View for HandshakeReassembly {
    type V = ReassemblyView;

    closed spec fn view(&self) -> ReassemblyView {
        ReassemblyView {
            partial: match self.partial {
                Some(partial) => Some(
                    PartialView { message_seq: partial.message_seq, body: partial.body@ },
                ),
                None => None,
            },
        }
    }
}

/// A message body of which nothing has arrived.
pub open spec fn nothing_of(total_length: nat) -> Seq<Option<u8>> {
    Seq::new(total_length, |i: int| None::<u8>)
}

/// A message body after one more fragment.
pub open spec fn with_fragment(body: Seq<Option<u8>>, offset: int, fragment: Seq<u8>) -> Seq<
    Option<u8>,
> {
    Seq::new(
        body.len(),
        |i: int|
            if offset <= i < offset + fragment.len() {
                Some(fragment[i - offset])
            } else {
                body[i]
            },
    )
}

/// Whether every byte of a message body has arrived.
pub open spec fn is_complete(body: Seq<Option<u8>>) -> bool {
    forall|i: int| 0 <= i < body.len() ==> (#[trigger] body[i]) is Some
}

/// The bytes of a complete message body.
pub open spec fn assembled(body: Seq<Option<u8>>) -> Seq<u8> {
    Seq::new(body.len(), |i: int| body[i]->0)
}

/// A fragment was accepted and more are awaited.
pub open spec fn incomplete() -> Result<Option<Seq<u8>>, DtlsError> {
    Ok(None)
}

/// A fragment was accepted and completes `message`.
pub open spec fn complete(message: Seq<u8>) -> Result<Option<Seq<u8>>, DtlsError> {
    Ok(Some(message))
}

impl ReassemblyView {
    /// No message is under reassembly.
    pub open spec fn idle() -> Self {
        ReassemblyView { partial: None }
    }

    /// What is known of a message: the bytes of it that arrived, or none if
    /// another message, or none, is under reassembly.
    pub open spec fn known(self, message_seq: u16, total_length: nat) -> Seq<Option<u8>> {
        match self.partial {
            Some(partial) if partial.message_seq == message_seq => partial.body,
            _ => nothing_of(total_length),
        }
    }

    /// Why a fragment is refused, if it is.
    pub open spec fn refusal(
        self,
        message_seq: u16,
        total_length: nat,
        offset: nat,
        len: nat,
    ) -> Option<DtlsError> {
        if total_length > MAX_HANDSHAKE_MESSAGE_LEN {
            Some(DtlsError::MessageTooLong)
        } else if offset + len > total_length {
            Some(DtlsError::FragmentOverrun)
        } else if self.known(message_seq, total_length).len() != total_length {
            Some(DtlsError::TotalLengthChanged)
        } else {
            None
        }
    }

    /// The message body with a fragment that is not refused.
    pub open spec fn joined(
        self,
        message_seq: u16,
        total_length: nat,
        offset: nat,
        fragment: Seq<u8>,
    ) -> Seq<Option<u8>> {
        with_fragment(self.known(message_seq, total_length), offset as int, fragment)
    }

    /// What pushing a fragment returns: the message once it is complete.
    pub open spec fn push_result(
        self,
        message_seq: u16,
        total_length: nat,
        offset: nat,
        fragment: Seq<u8>,
    ) -> Result<Option<Seq<u8>>, DtlsError> {
        match self.refusal(message_seq, total_length, offset, fragment.len()) {
            Some(error) => Err(error),
            None => {
                let body = self.joined(message_seq, total_length, offset, fragment);
                if is_complete(body) {
                    complete(assembled(body))
                } else {
                    incomplete()
                }
            },
        }
    }

    /// The reassembly after a fragment was pushed. A refused fragment changes
    /// nothing, a completed message leaves the reassembly idle, and a fragment of
    /// another message drops what was there.
    pub open spec fn after_push(
        self,
        message_seq: u16,
        total_length: nat,
        offset: nat,
        fragment: Seq<u8>,
    ) -> Self {
        match self.push_result(message_seq, total_length, offset, fragment) {
            Err(_) => self,
            Ok(Some(_)) => Self::idle(),
            Ok(None) => ReassemblyView {
                partial: Some(
                    PartialView {
                        message_seq,
                        body: self.joined(message_seq, total_length, offset, fragment),
                    },
                ),
            },
        }
    }
}

/// A result with the returned message taken by its contents.
pub open spec fn result_view(result: Result<Option<Vec<u8>>, DtlsError>) -> Result<
    Option<Seq<u8>>,
    DtlsError,
> {
    match result {
        Ok(Some(body)) => Ok(Some(body@)),
        Ok(None) => Ok(None),
        Err(error) => Err(error),
    }
}

impl Default for HandshakeReassembly {
    /// An idle reassembly.
    fn default() -> (reassembly: Self)
        ensures
            reassembly@ == ReassemblyView::idle(),
    {
        HandshakeReassembly { partial: None }
    }
}

/// The message, if every byte of it has arrived.
fn finished(body: &Vec<Option<u8>>) -> (message: Option<Vec<u8>>)
    ensures
        match message {
            Some(bytes) => is_complete(body@) && bytes@ == assembled(body@),
            None => !is_complete(body@),
        },
{
    let mut bytes: Vec<u8> = Vec::new();
    for i in 0..body.len()
        invariant
            bytes@.len() == i,
            forall|j: int| 0 <= j < i ==> (#[trigger] body@[j]) is Some && bytes@[j] == body@[j]->0,
    {
        match body[i] {
            Some(byte) => bytes.push(byte),
            None => return None,
        }
    }
    assert(bytes@ =~= assembled(body@));
    Some(bytes)
}

impl HandshakeReassembly {
    /// Adds a fragment of message `message_seq`, which is `total_length` bytes
    /// long, at `fragment_offset`. Returns the message when this completes it.
    pub fn push(
        &mut self,
        message_seq: u16,
        total_length: u32,
        fragment_offset: u32,
        fragment: &[u8],
    ) -> (result: Result<Option<Vec<u8>>, DtlsError>)
        ensures
            result_view(result) == old(self)@.push_result(
                message_seq,
                total_length as nat,
                fragment_offset as nat,
                fragment@,
            ),
            final(self)@ == old(self)@.after_push(
                message_seq,
                total_length as nat,
                fragment_offset as nat,
                fragment@,
            ),
    {
        let total: usize = total_length as usize;
        let offset: usize = fragment_offset as usize;
        if total_length > MAX_HANDSHAKE_MESSAGE_LEN {
            return Err(DtlsError::MessageTooLong);
        }
        if offset > total || fragment.len() > total - offset {
            return Err(DtlsError::FragmentOverrun);
        }
        let ghost known = self@.known(message_seq, total_length as nat);
        let resumed: bool = match &self.partial {
            Some(partial) => partial.message_seq == message_seq,
            None => false,
        };
        let mut body: Vec<Option<u8>> = match self.partial.take() {
            Some(partial) if resumed => {
                if partial.body.len() != total {
                    self.partial = Some(partial);
                    return Err(DtlsError::TotalLengthChanged);
                }
                partial.body
            },
            _ => vec![None; total],
        };
        assert(body@ =~= known);
        let mut i: usize = 0;
        while i < fragment.len()
            invariant
                i <= fragment@.len(),
                offset + fragment@.len() <= total,
                body@.len() == total,
                known.len() == total,
                body@ =~= with_fragment(known, offset as int, fragment@.take(i as int)),
            decreases fragment@.len() - i,
        {
            body.set(offset + i, Some(fragment[i]));
            i += 1;
            assert(body@ =~= with_fragment(known, offset as int, fragment@.take(i as int)));
        }
        assert(fragment@.take(i as int) =~= fragment@);
        match finished(&body) {
            Some(message) => {
                self.partial = None;
                Ok(Some(message))
            },
            None => {
                self.partial = Some(PartialMessage { message_seq, body });
                Ok(None)
            },
        }
    }
}

} // verus!
