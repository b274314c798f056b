//! Certificate (RFC 5246, section 7.4.2).

use bytes::BytesMut;

use vstd::prelude::*;
use vstd::slice::{slice_subrange, slice_to_vec};

use crate::transports::dtls::buffer::{be24, bytes_mut_contents, get24, put24, read24};
use crate::transports::dtls::buffer::{be24_of_read24, read24_of_be24};
use crate::transports::dtls::error::DtlsError;

verus! {

/// A Certificate message: a chain of certificates in DER, that of the sender
/// first.
#[derive(Debug, Clone)]
pub struct CertificateMessage {
    pub certificates: Vec<Vec<u8>>,
}

impl View for CertificateMessage {
    type V = Seq<Seq<u8>>;

    open spec fn view(&self) -> Seq<Seq<u8>> {
        self.certificates@.map_values(|certificate: Vec<u8>| certificate@)
    }
}

/// A certificate behind its length.
pub open spec fn entry(certificate: Seq<u8>) -> Seq<u8> {
    be24(certificate.len() as int) + certificate
}

/// The entries of a chain, one after another.
pub open spec fn entries(chain: Seq<Seq<u8>>) -> Seq<u8>
    decreases chain.len(),
{
    if chain.len() == 0 {
        seq![]
    } else {
        entry(chain[0]) + entries(chain.drop_first())
    }
}

/// Whether a chain fits its length field. Each certificate then fits its own.
pub open spec fn chain_fits(chain: Seq<Seq<u8>>) -> bool {
    entries(chain).len() < 0x1000000
}

/// A chain on the wire.
pub open spec fn encoded_chain(chain: Seq<Seq<u8>>) -> Seq<u8> {
    be24(entries(chain).len() as int) + entries(chain)
}

/// Whether `data` is this chain.
pub open spec fn is_chain(data: Seq<u8>, chain: Seq<Seq<u8>>) -> bool {
    chain_fits(chain) && data == encoded_chain(chain)
}

/// The chain that fills `data`, if it is one.
pub open spec fn chain_in(data: Seq<u8>) -> Option<Seq<Seq<u8>>> {
    if exists|chain: Seq<Seq<u8>>| is_chain(data, chain) {
        Some(choose|chain: Seq<Seq<u8>>| is_chain(data, chain))
    } else {
        None
    }
}

spec fn parse_entries(data: Seq<u8>) -> Option<Seq<Seq<u8>>>
    decreases data.len(),
{
    if data.len() == 0 {
        Some(seq![])
    } else if data.len() < 3 || data.len() < 3 + read24(data, 0) {
        None
    } else {
        match parse_entries(data.skip(3 + read24(data, 0))) {
            None => None,
            Some(rest) => Some(seq![data.subrange(3, 3 + read24(data, 0))] + rest),
        }
    }
}

/// What is parsed behind the certificates in `front`.
spec fn behind(front: Seq<Seq<u8>>, rest: Option<Seq<Seq<u8>>>) -> Option<Seq<Seq<u8>>> {
    match rest {
        None => None,
        Some(rest) => Some(front + rest),
    }
}

proof fn lemma_parsed_entries(data: Seq<u8>, chain: Seq<Seq<u8>>)
    requires
        parse_entries(data) == Some(chain),
    ensures
        entries(chain) == data,
    decreases data.len(),
{
    if data.len() != 0 {
        let len = read24(data, 0);
        let rest = parse_entries(data.skip(3 + len))->0;
        lemma_parsed_entries(data.skip(3 + len), rest);
        assert(chain.drop_first() =~= rest);
        be24_of_read24(data, 0);
        assert(data.take(3) =~= data.subrange(0, 3));
        assert(data =~= data.take(3) + data.subrange(3, 3 + len) + data.skip(3 + len));
    }
}

proof fn lemma_entries_parse(chain: Seq<Seq<u8>>)
    requires
        chain_fits(chain),
    ensures
        parse_entries(entries(chain)) == Some(chain),
    decreases chain.len(),
{
    if chain.len() != 0 {
        let data = entries(chain);
        let len = chain[0].len() as int;
        assert(data.subrange(0, 3) =~= be24(len));
        read24_of_be24(data, 0, len);
        assert(data.subrange(3, 3 + len) =~= chain[0]);
        assert(data.skip(3 + len) =~= entries(chain.drop_first()));
        lemma_entries_parse(chain.drop_first());
        assert(seq![chain[0]] + chain.drop_first() =~= chain);
    } else {
        assert(chain =~= seq![]);
    }
}

proof fn lemma_chain_parses(data: Seq<u8>, chain: Seq<Seq<u8>>)
    requires
        is_chain(data, chain),
    ensures
        data.len() >= 3,
        read24(data, 0) == data.len() - 3,
        parse_entries(data.skip(3)) == Some(chain),
{
    assert(data.subrange(0, 3) =~= be24(entries(chain).len() as int));
    read24_of_be24(data, 0, entries(chain).len() as int);
    assert(data.skip(3) =~= entries(chain));
    lemma_entries_parse(chain);
}

proof fn lemma_parsed_chain(data: Seq<u8>, chain: Seq<Seq<u8>>)
    requires
        data.len() >= 3,
        read24(data, 0) == data.len() - 3,
        parse_entries(data.skip(3)) == Some(chain),
    ensures
        is_chain(data, chain),
{
    lemma_parsed_entries(data.skip(3), chain);
    be24_of_read24(data, 0);
    assert(data.take(3) =~= data.subrange(0, 3));
    assert(data =~= data.take(3) + data.skip(3));
}

proof fn lemma_entries_of_longer_chain(chain: Seq<Seq<u8>>, certificate: Seq<u8>)
    ensures
        entries(chain.push(certificate)) == entries(chain) + entry(certificate),
    decreases chain.len(),
{
    let longer = chain.push(certificate);
    if chain.len() == 0 {
        assert(longer.drop_first() =~= seq![]);
        assert(entries(seq![]) =~= Seq::<u8>::empty());
        assert(entries(longer) =~= entry(certificate));
    } else {
        lemma_entries_of_longer_chain(chain.drop_first(), certificate);
        assert(longer.drop_first() =~= chain.drop_first().push(certificate));
        assert(entries(longer) =~= entries(chain) + entry(certificate));
    }
}

proof fn lemma_entries_of_prefix(chain: Seq<Seq<u8>>, n: int)
    requires
        0 <= n <= chain.len(),
    ensures
        entries(chain.take(n)).len() <= entries(chain).len(),
    decreases chain.len() - n,
{
    if n < chain.len() {
        lemma_entries_of_longer_chain(chain.take(n), chain[n]);
        assert(chain.take(n).push(chain[n]) =~= chain.take(n + 1));
        lemma_entries_of_prefix(chain, n + 1);
    } else {
        assert(chain.take(n) =~= chain);
    }
}

impl CertificateMessage {
    /// The number of bytes that the entries take.
    fn entries_len(&self) -> (len: u32)
        requires
            chain_fits(self@),
        ensures
            len == entries(self@).len(),
    {
        let mut len: u32 = 0;
        for i in 0..self.certificates.len()
            invariant
                chain_fits(self@),
                len == entries(self@.take(i as int)).len(),
        {
            proof {
                let chain = self@;
                assert(chain[i as int] == self.certificates@[i as int]@);
                lemma_entries_of_longer_chain(chain.take(i as int), chain[i as int]);
                assert(chain.take(i as int).push(chain[i as int]) =~= chain.take(i + 1));
                lemma_entries_of_prefix(chain, i + 1);
            }
            len += 3 + self.certificates[i].len() as u32;
        }
        assert(self@.take(self@.len() as int) =~= self@);
        len
    }

    /// Appends the message to `buf`.
    pub fn encode(&self, buf: &mut BytesMut)
        requires
            chain_fits(self@),
            bytes_mut_contents(*old(buf)).len() + encoded_chain(self@).len() <= isize::MAX / 2,
        ensures
            bytes_mut_contents(*final(buf)) == bytes_mut_contents(*old(buf)) + encoded_chain(self@),
    {
        let ghost before = bytes_mut_contents(*buf);
        let ghost chain = self@;
        put24(buf, self.entries_len());
        let ghost head = before + be24(entries(chain).len() as int);
        assert(bytes_mut_contents(*buf) =~= head + entries(chain.take(0)));
        for i in 0..self.certificates.len()
            invariant
                chain == self@,
                chain_fits(chain),
                head.len() + entries(chain).len() <= isize::MAX / 2,
                bytes_mut_contents(*buf) == head + entries(chain.take(i as int)),
        {
            proof {
                assert(chain[i as int] == self.certificates@[i as int]@);
                lemma_entries_of_longer_chain(chain.take(i as int), chain[i as int]);
                assert(chain.take(i as int).push(chain[i as int]) =~= chain.take(i + 1));
                lemma_entries_of_prefix(chain, i + 1);
            }
            put24(buf, self.certificates[i].len() as u32);
            buf.extend_from_slice(self.certificates[i].as_slice());
            assert(bytes_mut_contents(*buf) =~= head + entries(chain.take(i + 1)));
        }
        assert(chain.take(chain.len() as int) =~= chain);
        assert(bytes_mut_contents(*buf) =~= before + encoded_chain(chain));
    }

    /// Reads a message that fills `data`.
    pub fn decode(data: &[u8]) -> (result: Result<CertificateMessage, DtlsError>)
        ensures
            match result {
                Ok(message) => is_chain(data@, message@),
                Err(error) => {
                    &&& error == DtlsError::MalformedMessage
                    &&& forall|chain: Seq<Seq<u8>>| !is_chain(data@, chain)
                },
            },
    {
        proof {
            assert forall|chain: Seq<Seq<u8>>| is_chain(data@, chain) implies {
                &&& data@.len() >= 3
                &&& read24(data@, 0) == data@.len() - 3
                &&& parse_entries(data@.skip(3)) == Some(chain)
            } by {
                lemma_chain_parses(data@, chain);
            }
        }
        if data.len() < 3 || data.len() - 3 != get24(data, 0) as usize {
            return Err(DtlsError::MalformedMessage);
        }
        let mut certificates: Vec<Vec<u8>> = Vec::new();
        let mut at: usize = 3;
        let ghost read = certificates@.map_values(|certificate: Vec<u8>| certificate@);
        assert(behind(read, parse_entries(data@.skip(3))) =~~= parse_entries(data@.skip(3))) by {
            if let Some(rest) = parse_entries(data@.skip(3)) {
                assert(read + rest =~= rest);
            }
        }
        while at < data.len()
            invariant
                3 <= at <= data@.len(),
                read == certificates@.map_values(|certificate: Vec<u8>| certificate@),
                parse_entries(data@.skip(3)) == behind(read, parse_entries(data@.skip(at as int))),
                forall|chain: Seq<Seq<u8>>|
                    is_chain(data@, chain) ==> parse_entries(data@.skip(3)) == Some(chain),
            decreases data@.len() - at,
        {
            let ghost rest = data@.skip(at as int);
            if data.len() - at < 3 {
                return Err(DtlsError::MalformedMessage);
            }
            let len: usize = get24(data, at) as usize;
            assert(read24(rest, 0) == len);
            if data.len() - at - 3 < len {
                return Err(DtlsError::MalformedMessage);
            }
            let certificate: Vec<u8> = slice_to_vec(slice_subrange(data, at + 3, at + 3 + len));
            proof {
                assert(rest.subrange(3, 3 + len) =~= certificate@);
                assert(rest.skip(3 + len) =~= data@.skip(at + 3 + len));
                if let Some(tail) = parse_entries(rest.skip(3 + len)) {
                    assert(read + (seq![certificate@] + tail) =~= read.push(certificate@) + tail);
                }
            }
            certificates.push(certificate);
            proof {
                read = read.push(certificate@);
                assert(read =~= certificates@.map_values(|certificate: Vec<u8>| certificate@));
            }
            at += 3 + len;
        }
        let message: CertificateMessage = CertificateMessage { certificates };
        proof {
            assert(data@.skip(at as int) =~= seq![]);
            assert(read + Seq::<Seq<u8>>::empty() =~= read);
            lemma_parsed_chain(data@, message@);
        }
        Ok(message)
    }
}

/// A chain read from what was written is the one that was written.
pub proof fn certificate_round_trip(chain: Seq<Seq<u8>>)
    requires
        chain_fits(chain),
    ensures
        chain_in(encoded_chain(chain)) == Some(chain),
{
    assert(is_chain(encoded_chain(chain), chain));
    certificate_is_unambiguous(
        encoded_chain(chain),
        chain,
        choose|other: Seq<Seq<u8>>| is_chain(encoded_chain(chain), other),
    );
}

/// A message is at most one chain.
pub proof fn certificate_is_unambiguous(data: Seq<u8>, one: Seq<Seq<u8>>, other: Seq<Seq<u8>>)
    requires
        is_chain(data, one),
        is_chain(data, other),
    ensures
        one == other,
{
    lemma_chain_parses(data, one);
    lemma_chain_parses(data, other);
}

} // verus!
