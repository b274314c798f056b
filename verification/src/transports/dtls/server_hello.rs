//! ServerHello (RFC 5246, section 7.4.1.3).

use bytes::BytesMut;

use vstd::prelude::*;

use crate::transports::dtls::buffer::{be16, bytes_mut_contents, get16, put16, put8, read16};
use crate::transports::dtls::buffer::read16_of_be16;
use crate::transports::dtls::error::DtlsError;
use crate::transports::dtls::hello::{ends_with_extensions, extension_block, get_extensions};
use crate::transports::dtls::hello::{read_extensions, read_extensions_iff_written};
use crate::transports::dtls::hello::{HELLO_PREFIX_LEN, Random};
use crate::transports::dtls::record::ProtocolVersion;
use crate::transports::dtls::vector::{get_vector8, put_vector16, put_vector8};
use crate::transports::dtls::vector::{read_vector8, read_vector8_iff_written, vector8};

verus! {

/// A ServerHello.
#[derive(Debug, Clone)]
pub struct ServerHello {
    pub version: ProtocolVersion,
    pub random: Random,
    pub session_id: Vec<u8>,
    pub cipher_suite: u16,
    pub compression_method: u8,
    /// The extensions, encoded one after another.
    pub extensions: Vec<u8>,
}

/// The contents of a [`ServerHello`].
#[verifier::ext_equal]
pub struct ServerHelloView {
    pub version: ProtocolVersion,
    pub random: Seq<u8>,
    pub session_id: Seq<u8>,
    pub cipher_suite: u16,
    pub compression_method: u8,
    pub extensions: Seq<u8>,
}

impl View for ServerHello {
    type V = ServerHelloView;

    open spec fn view(&self) -> ServerHelloView {
        ServerHelloView {
            version: self.version,
            random: self.random.bytes@,
            session_id: self.session_id@,
            cipher_suite: self.cipher_suite,
            compression_method: self.compression_method,
            extensions: self.extensions@,
        }
    }
}

impl ServerHelloView {
    /// Whether every part fits its length field.
    pub open spec fn fits(self) -> bool {
        &&& self.random.len() == 32
        &&& self.session_id.len() < 0x100
        &&& self.extensions.len() < 0x10000
    }

    /// The hello on the wire, up to the extensions.
    pub open spec fn encoded_head(self) -> Seq<u8> {
        seq![self.version.major, self.version.minor] + self.random + vector8(self.session_id)
            + be16(self.cipher_suite as int) + seq![self.compression_method]
    }

    /// The hello on the wire.
    pub open spec fn encoded(self) -> Seq<u8> {
        self.encoded_head() + extension_block(self.extensions)
    }

    /// Whether `data` is this hello. Its extensions, if there are none, may be
    /// left out or be written as a vector of length zero.
    pub open spec fn is_read_from(self, data: Seq<u8>) -> bool {
        &&& self.fits()
        &&& data.len() >= self.encoded_head().len()
        &&& data.take(self.encoded_head().len() as int) == self.encoded_head()
        &&& ends_with_extensions(data.skip(self.encoded_head().len() as int), self.extensions)
    }
}

/// The ServerHello that fills `data`, if it is one.
pub open spec fn server_hello_in(data: Seq<u8>) -> Option<ServerHelloView> {
    if exists|hello: ServerHelloView| hello.is_read_from(data) {
        Some(choose|hello: ServerHelloView| hello.is_read_from(data))
    } else {
        None
    }
}

spec fn parse_server_hello(data: Seq<u8>) -> Option<ServerHelloView> {
    if data.len() < HELLO_PREFIX_LEN {
        None
    } else {
        match read_vector8(data, HELLO_PREFIX_LEN as int) {
            None => None,
            Some(session_id) => {
                let at = HELLO_PREFIX_LEN + 1 + session_id.len();
                if data.len() < at + 3 {
                    None
                } else {
                    match read_extensions(data, at + 3) {
                        None => None,
                        Some(extensions) => Some(
                            ServerHelloView {
                                version: ProtocolVersion { major: data[0], minor: data[1] },
                                random: data.subrange(2, HELLO_PREFIX_LEN as int),
                                session_id,
                                cipher_suite: read16(data, at) as u16,
                                compression_method: data[at + 2],
                                extensions,
                            },
                        ),
                    }
                }
            },
        }
    }
}

proof fn lemma_parsed_server_hello(data: Seq<u8>, hello: ServerHelloView)
    ensures
        parse_server_hello(data) == Some(hello) ==> hello.is_read_from(data),
{
    if parse_server_hello(data) == Some(hello) {
        let at = HELLO_PREFIX_LEN + 1 + hello.session_id.len();
        let head = hello.encoded_head();
        read_vector8_iff_written(data, HELLO_PREFIX_LEN as int, hello.session_id);
        read_extensions_iff_written(data, at + 3, hello.extensions);
        assert(data.subrange(HELLO_PREFIX_LEN as int, at) == vector8(hello.session_id));
        assert(head.len() == at + 3);
        assert(data.take(at + 3) =~= data.take(2) + data.subrange(2, 34) + data.subrange(34, at)
            + data.subrange(at, at + 2) + data.subrange(at + 2, at + 3));
        assert(data.take(2) =~= seq![hello.version.major, hello.version.minor]);
        assert(data.subrange(at, at + 2) =~= be16(hello.cipher_suite as int));
        assert(data.subrange(at + 2, at + 3) =~= seq![hello.compression_method]);
    }
}

proof fn lemma_server_hello_parses(data: Seq<u8>, hello: ServerHelloView)
    requires
        hello.is_read_from(data),
    ensures
        parse_server_hello(data) == Some(hello),
{
    let at = HELLO_PREFIX_LEN + 1 + hello.session_id.len();
    let head = hello.encoded_head();
    assert(head.len() == at + 3);
    assert(forall|i: int| 0 <= i < at + 3 ==> data[i] == data.take(at + 3)[i]);
    assert(data.subrange(2, 34) =~= hello.random);
    assert(data.subrange(34, at) =~= vector8(hello.session_id));
    assert(data.subrange(at, at + 2) =~= be16(hello.cipher_suite as int));
    read_vector8_iff_written(data, HELLO_PREFIX_LEN as int, hello.session_id);
    read16_of_be16(data, at, hello.cipher_suite as int);
    read_extensions_iff_written(data, at + 3, hello.extensions);
}

impl ServerHello {
    /// Appends the hello to `buf`.
    pub fn encode(&self, buf: &mut BytesMut)
        requires
            self@.fits(),
            bytes_mut_contents(*old(buf)).len() + self@.encoded().len() <= isize::MAX / 2,
        ensures
            bytes_mut_contents(*final(buf)) == bytes_mut_contents(*old(buf)) + self@.encoded(),
    {
        put8(buf, self.version.major);
        put8(buf, self.version.minor);
        buf.extend_from_slice(self.random.bytes.as_slice());
        put_vector8(buf, self.session_id.as_slice());
        put16(buf, self.cipher_suite);
        put8(buf, self.compression_method);
        if self.extensions.len() > 0 {
            put_vector16(buf, self.extensions.as_slice());
        }
        assert(bytes_mut_contents(*buf) =~= bytes_mut_contents(*old(buf)) + self@.encoded());
    }

    /// Reads a hello that fills `data`.
    pub fn decode(data: &[u8]) -> (result: Result<ServerHello, DtlsError>)
        ensures
            match result {
                Ok(hello) => hello@.is_read_from(data@),
                Err(error) => {
                    &&& error == DtlsError::MalformedMessage
                    &&& forall|hello: ServerHelloView| !hello.is_read_from(data@)
                },
            },
    {
        proof {
            assert forall|hello: ServerHelloView| hello.is_read_from(data@) implies
                parse_server_hello(data@) == Some(hello) by {
                lemma_server_hello_parses(data@, hello);
            }
            if let Some(hello) = parse_server_hello(data@) {
                lemma_parsed_server_hello(data@, hello);
            }
        }
        if data.len() < HELLO_PREFIX_LEN {
            return Err(DtlsError::MalformedMessage);
        }
        let session_id: Vec<u8> = match get_vector8(data, HELLO_PREFIX_LEN) {
            Some(session_id) => session_id,
            None => return Err(DtlsError::MalformedMessage),
        };
        let at: usize = HELLO_PREFIX_LEN + 1 + session_id.len();
        if data.len() - at < 3 {
            return Err(DtlsError::MalformedMessage);
        }
        let extensions: Vec<u8> = match get_extensions(data, at + 3) {
            Some(extensions) => extensions,
            None => return Err(DtlsError::MalformedMessage),
        };
        let hello: ServerHello = ServerHello {
            version: ProtocolVersion { major: data[0], minor: data[1] },
            random: Random::read(data),
            session_id,
            cipher_suite: get16(data, at),
            compression_method: data[at + 2],
            extensions,
        };
        assert(parse_server_hello(data@) == Some(hello@));
        Ok(hello)
    }
}

/// A ServerHello read from what was written is the one that was written.
pub proof fn server_hello_round_trip(hello: ServerHelloView)
    requires
        hello.fits(),
    ensures
        hello.is_read_from(hello.encoded()),
        server_hello_in(hello.encoded()) == Some(hello),
{
    let head = hello.encoded_head();
    assert(hello.encoded().take(head.len() as int) =~= head);
    assert(hello.encoded().skip(head.len() as int) =~= extension_block(hello.extensions));
    server_hello_is_unambiguous(
        hello.encoded(),
        hello,
        choose|other: ServerHelloView| other.is_read_from(hello.encoded()),
    );
}

/// A message is at most one ServerHello.
pub proof fn server_hello_is_unambiguous(
    data: Seq<u8>,
    one: ServerHelloView,
    other: ServerHelloView,
)
    requires
        one.is_read_from(data),
        other.is_read_from(data),
    ensures
        one == other,
{
    lemma_server_hello_parses(data, one);
    lemma_server_hello_parses(data, other);
}

} // verus!
