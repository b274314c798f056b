//! ClientHello (RFC 6347, section 4.2.1).

use bytes::BytesMut;

use vstd::prelude::*;

use crate::transports::dtls::buffer::{be16, bytes_mut_contents, get16, put8, read16};
use crate::transports::dtls::error::DtlsError;
use crate::transports::dtls::hello::{ends_with_extensions, extension_block, get_extensions};
use crate::transports::dtls::hello::{read_extensions, read_extensions_iff_written};
use crate::transports::dtls::hello::{HELLO_PREFIX_LEN, Random};
use crate::transports::dtls::record::ProtocolVersion;
use crate::transports::dtls::vector::{get_vector16, get_vector8, put_vector16, put_vector8};
use crate::transports::dtls::vector::{read_vector16, read_vector8, vector16, vector8};
use crate::transports::dtls::vector::{read_vector16_iff_written, read_vector8_iff_written};

verus! {

/// A ClientHello.
#[derive(Debug, Clone)]
pub struct ClientHello {
    pub version: ProtocolVersion,
    pub random: Random,
    pub session_id: Vec<u8>,
    pub cookie: Vec<u8>,
    pub cipher_suites: Vec<u16>,
    pub compression_methods: Vec<u8>,
    /// The extensions, encoded one after another.
    pub extensions: Vec<u8>,
}

/// The contents of a [`ClientHello`].
#[verifier::ext_equal]
pub struct ClientHelloView {
    pub version: ProtocolVersion,
    pub random: Seq<u8>,
    pub session_id: Seq<u8>,
    pub cookie: Seq<u8>,
    pub cipher_suites: Seq<u16>,
    pub compression_methods: Seq<u8>,
    pub extensions: Seq<u8>,
}

impl View for ClientHello {
    type V = ClientHelloView;

    open spec fn view(&self) -> ClientHelloView {
        ClientHelloView {
            version: self.version,
            random: self.random.bytes@,
            session_id: self.session_id@,
            cookie: self.cookie@,
            cipher_suites: self.cipher_suites@,
            compression_methods: self.compression_methods@,
            extensions: self.extensions@,
        }
    }
}

/// Cipher suites on the wire: two bytes each.
pub open spec fn suite_bytes(suites: Seq<u16>) -> Seq<u8> {
    Seq::new(2 * suites.len(), |i: int| be16(suites[i / 2] as int)[i % 2])
}

/// The cipher suites that bytes on the wire stand for.
pub open spec fn suites_of(data: Seq<u8>) -> Seq<u16> {
    Seq::new(data.len() / 2, |i: int| read16(data, 2 * i) as u16)
}

proof fn lemma_suites_of_bytes(suites: Seq<u16>)
    ensures
        suites_of(suite_bytes(suites)) == suites,
{
    let data = suite_bytes(suites);
    assert forall|i: int| 0 <= i < suites.len() implies suites_of(data)[i] == suites[i] by {
        assert(data[2 * i] == be16(suites[i] as int)[0]);
        assert((2 * i + 1) / 2 == i && (2 * i + 1) % 2 == 1);
        assert(data[2 * i + 1] == be16(suites[i] as int)[1]);
    }
    assert(suites_of(data) =~= suites);
}

proof fn lemma_bytes_of_suites(data: Seq<u8>)
    requires
        data.len() % 2 == 0,
    ensures
        suite_bytes(suites_of(data)) == data,
{
    let written = suite_bytes(suites_of(data));
    assert forall|i: int| 0 <= i < data.len() implies written[i] == data[i] by {
        let k = i / 2;
        assert(i == 2 * k || i == 2 * k + 1);
        assert(suites_of(data)[k] == read16(data, 2 * k));
    }
    assert(written =~= data);
}

impl ClientHelloView {
    /// Whether every part fits its length field.
    pub open spec fn fits(self) -> bool {
        &&& self.random.len() == 32
        &&& self.session_id.len() < 0x100
        &&& self.cookie.len() < 0x100
        &&& 2 * self.cipher_suites.len() < 0x10000
        &&& self.compression_methods.len() < 0x100
        &&& self.extensions.len() < 0x10000
    }

    /// The hello on the wire, up to the extensions.
    pub open spec fn encoded_head(self) -> Seq<u8> {
        seq![self.version.major, self.version.minor] + self.random + vector8(self.session_id)
            + vector8(self.cookie) + vector16(suite_bytes(self.cipher_suites)) + vector8(
            self.compression_methods,
        )
    }

    /// The hello on the wire.
    pub open spec fn encoded(self) -> Seq<u8> {
        self.encoded_head() + extension_block(self.extensions)
    }

    /// Whether `data` is this hello. Its extensions, if there are none, may be
    /// left out or be written as a vector of length zero.
    pub open spec fn is_read_from(self, data: Seq<u8>) -> bool {
        &&& self.fits()
        &&& data.len() >= self.encoded_head().len()
        &&& data.take(self.encoded_head().len() as int) == self.encoded_head()
        &&& ends_with_extensions(data.skip(self.encoded_head().len() as int), self.extensions)
    }
}

/// The ClientHello that fills `data`, if it is one.
pub open spec fn client_hello_in(data: Seq<u8>) -> Option<ClientHelloView> {
    if exists|hello: ClientHelloView| hello.is_read_from(data) {
        Some(choose|hello: ClientHelloView| hello.is_read_from(data))
    } else {
        None
    }
}

spec fn parse_client_hello(data: Seq<u8>) -> Option<ClientHelloView> {
    if data.len() < HELLO_PREFIX_LEN {
        None
    } else {
        match read_vector8(data, HELLO_PREFIX_LEN as int) {
            None => None,
            Some(session_id) => {
                let cookie_at = HELLO_PREFIX_LEN + 1 + session_id.len();
                match read_vector8(data, cookie_at) {
                    None => None,
                    Some(cookie) => {
                        let suites_at = cookie_at + 1 + cookie.len();
                        match read_vector16(data, suites_at) {
                            None => None,
                            Some(suites) => {
                                let methods_at = suites_at + 2 + suites.len();
                                match read_vector8(data, methods_at) {
                                    None => None,
                                    Some(methods) => {
                                        let extensions_at = methods_at + 1 + methods.len();
                                        match read_extensions(data, extensions_at) {
                                            None => None,
                                            Some(extensions) => if suites.len() % 2 != 0 {
                                                None
                                            } else {
                                                Some(
                                                    ClientHelloView {
                                                        version: ProtocolVersion {
                                                            major: data[0],
                                                            minor: data[1],
                                                        },
                                                        random: data.subrange(
                                                            2,
                                                            HELLO_PREFIX_LEN as int,
                                                        ),
                                                        session_id,
                                                        cookie,
                                                        cipher_suites: suites_of(suites),
                                                        compression_methods: methods,
                                                        extensions,
                                                    },
                                                )
                                            },
                                        }
                                    },
                                }
                            },
                        }
                    },
                }
            },
        }
    }
}

proof fn lemma_split(data: Seq<u8>, first: Seq<u8>, second: Seq<u8>)
    requires
        first.len() + second.len() <= data.len(),
        data.take((first + second).len() as int) == first + second,
    ensures
        data.take(first.len() as int) == first,
        data.subrange(first.len() as int, (first.len() + second.len()) as int) == second,
{
    let both = first + second;
    let taken = data.take(both.len() as int);
    assert(data.take(first.len() as int) =~= taken.take(first.len() as int));
    assert(both.take(first.len() as int) =~= first);
    assert(data.subrange(first.len() as int, both.len() as int) =~= taken.skip(first.len() as int));
    assert(both.skip(first.len() as int) =~= second);
}

proof fn lemma_parsed_client_hello(data: Seq<u8>, hello: ClientHelloView)
    requires
        parse_client_hello(data) == Some(hello),
    ensures
        hello.is_read_from(data),
{
    let cookie_at = HELLO_PREFIX_LEN + 1 + hello.session_id.len();
    let suites_at = cookie_at + 1 + hello.cookie.len();
    let suites = read_vector16(data, suites_at)->0;
    let methods_at = suites_at + 2 + suites.len();
    let extensions_at = methods_at + 1 + hello.compression_methods.len();
    lemma_bytes_of_suites(suites);
    read_vector8_iff_written(data, HELLO_PREFIX_LEN as int, hello.session_id);
    read_vector8_iff_written(data, cookie_at, hello.cookie);
    read_vector16_iff_written(data, suites_at, suites);
    read_vector8_iff_written(data, methods_at, hello.compression_methods);
    read_extensions_iff_written(data, extensions_at, hello.extensions);
    assert(hello.encoded_head().len() == extensions_at);
    assert(data.take(extensions_at) =~= data.take(2) + data.subrange(2, 34) + data.subrange(
        34,
        cookie_at,
    ) + data.subrange(cookie_at, suites_at) + data.subrange(suites_at, methods_at)
        + data.subrange(methods_at, extensions_at));
    assert(data.take(2) =~= seq![hello.version.major, hello.version.minor]);
}

proof fn lemma_client_hello_parses(data: Seq<u8>, hello: ClientHelloView)
    requires
        hello.is_read_from(data),
    ensures
        parse_client_hello(data) == Some(hello),
{
    let suites = suite_bytes(hello.cipher_suites);
    let cookie_at = HELLO_PREFIX_LEN + 1 + hello.session_id.len();
    let suites_at = cookie_at + 1 + hello.cookie.len();
    let methods_at = suites_at + 2 + suites.len();
    let extensions_at = methods_at + 1 + hello.compression_methods.len();
    let version = seq![hello.version.major, hello.version.minor];
    let session_id = vector8(hello.session_id);
    let cookie = vector8(hello.cookie);
    let suites_vector = vector16(suites);
    let methods = vector8(hello.compression_methods);
    lemma_split(data, version + hello.random + session_id + cookie + suites_vector, methods);
    lemma_split(data, version + hello.random + session_id + cookie, suites_vector);
    lemma_split(data, version + hello.random + session_id, cookie);
    lemma_split(data, version + hello.random, session_id);
    lemma_split(data, version, hello.random);
    assert(data[0] == data.take(2)[0] && data[1] == data.take(2)[1]);
    lemma_suites_of_bytes(hello.cipher_suites);
    read_vector8_iff_written(data, HELLO_PREFIX_LEN as int, hello.session_id);
    read_vector8_iff_written(data, cookie_at, hello.cookie);
    read_vector16_iff_written(data, suites_at, suites);
    read_vector8_iff_written(data, methods_at, hello.compression_methods);
    read_extensions_iff_written(data, extensions_at, hello.extensions);
}

fn encode_suites(suites: &Vec<u16>) -> (data: Vec<u8>)
    ensures
        data@ == suite_bytes(suites@),
{
    let mut data: Vec<u8> = Vec::new();
    for i in 0..suites.len()
        invariant
            data@ =~= suite_bytes(suites@.take(i as int)),
    {
        let suite: u16 = suites[i];
        let ghost before = data@;
        data.push((suite / 0x100) as u8);
        data.push((suite % 0x100) as u8);
        let ghost longer = suites@.take(i + 1);
        assert forall|k: int| 0 <= k < data@.len() implies data@[k] == suite_bytes(longer)[k] by {
            if k < before.len() {
                assert(before[k] == suite_bytes(suites@.take(i as int))[k]);
                assert(longer[k / 2] == suites@.take(i as int)[k / 2]);
            }
        }
        assert(data@ =~= suite_bytes(longer));
    }
    assert(suites@.take(suites@.len() as int) =~= suites@);
    data
}

fn decode_suites(data: &Vec<u8>) -> (suites: Vec<u16>)
    requires
        data@.len() % 2 == 0,
    ensures
        suites@ == suites_of(data@),
{
    let mut suites: Vec<u16> = Vec::new();
    for i in 0..data.len() / 2
        invariant
            data@.len() % 2 == 0,
            suites@.len() == i,
            forall|k: int| 0 <= k < i ==> suites@[k] == suites_of(data@)[k],
    {
        suites.push(get16(data.as_slice(), 2 * i));
    }
    assert(suites@ =~= suites_of(data@));
    suites
}

impl ClientHello {
    /// Appends the hello to `buf`.
    pub fn encode(&self, buf: &mut BytesMut)
        requires
            self@.fits(),
            bytes_mut_contents(*old(buf)).len() + self@.encoded().len() <= isize::MAX / 2,
        ensures
            bytes_mut_contents(*final(buf)) == bytes_mut_contents(*old(buf)) + self@.encoded(),
    {
        let suites: Vec<u8> = encode_suites(&self.cipher_suites);
        put8(buf, self.version.major);
        put8(buf, self.version.minor);
        buf.extend_from_slice(self.random.bytes.as_slice());
        put_vector8(buf, self.session_id.as_slice());
        put_vector8(buf, self.cookie.as_slice());
        put_vector16(buf, suites.as_slice());
        put_vector8(buf, self.compression_methods.as_slice());
        if self.extensions.len() > 0 {
            put_vector16(buf, self.extensions.as_slice());
        }
        assert(bytes_mut_contents(*buf) =~= bytes_mut_contents(*old(buf)) + self@.encoded());
    }

    /// Reads a hello that fills `data`.
    pub fn decode(data: &[u8]) -> (result: Result<ClientHello, DtlsError>)
        ensures
            match result {
                Ok(hello) => hello@.is_read_from(data@),
                Err(error) => {
                    &&& error == DtlsError::MalformedMessage
                    &&& forall|hello: ClientHelloView| !hello.is_read_from(data@)
                },
            },
    {
        proof {
            assert forall|hello: ClientHelloView| hello.is_read_from(data@) implies
                parse_client_hello(data@) == Some(hello) by {
                lemma_client_hello_parses(data@, hello);
            }
            if let Some(hello) = parse_client_hello(data@) {
                lemma_parsed_client_hello(data@, hello);
            }
        }
        if data.len() < HELLO_PREFIX_LEN {
            return Err(DtlsError::MalformedMessage);
        }
        let session_id: Vec<u8> = match get_vector8(data, HELLO_PREFIX_LEN) {
            Some(session_id) => session_id,
            None => return Err(DtlsError::MalformedMessage),
        };
        let cookie_at: usize = HELLO_PREFIX_LEN + 1 + session_id.len();
        let cookie: Vec<u8> = match get_vector8(data, cookie_at) {
            Some(cookie) => cookie,
            None => return Err(DtlsError::MalformedMessage),
        };
        let suites_at: usize = cookie_at + 1 + cookie.len();
        let suites: Vec<u8> = match get_vector16(data, suites_at) {
            Some(suites) => suites,
            None => return Err(DtlsError::MalformedMessage),
        };
        let methods_at: usize = suites_at + 2 + suites.len();
        let methods: Vec<u8> = match get_vector8(data, methods_at) {
            Some(methods) => methods,
            None => return Err(DtlsError::MalformedMessage),
        };
        let extensions_at: usize = methods_at + 1 + methods.len();
        let extensions: Vec<u8> = match get_extensions(data, extensions_at) {
            Some(extensions) => extensions,
            None => return Err(DtlsError::MalformedMessage),
        };
        if suites.len() % 2 != 0 {
            return Err(DtlsError::MalformedMessage);
        }
        let hello: ClientHello = ClientHello {
            version: ProtocolVersion { major: data[0], minor: data[1] },
            random: Random::read(data),
            session_id,
            cookie,
            cipher_suites: decode_suites(&suites),
            compression_methods: methods,
            extensions,
        };
        assert(parse_client_hello(data@) == Some(hello@));
        Ok(hello)
    }
}

/// A ClientHello read from what was written is the one that was written.
pub proof fn client_hello_round_trip(hello: ClientHelloView)
    requires
        hello.fits(),
    ensures
        hello.is_read_from(hello.encoded()),
        client_hello_in(hello.encoded()) == Some(hello),
{
    let head = hello.encoded_head();
    assert(hello.encoded().take(head.len() as int) =~= head);
    assert(hello.encoded().skip(head.len() as int) =~= extension_block(hello.extensions));
    client_hello_is_unambiguous(
        hello.encoded(),
        hello,
        choose|other: ClientHelloView| other.is_read_from(hello.encoded()),
    );
}

/// A message is at most one ClientHello.
pub proof fn client_hello_is_unambiguous(
    data: Seq<u8>,
    one: ClientHelloView,
    other: ClientHelloView,
)
    requires
        one.is_read_from(data),
        other.is_read_from(data),
    ensures
        one == other,
{
    lemma_client_hello_parses(data, one);
    lemma_client_hello_parses(data, other);
}

} // verus!
