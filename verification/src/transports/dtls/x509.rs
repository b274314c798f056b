//! The public key in an X.509 certificate (RFC 5280, section 4.1, and RFC 5480).

use vstd::prelude::*;
use vstd::slice::slice_subrange;

use crate::transports::dtls::buffer::{be16, be24, get16, get24, read16, read24};
use crate::transports::dtls::buffer::{be24_of_read24, read16_of_be16, read24_of_be24};

verus! {

/// The tag of an INTEGER.
pub const TAG_INTEGER: u8 = 0x02;

/// The tag of a BIT STRING.
pub const TAG_BIT_STRING: u8 = 0x03;

/// The tag of a SEQUENCE.
pub const TAG_SEQUENCE: u8 = 0x30;

/// The tag of the version of a certificate.
pub const TAG_VERSION: u8 = 0xA0;

/// Bytes of the identifier of a P-256 public key.
pub const P256_ALGORITHM_LEN: usize = 19;

/// The identifier of a P-256 public key: id-ecPublicKey with curve prime256v1.
pub open spec fn p256_algorithm() -> Seq<u8> {
    seq![
        0x06u8,
        0x07u8,
        0x2Au8,
        0x86u8,
        0x48u8,
        0xCEu8,
        0x3Du8,
        0x02u8,
        0x01u8,
        0x06u8,
        0x08u8,
        0x2Au8,
        0x86u8,
        0x48u8,
        0xCEu8,
        0x3Du8,
        0x03u8,
        0x01u8,
        0x07u8,
    ]
}

/// The length of an element, in as few bytes as it takes.
pub open spec fn der_length(len: int) -> Seq<u8> {
    if len < 0x80 {
        seq![len as u8]
    } else if len < 0x100 {
        seq![0x81u8, len as u8]
    } else if len < 0x10000 {
        seq![0x82u8] + be16(len)
    } else {
        seq![0x83u8] + be24(len)
    }
}

/// An element: its tag, its length and its content.
#[verifier::opaque]
pub open spec fn element(tag: u8, content: Seq<u8>) -> Seq<u8> {
    seq![tag] + der_length(content.len() as int) + content
}

/// How many bytes stand in front of the content of the element that `data` starts
/// with, and how many the content has. Lengths of more than three bytes, or of more
/// than it takes, are not read.
pub open spec fn element_bounds(data: Seq<u8>) -> Option<(int, int)> {
    if data.len() >= 2 && data[1] < 0x80 {
        Some((2, data[1] as int))
    } else if data.len() >= 3 && data[1] == 0x81 && data[2] >= 0x80 {
        Some((3, data[2] as int))
    } else if data.len() >= 4 && data[1] == 0x82 && read16(data, 2) >= 0x100 {
        Some((4, read16(data, 2)))
    } else if data.len() >= 5 && data[1] == 0x83 && read24(data, 2) >= 0x10000 {
        Some((5, read24(data, 2)))
    } else {
        None
    }
}

/// The content of the element with this tag that `data` starts with, and what is
/// behind the element.
#[verifier::opaque]
pub open spec fn split_element(data: Seq<u8>, tag: u8) -> Option<(Seq<u8>, Seq<u8>)> {
    match element_bounds(data) {
        None => None,
        Some((head, len)) => if data[0] == tag && head + len <= data.len() {
            Some((data.subrange(head, head + len), data.skip(head + len)))
        } else {
            None
        },
    }
}

/// An element is read exactly if it was written, whatever follows it.
pub proof fn element_is_read_iff_written(
    data: Seq<u8>,
    tag: u8,
    content: Seq<u8>,
    rest: Seq<u8>,
)
    ensures
        split_element(data, tag) == Some((content, rest)) <==> {
            &&& content.len() < 0x1000000
            &&& data == element(tag, content) + rest
        },
{
    reveal(element);
    reveal(split_element);
    let len = content.len() as int;
    let head = 1 + der_length(len).len() as int;
    if split_element(data, tag) == Some((content, rest)) {
        let bounds = element_bounds(data)->0;
        assert(bounds.1 == len);
        if data[1] < 0x80 {
            assert(data.take(2) =~= seq![tag] + der_length(len));
        } else if data[1] == 0x81 {
            assert(data.take(3) =~= seq![tag] + der_length(len));
        } else if data[1] == 0x82 {
            assert(be16(len)[0] == data[2] && be16(len)[1] == data[3]);
            assert(data.take(4) =~= seq![tag] + der_length(len));
        } else {
            be24_of_read24(data, 2);
            assert(data.subrange(2, 5) =~= be24(len));
            assert(data.take(5) =~= data.take(2) + data.subrange(2, 5));
            assert(data.take(5) =~= seq![tag] + der_length(len));
        }
        assert(bounds.0 == head);
        assert(data =~= data.take(head) + content + rest);
    }
    if len < 0x1000000 && data == element(tag, content) + rest {
        assert(data.subrange(head, head + len) =~= content);
        assert(data.skip(head + len) =~= rest);
        if 0x100 <= len < 0x10000 {
            assert(data.subrange(2, 4) =~= be16(len));
            read16_of_be16(data, 2, len);
        } else if 0x10000 <= len {
            assert(data.subrange(2, 5) =~= be24(len));
            read24_of_be24(data, 2, len);
        }
        assert(element_bounds(data) == Some((head, len)));
    }
}

/// An element starts with its tag and is longer than its content.
pub proof fn element_starts_with_tag(tag: u8, content: Seq<u8>)
    ensures
        element(tag, content).len() > content.len(),
        element(tag, content)[0] == tag,
{
    reveal(element);
}

/// The content of the element that some bytes start with, if there are any.
pub open spec fn content_of(data: Option<Seq<u8>>, tag: u8) -> Option<Seq<u8>> {
    match data {
        None => None,
        Some(data) => match split_element(data, tag) {
            None => None,
            Some((content, _)) => Some(content),
        },
    }
}

/// What is behind the element that some bytes start with, if there are any.
pub open spec fn behind(data: Option<Seq<u8>>, tag: u8) -> Option<Seq<u8>> {
    match data {
        None => None,
        Some(data) => match split_element(data, tag) {
            None => None,
            Some((_, rest)) => Some(rest),
        },
    }
}

/// What is behind the version of a certificate, which may be left out.
pub open spec fn behind_version(fields: Option<Seq<u8>>) -> Option<Seq<u8>> {
    if fields matches Some(fields) && fields.len() > 0 && fields[0] == TAG_VERSION {
        behind(fields, TAG_VERSION)
    } else {
        fields
    }
}

/// The content of the one element that `data` is.
pub open spec fn only_element(data: Option<Seq<u8>>, tag: u8) -> Option<Seq<u8>> {
    if behind(data, tag) matches Some(rest) && rest.len() == 0 {
        content_of(data, tag)
    } else {
        None
    }
}

/// The key in the description of a P-256 public key: what follows the count of
/// unused bits, which is zero, in the bit string behind the identifier.
pub open spec fn described_key(description: Option<Seq<u8>>) -> Option<Seq<u8>> {
    if content_of(description, TAG_SEQUENCE) == Some(p256_algorithm()) {
        match only_element(behind(description, TAG_SEQUENCE), TAG_BIT_STRING) {
            None => None,
            Some(bits) => if bits.len() > 0 && bits[0] == 0 {
                Some(bits.skip(1))
            } else {
                None
            },
        }
    } else {
        None
    }
}

/// The public key of a certificate in DER, if it is one for a P-256 key. In the
/// signed part of a certificate the key comes behind version, serial number,
/// signature algorithm, issuer, validity and subject.
pub open spec fn certificate_key(certificate: Seq<u8>) -> Option<Seq<u8>> {
    let signed = content_of(only_element(Some(certificate), TAG_SEQUENCE), TAG_SEQUENCE);
    let algorithm = behind(behind_version(signed), TAG_INTEGER);
    let issuer = behind(algorithm, TAG_SEQUENCE);
    let validity = behind(issuer, TAG_SEQUENCE);
    let subject = behind(validity, TAG_SEQUENCE);
    let key = behind(subject, TAG_SEQUENCE);
    described_key(content_of(key, TAG_SEQUENCE))
}

/// Reads the element with this tag that `data` starts with.
fn take_element(data: &[u8], tag: u8) -> (parts: Option<(&[u8], &[u8])>)
    ensures
        match parts {
            Some((content, rest)) => split_element(data@, tag) == Some((content@, rest@)),
            None => split_element(data@, tag) is None,
        },
{
    proof {
        reveal(split_element);
    }
    if data.len() < 2 || data[0] != tag {
        return None;
    }
    let (head, len): (usize, usize) = if data[1] < 0x80 {
        (2, data[1] as usize)
    } else if data.len() >= 3 && data[1] == 0x81 && data[2] >= 0x80 {
        (3, data[2] as usize)
    } else if data.len() >= 4 && data[1] == 0x82 && get16(data, 2) >= 0x100 {
        (4, get16(data, 2) as usize)
    } else if data.len() >= 5 && data[1] == 0x83 && get24(data, 2) >= 0x10000 {
        (5, get24(data, 2) as usize)
    } else {
        return None;
    };
    if data.len() - head < len {
        return None;
    }
    let content: &[u8] = slice_subrange(data, head, head + len);
    let rest: &[u8] = slice_subrange(data, head + len, data.len());
    assert(rest@ =~= data@.skip(head + len));
    Some((content, rest))
}

/// Whether these bytes are the identifier of a P-256 public key.
fn is_p256_algorithm(content: &[u8]) -> (is: bool)
    ensures
        is == (content@ == p256_algorithm()),
{
    let expected: [u8; 19] = [
        0x06,
        0x07,
        0x2A,
        0x86,
        0x48,
        0xCE,
        0x3D,
        0x02,
        0x01,
        0x06,
        0x08,
        0x2A,
        0x86,
        0x48,
        0xCE,
        0x3D,
        0x03,
        0x01,
        0x07,
    ];
    assert(expected@ =~= p256_algorithm());
    if content.len() != P256_ALGORITHM_LEN {
        return false;
    }
    for i in 0..P256_ALGORITHM_LEN
        invariant
            content@.len() == P256_ALGORITHM_LEN,
            expected@ == p256_algorithm(),
            forall|j: int| 0 <= j < i ==> content@[j] == p256_algorithm()[j],
    {
        if content[i] != expected[i] {
            assert(content@[i as int] != p256_algorithm()[i as int]);
            return false;
        }
    }
    assert(content@ =~= p256_algorithm());
    true
}

/// Reads the key in the description of a P-256 public key.
fn read_described_key(description: &[u8]) -> (key: Option<&[u8]>)
    ensures
        match key {
            Some(key) => described_key(Some(description@)) == Some(key@),
            None => described_key(Some(description@)) is None,
        },
{
    let (algorithm, rest): (&[u8], &[u8]) = match take_element(description, TAG_SEQUENCE) {
        Some(parts) => parts,
        None => return None,
    };
    if !is_p256_algorithm(algorithm) {
        return None;
    }
    let (bits, rest): (&[u8], &[u8]) = match take_element(rest, TAG_BIT_STRING) {
        Some(parts) => parts,
        None => return None,
    };
    if rest.len() != 0 || bits.len() == 0 || bits[0] != 0 {
        return None;
    }
    let key: &[u8] = slice_subrange(bits, 1, bits.len());
    assert(key@ =~= bits@.skip(1));
    Some(key)
}

/// Reads the public key of a certificate in DER, if it is one for a P-256 key.
pub fn certificate_public_key(certificate: &[u8]) -> (key: Option<&[u8]>)
    ensures
        match key {
            Some(key) => certificate_key(certificate@) == Some(key@),
            None => certificate_key(certificate@) is None,
        },
{
    let (parts, rest): (&[u8], &[u8]) = match take_element(certificate, TAG_SEQUENCE) {
        Some(parts) => parts,
        None => return None,
    };
    if rest.len() != 0 {
        return None;
    }
    let (signed, _): (&[u8], &[u8]) = match take_element(parts, TAG_SEQUENCE) {
        Some(parts) => parts,
        None => return None,
    };
    let serial: &[u8] = if signed.len() > 0 && signed[0] == TAG_VERSION {
        match take_element(signed, TAG_VERSION) {
            Some((_, rest)) => rest,
            None => return None,
        }
    } else {
        signed
    };
    let algorithm: &[u8] = match take_element(serial, TAG_INTEGER) {
        Some((_, rest)) => rest,
        None => return None,
    };
    let issuer: &[u8] = match take_element(algorithm, TAG_SEQUENCE) {
        Some((_, rest)) => rest,
        None => return None,
    };
    let validity: &[u8] = match take_element(issuer, TAG_SEQUENCE) {
        Some((_, rest)) => rest,
        None => return None,
    };
    let subject: &[u8] = match take_element(validity, TAG_SEQUENCE) {
        Some((_, rest)) => rest,
        None => return None,
    };
    let key: &[u8] = match take_element(subject, TAG_SEQUENCE) {
        Some((_, rest)) => rest,
        None => return None,
    };
    match take_element(key, TAG_SEQUENCE) {
        Some((description, _)) => read_described_key(description),
        None => None,
    }
}

/// The parts of a certificate, each by the content of its element.
pub struct CertificateParts {
    /// Left out in certificates of the first version.
    pub version: Option<Seq<u8>>,
    pub serial_number: Seq<u8>,
    pub algorithm: Seq<u8>,
    pub issuer: Seq<u8>,
    pub validity: Seq<u8>,
    pub subject: Seq<u8>,
    pub key: Seq<u8>,
    /// What follows the key in the signed part.
    pub extensions: Seq<u8>,
    /// What follows the signed part.
    pub signature: Seq<u8>,
}

impl CertificateParts {
    /// The description of the public key.
    pub open spec fn key_description(self) -> Seq<u8> {
        element(TAG_SEQUENCE, p256_algorithm()) + element(TAG_BIT_STRING, seq![0u8] + self.key)
    }

    /// The signed part, from the serial number on.
    pub open spec fn numbered(self) -> Seq<u8> {
        element(TAG_INTEGER, self.serial_number) + (element(TAG_SEQUENCE, self.algorithm) + (
        element(TAG_SEQUENCE, self.issuer) + (element(TAG_SEQUENCE, self.validity) + (element(
            TAG_SEQUENCE,
            self.subject,
        ) + (element(TAG_SEQUENCE, self.key_description()) + self.extensions)))))
    }

    /// The signed part.
    pub open spec fn signed(self) -> Seq<u8> {
        match self.version {
            Some(version) => element(TAG_VERSION, version) + self.numbered(),
            None => self.numbered(),
        }
    }

    /// The certificate in DER.
    pub open spec fn certificate(self) -> Seq<u8> {
        element(TAG_SEQUENCE, element(TAG_SEQUENCE, self.signed()) + self.signature)
    }
}

/// The key read from a certificate for a P-256 key is the key that was put there,
/// whatever its other parts are.
pub proof fn key_of_certificate(parts: CertificateParts)
    requires
        parts.certificate().len() < 0x1000000,
    ensures
        certificate_key(parts.certificate()) == Some(parts.key),
{
    let bits = seq![0u8] + parts.key;
    let description = parts.key_description();
    let key = element(TAG_SEQUENCE, description) + parts.extensions;
    let subject = element(TAG_SEQUENCE, parts.subject) + key;
    let validity = element(TAG_SEQUENCE, parts.validity) + subject;
    let issuer = element(TAG_SEQUENCE, parts.issuer) + validity;
    let algorithm = element(TAG_SEQUENCE, parts.algorithm) + issuer;
    let numbered = element(TAG_INTEGER, parts.serial_number) + algorithm;
    let body = element(TAG_SEQUENCE, parts.signed()) + parts.signature;
    element_starts_with_tag(TAG_SEQUENCE, body);
    element_starts_with_tag(TAG_SEQUENCE, parts.signed());
    element_starts_with_tag(TAG_INTEGER, parts.serial_number);
    element_starts_with_tag(TAG_SEQUENCE, parts.algorithm);
    element_starts_with_tag(TAG_SEQUENCE, parts.issuer);
    element_starts_with_tag(TAG_SEQUENCE, parts.validity);
    element_starts_with_tag(TAG_SEQUENCE, parts.subject);
    element_starts_with_tag(TAG_SEQUENCE, description);
    element_starts_with_tag(TAG_BIT_STRING, bits);
    if let Some(version) = parts.version {
        element_starts_with_tag(TAG_VERSION, version);
    }
    assert(numbered == parts.numbered());
    assert(parts.certificate() =~= parts.certificate() + Seq::<u8>::empty());
    element_is_read_iff_written(parts.certificate(), TAG_SEQUENCE, body, seq![]);
    element_is_read_iff_written(body, TAG_SEQUENCE, parts.signed(), parts.signature);
    if let Some(version) = parts.version {
        element_is_read_iff_written(parts.signed(), TAG_VERSION, version, numbered);
        assert(parts.signed()[0] == TAG_VERSION);
    } else {
        assert(parts.signed()[0] == TAG_INTEGER);
    }
    assert(behind_version(Some(parts.signed())) == Some(numbered));
    element_is_read_iff_written(numbered, TAG_INTEGER, parts.serial_number, algorithm);
    element_is_read_iff_written(algorithm, TAG_SEQUENCE, parts.algorithm, issuer);
    element_is_read_iff_written(issuer, TAG_SEQUENCE, parts.issuer, validity);
    element_is_read_iff_written(validity, TAG_SEQUENCE, parts.validity, subject);
    element_is_read_iff_written(subject, TAG_SEQUENCE, parts.subject, key);
    element_is_read_iff_written(key, TAG_SEQUENCE, description, parts.extensions);
    element_is_read_iff_written(
        description,
        TAG_SEQUENCE,
        p256_algorithm(),
        element(TAG_BIT_STRING, bits),
    );
    assert(element(TAG_BIT_STRING, bits) =~= element(TAG_BIT_STRING, bits) + Seq::<u8>::empty());
    element_is_read_iff_written(element(TAG_BIT_STRING, bits), TAG_BIT_STRING, bits, seq![]);
    assert(bits.skip(1) =~= parts.key);
}

/// An element is its tag, its length and its content. The length takes one byte below
/// 128; else a byte that says how many follow, and the length in as few as it takes.
pub proof fn element_layout(tag: u8, content: Seq<u8>)
    requires
        content.len() < 0x1000000,
    ensures
        ({
            let wire = element(tag, content);
            let len = content.len();
            &&& wire[0] == tag
            &&& len < 128 ==> wire[1] == len && wire.skip(2) == content
            &&& 128 <= len < 256 ==> wire[1] == 0x81 && wire[2] == len && wire.skip(3) == content
            &&& 256 <= len < 65536 ==> wire[1] == 0x82 && wire[2] * 256 + wire[3] == len
                && wire.skip(4) == content
            &&& 65536 <= len ==> wire[1] == 0x83 && wire[2] * 65536 + wire[3] * 256 + wire[4] == len
                && wire.skip(5) == content
        }),
{
    reveal(element);
    let wire = element(tag, content);
    let head = 1 + der_length(content.len() as int).len() as int;
    assert(wire.skip(head) =~= content);
    assert(forall|i: int| 1 <= i < head ==> wire[i] == der_length(content.len() as int)[i - 1]);
}

/// The identifier of a P-256 public key is two object identifiers: 1.2.840.10045.2.1
/// in seven bytes and 1.2.840.10045.3.1.7 in eight. Each starts with 40 times its
/// first arc plus its second; arcs above 127 take two bytes of seven bits.
pub proof fn p256_algorithm_is_two_object_identifiers()
    ensures
        ({
            let id = p256_algorithm();
            &&& id.len() == 19
            &&& id[0] == 6 && id[1] == 7 && id[9] == 6 && id[10] == 8
            &&& id[2] == 40 * 1 + 2 && id[11] == 40 * 1 + 2
            &&& id[3] >= 128 && (id[3] - 128) * 128 + id[4] == 840
            &&& id[12] >= 128 && (id[12] - 128) * 128 + id[13] == 840
            &&& id[5] >= 128 && (id[5] - 128) * 128 + id[6] == 10045
            &&& id[14] >= 128 && (id[14] - 128) * 128 + id[15] == 10045
            &&& id[7] == 2 && id[8] == 1
            &&& id[16] == 3 && id[17] == 1 && id[18] == 7
        }),
{
}

/// What a key is read from is a certificate for that P-256 key.
pub proof fn key_is_read_only_from_certificates(certificate: Seq<u8>, key: Seq<u8>)
    requires
        certificate_key(certificate) == Some(key),
    ensures
        exists|parts: CertificateParts|
            #[trigger] parts.certificate() == certificate && parts.key == key,
{
    let outer = split_element(certificate, TAG_SEQUENCE)->0;
    let signed = split_element(outer.0, TAG_SEQUENCE)->0;
    let versioned = signed.0.len() > 0 && signed.0[0] == TAG_VERSION;
    let version = split_element(signed.0, TAG_VERSION)->0;
    let numbered = if versioned {
        version.1
    } else {
        signed.0
    };
    let serial = split_element(numbered, TAG_INTEGER)->0;
    let algorithm = split_element(serial.1, TAG_SEQUENCE)->0;
    let issuer = split_element(algorithm.1, TAG_SEQUENCE)->0;
    let validity = split_element(issuer.1, TAG_SEQUENCE)->0;
    let subject = split_element(validity.1, TAG_SEQUENCE)->0;
    let description = split_element(subject.1, TAG_SEQUENCE)->0;
    let id = split_element(description.0, TAG_SEQUENCE)->0;
    let bits = split_element(id.1, TAG_BIT_STRING)->0;
    element_is_read_iff_written(certificate, TAG_SEQUENCE, outer.0, outer.1);
    element_is_read_iff_written(outer.0, TAG_SEQUENCE, signed.0, signed.1);
    if versioned {
        element_is_read_iff_written(signed.0, TAG_VERSION, version.0, version.1);
    }
    element_is_read_iff_written(numbered, TAG_INTEGER, serial.0, serial.1);
    element_is_read_iff_written(serial.1, TAG_SEQUENCE, algorithm.0, algorithm.1);
    element_is_read_iff_written(algorithm.1, TAG_SEQUENCE, issuer.0, issuer.1);
    element_is_read_iff_written(issuer.1, TAG_SEQUENCE, validity.0, validity.1);
    element_is_read_iff_written(validity.1, TAG_SEQUENCE, subject.0, subject.1);
    element_is_read_iff_written(subject.1, TAG_SEQUENCE, description.0, description.1);
    element_is_read_iff_written(description.0, TAG_SEQUENCE, id.0, id.1);
    element_is_read_iff_written(id.1, TAG_BIT_STRING, bits.0, bits.1);
    let parts = CertificateParts {
        version: if versioned {
            Some(version.0)
        } else {
            None
        },
        serial_number: serial.0,
        algorithm: algorithm.0,
        issuer: issuer.0,
        validity: validity.0,
        subject: subject.0,
        key,
        extensions: description.1,
        signature: signed.1,
    };
    assert(bits.0 =~= seq![0u8] + key);
    assert(id.1 =~= element(TAG_BIT_STRING, bits.0));
    assert(parts.key_description() == description.0);
    assert(parts.numbered() == numbered);
    assert(parts.signed() == signed.0);
    assert(certificate =~= element(TAG_SEQUENCE, outer.0));
    assert(parts.certificate() == certificate);
}

} // verus!
