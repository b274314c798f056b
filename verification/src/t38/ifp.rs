//! T.38 Internet Fax Protocol packets.

use vstd::prelude::*;
use vstd::slice::slice_to_vec;

verus! {

/// T.30 indicators: what is on the fax line, in the order of their T.38 numbers.
#[derive(Debug, Clone, Copy, PartialEq, Eq, Structural)]
pub enum T30Indicator {
    NoSignal,
    Cng,
    Ced,
    V21Preamble,
    V27Ter2400Preamble,
    V27Ter4800Preamble,
    V297200Preamble,
    V299600Preamble,
    V177200ShortPreamble,
    V177200LongPreamble,
    V179600ShortPreamble,
    V179600LongPreamble,
    V1712000ShortPreamble,
    V1712000LongPreamble,
    V1714400ShortPreamble,
    V1714400LongPreamble,
}

/// How the data of a field was framed on the fax line.
#[derive(Debug, Clone, Copy, PartialEq, Eq, Structural)]
pub enum DataFieldType {
    /// An HDLC frame with a correct check sequence.
    HdlcFcsOk,
    /// T.4 image data without error correction.
    T4NonEcm,
}

/// One data field of an IFP packet.
#[derive(Debug, Clone, PartialEq, Eq)]
pub struct DataField {
    pub field_type: DataFieldType,
    pub data: Vec<u8>,
}

/// An IFP packet.
#[derive(Debug, Clone, PartialEq, Eq)]
pub enum IfpPacket {
    /// Indicators of what is on the fax line.
    T30Indicator(Vec<T30Indicator>),
    /// Data demodulated from the fax line.
    T30Data(Vec<DataField>),
}

impl T30Indicator {
    /// The T.38 number of the indicator.
    pub open spec fn number(self) -> u8 {
        match self {
            T30Indicator::NoSignal => 0,
            T30Indicator::Cng => 1,
            T30Indicator::Ced => 2,
            T30Indicator::V21Preamble => 3,
            T30Indicator::V27Ter2400Preamble => 4,
            T30Indicator::V27Ter4800Preamble => 5,
            T30Indicator::V297200Preamble => 6,
            T30Indicator::V299600Preamble => 7,
            T30Indicator::V177200ShortPreamble => 8,
            T30Indicator::V177200LongPreamble => 9,
            T30Indicator::V179600ShortPreamble => 10,
            T30Indicator::V179600LongPreamble => 11,
            T30Indicator::V1712000ShortPreamble => 12,
            T30Indicator::V1712000LongPreamble => 13,
            T30Indicator::V1714400ShortPreamble => 14,
            T30Indicator::V1714400LongPreamble => 15,
        }
    }

    /// The T.38 number of the indicator.
    pub fn value(self) -> (value: u8)
        ensures
            value == self.number(),
    {
        match self {
            T30Indicator::NoSignal => 0,
            T30Indicator::Cng => 1,
            T30Indicator::Ced => 2,
            T30Indicator::V21Preamble => 3,
            T30Indicator::V27Ter2400Preamble => 4,
            T30Indicator::V27Ter4800Preamble => 5,
            T30Indicator::V297200Preamble => 6,
            T30Indicator::V299600Preamble => 7,
            T30Indicator::V177200ShortPreamble => 8,
            T30Indicator::V177200LongPreamble => 9,
            T30Indicator::V179600ShortPreamble => 10,
            T30Indicator::V179600LongPreamble => 11,
            T30Indicator::V1712000ShortPreamble => 12,
            T30Indicator::V1712000LongPreamble => 13,
            T30Indicator::V1714400ShortPreamble => 14,
            T30Indicator::V1714400LongPreamble => 15,
        }
    }

    /// The packet that carries this indicator alone.
    pub fn packet(self) -> (packet: IfpPacket)
        ensures
            packet matches IfpPacket::T30Indicator(indicators) && indicators@ == seq![self],
    {
        let indicators: Vec<T30Indicator> = vec![self];
        assert(indicators@ =~= seq![self]);
        IfpPacket::T30Indicator(indicators)
    }

    /// The packet that carries this indicator alone in the simplified format of
    /// spandsp: one byte, the indicator's number shifted left by one bit.
    pub fn encode_spandsp(self) -> (datagram: Vec<u8>)
        ensures
            datagram@ == seq![(self.number() * 2) as u8],
    {
        let number: u8 = self.value();
        assert(number < 16 ==> number << 1 == number * 2) by (bit_vector);
        let datagram: Vec<u8> = vec![number << 1];
        assert(datagram@ =~= seq![(self.number() * 2) as u8]);
        datagram
    }
}

/// The octets of an HDLC frame as they are put in a data field: two octets of
/// ones, the frame type and the frame's data.
pub open spec fn hdlc_frame(frame_type: u8, data: Seq<u8>) -> Seq<u8> {
    seq![0xFFu8, 0xFFu8, frame_type] + data
}

/// An HDLC data field with a T.30 frame byte and optional data.
pub fn hdlc_field(frame_type: u8, data: &[u8]) -> (field: DataField)
    ensures
        field.field_type == DataFieldType::HdlcFcsOk,
        field.data@ == hdlc_frame(frame_type, data@),
{
    let mut frame: Vec<u8> = vec![0xFF, 0xFF, frame_type];
    assert(frame@ =~= seq![0xFFu8, 0xFFu8, frame_type]);
    frame.extend_from_slice(data);
    assert(frame@ =~= hdlc_frame(frame_type, data@));
    DataField { field_type: DataFieldType::HdlcFcsOk, data: frame }
}

/// A data field with T.4 image data sent without error correction.
pub fn t4_data(data: &[u8]) -> (field: DataField)
    ensures
        field.field_type == DataFieldType::T4NonEcm,
        field.data@ == data@,
{
    DataField { field_type: DataFieldType::T4NonEcm, data: slice_to_vec(data) }
}

/// The spandsp format tells indicators apart: equal datagrams carry the same
/// indicator.
pub proof fn spandsp_format_is_injective(one: T30Indicator, other: T30Indicator)
    ensures
        (one.number() * 2) as u8 == (other.number() * 2) as u8 <==> one == other,
{
}

/// The T.38 numbers of the indicators run from 0 to 15 in the order of the
/// standard.
pub proof fn indicator_numbers_run_in_order()
    ensures
        T30Indicator::NoSignal.number() == 0,
        T30Indicator::Cng.number() == T30Indicator::NoSignal.number() + 1,
        T30Indicator::Ced.number() == T30Indicator::Cng.number() + 1,
        T30Indicator::V21Preamble.number() == T30Indicator::Ced.number() + 1,
        T30Indicator::V27Ter2400Preamble.number() == T30Indicator::V21Preamble.number() + 1,
        T30Indicator::V27Ter4800Preamble.number() == T30Indicator::V27Ter2400Preamble.number() + 1,
        T30Indicator::V297200Preamble.number() == T30Indicator::V27Ter4800Preamble.number() + 1,
        T30Indicator::V299600Preamble.number() == T30Indicator::V297200Preamble.number() + 1,
        T30Indicator::V177200ShortPreamble.number() == T30Indicator::V299600Preamble.number() + 1,
        T30Indicator::V177200LongPreamble.number()
            == T30Indicator::V177200ShortPreamble.number() + 1,
        T30Indicator::V179600ShortPreamble.number()
            == T30Indicator::V177200LongPreamble.number() + 1,
        T30Indicator::V179600LongPreamble.number()
            == T30Indicator::V179600ShortPreamble.number() + 1,
        T30Indicator::V1712000ShortPreamble.number()
            == T30Indicator::V179600LongPreamble.number() + 1,
        T30Indicator::V1712000LongPreamble.number()
            == T30Indicator::V1712000ShortPreamble.number() + 1,
        T30Indicator::V1714400ShortPreamble.number()
            == T30Indicator::V1712000LongPreamble.number() + 1,
        T30Indicator::V1714400LongPreamble.number()
            == T30Indicator::V1714400ShortPreamble.number() + 1,
{
}

/// An HDLC frame carries its type in the third octet, behind two octets of ones, and
/// then its data, octet for octet.
pub proof fn hdlc_frame_carries_type_and_data(frame_type: u8, data: Seq<u8>)
    ensures
        hdlc_frame(frame_type, data).len() == 3 + data.len(),
        hdlc_frame(frame_type, data)[0] == 0xFF,
        hdlc_frame(frame_type, data)[1] == 0xFF,
        hdlc_frame(frame_type, data)[2] == frame_type,
        hdlc_frame(frame_type, data).skip(3) == data,
{
    assert(hdlc_frame(frame_type, data).skip(3) =~= data);
}

} // verus!
