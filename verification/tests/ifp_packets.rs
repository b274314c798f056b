//! IFP packets, the receive loop of a fax endpoint, and transport errors.

use rustrtc::errors::RtcError;
use rustrtc::t38::endpoint::next_recv_action;
use rustrtc::t38::ifp::{hdlc_field, t4_data};
use rustrtc::t38::{DataField, DataFieldType, FaxAction, FaxInput, IfpPacket, T30Indicator};

#[test]
fn test_spandsp_format_documentation() {
    // This is a known-answer test that documents the spandsp format
    let cases = [
        (T30Indicator::Cng, 0x02),
        (T30Indicator::Ced, 0x04),
        (T30Indicator::V21Preamble, 0x06),
        (T30Indicator::NoSignal, 0x00),
        (T30Indicator::V27Ter2400Preamble, 0x08),
        (T30Indicator::V27Ter4800Preamble, 0x0a),
    ];
    for (ind, expected_byte) in &cases {
        let computed = (*ind as u8) << 1;
        assert_eq!(computed, *expected_byte, "mismatch for {:?}", ind);
        assert_eq!(ind.encode_spandsp(), vec![*expected_byte]);
    }
}

#[test]
fn spandsp_format_tells_indicators_apart() {
    let indicators = [
        T30Indicator::NoSignal,
        T30Indicator::Cng,
        T30Indicator::Ced,
        T30Indicator::V21Preamble,
        T30Indicator::V27Ter2400Preamble,
        T30Indicator::V27Ter4800Preamble,
        T30Indicator::V297200Preamble,
        T30Indicator::V299600Preamble,
        T30Indicator::V177200ShortPreamble,
        T30Indicator::V177200LongPreamble,
        T30Indicator::V179600ShortPreamble,
        T30Indicator::V179600LongPreamble,
        T30Indicator::V1712000ShortPreamble,
        T30Indicator::V1712000LongPreamble,
        T30Indicator::V1714400ShortPreamble,
        T30Indicator::V1714400LongPreamble,
    ];
    for (number, indicator) in indicators.iter().enumerate() {
        assert_eq!(indicator.value() as usize, number);
        assert_eq!(indicator.encode_spandsp(), vec![2 * number as u8]);
    }
}

#[test]
fn indicator_packet_carries_the_indicator() {
    assert_eq!(
        T30Indicator::Ced.packet(),
        IfpPacket::T30Indicator(vec![T30Indicator::Ced])
    );
}

#[test]
fn data_fields() {
    assert_eq!(
        hdlc_field(0x01, &[0x00, 0x20]),
        DataField {
            field_type: DataFieldType::HdlcFcsOk,
            data: vec![0xFF, 0xFF, 0x01, 0x00, 0x20],
        }
    );
    assert_eq!(
        t4_data(&[7, 8]),
        DataField {
            field_type: DataFieldType::T4NonEcm,
            data: vec![7, 8],
        }
    );
}

#[test]
fn receive_loop_returns_the_first_packet() {
    let broken = RtcError::Transport("broken".to_string());
    assert!(matches!(
        next_recv_action(FaxInput::Polled(Ok(None))),
        FaxAction::Rest(5)
    ));
    assert!(matches!(
        next_recv_action(FaxInput::Polled(Ok(Some(vec![1])))),
        FaxAction::Decode(payload) if payload == vec![1]
    ));
    assert!(matches!(
        next_recv_action(FaxInput::Decoded(Err(broken.clone()))),
        FaxAction::Poll
    ));
    assert!(matches!(
        next_recv_action(FaxInput::Decoded(Ok(T30Indicator::Cng.packet()))),
        FaxAction::Return(Some(IfpPacket::T30Indicator(v))) if v == vec![T30Indicator::Cng]
    ));
    assert!(matches!(
        next_recv_action(FaxInput::Polled(Err(broken))),
        FaxAction::Return(None)
    ));
}

#[test]
fn bind_failure_names_its_cause() {
    assert_eq!(
        RtcError::bind_failure("address in use"),
        RtcError::Transport("bind: address in use".to_string())
    );
}
