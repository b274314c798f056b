//! Records, application data and transport states.

use bytes::{Bytes, BytesMut};

use rustrtc::transports::dtls::{
    fragment_application_data, state_after_wait, wait_connected, wait_for_terminal_state,
    CollectStep, ContentType, DtlsError, DtlsRecord, DtlsState, ProtocolVersion, RecordCollector,
    RecordEvent, TransportEvent, WaitEvent, WaitStep, MAX_APP_DATA_RECORD_SIZE,
};

fn send_and_collect_records(payload: &[u8]) -> (usize, Vec<u8>) {
    let mut records = fragment_application_data(payload).into_iter();
    let mut collector = RecordCollector::new(payload.len());
    while collector.next_step(0, 5000) == Ok(CollectStep::Receive) {
        let record = records.next().expect("a record");
        assert!(
            record.len() <= MAX_APP_DATA_RECORD_SIZE,
            "record {} exceeds the MTU-safe ceiling: {} bytes",
            collector.record_count,
            record.len()
        );
        collector.take_event(RecordEvent::Received(record)).unwrap();
    }
    assert!(records.next().is_none());
    (collector.record_count, collector.received)
}

#[test]
fn test_dtls_application_data_fragmentation_roundtrip() {
    // Deterministic 5000-byte payload — far larger than one MTU-sized record.
    let payload: Vec<u8> = (0..5000).map(|i| (i % 251) as u8).collect();

    let (record_count, received) = send_and_collect_records(&payload);

    assert!(
        record_count > 1,
        "payload was not fragmented: expected >1 records, got {}",
        record_count
    );
    assert_eq!(
        received, payload,
        "reassembled payload must match the original"
    );
}

#[test]
fn test_dtls_application_data_fragmentation_boundary() {
    // Exactly one record at the ceiling; two records just past it.
    let (count, received) = send_and_collect_records(&vec![7u8; MAX_APP_DATA_RECORD_SIZE]);
    assert_eq!(
        count, 1,
        "payload == record ceiling must be a single record"
    );
    assert_eq!(received.len(), MAX_APP_DATA_RECORD_SIZE);

    let (count2, received2) = send_and_collect_records(&vec![9u8; MAX_APP_DATA_RECORD_SIZE + 1]);
    assert_eq!(
        count2, 2,
        "payload == ceiling+1 must span exactly two records"
    );
    assert_eq!(received2.len(), MAX_APP_DATA_RECORD_SIZE + 1);
}

#[test]
fn empty_payload_takes_no_record() {
    assert!(fragment_application_data(&[]).is_empty());
    assert_eq!(
        RecordCollector::new(0).next_step(9, 1),
        Ok(CollectStep::Done)
    );
}

#[test]
fn collecting_fails_as_it_should() {
    let mut collector = RecordCollector::new(10);
    assert_eq!(
        collector.take_event(RecordEvent::Received(vec![0; MAX_APP_DATA_RECORD_SIZE + 1])),
        Err(DtlsError::RecordTooLong)
    );
    assert_eq!(
        collector.take_event(RecordEvent::Silence),
        Err(DtlsError::RecordTimedOut)
    );
    assert_eq!(
        collector.take_event(RecordEvent::Closed),
        Err(DtlsError::ChannelClosed)
    );
    assert_eq!(collector.record_count, 0);
    assert_eq!(collector.next_step(4999, 5000), Ok(CollectStep::Receive));
    assert_eq!(
        collector.next_step(5000, 5000),
        Err(DtlsError::CollectTimedOut)
    );
}

#[test]
fn record_on_the_wire() {
    let record = DtlsRecord {
        content_type: ContentType::Handshake,
        version: ProtocolVersion::dtls_1_2(),
        epoch: 0x0102,
        sequence_number: 0x0304_0506_0708,
        payload: Bytes::from(vec![0xAA, 0xBB]),
    };
    let mut buf = BytesMut::new();
    record.encode(&mut buf);
    assert_eq!(
        &buf[..],
        &[22, 254, 253, 1, 2, 3, 4, 5, 6, 7, 8, 0, 2, 0xAA, 0xBB]
    );

    record.encode(&mut buf);
    let mut reader = buf.freeze();
    for _ in 0..2 {
        let read = DtlsRecord::decode(&mut reader).unwrap().unwrap();
        assert_eq!(read.content_type, ContentType::Handshake);
        assert_eq!(read.epoch, 0x0102);
        assert_eq!(read.sequence_number, 0x0304_0506_0708);
        assert_eq!(&read.payload[..], &[0xAA, 0xBB]);
    }
    assert!(reader.is_empty());
}

#[test]
fn records_that_cannot_be_read() {
    let mut short = Bytes::from(vec![22, 254, 253, 0, 0, 0, 0, 0, 0, 0, 0, 0, 1]);
    assert!(DtlsRecord::decode(&mut short).unwrap().is_none());
    assert_eq!(short.len(), 13);
    let mut unknown = Bytes::from(vec![99, 254, 253, 0, 0, 0, 0, 0, 0, 0, 0, 0, 0]);
    assert_eq!(
        DtlsRecord::decode(&mut unknown).err(),
        Some(DtlsError::UnknownContentType(99))
    );
}

#[test]
fn content_type_codes() {
    for (content_type, code) in [
        (ContentType::ChangeCipherSpec, 20),
        (ContentType::Alert, 21),
        (ContentType::Handshake, 22),
        (ContentType::ApplicationData, 23),
    ] {
        assert_eq!(content_type.code(), code);
        assert_eq!(ContentType::from_code(code), Some(content_type));
    }
    assert_eq!(ContentType::from_code(24), None);
}

#[test]
fn waiting_for_the_handshake_to_end() {
    for state in [DtlsState::Connected, DtlsState::Failed, DtlsState::Closed] {
        assert_eq!(
            wait_for_terminal_state(state, 9000, 5000),
            WaitStep::Reached(state)
        );
    }
    assert_eq!(
        wait_for_terminal_state(DtlsState::Handshaking, 1000, 5000),
        WaitStep::Wait(4000)
    );
    assert_eq!(
        wait_for_terminal_state(DtlsState::Handshaking, 5000, 5000),
        WaitStep::TimedOut(DtlsState::Handshaking)
    );
}

#[test]
fn waiting_for_the_connection() {
    assert_eq!(
        wait_connected(DtlsState::Connected, 9000, 5000),
        WaitStep::Reached(DtlsState::Connected)
    );
    for state in [DtlsState::Failed, DtlsState::Closed] {
        assert_eq!(
            wait_connected(state, 0, 5000),
            WaitStep::Unreachable(state)
        );
    }
    assert_eq!(
        wait_connected(DtlsState::Handshaking, 4999, 5000),
        WaitStep::Wait(1)
    );
    assert_eq!(
        wait_connected(DtlsState::Handshaking, 5000, 5000),
        WaitStep::TimedOut(DtlsState::Handshaking)
    );
}

#[test]
fn transport_that_is_cut_off_ends() {
    let handshaking = DtlsState::Handshaking;
    let connected = handshaking.after(TransportEvent::HandshakeFinished);
    assert_eq!(connected, DtlsState::Connected);
    assert_eq!(
        handshaking.after(TransportEvent::SocketCleared),
        DtlsState::Failed
    );
    assert_eq!(
        handshaking.after(TransportEvent::HandshakeTimedOut),
        DtlsState::Failed
    );
    assert_eq!(
        handshaking.after(TransportEvent::HandshakeFailed),
        DtlsState::Failed
    );
    assert_eq!(
        connected.after(TransportEvent::SocketCleared),
        DtlsState::Closed
    );
    assert_eq!(
        connected.after(TransportEvent::CloseRequested),
        DtlsState::Closed
    );
    assert_eq!(
        connected.after(TransportEvent::HandshakeTimedOut),
        DtlsState::Connected
    );
    assert_eq!(
        connected.after(TransportEvent::HandshakeFailed),
        DtlsState::Failed
    );
    assert_eq!(
        DtlsState::Closed.after(TransportEvent::HandshakeFailed),
        DtlsState::Closed
    );
    assert_eq!(
        DtlsState::Closed.after(TransportEvent::HandshakeFinished),
        DtlsState::Closed
    );
}

#[test]
fn waiting_takes_the_first_state_that_decides() {
    let observed = [
        (DtlsState::Handshaking, 0),
        (DtlsState::Handshaking, 4999),
        (DtlsState::Failed, 5000),
        (DtlsState::Connected, 5001),
    ];
    let first = |step: fn(DtlsState, u64, u64) -> WaitStep, deadline: u64| {
        observed
            .iter()
            .map(|(state, now)| step(*state, *now, deadline))
            .find(|step| !matches!(step, WaitStep::Wait(_)))
    };
    assert_eq!(
        first(wait_connected, 6000),
        Some(WaitStep::Unreachable(DtlsState::Failed))
    );
    assert_eq!(
        first(wait_for_terminal_state, 6000),
        Some(WaitStep::Reached(DtlsState::Failed))
    );
    assert_eq!(
        first(wait_connected, 4000),
        Some(WaitStep::TimedOut(DtlsState::Handshaking))
    );
}

#[test]
fn collecting_stops_when_there_is_enough() {
    let mut collector = RecordCollector::new(5);
    let mut records = [vec![1, 2], vec![], vec![3, 4, 5, 6], vec![7]].into_iter();
    while collector.next_step(0, 1) == Ok(CollectStep::Receive) {
        collector
            .take_event(RecordEvent::Received(records.next().unwrap()))
            .unwrap();
    }
    assert_eq!(collector.record_count, 3);
    assert_eq!(collector.received, vec![1, 2, 3, 4, 5, 6]);
    assert_eq!(records.next(), Some(vec![7]));
}

#[test]
fn wait_without_a_new_state_fails() {
    assert_eq!(
        state_after_wait(WaitEvent::Changed(DtlsState::Connected)),
        Ok(DtlsState::Connected)
    );
    assert_eq!(
        state_after_wait(WaitEvent::Elapsed),
        Err(DtlsError::WaitElapsed)
    );
    assert_eq!(
        state_after_wait(WaitEvent::Closed),
        Err(DtlsError::StateChannelClosed)
    );
}
