//! T.30 sessions.

use rustrtc::t38::{
    HdlcFrameType, T30Event, T30FaxConfig, T30Phase, T30Resolution, T30Session,
};

#[test]
fn test_t30_session_initial_state() {
    let session = T30Session::new(T30FaxConfig::default());
    assert_eq!(session.phase, T30Phase::Idle);
    assert_eq!(session.page_number, 0);
    assert!(session.page_data.is_empty());
}

#[test]
fn test_t30_start_calling() {
    let mut session = T30Session::new(T30FaxConfig::default());
    session.start_calling();
    assert_eq!(session.phase, T30Phase::CallingToneSent);
}

#[test]
fn test_t30_start_called() {
    let mut session = T30Session::new(T30FaxConfig::default());
    session.start_called();
    assert_eq!(session.phase, T30Phase::CalledToneReceived);
}

#[test]
fn test_t30_receive_dis() {
    let config = T30FaxConfig {
        ecm_supported: true,
        ..T30FaxConfig::default()
    };
    let mut session = T30Session::new(config);
    session.start_called();

    // DIS frame with ECM bit set and 14400 max rate
    // BIT 7 (0x80) = ECM, BIT 8 = Fine
    // Bits 10-12 = 4 for 14400
    let dis_data = vec![0x80, 0x20 | 0x01]; // ECM + Fine, rate=4 (14400)

    session.receive_dis(&dis_data).unwrap();
    assert_eq!(session.phase, T30Phase::Premessage);
    assert!(session.remote_config.is_some());

    let remote = session.remote_config.as_ref().unwrap();
    assert!(remote.ecm_supported);
}

#[test]
fn test_t30_send_dcs() {
    let mut session = T30Session::new(T30FaxConfig {
        ecm_supported: true,
        ..T30FaxConfig::default()
    });
    session.start_called();

    // Remote also supports ECM
    session.remote_config = Some(T30FaxConfig {
        ecm_supported: true,
        ..T30FaxConfig::default()
    });

    let dcs = session.send_dcs();
    assert_eq!(dcs.len(), 2);
    assert!(dcs[0] & 0x80 != 0); // ECM bit should be set
}

#[test]
fn test_t30_confirm_receipt() {
    let mut session = T30Session::new(T30FaxConfig::default());
    session.page_data = vec![0x00; 100];
    session.change_phase(T30Phase::Training);

    session.confirm_receipt();
    assert_eq!(session.phase, T30Phase::ReadyToTransmit);
    assert_eq!(session.page_number, 1);

    let event = session.events.back().unwrap();
    match event {
        T30Event::PageTransferred { page, size } => {
            assert_eq!(*page, 1);
            assert_eq!(*size, 100);
        }
        _ => panic!("expected PageTransferred event"),
    }
}

#[test]
fn test_t30_end_of_page_and_mcf() {
    let mut session = T30Session::new(T30FaxConfig::default());
    session.change_phase(T30Phase::TransmittingPage);

    session.end_of_page();
    assert_eq!(session.phase, T30Phase::PostPage);

    session.receive_mcf();
    assert_eq!(session.phase, T30Phase::Disconnecting);
}

#[test]
fn test_t30_send_dcn() {
    let mut session = T30Session::new(T30FaxConfig::default());
    session.send_dcn();
    assert_eq!(session.phase, T30Phase::Disconnecting);

    let event = session.events.back().unwrap();
    assert_eq!(*event, T30Event::Disconnected);
}

#[test]
fn test_t30_receive_page_data() {
    let mut session = T30Session::new(T30FaxConfig::default());
    assert!(session.page_data.is_empty());

    session.receive_page_data(&[0x00, 0x01, 0x02]);
    assert_eq!(session.page_data.len(), 3);

    session.complete_page_reception();
    assert_eq!(session.page_number, 1);
    assert!(session.page_data.is_empty());

    let event = session.events.back().unwrap();
    match event {
        T30Event::PageReceived { page, size } => {
            assert_eq!(*page, 1);
            assert_eq!(*size, 3);
        }
        _ => panic!("expected PageReceived event"),
    }
}

#[test]
fn test_t30_full_session_flow() {
    let config = T30FaxConfig {
        ecm_supported: true,
        local_id: "TEST001".to_string(),
        ..T30FaxConfig::default()
    };
    let mut session = T30Session::new(config);

    // Calling side flow
    session.start_calling();
    assert_eq!(session.phase, T30Phase::CallingToneSent);

    // Wait for CED from called side - simulate phase change
    // In real impl, CNG/CED detection would trigger this
    // For now, move to premessage via DIS reception
    let mut called_session = T30Session::new(T30FaxConfig::default());
    called_session.start_called();

    // Called side sends DIS
    let dis_data = vec![0x00, 0x00]; // no ECM, standard resolution
    called_session.receive_dis(&dis_data).unwrap();
    assert_eq!(called_session.phase, T30Phase::Premessage);

    // Send DCS from called side
    let _dcs = called_session.send_dcs();
    called_session.change_phase(T30Phase::Training);

    // Confirm receipt
    called_session.confirm_receipt();
    assert_eq!(called_session.phase, T30Phase::ReadyToTransmit);

    // Transmit page
    called_session.change_phase(T30Phase::TransmittingPage);

    // End page
    called_session.end_of_page();
    assert_eq!(called_session.phase, T30Phase::PostPage);

    // Receive MCF
    called_session.receive_mcf();
    assert_eq!(called_session.phase, T30Phase::Disconnecting);

    // Disconnect
    called_session.send_dcn();
    assert_eq!(called_session.phase, T30Phase::Disconnecting);
}

#[test]
fn test_t30_reset() {
    let mut session = T30Session::new(T30FaxConfig::default());
    session.start_calling();
    session.page_number = 5;
    session.page_data = vec![0x00; 100];
    session.remote_config = Some(T30FaxConfig::default());

    session.reset();
    assert_eq!(session.phase, T30Phase::Idle);
    assert_eq!(session.page_number, 0);
    assert!(session.page_data.is_empty());
    assert!(session.remote_config.is_none());
}

#[test]
fn test_t30_events_logged_on_phase_transitions() {
    let mut session = T30Session::new(T30FaxConfig::default());

    // Phase transitions should generate events
    session.start_calling();
    session.start_called();

    let events: Vec<_> = session.events.iter().collect();
    assert_eq!(events.len(), 2);

    match events[0] {
        T30Event::PhaseChange(T30Phase::Idle, T30Phase::CallingToneSent) => {}
        _ => panic!("unexpected event"),
    }

    match events[1] {
        T30Event::PhaseChange(T30Phase::CallingToneSent, T30Phase::CalledToneReceived) => {}
        _ => panic!("unexpected event"),
    }
}

#[test]
fn test_fax_t30_sm_event_logging() {
    let mut caller = T30Session::new(T30FaxConfig::default());

    caller.start_calling();
    assert_eq!(caller.phase, T30Phase::CallingToneSent);

    caller.start_called();
    assert_eq!(caller.phase, T30Phase::CalledToneReceived);

    let events: Vec<_> = caller.events.iter().collect();
    assert_eq!(events.len(), 2);

    match events[0] {
        T30Event::PhaseChange(T30Phase::Idle, T30Phase::CallingToneSent) => {}
        _ => panic!("unexpected first event"),
    }
    match events[1] {
        T30Event::PhaseChange(T30Phase::CallingToneSent, T30Phase::CalledToneReceived) => {}
        _ => panic!("unexpected second event"),
    }
}

#[test]
fn log_replays_to_the_current_phase() {
    let mut session = T30Session::new(T30FaxConfig::default());
    session.start_called();
    session.receive_dis(&[0x80, 0x10]).unwrap();
    session.change_phase(T30Phase::Training);
    session.confirm_receipt();
    session.send_dcn();

    let mut phase = T30Phase::Idle;
    for event in &session.events {
        if let T30Event::PhaseChange(from, to) = event {
            assert_eq!(*from, phase);
            phase = *to;
        }
    }
    assert_eq!(phase, session.phase);
}

#[test]
fn pages_sent_and_received_share_one_counter() {
    let mut session = T30Session::new(T30FaxConfig::default());
    session.receive_page_data(&[1, 2]);
    session.complete_page_reception();
    session.change_phase(T30Phase::Training);
    session.confirm_receipt();
    session.complete_page_reception();
    assert_eq!(session.page_number, 3);
    let events = session.drain_events();
    assert_eq!(events[0], T30Event::PageReceived { page: 1, size: 2 });
    assert_eq!(events[3], T30Event::PageTransferred { page: 2, size: 0 });
    assert_eq!(events[4], T30Event::PageReceived { page: 3, size: 0 });
}

#[test]
fn reset_keeps_configuration_and_log() {
    let mut session = T30Session::new(T30FaxConfig {
        max_bitrate: 9600,
        ..T30FaxConfig::default()
    });
    session.start_called();
    session.receive_dis(&[0x00, 0x00]).unwrap();
    session.reset();
    assert_eq!(session.local_config.max_bitrate, 9600);
    assert!(session.remote_config.is_none());
    assert_eq!(session.events.len(), 2);
}

#[test]
fn entering_a_phase_twice_logs_it_once() {
    let mut session = T30Session::new(T30FaxConfig::default());
    session.start_calling();
    session.start_calling();
    assert_eq!(session.events.len(), 1);
}

#[test]
fn error_correction_is_commanded_only_if_both_sides_have_it() {
    for (local, octet, expected) in [
        (true, 0x80u8, 0x80u8),
        (true, 0x7F, 0x00),
        (false, 0x80, 0x00),
        (false, 0x00, 0x00),
    ] {
        let mut session = T30Session::new(T30FaxConfig {
            ecm_supported: local,
            ..T30FaxConfig::default()
        });
        session.start_called();
        session.receive_dis(&[octet, 0x00]).unwrap();
        assert_eq!(session.send_dcs(), vec![expected, 0x00]);
    }
}

#[test]
fn dcs_without_dis_commands_no_error_correction() {
    let mut session = T30Session::new(T30FaxConfig::default());
    assert_eq!(session.send_dcs(), vec![0x00, 0x00]);
}

#[test]
fn dis_announces_its_bit_rate() {
    for (code, rate) in [
        (0u8, 2400u32),
        (1, 4800),
        (2, 9600),
        (3, 12000),
        (4, 14400),
        (5, 2400),
        (6, 2400),
        (7, 2400),
    ] {
        let mut session = T30Session::new(T30FaxConfig::default());
        session.start_called();
        session.receive_dis(&[0x00, (code << 3) | 0xC7]).unwrap();
        assert_eq!(session.remote_config.as_ref().unwrap().max_bitrate, rate);
        // The other bits do not count.
        session.receive_dis(&[0x00, code << 3]).unwrap();
        assert_eq!(session.remote_config.unwrap().max_bitrate, rate);
    }
}

#[test]
fn dis_is_ignored_when_short_or_not_expected() {
    let mut session = T30Session::new(T30FaxConfig::default());
    session.receive_dis(&[0x80, 0x20]).unwrap();
    assert_eq!(session.phase, T30Phase::Idle);
    assert!(session.remote_config.is_none());

    session.start_called();
    session.receive_dis(&[0x80]).unwrap();
    assert_eq!(session.phase, T30Phase::CalledToneReceived);
    assert!(session.remote_config.is_none());
}

#[test]
fn page_data_in_pieces_is_page_data_at_once() {
    let mut pieces = T30Session::new(T30FaxConfig::default());
    pieces.receive_page_data(&[1]);
    pieces.receive_page_data(&[]);
    pieces.receive_page_data(&[2, 3]);
    let mut once = T30Session::new(T30FaxConfig::default());
    once.receive_page_data(&[1, 2, 3]);
    assert_eq!(pieces.page_data, once.page_data);
}

#[test]
fn steps_out_of_phase_change_nothing() {
    let mut session = T30Session::new(T30FaxConfig::default());
    session.confirm_receipt();
    session.end_of_page();
    session.receive_mcf();
    assert_eq!(session.phase, T30Phase::Idle);
    assert_eq!(session.page_number, 0);
    assert!(session.events.is_empty());
}

#[test]
fn disconnect_is_logged_in_every_phase() {
    for phase in [
        T30Phase::Idle,
        T30Phase::Training,
        T30Phase::ReceivingPage,
        T30Phase::Disconnecting,
    ] {
        let mut session = T30Session::new(T30FaxConfig::default());
        session.change_phase(phase);
        session.send_dcn();
        assert_eq!(session.phase, T30Phase::Disconnecting);
        assert_eq!(session.events.back(), Some(&T30Event::Disconnected));
    }
}

#[test]
fn drained_events_are_gone() {
    let mut session = T30Session::new(T30FaxConfig::default());
    session.start_calling();
    session.send_dcn();
    assert_eq!(
        session.drain_events(),
        vec![
            T30Event::PhaseChange(T30Phase::Idle, T30Phase::CallingToneSent),
            T30Event::PhaseChange(T30Phase::CallingToneSent, T30Phase::Disconnecting),
            T30Event::Disconnected,
        ]
    );
    assert!(session.drain_events().is_empty());
    assert_eq!(session.phase, T30Phase::Disconnecting);
}

#[test]
fn default_configuration() {
    let config = T30FaxConfig::default();
    assert_eq!(config.max_bitrate, 14400);
    assert_eq!(
        config.resolutions,
        vec![T30Resolution::Standard, T30Resolution::Fine]
    );
    assert!(config.ecm_supported);
    assert_eq!(config.local_id, "");
}

#[test]
fn frame_type_codes() {
    assert_eq!(HdlcFrameType::Dis.code(), 0x01);
    assert_eq!(HdlcFrameType::Ftt.code(), 0x0B);
    assert_eq!(HdlcFrameType::Eop.code(), 0x10);
    assert_eq!(HdlcFrameType::Dcn.code(), 0x19);
    assert_eq!(HdlcFrameType::Rtn.code(), 0x1C);
}

#[test]
fn only_the_rate_bits_decide_the_rate() {
    for octet in 0..=255u8 {
        let rate = T30Session::dis_bitrate(octet);
        assert_eq!(rate, T30Session::dis_bitrate(octet & 0x38));
        assert!([2400, 4800, 9600, 12000, 14400].contains(&rate));
    }
}
