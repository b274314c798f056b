//! What each step of a T.30 session does to each part of it.

use vstd::prelude::*;

use crate::t38::t30::{announced_bitrate, HdlcFrameType, T30Event, T30FaxConfig};
use crate::t38::t30::{T30FaxConfigView, T30Phase, T30Resolution, T30Session, T30SessionView};
use crate::t38::t30_laws::{run, T30Step};

verus! {

/// A session is seen as what its fields hold.
pub proof fn session_is_seen_as_it_is(session: T30Session)
    ensures
        session@.phase == session.phase,
        session@.local_config == session.local_config@,
        session@.remote_config is Some <==> session.remote_config is Some,
        session.remote_config matches Some(remote) ==> session@.remote_config == Some(remote@),
        session@.page_number == session.page_number,
        session@.page_data == session.page_data@,
        session@.hdlc_buffer == session.hdlc_buffer@,
        session@.events == session.events@,
{
}

/// A configuration is seen as what its fields hold.
pub proof fn config_is_seen_as_it_is(config: T30FaxConfig)
    ensures
        config@.max_bitrate == config.max_bitrate,
        config@.resolutions == config.resolutions@,
        config@.ecm_supported == config.ecm_supported,
        config@.local_id == config.local_id@,
{
}

/// Whether two sessions agree in everything but their image data, remote station,
/// page counter, phase and log.
pub open spec fn same_settings(one: T30SessionView, other: T30SessionView) -> bool {
    &&& one.local_config == other.local_config
    &&& one.hdlc_buffer == other.hdlc_buffer
}

/// A new session is idle, knows nothing of the remote station, holds no data and
/// has an empty log.
pub proof fn new_session_is_empty(local_config: T30FaxConfigView)
    ensures
        ({
            let session = T30SessionView::initial(local_config);
            &&& session.phase == T30Phase::Idle
            &&& session.local_config == local_config
            &&& session.remote_config is None
            &&& session.page_number == 0
            &&& session.page_data.len() == 0
            &&& session.hdlc_buffer.len() == 0
            &&& session.events.len() == 0
        }),
{
}

/// Entering a phase leads there. The log gains the move if it is one and nothing
/// otherwise, and the rest stays.
pub proof fn entering_leads_there(session: T30SessionView, phase: T30Phase)
    ensures
        ({
            let after = session.entering(phase);
            &&& after.phase == phase
            &&& session.phase != phase ==> after.events == session.events.push(
                T30Event::PhaseChange(session.phase, phase),
            )
            &&& session.phase == phase ==> after.events == session.events
            &&& after.remote_config == session.remote_config
            &&& after.page_number == session.page_number
            &&& after.page_data == session.page_data
            &&& same_settings(session, after)
        }),
{
}

/// After image data in pieces of any size, the page buffer holds what it held before
/// and then the pieces, octet for octet. Nothing else changes.
pub proof fn page_buffer_holds_the_pieces(session: T30SessionView, pieces: Seq<Seq<u8>>)
    ensures
        ({
            let after = run(
                session,
                pieces.map_values(|piece: Seq<u8>| T30Step::PageData(piece)),
            );
            &&& after.page_data == session.page_data + pieces.flatten()
            &&& after.phase == session.phase
            &&& after.events == session.events
            &&& after.page_number == session.page_number
            &&& after.remote_config == session.remote_config
            &&& same_settings(session, after)
        }),
    decreases pieces.len(),
{
    let steps = pieces.map_values(|piece: Seq<u8>| T30Step::PageData(piece));
    if pieces.len() == 0 {
        assert(session.page_data + pieces.flatten() =~= session.page_data);
    } else {
        let first = pieces.drop_last();
        page_buffer_holds_the_pieces(session, first);
        assert(steps.drop_last() =~= first.map_values(
            |piece: Seq<u8>| T30Step::PageData(piece),
        ));
        assert(pieces =~= first.push(pieces.last()));
        first.lemma_flatten_push(pieces.last());
        assert(session.page_data + first.flatten() + pieces.last() =~= session.page_data
            + pieces.flatten());
    }
}

/// Image data goes behind the image data that is there, octet for octet.
pub proof fn page_data_goes_behind(session: T30SessionView, data: Seq<u8>)
    ensures
        ({
            let after = session.with_page_data(data);
            &&& after.page_data.len() == session.page_data.len() + data.len()
            &&& forall|i: int|
                0 <= i < session.page_data.len() ==> after.page_data[i] == session.page_data[i]
            &&& forall|i: int|
                0 <= i < data.len() ==> #[trigger] after.page_data[session.page_data.len() + i]
                    == data[i]
            &&& after.phase == session.phase
            &&& after.events == session.events
            &&& after.page_number == session.page_number
            &&& after.remote_config == session.remote_config
            &&& same_settings(session, after)
        }),
{
}

/// The rate that a DIS frame announces is the one assigned to bits 3 to 5 of its
/// second octet.
pub proof fn rate_code_is_read(octet: u8)
    ensures
        (octet >> 3) & 7 == 0 ==> announced_bitrate(octet) == 2400,
        (octet >> 3) & 7 == 1 ==> announced_bitrate(octet) == 4800,
        (octet >> 3) & 7 == 2 ==> announced_bitrate(octet) == 9600,
        (octet >> 3) & 7 == 3 ==> announced_bitrate(octet) == 12000,
        (octet >> 3) & 7 == 4 ==> announced_bitrate(octet) == 14400,
        (octet >> 3) & 7 > 4 ==> announced_bitrate(octet) == 2400,
{
    assert((octet >> 3) & 7 == (octet / 8) % 8) by (bit_vector);
}

/// What a DIS frame announces is kept of the remote station, each part from its own
/// bits: the rate from bits 3 to 5 of the second octet, error correction from the
/// top bit of the first.
pub proof fn dis_is_kept_part_by_part(session: T30SessionView, dis: Seq<u8>)
    requires
        session.phase == T30Phase::CalledToneReceived || session.phase == T30Phase::Premessage,
        dis.len() >= 2,
    ensures
        ({
            let after = session.after_dis(dis);
            let code = (dis[1] >> 3) & 7;
            &&& after.remote_config matches Some(remote) && {
                &&& code == 0 ==> remote.max_bitrate == 2400
                &&& code == 1 ==> remote.max_bitrate == 4800
                &&& code == 2 ==> remote.max_bitrate == 9600
                &&& code == 3 ==> remote.max_bitrate == 12000
                &&& code == 4 ==> remote.max_bitrate == 14400
                &&& code > 4 ==> remote.max_bitrate == 2400
                &&& remote.ecm_supported <==> dis[0] & 0x80 == 0x80
                &&& remote.resolutions == seq![T30Resolution::Standard]
                &&& remote.local_id.len() == 0
            }
            &&& after.phase == T30Phase::Premessage
            &&& session.phase == T30Phase::Premessage ==> after.events == session.events
            &&& session.phase != T30Phase::Premessage ==> after.events == session.events.push(
                T30Event::PhaseChange(session.phase, T30Phase::Premessage),
            )
            &&& after.page_number == session.page_number
            &&& after.page_data == session.page_data
            &&& same_settings(session, after)
        }),
{
    let first = dis[0];
    assert(first & 0x80 == 0x80 <==> first >= 0x80) by (bit_vector);
    rate_code_is_read(dis[1]);
}

/// Two DIS frames announce the same rate if their rate bits agree, and the same
/// error correction if their top bits agree, whatever else they hold.
pub proof fn dis_parts_are_independent(session: T30SessionView, one: Seq<u8>, other: Seq<u8>)
    requires
        session.phase == T30Phase::CalledToneReceived || session.phase == T30Phase::Premessage,
        one.len() >= 2,
        other.len() >= 2,
    ensures
        one[1] & 0x38 == other[1] & 0x38 ==> (session.after_dis(
            one,
        ).remote_config->0).max_bitrate == (session.after_dis(
            other,
        ).remote_config->0).max_bitrate,
        one[0] & 0x80 == other[0] & 0x80 ==> (session.after_dis(
            one,
        ).remote_config->0).ecm_supported == (session.after_dis(
            other,
        ).remote_config->0).ecm_supported,
{
    dis_is_kept_part_by_part(session, one);
    dis_is_kept_part_by_part(session, other);
    let a = one[1];
    let b = other[1];
    assert(a & 0x38 == b & 0x38 ==> (a >> 3) & 7 == (b >> 3) & 7) by (bit_vector);
}

/// A DIS frame that is too short, or comes in another phase, changes nothing.
pub proof fn other_dis_is_ignored(session: T30SessionView, dis: Seq<u8>)
    requires
        dis.len() < 2 || (session.phase != T30Phase::CalledToneReceived && session.phase
            != T30Phase::Premessage),
    ensures
        session.after_dis(dis) == session,
{
}

/// A DCS frame has two octets. The top bit of the first commands error correction
/// exactly if both stations support it; no other bit is set.
pub proof fn dcs_commands_error_correction(session: T30SessionView)
    ensures
        session.dcs().len() == 2,
        session.dcs()[0] & 0x80 == 0x80 <==> session.local_config.ecm_supported && (
        session.remote_config matches Some(remote) && remote.ecm_supported),
        session.dcs()[0] & 0x7F == 0,
        session.dcs()[1] == 0,
{
    assert(0x80u8 & 0x80u8 == 0x80u8) by (bit_vector);
    assert(0u8 & 0x80u8 == 0u8) by (bit_vector);
    assert(0x80u8 & 0x7Fu8 == 0u8) by (bit_vector);
    assert(0u8 & 0x7Fu8 == 0u8) by (bit_vector);
}

/// A receipt that is confirmed during training counts one page, logs the move and
/// then the page with the size of the page buffer, and keeps the buffer. At other
/// times it changes nothing.
pub proof fn confirmation_counts_a_page(session: T30SessionView)
    requires
        0 <= session.page_number < u32::MAX,
        session.page_data.len() <= usize::MAX,
    ensures
        session.phase != T30Phase::Training ==> session.after_cfr() == session,
        session.phase == T30Phase::Training ==> {
            let after = session.after_cfr();
            &&& after.phase == T30Phase::ReadyToTransmit
            &&& after.page_number == session.page_number + 1
            &&& after.events.len() == session.events.len() + 2
            &&& after.events.drop_last() == session.events.push(
                T30Event::PhaseChange(T30Phase::Training, T30Phase::ReadyToTransmit),
            )
            &&& after.events.last() matches T30Event::PageTransferred { page, size } && page
                == session.page_number + 1 && size == session.page_data.len()
            &&& after.page_data == session.page_data
            &&& after.remote_config == session.remote_config
            &&& same_settings(session, after)
        },
{
    let moved = session.events.push(
        T30Event::PhaseChange(T30Phase::Training, T30Phase::ReadyToTransmit),
    );
    if session.phase == T30Phase::Training {
        assert(session.after_cfr().events.drop_last() =~= moved);
    }
}

/// The end of a page ends its transmission, and a confirmation after a page ends the
/// call. At other times they change nothing.
pub proof fn page_end_and_confirmation(session: T30SessionView)
    ensures
        session.phase == T30Phase::TransmittingPage ==> session.after_eop() == session.entering(
            T30Phase::PostPage,
        ) && session.after_eop().phase == T30Phase::PostPage,
        session.phase != T30Phase::TransmittingPage ==> session.after_eop() == session,
        session.phase == T30Phase::PostPage ==> session.after_mcf() == session.entering(
            T30Phase::Disconnecting,
        ) && session.after_mcf().phase == T30Phase::Disconnecting,
        session.phase != T30Phase::PostPage ==> session.after_mcf() == session,
{
}

/// A disconnect leads to the last phase and logs the move, if it is one, and the
/// disconnect. The rest stays.
pub proof fn disconnect_is_the_last_entry(session: T30SessionView)
    ensures
        ({
            let after = session.after_dcn();
            let moved = if session.phase == T30Phase::Disconnecting {
                session.events
            } else {
                session.events.push(
                    T30Event::PhaseChange(session.phase, T30Phase::Disconnecting),
                )
            };
            &&& after.phase == T30Phase::Disconnecting
            &&& after.events == moved.push(T30Event::Disconnected)
            &&& after.page_number == session.page_number
            &&& after.page_data == session.page_data
            &&& after.remote_config == session.remote_config
            &&& same_settings(session, after)
        }),
{
}

/// A page that was received in full is counted and logged with its number and size,
/// and leaves the page buffer empty. The phase stays.
pub proof fn completed_page_is_counted(session: T30SessionView)
    requires
        0 <= session.page_number < u32::MAX,
        session.page_data.len() <= usize::MAX,
    ensures
        ({
            let after = session.after_page();
            &&& after.page_number == session.page_number + 1
            &&& after.page_data.len() == 0
            &&& after.events.drop_last() == session.events
            &&& after.events.last() matches T30Event::PageReceived { page, size } && page
                == session.page_number + 1 && size == session.page_data.len()
            &&& after.phase == session.phase
            &&& after.remote_config == session.remote_config
            &&& same_settings(session, after)
        }),
{
    assert(session.after_page().events.drop_last() =~= session.events);
}

/// A reset forgets the remote station, the pages and the data, and keeps the local
/// configuration and the log.
pub proof fn reset_forgets_all_but_settings_and_log(session: T30SessionView)
    ensures
        ({
            let after = session.after_reset();
            &&& after.phase == T30Phase::Idle
            &&& after.remote_config is None
            &&& after.page_number == 0
            &&& after.page_data.len() == 0
            &&& after.hdlc_buffer.len() == 0
            &&& after.local_config == session.local_config
            &&& after.events == session.events
        }),
{
}

/// The codes of the HDLC frame types run in order in two ranges, one from 0x01 to
/// 0x0B and one from 0x10 to 0x1C.
pub proof fn frame_codes_run_in_two_ranges()
    ensures
        HdlcFrameType::Dis.spec_code() == 0x01,
        HdlcFrameType::Dcs.spec_code() == HdlcFrameType::Dis.spec_code() + 1,
        HdlcFrameType::Csi.spec_code() == HdlcFrameType::Dcs.spec_code() + 1,
        HdlcFrameType::Nsf.spec_code() == HdlcFrameType::Csi.spec_code() + 1,
        HdlcFrameType::Cfr.spec_code() == HdlcFrameType::Nsf.spec_code() + 1,
        HdlcFrameType::Tcf.spec_code() == HdlcFrameType::Cfr.spec_code() + 1,
        HdlcFrameType::Tsi.spec_code() == HdlcFrameType::Tcf.spec_code() + 1,
        HdlcFrameType::Sub.spec_code() == HdlcFrameType::Tsi.spec_code() + 1,
        HdlcFrameType::Sep.spec_code() == HdlcFrameType::Sub.spec_code() + 1,
        HdlcFrameType::Pwd.spec_code() == HdlcFrameType::Sep.spec_code() + 1,
        HdlcFrameType::Ftt.spec_code() == HdlcFrameType::Pwd.spec_code() + 1,
        HdlcFrameType::Eop.spec_code() == 0x10,
        HdlcFrameType::Mcf.spec_code() == HdlcFrameType::Eop.spec_code() + 1,
        HdlcFrameType::Mps.spec_code() == HdlcFrameType::Mcf.spec_code() + 1,
        HdlcFrameType::Eom.spec_code() == HdlcFrameType::Mps.spec_code() + 1,
        HdlcFrameType::Pps.spec_code() == HdlcFrameType::Eom.spec_code() + 1,
        HdlcFrameType::Ppr.spec_code() == HdlcFrameType::Pps.spec_code() + 1,
        HdlcFrameType::Eor.spec_code() == HdlcFrameType::Ppr.spec_code() + 1,
        HdlcFrameType::EorMsg.spec_code() == HdlcFrameType::Eor.spec_code() + 1,
        HdlcFrameType::Trc.spec_code() == HdlcFrameType::EorMsg.spec_code() + 1,
        HdlcFrameType::Dcn.spec_code() == HdlcFrameType::Trc.spec_code() + 1,
        HdlcFrameType::Pause.spec_code() == HdlcFrameType::Dcn.spec_code() + 1,
        HdlcFrameType::Continue.spec_code() == HdlcFrameType::Pause.spec_code() + 1,
        HdlcFrameType::Rtn.spec_code() == HdlcFrameType::Continue.spec_code() + 1,
{
}

} // verus!
