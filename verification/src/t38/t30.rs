//! T.30 fax session state machine.

use std::collections::VecDeque;

use vstd::prelude::*;

use crate::errors::RtcResult;

verus! {

/// T.30 fax phases.
#[derive(Debug, Clone, Copy, PartialEq, Eq, Structural)]
pub enum T30Phase {
    Idle,
    CallingToneSent,
    CalledToneReceived,
    Premessage,
    Training,
    ReadyToTransmit,
    TransmittingPage,
    PostPage,
    ReadyToReceive,
    ReceivingPage,
    Disconnecting,
}

/// T.30 fax resolution.
#[derive(Debug, Clone, Copy, PartialEq, Eq, Structural)]
pub enum T30Resolution {
    /// 1728 x 215 dpi (approx)
    Standard,
    /// 1728 x 215 dpi x 2
    Fine,
    /// 1728 x 391 dpi x 2
    SuperFine,
}

/// T.30 HDLC frame type identifiers (T.30 Annex A).
///
/// Some frames share a byte value in the protocol and are told apart by their
/// direction. Here every frame type has a [`code`](HdlcFrameType::code) of its
/// own. A cast to an integer does not give the code: it counts the variants.
#[derive(Debug, Clone, Copy, PartialEq, Eq, Structural)]
pub enum HdlcFrameType {
    /// Digital Identification Signal (called station capabilities)
    Dis,
    /// Digital Command Signal (transmitter capabilities)
    Dcs,
    /// Called Subscriber Identification
    Csi,
    /// Non-standard Facilities
    Nsf,
    /// Confirmation to Receive (ready for page)
    Cfr,
    /// Training Check Field identifier
    Tcf,
    /// Transmitter Subscriber Identification
    Tsi,
    /// Subaddress
    Sub,
    /// Selective Polling
    Sep,
    /// Password
    Pwd,
    /// Frame Number Information (ECM mode)
    Ftt,
    /// End of Procedure
    Eop,
    /// Message Confirmation
    Mcf,
    /// Message Polling
    Mps,
    /// Procedure Interrupt / End of Message
    Eom,
    /// Partial Page Signal
    Pps,
    /// Partial Page Request
    Ppr,
    /// End of Retransmission
    Eor,
    /// End of Retransmission Message
    EorMsg,
    /// Training Re-check
    Trc,
    /// Disconnect
    Dcn,
    /// Pause
    Pause,
    /// Continue
    Continue,
    /// Received line count (RTN)
    Rtn,
}

impl HdlcFrameType {
    /// The byte that identifies the frame type.
    pub open spec fn spec_code(self) -> u8 {
        match self {
            HdlcFrameType::Dis => 0x01,
            HdlcFrameType::Dcs => 0x02,
            HdlcFrameType::Csi => 0x03,
            HdlcFrameType::Nsf => 0x04,
            HdlcFrameType::Cfr => 0x05,
            HdlcFrameType::Tcf => 0x06,
            HdlcFrameType::Tsi => 0x07,
            HdlcFrameType::Sub => 0x08,
            HdlcFrameType::Sep => 0x09,
            HdlcFrameType::Pwd => 0x0A,
            HdlcFrameType::Ftt => 0x0B,
            HdlcFrameType::Eop => 0x10,
            HdlcFrameType::Mcf => 0x11,
            HdlcFrameType::Mps => 0x12,
            HdlcFrameType::Eom => 0x13,
            HdlcFrameType::Pps => 0x14,
            HdlcFrameType::Ppr => 0x15,
            HdlcFrameType::Eor => 0x16,
            HdlcFrameType::EorMsg => 0x17,
            HdlcFrameType::Trc => 0x18,
            HdlcFrameType::Dcn => 0x19,
            HdlcFrameType::Pause => 0x1A,
            HdlcFrameType::Continue => 0x1B,
            HdlcFrameType::Rtn => 0x1C,
        }
    }

    /// The byte that identifies the frame type.
    pub fn code(self) -> (code: u8)
        ensures
            code == self.spec_code(),
    {
        match self {
            HdlcFrameType::Dis => 0x01,
            HdlcFrameType::Dcs => 0x02,
            HdlcFrameType::Csi => 0x03,
            HdlcFrameType::Nsf => 0x04,
            HdlcFrameType::Cfr => 0x05,
            HdlcFrameType::Tcf => 0x06,
            HdlcFrameType::Tsi => 0x07,
            HdlcFrameType::Sub => 0x08,
            HdlcFrameType::Sep => 0x09,
            HdlcFrameType::Pwd => 0x0A,
            HdlcFrameType::Ftt => 0x0B,
            HdlcFrameType::Eop => 0x10,
            HdlcFrameType::Mcf => 0x11,
            HdlcFrameType::Mps => 0x12,
            HdlcFrameType::Eom => 0x13,
            HdlcFrameType::Pps => 0x14,
            HdlcFrameType::Ppr => 0x15,
            HdlcFrameType::Eor => 0x16,
            HdlcFrameType::EorMsg => 0x17,
            HdlcFrameType::Trc => 0x18,
            HdlcFrameType::Dcn => 0x19,
            HdlcFrameType::Pause => 0x1A,
            HdlcFrameType::Continue => 0x1B,
            HdlcFrameType::Rtn => 0x1C,
        }
    }
}

/// Configuration for a T.30 fax session.
#[derive(Debug, Clone)]
pub struct T30FaxConfig {
    pub max_bitrate: u32,
    pub resolutions: Vec<T30Resolution>,
    pub ecm_supported: bool,
    pub local_id: String,
}

/// The contents of a [`T30FaxConfig`].
#[verifier::ext_equal]
pub struct T30FaxConfigView {
    pub max_bitrate: u32,
    pub resolutions: Seq<T30Resolution>,
    pub ecm_supported: bool,
    pub local_id: Seq<char>,
}

impl View for T30FaxConfig {
    type V = T30FaxConfigView;

    open spec fn view(&self) -> T30FaxConfigView {
        T30FaxConfigView {
            max_bitrate: self.max_bitrate,
            resolutions: self.resolutions@,
            ecm_supported: self.ecm_supported,
            local_id: self.local_id@,
        }
    }
}

impl Default for T30FaxConfig {
    /// 14400 bit/s, standard and fine resolution, error correction, no identity.
    fn default() -> (config: Self)
        ensures
            config@ == (T30FaxConfigView {
                max_bitrate: 14400,
                resolutions: seq![T30Resolution::Standard, T30Resolution::Fine],
                ecm_supported: true,
                local_id: Seq::empty(),
            }),
    {
        let resolutions: Vec<T30Resolution> = vec![T30Resolution::Standard, T30Resolution::Fine];
        assert(resolutions@ =~= seq![T30Resolution::Standard, T30Resolution::Fine]);
        T30FaxConfig {
            max_bitrate: 14400,
            resolutions,
            ecm_supported: true,
            local_id: String::new(),
        }
    }
}

/// Events that can occur during T.30 session.
#[derive(Debug, Clone, PartialEq, Eq)]
pub enum T30Event {
    PhaseChange(T30Phase, T30Phase),
    RemoteIdentification { id: String },
    LocalIdentification { id: String },
    PageTransferred { page: u32, size: usize },
    PageReceived { page: u32, size: usize },
    Disconnected,
    Error(String),
}

/// T.30 fax session state machine.
#[derive(Debug, Clone)]
pub struct T30Session {
    pub phase: T30Phase,
    pub local_config: T30FaxConfig,
    pub remote_config: Option<T30FaxConfig>,
    pub page_number: u32,
    pub page_data: Vec<u8>,
    /// V.21 HDLC frame buffer (for reassembly)
    pub hdlc_buffer: Vec<u8>,
    /// Event log for debugging/testing
    pub events: VecDeque<T30Event>,
}

/// The contents of a [`T30Session`].
#[verifier::ext_equal]
pub struct T30SessionView {
    pub phase: T30Phase,
    pub local_config: T30FaxConfigView,
    pub remote_config: Option<T30FaxConfigView>,
    pub page_number: int,
    pub page_data: Seq<u8>,
    pub hdlc_buffer: Seq<u8>,
    pub events: Seq<T30Event>,
}

impl View for T30Session {
    type V = T30SessionView;

    open spec fn view(&self) -> T30SessionView {
        T30SessionView {
            phase: self.phase,
            local_config: self.local_config@,
            remote_config: match self.remote_config {
                Some(config) => Some(config@),
                None => None,
            },
            page_number: self.page_number as int,
            page_data: self.page_data@,
            hdlc_buffer: self.hdlc_buffer@,
            events: self.events@,
        }
    }
}

/// Maximum bit rate announced by the second octet of a DIS frame: a three bit
/// code in bits 3 to 5. Codes without an assigned rate mean 2400 bit/s.
pub open spec fn announced_bitrate(octet: u8) -> u32 {
    let code = (octet / 8) % 8;
    if code == 1 {
        4800
    } else if code == 2 {
        9600
    } else if code == 3 {
        12000
    } else if code == 4 {
        14400
    } else {
        2400
    }
}

/// Capabilities of the remote station announced by a DIS frame of at least two
/// octets: the top bit of the first octet is error correction, the second octet
/// holds the bit rate.
pub open spec fn announced_capabilities(dis: Seq<u8>) -> T30FaxConfigView
    recommends
        dis.len() >= 2,
{
    T30FaxConfigView {
        max_bitrate: announced_bitrate(dis[1]),
        resolutions: seq![T30Resolution::Standard],
        ecm_supported: dis[0] >= 0x80,
        local_id: Seq::empty(),
    }
}

impl T30SessionView {
    /// A session that nothing has happened to yet.
    pub open spec fn initial(local_config: T30FaxConfigView) -> Self {
        T30SessionView {
            phase: T30Phase::Idle,
            local_config,
            remote_config: None,
            page_number: 0,
            page_data: Seq::empty(),
            hdlc_buffer: Seq::empty(),
            events: Seq::empty(),
        }
    }

    /// The session with one more entry in its event log.
    pub open spec fn logged(self, event: T30Event) -> Self {
        T30SessionView { events: self.events.push(event), ..self }
    }

    /// The session in phase `phase`; the move is logged unless the session is in
    /// that phase already.
    pub open spec fn entering(self, phase: T30Phase) -> Self {
        if self.phase == phase {
            self
        } else {
            (T30SessionView { phase, ..self }).logged(T30Event::PhaseChange(self.phase, phase))
        }
    }

    /// Whether a DIS frame is listened to.
    pub open spec fn expects_dis(self) -> bool {
        self.phase == T30Phase::CalledToneReceived || self.phase == T30Phase::Premessage
    }

    /// The session after a DIS frame with payload `dis`. Frames that come in
    /// another phase or are shorter than two octets change nothing.
    pub open spec fn after_dis(self, dis: Seq<u8>) -> Self {
        if self.expects_dis() && dis.len() >= 2 {
            (T30SessionView {
                remote_config: Some(announced_capabilities(dis)),
                ..self
            }).entering(T30Phase::Premessage)
        } else {
            self
        }
    }

    /// Whether both stations support error correction; an unknown remote station
    /// does not.
    pub open spec fn ecm_agreed(self) -> bool {
        self.local_config.ecm_supported && (self.remote_config matches Some(remote)
            && remote.ecm_supported)
    }

    /// The DCS frame payload that commands the agreed mode.
    pub open spec fn dcs(self) -> Seq<u8> {
        seq![
            if self.ecm_agreed() {
                0x80u8
            } else {
                0x00u8
            },
            0x00u8,
        ]
    }

    /// The session after a CFR frame: training is over and the next page starts.
    pub open spec fn after_cfr(self) -> Self {
        if self.phase == T30Phase::Training {
            let page = self.page_number + 1;
            (T30SessionView { page_number: page, ..self.entering(T30Phase::ReadyToTransmit) }).logged(
                T30Event::PageTransferred { page: page as u32, size: self.page_data.len() as usize },
            )
        } else {
            self
        }
    }

    /// The session after the end of a transmitted page.
    pub open spec fn after_eop(self) -> Self {
        if self.phase == T30Phase::TransmittingPage {
            self.entering(T30Phase::PostPage)
        } else {
            self
        }
    }

    /// The session after the remote station confirmed a page.
    pub open spec fn after_mcf(self) -> Self {
        if self.phase == T30Phase::PostPage {
            self.entering(T30Phase::Disconnecting)
        } else {
            self
        }
    }

    /// The session after a DCN frame was sent.
    pub open spec fn after_dcn(self) -> Self {
        self.entering(T30Phase::Disconnecting).logged(T30Event::Disconnected)
    }

    /// The session with more image data in its page buffer.
    pub open spec fn with_page_data(self, data: Seq<u8>) -> Self {
        T30SessionView { page_data: self.page_data + data, ..self }
    }

    /// The session after the page in its buffer was received in full.
    pub open spec fn after_page(self) -> Self {
        let page = self.page_number + 1;
        (T30SessionView { page_number: page, page_data: Seq::empty(), ..self }).logged(
            T30Event::PageReceived { page: page as u32, size: self.page_data.len() as usize },
        )
    }

    /// The session returned to idle: everything but the local configuration and
    /// the event log is as in a new session.
    pub open spec fn after_reset(self) -> Self {
        T30SessionView { events: self.events, ..Self::initial(self.local_config) }
    }
}

impl T30Session {
    /// Create a new T.30 session.
    pub fn new(local_config: T30FaxConfig) -> (session: Self)
        ensures
            session@ == T30SessionView::initial(local_config@),
            session.local_config == local_config,
    {
        T30Session {
            phase: T30Phase::Idle,
            local_config,
            remote_config: None,
            page_number: 0,
            page_data: Vec::new(),
            hdlc_buffer: Vec::new(),
            events: VecDeque::new(),
        }
    }

    /// Start a fax transmission as the calling station.
    pub fn start_calling(&mut self)
        ensures
            final(self)@ == old(self)@.entering(T30Phase::CallingToneSent),
    {
        self.change_phase(T30Phase::CallingToneSent);
    }

    /// Answer a fax call as the called station.
    pub fn start_called(&mut self)
        ensures
            final(self)@ == old(self)@.entering(T30Phase::CalledToneReceived),
    {
        self.change_phase(T30Phase::CalledToneReceived);
    }

    /// Process a received DIS (Digital Identification Signal) frame data.
    /// The data should contain the HDLC frame payload without flags/FCS.
    pub fn receive_dis(&mut self, data: &[u8]) -> (result: RtcResult<()>)
        ensures
            result is Ok,
            final(self)@ == old(self)@.after_dis(data@),
    {
        if self.phase == T30Phase::CalledToneReceived || self.phase == T30Phase::Premessage {
            // Parse DIS data to extract remote capabilities
            if data.len() >= 2 {
                let first: u8 = data[0];
                let second: u8 = data[1];
                // Bit 7 indicates ECM support
                let ecm_supported: bool = (first & 0x80) != 0;
                assert((first & 0x80) != 0 <==> first >= 0x80) by (bit_vector);
                let resolutions: Vec<T30Resolution> = vec![T30Resolution::Standard];
                let max_bitrate: u32 = Self::dis_bitrate(second);
                let remote: T30FaxConfig = T30FaxConfig {
                    max_bitrate,
                    resolutions,
                    ecm_supported,
                    local_id: String::new(),
                };
                assert(remote@ =~= announced_capabilities(data@));
                self.remote_config = Some(remote);
                self.change_phase(T30Phase::Premessage);
            }
        }
        Ok(())
    }

    /// Send DCS (Digital Command Signal) to begin transmission.
    /// Returns the DCS frame data (without flags/FCS).
    pub fn send_dcs(&mut self) -> (dcs: Vec<u8>)
        ensures
            dcs@ == old(self)@.dcs(),
            *final(self) == *old(self),
    {
        let mut dcs: Vec<u8> = vec![0x00, 0x00];
        // Set ECM if supported by both sides
        let remote_supports_ecm: bool = match &self.remote_config {
            Some(remote) => remote.ecm_supported,
            None => false,
        };
        if self.local_config.ecm_supported && remote_supports_ecm {
            dcs[0] = 0x80;  // Bit 7 = ECM
        }
        assert(dcs@ =~= self@.dcs());
        dcs
    }

    /// Confirm receipt (CFR): training is complete and the next page is counted
    /// as transferred.
    pub fn confirm_receipt(&mut self)
        requires
            old(self).phase == T30Phase::Training ==> old(self).page_number < u32::MAX,
        ensures
            final(self)@ == old(self)@.after_cfr(),
    {
        if self.phase == T30Phase::Training {
            self.change_phase(T30Phase::ReadyToTransmit);
            let page_size: usize = self.page_data.len();
            self.page_number += 1;
            self.events.push_back(
                T30Event::PageTransferred { page: self.page_number, size: page_size },
            );
        }
    }

    /// Signal end of page (EOP).
    pub fn end_of_page(&mut self)
        ensures
            final(self)@ == old(self)@.after_eop(),
    {
        if self.phase == T30Phase::TransmittingPage {
            self.change_phase(T30Phase::PostPage);
        }
    }

    /// Receive MCF (Message Confirmation).
    pub fn receive_mcf(&mut self)
        ensures
            final(self)@ == old(self)@.after_mcf(),
    {
        if self.phase == T30Phase::PostPage {
            // In a multi-page scenario would go back to Premessage
            self.change_phase(T30Phase::Disconnecting);
        }
    }

    /// Send DCN (Disconnect).
    pub fn send_dcn(&mut self)
        ensures
            final(self)@ == old(self)@.after_dcn(),
    {
        self.change_phase(T30Phase::Disconnecting);
        self.events.push_back(T30Event::Disconnected);
    }

    /// Receive page data (T.4 image data).
    pub fn receive_page_data(&mut self, data: &[u8])
        ensures
            final(self)@ == old(self)@.with_page_data(data@),
    {
        self.page_data.extend_from_slice(data);
        assert(self.page_data@ =~= old(self)@.page_data + data@);
    }

    /// Complete page reception.
    pub fn complete_page_reception(&mut self)
        requires
            old(self).page_number < u32::MAX,
        ensures
            final(self)@ == old(self)@.after_page(),
    {
        let size: usize = self.page_data.len();
        self.page_number += 1;
        self.events.push_back(T30Event::PageReceived { page: self.page_number, size });
        self.page_data.clear();
    }

    /// Reset the session to idle.
    pub fn reset(&mut self)
        ensures
            final(self)@ == old(self)@.after_reset(),
    {
        self.phase = T30Phase::Idle;
        self.remote_config = None;
        self.page_number = 0;
        self.page_data.clear();
        self.hdlc_buffer.clear();
    }

    /// Take all events out of the log, oldest first.
    pub fn drain_events(&mut self) -> (events: Vec<T30Event>)
        ensures
            events@ == old(self)@.events,
            final(self)@ == (T30SessionView { events: Seq::empty(), ..old(self)@ }),
    {
        let mut events: Vec<T30Event> = Vec::new();
        let ghost before = self@;
        while self.events.len() > 0
            invariant
                events@ + self.events@ == before.events,
                self@ == (T30SessionView { events: self.events@, ..before }),
            decreases self.events.len(),
        {
            let ghost pending = self.events@;
            if let Some(event) = self.events.pop_front() {
                events.push(event);
                assert(events@ + self.events@ =~= before.events) by {
                    assert(pending =~= seq![pending[0]] + pending.subrange(1, pending.len() as int));
                }
            }
        }
        assert(events@ =~= before.events);
        assert(self.events@ =~= Seq::empty());
        events
    }

    /// Move to another phase and log the move.
    pub fn change_phase(&mut self, new_phase: T30Phase)
        ensures
            final(self)@ == old(self)@.entering(new_phase),
    {
        if self.phase != new_phase {
            let left: T30Phase = self.phase;
            self.phase = new_phase;
            self.events.push_back(T30Event::PhaseChange(left, new_phase));
        }
    }

    /// The maximum bit rate that the second octet of a DIS frame announces.
    pub fn dis_bitrate(data_byte: u8) -> (rate: u32)
        ensures
            rate == announced_bitrate(data_byte),
    {
        assert((data_byte >> 3) & 0x07 == (data_byte / 8) % 8) by (bit_vector);
        match (data_byte >> 3) & 0x07 {
            0 => 2400,
            1 => 4800,
            2 => 9600,
            3 => 12000,
            4 => 14400,
            _ => 2400,
        }
    }
}

} // verus!
