//! Laws of the T.30 session: what holds of every run of a session, whatever
//! steps it takes.

use vstd::prelude::*;

use crate::t38::t30::{HdlcFrameType, T30Event, T30Phase, T30SessionView};
use crate::t38::t30::{announced_bitrate, announced_capabilities};

verus! {

/// One step of a session that has not been reset.
pub enum T30Step {
    /// Move to a phase: start of a call as either station, or a phase change.
    Enter(T30Phase),
    /// A DIS frame with this payload was received.
    Dis(Seq<u8>),
    /// A CFR frame was received.
    Cfr,
    /// The end of a page was signalled.
    Eop,
    /// An MCF frame was received.
    Mcf,
    /// A DCN frame was sent.
    Dcn,
    /// Image data was received.
    PageData(Seq<u8>),
    /// The reception of a page was completed.
    Page,
}

/// The session after one step.
pub open spec fn step(session: T30SessionView, taken: T30Step) -> T30SessionView {
    match taken {
        T30Step::Enter(phase) => session.entering(phase),
        T30Step::Dis(dis) => session.after_dis(dis),
        T30Step::Cfr => session.after_cfr(),
        T30Step::Eop => session.after_eop(),
        T30Step::Mcf => session.after_mcf(),
        T30Step::Dcn => session.after_dcn(),
        T30Step::PageData(data) => session.with_page_data(data),
        T30Step::Page => session.after_page(),
    }
}

/// The session after several steps.
pub open spec fn run(session: T30SessionView, steps: Seq<T30Step>) -> T30SessionView
    decreases steps.len(),
{
    if steps.len() == 0 {
        session
    } else {
        step(run(session, steps.drop_last()), steps.last())
    }
}

/// The entries that `after` has in its log beyond those of `before`.
pub open spec fn new_entries(before: T30SessionView, after: T30SessionView) -> Seq<T30Event> {
    after.events.skip(before.events.len() as int)
}

/// The phase reached from `start` by the moves in `log`, if they chain up: each
/// leaves the phase that the one before it entered, and enters another one.
pub open spec fn replay(start: T30Phase, log: Seq<T30Event>) -> Option<T30Phase>
    decreases log.len(),
{
    if log.len() == 0 {
        Some(start)
    } else {
        match replay(start, log.drop_last()) {
            None => None,
            Some(phase) => match log.last() {
                T30Event::PhaseChange(from, to) => if from == phase && to != phase {
                    Some(to)
                } else {
                    None
                },
                _ => Some(phase),
            },
        }
    }
}

/// Whether an event reports a page.
pub open spec fn is_page(event: T30Event) -> bool {
    event is PageTransferred || event is PageReceived
}

/// The page number that a page event carries.
pub open spec fn page_of(event: T30Event) -> int {
    match event {
        T30Event::PageTransferred { page, .. } => page as int,
        T30Event::PageReceived { page, .. } => page as int,
        _ => 0,
    }
}

/// How many pages a log reports.
pub open spec fn pages(log: Seq<T30Event>) -> nat
    decreases log.len(),
{
    if log.len() == 0 {
        0
    } else {
        pages(log.drop_last()) + if is_page(log.last()) {
            1nat
        } else {
            0nat
        }
    }
}

/// Whether the pages that a log reports are numbered one by one, from `first`.
pub open spec fn pages_numbered_from(log: Seq<T30Event>, first: int) -> bool {
    forall|i: int|
        0 <= i < log.len() && is_page(#[trigger] log[i]) ==> page_of(log[i]) == first + pages(
            log.take(i),
        )
}

proof fn lemma_replay_push(start: T30Phase, log: Seq<T30Event>, event: T30Event)
    ensures
        replay(start, log.push(event)) == match replay(start, log) {
            None => None,
            Some(phase) => match event {
                T30Event::PhaseChange(from, to) => if from == phase && to != phase {
                    Some(to)
                } else {
                    None
                },
                _ => Some(phase),
            },
        },
{
    assert(log.push(event).drop_last() =~= log);
}

proof fn lemma_pages_push(log: Seq<T30Event>, event: T30Event)
    ensures
        pages(log.push(event)) == pages(log) + if is_page(event) {
            1nat
        } else {
            0nat
        },
{
    assert(log.push(event).drop_last() =~= log);
}

/// What a run keeps of `start`, the session that it began with.
spec fn accounted(start: T30SessionView, now: T30SessionView) -> bool {
    let log = new_entries(start, now);
    &&& start.events.is_prefix_of(now.events)
    &&& replay(start.phase, log) == Some(now.phase)
    &&& now.page_number == start.page_number + pages(log)
    &&& 0 <= start.page_number && now.page_number <= u32::MAX ==> pages_numbered_from(
        log,
        start.page_number + 1,
    )
    &&& now.local_config == start.local_config
    &&& now.hdlc_buffer == start.hdlc_buffer
}

proof fn lemma_logged(start: T30SessionView, now: T30SessionView, event: T30Event, page_number: int)
    requires
        accounted(start, now),
        is_page(event) ==> page_number == now.page_number + 1,
        is_page(event) && 0 <= page_number <= u32::MAX ==> page_of(event) == page_number,
        !is_page(event) ==> page_number == now.page_number,
    ensures
        ({
            let after = T30SessionView { page_number, ..now }.logged(event);
            match event {
                T30Event::PhaseChange(from, to) => from == now.phase && to != now.phase ==> accounted(
                    start,
                    T30SessionView { phase: to, ..after },
                ),
                _ => accounted(start, after),
            }
        }),
{
    let log = new_entries(start, now);
    let after = T30SessionView { page_number, ..now }.logged(event);
    assert(new_entries(start, after) =~= log.push(event));
    lemma_replay_push(start.phase, log, event);
    lemma_pages_push(log, event);
    let longer = log.push(event);
    if 0 <= start.page_number && page_number <= u32::MAX {
        assert forall|i: int| 0 <= i < longer.len() && is_page(#[trigger] longer[i]) implies page_of(
            longer[i],
        ) == start.page_number + 1 + pages(longer.take(i)) by {
            assert(longer.take(i) =~= log.take(i));
            if i < log.len() {
                assert(is_page(log[i]));
            } else {
                assert(log.take(i) =~= log);
            }
        }
    }
}

proof fn lemma_entering_accounted(start: T30SessionView, now: T30SessionView, phase: T30Phase)
    requires
        accounted(start, now),
    ensures
        accounted(start, now.entering(phase)),
{
    if now.phase != phase {
        lemma_logged(start, now, T30Event::PhaseChange(now.phase, phase), now.page_number);
        assert(now.entering(phase) == (T30SessionView {
            phase,
            ..now.logged(T30Event::PhaseChange(now.phase, phase))
        }));
    }
}

proof fn lemma_step_accounted(start: T30SessionView, now: T30SessionView, taken: T30Step)
    requires
        accounted(start, now),
    ensures
        accounted(start, step(now, taken)),
{
    match taken {
        T30Step::Enter(phase) => lemma_entering_accounted(start, now, phase),
        T30Step::Dis(dis) => {
            let informed = T30SessionView {
                remote_config: Some(announced_capabilities(dis)),
                ..now
            };
            assert(new_entries(start, informed) == new_entries(start, now));
            lemma_entering_accounted(start, informed, T30Phase::Premessage);
        },
        T30Step::Cfr => {
            if now.phase == T30Phase::Training {
                let ready = now.entering(T30Phase::ReadyToTransmit);
                lemma_entering_accounted(start, now, T30Phase::ReadyToTransmit);
                let page = now.page_number + 1;
                lemma_logged(
                    start,
                    ready,
                    T30Event::PageTransferred {
                        page: page as u32,
                        size: now.page_data.len() as usize,
                    },
                    page,
                );
            }
        },
        T30Step::Eop => lemma_entering_accounted(start, now, T30Phase::PostPage),
        T30Step::Mcf => lemma_entering_accounted(start, now, T30Phase::Disconnecting),
        T30Step::Dcn => {
            lemma_entering_accounted(start, now, T30Phase::Disconnecting);
            let leaving = now.entering(T30Phase::Disconnecting);
            lemma_logged(start, leaving, T30Event::Disconnected, leaving.page_number);
        },
        T30Step::PageData(data) => {
            assert(new_entries(start, now.with_page_data(data)) == new_entries(start, now));
        },
        T30Step::Page => {
            let emptied = T30SessionView { page_data: Seq::empty(), ..now };
            assert(new_entries(start, emptied) == new_entries(start, now));
            let page = now.page_number + 1;
            lemma_logged(
                start,
                emptied,
                T30Event::PageReceived { page: page as u32, size: now.page_data.len() as usize },
                page,
            );
        },
    }
}

proof fn lemma_run_accounted(start: T30SessionView, steps: Seq<T30Step>)
    ensures
        accounted(start, run(start, steps)),
    decreases steps.len(),
{
    if steps.len() == 0 {
        assert(new_entries(start, start) =~= Seq::empty());
    } else {
        lemma_run_accounted(start, steps.drop_last());
        lemma_step_accounted(start, run(start, steps.drop_last()), steps.last());
    }
}

/// Every phase transition is logged: the log never loses an entry, and replaying
/// the entries of a run from the phase that it began in gives the phase that it
/// ended in.
pub proof fn log_explains_phase(start: T30SessionView, steps: Seq<T30Step>)
    ensures
        start.events.is_prefix_of(run(start, steps).events),
        replay(start.phase, new_entries(start, run(start, steps))) == Some(run(start, steps).phase),
{
    lemma_run_accounted(start, steps);
}

/// The page counter counts the pages in the log, sent and received alike.
pub proof fn pages_are_counted(start: T30SessionView, steps: Seq<T30Step>)
    ensures
        run(start, steps).page_number == start.page_number + pages(
            new_entries(start, run(start, steps)),
        ),
{
    lemma_run_accounted(start, steps);
}

/// As long as the page counter fits its type, the pages in the log are numbered one
/// by one.
pub proof fn pages_are_numbered(start: T30SessionView, steps: Seq<T30Step>)
    requires
        0 <= start.page_number,
        run(start, steps).page_number <= u32::MAX,
    ensures
        pages_numbered_from(new_entries(start, run(start, steps)), start.page_number + 1),
{
    lemma_run_accounted(start, steps);
}

/// Whatever a session went through, a reset makes it a new session with the same
/// local configuration that remembers its log.
pub proof fn reset_restores_initial_state(start: T30SessionView, steps: Seq<T30Step>)
    ensures
        run(start, steps).after_reset() == (T30SessionView {
            events: run(start, steps).events,
            ..T30SessionView::initial(start.local_config)
        }),
{
    lemma_run_accounted(start, steps);
}

/// Entering a phase a second time changes nothing.
pub proof fn entering_is_idempotent(session: T30SessionView, phase: T30Phase)
    ensures
        session.entering(phase).entering(phase) == session.entering(phase),
{
}

/// A DIS frame decides the DCS frame that answers it: error correction is
/// commanded exactly if the frame announces it and the local station supports
/// it.
pub proof fn dcs_answers_dis(session: T30SessionView, dis: Seq<u8>)
    requires
        session.expects_dis(),
        dis.len() >= 2,
    ensures
        session.after_dis(dis).phase == T30Phase::Premessage,
        session.after_dis(dis).dcs() == seq![
            if session.local_config.ecm_supported && dis[0] >= 0x80 {
                0x80u8
            } else {
                0x00u8
            },
            0x00u8,
        ],
{
}

/// A DIS frame announces one of the five fax rates.
pub proof fn announced_bitrate_is_a_fax_rate(octet: u8)
    ensures
        announced_bitrate(octet) == 2400 || announced_bitrate(octet) == 4800 || announced_bitrate(
            octet,
        ) == 9600 || announced_bitrate(octet) == 12000 || announced_bitrate(octet) == 14400,
{
}

/// Only the three bits of the rate decide on the rate: those for the resolution
/// and the two at the top do not.
pub proof fn only_rate_bits_decide(one: u8, other: u8)
    requires
        one & 0x38 == other & 0x38,
    ensures
        announced_bitrate(one) == announced_bitrate(other),
{
    assert(one & 0x38 == other & 0x38 ==> (one / 8) % 8 == (other / 8) % 8) by (bit_vector);
}

/// Image data may arrive in pieces of any size: the buffer holds what it would
/// hold had it come at once.
pub proof fn page_data_accumulates(session: T30SessionView, pieces: Seq<Seq<u8>>)
    ensures
        run(session, pieces.map_values(|piece: Seq<u8>| T30Step::PageData(piece)))
            == session.with_page_data(pieces.flatten()),
    decreases pieces.len(),
{
    let steps = pieces.map_values(|piece: Seq<u8>| T30Step::PageData(piece));
    if pieces.len() == 0 {
        assert(session.page_data + pieces.flatten() =~= session.page_data);
    } else {
        let first = pieces.drop_last();
        page_data_accumulates(session, first);
        assert(steps.drop_last() =~= first.map_values(
            |piece: Seq<u8>| T30Step::PageData(piece),
        ));
        assert(pieces =~= first.push(pieces.last()));
        first.lemma_flatten_push(pieces.last());
        assert(session.page_data + first.flatten() + pieces.last() =~= session.page_data
            + pieces.flatten());
    }
}

/// The size logged for a received page is the number of octets received since
/// the buffer was last empty, and the next page starts with an empty buffer.
pub proof fn received_page_size(session: T30SessionView, pieces: Seq<Seq<u8>>)
    requires
        session.page_data.len() == 0,
        pieces.flatten().len() <= usize::MAX,
        0 <= session.page_number < u32::MAX,
    ensures
        ({
            let after = run(
                session,
                pieces.map_values(|piece: Seq<u8>| T30Step::PageData(piece)),
            ).after_page();
            &&& after.page_data.len() == 0
            &&& after.events == session.events.push(
                T30Event::PageReceived {
                    page: (session.page_number + 1) as u32,
                    size: pieces.flatten().len() as usize,
                },
            )
        }),
{
    page_data_accumulates(session, pieces);
}

/// A page that was trained for, sent and confirmed ends the call: the session
/// passes through the ready, transmitting and post-page phases to
/// disconnecting.
pub proof fn confirmed_page_ends_call(session: T30SessionView)
    requires
        session.phase == T30Phase::Training,
    ensures
        session.after_cfr().phase == T30Phase::ReadyToTransmit,
        session.after_cfr().entering(T30Phase::TransmittingPage).after_eop().phase
            == T30Phase::PostPage,
        session.after_cfr().entering(T30Phase::TransmittingPage).after_eop().after_mcf().phase
            == T30Phase::Disconnecting,
{
}

/// A disconnect succeeds in every phase and is the last thing logged.
pub proof fn disconnect_always_logged(session: T30SessionView)
    ensures
        session.after_dcn().phase == T30Phase::Disconnecting,
        session.after_dcn().events.last() == T30Event::Disconnected,
{
}

/// No two HDLC frame types share a code.
pub proof fn frame_codes_are_unique(one: HdlcFrameType, other: HdlcFrameType)
    ensures
        one.spec_code() == other.spec_code() <==> one == other,
{
}

} // verus!
