//! The stations that wait to be worked.

use vstd::prelude::*;
use vstd::string::*;

use crate::clock::{Nanos, Timestamp};
use crate::message::FloatBits;
use crate::qso;
use crate::qso::{QsoOutcome, QsoState, QueueRetryDelayKind};
use crate::slots;
use crate::slots::{DecoderMode, SlotFamily};
use crate::text;
use crate::tracker;
use crate::tracker::{StationTracker, TrackerModel};
use crate::worked;
use crate::worked::{WorkedLog, WorkedModel};

verus! {

/// A station that waits, and what is known of its calls to us.
#[derive(Debug)]
pub struct WorkQueueEntry {
    pub callsign: String,
    pub queued_at: Timestamp,
    pub ok_to_schedule_after: Timestamp,
    pub last_observed_at: Timestamp,
    pub direct_pending: bool,
    pub direct_count: u32,
    pub last_direct_at: Option<Timestamp>,
    pub last_direct_slot_index: Option<u64>,
    pub last_direct_slot_family: Option<SlotFamily>,
    pub last_direct_snr_db: Option<i32>,
    pub direct_start_state: Option<QsoState>,
    pub direct_compound_eligible: bool,
    pub last_direct_text: Option<String>,
    pub last_direct_structured_json: Option<String>,
}

#[verifier::ext_equal]
pub struct EntryModel {
    pub callsign: Seq<char>,
    pub queued_at: Timestamp,
    pub ok_after: Timestamp,
    pub observed_at: Timestamp,
    pub direct_pending: bool,
    pub direct_count: u32,
    pub direct_at: Option<Timestamp>,
    pub direct_slot_index: Option<u64>,
    pub direct_family: Option<SlotFamily>,
    pub direct_snr: Option<i32>,
    pub start_state: Option<QsoState>,
    pub compound_eligible: bool,
    pub direct_text: Option<Seq<char>>,
    pub direct_json: Option<Seq<char>>,
}

impl View for WorkQueueEntry {
    type V = EntryModel;

    open spec fn view(&self) -> EntryModel {
        EntryModel {
            callsign: self.callsign@,
            queued_at: self.queued_at,
            ok_after: self.ok_to_schedule_after,
            observed_at: self.last_observed_at,
            direct_pending: self.direct_pending,
            direct_count: self.direct_count,
            direct_at: self.last_direct_at,
            direct_slot_index: self.last_direct_slot_index,
            direct_family: self.last_direct_slot_family,
            direct_snr: self.last_direct_snr_db,
            start_state: self.direct_start_state,
            compound_eligible: self.direct_compound_eligible,
            direct_text: text::text_opt(self.last_direct_text),
            direct_json: text::text_opt(self.last_direct_structured_json),
        }
    }
}

pub open spec fn entry_models(entries: Seq<WorkQueueEntry>) -> Seq<EntryModel> {
    entries.map_values(|e: WorkQueueEntry| e@)
}

/// A message to us that makes its sender worth calling.
#[derive(Debug)]
pub struct DirectCallObservation {
    pub callsign: String,
    pub observed_at: Timestamp,
    pub slot_index: u64,
    pub slot_family: SlotFamily,
    pub snr_db: i32,
    pub start_state: QsoState,
    pub compound_eligible: bool,
    pub text: String,
    pub structured_json: String,
}

#[verifier::ext_equal]
pub struct ObservationModel {
    pub callsign: Seq<char>,
    pub observed_at: Timestamp,
    pub slot_index: u64,
    pub family: SlotFamily,
    pub snr: i32,
    pub start_state: QsoState,
    pub compound_eligible: bool,
    pub text: Seq<char>,
    pub json: Seq<char>,
}

impl View for DirectCallObservation {
    type V = ObservationModel;

    open spec fn view(&self) -> ObservationModel {
        ObservationModel {
            callsign: self.callsign@,
            observed_at: self.observed_at,
            slot_index: self.slot_index,
            family: self.slot_family,
            snr: self.snr_db,
            start_state: self.start_state,
            compound_eligible: self.compound_eligible,
            text: self.text@,
            json: self.structured_json@,
        }
    }
}

/// Why a station was not taken into the queue.
#[derive(Clone, Copy, Debug, PartialEq, Eq, Structural)]
pub enum QueueRefusal {
    OwnCall,
    WorkedRecently,
    DirectCallerWorkedRecently,
}

impl QueueRefusal {
    pub fn message(self) -> (r: &'static str)
        ensures
            r@ == (match self {
                QueueRefusal::OwnCall => "cannot queue our own call"@,
                QueueRefusal::WorkedRecently => "station worked on this band in last 24h"@,
                QueueRefusal::DirectCallerWorkedRecently =>
                    "direct caller worked on this band in last 24h"@,
            }),
    {
        match self {
            QueueRefusal::OwnCall => "cannot queue our own call",
            QueueRefusal::WorkedRecently => "station worked on this band in last 24h",
            QueueRefusal::DirectCallerWorkedRecently =>
                "direct caller worked on this band in last 24h",
        }
    }
}

/// What the queue starts out with.
#[derive(Clone, Copy, Debug, PartialEq, Eq, Structural)]
pub struct QueueConfig {
    pub auto_add_all_decoded_calls_default: bool,
    pub auto_add_decoded_min_count_5m_default: u32,
    pub auto_add_direct_calls_default: bool,
    pub ignore_direct_calls_from_recently_worked_default: bool,
    pub cq_enabled_default: bool,
    pub cq_percent_default: u8,
    pub pause_cq_when_few_unique_calls_default: bool,
    pub cq_pause_min_unique_calls_5m_default: u32,
    pub use_compound_rr73_handoff_default: bool,
    pub use_compound_73_once_handoff_default: bool,
    pub use_compound_for_direct_signal_callers_default: bool,
    pub no_message_retry_delay_seconds_default: u64,
    pub no_forward_retry_delay_seconds_default: u64,
}

#[derive(Debug)]
pub struct WorkQueueState {
    pub auto_enabled: bool,
    pub our_call: String,
    pub current_band: Option<String>,
    pub current_mode: DecoderMode,
    pub auto_add_all_decoded_calls: bool,
    pub auto_add_decoded_min_count_5m: u32,
    pub auto_add_direct_calls: bool,
    pub ignore_direct_calls_from_recently_worked: bool,
    pub cq_enabled: bool,
    pub cq_percent: u8,
    pub pause_cq_when_few_unique_calls: bool,
    pub cq_pause_min_unique_calls_5m: u32,
    pub use_compound_rr73_handoff: bool,
    pub use_compound_73_once_handoff: bool,
    pub use_compound_for_direct_signal_callers: bool,
    pub next_cq_parity_flipped: bool,
    pub even_tx_freq_hz: FloatBits,
    pub odd_tx_freq_hz: FloatBits,
    pub no_message_retry_delay: Nanos,
    pub no_forward_retry_delay: Nanos,
    pub entries: Vec<WorkQueueEntry>,
    pub recent_worked: WorkedLog,
    pub scheduler_status: String,
}

#[verifier::ext_equal]
pub struct QueueModel {
    pub auto_enabled: bool,
    pub our_call: Seq<char>,
    pub band: Option<Seq<char>>,
    pub mode: DecoderMode,
    pub auto_add_all: bool,
    pub auto_add_min_count: u32,
    pub auto_add_direct: bool,
    pub ignore_worked_directs: bool,
    pub cq_enabled: bool,
    pub cq_percent: u8,
    pub pause_cq: bool,
    pub pause_cq_below: u32,
    pub compound_rr73: bool,
    pub compound_73_once: bool,
    pub compound_for_signal: bool,
    pub cq_parity_flipped: bool,
    pub even_freq: FloatBits,
    pub odd_freq: FloatBits,
    pub no_message_delay: Nanos,
    pub no_forward_delay: Nanos,
    pub entries: Seq<EntryModel>,
    pub worked: WorkedModel,
    pub status: Seq<char>,
}

impl View for WorkQueueState {
    type V = QueueModel;

    open spec fn view(&self) -> QueueModel {
        QueueModel {
            auto_enabled: self.auto_enabled,
            our_call: self.our_call@,
            band: text::text_opt(self.current_band),
            mode: self.current_mode,
            auto_add_all: self.auto_add_all_decoded_calls,
            auto_add_min_count: self.auto_add_decoded_min_count_5m,
            auto_add_direct: self.auto_add_direct_calls,
            ignore_worked_directs: self.ignore_direct_calls_from_recently_worked,
            cq_enabled: self.cq_enabled,
            cq_percent: self.cq_percent,
            pause_cq: self.pause_cq_when_few_unique_calls,
            pause_cq_below: self.cq_pause_min_unique_calls_5m,
            compound_rr73: self.use_compound_rr73_handoff,
            compound_73_once: self.use_compound_73_once_handoff,
            compound_for_signal: self.use_compound_for_direct_signal_callers,
            cq_parity_flipped: self.next_cq_parity_flipped,
            even_freq: self.even_tx_freq_hz,
            odd_freq: self.odd_tx_freq_hz,
            no_message_delay: self.no_message_retry_delay,
            no_forward_delay: self.no_forward_retry_delay,
            entries: entry_models(self.entries@),
            worked: self.recent_worked@,
            status: self.scheduler_status@,
        }
    }
}

/// Every station waits once only.
pub open spec fn distinct_calls(entries: Seq<EntryModel>) -> bool {
    forall|i: int, j: int|
        0 <= i < j < entries.len() ==> (#[trigger] entries[i]).callsign != (
        #[trigger] entries[j]).callsign
}

/// Our own call does not wait, in whatever case it is written.
pub open spec fn without_call(entries: Seq<EntryModel>, our_call: Seq<char>) -> bool {
    forall|i: int|
        0 <= i < entries.len() ==> !text::same_ignoring_case(
            (#[trigger] entries[i]).callsign,
            our_call,
        )
}

/// One entry for each station, and none for our own.
pub open spec fn sound(queue: QueueModel) -> bool {
    distinct_calls(queue.entries) && without_call(queue.entries, queue.our_call)
}

/// The place of the station in the queue; the queue's length where it does not wait.
pub open spec fn place_of(entries: Seq<EntryModel>, callsign: Seq<char>) -> int
    decreases entries.len(),
{
    if entries.len() == 0 {
        0
    } else if entries[0].callsign == callsign {
        0
    } else {
        1 + place_of(entries.drop_first(), callsign)
    }
}

pub open spec fn waits(entries: Seq<EntryModel>, callsign: Seq<char>) -> bool {
    place_of(entries, callsign) < entries.len()
}

/// The queue without the station.
pub open spec fn without(entries: Seq<EntryModel>, callsign: Seq<char>) -> Seq<EntryModel> {
    if waits(entries, callsign) {
        entries.remove(place_of(entries, callsign))
    } else {
        entries
    }
}

pub proof fn lemma_place_of(entries: Seq<EntryModel>, callsign: Seq<char>)
    ensures
        0 <= place_of(entries, callsign) <= entries.len(),
        forall|i: int|
            0 <= i < place_of(entries, callsign) ==> (#[trigger] entries[i]).callsign != callsign,
        waits(entries, callsign) ==> entries[place_of(entries, callsign)].callsign == callsign,
    decreases entries.len(),
{
    if entries.len() > 0 && entries[0].callsign != callsign {
        let rest = entries.drop_first();
        lemma_place_of(rest, callsign);
        assert forall|i: int| 0 <= i < place_of(entries, callsign) implies (
        #[trigger] entries[i]).callsign != callsign by {
            if i > 0 {
                assert(rest[i - 1] == entries[i]);
            }
        }
    }
}

/// An entry without any direct call.
pub open spec fn plain_entry(
    callsign: Seq<char>,
    queued_at: Timestamp,
    ok_after: Timestamp,
    observed_at: Timestamp,
) -> EntryModel {
    EntryModel {
        callsign,
        queued_at,
        ok_after,
        observed_at,
        direct_pending: false,
        direct_count: 0,
        direct_at: None,
        direct_slot_index: None,
        direct_family: None,
        direct_snr: None,
        start_state: None,
        compound_eligible: false,
        direct_text: None,
        direct_json: None,
    }
}

/// An entry that a direct call has made.
pub open spec fn direct_entry(seen: ObservationModel, now: Timestamp) -> EntryModel {
    EntryModel {
        callsign: seen.callsign,
        queued_at: now,
        ok_after: now,
        observed_at: seen.observed_at,
        direct_pending: true,
        direct_count: 1,
        direct_at: Some(seen.observed_at),
        direct_slot_index: Some(seen.slot_index),
        direct_family: Some(seen.family),
        direct_snr: Some(seen.snr),
        start_state: Some(seen.start_state),
        compound_eligible: seen.compound_eligible,
        direct_text: Some(seen.text),
        direct_json: Some(seen.json),
    }
}

/// An entry after another direct call. One in the slot that was counted last counts no more; the
/// best signal is kept.
pub open spec fn called_again(
    entry: EntryModel,
    seen: ObservationModel,
    now: Timestamp,
) -> EntryModel {
    let counted = entry.direct_slot_index == Some(seen.slot_index) && entry.direct_family == Some(
        seen.family,
    );
    EntryModel {
        ok_after: now,
        observed_at: if entry.observed_at < seen.observed_at {
            seen.observed_at
        } else {
            entry.observed_at
        },
        direct_pending: true,
        direct_count: if counted || entry.direct_count == u32::MAX {
            entry.direct_count
        } else {
            (entry.direct_count + 1) as u32
        },
        direct_at: Some(seen.observed_at),
        direct_slot_index: Some(seen.slot_index),
        direct_family: Some(seen.family),
        direct_snr: match entry.direct_snr {
            Some(best) if best > seen.snr => Some(best),
            _ => Some(seen.snr),
        },
        start_state: Some(seen.start_state),
        compound_eligible: seen.compound_eligible,
        direct_text: Some(seen.text),
        direct_json: Some(seen.json),
        ..entry
    }
}

pub open spec fn worked_here(queue: QueueModel, callsign: Seq<char>, now: Timestamp) -> bool {
    worked::worked_recently(queue.worked, callsign, queue.band, now)
}

/// The queue once what was worked more than a day ago is forgotten.
pub open spec fn forgetful(queue: QueueModel, now: Timestamp) -> QueueModel {
    QueueModel { worked: worked::recent_only(queue.worked, now), ..queue }
}

/// What asking for a station to be worked does, and what is answered.
pub open spec fn station_added(
    queue: QueueModel,
    callsign: Seq<char>,
    observed_at: Timestamp,
    now: Timestamp,
) -> (QueueModel, Result<(), QueueRefusal>) {
    let q = forgetful(queue, now);
    if text::same_ignoring_case(callsign, q.our_call) {
        (q, Err(QueueRefusal::OwnCall))
    } else if worked_here(q, callsign, now) {
        (q, Err(QueueRefusal::WorkedRecently))
    } else if waits(q.entries, callsign) {
        (q, Ok(()))
    } else {
        (
            QueueModel {
                entries: q.entries.push(plain_entry(callsign, now, now, observed_at)),
                ..q
            },
            Ok(()),
        )
    }
}

/// What a direct call to us does, and what is answered.
pub open spec fn direct_added(queue: QueueModel, seen: ObservationModel, now: Timestamp) -> (
    QueueModel,
    Result<(), QueueRefusal>,
) {
    let q = forgetful(queue, now);
    if text::same_ignoring_case(seen.callsign, q.our_call) {
        (q, Err(QueueRefusal::OwnCall))
    } else if q.ignore_worked_directs && worked_here(q, seen.callsign, now) {
        (q, Err(QueueRefusal::DirectCallerWorkedRecently))
    } else if waits(q.entries, seen.callsign) {
        let place = place_of(q.entries, seen.callsign);
        (
            QueueModel {
                entries: q.entries.update(place, called_again(q.entries[place], seen, now)),
                ..q
            },
            Ok(()),
        )
    } else {
        (QueueModel { entries: q.entries.push(direct_entry(seen, now)), ..q }, Ok(()))
    }
}

pub open spec fn retry_delay(queue: QueueModel, kind: QueueRetryDelayKind) -> Nanos {
    match kind {
        QueueRetryDelayKind::NoMessage => queue.no_message_delay,
        QueueRetryDelayKind::NoForward => queue.no_forward_delay,
    }
}

/// The time from which a station may be tried again after the contact, where it is tried again.
pub open spec fn retry_from(queue: QueueModel, outcome: QsoOutcome) -> Option<Timestamp> {
    match qso::retry_kind(outcome.exit_reason@) {
        Some(kind) => slots::after(outcome.finished_at, retry_delay(queue, kind) as int),
        None => None,
    }
}

/// When the station was last heard, or else when the contact ended.
pub open spec fn last_observed(tracker: TrackerModel, outcome: QsoOutcome) -> Timestamp {
    match tracker::start_info_of(tracker, outcome.partner_call@) {
        Some(info) => info.heard_at,
        None => outcome.finished_at,
    }
}

/// The queue once a closing message went out in a contact: the station counts as worked on the band
/// and waits no more.
pub open spec fn closed_out(queue: QueueModel, outcome: QsoOutcome) -> QueueModel {
    QueueModel {
        worked: match outcome.rig_band {
            Some(band) => queue.worked.insert(
                (outcome.partner_call@, band@),
                outcome.finished_at,
            ),
            None => queue.worked,
        },
        entries: without(queue.entries, outcome.partner_call@),
        ..queue
    }
}

/// The queue with the station at its back, to be tried again from `retry_at` on. Our own call is
/// never put in.
pub open spec fn requeued(
    queue: QueueModel,
    callsign: Seq<char>,
    finished_at: Timestamp,
    retry_at: Timestamp,
    observed_at: Timestamp,
) -> QueueModel {
    let rest = without(queue.entries, callsign);
    QueueModel {
        entries: if text::same_ignoring_case(callsign, queue.our_call) {
            rest
        } else {
            rest.push(plain_entry(callsign, finished_at, retry_at, observed_at))
        },
        ..queue
    }
}

/// The queue once a contact is over. A station to which a closing message went out has been worked;
/// one that did not get far goes to the back of the queue.
pub open spec fn contact_over(
    queue: QueueModel,
    outcome: QsoOutcome,
    tracker: TrackerModel,
) -> QueueModel {
    let q = if outcome.sent_terminal_73 {
        closed_out(queue, outcome)
    } else {
        queue
    };
    match qso::retry_kind(outcome.exit_reason@) {
        Some(kind) => requeued(
            q,
            outcome.partner_call@,
            outcome.finished_at,
            retry_from(queue, outcome)->0,
            last_observed(tracker, outcome),
        ),
        None => q,
    }
}

pub open spec fn nanos_of_seconds(seconds: u64) -> Nanos {
    (seconds * 1_000_000_000) as u128
}

pub open spec fn new_queue(
    config: QueueConfig,
    our_call: Seq<char>,
    tx_freq_hz: FloatBits,
    worked: WorkedModel,
) -> QueueModel {
    QueueModel {
        auto_enabled: false,
        our_call,
        band: None,
        mode: DecoderMode::Ft8,
        auto_add_all: config.auto_add_all_decoded_calls_default,
        auto_add_min_count: at_least_one(config.auto_add_decoded_min_count_5m_default),
        auto_add_direct: config.auto_add_direct_calls_default,
        ignore_worked_directs: config.ignore_direct_calls_from_recently_worked_default,
        cq_enabled: config.cq_enabled_default,
        cq_percent: at_most_hundred(config.cq_percent_default),
        pause_cq: config.pause_cq_when_few_unique_calls_default,
        pause_cq_below: config.cq_pause_min_unique_calls_5m_default,
        compound_rr73: config.use_compound_rr73_handoff_default,
        compound_73_once: config.use_compound_73_once_handoff_default,
        compound_for_signal: config.use_compound_for_direct_signal_callers_default,
        cq_parity_flipped: false,
        even_freq: tx_freq_hz,
        odd_freq: tx_freq_hz,
        no_message_delay: nanos_of_seconds(config.no_message_retry_delay_seconds_default),
        no_forward_delay: nanos_of_seconds(config.no_forward_retry_delay_seconds_default),
        entries: Seq::empty(),
        worked,
        status: "auto disabled"@,
    }
}

pub open spec fn at_least_one(n: u32) -> u32 {
    if n == 0 {
        1
    } else {
        n
    }
}

pub open spec fn at_most_hundred(n: u8) -> u8 {
    if n > 100 {
        100
    } else {
        n
    }
}

pub open spec fn tx_freq(queue: QueueModel, family: SlotFamily) -> FloatBits {
    match family {
        SlotFamily::Even => queue.even_freq,
        SlotFamily::Odd => queue.odd_freq,
    }
}

fn entry_without_directs(
    callsign: &str,
    queued_at: Timestamp,
    ok_to_schedule_after: Timestamp,
    last_observed_at: Timestamp,
) -> (r: WorkQueueEntry)
    ensures
        r@ == plain_entry(callsign@, queued_at, ok_to_schedule_after, last_observed_at),
{
    WorkQueueEntry {
        callsign: callsign.to_owned(),
        queued_at,
        ok_to_schedule_after,
        last_observed_at,
        direct_pending: false,
        direct_count: 0,
        last_direct_at: None,
        last_direct_slot_index: None,
        last_direct_slot_family: None,
        last_direct_snr_db: None,
        direct_start_state: None,
        direct_compound_eligible: false,
        last_direct_text: None,
        last_direct_structured_json: None,
    }
}

fn entry_from_direct(observation: DirectCallObservation, now: Timestamp) -> (r: WorkQueueEntry)
    ensures
        r@ == direct_entry(observation@, now),
{
    WorkQueueEntry {
        callsign: observation.callsign,
        queued_at: now,
        ok_to_schedule_after: now,
        last_observed_at: observation.observed_at,
        direct_pending: true,
        direct_count: 1,
        last_direct_at: Some(observation.observed_at),
        last_direct_slot_index: Some(observation.slot_index),
        last_direct_slot_family: Some(observation.slot_family),
        last_direct_snr_db: Some(observation.snr_db),
        direct_start_state: Some(observation.start_state),
        direct_compound_eligible: observation.compound_eligible,
        last_direct_text: Some(observation.text),
        last_direct_structured_json: Some(observation.structured_json),
    }
}

fn entry_called_again(
    entry: &WorkQueueEntry,
    observation: DirectCallObservation,
    now: Timestamp,
) -> (r: WorkQueueEntry)
    ensures
        r@ == called_again(entry@, observation@, now),
{
    let counted = match (entry.last_direct_slot_index, entry.last_direct_slot_family) {
        (Some(index), Some(family)) => index == observation.slot_index && family
            == observation.slot_family,
        _ => false,
    };
    WorkQueueEntry {
        callsign: entry.callsign.clone(),
        queued_at: entry.queued_at,
        ok_to_schedule_after: now,
        last_observed_at: if entry.last_observed_at < observation.observed_at {
            observation.observed_at
        } else {
            entry.last_observed_at
        },
        direct_pending: true,
        direct_count: if counted || entry.direct_count == u32::MAX {
            entry.direct_count
        } else {
            entry.direct_count + 1
        },
        last_direct_at: Some(observation.observed_at),
        last_direct_slot_index: Some(observation.slot_index),
        last_direct_slot_family: Some(observation.slot_family),
        last_direct_snr_db: match entry.last_direct_snr_db {
            Some(best) => if best > observation.snr_db {
                Some(best)
            } else {
                Some(observation.snr_db)
            },
            None => Some(observation.snr_db),
        },
        direct_start_state: Some(observation.start_state),
        direct_compound_eligible: observation.compound_eligible,
        last_direct_text: Some(observation.text),
        last_direct_structured_json: Some(observation.structured_json),
    }
}

impl WorkQueueState {
    pub open spec fn wf(&self) -> bool {
        self.recent_worked.wf() && sound(self@)
    }

    pub fn new(
        config: &QueueConfig,
        our_call: &str,
        tx_freq_hz: FloatBits,
        recent_worked: WorkedLog,
    ) -> (r: Self)
        requires
            recent_worked.wf(),
        ensures
            r.wf(),
            r@ == new_queue(*config, our_call@, tx_freq_hz, recent_worked@),
    {
        let r = WorkQueueState {
            auto_enabled: false,
            our_call: our_call.to_owned(),
            current_band: None,
            current_mode: DecoderMode::Ft8,
            auto_add_all_decoded_calls: config.auto_add_all_decoded_calls_default,
            auto_add_decoded_min_count_5m: if config.auto_add_decoded_min_count_5m_default == 0 {
                1
            } else {
                config.auto_add_decoded_min_count_5m_default
            },
            auto_add_direct_calls: config.auto_add_direct_calls_default,
            ignore_direct_calls_from_recently_worked: config.ignore_direct_calls_from_recently_worked_default,
            cq_enabled: config.cq_enabled_default,
            cq_percent: if config.cq_percent_default > 100 {
                100
            } else {
                config.cq_percent_default
            },
            pause_cq_when_few_unique_calls: config.pause_cq_when_few_unique_calls_default,
            cq_pause_min_unique_calls_5m: config.cq_pause_min_unique_calls_5m_default,
            use_compound_rr73_handoff: config.use_compound_rr73_handoff_default,
            use_compound_73_once_handoff: config.use_compound_73_once_handoff_default,
            use_compound_for_direct_signal_callers: config.use_compound_for_direct_signal_callers_default,
            next_cq_parity_flipped: false,
            even_tx_freq_hz: tx_freq_hz,
            odd_tx_freq_hz: tx_freq_hz,
            no_message_retry_delay: config.no_message_retry_delay_seconds_default as u128
                * 1_000_000_000,
            no_forward_retry_delay: config.no_forward_retry_delay_seconds_default as u128
                * 1_000_000_000,
            entries: Vec::new(),
            recent_worked,
            scheduler_status: "auto disabled".to_owned(),
        };
        assert(r@ =~= new_queue(*config, our_call@, tx_freq_hz, recent_worked@));
        r
    }

    fn locate(&self, callsign: &str) -> (r: usize)
        ensures
            r == place_of(self@.entries, callsign@),
            r <= self.entries@.len(),
            r < self.entries@.len() <==> waits(self@.entries, callsign@),
    {
        let ghost all = self@.entries;
        let mut i: usize = 0;
        assert(all.skip(0) =~= all);
        while i < self.entries.len()
            invariant
                i <= self.entries@.len(),
                all == entry_models(self.entries@),
                place_of(all, callsign@) == i + place_of(all.skip(i as int), callsign@),
            decreases self.entries@.len() - i,
        {
            assert(all.skip(i as int)[0] == self.entries@[i as int]@);
            if text::str_eq(self.entries[i].callsign.as_str(), callsign) {
                return i;
            }
            assert(all.skip(i as int).drop_first() =~= all.skip(i + 1));
            i += 1;
        }
        i
    }

    pub fn prune_recent_worked(&mut self, now: Timestamp)
        requires
            old(self).wf(),
        ensures
            final(self).wf(),
            final(self)@ == forgetful(old(self)@, now),
    {
        self.recent_worked.retain_recent(now);
        assert(self@ =~= forgetful(old(self)@, now));
    }

    pub fn was_worked_recently(
        &self,
        callsign: &str,
        band: Option<&str>,
        now: Timestamp,
    ) -> (r: bool)
        requires
            self.wf(),
        ensures
            r == worked::worked_recently(self@.worked, callsign@, text::str_opt(band), now),
    {
        self.recent_worked.was_worked_recently(callsign, band, now)
    }

    pub fn was_worked_recently_on_current_band(&self, callsign: &str, now: Timestamp) -> (r: bool)
        requires
            self.wf(),
        ensures
            r == worked_here(self@, callsign@, now),
    {
        self.recent_worked.was_worked_recently(callsign, text::borrow_opt(&self.current_band), now)
    }

    pub fn add_station(
        &mut self,
        callsign: &str,
        last_observed_at: Timestamp,
        now: Timestamp,
    ) -> (r: Result<
        (),
        QueueRefusal,
    >)
        requires
            old(self).wf(),
        ensures
            final(self).wf(),
            (final(self)@, r) == station_added(old(self)@, callsign@, last_observed_at, now),
    {
        self.prune_recent_worked(now);
        if text::eq_ignore_ascii_case(callsign, self.our_call.as_str()) {
            return Err(QueueRefusal::OwnCall);
        }
        if self.was_worked_recently_on_current_band(callsign, now) {
            return Err(QueueRefusal::WorkedRecently);
        }
        if self.locate(callsign) < self.entries.len() {
            return Ok(());
        }
        self.put_at_back(entry_without_directs(callsign, now, now, last_observed_at));
        Ok(())
    }

    pub fn add_direct_observation(
        &mut self,
        observation: DirectCallObservation,
        now: Timestamp,
    ) -> (r: Result<
        (),
        QueueRefusal,
    >)
        requires
            old(self).wf(),
        ensures
            final(self).wf(),
            (final(self)@, r) == direct_added(old(self)@, observation@, now),
    {
        self.prune_recent_worked(now);
        if text::eq_ignore_ascii_case(observation.callsign.as_str(), self.our_call.as_str()) {
            return Err(QueueRefusal::OwnCall);
        }
        if self.ignore_direct_calls_from_recently_worked
            && self.was_worked_recently_on_current_band(observation.callsign.as_str(), now) {
            return Err(QueueRefusal::DirectCallerWorkedRecently);
        }
        let place: usize = self.locate(observation.callsign.as_str());
        if place < self.entries.len() {
            assert(self@.entries[place as int] == self.entries@[place as int]@);
            let updated = entry_called_again(&self.entries[place], observation, now);
            self.replace_at(place, updated);
        } else {
            self.put_at_back(entry_from_direct(observation, now));
        }
        Ok(())
    }

    /// Takes the station out of the queue; whether it was in it.
    pub fn remove_station(&mut self, callsign: &str) -> (r: bool)
        requires
            old(self).wf(),
        ensures
            final(self).wf(),
            r == waits(old(self)@.entries, callsign@),
            final(self)@ == (QueueModel {
                entries: without(old(self)@.entries, callsign@),
                ..old(self)@
            }),
    {
        let ghost before = self@;
        let place: usize = self.locate(callsign);
        proof {
            lemma_place_of(before.entries, callsign@);
        }
        if place < self.entries.len() {
            let _ = self.entries.remove(place);
            assert(self@.entries =~= before.entries.remove(place as int));
            assert(self@ =~= (QueueModel { entries: self@.entries, ..before }));
            proof {
                lemma_removal_keeps_sound(before, place as int);
            }
            true
        } else {
            assert(self@ =~= (QueueModel { entries: before.entries, ..before }));
            false
        }
    }

    pub fn clear(&mut self)
        requires
            old(self).wf(),
        ensures
            final(self).wf(),
            final(self)@ == (QueueModel {
                entries: Seq::empty(),
                status: if old(self)@.auto_enabled {
                    "queue empty"@
                } else {
                    "auto disabled"@
                },
                ..old(self)@
            }),
    {
        self.entries.clear();
        self.scheduler_status = if self.auto_enabled {
            "queue empty".to_owned()
        } else {
            "auto disabled".to_owned()
        };
        assert(self@.entries =~= Seq::<EntryModel>::empty());
    }

    /// Takes note of how a contact ended.
    pub fn handle_qso_outcome(&mut self, outcome: &QsoOutcome, tracker: &StationTracker)
        requires
            old(self).wf(),
            tracker.wf(),
            qso::retry_kind(outcome.exit_reason@) is Some ==> retry_from(old(self)@, *outcome) is Some,
        ensures
            final(self).wf(),
            final(self)@ == contact_over(old(self)@, *outcome, tracker@),
    {
        if outcome.sent_terminal_73 {
            self.close_out(outcome);
        }
        let delay: u128 = match qso::retry_kind_of(outcome.exit_reason.as_str()) {
            Some(QueueRetryDelayKind::NoMessage) => self.no_message_retry_delay,
            Some(QueueRetryDelayKind::NoForward) => self.no_forward_retry_delay,
            None => {
                return ;
            },
        };
        let retry_at: i128 = match slots::checked_after(outcome.finished_at, delay) {
            Some(t) => t,
            None => outcome.finished_at,
        };
        let last_observed_at: i128 = match tracker.start_info(outcome.partner_call.as_str()) {
            Some(info) => info.last_heard_at,
            None => outcome.finished_at,
        };
        self.requeue(
            outcome.partner_call.as_str(),
            outcome.finished_at,
            retry_at,
            last_observed_at,
        );
    }

    fn close_out(&mut self, outcome: &QsoOutcome)
        requires
            old(self).wf(),
        ensures
            final(self).wf(),
            final(self)@ == closed_out(old(self)@, *outcome),
    {
        if let Some(band) = &outcome.rig_band {
            self.mark_worked(outcome.partner_call.as_str(), band.as_str(), outcome.finished_at);
        }
        let _ = self.remove_station(outcome.partner_call.as_str());
    }

    fn requeue(
        &mut self,
        callsign: &str,
        finished_at: Timestamp,
        retry_at: Timestamp,
        last_observed_at: Timestamp,
    )
        requires
            old(self).wf(),
        ensures
            final(self).wf(),
            final(self)@ == requeued(
                old(self)@,
                callsign@,
                finished_at,
                retry_at,
                last_observed_at,
            ),
    {
        proof {
            lemma_without(self@.entries, callsign@);
        }
        let _ = self.remove_station(callsign);
        if !text::eq_ignore_ascii_case(callsign, self.our_call.as_str()) {
            self.put_at_back(
                entry_without_directs(callsign, finished_at, retry_at, last_observed_at),
            );
        }
    }

    /// Puts an entry at the end of the queue.
    fn put_at_back(&mut self, entry: WorkQueueEntry)
        requires
            old(self).wf(),
            !waits(old(self)@.entries, entry@.callsign),
            !text::same_ignoring_case(entry@.callsign, old(self)@.our_call),
        ensures
            final(self).wf(),
            final(self)@ == (QueueModel {
                entries: old(self)@.entries.push(entry@),
                ..old(self)@
            }),
    {
        proof {
            lemma_place_of(self@.entries, entry@.callsign);
        }
        self.entries.push(entry);
        assert(self@.entries =~= old(self)@.entries.push(entry@));
    }

    /// Puts an entry of the same station in place of the one at `place`.
    fn replace_at(&mut self, place: usize, entry: WorkQueueEntry)
        requires
            old(self).wf(),
            place < old(self)@.entries.len(),
            entry@.callsign == old(self)@.entries[place as int].callsign,
        ensures
            final(self).wf(),
            final(self)@ == (QueueModel {
                entries: old(self)@.entries.update(place as int, entry@),
                ..old(self)@
            }),
    {
        let ghost before = self@;
        self.entries.set(place, entry);
        assert(self@.entries =~= before.entries.update(place as int, entry@));
        assert forall|i: int, j: int| 0 <= i < j < self@.entries.len() implies (
        #[trigger] self@.entries[i]).callsign != (#[trigger] self@.entries[j]).callsign by {
            assert(before.entries[i].callsign != before.entries[j].callsign);
        }
        assert forall|i: int| 0 <= i < self@.entries.len() implies !text::same_ignoring_case(
            (#[trigger] self@.entries[i]).callsign,
            self@.our_call,
        ) by {
            assert(!text::same_ignoring_case(before.entries[i].callsign, before.our_call));
        }
    }

    pub fn mark_worked(&mut self, callsign: &str, band: &str, worked_at: Timestamp)
        requires
            old(self).wf(),
        ensures
            final(self).wf(),
            final(self)@ == (QueueModel {
                worked: old(self)@.worked.insert((callsign@, band@), worked_at),
                ..old(self)@
            }),
    {
        self.recent_worked.insert(callsign, band, worked_at);
    }

    /// Takes over what has been worked according to `recent_worked`.
    pub fn sync_recent_worked(&mut self, recent_worked: &WorkedLog)
        requires
            old(self).wf(),
            recent_worked.wf(),
        ensures
            final(self).wf(),
            final(self)@ == (QueueModel {
                worked: worked::later_of(old(self)@.worked, recent_worked@),
                ..old(self)@
            }),
    {
        self.recent_worked.merge(recent_worked);
    }

    pub fn set_current_band(&mut self, band: Option<String>)
        requires
            old(self).wf(),
        ensures
            final(self).wf(),
            final(self)@ == (QueueModel { band: text::text_opt(band), ..old(self)@ }),
    {
        self.current_band = band;
    }

    pub fn set_current_mode(&mut self, mode: DecoderMode)
        requires
            old(self).wf(),
        ensures
            final(self).wf(),
            final(self)@ == (QueueModel { mode, ..old(self)@ }),
    {
        self.current_mode = mode;
    }

    pub fn set_auto_enabled(&mut self, enabled: bool)
        requires
            old(self).wf(),
        ensures
            final(self).wf(),
            final(self)@ == (QueueModel {
                auto_enabled: enabled,
                status: if enabled {
                    "auto enabled"@
                } else {
                    "auto disabled"@
                },
                ..old(self)@
            }),
    {
        self.auto_enabled = enabled;
        self.scheduler_status = if enabled {
            "auto enabled".to_owned()
        } else {
            "auto disabled".to_owned()
        };
    }

    pub fn set_auto_add_all_decoded_calls(&mut self, enabled: bool)
        requires
            old(self).wf(),
        ensures
            final(self).wf(),
            final(self)@ == (QueueModel { auto_add_all: enabled, ..old(self)@ }),
    {
        self.auto_add_all_decoded_calls = enabled;
    }

    /// A station has to be heard at least once.
    pub fn set_auto_add_decoded_min_count_5m(&mut self, count: u32)
        requires
            old(self).wf(),
        ensures
            final(self).wf(),
            final(self)@ == (QueueModel { auto_add_min_count: at_least_one(count), ..old(self)@ }),
    {
        self.auto_add_decoded_min_count_5m = if count == 0 {
            1
        } else {
            count
        };
    }

    pub fn set_auto_add_direct_calls(&mut self, enabled: bool)
        requires
            old(self).wf(),
        ensures
            final(self).wf(),
            final(self)@ == (QueueModel { auto_add_direct: enabled, ..old(self)@ }),
    {
        self.auto_add_direct_calls = enabled;
    }

    pub fn set_ignore_direct_calls_from_recently_worked(&mut self, enabled: bool)
        requires
            old(self).wf(),
        ensures
            final(self).wf(),
            final(self)@ == (QueueModel { ignore_worked_directs: enabled, ..old(self)@ }),
    {
        self.ignore_direct_calls_from_recently_worked = enabled;
    }

    pub fn set_cq_enabled(&mut self, enabled: bool)
        requires
            old(self).wf(),
        ensures
            final(self).wf(),
            final(self)@ == (QueueModel { cq_enabled: enabled, ..old(self)@ }),
    {
        self.cq_enabled = enabled;
    }

    pub fn set_cq_percent(&mut self, percent: u8)
        requires
            old(self).wf(),
        ensures
            final(self).wf(),
            final(self)@ == (QueueModel { cq_percent: at_most_hundred(percent), ..old(self)@ }),
    {
        self.cq_percent = if percent > 100 {
            100
        } else {
            percent
        };
    }

    pub fn set_pause_cq_when_few_unique_calls(&mut self, enabled: bool)
        requires
            old(self).wf(),
        ensures
            final(self).wf(),
            final(self)@ == (QueueModel { pause_cq: enabled, ..old(self)@ }),
    {
        self.pause_cq_when_few_unique_calls = enabled;
    }

    pub fn set_cq_pause_min_unique_calls_5m(&mut self, count: u32)
        requires
            old(self).wf(),
        ensures
            final(self).wf(),
            final(self)@ == (QueueModel { pause_cq_below: count, ..old(self)@ }),
    {
        self.cq_pause_min_unique_calls_5m = count;
    }

    pub fn set_use_compound_rr73_handoff(&mut self, enabled: bool)
        requires
            old(self).wf(),
        ensures
            final(self).wf(),
            final(self)@ == (QueueModel { compound_rr73: enabled, ..old(self)@ }),
    {
        self.use_compound_rr73_handoff = enabled;
    }

    pub fn set_use_compound_73_once_handoff(&mut self, enabled: bool)
        requires
            old(self).wf(),
        ensures
            final(self).wf(),
            final(self)@ == (QueueModel { compound_73_once: enabled, ..old(self)@ }),
    {
        self.use_compound_73_once_handoff = enabled;
    }

    pub fn set_use_compound_for_direct_signal_callers(&mut self, enabled: bool)
        requires
            old(self).wf(),
        ensures
            final(self).wf(),
            final(self)@ == (QueueModel { compound_for_signal: enabled, ..old(self)@ }),
    {
        self.use_compound_for_direct_signal_callers = enabled;
    }

    pub fn use_compound_73_once_handoff(&self) -> (r: bool)
        ensures
            r == self@.compound_73_once,
    {
        self.use_compound_73_once_handoff
    }

    pub fn toggle_next_cq_parity(&mut self)
        requires
            old(self).wf(),
        ensures
            final(self).wf(),
            final(self)@ == (QueueModel {
                cq_parity_flipped: !old(self)@.cq_parity_flipped,
                ..old(self)@
            }),
    {
        self.next_cq_parity_flipped = !self.next_cq_parity_flipped;
    }

    pub fn set_tx_freq_hz(&mut self, slot_family: SlotFamily, tx_freq_hz: FloatBits)
        requires
            old(self).wf(),
        ensures
            final(self).wf(),
            final(self)@ == (match slot_family {
                SlotFamily::Even => QueueModel { even_freq: tx_freq_hz, ..old(self)@ },
                SlotFamily::Odd => QueueModel { odd_freq: tx_freq_hz, ..old(self)@ },
            }),
    {
        match slot_family {
            SlotFamily::Even => self.even_tx_freq_hz = tx_freq_hz,
            SlotFamily::Odd => self.odd_tx_freq_hz = tx_freq_hz,
        }
    }

    pub fn tx_freq_hz_for(&self, slot_family: SlotFamily) -> (r: FloatBits)
        ensures
            r == tx_freq(self@, slot_family),
    {
        match slot_family {
            SlotFamily::Even => self.even_tx_freq_hz,
            SlotFamily::Odd => self.odd_tx_freq_hz,
        }
    }

    pub fn set_retry_delay(&mut self, kind: QueueRetryDelayKind, retry_delay: Nanos)
        requires
            old(self).wf(),
        ensures
            final(self).wf(),
            final(self)@ == (match kind {
                QueueRetryDelayKind::NoMessage => QueueModel {
                    no_message_delay: retry_delay,
                    ..old(self)@
                },
                QueueRetryDelayKind::NoForward => QueueModel {
                    no_forward_delay: retry_delay,
                    ..old(self)@
                },
            }),
    {
        match kind {
            QueueRetryDelayKind::NoMessage => self.no_message_retry_delay = retry_delay,
            QueueRetryDelayKind::NoForward => self.no_forward_retry_delay = retry_delay,
        }
    }
}

pub proof fn lemma_removal_keeps_sound(queue: QueueModel, place: int)
    requires
        sound(queue),
        0 <= place < queue.entries.len(),
    ensures
        sound(QueueModel { entries: queue.entries.remove(place), ..queue }),
{
    let rest = queue.entries.remove(place);
    assert forall|i: int, j: int| 0 <= i < j < rest.len() implies (#[trigger] rest[i]).callsign != (
    #[trigger] rest[j]).callsign by {
        let a = if i < place { i } else { i + 1 };
        let b = if j < place { j } else { j + 1 };
        assert(rest[i] == queue.entries[a] && rest[j] == queue.entries[b]);
    }
    assert forall|i: int| 0 <= i < rest.len() implies !text::same_ignoring_case(
        (#[trigger] rest[i]).callsign,
        queue.our_call,
    ) by {
        let a = if i < place { i } else { i + 1 };
        assert(rest[i] == queue.entries[a]);
    }
}

/// Once taken out, a station waits no more.
pub proof fn lemma_without(entries: Seq<EntryModel>, callsign: Seq<char>)
    requires
        distinct_calls(entries),
    ensures
        forall|i: int|
            0 <= i < without(entries, callsign).len() ==> (#[trigger] without(
                entries,
                callsign,
            )[i]).callsign != callsign,
        !waits(without(entries, callsign), callsign),
{
    let rest = without(entries, callsign);
    lemma_place_of(entries, callsign);
    lemma_place_of(rest, callsign);
    let place = place_of(entries, callsign);
    assert forall|i: int| 0 <= i < rest.len() implies (#[trigger] rest[i]).callsign != callsign by {
        if waits(entries, callsign) {
            let a = if i < place { i } else { i + 1 };
            assert(rest[i] == entries[a]);
            if a > place {
                assert(entries[place].callsign != entries[a].callsign);
            }
        } else {
            assert(rest[i] == entries[i]);
        }
    }
}

} // verus!
