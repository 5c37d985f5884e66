//! Which waiting station to work next, or whether to call CQ.

use vstd::prelude::*;
use vstd::string::*;

use crate::clock;
use crate::clock::Timestamp;
use crate::message::{FloatBits, StationLastMessageKind};
use crate::qso::{QsoStartMode, QsoState};
use crate::queue;
use crate::queue::{EntryModel, QueueModel, WorkQueueEntry, WorkQueueState};
use crate::slots;
use crate::slots::{DecoderMode, SlotFamily};
use crate::text;
use crate::tracker;
use crate::tracker::{StationTracker, TrackerModel};

verus! {

/// How long an unheard station waits: ten minutes.
pub const QUEUE_HEARD_RETENTION: u128 = 600_000_000_000;

/// How far back activity on the band is counted: five minutes.
pub const CQ_ACTIVITY_WINDOW: u128 = 300_000_000_000;

#[derive(Debug)]
pub struct QueueEntryStatus {
    pub last_heard_at: Option<Timestamp>,
    pub last_heard_message: StationLastMessageKind,
    pub last_heard_slot_family: Option<SlotFamily>,
    pub ready: bool,
    pub status: String,
}

#[verifier::ext_equal]
pub struct StatusModel {
    pub heard_at: Option<Timestamp>,
    pub kind: StationLastMessageKind,
    pub family: Option<SlotFamily>,
    pub ready: bool,
    pub status: Seq<char>,
}

impl View for QueueEntryStatus {
    type V = StatusModel;

    open spec fn view(&self) -> StatusModel {
        StatusModel {
            heard_at: self.last_heard_at,
            kind: self.last_heard_message,
            family: self.last_heard_slot_family,
            ready: self.ready,
            status: self.status@,
        }
    }
}

/// `a - b`, but not below nothing.
pub open spec fn less_or_none(a: int, b: int) -> int {
    if a > b {
        a - b
    } else {
        0
    }
}

/// A slot of the family is one of its last two that have begun.
pub open spec fn in_last_two(
    mode: DecoderMode,
    now: Timestamp,
    family: SlotFamily,
    slot_index: int,
) -> bool {
    less_or_none(slots::latest_index(mode, now, family), slot_index) <= 2
}

/// The station counts as worked here and is not to be called for it.
pub open spec fn put_off_as_worked(queue: QueueModel, entry: EntryModel, now: Timestamp) -> bool {
    queue::worked_here(queue, entry.callsign, now) && (queue.ignore_worked_directs
        || !entry.direct_pending)
}

/// Where a waiting station stands. It is ready when it is not worked already, its delay is over, it
/// was heard in one of its last two slots, and its last message leaves it free.
pub open spec fn status_of(
    queue: QueueModel,
    entry: EntryModel,
    tracker: TrackerModel,
    now: Timestamp,
) -> StatusModel {
    let blocked = |why: Seq<char>|
        StatusModel {
            heard_at: Some(entry.observed_at),
            kind: StationLastMessageKind::Other,
            family: None,
            ready: false,
            status: why,
        };
    if put_off_as_worked(queue, entry, now) {
        blocked("already worked on this band in last 24h"@)
    } else if now < entry.ok_after {
        blocked(
            "retry blocked for "@ + text::decimal(
                (clock::since(entry.ok_after, now) / 1_000_000_000) as nat,
            ) + "s"@,
        )
    } else {
        match tracker::station_at(tracker, entry.callsign) {
            None => blocked("not currently visible"@),
            Some(station) => {
                let seen = |ready: bool, why: Seq<char>|
                    StatusModel {
                        heard_at: Some(station.heard_at),
                        kind: station.kind,
                        family: Some(station.family),
                        ready,
                        status: why,
                    };
                if !in_last_two(queue.mode, now, station.family, station.slot_index as int) {
                    seen(false, "not heard in last two parity slots"@)
                } else if station.kind == StationLastMessageKind::Other {
                    seen(
                        false,
                        "last heard message "@ + station.kind.name() + " is not schedulable"@,
                    )
                } else if entry.direct_pending {
                    seen(true, "direct x"@ + text::decimal(entry.direct_count as nat))
                } else {
                    seen(true, "ready"@)
                }
            },
        }
    }
}

/// What ranks one direct call before another.
#[derive(Debug)]
pub struct DirectPriorityMeta {
    pub callsign: String,
    pub queued_at: Timestamp,
    pub slot_index: u64,
    pub count: u32,
    pub snr_db: i32,
}

#[verifier::ext_equal]
pub struct MetaModel {
    pub callsign: Seq<char>,
    pub queued_at: Timestamp,
    pub slot_index: u64,
    pub count: u32,
    pub snr: i32,
}

impl View for DirectPriorityMeta {
    type V = MetaModel;

    open spec fn view(&self) -> MetaModel {
        MetaModel {
            callsign: self.callsign@,
            queued_at: self.queued_at,
            slot_index: self.slot_index,
            count: self.count,
            snr: self.snr_db,
        }
    }
}

pub open spec fn meta_opt(meta: Option<DirectPriorityMeta>) -> Option<MetaModel> {
    match meta {
        Some(m) => Some(m@),
        None => None,
    }
}

/// What a direct call is ranked by, where it has priority now: it waits for an answer, its delay is
/// over, it does not count as worked, and it was heard in one of its last two slots.
pub open spec fn priority_of(
    queue: QueueModel,
    entry: EntryModel,
    now: Timestamp,
) -> Option<MetaModel> {
    if !entry.direct_pending || now < entry.ok_after {
        None
    } else if queue.ignore_worked_directs && queue::worked_here(queue, entry.callsign, now) {
        None
    } else {
        match (entry.direct_family, entry.direct_slot_index) {
            (Some(family), Some(slot_index)) => if in_last_two(
                queue.mode,
                now,
                family,
                slot_index as int,
            ) {
                Some(
                    MetaModel {
                        callsign: entry.callsign,
                        queued_at: entry.queued_at,
                        slot_index,
                        count: entry.direct_count,
                        snr: match entry.direct_snr {
                            Some(snr) => snr,
                            None => i32::MIN,
                        },
                    },
                )
            } else {
                None
            },
            _ => None,
        }
    }
}

/// The later slot goes first, then the more frequent caller, the better signal, the longer wait,
/// and at last the lesser callsign.
pub open spec fn outranks(a: MetaModel, b: MetaModel) -> bool {
    if a.slot_index != b.slot_index {
        a.slot_index > b.slot_index
    } else if a.count != b.count {
        a.count > b.count
    } else if a.snr != b.snr {
        a.snr > b.snr
    } else if a.queued_at != b.queued_at {
        a.queued_at < b.queued_at
    } else {
        text::text_lt(a.callsign, b.callsign)
    }
}

pub proof fn lemma_outranks_total(a: MetaModel, b: MetaModel)
    ensures
        !(outranks(a, b) && outranks(b, a)),
        a.callsign != b.callsign ==> outranks(a, b) || outranks(b, a),
{
    text::lemma_text_lt_total(a.callsign, b.callsign);
    text::lemma_text_lt_irreflexive(a.callsign);
    if text::text_lt(a.callsign, b.callsign) && text::text_lt(b.callsign, a.callsign) {
        text::lemma_text_lt_transitive(a.callsign, b.callsign, a.callsign);
    }
}

pub proof fn lemma_outranks_transitive(a: MetaModel, b: MetaModel, c: MetaModel)
    requires
        outranks(a, b),
        outranks(b, c),
    ensures
        outranks(a, c),
{
    if text::text_lt(a.callsign, b.callsign) && text::text_lt(b.callsign, c.callsign) {
        text::lemma_text_lt_transitive(a.callsign, b.callsign, c.callsign);
    }
}

pub open spec fn is_excluded(callsign: Seq<char>, excluded: Option<Seq<char>>) -> bool {
    match excluded {
        Some(x) => text::same_ignoring_case(callsign, x),
        None => false,
    }
}

/// The entry at `i` is a direct call with priority, and not the excluded one.
pub open spec fn has_priority(
    queue: QueueModel,
    now: Timestamp,
    excluded: Option<Seq<char>>,
    i: int,
) -> bool {
    0 <= i < queue.entries.len() && !is_excluded(queue.entries[i].callsign, excluded)
        && priority_of(queue, queue.entries[i], now) is Some
}

pub open spec fn meta_at(queue: QueueModel, now: Timestamp, i: int) -> MetaModel {
    priority_of(queue, queue.entries[i], now)->0
}

/// The entry at `i` outranks every other direct call with priority.
pub open spec fn is_first_direct(
    queue: QueueModel,
    now: Timestamp,
    excluded: Option<Seq<char>>,
    i: int,
) -> bool {
    has_priority(queue, now, excluded, i) && forall|j: int| #[trigger]
        has_priority(queue, now, excluded, j) && j != i ==> outranks(
            meta_at(queue, now, i),
            meta_at(queue, now, j),
        )
}

/// The place of the direct call that goes first.
pub open spec fn first_direct(
    queue: QueueModel,
    now: Timestamp,
    excluded: Option<Seq<char>>,
) -> Option<int> {
    if exists|i: int| is_first_direct(queue, now, excluded, i) {
        Some(choose|i: int| is_first_direct(queue, now, excluded, i))
    } else {
        None
    }
}

pub proof fn lemma_first_direct_unique(
    queue: QueueModel,
    now: Timestamp,
    excluded: Option<Seq<char>>,
    i: int,
)
    requires
        is_first_direct(queue, now, excluded, i),
    ensures
        first_direct(queue, now, excluded) == Some(i),
{
    let k = choose|k: int| is_first_direct(queue, now, excluded, k);
    if k != i {
        assert(has_priority(queue, now, excluded, k) && has_priority(queue, now, excluded, i));
        lemma_outranks_total(meta_at(queue, now, i), meta_at(queue, now, k));
    }
}

/// How the next transmission is to be made.
#[derive(Debug)]
pub enum QueueDispatchKind {
    Station {
        callsign: String,
        initial_state: QsoState,
        start_mode: QsoStartMode,
        context_last_heard_at: Option<Timestamp>,
        context_last_heard_slot_family: Option<SlotFamily>,
        context_text: Option<String>,
        context_structured_json: Option<String>,
        context_snr_db: Option<i32>,
    },
    Cq { tx_slot_family_override: Option<SlotFamily> },
}

#[derive(Debug)]
pub struct QueueDispatch {
    pub kind: QueueDispatchKind,
    pub callsign: String,
    pub tx_slot_family: SlotFamily,
    pub tx_freq_hz: FloatBits,
}

pub enum DispatchKindModel {
    Station {
        callsign: Seq<char>,
        state: QsoState,
        mode: QsoStartMode,
        heard_at: Option<Timestamp>,
        family: Option<SlotFamily>,
        text: Option<Seq<char>>,
        json: Option<Seq<char>>,
        snr: Option<i32>,
    },
    Cq { family: Option<SlotFamily> },
}

pub struct DispatchModel {
    pub kind: DispatchKindModel,
    pub callsign: Seq<char>,
    pub family: SlotFamily,
    pub freq: FloatBits,
}

impl View for QueueDispatchKind {
    type V = DispatchKindModel;

    open spec fn view(&self) -> DispatchKindModel {
        match self {
            QueueDispatchKind::Station {
                callsign,
                initial_state,
                start_mode,
                context_last_heard_at,
                context_last_heard_slot_family,
                context_text,
                context_structured_json,
                context_snr_db,
            } => DispatchKindModel::Station {
                callsign: callsign@,
                state: *initial_state,
                mode: *start_mode,
                heard_at: *context_last_heard_at,
                family: *context_last_heard_slot_family,
                text: text::text_opt(*context_text),
                json: text::text_opt(*context_structured_json),
                snr: *context_snr_db,
            },
            QueueDispatchKind::Cq { tx_slot_family_override } => DispatchKindModel::Cq {
                family: *tx_slot_family_override,
            },
        }
    }
}

impl View for QueueDispatch {
    type V = DispatchModel;

    open spec fn view(&self) -> DispatchModel {
        DispatchModel {
            kind: self.kind@,
            callsign: self.callsign@,
            family: self.tx_slot_family,
            freq: self.tx_freq_hz,
        }
    }
}

pub open spec fn dispatch_opt(dispatch: Option<QueueDispatch>) -> Option<DispatchModel> {
    match dispatch {
        Some(d) => Some(d@),
        None => None,
    }
}

/// The family of the slot that comes next.
pub open spec fn coming_family(mode: DecoderMode, now: Timestamp) -> SlotFamily {
    slots::slot_family(mode, slots::next_boundary(mode, now) as i128)
}

/// The answer to a direct call: in the slots opposite to the caller's.
pub open spec fn direct_dispatch(
    queue: QueueModel,
    entry: EntryModel,
    now: Timestamp,
) -> DispatchModel {
    let family = match entry.direct_family {
        Some(f) => f.other(),
        None => coming_family(queue.mode, now),
    };
    DispatchModel {
        kind: DispatchKindModel::Station {
            callsign: entry.callsign,
            state: match entry.start_state {
                Some(state) => state,
                None => QsoState::SendSig,
            },
            mode: QsoStartMode::Direct,
            heard_at: entry.direct_at,
            family: entry.direct_family,
            text: entry.direct_text,
            json: entry.direct_json,
            snr: entry.direct_snr,
        },
        callsign: entry.callsign,
        family,
        freq: queue::tx_freq(queue, family),
    }
}

/// A call to a station that waits: in the slots opposite to its own.
pub open spec fn normal_dispatch(
    queue: QueueModel,
    entry: EntryModel,
    tracker: TrackerModel,
    now: Timestamp,
) -> DispatchModel {
    let family = match tracker::station_at(tracker, entry.callsign) {
        Some(station) => station.family.other(),
        None => coming_family(queue.mode, now),
    };
    DispatchModel {
        kind: DispatchKindModel::Station {
            callsign: entry.callsign,
            state: QsoState::SendGrid,
            mode: QsoStartMode::Normal,
            heard_at: None,
            family: None,
            text: None,
            json: None,
            snr: None,
        },
        callsign: entry.callsign,
        family,
        freq: queue::tx_freq(queue, family),
    }
}

/// A CQ in the coming slot's family, or once in the other, where that was asked for.
pub open spec fn cq_dispatch(queue: QueueModel, now: Timestamp) -> DispatchModel {
    let coming = coming_family(queue.mode, now);
    let family = if queue.cq_parity_flipped {
        coming.other()
    } else {
        coming
    };
    DispatchModel {
        kind: DispatchKindModel::Cq { family: Some(family) },
        callsign: "CQ"@,
        family,
        freq: queue::tx_freq(queue, family),
    }
}

/// A number below a hundred that each slot has for itself.
pub open spec fn slot_roll(mode: DecoderMode, now: Timestamp) -> int {
    slots::low_64_bits(slots::low_64_bits(slots::slot_index(mode, now) * 1103515245) + 12345) % 100
}

pub open spec fn cq_wins(queue: QueueModel, now: Timestamp) -> bool {
    queue.cq_enabled && queue.cq_percent != 0 && slot_roll(queue.mode, now) < queue.cq_percent
}

/// How many different stations have been heard in the last five minutes, our own left out.
pub open spec fn activity(queue: QueueModel, tracker: TrackerModel, now: Timestamp) -> nat {
    tracker::senders_since(
        tracker.logs,
        clock::back_by(now, CQ_ACTIVITY_WINDOW as int),
        queue.our_call,
    ).len()
}

pub open spec fn cq_paused(queue: QueueModel, activity: nat) -> bool {
    queue.pause_cq && activity < queue.pause_cq_below
}

/// The place, from `i` on, of the first station that is ready; the queue's length where none is.
pub open spec fn first_ready(
    queue: QueueModel,
    tracker: TrackerModel,
    now: Timestamp,
    i: int,
) -> int
    decreases queue.entries.len() - i,
{
    if i < 0 || i >= queue.entries.len() {
        queue.entries.len() as int
    } else if status_of(queue, queue.entries[i], tracker, now).ready {
        i
    } else {
        first_ready(queue, tracker, now, i + 1)
    }
}

/// The entry with what the tracker has heard since.
pub open spec fn observed(entry: EntryModel, tracker: TrackerModel) -> EntryModel {
    match tracker::station_at(tracker, entry.callsign) {
        Some(station) if station.heard_at > entry.observed_at => EntryModel {
            observed_at: station.heard_at,
            ..entry
        },
        _ => entry,
    }
}

/// The station goes on waiting.
pub open spec fn goes_on_waiting(queue: QueueModel, entry: EntryModel, now: Timestamp) -> bool {
    !put_off_as_worked(queue, entry, now) && clock::since(now, entry.observed_at)
        <= QUEUE_HEARD_RETENTION
}

/// The queue as the scheduler looks at it: brought up to date, and without those that have been
/// worked or not been heard for ten minutes.
pub open spec fn brought_up(
    queue: QueueModel,
    tracker: TrackerModel,
    now: Timestamp,
) -> QueueModel {
    let q = queue::forgetful(queue, now);
    QueueModel {
        entries: q.entries.map_values(|e: EntryModel| observed(e, tracker)).filter(
            |e: EntryModel| goes_on_waiting(q, e, now),
        ),
        ..q
    }
}

/// What is said when there is nothing to send.
pub open spec fn idle_status(queue: QueueModel, activity: nat) -> Seq<char> {
    let count = text::decimal(activity) + "/"@ + (text::decimal(queue.pause_cq_below as nat)
        + " unique calls in 5m"@);
    if queue.entries.len() == 0 {
        if queue.cq_enabled && cq_paused(queue, activity) {
            "idle; cq paused at "@ + count
        } else if queue.cq_enabled {
            "idle; cq skipped at "@ + text::decimal(queue.cq_percent as nat) + "%"@
        } else {
            "queue empty"@
        }
    } else if cq_paused(queue, activity) {
        "no ready queued stations; cq paused at "@ + count
    } else {
        "no ready queued stations"@
    }
}

/// The direct call at `i` is answered.
pub open spec fn answering(
    queue: QueueModel,
    now: Timestamp,
    i: int,
) -> (QueueModel, Option<DispatchModel>) {
    (
        QueueModel {
            entries: queue.entries.remove(i),
            status: "dispatching direct "@ + queue.entries[i].callsign,
            ..queue
        },
        Some(direct_dispatch(queue, queue.entries[i], now)),
    )
}

/// CQ is called, whether or not a station is ready.
pub open spec fn calling_cq(queue: QueueModel, now: Timestamp, others_ready: bool) -> (
    QueueModel,
    Option<DispatchModel>,
) {
    (
        QueueModel {
            cq_parity_flipped: false,
            status: (if others_ready {
                "dispatching cq at "@
            } else {
                "cq idle roll at "@
            }) + text::decimal(queue.cq_percent as nat) + "%"@,
            ..queue
        },
        Some(cq_dispatch(queue, now)),
    )
}

/// The station at `i` is called.
pub open spec fn calling_station(
    queue: QueueModel,
    tracker: TrackerModel,
    now: Timestamp,
    i: int,
) -> (
    QueueModel,
    Option<DispatchModel>,
) {
    (
        QueueModel {
            entries: queue.entries.remove(i),
            status: "dispatching "@ + queue.entries[i].callsign,
            ..queue
        },
        Some(normal_dispatch(queue, queue.entries[i], tracker, now)),
    )
}

/// What the scheduler does with a queue that is brought up and free to send: a direct call goes
/// first, then, as the roll has it, a CQ or the station that has waited longest of those ready. A
/// station leaves the queue only when it is the one called.
pub open spec fn chosen(
    queue: QueueModel,
    tracker: TrackerModel,
    now: Timestamp,
    activity: nat,
) -> (
    QueueModel,
    Option<DispatchModel>,
) {
    match first_direct(queue, now, None) {
        Some(i) => answering(queue, now, i),
        None => {
            let ready = first_ready(queue, tracker, now, 0);
            if queue.cq_enabled && !cq_paused(queue, activity) && cq_wins(queue, now) {
                calling_cq(queue, now, ready < queue.entries.len())
            } else if ready < queue.entries.len() {
                calling_station(queue, tracker, now, ready)
            } else {
                (QueueModel { status: idle_status(queue, activity), ..queue }, None)
            }
        },
    }
}

/// What the scheduler does.
pub open spec fn scheduled(
    queue: QueueModel,
    tracker: TrackerModel,
    now: Timestamp,
    qso_busy: bool,
    tune_active: bool,
) -> (
    QueueModel,
    Option<DispatchModel>,
) {
    let q = brought_up(queue, tracker, now);
    if !q.auto_enabled {
        (QueueModel { status: "auto disabled"@, ..q }, None)
    } else if qso_busy {
        (QueueModel { status: "waiting: qso active"@, ..q }, None)
    } else if tune_active {
        (QueueModel { status: "waiting: rig tune active"@, ..q }, None)
    } else {
        chosen(q, tracker, now, activity(queue, tracker, now))
    }
}

impl WorkQueueState {
    pub fn entry_status(
        &self,
        entry: &WorkQueueEntry,
        tracker: &StationTracker,
        now: Timestamp,
    ) -> (r: QueueEntryStatus)
        requires
            self.wf(),
            tracker.wf(),
        ensures
            r@ == status_of(self@, entry@, tracker@, now),
    {
        if self.was_worked_recently_on_current_band(entry.callsign.as_str(), now) && (
        self.ignore_direct_calls_from_recently_worked || !entry.direct_pending) {
            return QueueEntryStatus {
                last_heard_at: Some(entry.last_observed_at),
                last_heard_message: StationLastMessageKind::Other,
                last_heard_slot_family: None,
                ready: false,
                status: "already worked on this band in last 24h".to_owned(),
            };
        }
        if now < entry.ok_to_schedule_after {
            let wait: u128 = clock::elapsed(entry.ok_to_schedule_after, now) / 1_000_000_000;
            return QueueEntryStatus {
                last_heard_at: Some(entry.last_observed_at),
                last_heard_message: StationLastMessageKind::Other,
                last_heard_slot_family: None,
                ready: false,
                status: text::cat3(
                    "retry blocked for ",
                    text::long_decimal_text(wait).as_str(),
                    "s",
                ),
            };
        }
        let station = match tracker.stations.get(entry.callsign.as_str()) {
            Some(station) => station,
            None => {
                return QueueEntryStatus {
                    last_heard_at: Some(entry.last_observed_at),
                    last_heard_message: StationLastMessageKind::Other,
                    last_heard_slot_family: None,
                    ready: false,
                    status: "not currently visible".to_owned(),
                };
            },
        };
        assert(tracker@.stations[entry@.callsign] == station@);
        let latest: u64 = slots::latest_slot_index_for_family(
            self.current_mode,
            now,
            station.last_heard_slot_family,
        );
        let (ready, status) = if latest > station.last_heard_slot_index && latest
            - station.last_heard_slot_index > 2 {
            (false, "not heard in last two parity slots".to_owned())
        } else if !station.last_message_kind.is_ready_last_message() {
            (
                false,
                text::cat3(
                    "last heard message ",
                    station.last_message_kind.as_str(),
                    " is not schedulable",
                ),
            )
        } else if entry.direct_pending {
            (
                true,
                text::cat2(
                    "direct x",
                    text::decimal_text(entry.direct_count as u64).as_str(),
                ),
            )
        } else {
            (true, "ready".to_owned())
        };
        QueueEntryStatus {
            last_heard_at: Some(station.last_heard_at),
            last_heard_message: station.last_message_kind,
            last_heard_slot_family: Some(station.last_heard_slot_family),
            ready,
            status,
        }
    }

    pub fn direct_priority_meta(
        &self,
        entry: &WorkQueueEntry,
        now: Timestamp,
    ) -> (r: Option<DirectPriorityMeta>)
        requires
            self.wf(),
        ensures
            meta_opt(r) == priority_of(self@, entry@, now),
    {
        if !entry.direct_pending || now < entry.ok_to_schedule_after {
            return None;
        }
        if self.ignore_direct_calls_from_recently_worked
            && self.was_worked_recently_on_current_band(entry.callsign.as_str(), now) {
            return None;
        }
        match (entry.last_direct_slot_family, entry.last_direct_slot_index) {
            (Some(family), Some(slot_index)) => {
                let latest: u64 = slots::latest_slot_index_for_family(
                    self.current_mode,
                    now,
                    family,
                );
                if latest > slot_index && latest - slot_index > 2 {
                    return None;
                }
                Some(
                    DirectPriorityMeta {
                        callsign: entry.callsign.clone(),
                        queued_at: entry.queued_at,
                        slot_index,
                        count: entry.direct_count,
                        snr_db: match entry.last_direct_snr_db {
                            Some(snr) => snr,
                            None => i32::MIN,
                        },
                    },
                )
            },
            _ => None,
        }
    }

    /// The place of the direct call that goes first, one station left out.
    pub fn best_priority_direct_index_excluding(
        &self,
        now: Timestamp,
        excluded_callsign: Option<&str>,
    ) -> (r: Option<usize>)
        requires
            self.wf(),
        ensures
            match r {
                Some(i) => first_direct(self@, now, text::str_opt(excluded_callsign)) == Some(
                    i as int,
                ) && i < self@.entries.len(),
                None => first_direct(self@, now, text::str_opt(excluded_callsign)) is None,
            },
    {
        let ghost excluded = text::str_opt(excluded_callsign);
        let mut best: Option<(usize, DirectPriorityMeta)> = None;
        let mut i: usize = 0;
        while i < self.entries.len()
            invariant
                i <= self.entries@.len(),
                self.wf(),
                excluded == text::str_opt(excluded_callsign),
                match best {
                    Some((b, meta)) => {
                        &&& b < i
                        &&& has_priority(self@, now, excluded, b as int)
                        &&& meta@ == meta_at(self@, now, b as int)
                        &&& forall|j: int| #[trigger]
                            has_priority(self@, now, excluded, j) && j < i && j != b ==> outranks(
                                meta_at(self@, now, b as int),
                                meta_at(self@, now, j),
                            )
                    },
                    None => forall|j: int| #[trigger]
                        has_priority(self@, now, excluded, j) ==> j >= i,
                },
            decreases self.entries@.len() - i,
        {
            let entry = &self.entries[i];
            assert(self@.entries[i as int] == entry@);
            let left_out = match excluded_callsign {
                Some(x) => text::eq_ignore_ascii_case(entry.callsign.as_str(), x),
                None => false,
            };
            if !left_out {
                if let Some(meta) = self.direct_priority_meta(entry, now) {
                    assert(has_priority(self@, now, excluded, i as int));
                    assert(meta@ == meta_at(self@, now, i as int));
                    let better = match &best {
                        Some((b, known)) => {
                            proof {
                                assert(self@.entries[*b as int].callsign
                                    != self@.entries[i as int].callsign);
                                lemma_outranks_total(meta@, known@);
                                if outranks(meta@, known@) {
                                    assert forall|j: int| #[trigger]
                                        has_priority(self@, now, excluded, j) && j < i implies outranks(
                                        meta@,
                                        meta_at(self@, now, j),
                                    ) by {
                                        if j != b {
                                            lemma_outranks_transitive(
                                                meta@,
                                                known@,
                                                meta_at(self@, now, j),
                                            );
                                        }
                                    }
                                }
                            }
                            meta_outranks(&meta, known)
                        },
                        None => true,
                    };
                    if better {
                        best = Some((i, meta));
                    }
                }
            }
            i += 1;
        }
        match best {
            Some((b, _)) => {
                proof {
                    assert(is_first_direct(self@, now, excluded, b as int));
                    lemma_first_direct_unique(self@, now, excluded, b as int);
                }
                Some(b)
            },
            None => {
                assert forall|j: int| !is_first_direct(self@, now, excluded, j) by {
                    assert(!has_priority(self@, now, excluded, j));
                }
                None
            },
        }
    }

    pub fn best_priority_direct_index(&self, now: Timestamp) -> (r: Option<usize>)
        requires
            self.wf(),
        ensures
            match r {
                Some(i) => first_direct(self@, now, None) == Some(i as int) && i
                    < self@.entries.len(),
                None => first_direct(self@, now, None) is None,
            },
    {
        self.best_priority_direct_index_excluding(now, None)
    }
}

fn meta_outranks(a: &DirectPriorityMeta, b: &DirectPriorityMeta) -> (r: bool)
    ensures
        r == outranks(a@, b@),
{
    if a.slot_index != b.slot_index {
        a.slot_index > b.slot_index
    } else if a.count != b.count {
        a.count > b.count
    } else if a.snr_db != b.snr_db {
        a.snr_db > b.snr_db
    } else if a.queued_at != b.queued_at {
        a.queued_at < b.queued_at
    } else {
        text::text_less(a.callsign.as_str(), b.callsign.as_str())
    }
}

pub proof fn lemma_same_calls_keep_sound(queue: QueueModel, entries: Seq<EntryModel>)
    requires
        queue::sound(queue),
        entries.len() == queue.entries.len(),
        forall|i: int|
            0 <= i < entries.len() ==> (#[trigger] entries[i]).callsign == queue.entries[i].callsign,
    ensures
        queue::sound(QueueModel { entries, ..queue }),
{
    assert forall|i: int, j: int| 0 <= i < j < entries.len() implies (#[trigger] entries[i]).callsign
        != (#[trigger] entries[j]).callsign by {
        assert(queue.entries[i].callsign != queue.entries[j].callsign);
    }
    assert forall|i: int| 0 <= i < entries.len() implies !text::same_ignoring_case(
        (#[trigger] entries[i]).callsign,
        queue.our_call,
    ) by {
        assert(!text::same_ignoring_case(queue.entries[i].callsign, queue.our_call));
    }
}

impl WorkQueueState {
    /// Takes over from the tracker when each station was last heard.
    pub fn refresh_entry_observed_times(&mut self, tracker: &StationTracker)
        requires
            old(self).wf(),
            tracker.wf(),
        ensures
            final(self).wf(),
            final(self)@ == (QueueModel {
                entries: old(self)@.entries.map_values(|e: EntryModel| observed(e, tracker@)),
                ..old(self)@
            }),
    {
        let ghost all = self@.entries;
        let ghost start = self@;
        let ghost step = |e: EntryModel| observed(e, tracker@);
        let mut i: usize = 0;
        assert(self@.entries =~= all.map_values(step).take(0) + all.skip(0));
        while i < self.entries.len()
            invariant
                i <= self.entries@.len() == all.len(),
                tracker.wf(),
                self.recent_worked.wf(),
                step == (|e: EntryModel| observed(e, tracker@)),
                self@ == (QueueModel { entries: self@.entries, ..start }),
                self@.entries == all.map_values(step).take(i as int) + all.skip(i as int),
            decreases all.len() - i,
        {
            assert(self@.entries[i as int] == all[i as int]);
            assert(self@.entries[i as int] == self.entries@[i as int]@);
            let heard = tracker.start_info(self.entries[i].callsign.as_str());
            let ghost before = self.entries@;
            if let Some(info) = heard {
                if info.last_heard_at > self.entries[i].last_observed_at {
                    self.entries[i].last_observed_at = info.last_heard_at;
                }
            }
            proof {
                assert(self.entries@[i as int]@ =~= step(all[i as int]));
                assert forall|k: int| 0 <= k < all.len() && k != i implies self.entries@[k]
                    == before[k] by {}
                assert(self@.entries =~= all.map_values(step).take(i + 1) + all.skip(i + 1)) by {
                    assert forall|k: int| 0 <= k < all.len() implies #[trigger] self@.entries[k] == (
                    all.map_values(step).take(i + 1) + all.skip(i + 1))[k] by {
                        if k != i {
                            assert(self@.entries[k] == before[k]@);
                            assert(queue::entry_models(before)[k] == before[k]@);
                        }
                    }
                }
            }
            i += 1;
        }
        assert(self@.entries =~= all.map_values(step));
        proof {
            lemma_same_calls_keep_sound(start, self@.entries);
        }
    }

    /// Drops the stations that have been worked or not been heard for ten minutes.
    pub fn prune_queue(&mut self, now: Timestamp)
        requires
            old(self).wf(),
        ensures
            final(self).wf(),
            final(self)@ == (QueueModel {
                entries: old(self)@.entries.filter(
                    |e: EntryModel| goes_on_waiting(old(self)@, e, now),
                ),
                ..old(self)@
            }),
    {
        let ghost start = self@;
        let ghost all = self@.entries;
        let ghost keep = |e: EntryModel| goes_on_waiting(start, e, now);
        let mut i: usize = 0;
        let ghost mut n: int = 0;
        proof {
            reveal(Seq::filter);
            assert(self@.entries =~= all.take(0).filter(keep) + all.skip(0));
        }
        while i < self.entries.len()
            invariant
                self.wf(),
                0 <= n <= all.len(),
                i <= self.entries@.len(),
                keep == (|e: EntryModel| goes_on_waiting(start, e, now)),
                self@ == (QueueModel { entries: self@.entries, ..start }),
                i == all.take(n).filter(keep).len(),
                self@.entries == all.take(n).filter(keep) + all.skip(n),
            decreases self.entries@.len() - i,
        {
            let ghost before = self@;
            let entry = &self.entries[i];
            proof {
                assert(before.entries[i as int] == entry@);
                assert(all.skip(n)[0] == before.entries[i as int]);
                all.take(n).lemma_filter_push(all[n], keep);
                assert(all.take(n + 1) =~= all.take(n).push(all[n]));
                assert(all.skip(n) =~= seq![all[n]] + all.skip(n + 1));
            }
            let worked = self.was_worked_recently_on_current_band(entry.callsign.as_str(), now);
            if (worked && (self.ignore_direct_calls_from_recently_worked || !entry.direct_pending))
                || clock::elapsed(now, entry.last_observed_at) > QUEUE_HEARD_RETENTION {
                let _ = self.entries.remove(i);
                assert(self@.entries =~= before.entries.remove(i as int));
                proof {
                    queue::lemma_removal_keeps_sound(before, i as int);
                }
            } else {
                i += 1;
            }
            proof {
                n = n + 1;
                assert(self@.entries =~= all.take(n).filter(keep) + all.skip(n));
            }
        }
        assert(n == all.len()) by {
            assert(all.skip(n).len() == 0);
        }
        assert(all.take(n) =~= all);
        assert(self@.entries =~= all.filter(keep));
        assert(keep =~= (|e: EntryModel| goes_on_waiting(old(self)@, e, now)));
    }

    /// A direct call from the slot waits for an answer.
    pub fn has_recent_priority_direct_for_slot(
        &self,
        slot_start: Timestamp,
        now: Timestamp,
    ) -> (r: bool)
        requires
            self.wf(),
        ensures
            r == exists|i: int|
                0 <= i < self@.entries.len() && waiting_direct_in_slot(
                    self@,
                    #[trigger] self@.entries[i],
                    slot_start,
                    now,
                ),
    {
        let slot_index: u64 = slots::slot_index_for_mode(self.current_mode, slot_start);
        let mut i: usize = 0;
        while i < self.entries.len()
            invariant
                i <= self.entries@.len(),
                self.wf(),
                slot_index == slots::slot_index(self@.mode, slot_start),
                forall|k: int|
                    0 <= k < i ==> !waiting_direct_in_slot(
                        self@,
                        #[trigger] self@.entries[k],
                        slot_start,
                        now,
                    ),
            decreases self.entries@.len() - i,
        {
            let entry = &self.entries[i];
            assert(self@.entries[i as int] == entry@);
            let in_slot = match entry.last_direct_slot_index {
                Some(index) => index == slot_index,
                None => false,
            };
            if entry.direct_pending && now >= entry.ok_to_schedule_after && in_slot && !(
            self.ignore_direct_calls_from_recently_worked
                && self.was_worked_recently_on_current_band(entry.callsign.as_str(), now)) {
                return true;
            }
            i += 1;
        }
        false
    }

    pub fn direct_dispatch_from_entry(
        &self,
        entry: &WorkQueueEntry,
        now: Timestamp,
    ) -> (r: QueueDispatch)
        ensures
            r@ == direct_dispatch(self@, entry@, now),
    {
        let tx_slot_family = match entry.last_direct_slot_family {
            Some(family) => family.opposite(),
            None => self.next_slot_family(now),
        };
        QueueDispatch {
            kind: QueueDispatchKind::Station {
                callsign: entry.callsign.clone(),
                initial_state: match entry.direct_start_state {
                    Some(state) => state,
                    None => QsoState::SendSig,
                },
                start_mode: QsoStartMode::Direct,
                context_last_heard_at: entry.last_direct_at,
                context_last_heard_slot_family: entry.last_direct_slot_family,
                context_text: text::clone_opt(&entry.last_direct_text),
                context_structured_json: text::clone_opt(&entry.last_direct_structured_json),
                context_snr_db: entry.last_direct_snr_db,
            },
            callsign: entry.callsign.clone(),
            tx_slot_family,
            tx_freq_hz: self.tx_freq_hz_for(tx_slot_family),
        }
    }

    fn next_slot_family(&self, now: Timestamp) -> (r: SlotFamily)
        ensures
            r == coming_family(self@.mode, now),
    {
        slots::slot_family_for_mode(
            self.current_mode,
            slots::next_slot_boundary_for_mode(self.current_mode, now),
        )
    }

    /// The station to which a contact that closes could hand over in the same transmission.
    pub fn peek_compound_handoff_candidate(
        &self,
        now: Timestamp,
        excluded_callsign: Option<&str>,
    ) -> (r: Option<QueueDispatch>)
        requires
            self.wf(),
        ensures
            dispatch_opt(r) == handoff_candidate(self@, now, text::str_opt(excluded_callsign)),
    {
        if !self.use_compound_rr73_handoff && !self.use_compound_73_once_handoff {
            return None;
        }
        match self.best_priority_direct_index_excluding(now, excluded_callsign) {
            Some(i) => {
                let entry = &self.entries[i];
                assert(self@.entries[i as int] == entry@);
                let reported = match entry.direct_start_state {
                    Some(QsoState::SendSigAck) => true,
                    _ => false,
                };
                if entry.direct_compound_eligible || (self.use_compound_for_direct_signal_callers
                    && reported) {
                    Some(self.direct_dispatch_from_entry(entry, now))
                } else {
                    None
                }
            },
            None => None,
        }
    }

    fn remove_at(&mut self, place: usize)
        requires
            old(self).wf(),
            place < old(self)@.entries.len(),
        ensures
            final(self).wf(),
            final(self)@ == (QueueModel {
                entries: old(self)@.entries.remove(place as int),
                ..old(self)@
            }),
    {
        let ghost before = self@;
        let _ = self.entries.remove(place);
        assert(self@.entries =~= before.entries.remove(place as int));
        proof {
            queue::lemma_removal_keeps_sound(before, place as int);
        }
    }

    /// Takes out the direct call that goes first.
    pub fn pick_priority_direct(&mut self, now: Timestamp) -> (r: Option<QueueDispatch>)
        requires
            old(self).wf(),
        ensures
            final(self).wf(),
            match first_direct(old(self)@, now, None) {
                Some(i) => dispatch_opt(r) == Some(
                    direct_dispatch(old(self)@, old(self)@.entries[i], now),
                ) && final(self)@ == (QueueModel {
                    entries: old(self)@.entries.remove(i),
                    ..old(self)@
                }),
                None => r is None && final(self)@ == old(self)@,
            },
    {
        match self.best_priority_direct_index(now) {
            Some(i) => {
                assert(self@.entries[i as int] == self.entries@[i as int]@);
                let dispatch = self.direct_dispatch_from_entry(&self.entries[i], now);
                self.remove_at(i);
                Some(dispatch)
            },
            None => None,
        }
    }

    fn oldest_ready_index(&self, tracker: &StationTracker, now: Timestamp) -> (r: usize)
        requires
            self.wf(),
            tracker.wf(),
        ensures
            r == first_ready(self@, tracker@, now, 0),
            r <= self@.entries.len(),
    {
        let mut i: usize = 0;
        while i < self.entries.len()
            invariant
                i <= self.entries@.len(),
                self.wf(),
                tracker.wf(),
                first_ready(self@, tracker@, now, 0) == first_ready(self@, tracker@, now, i as int),
            decreases self.entries@.len() - i,
        {
            assert(self@.entries[i as int] == self.entries@[i as int]@);
            if self.entry_status(&self.entries[i], tracker, now).ready {
                return i;
            }
            i += 1;
        }
        i
    }

    fn normal_dispatch_from_entry(
        &self,
        entry: &WorkQueueEntry,
        tracker: &StationTracker,
        now: Timestamp,
    ) -> (r: QueueDispatch)
        requires
            tracker.wf(),
        ensures
            r@ == normal_dispatch(self@, entry@, tracker@, now),
    {
        let tx_slot_family = match tracker.start_info(entry.callsign.as_str()) {
            Some(info) => info.last_heard_slot_family.opposite(),
            None => self.next_slot_family(now),
        };
        QueueDispatch {
            kind: QueueDispatchKind::Station {
                callsign: entry.callsign.clone(),
                initial_state: QsoState::SendGrid,
                start_mode: QsoStartMode::Normal,
                context_last_heard_at: None,
                context_last_heard_slot_family: None,
                context_text: None,
                context_structured_json: None,
                context_snr_db: None,
            },
            callsign: entry.callsign.clone(),
            tx_slot_family,
            tx_freq_hz: self.tx_freq_hz_for(tx_slot_family),
        }
    }

    /// Takes out the first station that is ready.
    pub fn pick_oldest_ready_normal(
        &mut self,
        now: Timestamp,
        tracker: &StationTracker,
    ) -> (r: Option<QueueDispatch>)
        requires
            old(self).wf(),
            tracker.wf(),
        ensures
            final(self).wf(),
            ({
                let i = first_ready(old(self)@, tracker@, now, 0);
                if i < old(self)@.entries.len() {
                    dispatch_opt(r) == Some(
                        normal_dispatch(old(self)@, old(self)@.entries[i], tracker@, now),
                    ) && final(self)@ == (QueueModel {
                        entries: old(self)@.entries.remove(i),
                        ..old(self)@
                    })
                } else {
                    r is None && final(self)@ == old(self)@
                }
            }),
    {
        let i: usize = self.oldest_ready_index(tracker, now);
        if i < self.entries.len() {
            assert(self@.entries[i as int] == self.entries@[i as int]@);
            let dispatch = self.normal_dispatch_from_entry(&self.entries[i], tracker, now);
            self.remove_at(i);
            Some(dispatch)
        } else {
            None
        }
    }

    pub fn should_choose_cq(&self, now: Timestamp) -> (r: bool)
        ensures
            r == cq_wins(self@, now),
    {
        if !self.cq_enabled || self.cq_percent == 0 {
            return false;
        }
        let index: u64 = slots::slot_index_for_mode(self.current_mode, now);
        let roll: u64 = index.wrapping_mul(1103515245).wrapping_add(12345) % 100;
        roll < self.cq_percent as u64
    }

    pub fn cq_paused_for_low_activity(&self, unique_calls_last_5m: usize) -> (r: bool)
        ensures
            r == cq_paused(self@, unique_calls_last_5m as nat),
    {
        self.pause_cq_when_few_unique_calls && (unique_calls_last_5m as u64)
            < self.cq_pause_min_unique_calls_5m as u64
    }

    fn activity_count(&self, tracker: &StationTracker, now: Timestamp) -> (r: usize)
        ensures
            r == activity(self@, tracker@, now),
    {
        tracker.unique_sender_count_since_excluding(
            clock::go_back(now, CQ_ACTIVITY_WINDOW),
            self.our_call.as_str(),
        )
    }

    fn idle_text(&self, unique_calls: usize) -> (r: String)
        ensures
            r@ == idle_status(self@, unique_calls as nat),
    {
        let paused = self.cq_paused_for_low_activity(unique_calls);
        let tail = text::cat2(
            text::decimal_text(self.cq_pause_min_unique_calls_5m as u64).as_str(),
            " unique calls in 5m",
        );
        let count = text::cat3(
            text::decimal_text(unique_calls as u64).as_str(),
            "/",
            tail.as_str(),
        );
        if self.entries.len() == 0 {
            if self.cq_enabled && paused {
                text::cat2("idle; cq paused at ", count.as_str())
            } else if self.cq_enabled {
                text::cat3(
                    "idle; cq skipped at ",
                    text::decimal_text(self.cq_percent as u64).as_str(),
                    "%",
                )
            } else {
                "queue empty".to_owned()
            }
        } else if paused {
            text::cat2("no ready queued stations; cq paused at ", count.as_str())
        } else {
            "no ready queued stations".to_owned()
        }
    }

    fn dispatch_cq(&mut self, now: Timestamp, others_ready: bool) -> (r: QueueDispatch)
        requires
            old(self).wf(),
        ensures
            final(self).wf(),
            (final(self)@, Some(r@)) == calling_cq(old(self)@, now, others_ready),
    {
        let coming = self.next_slot_family(now);
        let tx_slot_family = if self.next_cq_parity_flipped {
            coming.opposite()
        } else {
            coming
        };
        let head = if others_ready {
            "dispatching cq at "
        } else {
            "cq idle roll at "
        };
        let status = text::cat3(
            head,
            text::decimal_text(self.cq_percent as u64).as_str(),
            "%",
        );
        let tx_freq_hz: u32 = self.tx_freq_hz_for(tx_slot_family);
        self.next_cq_parity_flipped = false;
        self.scheduler_status = status;
        QueueDispatch {
            kind: QueueDispatchKind::Cq { tx_slot_family_override: Some(tx_slot_family) },
            callsign: "CQ".to_owned(),
            tx_slot_family,
            tx_freq_hz,
        }
    }

    fn choose_dispatch(
        &mut self,
        now: Timestamp,
        tracker: &StationTracker,
        unique_calls: usize,
    ) -> (r: Option<QueueDispatch>)
        requires
            old(self).wf(),
            tracker.wf(),
        ensures
            final(self).wf(),
            (final(self)@, dispatch_opt(r)) == chosen(old(self)@, tracker@, now, unique_calls as nat),
    {
        if let Some(dispatch) = self.answer_direct(now) {
            return Some(dispatch);
        }
        let ready: usize = self.oldest_ready_index(tracker, now);
        let others_ready = ready < self.entries.len();
        if self.cq_enabled && !self.cq_paused_for_low_activity(unique_calls)
            && self.should_choose_cq(now) {
            return Some(self.dispatch_cq(now, others_ready));
        }
        if others_ready {
            return self.call_ready_station(now, tracker);
        }
        let status = self.idle_text(unique_calls);
        self.set_status(status);
        None
    }

    fn set_status(&mut self, status: String)
        requires
            old(self).wf(),
        ensures
            final(self).wf(),
            final(self)@ == (QueueModel { status: status@, ..old(self)@ }),
    {
        self.scheduler_status = status;
    }

    fn answer_direct(&mut self, now: Timestamp) -> (r: Option<QueueDispatch>)
        requires
            old(self).wf(),
        ensures
            final(self).wf(),
            match first_direct(old(self)@, now, None) {
                Some(i) => (final(self)@, dispatch_opt(r)) == answering(old(self)@, now, i),
                None => r is None && final(self)@ == old(self)@,
            },
    {
        let dispatch = self.pick_priority_direct(now);
        if let Some(d) = &dispatch {
            let status = text::cat2("dispatching direct ", d.callsign.as_str());
            self.set_status(status);
        }
        dispatch
    }

    fn call_ready_station(
        &mut self,
        now: Timestamp,
        tracker: &StationTracker,
    ) -> (r: Option<QueueDispatch>)
        requires
            old(self).wf(),
            tracker.wf(),
            first_ready(old(self)@, tracker@, now, 0) < old(self)@.entries.len(),
        ensures
            final(self).wf(),
            (final(self)@, dispatch_opt(r)) == calling_station(
                old(self)@,
                tracker@,
                now,
                first_ready(old(self)@, tracker@, now, 0),
            ),
    {
        let dispatch = self.pick_oldest_ready_normal(now, tracker);
        if let Some(d) = &dispatch {
            let status = text::cat2("dispatching ", d.callsign.as_str());
            self.set_status(status);
        }
        dispatch
    }

    /// Brings the queue up to date and picks what to send next, where something may be sent.
    pub fn scheduler_pick(
        &mut self,
        now: Timestamp,
        tracker: &StationTracker,
        qso_busy: bool,
        tune_active: bool,
    ) -> (r: Option<QueueDispatch>)
        requires
            old(self).wf(),
            tracker.wf(),
        ensures
            final(self).wf(),
            (final(self)@, dispatch_opt(r)) == scheduled(
                old(self)@,
                tracker@,
                now,
                qso_busy,
                tune_active,
            ),
    {
        let unique_calls: usize = self.activity_count(tracker, now);
        self.prune_recent_worked(now);
        self.refresh_entry_observed_times(tracker);
        let ghost refreshed = self@;
        self.prune_queue(now);
        proof {
            let q = queue::forgetful(old(self)@, now);
            assert((|e: EntryModel| goes_on_waiting(refreshed, e, now)) =~= (|e: EntryModel|
                goes_on_waiting(q, e, now)));
            assert(self@ == brought_up(old(self)@, tracker@, now));
        }
        if !self.auto_enabled {
            self.set_status("auto disabled".to_owned());
            return None;
        }
        if qso_busy {
            self.set_status("waiting: qso active".to_owned());
            return None;
        }
        if tune_active {
            self.set_status("waiting: rig tune active".to_owned());
            return None;
        }
        self.choose_dispatch(now, tracker, unique_calls)
    }
}

/// The station's direct call in that slot waits for an answer and may have one.
pub open spec fn waiting_direct_in_slot(
    queue: QueueModel,
    entry: EntryModel,
    slot_start: Timestamp,
    now: Timestamp,
) -> bool {
    entry.direct_pending && now >= entry.ok_after && entry.direct_slot_index == Some(
        slots::slot_index(queue.mode, slot_start) as u64,
    ) && !(queue.ignore_worked_directs && queue::worked_here(queue, entry.callsign, now))
}

/// The station to which a closing contact could hand over: the direct call that goes first, where
/// handing over is switched on and its message lends itself to it.
pub open spec fn handoff_candidate(
    queue: QueueModel,
    now: Timestamp,
    excluded: Option<Seq<char>>,
) -> Option<DispatchModel> {
    if !queue.compound_rr73 && !queue.compound_73_once {
        None
    } else {
        match first_direct(queue, now, excluded) {
            Some(i) => {
                let entry = queue.entries[i];
                if entry.compound_eligible || (queue.compound_for_signal && entry.start_state == Some(
                    QsoState::SendSigAck,
                )) {
                    Some(direct_dispatch(queue, entry, now))
                } else {
                    None
                }
            },
            None => None,
        }
    }
}

#[derive(Debug)]
pub struct WebQueueEntry {
    pub callsign: String,
    pub queued_at: String,
    pub ok_to_schedule_after: String,
    pub direct_pending: bool,
    pub priority_direct: bool,
    pub direct_count: u32,
    pub direct_last_heard_at: Option<String>,
    pub last_heard_at: Option<String>,
    pub last_heard_message: String,
    pub last_heard_slot_family: Option<String>,
    pub ready: bool,
    pub status: String,
}

#[derive(Debug)]
pub struct WebQueueSnapshot {
    pub auto_enabled: bool,
    pub auto_add_all_decoded_calls: bool,
    pub auto_add_decoded_min_count_5m: u32,
    pub auto_add_direct_calls: bool,
    pub ignore_direct_calls_from_recently_worked: bool,
    pub cq_enabled: bool,
    pub cq_percent: u8,
    pub pause_cq_when_few_unique_calls: bool,
    pub cq_pause_min_unique_calls_5m: u32,
    pub unique_calls_last_5m: u32,
    pub use_compound_rr73_handoff: bool,
    pub use_compound_73_once_handoff: bool,
    pub use_compound_for_direct_signal_callers: bool,
    pub next_cq_parity_flipped: bool,
    pub even_tx_freq_hz: FloatBits,
    pub odd_tx_freq_hz: FloatBits,
    pub no_message_retry_delay_seconds: u128,
    pub no_forward_retry_delay_seconds: u128,
    pub scheduler_status: String,
    pub entries: Vec<WebQueueEntry>,
}

/// The row of a waiting station.
pub open spec fn shows_entry(
    shown: WebQueueEntry,
    queue: QueueModel,
    entry: EntryModel,
    tracker: TrackerModel,
    now: Timestamp,
) -> bool {
    let status = status_of(queue, entry, tracker, now);
    &&& shown.callsign@ == entry.callsign
    &&& shown.queued_at@ == tracker::hms(entry.queued_at)
    &&& shown.ok_to_schedule_after@ == tracker::hms(entry.ok_after)
    &&& shown.direct_pending == entry.direct_pending
    &&& shown.priority_direct == (priority_of(queue, entry, now) is Some)
    &&& shown.direct_count == entry.direct_count
    &&& text::text_opt(shown.direct_last_heard_at) == tracker::hms_opt(entry.direct_at)
    &&& text::text_opt(shown.last_heard_at) == tracker::hms_opt(status.heard_at)
    &&& shown.last_heard_message@ == status.kind.name()
    &&& text::text_opt(shown.last_heard_slot_family) == (match status.family {
        Some(family) => Some(family.name()),
        None => None,
    })
    &&& shown.ready == status.ready
    &&& shown.status@ == status.status
}

/// The waiting stations as they are listed: direct calls with priority first, else as they wait.
pub open spec fn listed(queue: QueueModel, now: Timestamp) -> Seq<EntryModel> {
    queue.entries.filter(|e: EntryModel| priority_of(queue, e, now) is Some) + queue.entries.filter(
        |e: EntryModel| priority_of(queue, e, now) is None,
    )
}

pub open spec fn shows_entries(
    shown: Seq<WebQueueEntry>,
    queue: QueueModel,
    entries: Seq<EntryModel>,
    tracker: TrackerModel,
    now: Timestamp,
) -> bool {
    shown.len() == entries.len() && forall|i: int|
        0 <= i < entries.len() ==> shows_entry(
            #[trigger] shown[i],
            queue,
            entries[i],
            tracker,
            now,
        )
}

pub open spec fn shows_queue(
    shown: WebQueueSnapshot,
    queue: QueueModel,
    tracker: TrackerModel,
    now: Timestamp,
) -> bool {
    &&& shown.auto_enabled == queue.auto_enabled
    &&& shown.auto_add_all_decoded_calls == queue.auto_add_all
    &&& shown.auto_add_decoded_min_count_5m == queue.auto_add_min_count
    &&& shown.auto_add_direct_calls == queue.auto_add_direct
    &&& shown.ignore_direct_calls_from_recently_worked == queue.ignore_worked_directs
    &&& shown.cq_enabled == queue.cq_enabled
    &&& shown.cq_percent == queue.cq_percent
    &&& shown.pause_cq_when_few_unique_calls == queue.pause_cq
    &&& shown.cq_pause_min_unique_calls_5m == queue.pause_cq_below
    &&& shown.unique_calls_last_5m == activity(queue, tracker, now) % 0x1_0000_0000
    &&& shown.use_compound_rr73_handoff == queue.compound_rr73
    &&& shown.use_compound_73_once_handoff == queue.compound_73_once
    &&& shown.use_compound_for_direct_signal_callers == queue.compound_for_signal
    &&& shown.next_cq_parity_flipped == queue.cq_parity_flipped
    &&& shown.even_tx_freq_hz == queue.even_freq
    &&& shown.odd_tx_freq_hz == queue.odd_freq
    &&& shown.no_message_retry_delay_seconds == queue.no_message_delay / 1_000_000_000
    &&& shown.no_forward_retry_delay_seconds == queue.no_forward_delay / 1_000_000_000
    &&& shown.scheduler_status@ == queue.status
    &&& shows_entries(shown.entries@, queue, listed(queue, now), tracker, now)
}

/// Every time that the queue holds can be shown.
pub open spec fn queue_displayable(queue: QueueModel) -> bool {
    forall|i: int|
        0 <= i < queue.entries.len() ==> entry_displayable(#[trigger] queue.entries[i])
}

pub open spec fn entry_displayable(entry: EntryModel) -> bool {
    clock::displayable(entry.queued_at) && clock::displayable(entry.ok_after) && clock::displayable(
        entry.observed_at,
    ) && clock::displayable_opt(entry.direct_at)
}

impl WorkQueueState {
    fn web_entry(
        &self,
        entry: &WorkQueueEntry,
        tracker: &StationTracker,
        now: Timestamp,
    ) -> (r: WebQueueEntry)
        requires
            self.wf(),
            tracker.wf(),
            entry_displayable(entry@),
            tracker::tracker_displayable(tracker@),
        ensures
            shows_entry(r, self@, entry@, tracker@, now),
    {
        let status = self.entry_status(entry, tracker, now);
        let priority_direct = self.direct_priority_meta(entry, now).is_some();
        WebQueueEntry {
            callsign: entry.callsign.clone(),
            queued_at: clock::format_time(entry.queued_at),
            ok_to_schedule_after: clock::format_time(entry.ok_to_schedule_after),
            direct_pending: entry.direct_pending,
            priority_direct,
            direct_count: entry.direct_count,
            direct_last_heard_at: clock::format_time_opt(entry.last_direct_at),
            last_heard_at: clock::format_time_opt(status.last_heard_at),
            last_heard_message: status.last_heard_message.as_str().to_owned(),
            last_heard_slot_family: match status.last_heard_slot_family {
                Some(family) => Some(family.as_str().to_owned()),
                None => None,
            },
            ready: status.ready,
            status: status.status,
        }
    }

    /// The rows of those that have priority, or of those that have not.
    fn web_entries(
        &self,
        tracker: &StationTracker,
        now: Timestamp,
        with_priority: bool,
    ) -> (r: Vec<WebQueueEntry>)
        requires
            self.wf(),
            tracker.wf(),
            queue_displayable(self@),
            tracker::tracker_displayable(tracker@),
        ensures
            shows_entries(
                r@,
                self@,
                self@.entries.filter(
                    |e: EntryModel| (priority_of(self@, e, now) is Some) == with_priority,
                ),
                tracker@,
                now,
            ),
    {
        let ghost all = self@.entries;
        let ghost pred = |e: EntryModel| (priority_of(self@, e, now) is Some) == with_priority;
        let mut r: Vec<WebQueueEntry> = Vec::new();
        let mut i: usize = 0;
        proof {
            reveal(Seq::filter);
            assert(all.take(0).filter(pred).len() == 0);
        }
        while i < self.entries.len()
            invariant
                i <= self.entries@.len(),
                self.wf(),
                tracker.wf(),
                queue_displayable(self@),
                tracker::tracker_displayable(tracker@),
                all == self@.entries,
                pred == (|e: EntryModel| (priority_of(self@, e, now) is Some) == with_priority),
                shows_entries(r@, self@, all.take(i as int).filter(pred), tracker@, now),
            decreases self.entries@.len() - i,
        {
            let entry = &self.entries[i];
            let ghost found = all.take(i as int).filter(pred);
            proof {
                assert(all[i as int] == entry@);
                all.take(i as int).lemma_filter_push(all[i as int], pred);
                assert(all.take(i + 1) =~= all.take(i as int).push(all[i as int]));
            }
            if self.direct_priority_meta(entry, now).is_some() == with_priority {
                let row = self.web_entry(entry, tracker, now);
                r.push(row);
                assert(all.take(i + 1).filter(pred) == found.push(entry@));
                assert forall|k: int| 0 <= k < found.len() + 1 implies shows_entry(
                    #[trigger] r@[k],
                    self@,
                    found.push(entry@)[k],
                    tracker@,
                    now,
                ) by {
                    if k < found.len() {
                        assert(found.push(entry@)[k] == found[k]);
                    }
                }
            }
            i += 1;
        }
        assert(all.take(i as int) =~= all);
        r
    }

    pub fn web_snapshot(&self, tracker: &StationTracker, now: Timestamp) -> (r: WebQueueSnapshot)
        requires
            self.wf(),
            tracker.wf(),
            queue_displayable(self@),
            tracker::tracker_displayable(tracker@),
        ensures
            shows_queue(r, self@, tracker@, now),
    {
        let unique_calls: usize = self.activity_count(tracker, now);
        let mut entries = self.web_entries(tracker, now, true);
        let mut others = self.web_entries(tracker, now, false);
        let ghost first = entries@;
        let ghost second = others@;
        entries.append(&mut others);
        proof {
            let a = |e: EntryModel| (priority_of(self@, e, now) is Some) == true;
            let b = |e: EntryModel| (priority_of(self@, e, now) is Some) == false;
            assert(a =~= (|e: EntryModel| priority_of(self@, e, now) is Some));
            assert(b =~= (|e: EntryModel| priority_of(self@, e, now) is None));
            let order = listed(self@, now);
            assert forall|i: int| 0 <= i < order.len() implies shows_entry(
                #[trigger] entries@[i],
                self@,
                order[i],
                tracker@,
                now,
            ) by {
                if i < first.len() {
                    assert(entries@[i] == first[i]);
                } else {
                    assert(entries@[i] == second[i - first.len()]);
                }
            }
        }
        WebQueueSnapshot {
            auto_enabled: self.auto_enabled,
            auto_add_all_decoded_calls: self.auto_add_all_decoded_calls,
            auto_add_decoded_min_count_5m: self.auto_add_decoded_min_count_5m,
            auto_add_direct_calls: self.auto_add_direct_calls,
            ignore_direct_calls_from_recently_worked: self.ignore_direct_calls_from_recently_worked,
            cq_enabled: self.cq_enabled,
            cq_percent: self.cq_percent,
            pause_cq_when_few_unique_calls: self.pause_cq_when_few_unique_calls,
            cq_pause_min_unique_calls_5m: self.cq_pause_min_unique_calls_5m,
            unique_calls_last_5m: (unique_calls as u64 % 0x1_0000_0000) as u32,
            use_compound_rr73_handoff: self.use_compound_rr73_handoff,
            use_compound_73_once_handoff: self.use_compound_73_once_handoff,
            use_compound_for_direct_signal_callers: self.use_compound_for_direct_signal_callers,
            next_cq_parity_flipped: self.next_cq_parity_flipped,
            even_tx_freq_hz: self.even_tx_freq_hz,
            odd_tx_freq_hz: self.odd_tx_freq_hz,
            no_message_retry_delay_seconds: self.no_message_retry_delay / 1_000_000_000,
            no_forward_retry_delay_seconds: self.no_forward_retry_delay / 1_000_000_000,
            scheduler_status: self.scheduler_status.clone(),
            entries,
        }
    }
}

} // verus!
