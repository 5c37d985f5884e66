//! What holds of the queue and of the scheduler whatever comes in.

use vstd::prelude::*;

use crate::clock;
use crate::clock::Timestamp;
use crate::message::{FloatBits, StationLastMessageKind};
use crate::qso;
use crate::qso::{QsoOutcome, QsoStartMode, QsoState};
use crate::queue;
use crate::queue::{EntryModel, ObservationModel, QueueConfig, QueueModel, QueueRefusal};
use crate::scheduler;
use crate::scheduler::{DispatchKindModel, DispatchModel, WebQueueSnapshot};
use crate::slots;
use crate::slots::{DecoderMode, SlotFamily};
use crate::text;
use crate::tracker::{LogModel, TrackerModel};
use crate::worked;
use crate::worked::WorkedModel;

verus! {

proof fn lemma_push_keeps_sound(queue: QueueModel, entry: EntryModel)
    requires
        queue::sound(queue),
        !queue::waits(queue.entries, entry.callsign),
        !text::same_ignoring_case(entry.callsign, queue.our_call),
    ensures
        queue::sound(QueueModel { entries: queue.entries.push(entry), ..queue }),
{
    queue::lemma_place_of(queue.entries, entry.callsign);
}

proof fn lemma_without_keeps_sound(queue: QueueModel, callsign: Seq<char>)
    requires
        queue::sound(queue),
    ensures
        queue::sound(QueueModel { entries: queue::without(queue.entries, callsign), ..queue }),
{
    queue::lemma_place_of(queue.entries, callsign);
    if queue::waits(queue.entries, callsign) {
        queue::lemma_removal_keeps_sound(queue, queue::place_of(queue.entries, callsign));
    }
}

/// Asking for a station keeps one entry for each call and none for our own.
pub proof fn law_request_keeps_queue_sound(
    queue: QueueModel,
    callsign: Seq<char>,
    observed_at: Timestamp,
    now: Timestamp,
)
    requires
        queue::sound(queue),
    ensures
        queue::sound(queue::station_added(queue, callsign, observed_at, now).0),
{
    let q = queue::forgetful(queue, now);
    if !queue::waits(q.entries, callsign) && !text::same_ignoring_case(callsign, q.our_call) {
        lemma_push_keeps_sound(q, queue::plain_entry(callsign, now, now, observed_at));
    }
}

/// A direct call keeps one entry for each call and none for our own.
pub proof fn law_direct_call_keeps_queue_sound(
    queue: QueueModel,
    seen: ObservationModel,
    now: Timestamp,
)
    requires
        queue::sound(queue),
    ensures
        queue::sound(queue::direct_added(queue, seen, now).0),
{
    let q = queue::forgetful(queue, now);
    if !text::same_ignoring_case(seen.callsign, q.our_call) {
        if queue::waits(q.entries, seen.callsign) {
            queue::lemma_place_of(q.entries, seen.callsign);
            let place = queue::place_of(q.entries, seen.callsign);
            scheduler::lemma_same_calls_keep_sound(
                q,
                q.entries.update(place, queue::called_again(q.entries[place], seen, now)),
            );
        } else {
            lemma_push_keeps_sound(q, queue::direct_entry(seen, now));
        }
    }
}

proof fn lemma_requeue_keeps_sound(
    queue: QueueModel,
    callsign: Seq<char>,
    finished_at: Timestamp,
    retry_at: Timestamp,
    observed_at: Timestamp,
)
    requires
        queue::sound(queue),
    ensures
        queue::sound(queue::requeued(queue, callsign, finished_at, retry_at, observed_at)),
{
    lemma_without_keeps_sound(queue, callsign);
    queue::lemma_without(queue.entries, callsign);
    if !text::same_ignoring_case(callsign, queue.our_call) {
        lemma_push_keeps_sound(
            QueueModel { entries: queue::without(queue.entries, callsign), ..queue },
            queue::plain_entry(callsign, finished_at, retry_at, observed_at),
        );
    }
}

proof fn lemma_closing_keeps_sound(queue: QueueModel, outcome: QsoOutcome)
    requires
        queue::sound(queue),
    ensures
        queue::sound(queue::closed_out(queue, outcome)),
{
    lemma_without_keeps_sound(queue, outcome.partner_call@);
}

/// The end of a contact keeps one entry for each call and none for our own.
pub proof fn law_outcome_keeps_queue_sound(
    queue: QueueModel,
    outcome: QsoOutcome,
    tracker: TrackerModel,
)
    requires
        queue::sound(queue),
    ensures
        queue::sound(queue::contact_over(queue, outcome, tracker)),
{
    lemma_closing_keeps_sound(queue, outcome);
    let closed = if outcome.sent_terminal_73 {
        queue::closed_out(queue, outcome)
    } else {
        queue
    };
    lemma_requeue_keeps_sound(
        closed,
        outcome.partner_call@,
        outcome.finished_at,
        queue::retry_from(queue, outcome)->0,
        queue::last_observed(tracker, outcome),
    );
}

/// Asking twice for a station does what asking once does.
pub proof fn law_second_request_changes_nothing(
    queue: QueueModel,
    callsign: Seq<char>,
    observed_at: Timestamp,
    now: Timestamp,
)
    ensures
        ({
            let (once, answer) = queue::station_added(queue, callsign, observed_at, now);
            queue::station_added(once, callsign, observed_at, now) == (once, answer)
        }),
{
    let q = queue::forgetful(queue, now);
    let (once, answer) = queue::station_added(queue, callsign, observed_at, now);
    assert(worked::recent_only(q.worked, now) =~= q.worked);
    assert(queue::forgetful(once, now) =~= once);
    if answer is Ok {
        queue::lemma_place_of(q.entries, callsign);
        queue::lemma_place_of(once.entries, callsign);
        if !queue::waits(q.entries, callsign) {
            let last = once.entries.len() - 1;
            assert(once.entries[last].callsign == callsign);
        }
    }
}

/// A station that has been worked on the current band is turned away for a day; on another band it
/// is not turned away on that account.
pub proof fn law_worked_station_is_turned_away(
    queue: QueueModel,
    callsign: Seq<char>,
    band: Seq<char>,
    worked_at: Timestamp,
    observed_at: Timestamp,
    now: Timestamp,
)
    requires
        !text::same_ignoring_case(callsign, queue.our_call),
        crate::clock::since(now, worked_at) <= worked::RECENT_WORKED_RETENTION,
    ensures
        ({
            let after = QueueModel {
                worked: queue.worked.insert((callsign, band), worked_at),
                ..queue
            };
            let answer = queue::station_added(after, callsign, observed_at, now).1;
            &&& queue.band == Some(band) ==> answer == Err::<(), QueueRefusal>(
                QueueRefusal::WorkedRecently,
            )
            &&& queue.band != Some(band) ==> answer == queue::station_added(
                queue,
                callsign,
                observed_at,
                now,
            ).1
        }),
{
    let after = QueueModel { worked: queue.worked.insert((callsign, band), worked_at), ..queue };
    worked::law_forgetting_changes_no_answer(after.worked, callsign, queue.band, now);
    worked::law_forgetting_changes_no_answer(queue.worked, callsign, queue.band, now);
}

/// Our own call is refused, however it is written.
pub proof fn law_own_call_is_refused(
    queue: QueueModel,
    callsign: Seq<char>,
    seen: ObservationModel,
    observed_at: Timestamp,
    now: Timestamp,
)
    requires
        text::same_ignoring_case(callsign, queue.our_call),
        seen.callsign == callsign,
    ensures
        queue::station_added(queue, callsign, observed_at, now).1 == Err::<(), QueueRefusal>(
            QueueRefusal::OwnCall,
        ),
        queue::direct_added(queue, seen, now).1 == Err::<(), QueueRefusal>(QueueRefusal::OwnCall),
        queue::station_added(queue, callsign, observed_at, now).0.entries == queue.entries,
        queue::direct_added(queue, seen, now).0.entries == queue.entries,
{
}

/// A direct call that is taken leaves its sender waiting for an answer, whether or not it waited
/// before; heard again in the same slot it counts no more.
pub proof fn law_direct_call_counts_once_in_a_slot(
    queue: QueueModel,
    seen: ObservationModel,
    again: ObservationModel,
    now: Timestamp,
    later: Timestamp,
)
    requires
        queue::direct_added(queue, seen, now).1 is Ok,
        again.callsign == seen.callsign,
        again.slot_index == seen.slot_index,
        again.family == seen.family,
        queue::direct_added(queue::direct_added(queue, seen, now).0, again, later).1 is Ok,
    ensures
        ({
            let once = queue::direct_added(queue, seen, now).0;
            let twice = queue::direct_added(once, again, later).0;
            let a = queue::place_of(once.entries, seen.callsign);
            let b = queue::place_of(twice.entries, seen.callsign);
            &&& queue::waits(once.entries, seen.callsign)
            &&& queue::waits(twice.entries, seen.callsign)
            &&& once.entries[a].direct_pending
            &&& twice.entries[b].direct_pending
            &&& twice.entries[b].direct_count == once.entries[a].direct_count
        }),
{
    let q = queue::forgetful(queue, now);
    let once = queue::direct_added(queue, seen, now).0;
    let twice = queue::direct_added(once, again, later).0;
    queue::lemma_place_of(q.entries, seen.callsign);
    queue::lemma_place_of(once.entries, seen.callsign);
    queue::lemma_place_of(twice.entries, seen.callsign);
    if queue::waits(q.entries, seen.callsign) {
        let place = queue::place_of(q.entries, seen.callsign);
        assert(once.entries[place].callsign == seen.callsign);
        lemma_update_keeps_place(q.entries, place, once.entries[place], seen.callsign);
    } else {
        assert(once.entries[once.entries.len() - 1].callsign == seen.callsign);
        assert forall|i: int| 0 <= i < q.entries.len() implies (#[trigger] once.entries[i]).callsign
            != seen.callsign by {
            assert(once.entries[i] == q.entries[i]);
        }
    }
    let place = queue::place_of(once.entries, seen.callsign);
    assert(twice.entries[place].callsign == seen.callsign);
    lemma_update_keeps_place(once.entries, place, twice.entries[place], seen.callsign);
}

proof fn lemma_update_keeps_place(
    entries: Seq<EntryModel>,
    place: int,
    entry: EntryModel,
    callsign: Seq<char>,
)
    requires
        place == queue::place_of(entries, callsign),
        place < entries.len(),
        entry.callsign == callsign,
    ensures
        queue::place_of(entries.update(place, entry), callsign) == place,
{
    let updated = entries.update(place, entry);
    queue::lemma_place_of(entries, callsign);
    queue::lemma_place_of(updated, callsign);
    let found = queue::place_of(updated, callsign);
    if found < place {
        assert(updated[found] == entries[found]);
    } else if found > place {
        assert(updated[place].callsign == callsign);
    }
}

/// A station that did not get far goes to the back of the queue with the end of the contact as its
/// time of queueing and a delay from then on, and nothing is left of its earlier entry.
pub proof fn law_retry_goes_to_the_back(
    queue: QueueModel,
    outcome: QsoOutcome,
    tracker: TrackerModel,
)
    requires
        queue::sound(queue),
        qso::retry_kind(outcome.exit_reason@) is Some,
        queue::retry_from(queue, outcome) is Some,
        !text::same_ignoring_case(outcome.partner_call@, queue.our_call),
    ensures
        ({
            let after = queue::contact_over(queue, outcome, tracker).entries;
            let kind = qso::retry_kind(outcome.exit_reason@)->0;
            &&& after.len() > 0
            &&& after.last().callsign == outcome.partner_call@
            &&& after.last().queued_at == outcome.finished_at
            &&& after.last().ok_after == outcome.finished_at + queue::retry_delay(queue, kind)
            &&& !after.last().direct_pending
            &&& !queue::waits(after.drop_last(), outcome.partner_call@)
        }),
{
    let call = outcome.partner_call@;
    let closed = if outcome.sent_terminal_73 {
        queue::closed_out(queue, outcome)
    } else {
        queue
    };
    lemma_without_keeps_sound(queue, call);
    queue::lemma_without(closed.entries, call);
    let after = queue::contact_over(queue, outcome, tracker).entries;
    assert(after.drop_last() =~= queue::without(closed.entries, call));
}

/// A contact in which a closing message went out leaves its station out of the queue, unless it is
/// to be tried again.
pub proof fn law_closed_contact_leaves_the_queue(
    queue: QueueModel,
    outcome: QsoOutcome,
    tracker: TrackerModel,
)
    requires
        queue::sound(queue),
        outcome.sent_terminal_73,
        qso::retry_kind(outcome.exit_reason@) is None,
    ensures
        !queue::waits(queue::contact_over(queue, outcome, tracker).entries, outcome.partner_call@),
{
    queue::lemma_without(queue.entries, outcome.partner_call@);
}

/// The entry at `i` outranks the other direct calls with priority before `n`.
spec fn first_before(
    queue: QueueModel,
    now: Timestamp,
    excluded: Option<Seq<char>>,
    i: int,
    n: int,
) -> bool {
    0 <= i < n && scheduler::has_priority(queue, now, excluded, i) && forall|j: int|
        0 <= j < n && j != i && #[trigger] scheduler::has_priority(queue, now, excluded, j)
            ==> scheduler::outranks(
            scheduler::meta_at(queue, now, i),
            scheduler::meta_at(queue, now, j),
        )
}

proof fn lemma_first_before(
    queue: QueueModel,
    now: Timestamp,
    excluded: Option<Seq<char>>,
    some: int,
    n: int,
) -> (first: int)
    requires
        queue::sound(queue),
        0 <= some < n <= queue.entries.len(),
        scheduler::has_priority(queue, now, excluded, some),
    ensures
        first_before(queue, now, excluded, first, n),
    decreases n,
{
    let last = n - 1;
    if some == last {
        if exists|j: int| 0 <= j < last && scheduler::has_priority(queue, now, excluded, j) {
            let j = choose|j: int| 0 <= j < last && scheduler::has_priority(queue, now, excluded, j);
            let i = lemma_first_before(queue, now, excluded, j, last);
            lemma_one_more(queue, now, excluded, i, last)
        } else {
            last
        }
    } else {
        let i = lemma_first_before(queue, now, excluded, some, last);
        if scheduler::has_priority(queue, now, excluded, last) {
            lemma_one_more(queue, now, excluded, i, last)
        } else {
            i
        }
    }
}

proof fn lemma_one_more(
    queue: QueueModel,
    now: Timestamp,
    excluded: Option<Seq<char>>,
    i: int,
    last: int,
) -> (first: int)
    requires
        queue::sound(queue),
        first_before(queue, now, excluded, i, last),
        scheduler::has_priority(queue, now, excluded, last),
    ensures
        first_before(queue, now, excluded, first, last + 1),
{
    let a = scheduler::meta_at(queue, now, i);
    let b = scheduler::meta_at(queue, now, last);
    assert(queue.entries[i].callsign != queue.entries[last].callsign);
    scheduler::lemma_outranks_total(a, b);
    if scheduler::outranks(b, a) {
        assert forall|j: int|
            0 <= j < last + 1 && j != last && #[trigger] scheduler::has_priority(
                queue,
                now,
                excluded,
                j,
            ) implies scheduler::outranks(b, scheduler::meta_at(queue, now, j)) by {
            if j != i {
                scheduler::lemma_outranks_transitive(b, a, scheduler::meta_at(queue, now, j));
            }
        }
        last
    } else {
        i
    }
}

/// Where a direct call has priority there is one that goes first, and it outranks all others.
pub proof fn law_some_direct_goes_first(
    queue: QueueModel,
    now: Timestamp,
    excluded: Option<Seq<char>>,
    i: int,
)
    requires
        queue::sound(queue),
        scheduler::has_priority(queue, now, excluded, i),
    ensures
        scheduler::first_direct(queue, now, excluded) matches Some(first) && scheduler::is_first_direct(
            queue,
            now,
            excluded,
            first,
        ),
{
    let best = lemma_first_before(queue, now, excluded, i, queue.entries.len() as int);
    assert(scheduler::is_first_direct(queue, now, excluded, best));
    scheduler::lemma_first_direct_unique(queue, now, excluded, best);
}

/// Bringing the queue up to date only drops entries: what is left waited before, in the same order.
proof fn lemma_brought_up_sound(queue: QueueModel, tracker: TrackerModel, now: Timestamp)
    requires
        queue::sound(queue),
    ensures
        queue::sound(scheduler::brought_up(queue, tracker, now)),
{
    let q = queue::forgetful(queue, now);
    let step = |e: EntryModel| scheduler::observed(e, tracker);
    let keep = |e: EntryModel| scheduler::goes_on_waiting(q, e, now);
    let all = q.entries.map_values(step);
    scheduler::lemma_same_calls_keep_sound(q, all);
    lemma_filter_sound(QueueModel { entries: all, ..q }, keep);
}

proof fn lemma_filter_sound(queue: QueueModel, keep: spec_fn(EntryModel) -> bool)
    requires
        queue::sound(queue),
    ensures
        queue::sound(QueueModel { entries: queue.entries.filter(keep), ..queue }),
    decreases queue.entries.len(),
{
    reveal(Seq::filter);
    let entries = queue.entries;
    if entries.len() > 0 {
        let head = QueueModel { entries: entries.drop_last(), ..queue };
        assert forall|i: int| 0 <= i < head.entries.len() implies head.entries[i] == entries[i] by {}
        assert(queue::sound(head)) by {
            assert forall|i: int, j: int| 0 <= i < j < head.entries.len() implies (
            #[trigger] head.entries[i]).callsign != (#[trigger] head.entries[j]).callsign by {
                assert(entries[i].callsign != entries[j].callsign);
            }
            assert forall|i: int| 0 <= i < head.entries.len() implies !text::same_ignoring_case(
                (#[trigger] head.entries[i]).callsign,
                queue.our_call,
            ) by {
                assert(!text::same_ignoring_case(entries[i].callsign, queue.our_call));
            }
        }
        lemma_filter_sound(head, keep);
        let kept = head.entries.filter(keep);
        if keep(entries.last()) {
            let after = kept.push(entries.last());
            assert forall|i: int, j: int| 0 <= i < j < after.len() implies (
            #[trigger] after[i]).callsign != (#[trigger] after[j]).callsign by {
                if j == kept.len() {
                    assert(kept.contains(kept[i]));
                    head.entries.lemma_filter_contains_rev(keep, kept[i]);
                    let k = head.entries.index_of(kept[i]);
                    assert(entries[k] == kept[i]);
                    assert(entries[k].callsign != entries[entries.len() - 1].callsign);
                }
            }
            assert forall|i: int| 0 <= i < after.len() implies !text::same_ignoring_case(
                (#[trigger] after[i]).callsign,
                queue.our_call,
            ) by {
                if i < kept.len() {
                    assert(!text::same_ignoring_case(kept[i].callsign, queue.our_call));
                }
            }
        }
    }
}

proof fn lemma_first_ready(queue: QueueModel, tracker: TrackerModel, now: Timestamp, i: int)
    requires
        0 <= i <= queue.entries.len(),
    ensures
        i <= scheduler::first_ready(queue, tracker, now, i) <= queue.entries.len(),
        ({
            let r = scheduler::first_ready(queue, tracker, now, i);
            r < queue.entries.len() ==> scheduler::status_of(
                queue,
                queue.entries[r],
                tracker,
                now,
            ).ready
        }),
        forall|j: int|
            i <= j < scheduler::first_ready(queue, tracker, now, i) ==> !scheduler::status_of(
                queue,
                #[trigger] queue.entries[j],
                tracker,
                now,
            ).ready,
    decreases queue.entries.len() - i,
{
    if i < queue.entries.len() && !scheduler::status_of(queue, queue.entries[i], tracker, now).ready {
        lemma_first_ready(queue, tracker, now, i + 1);
    }
}

/// The scheduler keeps one entry for each call and none for our own.
pub proof fn law_scheduler_keeps_queue_sound(
    queue: QueueModel,
    tracker: TrackerModel,
    now: Timestamp,
    qso_busy: bool,
    tune_active: bool,
)
    requires
        queue::sound(queue),
    ensures
        queue::sound(scheduler::scheduled(queue, tracker, now, qso_busy, tune_active).0),
{
    lemma_brought_up_sound(queue, tracker, now);
    let q = scheduler::brought_up(queue, tracker, now);
    lemma_first_ready(q, tracker, now, 0);
    let ready = scheduler::first_ready(q, tracker, now, 0);
    match scheduler::first_direct(q, now, None) {
        Some(i) => {
            assert(scheduler::is_first_direct(q, now, None, i));
            queue::lemma_removal_keeps_sound(q, i);
        },
        None => {
            if ready < q.entries.len() {
                queue::lemma_removal_keeps_sound(q, ready);
            }
        },
    }
}

/// Nothing is sent while the scheduler is off, a contact is going on or the rig is being tuned.
pub proof fn law_nothing_sent_while_held(
    queue: QueueModel,
    tracker: TrackerModel,
    now: Timestamp,
    qso_busy: bool,
    tune_active: bool,
)
    requires
        !queue.auto_enabled || qso_busy || tune_active,
    ensures
        scheduler::scheduled(queue, tracker, now, qso_busy, tune_active).1 is None,
        scheduler::scheduled(queue, tracker, now, qso_busy, tune_active).0.entries
            == scheduler::brought_up(queue, tracker, now).entries,
{
}

/// A direct call with priority goes before any CQ and any other station.
pub proof fn law_direct_goes_before_all(
    queue: QueueModel,
    tracker: TrackerModel,
    now: Timestamp,
    i: int,
)
    requires
        queue::sound(queue),
        queue.auto_enabled,
        scheduler::has_priority(scheduler::brought_up(queue, tracker, now), now, None, i),
    ensures
        ({
            let q = scheduler::brought_up(queue, tracker, now);
            let first = scheduler::first_direct(q, now, None);
            &&& first is Some
            &&& scheduler::scheduled(queue, tracker, now, false, false).1 == Some(
                scheduler::direct_dispatch(q, q.entries[first->0], now),
            )
        }),
{
    lemma_brought_up_sound(queue, tracker, now);
    law_some_direct_goes_first(scheduler::brought_up(queue, tracker, now), now, None, i);
}

/// Who is called leaves the queue, and nobody else does: not when CQ is called, and not when nothing
/// is.
pub proof fn law_only_the_called_station_leaves(
    queue: QueueModel,
    tracker: TrackerModel,
    now: Timestamp,
    qso_busy: bool,
    tune_active: bool,
)
    requires
        queue::sound(queue),
    ensures
        ({
            let q = scheduler::brought_up(queue, tracker, now);
            let (after, dispatch) = scheduler::scheduled(queue, tracker, now, qso_busy, tune_active);
            match dispatch {
                Some(d) => match d.kind {
                    DispatchKindModel::Station { callsign, .. } => queue::waits(q.entries, callsign)
                        && after.entries == queue::without(q.entries, callsign),
                    DispatchKindModel::Cq { .. } => after.entries == q.entries,
                },
                None => after.entries == q.entries,
            }
        }),
{
    let q = scheduler::brought_up(queue, tracker, now);
    lemma_brought_up_sound(queue, tracker, now);
    lemma_first_ready(q, tracker, now, 0);
    let ready = scheduler::first_ready(q, tracker, now, 0);
    match scheduler::first_direct(q, now, None) {
        Some(i) => {
            assert(scheduler::is_first_direct(q, now, None, i));
            lemma_place_is(q.entries, i);
        },
        None => {
            if ready < q.entries.len() {
                lemma_place_is(q.entries, ready);
            }
        },
    }
}

proof fn lemma_place_is(entries: Seq<EntryModel>, i: int)
    requires
        queue::distinct_calls(entries),
        0 <= i < entries.len(),
    ensures
        queue::place_of(entries, entries[i].callsign) == i,
{
    queue::lemma_place_of(entries, entries[i].callsign);
    let place = queue::place_of(entries, entries[i].callsign);
    if place < i {
        assert(entries[place].callsign != entries[i].callsign);
    } else if i < place {
        assert(entries[i].callsign != entries[i].callsign);
    }
}

/// Flipping the parity holds for one CQ: the next CQ goes out in the other family than the coming
/// slot's, and after it the flip is gone; a station that is called leaves it standing.
pub proof fn law_parity_flip_is_used_once(
    queue: QueueModel,
    tracker: TrackerModel,
    now: Timestamp,
    qso_busy: bool,
    tune_active: bool,
)
    ensures
        ({
            let (after, dispatch) = scheduler::scheduled(queue, tracker, now, qso_busy, tune_active);
            match dispatch {
                Some(d) => match d.kind {
                    DispatchKindModel::Cq { family } => !after.cq_parity_flipped && family == Some(
                        d.family,
                    ) && d.family == (if queue.cq_parity_flipped {
                        scheduler::coming_family(queue.mode, now).other()
                    } else {
                        scheduler::coming_family(queue.mode, now)
                    }),
                    DispatchKindModel::Station { .. } => after.cq_parity_flipped
                        == queue.cq_parity_flipped,
                },
                None => after.cq_parity_flipped == queue.cq_parity_flipped,
            }
        }),
{
}

/// Of the stations without a direct call, the one that has waited longest among those ready is
/// called: every station before it in the queue is not ready.
pub proof fn law_oldest_ready_station_is_called(
    queue: QueueModel,
    tracker: TrackerModel,
    now: Timestamp,
)
    requires
        queue::sound(queue),
    ensures
        ({
            let q = scheduler::brought_up(queue, tracker, now);
            match scheduler::scheduled(queue, tracker, now, false, false).1 {
                Some(DispatchModel {
                    kind: DispatchKindModel::Station { callsign, mode: QsoStartMode::Normal, .. },
                    ..
                }) => {
                    let i = queue::place_of(q.entries, callsign);
                    &&& i < q.entries.len()
                    &&& scheduler::status_of(q, q.entries[i], tracker, now).ready
                    &&& forall|j: int|
                        0 <= j < i ==> !scheduler::status_of(
                            q,
                            #[trigger] q.entries[j],
                            tracker,
                            now,
                        ).ready
                },
                _ => true,
            }
        }),
{
    let q = scheduler::brought_up(queue, tracker, now);
    lemma_brought_up_sound(queue, tracker, now);
    lemma_first_ready(q, tracker, now, 0);
    let ready = scheduler::first_ready(q, tracker, now, 0);
    if ready < q.entries.len() {
        lemma_place_is(q.entries, ready);
    }
}

/// A station is sent to in the slots in which it does not send itself.
pub proof fn law_answer_in_the_other_slots(
    queue: QueueModel,
    entry: EntryModel,
    tracker: TrackerModel,
    now: Timestamp,
)
    ensures
        entry.direct_family matches Some(family) ==> scheduler::direct_dispatch(queue, entry, now).family
            == family.other(),
        crate::tracker::station_at(tracker, entry.callsign) matches Some(station) ==> scheduler::normal_dispatch(
            queue,
            entry,
            tracker,
            now,
        ).family == station.family.other(),
        scheduler::direct_dispatch(queue, entry, now).freq == queue::tx_freq(
            queue,
            scheduler::direct_dispatch(queue, entry, now).family,
        ),
{
}

/// A direct call that goes first was heard in the last two slots of its sender's family, and none
/// was heard in a later slot.
pub proof fn law_first_direct_is_the_latest(
    queue: QueueModel,
    now: Timestamp,
    excluded: Option<Seq<char>>,
    i: int,
    j: int,
)
    requires
        scheduler::is_first_direct(queue, now, excluded, i),
        scheduler::has_priority(queue, now, excluded, j),
    ensures
        queue.entries[i].direct_slot_index->0 >= queue.entries[j].direct_slot_index->0,
        slots::latest_index(queue.mode, now, queue.entries[i].direct_family->0)
            <= queue.entries[i].direct_slot_index->0 + 2,
{
}

proof fn lemma_parted(entries: Seq<EntryModel>, queue: QueueModel, now: Timestamp)
    ensures
        ({
            let first = entries.filter(|e: EntryModel| scheduler::priority_of(queue, e, now) is Some);
            let rest = entries.filter(|e: EntryModel| scheduler::priority_of(queue, e, now) is None);
            first.to_multiset().add(rest.to_multiset()) == entries.to_multiset()
        }),
    decreases entries.len(),
{
    let urgent = |e: EntryModel| scheduler::priority_of(queue, e, now) is Some;
    let other = |e: EntryModel| scheduler::priority_of(queue, e, now) is None;
    broadcast use vstd::seq_lib::group_to_multiset_ensures;

    if entries.len() == 0 {
        reveal(Seq::filter);
        assert(entries.filter(urgent) =~= entries);
        assert(entries.filter(other) =~= entries);
        assert(entries.to_multiset().add(entries.to_multiset()) =~= entries.to_multiset());
    } else {
        let before = entries.drop_last();
        lemma_parted(before, queue, now);
        before.lemma_filter_push(entries.last(), urgent);
        before.lemma_filter_push(entries.last(), other);
        assert(entries =~= before.push(entries.last()));
        assert(entries.filter(urgent).to_multiset().add(entries.filter(other).to_multiset())
            =~= entries.to_multiset());
    }
}

/// The list shows each waiting station once, and the direct calls with priority before all others.
pub proof fn law_priority_is_listed_first(queue: QueueModel, now: Timestamp)
    ensures
        scheduler::listed(queue, now).to_multiset() == queue.entries.to_multiset(),
        forall|i: int, j: int|
            0 <= i < j < scheduler::listed(queue, now).len() && scheduler::priority_of(
                queue,
                #[trigger] scheduler::listed(queue, now)[j],
                now,
            ) is Some ==> scheduler::priority_of(
                queue,
                #[trigger] scheduler::listed(queue, now)[i],
                now,
            ) is Some,
{
    let urgent = |e: EntryModel| scheduler::priority_of(queue, e, now) is Some;
    let other = |e: EntryModel| scheduler::priority_of(queue, e, now) is None;
    let first = queue.entries.filter(urgent);
    let rest = queue.entries.filter(other);
    lemma_parted(queue.entries, queue, now);
    vstd::seq_lib::lemma_multiset_commutative(first, rest);
    assert forall|i: int| 0 <= i < first.len() implies urgent(#[trigger] first[i]) by {
        queue.entries.lemma_filter_pred(urgent, i);
    }
    assert forall|i: int| 0 <= i < rest.len() implies other(#[trigger] rest[i]) by {
        queue.entries.lemma_filter_pred(other, i);
    }
    assert forall|i: int, j: int|
        0 <= i < j < scheduler::listed(queue, now).len() && scheduler::priority_of(
            queue,
            #[trigger] scheduler::listed(queue, now)[j],
            now,
        ) is Some implies scheduler::priority_of(
        queue,
        #[trigger] scheduler::listed(queue, now)[i],
        now,
    ) is Some by {
        if j >= first.len() {
            assert(scheduler::listed(queue, now)[j] == rest[j - first.len()]);
        } else {
            assert(scheduler::listed(queue, now)[i] == first[i]);
        }
    }
}

/// When the scheduler looks at the queue, everybody in it was heard in the last ten minutes, nobody
/// in it counts as worked on the current band unless it calls us and may do so, and whoever is so
/// has stayed.
pub proof fn law_who_goes_on_waiting(queue: QueueModel, tracker: TrackerModel, now: Timestamp)
    ensures
        ({
            let after = scheduler::brought_up(queue, tracker, now);
            &&& forall|i: int|
                0 <= i < after.entries.len() ==> clock::since(
                    now,
                    (#[trigger] after.entries[i]).observed_at,
                ) <= scheduler::QUEUE_HEARD_RETENTION && (queue::worked_here(
                    after,
                    after.entries[i].callsign,
                    now,
                ) ==> after.entries[i].direct_pending && !after.ignore_worked_directs)
            &&& forall|i: int|
                0 <= i < queue.entries.len() && scheduler::goes_on_waiting(
                    after,
                    scheduler::observed(#[trigger] queue.entries[i], tracker),
                    now,
                ) ==> after.entries.contains(scheduler::observed(queue.entries[i], tracker))
        }),
{
    let q = queue::forgetful(queue, now);
    let after = scheduler::brought_up(queue, tracker, now);
    let seen = |e: EntryModel| scheduler::observed(e, tracker);
    let stays = |e: EntryModel| scheduler::goes_on_waiting(q, e, now);
    let all = q.entries.map_values(seen);
    assert(after.entries == all.filter(stays));
    assert forall|i: int| 0 <= i < after.entries.len() implies stays(#[trigger] after.entries[i]) by {
        all.lemma_filter_pred(stays, i);
    }
    assert forall|i: int|
        0 <= i < queue.entries.len() && scheduler::goes_on_waiting(
            after,
            scheduler::observed(#[trigger] queue.entries[i], tracker),
            now,
        ) implies after.entries.contains(scheduler::observed(queue.entries[i], tracker)) by {
        assert(all[i] == seen(queue.entries[i]));
        assert(stays(all[i]));
        all.lemma_filter_contains(stays, i);
    }
}

/// The station was worked on the current band, and no longer ago than a day.
pub open spec fn worked_within_a_day(
    queue: QueueModel,
    callsign: Seq<char>,
    now: Timestamp,
) -> bool {
    match queue.band {
        Some(band) => queue.worked.contains_key((callsign, band)) && now - queue.worked[(
            callsign,
            band,
        )] <= 86_400_000_000_000,
        None => false,
    }
}

/// When the slot of that number begins.
pub open spec fn begin_of(mode: DecoderMode, index: int) -> int {
    match mode {
        DecoderMode::Ft8 => index * 15_000_000_000,
        DecoderMode::Ft4 => index * 7_500_000_000,
    }
}

/// No more than one slot of the family has begun after the one of that number: those that come after
/// the next are all still to come.
pub open spec fn among_last_two(
    mode: DecoderMode,
    now: Timestamp,
    family: SlotFamily,
    index: int,
) -> bool {
    forall|later: int|
        index + 2 < later && (later % 2 == 0) == (family == SlotFamily::Even) ==> now
            < #[trigger] begin_of(mode, later)
}

/// A time from the epoch on that slots can be counted for.
pub open spec fn in_range(now: Timestamp) -> bool {
    0 <= now <= (u64::MAX - 15_000) * 1_000_000
}

proof fn lemma_begin_of(mode: DecoderMode, a: int, b: int)
    requires
        a <= b,
    ensures
        begin_of(mode, a) <= begin_of(mode, b),
{
}

/// The latest slot of a family: it has begun, is of the family where it is not the very first, and
/// none of the family has begun after it.
proof fn lemma_latest(mode: DecoderMode, now: Timestamp, family: SlotFamily)
    requires
        in_range(now),
    ensures
        ({
            let latest = slots::latest_index(mode, now, family);
            &&& 0 <= latest
            &&& begin_of(mode, latest) <= now < begin_of(mode, latest + 2)
            &&& latest > 0 ==> (latest % 2 == 0) == (family == SlotFamily::Even)
        }),
{
    slots::law_slots_are_counted_from_the_epoch(mode, now);
    slots::law_slot_holds_its_times(mode, now);
    let current = slots::slot_index(mode, now);
    assert(begin_of(mode, current) <= now < begin_of(mode, current + 1)) by {
        match mode {
            DecoderMode::Ft8 => {
                assert(current == now as int / 15_000_000_000);
            },
            DecoderMode::Ft4 => {
                assert(current == now as int / 7_500_000_000);
            },
        }
    }
    let latest = slots::latest_index(mode, now, family);
    assert(latest == current || latest == current - 1);
    lemma_begin_of(mode, latest, current);
    lemma_begin_of(mode, current + 1, latest + 2);
}

proof fn lemma_last_two(mode: DecoderMode, now: Timestamp, family: SlotFamily, index: int)
    requires
        in_range(now),
        0 <= index,
    ensures
        scheduler::in_last_two(mode, now, family, index) == among_last_two(mode, now, family, index),
{
    let latest = slots::latest_index(mode, now, family);
    lemma_latest(mode, now, family);
    if scheduler::in_last_two(mode, now, family, index) {
        assert forall|later: int|
            index + 2 < later && (later % 2 == 0) == (family == SlotFamily::Even) implies now
            < #[trigger] begin_of(mode, later) by {
            assert(latest <= index + 2);
            if latest + 2 <= later {
                lemma_begin_of(mode, latest + 2, later);
            } else {
                assert(later == latest + 1);
                assert(latest == 0);
            }
        }
    } else {
        assert(latest > index + 2);
        assert(begin_of(mode, latest) <= now);
    }
}

/// A waiting station is ready when it was last heard with a CQ, an RR73 or a 73 in one of its last
/// two slots, its delay is over, and it does not count as worked on the band; a call of its own to
/// us makes up for the last, unless such calls are ignored. In every other case it is not ready.
pub proof fn law_ready_to_be_called(
    queue: QueueModel,
    entry: EntryModel,
    tracker: TrackerModel,
    now: Timestamp,
)
    requires
        in_range(now),
    ensures
        scheduler::status_of(queue, entry, tracker, now).ready <==> {
            &&& tracker.stations.contains_key(entry.callsign)
            &&& {
                let station = tracker.stations[entry.callsign];
                &&& station.kind == StationLastMessageKind::Cq || station.kind
                    == StationLastMessageKind::Rr73 || station.kind
                    == StationLastMessageKind::SeventyThree
                &&& among_last_two(queue.mode, now, station.family, station.slot_index as int)
            }
            &&& entry.ok_after <= now
            &&& !worked_within_a_day(queue, entry.callsign, now) || (entry.direct_pending
                && !queue.ignore_worked_directs)
        },
{
    if tracker.stations.contains_key(entry.callsign) {
        let station = tracker.stations[entry.callsign];
        lemma_last_two(queue.mode, now, station.family, station.slot_index as int);
    }
}

/// Whoever the scheduler looks at waited before, and has changed at most in when it was heard.
proof fn lemma_brought_up_from(
    queue: QueueModel,
    tracker: TrackerModel,
    now: Timestamp,
    place: int,
) -> (i: int)
    requires
        0 <= place < scheduler::brought_up(queue, tracker, now).entries.len(),
    ensures
        0 <= i < queue.entries.len(),
        scheduler::brought_up(queue, tracker, now).entries[place] == scheduler::observed(
            queue.entries[i],
            tracker,
        ),
        scheduler::goes_on_waiting(
            queue::forgetful(queue, now),
            scheduler::brought_up(queue, tracker, now).entries[place],
            now,
        ),
{
    let q = queue::forgetful(queue, now);
    let after = scheduler::brought_up(queue, tracker, now);
    let seen = |e: EntryModel| scheduler::observed(e, tracker);
    let stays = |e: EntryModel| scheduler::goes_on_waiting(q, e, now);
    let all = q.entries.map_values(seen);
    assert(after.entries == all.filter(stays));
    all.lemma_filter_pred(stays, place);
    assert(after.entries.contains(after.entries[place]));
    all.lemma_filter_contains_rev(stays, after.entries[place]);
    let i = all.index_of(after.entries[place]);
    assert(all[i] == seen(queue.entries[i]));
    i
}

proof fn lemma_same_worked(queue: QueueModel, callsign: Seq<char>, now: Timestamp)
    ensures
        worked_within_a_day(queue::forgetful(queue, now), callsign, now) == worked_within_a_day(
            queue,
            callsign,
            now,
        ),
        queue::worked_here(queue, callsign, now) == worked_within_a_day(queue, callsign, now),
{
}

/// A station is called out of the queue, as the one at `i`, only if it was last heard with a CQ, an
/// RR73 or a 73 in one of its last two slots and within ten minutes, its delay is over, it does not
/// count as worked on the band (unless it has called us and such calls count), and nothing holds the
/// scheduler. The call begins with our locator and goes out in the slots in which the station does
/// not send.
pub proof fn law_who_may_be_called(
    queue: QueueModel,
    tracker: TrackerModel,
    now: Timestamp,
    qso_busy: bool,
    tune_active: bool,
) -> (i: int)
    requires
        queue::sound(queue),
        in_range(now),
        scheduler::scheduled(queue, tracker, now, qso_busy, tune_active).1 matches Some(
            DispatchModel { kind: DispatchKindModel::Station { mode: QsoStartMode::Normal, .. }, .. },
        ),
    ensures
        queue.auto_enabled && !qso_busy && !tune_active,
        0 <= i < queue.entries.len(),
        ({
            let sent = scheduler::scheduled(queue, tracker, now, qso_busy, tune_active).1->0;
            let entry = queue.entries[i];
            let station = tracker.stations[entry.callsign];
            &&& tracker.stations.contains_key(entry.callsign)
            &&& station.kind == StationLastMessageKind::Cq || station.kind
                == StationLastMessageKind::Rr73 || station.kind
                == StationLastMessageKind::SeventyThree
            &&& among_last_two(queue.mode, now, station.family, station.slot_index as int)
            &&& entry.ok_after <= now
            &&& !worked_within_a_day(queue, entry.callsign, now) || (entry.direct_pending
                && !queue.ignore_worked_directs)
            &&& now - entry.observed_at <= 600_000_000_000 || now - station.heard_at
                <= 600_000_000_000
            &&& sent.callsign == entry.callsign
            &&& sent.kind matches DispatchKindModel::Station { callsign, state, .. } && callsign
                == entry.callsign && state == QsoState::SendGrid
            &&& sent.family != station.family
            &&& sent.freq == (match sent.family {
                SlotFamily::Even => queue.even_freq,
                SlotFamily::Odd => queue.odd_freq,
            })
        }),
{
    let q = scheduler::brought_up(queue, tracker, now);
    lemma_first_ready(q, tracker, now, 0);
    let ready = scheduler::first_ready(q, tracker, now, 0);
    let i = lemma_brought_up_from(queue, tracker, now, ready);
    law_ready_to_be_called(q, q.entries[ready], tracker, now);
    lemma_same_worked(queue, queue.entries[i].callsign, now);
    i
}

proof fn lemma_filter_order(all: Seq<EntryModel>, keep: spec_fn(EntryModel) -> bool, a: int, b: int)
    requires
        queue::distinct_calls(all),
        0 <= a < all.len(),
        0 <= b < all.len(),
        keep(all[a]),
        keep(all[b]),
        a < b,
    ensures
        all.filter(keep).index_of(all[a]) < all.filter(keep).index_of(all[b]),
        all.filter(keep).contains(all[a]),
        all.filter(keep).contains(all[b]),
    decreases all.len(),
{
    all.lemma_filter_contains(keep, a);
    all.lemma_filter_contains(keep, b);
    reveal(Seq::filter);
    let head = all.drop_last();
    let kept = all.filter(keep);
    let before = head.filter(keep);
    assert(all[a].callsign != all[b].callsign);
    assert(head[a] == all[a]);
    assert forall|i: int| 0 <= i < head.len() implies head[i] == all[i] by {}
    lemma_filter_distinct(all, keep);
    if b < head.len() {
        assert(head[b] == all[b]);
        lemma_filter_order(head, keep, a, b);
        let x = before.index_of(all[a]);
        let y = before.index_of(all[b]);
        assert(kept[x] == all[a] && kept[y] == all[b]);
        lemma_only_place(kept, x, kept.index_of(all[a]));
        lemma_only_place(kept, y, kept.index_of(all[b]));
    } else {
        head.lemma_filter_contains(keep, a);
        let x = before.index_of(all[a]);
        assert(kept[x] == all[a]);
        assert(kept[before.len() as int] == all[b]);
        lemma_only_place(kept, x, kept.index_of(all[a]));
        lemma_only_place(kept, before.len() as int, kept.index_of(all[b]));
    }
}

proof fn lemma_only_place(entries: Seq<EntryModel>, i: int, j: int)
    requires
        queue::distinct_calls(entries),
        0 <= i < entries.len(),
        0 <= j < entries.len(),
        entries[i] == entries[j],
    ensures
        i == j,
{
    if i < j {
        assert(entries[i].callsign != entries[j].callsign);
    } else if j < i {
        assert(entries[j].callsign != entries[i].callsign);
    }
}

proof fn lemma_filter_distinct(all: Seq<EntryModel>, keep: spec_fn(EntryModel) -> bool)
    requires
        queue::distinct_calls(all),
    ensures
        queue::distinct_calls(all.filter(keep)),
    decreases all.len(),
{
    reveal(Seq::filter);
    if all.len() > 0 {
        let head = all.drop_last();
        let kept = head.filter(keep);
        assert forall|i: int| 0 <= i < head.len() implies head[i] == all[i] by {}
        assert(queue::distinct_calls(head)) by {
            assert forall|i: int, j: int| 0 <= i < j < head.len() implies (
            #[trigger] head[i]).callsign != (#[trigger] head[j]).callsign by {
                assert(all[i].callsign != all[j].callsign);
            }
        }
        lemma_filter_distinct(head, keep);
        if keep(all.last()) {
            let after = kept.push(all.last());
            assert forall|i: int, j: int| 0 <= i < j < after.len() implies (
            #[trigger] after[i]).callsign != (#[trigger] after[j]).callsign by {
                if j == kept.len() {
                    assert(kept.contains(kept[i]));
                    head.lemma_filter_contains_rev(keep, kept[i]);
                    let k = head.index_of(kept[i]);
                    assert(all[k] == kept[i]);
                    assert(all[k].callsign != all[all.len() - 1].callsign);
                }
            }
        }
    }
}

/// A station that waits and is free to be called is not passed over: unless the scheduler is held,
/// something is sent, and if that is a call out of the queue, it is to this station or to one that
/// has waited longer. Where nobody has called us and CQ is off, it is such a call.
pub proof fn law_free_station_is_not_passed_over(
    queue: QueueModel,
    tracker: TrackerModel,
    now: Timestamp,
    i: int,
)
    requires
        queue::sound(queue),
        in_range(now),
        queue.auto_enabled,
        0 <= i < queue.entries.len(),
        tracker.stations.contains_key(queue.entries[i].callsign),
        ({
            let station = tracker.stations[queue.entries[i].callsign];
            &&& station.kind == StationLastMessageKind::Cq || station.kind
                == StationLastMessageKind::Rr73 || station.kind
                == StationLastMessageKind::SeventyThree
            &&& among_last_two(queue.mode, now, station.family, station.slot_index as int)
            &&& now - queue.entries[i].observed_at <= 600_000_000_000 || now - station.heard_at
                <= 600_000_000_000
        }),
        queue.entries[i].ok_after <= now,
        !worked_within_a_day(queue, queue.entries[i].callsign, now) || (
        queue.entries[i].direct_pending && !queue.ignore_worked_directs),
    ensures
        match scheduler::scheduled(queue, tracker, now, false, false).1 {
            Some(sent) => {
                &&& sent.kind matches DispatchKindModel::Station {
                    mode: QsoStartMode::Normal,
                    callsign,
                    ..
                } ==> exists|j: int|
                    0 <= j <= i && (#[trigger] queue.entries[j]).callsign == callsign
                &&& !queue.cq_enabled && (forall|j: int|
                    0 <= j < queue.entries.len() ==> !(#[trigger] queue.entries[j]).direct_pending)
                    ==> sent.kind matches DispatchKindModel::Station {
                    mode: QsoStartMode::Normal,
                    ..
                }
            },
            None => false,
        },
{
    let entry = scheduler::observed(queue.entries[i], tracker);
    let f = queue::forgetful(queue, now);
    let q = scheduler::brought_up(queue, tracker, now);
    let seen = |e: EntryModel| scheduler::observed(e, tracker);
    let stays = |e: EntryModel| scheduler::goes_on_waiting(f, e, now);
    let all = f.entries.map_values(seen);
    lemma_same_worked(queue, entry.callsign, now);
    lemma_same_worked(f, entry.callsign, now);
    scheduler::lemma_same_calls_keep_sound(f, all);
    assert(all[i] == entry);
    assert(stays(entry));
    all.lemma_filter_contains(stays, i);
    let place = q.entries.index_of(entry);
    law_ready_to_be_called(q, entry, tracker, now);
    lemma_first_ready(q, tracker, now, 0);
    let ready = scheduler::first_ready(q, tracker, now, 0);
    assert(q.entries[place] == entry);
    assert(ready <= place);
    let j = lemma_brought_up_from(queue, tracker, now, ready);
    assert(all[j] == q.entries[ready]);
    if i < j {
        assert(stays(all[j]));
        lemma_filter_order(all, stays, i, j);
        lemma_filter_distinct(all, stays);
        lemma_only_place(q.entries, ready, q.entries.index_of(all[j]));
    }
    assert(queue.entries[j].callsign == q.entries[ready].callsign);
    if scheduler::first_direct(q, now, None) is Some {
        let k = scheduler::first_direct(q, now, None)->0;
        assert(scheduler::is_first_direct(q, now, None, k));
        let m = lemma_brought_up_from(queue, tracker, now, k);
        assert(queue.entries[m].direct_pending);
    }
}

/// The end of a contact with the reason `send_grid_no_msg_limit` or `send_sig_no_msg_limit` leaves
/// the partner last in the queue, to be called again once the no-message delay is over from the end
/// of the contact on; `send_grid_no_fwd_limit` and `send_sig_no_fwd_limit` do so with the no-forward
/// delay; no other reason puts anybody in the queue. Nobody else is touched.
pub proof fn law_exit_reason_decides_on_a_retry(
    queue: QueueModel,
    outcome: QsoOutcome,
    tracker: TrackerModel,
)
    requires
        queue::sound(queue),
        !text::same_ignoring_case(outcome.partner_call@, queue.our_call),
        outcome.finished_at + queue.no_message_delay <= slots::LAST_INSTANT,
        outcome.finished_at + queue.no_forward_delay <= slots::LAST_INSTANT,
    ensures
        ({
            let reason = outcome.exit_reason@;
            let after = queue::contact_over(queue, outcome, tracker).entries;
            let no_message = reason == "send_grid_no_msg_limit"@ || reason
                == "send_sig_no_msg_limit"@;
            let no_forward = reason == "send_grid_no_fwd_limit"@ || reason
                == "send_sig_no_fwd_limit"@;
            &&& no_message || no_forward ==> {
                &&& after.len() > 0
                &&& after.last().callsign == outcome.partner_call@
                &&& after.last().queued_at == outcome.finished_at
                &&& after.last().observed_at == (if tracker.stations.contains_key(
                    outcome.partner_call@,
                ) {
                    tracker.stations[outcome.partner_call@].heard_at
                } else {
                    outcome.finished_at
                })
                &&& !after.last().direct_pending
                &&& forall|k: int|
                    0 <= k < after.len() - 1 ==> (#[trigger] after[k]).callsign
                        != outcome.partner_call@
            }
            &&& no_message ==> after.last().ok_after == outcome.finished_at + queue.no_message_delay
            &&& no_forward ==> after.last().ok_after == outcome.finished_at + queue.no_forward_delay
            &&& !no_message && !no_forward && !outcome.sent_terminal_73 ==> after == queue.entries
            &&& !no_message && !no_forward && outcome.sent_terminal_73 ==> forall|k: int|
                0 <= k < after.len() ==> (#[trigger] after[k]).callsign != outcome.partner_call@
            &&& forall|e: EntryModel|
                e.callsign != outcome.partner_call@ ==> (#[trigger] after.contains(e)
                    == queue.entries.contains(e))
        }),
{
    reveal_strlit("send_grid_no_msg_limit");
    reveal_strlit("send_sig_no_msg_limit");
    reveal_strlit("send_grid_no_fwd_limit");
    reveal_strlit("send_sig_no_fwd_limit");
    assert("send_grid_no_msg_limit"@[13] != "send_grid_no_fwd_limit"@[13]);
    assert("send_sig_no_msg_limit"@[12] != "send_sig_no_fwd_limit"@[12]);
    let call = outcome.partner_call@;
    let closed = if outcome.sent_terminal_73 {
        queue::closed_out(queue, outcome)
    } else {
        queue
    };
    lemma_without_keeps_sound(queue, call);
    queue::lemma_without(queue.entries, call);
    queue::lemma_without(closed.entries, call);
    lemma_without_keeps_others(queue.entries, call);
    lemma_without_keeps_others(closed.entries, call);
    let rest = queue::without(closed.entries, call);
    let after = queue::contact_over(queue, outcome, tracker).entries;
    if qso::retry_kind(outcome.exit_reason@) is Some {
        assert(after.drop_last() =~= rest);
        assert forall|k: int| 0 <= k < after.len() - 1 implies (#[trigger] after[k]).callsign
            != call by {
            assert(after[k] == rest[k]);
        }
        assert forall|e: EntryModel| e.callsign != call implies (#[trigger] after.contains(e)
            == queue.entries.contains(e)) by {
            if rest.contains(e) {
                let k = rest.index_of(e);
                assert(after[k] == e);
            }
            if after.contains(e) {
                let k = after.index_of(e);
                assert(k < rest.len());
                assert(rest[k] == e);
            }
        }
    }
}

proof fn lemma_without_keeps_others(entries: Seq<EntryModel>, callsign: Seq<char>)
    ensures
        forall|e: EntryModel|
            e.callsign != callsign ==> (#[trigger] queue::without(entries, callsign).contains(e)
                == entries.contains(e)),
{
    queue::lemma_place_of(entries, callsign);
    let place = queue::place_of(entries, callsign);
    let rest = queue::without(entries, callsign);
    assert forall|e: EntryModel| e.callsign != callsign implies (#[trigger] rest.contains(e)
        == entries.contains(e)) by {
        if queue::waits(entries, callsign) {
            if entries.contains(e) {
                let k = entries.index_of(e);
                assert(rest[if k < place { k } else { k - 1 }] == e);
            }
            if rest.contains(e) {
                let k = rest.index_of(e);
                assert(entries[if k < place { k } else { k + 1 }] == e);
            }
        }
    }
}

/// A contact counts as worked on a band exactly when a closing message went out in it and its band
/// is known; nothing else that has been worked is touched.
pub proof fn law_closing_message_counts_as_worked(
    queue: QueueModel,
    outcome: QsoOutcome,
    tracker: TrackerModel,
    callsign: Seq<char>,
    band: Seq<char>,
)
    ensures
        ({
            let after = queue::contact_over(queue, outcome, tracker).worked;
            let counts = outcome.sent_terminal_73 && outcome.partner_call@ == callsign
                && text::text_opt(outcome.rig_band) == Some(band);
            &&& after.contains_key((callsign, band)) == (counts || queue.worked.contains_key(
                (callsign, band),
            ))
            &&& counts ==> after[(callsign, band)] == outcome.finished_at
            &&& !counts && queue.worked.contains_key((callsign, band)) ==> after[(callsign, band)]
                == queue.worked[(callsign, band)]
        }),
{
}

/// A direct call of the station waits for an answer and is to have one: it was heard in one of the
/// last two slots of its sender, its delay is over, and it is not to be ignored because its sender
/// was worked.
pub open spec fn calls_for_an_answer(queue: QueueModel, entry: EntryModel, now: Timestamp) -> bool {
    &&& entry.direct_pending
    &&& entry.ok_after <= now
    &&& !(queue.ignore_worked_directs && worked_within_a_day(queue, entry.callsign, now))
    &&& match (entry.direct_family, entry.direct_slot_index) {
        (Some(family), Some(index)) => among_last_two(queue.mode, now, family, index as int),
        _ => false,
    }
}

pub open spec fn signal_of(entry: EntryModel) -> int {
    match entry.direct_snr {
        Some(snr) => snr as int,
        None => i32::MIN as int,
    }
}

/// Of two direct calls the one of the later slot goes before the other; then the one that came more
/// often, the one with the better signal, the one that has waited longer, and at last the one with
/// the lesser call.
pub open spec fn goes_before(a: EntryModel, b: EntryModel) -> bool {
    let slot_a = a.direct_slot_index->0;
    let slot_b = b.direct_slot_index->0;
    ||| slot_a > slot_b
    ||| slot_a == slot_b && a.direct_count > b.direct_count
    ||| slot_a == slot_b && a.direct_count == b.direct_count && signal_of(a) > signal_of(b)
    ||| slot_a == slot_b && a.direct_count == b.direct_count && signal_of(a) == signal_of(b)
        && a.queued_at < b.queued_at
    ||| slot_a == slot_b && a.direct_count == b.direct_count && signal_of(a) == signal_of(b)
        && a.queued_at == b.queued_at && text::text_lt(a.callsign, b.callsign)
}

/// A station in the queue has been heard within ten minutes and is not done with on the band: it has
/// not been worked there within a day, or has called us since and such calls count.
pub open spec fn stays_in_the_queue(
    queue: QueueModel,
    tracker: TrackerModel,
    entry: EntryModel,
    now: Timestamp,
) -> bool {
    &&& now - entry.observed_at <= 600_000_000_000 || (tracker.stations.contains_key(entry.callsign)
        && now - tracker.stations[entry.callsign].heard_at <= 600_000_000_000)
    &&& !worked_within_a_day(queue, entry.callsign, now) || (entry.direct_pending
        && !queue.ignore_worked_directs)
}

proof fn lemma_priority(queue: QueueModel, entry: EntryModel, now: Timestamp)
    requires
        in_range(now),
    ensures
        scheduler::priority_of(queue, entry, now) is Some <==> calls_for_an_answer(
            queue,
            entry,
            now,
        ),
{
    if let (Some(family), Some(index)) = (entry.direct_family, entry.direct_slot_index) {
        lemma_last_two(queue.mode, now, family, index as int);
    }
}

/// The direct call that goes first is one that calls for an answer and goes before every other such
/// call; there is none only where none calls for an answer. A call that is left out does not count.
pub proof fn law_which_direct_call_goes_first(
    queue: QueueModel,
    now: Timestamp,
    excluded: Option<Seq<char>>,
)
    requires
        queue::sound(queue),
        in_range(now),
    ensures
        match scheduler::first_direct(queue, now, excluded) {
            Some(i) => {
                &&& 0 <= i < queue.entries.len()
                &&& calls_for_an_answer(queue, queue.entries[i], now)
                &&& excluded matches Some(x) ==> !text::same_ignoring_case(
                    queue.entries[i].callsign,
                    x,
                )
                &&& forall|j: int|
                    0 <= j < queue.entries.len() && j != i && calls_for_an_answer(
                        queue,
                        #[trigger] queue.entries[j],
                        now,
                    ) && !(excluded matches Some(x) && text::same_ignoring_case(
                        queue.entries[j].callsign,
                        x,
                    )) ==> goes_before(queue.entries[i], queue.entries[j])
            },
            None => forall|j: int|
                0 <= j < queue.entries.len() && calls_for_an_answer(
                    queue,
                    #[trigger] queue.entries[j],
                    now,
                ) ==> (excluded matches Some(x) && text::same_ignoring_case(
                    queue.entries[j].callsign,
                    x,
                )),
        },
{
    assert forall|j: int| 0 <= j < queue.entries.len() implies (calls_for_an_answer(
        queue,
        #[trigger] queue.entries[j],
        now,
    ) <==> scheduler::priority_of(queue, queue.entries[j], now) is Some) by {
        lemma_priority(queue, queue.entries[j], now);
    }
    match scheduler::first_direct(queue, now, excluded) {
        Some(i) => {
            assert(scheduler::is_first_direct(queue, now, excluded, i));
            assert forall|j: int|
                0 <= j < queue.entries.len() && j != i && calls_for_an_answer(
                    queue,
                    #[trigger] queue.entries[j],
                    now,
                ) && !(excluded matches Some(x) && text::same_ignoring_case(
                    queue.entries[j].callsign,
                    x,
                )) implies goes_before(queue.entries[i], queue.entries[j]) by {
                assert(scheduler::has_priority(queue, now, excluded, j));
            }
        },
        None => {
            assert forall|j: int|
                0 <= j < queue.entries.len() && calls_for_an_answer(
                    queue,
                    #[trigger] queue.entries[j],
                    now,
                ) implies (excluded matches Some(x) && text::same_ignoring_case(
                queue.entries[j].callsign,
                x,
            )) by {
                if scheduler::has_priority(queue, now, excluded, j) {
                    law_some_direct_goes_first(queue, now, excluded, j);
                }
            }
        },
    }
}

/// Whoever was heard within ten minutes and is not done with on the band stays in the queue when the
/// scheduler looks at it, with nothing changed but when it was heard; nobody else does.
pub proof fn law_who_stays_in_the_queue(
    queue: QueueModel,
    tracker: TrackerModel,
    now: Timestamp,
    i: int,
)
    requires
        queue::sound(queue),
        0 <= i < queue.entries.len(),
    ensures
        ({
            let after = scheduler::brought_up(queue, tracker, now).entries;
            let entry = queue.entries[i];
            &&& stays_in_the_queue(queue, tracker, entry, now) <==> exists|k: int|
                0 <= k < after.len() && (#[trigger] after[k]).callsign == entry.callsign
            &&& forall|k: int|
                0 <= k < after.len() && (#[trigger] after[k]).callsign == entry.callsign ==> after[k]
                    == (EntryModel { observed_at: after[k].observed_at, ..entry })
                    && after[k].observed_at >= entry.observed_at
        }),
{
    let f = queue::forgetful(queue, now);
    let after = scheduler::brought_up(queue, tracker, now).entries;
    let entry = queue.entries[i];
    let seen = |e: EntryModel| scheduler::observed(e, tracker);
    let stays = |e: EntryModel| scheduler::goes_on_waiting(f, e, now);
    let all = f.entries.map_values(seen);
    lemma_same_worked(queue, entry.callsign, now);
    lemma_same_worked(f, entry.callsign, now);
    assert(all[i] == seen(entry));
    assert(stays(all[i]) <==> stays_in_the_queue(queue, tracker, entry, now));
    if stays(all[i]) {
        all.lemma_filter_contains(stays, i);
        let k = after.index_of(all[i]);
        assert(after[k].callsign == entry.callsign);
    }
    assert forall|k: int| 0 <= k < after.len() && (#[trigger] after[k]).callsign == entry.callsign implies after[k]
        == all[i] && stays(all[i]) by {
        let j = lemma_brought_up_from(queue, tracker, now, k);
        if j < i {
            assert(queue.entries[j].callsign != queue.entries[i].callsign);
        } else if i < j {
            assert(queue.entries[i].callsign != queue.entries[j].callsign);
        }
    }
}

/// A direct call is answered, as that of the station at `i`, only if it calls for an answer and goes
/// before every other one in the queue that does. The answer begins with what the call asks for, and
/// goes out in the slots in which the caller does not send.
pub proof fn law_who_is_answered(
    queue: QueueModel,
    tracker: TrackerModel,
    now: Timestamp,
    qso_busy: bool,
    tune_active: bool,
) -> (i: int)
    requires
        queue::sound(queue),
        in_range(now),
        scheduler::scheduled(queue, tracker, now, qso_busy, tune_active).1 matches Some(
            DispatchModel { kind: DispatchKindModel::Station { mode: QsoStartMode::Direct, .. }, .. },
        ),
    ensures
        queue.auto_enabled && !qso_busy && !tune_active,
        0 <= i < queue.entries.len(),
        ({
            let sent = scheduler::scheduled(queue, tracker, now, qso_busy, tune_active).1->0;
            let entry = queue.entries[i];
            &&& calls_for_an_answer(queue, entry, now)
            &&& stays_in_the_queue(queue, tracker, entry, now)
            &&& forall|j: int|
                0 <= j < queue.entries.len() && j != i && calls_for_an_answer(
                    queue,
                    #[trigger] queue.entries[j],
                    now,
                ) && stays_in_the_queue(queue, tracker, queue.entries[j], now) ==> goes_before(
                    entry,
                    queue.entries[j],
                )
            &&& sent.callsign == entry.callsign
            &&& sent.kind matches DispatchKindModel::Station { callsign, state, .. } && callsign
                == entry.callsign && (entry.start_state matches Some(first) ==> state == first) && (
            entry.start_state is None ==> state == QsoState::SendSig)
            &&& sent.kind matches DispatchKindModel::Station {
                heard_at,
                family,
                text,
                json,
                snr,
                ..
            } && heard_at == entry.direct_at && family == entry.direct_family && text
                == entry.direct_text && json == entry.direct_json && snr == entry.direct_snr
            &&& entry.direct_family != Some(sent.family)
            &&& sent.freq == (match sent.family {
                SlotFamily::Even => queue.even_freq,
                SlotFamily::Odd => queue.odd_freq,
            })
        }),
{
    let q = scheduler::brought_up(queue, tracker, now);
    lemma_brought_up_sound(queue, tracker, now);
    law_which_direct_call_goes_first(q, now, None);
    let first = scheduler::first_direct(q, now, None)->0;
    let i = lemma_brought_up_from(queue, tracker, now, first);
    lemma_same_worked(queue, queue.entries[i].callsign, now);
    law_who_stays_in_the_queue(queue, tracker, now, i);
    assert(q.entries[first].callsign == queue.entries[i].callsign);
    assert forall|j: int|
        0 <= j < queue.entries.len() && j != i && calls_for_an_answer(
            queue,
            #[trigger] queue.entries[j],
            now,
        ) && stays_in_the_queue(queue, tracker, queue.entries[j], now) implies goes_before(
        queue.entries[i],
        queue.entries[j],
    ) by {
        law_who_stays_in_the_queue(queue, tracker, now, j);
        lemma_same_worked(queue, queue.entries[j].callsign, now);
        let k = choose|k: int|
            0 <= k < q.entries.len() && (#[trigger] q.entries[k]).callsign
                == queue.entries[j].callsign;
        assert(calls_for_an_answer(q, q.entries[k], now));
        if i < j {
            assert(queue.entries[i].callsign != queue.entries[j].callsign);
        } else {
            assert(queue.entries[j].callsign != queue.entries[i].callsign);
        }
        assert(k != first);
    }
    i
}

/// While a direct call in the queue calls for an answer, and nothing holds the scheduler, one is
/// answered: neither CQ nor another station is called.
pub proof fn law_direct_call_is_answered_before_all(
    queue: QueueModel,
    tracker: TrackerModel,
    now: Timestamp,
    i: int,
)
    requires
        queue::sound(queue),
        in_range(now),
        queue.auto_enabled,
        0 <= i < queue.entries.len(),
        calls_for_an_answer(queue, queue.entries[i], now),
        stays_in_the_queue(queue, tracker, queue.entries[i], now),
    ensures
        scheduler::scheduled(queue, tracker, now, false, false).1 matches Some(
            DispatchModel { kind: DispatchKindModel::Station { mode: QsoStartMode::Direct, .. }, .. },
        ),
{
    let q = scheduler::brought_up(queue, tracker, now);
    lemma_brought_up_sound(queue, tracker, now);
    law_who_stays_in_the_queue(queue, tracker, now, i);
    lemma_same_worked(queue, queue.entries[i].callsign, now);
    let k = choose|k: int|
        0 <= k < q.entries.len() && (#[trigger] q.entries[k]).callsign == queue.entries[i].callsign;
    assert(calls_for_an_answer(q, q.entries[k], now));
    law_which_direct_call_goes_first(q, now, None);
}

/// The stations but our own of which something was heard in the last five minutes.
pub open spec fn heard_lately(
    queue: QueueModel,
    tracker: TrackerModel,
    now: Timestamp,
) -> Set<Seq<char>> {
    Set::new(
        |call: Seq<char>|
            !text::same_ignoring_case(call, queue.our_call) && exists|i: int|
                0 <= i < tracker.logs.len() && (#[trigger] tracker.logs[i]).sender == call && now
                    - tracker.logs[i].at <= 300_000_000_000,
    )
}

/// Activity on the band is how many different stations were heard in the last five minutes.
pub proof fn law_activity_counts_stations(
    queue: QueueModel,
    tracker: TrackerModel,
    now: Timestamp,
)
    requires
        in_range(now),
    ensures
        scheduler::activity(queue, tracker, now) == heard_lately(queue, tracker, now).len(),
{
    let since = clock::back_by(now, 300_000_000_000);
    let lately = |l: LogModel| l.at >= since && !text::same_ignoring_case(l.sender, queue.our_call);
    let name = |l: LogModel| l.sender;
    let lines = tracker.logs.filter(lately);
    let names = lines.map_values(name);
    assert(since == now - 300_000_000_000);
    assert forall|call: Seq<char>| #[trigger] names.to_set().contains(call) <==> heard_lately(
        queue,
        tracker,
        now,
    ).contains(call) by {
        if names.to_set().contains(call) {
            let k = names.index_of(call);
            assert(lines[k].sender == call);
            tracker.logs.lemma_filter_pred(lately, k);
            assert(lines.contains(lines[k]));
            tracker.logs.lemma_filter_contains_rev(lately, lines[k]);
            let i = tracker.logs.index_of(lines[k]);
            assert(tracker.logs[i].sender == call);
        }
        if heard_lately(queue, tracker, now).contains(call) {
            let i = choose|i: int|
                0 <= i < tracker.logs.len() && (#[trigger] tracker.logs[i]).sender == call && now
                    - tracker.logs[i].at <= 300_000_000_000;
            assert(lately(tracker.logs[i]));
            tracker.logs.lemma_filter_contains(lately, i);
            let k = lines.index_of(tracker.logs[i]);
            assert(names[k] == call);
        }
    }
    assert(names.to_set() =~= heard_lately(queue, tracker, now));
}

/// CQ is called only while it is switched on with a share above nothing, enough stations are heard
/// where few of them put it off, no direct call calls for an answer, and nothing holds the
/// scheduler. With a share of a hundred per cent it is then always called. It goes out on the
/// frequency of its slots.
pub proof fn law_when_cq_is_called(
    queue: QueueModel,
    tracker: TrackerModel,
    now: Timestamp,
    qso_busy: bool,
    tune_active: bool,
)
    requires
        queue::sound(queue),
        in_range(now),
    ensures
        ({
            let sent = scheduler::scheduled(queue, tracker, now, qso_busy, tune_active).1;
            let may = {
                &&& queue.auto_enabled && !qso_busy && !tune_active
                &&& queue.cq_enabled
                &&& !(queue.pause_cq && heard_lately(queue, tracker, now).len()
                    < queue.pause_cq_below)
                &&& forall|i: int|
                    0 <= i < queue.entries.len() ==> !(calls_for_an_answer(
                        queue,
                        #[trigger] queue.entries[i],
                        now,
                    ) && stays_in_the_queue(queue, tracker, queue.entries[i], now))
            };
            &&& sent matches Some(DispatchModel { kind: DispatchKindModel::Cq { .. }, .. }) ==> may
                && queue.cq_percent > 0 && (sent->0).callsign == "CQ"@ && (sent->0).freq == (
            match (sent->0).family {
                SlotFamily::Even => queue.even_freq,
                SlotFamily::Odd => queue.odd_freq,
            })
            &&& may && queue.cq_percent >= 100 ==> sent matches Some(
                DispatchModel { kind: DispatchKindModel::Cq { .. }, .. },
            )
        }),
{
    let q = scheduler::brought_up(queue, tracker, now);
    let sent = scheduler::scheduled(queue, tracker, now, qso_busy, tune_active).1;
    lemma_brought_up_sound(queue, tracker, now);
    law_activity_counts_stations(queue, tracker, now);
    law_which_direct_call_goes_first(q, now, None);
    if sent matches Some(DispatchModel { kind: DispatchKindModel::Cq { .. }, .. }) {
        assert forall|i: int| 0 <= i < queue.entries.len() implies !(calls_for_an_answer(
            queue,
            #[trigger] queue.entries[i],
            now,
        ) && stays_in_the_queue(queue, tracker, queue.entries[i], now)) by {
            if calls_for_an_answer(queue, queue.entries[i], now) && stays_in_the_queue(
                queue,
                tracker,
                queue.entries[i],
                now,
            ) {
                law_direct_call_is_answered_before_all(queue, tracker, now, i);
            }
        }
    }
    if scheduler::first_direct(q, now, None) is Some {
        let first = scheduler::first_direct(q, now, None)->0;
        let i = lemma_brought_up_from(queue, tracker, now, first);
        lemma_same_worked(queue, queue.entries[i].callsign, now);
        law_who_stays_in_the_queue(queue, tracker, now, i);
        assert(q.entries[first].callsign == queue.entries[i].callsign);
        assert(calls_for_an_answer(queue, queue.entries[i], now));
    }
}

/// The greater the share of CQ, the more slots go to it: a slot in which CQ wins at one share is one
/// in which it wins at every greater one.
pub proof fn law_cq_wins_more_at_a_greater_share(queue: QueueModel, percent: u8, now: Timestamp)
    requires
        queue.cq_percent <= percent,
        scheduler::cq_wins(queue, now),
    ensures
        scheduler::cq_wins(QueueModel { cq_percent: percent, ..queue }, now),
{
}

/// A contact that closes is offered a station to hand over to only where that is switched on for one
/// of its two closing messages, and only the direct call that goes first but for the partner, if it
/// came with a locator, or with a report where such callers count too.
pub proof fn law_who_is_handed_over_to(
    queue: QueueModel,
    now: Timestamp,
    partner: Option<Seq<char>>,
)
    ensures
        match scheduler::handoff_candidate(queue, now, partner) {
            Some(sent) => {
                &&& queue.compound_rr73 || queue.compound_73_once
                &&& scheduler::first_direct(queue, now, partner) matches Some(i) && (
                queue.entries[i].compound_eligible || (queue.compound_for_signal
                    && queue.entries[i].start_state == Some(QsoState::SendSigAck)))
                    && sent.callsign == queue.entries[i].callsign && queue.entries[i].direct_family
                    != Some(sent.family)
            },
            None => (!queue.compound_rr73 && !queue.compound_73_once) || (
            scheduler::first_direct(queue, now, partner) matches Some(i) ==> (
            !queue.entries[i].compound_eligible && !(queue.compound_for_signal
                && queue.entries[i].start_state == Some(QsoState::SendSigAck)))),
        },
{
}

/// Asking for a station is refused for our own call, and for a station that was worked on the band
/// within a day; else the station waits, at the back of the queue if it did not wait before, ready
/// from now on. Whoever waited goes on waiting as before.
pub proof fn law_what_asking_for_a_station_does(
    queue: QueueModel,
    callsign: Seq<char>,
    observed_at: Timestamp,
    now: Timestamp,
)
    ensures
        ({
            let (after, answer) = queue::station_added(queue, callsign, observed_at, now);
            let own = text::same_ignoring_case(callsign, queue.our_call);
            let worked = worked_within_a_day(queue, callsign, now);
            let waiting = exists|i: int|
                0 <= i < queue.entries.len() && (#[trigger] queue.entries[i]).callsign == callsign;
            &&& answer == Err::<(), QueueRefusal>(QueueRefusal::OwnCall) <==> own
            &&& answer == Err::<(), QueueRefusal>(QueueRefusal::WorkedRecently) <==> !own && worked
            &&& answer == Ok::<(), QueueRefusal>(()) <==> !own && !worked
            &&& own || worked || waiting ==> after.entries == queue.entries
            &&& !own && !worked && !waiting ==> {
                let entry = after.entries.last();
                &&& after.entries.len() == queue.entries.len() + 1
                &&& after.entries.drop_last() == queue.entries
                &&& entry.callsign == callsign
                &&& entry.queued_at == now
                &&& entry.ok_after == now
                &&& entry.observed_at == observed_at
                &&& !entry.direct_pending
                &&& entry.direct_count == 0
            }
        }),
{
    let q = queue::forgetful(queue, now);
    let (after, answer) = queue::station_added(queue, callsign, observed_at, now);
    lemma_same_worked(queue, callsign, now);
    lemma_same_worked(q, callsign, now);
    queue::lemma_place_of(queue.entries, callsign);
    if queue::waits(queue.entries, callsign) {
        assert(queue.entries[queue::place_of(queue.entries, callsign)].callsign == callsign);
    } else if answer is Ok {
        assert(after.entries.drop_last() =~= queue.entries);
    }
}

/// A direct call is refused if it is of our own call, or of a station that was worked on the band
/// within a day where such calls are ignored. Else its station waits for an answer, from now on: at
/// the back of the queue if it did not wait before, and else where it was, with one call more unless
/// the call was counted in this slot, with the best signal so far, and with what the new call asks
/// for. Nobody else is touched.
pub proof fn law_what_a_direct_call_does(
    queue: QueueModel,
    seen: ObservationModel,
    now: Timestamp,
    i: int,
)
    requires
        queue::sound(queue),
    ensures
        ({
            let (after, answer) = queue::direct_added(queue, seen, now);
            let own = text::same_ignoring_case(seen.callsign, queue.our_call);
            let ignored = queue.ignore_worked_directs && worked_within_a_day(
                queue,
                seen.callsign,
                now,
            );
            let waiting = exists|k: int|
                0 <= k < queue.entries.len() && (#[trigger] queue.entries[k]).callsign
                    == seen.callsign;
            &&& answer == Err::<(), QueueRefusal>(QueueRefusal::OwnCall) <==> own
            &&& answer == Err::<(), QueueRefusal>(QueueRefusal::DirectCallerWorkedRecently) <==> !own
                && ignored
            &&& answer == Ok::<(), QueueRefusal>(()) <==> !own && !ignored
            &&& own || ignored ==> after.entries == queue.entries
            &&& !own && !ignored && !waiting ==> {
                let entry = after.entries.last();
                &&& after.entries.len() == queue.entries.len() + 1
                &&& after.entries.drop_last() == queue.entries
                &&& entry.callsign == seen.callsign
                &&& entry.queued_at == now
                &&& entry.ok_after == now
                &&& entry.direct_pending
                &&& entry.direct_count == 1
                &&& entry.observed_at == seen.observed_at
                &&& entry.direct_at == Some(seen.observed_at)
                &&& entry.direct_text == Some(seen.text)
                &&& entry.direct_json == Some(seen.json)
                &&& entry.direct_snr == Some(seen.snr)
                &&& entry.direct_slot_index == Some(seen.slot_index)
                &&& entry.direct_family == Some(seen.family)
                &&& entry.start_state == Some(seen.start_state)
                &&& entry.compound_eligible == seen.compound_eligible
            }
            &&& waiting ==> after.entries.len() == queue.entries.len()
            &&& !own && !ignored && 0 <= i < queue.entries.len() && queue.entries[i].callsign
                != seen.callsign ==> after.entries[i] == queue.entries[i]
            &&& !own && !ignored && 0 <= i < queue.entries.len() && queue.entries[i].callsign
                == seen.callsign ==> {
                let entry = after.entries[i];
                let before = queue.entries[i];
                let counted = before.direct_slot_index == Some(seen.slot_index)
                    && before.direct_family == Some(seen.family);
                &&& entry.callsign == seen.callsign
                &&& entry.queued_at == before.queued_at
                &&& entry.ok_after == now
                &&& entry.direct_pending
                &&& counted ==> entry.direct_count == before.direct_count
                &&& !counted && before.direct_count < u32::MAX ==> entry.direct_count
                    == before.direct_count + 1
                &&& entry.direct_snr matches Some(best) && best >= seen.snr && (
                before.direct_snr matches Some(old) ==> best >= old) && (best == seen.snr
                    || before.direct_snr == Some(best))
                &&& entry.direct_slot_index == Some(seen.slot_index)
                &&& entry.direct_family == Some(seen.family)
                &&& entry.direct_at == Some(seen.observed_at)
                &&& entry.direct_text == Some(seen.text)
                &&& entry.direct_json == Some(seen.json)
                &&& entry.start_state == Some(seen.start_state)
                &&& entry.compound_eligible == seen.compound_eligible
                &&& entry.observed_at >= before.observed_at && entry.observed_at >= seen.observed_at
            }
        }),
{
    let q = queue::forgetful(queue, now);
    let (after, answer) = queue::direct_added(queue, seen, now);
    lemma_same_worked(queue, seen.callsign, now);
    lemma_same_worked(q, seen.callsign, now);
    queue::lemma_place_of(queue.entries, seen.callsign);
    let place = queue::place_of(queue.entries, seen.callsign);
    if queue::waits(queue.entries, seen.callsign) {
        assert(queue.entries[place].callsign == seen.callsign);
        if 0 <= i < queue.entries.len() && queue.entries[i].callsign == seen.callsign {
            lemma_place_is(queue.entries, i);
        }
    } else if answer is Ok {
        assert(after.entries.drop_last() =~= queue.entries);
    }
}

/// What is said of a waiting station is the first that stands in the way of calling it: that it was
/// worked, how many seconds its delay still lasts, that it is not heard, not heard lately, or busy;
/// where nothing does, that it is ready, or how often it has called us.
pub proof fn law_why_a_station_waits(
    queue: QueueModel,
    entry: EntryModel,
    tracker: TrackerModel,
    now: Timestamp,
)
    requires
        in_range(now),
    ensures
        ({
            let said = scheduler::status_of(queue, entry, tracker, now);
            let station = tracker.stations[entry.callsign];
            if worked_within_a_day(queue, entry.callsign, now) && (queue.ignore_worked_directs
                || !entry.direct_pending) {
                said.status == "already worked on this band in last 24h"@ && said.heard_at == Some(
                    entry.observed_at,
                )
            } else if now < entry.ok_after {
                said.status == "retry blocked for "@ + text::decimal(
                    ((entry.ok_after - now) / 1_000_000_000) as nat,
                ) + "s"@
            } else if !tracker.stations.contains_key(entry.callsign) {
                said.status == "not currently visible"@
            } else {
                &&& said.heard_at == Some(station.heard_at)
                &&& said.family == Some(station.family)
                &&& said.kind == station.kind
                &&& if !among_last_two(
                    queue.mode,
                    now,
                    station.family,
                    station.slot_index as int,
                ) {
                    said.status == "not heard in last two parity slots"@
                } else if station.kind == StationLastMessageKind::Other {
                    said.status == "last heard message "@ + "other"@ + " is not schedulable"@
                } else if entry.direct_pending {
                    said.status == "direct x"@ + text::decimal(entry.direct_count as nat)
                } else {
                    said.status == "ready"@
                }
            }
        }),
{
    if tracker.stations.contains_key(entry.callsign) {
        let station = tracker.stations[entry.callsign];
        lemma_last_two(queue.mode, now, station.family, station.slot_index as int);
    }
}

/// What the scheduler says it does is what it does: it is off, a contact or tuning holds it, it
/// answers or calls a station, or nobody is to be called.
pub proof fn law_what_the_scheduler_says(
    queue: QueueModel,
    tracker: TrackerModel,
    now: Timestamp,
    qso_busy: bool,
    tune_active: bool,
)
    requires
        queue::sound(queue),
    ensures
        ({
            let (after, sent) = scheduler::scheduled(queue, tracker, now, qso_busy, tune_active);
            if !queue.auto_enabled {
                after.status == "auto disabled"@
            } else if qso_busy {
                after.status == "waiting: qso active"@
            } else if tune_active {
                after.status == "waiting: rig tune active"@
            } else {
                match sent {
                    Some(d) => match d.kind {
                        DispatchKindModel::Station { callsign, mode: QsoStartMode::Direct, .. } => after.status
                            == "dispatching direct "@ + callsign,
                        DispatchKindModel::Station { callsign, .. } => after.status
                            == "dispatching "@ + callsign,
                        DispatchKindModel::Cq { .. } => after.status == "dispatching cq at "@
                            + text::decimal(queue.cq_percent as nat) + "%"@ || after.status
                            == "cq idle roll at "@ + text::decimal(queue.cq_percent as nat) + "%"@,
                    },
                    None => {
                        &&& after.entries.len() == 0 && !queue.cq_enabled ==> after.status
                            == "queue empty"@
                        &&& after.entries.len() > 0 && !queue.pause_cq ==> after.status
                            == "no ready queued stations"@
                    },
                }
            }
        }),
{
    let q = scheduler::brought_up(queue, tracker, now);
    lemma_brought_up_sound(queue, tracker, now);
    lemma_first_ready(q, tracker, now, 0);
    if let Some(i) = scheduler::first_direct(q, now, None) {
        assert(scheduler::is_first_direct(q, now, None, i));
    }
}

/// The list shows the direct calls that call for an answer before all others.
pub proof fn law_direct_calls_are_listed_first(queue: QueueModel, now: Timestamp, i: int, j: int)
    requires
        in_range(now),
        0 <= i < j < scheduler::listed(queue, now).len(),
        calls_for_an_answer(queue, scheduler::listed(queue, now)[j], now),
    ensures
        calls_for_an_answer(queue, scheduler::listed(queue, now)[i], now),
        scheduler::listed(queue, now).to_multiset() == queue.entries.to_multiset(),
{
    law_priority_is_listed_first(queue, now);
    lemma_priority(queue, scheduler::listed(queue, now)[i], now);
    lemma_priority(queue, scheduler::listed(queue, now)[j], now);
}

/// Each slot draws a number below a hundred from its own number, and CQ wins in the slots whose draw
/// is below the share, while it is switched on.
pub proof fn law_draw_of_a_slot(queue: QueueModel, now: Timestamp)
    ensures
        ({
            let product = (slots::slot_index(queue.mode, now) * 1_103_515_245)
                % 18_446_744_073_709_551_616;
            let draw = ((product + 12_345) % 18_446_744_073_709_551_616) % 100;
            &&& 0 <= draw < 100
            &&& scheduler::cq_wins(queue, now) <==> queue.cq_enabled && draw < queue.cq_percent
        }),
{
}

/// A CQ goes out in the slots of the family of the coming slot, or of the other family where the
/// parity was flipped: in that of the slot that begins next, and in every second one from there on.
pub proof fn law_cq_goes_out_in_the_coming_slot(
    queue: QueueModel,
    tracker: TrackerModel,
    now: Timestamp,
    qso_busy: bool,
    tune_active: bool,
)
    requires
        in_range(now),
        scheduler::scheduled(queue, tracker, now, qso_busy, tune_active).1 matches Some(
            DispatchModel { kind: DispatchKindModel::Cq { .. }, .. },
        ),
    ensures
        ({
            let sent = scheduler::scheduled(queue, tracker, now, qso_busy, tune_active).1->0;
            let coming = slots::slot_index(queue.mode, now) + 1;
            &&& sent.kind == (DispatchKindModel::Cq { family: Some(sent.family) })
            &&& !queue.cq_parity_flipped ==> (sent.family == SlotFamily::Even <==> coming % 2 == 0)
            &&& queue.cq_parity_flipped ==> (sent.family == SlotFamily::Even <==> coming % 2 != 0)
        }),
{
    slots::law_slot_holds_its_times(queue.mode, now);
    slots::law_slots_are_counted_from_the_epoch(queue.mode, now);
    let next = slots::next_boundary(queue.mode, now) as i128;
    assert(slots::slot_index(queue.mode, next) == slots::slot_index(queue.mode, now) + 1);
}

/// A queue starts out empty, switched off and on the configured frequency in both families, with the
/// delays in seconds and the share of CQ, at most a hundred per cent, as they are configured.
pub proof fn law_queue_starts_as_configured(
    config: QueueConfig,
    our_call: Seq<char>,
    tx_freq_hz: FloatBits,
    worked: WorkedModel,
)
    ensures
        ({
            let queue = queue::new_queue(config, our_call, tx_freq_hz, worked);
            &&& queue::sound(queue)
            &&& queue.entries.len() == 0
            &&& !queue.auto_enabled
            &&& !queue.cq_parity_flipped
            &&& queue.our_call == our_call
            &&& queue.worked == worked
            &&& queue.even_freq == tx_freq_hz && queue.odd_freq == tx_freq_hz
            &&& queue.no_message_delay == config.no_message_retry_delay_seconds_default
                * 1_000_000_000
            &&& queue.no_forward_delay == config.no_forward_retry_delay_seconds_default
                * 1_000_000_000
            &&& queue.cq_enabled == config.cq_enabled_default
            &&& config.cq_percent_default <= 100 ==> queue.cq_percent == config.cq_percent_default
            &&& queue.cq_percent <= 100
            &&& queue.auto_add_min_count >= 1
            &&& config.auto_add_decoded_min_count_5m_default >= 1 ==> queue.auto_add_min_count
                == config.auto_add_decoded_min_count_5m_default
            &&& queue.auto_add_all == config.auto_add_all_decoded_calls_default
            &&& queue.auto_add_direct == config.auto_add_direct_calls_default
            &&& queue.ignore_worked_directs
                == config.ignore_direct_calls_from_recently_worked_default
            &&& queue.pause_cq == config.pause_cq_when_few_unique_calls_default
            &&& queue.pause_cq_below == config.cq_pause_min_unique_calls_5m_default
            &&& queue.compound_rr73 == config.use_compound_rr73_handoff_default
            &&& queue.compound_73_once == config.use_compound_73_once_handoff_default
            &&& queue.compound_for_signal == config.use_compound_for_direct_signal_callers_default
        }),
{
}

/// A direct call from a slot waits for an answer exactly when its station waits with it, its delay
/// is over, and it is not to be ignored because its station was worked.
pub proof fn law_direct_call_from_a_slot(
    queue: QueueModel,
    entry: EntryModel,
    slot_start: Timestamp,
    now: Timestamp,
)
    ensures
        scheduler::waiting_direct_in_slot(queue, entry, slot_start, now) <==> {
            &&& entry.direct_pending
            &&& entry.ok_after <= now
            &&& entry.direct_slot_index matches Some(index) && index == slots::slot_index(
                queue.mode,
                slot_start,
            )
            &&& !queue.ignore_worked_directs || !worked_within_a_day(queue, entry.callsign, now)
        },
{
    lemma_same_worked(queue, entry.callsign, now);
}

/// While nothing is sent because few stations are heard, the scheduler says so, with how many are
/// heard and how many are asked for.
pub proof fn law_pause_is_told(queue: QueueModel, activity: nat)
    requires
        queue.pause_cq,
        activity < queue.pause_cq_below,
        queue.entries.len() > 0 || queue.cq_enabled,
    ensures
        scheduler::idle_status(queue, activity) == (if queue.entries.len() == 0 {
            "idle; cq paused at "@
        } else {
            "no ready queued stations; cq paused at "@
        }) + (text::decimal(activity) + "/"@ + (text::decimal(queue.pause_cq_below as nat)
            + " unique calls in 5m"@)),
{
}

/// The page shows of the queue its settings and, of each station in the order of the list, whether
/// it is ready, whether it has called us, how often, and whether it goes first.
pub proof fn law_what_is_shown_of_the_queue(
    shown: WebQueueSnapshot,
    queue: QueueModel,
    tracker: TrackerModel,
    now: Timestamp,
    k: int,
)
    requires
        in_range(now),
        scheduler::shows_queue(shown, queue, tracker, now),
        0 <= k < scheduler::listed(queue, now).len(),
    ensures
        shown.auto_enabled == queue.auto_enabled,
        shown.cq_enabled == queue.cq_enabled,
        shown.cq_percent == queue.cq_percent,
        shown.no_message_retry_delay_seconds == queue.no_message_delay / 1_000_000_000,
        shown.no_forward_retry_delay_seconds == queue.no_forward_delay / 1_000_000_000,
        shown.even_tx_freq_hz == queue.even_freq,
        shown.odd_tx_freq_hz == queue.odd_freq,
        shown.next_cq_parity_flipped == queue.cq_parity_flipped,
        shown.scheduler_status@ == queue.status,
        shown.entries@.len() == scheduler::listed(queue, now).len(),
        ({
            let entry = scheduler::listed(queue, now)[k];
            let row = shown.entries@[k];
            &&& row.callsign@ == entry.callsign
            &&& row.direct_pending == entry.direct_pending
            &&& row.direct_count == entry.direct_count
            &&& row.priority_direct == calls_for_an_answer(queue, entry, now)
            &&& row.ready == scheduler::status_of(queue, entry, tracker, now).ready
            &&& row.status@ == scheduler::status_of(queue, entry, tracker, now).status
            &&& row.queued_at@ == clock::written(entry.queued_at, clock::TimeStyle::Clock)
            &&& row.ok_to_schedule_after@ == clock::written(entry.ok_after, clock::TimeStyle::Clock)
        }),
{
    let entry = scheduler::listed(queue, now)[k];
    assert(scheduler::shows_entry(shown.entries@[k], queue, entry, tracker, now));
    lemma_priority(queue, entry, now);
}

} // verus!
