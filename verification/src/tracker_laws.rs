//! What holds of the tracker whatever it hears.

use vstd::prelude::*;

use crate::clock;
use crate::clock::Timestamp;
use crate::message;
use crate::message::{DecodedMessage, StructuredCallValue, StructuredMessage};
use crate::rank;
use crate::slots;
use crate::slots::DecodeStage;
use crate::tracker;
use crate::tracker::{
    CompletedModel, DirectCallModel, HashNames, LogModel, PeerModel, StationModel, TrackerModel,
    WebStationSummary,
};

verus! {

/// No two lines of the log are of one sender and one slot.
pub open spec fn one_line_per_slot(logs: Seq<LogModel>) -> bool {
    forall|i: int, j: int|
        0 <= i < j < logs.len() ==> (#[trigger] logs[i]).sender != (#[trigger] logs[j]).sender
            || logs[i].slot_index != logs[j].slot_index
}

proof fn lemma_log_place(logs: Seq<LogModel>, sender: Seq<char>, slot_index: u64)
    ensures
        0 <= tracker::log_place(logs, sender, slot_index) <= logs.len(),
        forall|i: int|
            0 <= i < tracker::log_place(logs, sender, slot_index) ==> (#[trigger] logs[i]).sender != sender
                || logs[i].slot_index != slot_index,
        tracker::log_place(logs, sender, slot_index) < logs.len() ==> {
            let l = logs[tracker::log_place(logs, sender, slot_index)];
            l.sender == sender && l.slot_index == slot_index
        },
    decreases logs.len(),
{
    if logs.len() > 0 && !(logs[0].sender == sender && logs[0].slot_index == slot_index) {
        let rest = logs.drop_first();
        lemma_log_place(rest, sender, slot_index);
        assert forall|i: int| 0 <= i < tracker::log_place(logs, sender, slot_index) implies (
        #[trigger] logs[i]).sender != sender || logs[i].slot_index != slot_index by {
            if i > 0 {
                assert(rest[i - 1] == logs[i]);
            }
        }
    }
}

proof fn lemma_fresh_logs(logs: Seq<LogModel>, now: Timestamp)
    ensures
        exists|n: int| 0 <= n <= logs.len() && tracker::fresh_logs(logs, now) == #[trigger] logs.skip(n),
    decreases logs.len(),
{
    if logs.len() > 0 && !tracker::kept(now, logs[0].at) {
        lemma_fresh_logs(logs.drop_first(), now);
        let n = choose|n: int|
            0 <= n <= logs.drop_first().len() && tracker::fresh_logs(logs.drop_first(), now)
                == #[trigger] logs.drop_first().skip(n);
        assert(logs.drop_first().skip(n) =~= logs.skip(n + 1));
    } else {
        assert(logs.skip(0) =~= logs);
    }
}

/// Hearing a message keeps the log at one line for each sender and slot.
pub proof fn law_log_has_one_line_per_slot(
    tracker: TrackerModel,
    at: Timestamp,
    stage: DecodeStage,
    decode: DecodedMessage,
)
    requires
        one_line_per_slot(tracker.logs),
    ensures
        one_line_per_slot(tracker::heard(tracker, at, stage, decode).logs),
{
    if let Some(sender) = message::sender_of(decode.message) {
        let slot_index = slots::slot_index(tracker.mode, at) as u64;
        lemma_log_place(tracker.logs, sender, slot_index);
        let place = tracker::log_place(tracker.logs, sender, slot_index);
        let after = tracker::heard(tracker, at, stage, decode);
        if after != tracker {
            assert forall|i: int, j: int| 0 <= i < j < after.logs.len() implies (
            #[trigger] after.logs[i]).sender != (#[trigger] after.logs[j]).sender
                || after.logs[i].slot_index != after.logs[j].slot_index by {
                if place == tracker.logs.len() {
                    if j < tracker.logs.len() {
                        assert(tracker.logs[i].sender != tracker.logs[j].sender
                            || tracker.logs[i].slot_index != tracker.logs[j].slot_index);
                    }
                } else {
                    assert(tracker.logs[i].sender != tracker.logs[j].sender
                        || tracker.logs[i].slot_index != tracker.logs[j].slot_index);
                }
            }
        }
    }
}

proof fn lemma_heard_all_one_line(
    tracker: TrackerModel,
    at: Timestamp,
    stage: DecodeStage,
    decodes: Seq<DecodedMessage>,
    order: Seq<int>,
)
    requires
        one_line_per_slot(tracker.logs),
    ensures
        one_line_per_slot(tracker::heard_all(tracker, at, stage, decodes, order).logs),
    decreases order.len(),
{
    if order.len() > 0 {
        lemma_heard_all_one_line(tracker, at, stage, decodes, order.drop_last());
        law_log_has_one_line_per_slot(
            tracker::heard_all(tracker, at, stage, decodes, order.drop_last()),
            at,
            stage,
            decodes[order.last()],
        );
    }
}

/// Taking in the messages of a stage keeps the log at one line for each sender and slot.
pub proof fn law_ingest_keeps_one_line_per_slot(
    tracker: TrackerModel,
    at: Timestamp,
    stage: DecodeStage,
    decodes: Seq<DecodedMessage>,
)
    requires
        one_line_per_slot(tracker.logs),
    ensures
        one_line_per_slot(tracker::ingested(tracker, at, stage, decodes).logs),
{
    let named = TrackerModel { names: tracker::named_by_all(tracker.names, decodes), ..tracker };
    let all = tracker::heard_all(named, at, stage, decodes, tracker::taking_order(decodes));
    lemma_heard_all_one_line(named, at, stage, decodes, tracker::taking_order(decodes));
    lemma_fresh_logs(all.logs, at);
    let n = choose|n: int|
        0 <= n <= all.logs.len() && tracker::fresh_logs(all.logs, at) == #[trigger] all.logs.skip(n);
    let left = all.logs.skip(n);
    assert forall|i: int, j: int| 0 <= i < j < left.len() implies (#[trigger] left[i]).sender != (
    #[trigger] left[j]).sender || left[i].slot_index != left[j].slot_index by {
        assert(left[i] == all.logs[i + n]);
        assert(left[j] == all.logs[j + n]);
    }
}

/// Once a station has been heard, a message of it from an earlier slot, or from an earlier stage of
/// the same slot, changes nothing.
pub proof fn law_earlier_message_changes_nothing(
    tracker: TrackerModel,
    at: Timestamp,
    stage: DecodeStage,
    decode: DecodedMessage,
    late_at: Timestamp,
    late_stage: DecodeStage,
    late: DecodedMessage,
)
    requires
        message::sender_of(decode.message) is Some,
        message::sender_of(late.message) == message::sender_of(decode.message),
        slots::slot_index(tracker.mode, late_at) < slots::slot_index(tracker.mode, at) || (
        slots::slot_index(tracker.mode, late_at) == slots::slot_index(tracker.mode, at)
            && late_stage.order() < stage.order()),
    ensures
        tracker::heard(tracker::heard(tracker, at, stage, decode), late_at, late_stage, late) == tracker::heard(
            tracker,
            at,
            stage,
            decode,
        ),
{
}

/// A message of the same sender in the same slot, from the same stage or a later one, takes the
/// place of the line before it: the log grows by none.
pub proof fn law_later_stage_replaces_line(
    tracker: TrackerModel,
    at: Timestamp,
    stage: DecodeStage,
    decode: DecodedMessage,
    later_stage: DecodeStage,
    later: DecodedMessage,
)
    requires
        message::sender_of(decode.message) is Some,
        message::sender_of(later.message) == message::sender_of(decode.message),
        stage.order() <= later_stage.order(),
        tracker::heard(tracker, at, stage, decode) != tracker,
    ensures
        ({
            let first = tracker::heard(tracker, at, stage, decode);
            let second = tracker::heard(first, at, later_stage, later);
            let sender = message::sender_of(decode.message)->0;
            let place = tracker::log_place(first.logs, sender, slots::slot_index(tracker.mode, at) as u64);
            &&& second.logs.len() == first.logs.len()
            &&& 0 <= place < second.logs.len()
            &&& first.logs[place].stage.order() <= later_stage.order() ==> second.logs[place].stage
                == later_stage && second.logs[place].text == later.text@
            &&& second.stations[sender].stage == later_stage
            &&& second.stations[sender].text == later.text@
        }),
{
    let sender = message::sender_of(decode.message)->0;
    let slot_index = slots::slot_index(tracker.mode, at) as u64;
    let first = tracker::heard(tracker, at, stage, decode);
    lemma_log_place(tracker.logs, sender, slot_index);
    lemma_log_place(first.logs, sender, slot_index);
    let before = tracker::log_place(tracker.logs, sender, slot_index);
    if before == tracker.logs.len() {
        assert(first.logs[before].sender == sender && first.logs[before].slot_index == slot_index);
    } else {
        assert(first.logs[before].sender == sender && first.logs[before].slot_index == slot_index);
    }
}

/// A message touches no station but its sender.
pub proof fn law_message_touches_its_sender_only(
    tracker: TrackerModel,
    at: Timestamp,
    stage: DecodeStage,
    decode: DecodedMessage,
    other: Seq<char>,
)
    requires
        message::sender_of(decode.message) != Some(other),
    ensures
        tracker::station_at(tracker::heard(tracker, at, stage, decode), other) == tracker::station_at(tracker, other),
{
}

/// Every message with a known sender is taken once; messages of one sender are taken together, and
/// those that end a contact after the others.
pub proof fn law_taking_order(decodes: Seq<DecodedMessage>)
    ensures
        rank::is_ranking(
            tracker::taking_order(decodes),
            tracker::with_sender(decodes),
            |i: int, j: int| tracker::taken_before(decodes, i, j),
        ),
{
    let precedes = |i: int, j: int| tracker::taken_before(decodes, i, j);
    let all = Set::new(|i: int| 0 <= i < decodes.len());
    tracker::lemma_taking_order_strict(decodes);
    assert forall|i: int| tracker::with_sender(decodes).contains(i) implies all.contains(i) by {}
    assert(tracker::with_sender(decodes).subset_of(vstd::set_lib::set_int_range(0, decodes.len() as int)));
    vstd::set_lib::lemma_int_range(0, decodes.len() as int);
    vstd::set_lib::lemma_len_subset(
        tracker::with_sender(decodes),
        vstd::set_lib::set_int_range(0, decodes.len() as int),
    );
    rank::lemma_ranking_exists(tracker::with_sender(decodes), precedes);
}

/// After a message that ends a contact its sender is in none, and what it was in is on record.
pub proof fn law_ending_message_leaves_no_contact(
    tracker: TrackerModel,
    at: Timestamp,
    stage: DecodeStage,
    decode: DecodedMessage,
    sender: Seq<char>,
)
    requires
        message::ends_qso(decode.message),
        message::sender_of(decode.message) == Some(sender),
        !(tracker::station_at(tracker, sender) matches Some(b) && tracker::outdated(
            b,
            slots::slot_index(tracker.mode, at),
            stage,
        )),
    ensures
        ({
            let after = tracker::heard(tracker, at, stage, decode).stations[sender];
            &&& after.active is None
            &&& match tracker::station_at(tracker, sender) {
                Some(b) => match b.active {
                    Some((since, peer)) => after.last_ended == Some(at) && after.history
                        == b.history.push(
                        CompletedModel { started_at: since, ended_at: at, peer },
                    ),
                    None => after.history == b.history,
                },
                None => after.history.len() == 0,
            }
        }),
{
}

/// A peer that has been resolved resolves to itself, so that being the same peer is an equivalence.
pub proof fn law_resolving_twice(names: HashNames, peer: PeerModel)
    ensures
        tracker::resolved(names, tracker::resolved(names, peer)) == tracker::resolved(names, peer),
        tracker::same_peer(names, peer, tracker::resolved(names, peer)),
        tracker::same_peer(names, peer, tracker::preferred_peer(names, peer, peer)),
{
}

proof fn lemma_heard_displayable(
    tracker: TrackerModel,
    at: Timestamp,
    stage: DecodeStage,
    decode: DecodedMessage,
)
    requires
        tracker::tracker_displayable(tracker),
        clock::displayable(at),
    ensures
        tracker::tracker_displayable(tracker::heard(tracker, at, stage, decode)),
{
    if let Some(sender) = message::sender_of(decode.message) {
        let after = tracker::heard(tracker, at, stage, decode);
        lemma_log_place(tracker.logs, sender, slots::slot_index(tracker.mode, at) as u64);
        if after != tracker {
            assert forall|call: Seq<char>| #[trigger] after.stations.contains_key(call) implies tracker::station_displayable(
                after.stations[call],
            ) by {
                if call == sender {
                    let station = after.stations[sender];
                    if tracker.stations.contains_key(sender) {
                        let b = tracker.stations[sender];
                        assert(tracker::station_displayable(b));
                        assert forall|i: int| 0 <= i < station.history.len() implies clock::displayable(
                            (#[trigger] station.history[i]).started_at,
                        ) && clock::displayable(station.history[i].ended_at) by {
                            if i < b.history.len() {
                                assert(b.history[i] == station.history[i]);
                            }
                        }
                    }
                } else {
                    assert(tracker.stations.contains_key(call));
                }
            }
        }
    }
}

proof fn lemma_heard_all_displayable(
    tracker: TrackerModel,
    at: Timestamp,
    stage: DecodeStage,
    decodes: Seq<DecodedMessage>,
    order: Seq<int>,
)
    requires
        tracker::tracker_displayable(tracker),
        clock::displayable(at),
    ensures
        tracker::tracker_displayable(tracker::heard_all(tracker, at, stage, decodes, order)),
    decreases order.len(),
{
    if order.len() > 0 {
        lemma_heard_all_displayable(tracker, at, stage, decodes, order.drop_last());
        lemma_heard_displayable(
            tracker::heard_all(tracker, at, stage, decodes, order.drop_last()),
            at,
            stage,
            decodes[order.last()],
        );
    }
}

/// Hearing a stage at a time that can be shown leaves only such times.
pub proof fn law_hearing_keeps_times_displayable(
    tracker: TrackerModel,
    at: Timestamp,
    stage: DecodeStage,
    decodes: Seq<DecodedMessage>,
)
    requires
        tracker::tracker_displayable(tracker),
        clock::displayable(at),
    ensures
        tracker::tracker_displayable(tracker::heard_stage(tracker, at, stage, decodes)),
{
    let named = TrackerModel { names: tracker::named_by_all(tracker.names, decodes), ..tracker };
    assert(tracker::tracker_displayable(named));
    lemma_heard_all_displayable(named, at, stage, decodes, tracker::taking_order(decodes));
}

/// A tracker that is fed at times that can be shown holds only such times.
pub proof fn law_ingest_keeps_times_displayable(
    tracker: TrackerModel,
    at: Timestamp,
    stage: DecodeStage,
    decodes: Seq<DecodedMessage>,
)
    requires
        tracker::tracker_displayable(tracker),
        clock::displayable(at),
    ensures
        tracker::tracker_displayable(tracker::ingested(tracker, at, stage, decodes)),
{
    law_hearing_keeps_times_displayable(tracker, at, stage, decodes);
    let all = tracker::heard_stage(tracker, at, stage, decodes);
    let after = tracker::pruned(all, at);
    lemma_fresh_logs(all.logs, at);
    let n = choose|n: int|
        0 <= n <= all.logs.len() && tracker::fresh_logs(all.logs, at) == #[trigger] all.logs.skip(n);
    assert forall|i: int| 0 <= i < after.logs.len() implies clock::displayable(
        (#[trigger] after.logs[i]).at,
    ) by {
        assert(after.logs[i] == all.logs[i + n]);
    }
    assert forall|call: Seq<char>| #[trigger] after.stations.contains_key(call) implies tracker::station_displayable(
        after.stations[call],
    ) by {
        assert(all.stations.contains_key(call));
        let b = all.stations[call];
        let station = after.stations[call];
        let keep = |q: CompletedModel| tracker::kept(at, q.ended_at);
        assert(station.history == b.history.filter(keep));
        assert forall|i: int| 0 <= i < station.history.len() implies clock::displayable(
            (#[trigger] station.history[i]).started_at,
        ) && clock::displayable(station.history[i].ended_at) by {
            assert(station.history.contains(station.history[i]));
            b.history.lemma_filter_contains_rev(keep, station.history[i]);
            let k = b.history.index_of(station.history[i]);
            assert(b.history[k] == station.history[i]);
        }
    }
}

/// Nothing that has been heard more than an hour ago is kept, and every station heard since is, with
/// its contacts that ended since.
pub proof fn law_pruning_keeps_the_last_hour(tracker: TrackerModel, now: Timestamp, call: Seq<char>)
    ensures
        tracker::pruned(tracker, now).stations.contains_key(call) <==> tracker.stations.contains_key(call)
            && now - tracker.stations[call].heard_at <= 3_600_000_000_000,
        tracker::pruned(tracker, now).logs.len() > 0 ==> now - tracker::pruned(tracker, now).logs[0].at
            <= 3_600_000_000_000,
        tracker.logs.len() > 0 && now - tracker.logs[0].at <= 3_600_000_000_000 ==> tracker::pruned(
            tracker,
            now,
        ).logs == tracker.logs,
        tracker::pruned(tracker, now).stations.contains_key(call) ==> {
            let before = tracker.stations[call];
            let after = tracker::pruned(tracker, now).stations[call];
            &&& after.active == before.active
            &&& after.heard_at == before.heard_at
            &&& forall|c: CompletedModel| #[trigger]
                after.history.contains(c) <==> before.history.contains(c) && now - c.ended_at
                    <= 3_600_000_000_000
        },
    decreases tracker.logs.len(),
{
    if tracker.logs.len() > 0 && !tracker::kept(now, tracker.logs[0].at) {
        law_pruning_keeps_the_last_hour(
            TrackerModel { logs: tracker.logs.drop_first(), ..tracker },
            now,
            call,
        );
    }
    if tracker::pruned(tracker, now).stations.contains_key(call) {
        let before = tracker.stations[call].history;
        let keep = |q: CompletedModel| tracker::kept(now, q.ended_at);
        let after = before.filter(keep);
        assert forall|c: CompletedModel| #[trigger] after.contains(c) <==> before.contains(c) && now
            - c.ended_at <= 3_600_000_000_000 by {
            if after.contains(c) {
                before.lemma_filter_contains_rev(keep, c);
                before.lemma_filter_pred(keep, after.index_of(c));
            }
            if before.contains(c) && keep(c) {
                before.lemma_filter_contains(keep, before.index_of(c));
            }
        }
    }
}

/// What pruning takes out of the log are the aged calls: together with those that stay they are all
/// direct calls of the log, in their order.
pub proof fn law_pruning_parts_the_calls(tracker: TrackerModel, our_call: Seq<char>, now: Timestamp)
    ensures
        tracker::aged_calls(tracker, our_call, now) + tracker::calls_to_us(
            tracker::pruned(tracker, now),
            our_call,
        ) == tracker::calls_to_us(tracker, our_call),
{
    let logs = tracker.logs;
    let ours = |l: LogModel|
        l.at >= clock::FIRST_INSTANT && tracker::peer_text_opt(tracker.names, l.peer) == Some(
            our_call,
        );
    let line = |l: LogModel| tracker::direct_line(l, our_call);
    lemma_fresh_logs(logs, now);
    let n = choose|n: int|
        0 <= n <= logs.len() && tracker::fresh_logs(logs, now) == #[trigger] logs.skip(n);
    assert(tracker::aged_logs(logs, now) =~= logs.take(n));
    assert(logs.take(n) + logs.skip(n) =~= logs);
    Seq::filter_distributes_over_add(logs.take(n), logs.skip(n), ours);
    assert(logs.filter(ours).map_values(line) =~= logs.take(n).filter(ours).map_values(line)
        + logs.skip(n).filter(ours).map_values(line));
}

/// Every line of another slot than the one that is heard stands where it stood.
proof fn lemma_heard_all_keeps_other_slots(
    tracker: TrackerModel,
    at: Timestamp,
    stage: DecodeStage,
    decodes: Seq<DecodedMessage>,
    order: Seq<int>,
    i: int,
)
    requires
        0 <= i < tracker.logs.len(),
        tracker.logs[i].slot_index != slots::slot_index(tracker.mode, at) as u64,
    ensures
        tracker::heard_all(tracker, at, stage, decodes, order).mode == tracker.mode,
        tracker::heard_all(tracker, at, stage, decodes, order).names == tracker.names,
        i < tracker::heard_all(tracker, at, stage, decodes, order).logs.len(),
        tracker::heard_all(tracker, at, stage, decodes, order).logs[i] == tracker.logs[i],
    decreases order.len(),
{
    if order.len() > 0 {
        lemma_heard_all_keeps_other_slots(tracker, at, stage, decodes, order.drop_last(), i);
        let before = tracker::heard_all(tracker, at, stage, decodes, order.drop_last());
        if let Some(sender) = message::sender_of(decodes[order.last()].message) {
            lemma_log_place(before.logs, sender, slots::slot_index(tracker.mode, at) as u64);
        }
    }
}

/// A message that was known to be for us goes on being listed: hearing another slot leaves it among
/// the direct calls of the log.
pub proof fn law_direct_call_stays_in_the_log(
    tracker: TrackerModel,
    at: Timestamp,
    stage: DecodeStage,
    decodes: Seq<DecodedMessage>,
    our_call: Seq<char>,
    i: int,
)
    requires
        0 <= i < tracker.logs.len(),
        tracker.logs[i].peer == Some(PeerModel::Callsign(our_call)),
        tracker.logs[i].at >= clock::FIRST_INSTANT,
        tracker.logs[i].slot_index != slots::slot_index(tracker.mode, at) as u64,
    ensures
        tracker::calls_to_us(tracker::heard_stage(tracker, at, stage, decodes), our_call).contains(
            tracker::direct_line(tracker.logs[i], our_call),
        ),
{
    let named = TrackerModel { names: tracker::named_by_all(tracker.names, decodes), ..tracker };
    lemma_heard_all_keeps_other_slots(
        named,
        at,
        stage,
        decodes,
        tracker::taking_order(decodes),
        i,
    );
    let after = tracker::heard_stage(tracker, at, stage, decodes);
    let ours = |l: LogModel|
        l.at >= clock::FIRST_INSTANT && tracker::peer_text_opt(after.names, l.peer) == Some(
            our_call,
        );
    let line = |l: LogModel| tracker::direct_line(l, our_call);
    assert(ours(after.logs[i]));
    after.logs.lemma_filter_contains(ours, i);
    let found = after.logs.filter(ours);
    let k = found.index_of(after.logs[i]);
    assert(found.map_values(line)[k] == line(after.logs[i]));
}

/// The tracker once messages have been heard one after the other, each at its time and from its
/// stage.
pub open spec fn heard_in_turn(
    tracker: TrackerModel,
    times: Seq<Timestamp>,
    stages: Seq<DecodeStage>,
    decodes: Seq<DecodedMessage>,
) -> TrackerModel
    decreases decodes.len(),
{
    if decodes.len() == 0 {
        tracker
    } else {
        tracker::heard(
            heard_in_turn(tracker, times.drop_last(), stages.drop_last(), decodes.drop_last()),
            times.last(),
            stages.last(),
            decodes.last(),
        )
    }
}

/// The message is news of its sender: nothing of a later slot, or of a later stage of the same slot,
/// has been heard of it.
pub open spec fn is_news(
    tracker: TrackerModel,
    at: Timestamp,
    stage: DecodeStage,
    sender: Seq<char>,
) -> bool {
    tracker.stations.contains_key(sender) ==> {
        let last = tracker.stations[sender];
        last.slot_index < slots::slot_index(tracker.mode, at) || (last.slot_index
            == slots::slot_index(tracker.mode, at) && (stage == DecodeStage::Full || last.stage
            == stage || last.stage == DecodeStage::Early41))
    }
}

/// While a station goes on sending to the same peer, with messages that do not end the contact, its
/// contact began with the first of these messages: neither later ones of it nor those of others move
/// the start, and nothing is put on record yet.
pub proof fn law_contact_keeps_its_start(
    tracker: TrackerModel,
    times: Seq<Timestamp>,
    stages: Seq<DecodeStage>,
    decodes: Seq<DecodedMessage>,
    sender: Seq<char>,
    peer: PeerModel,
)
    requires
        decodes.len() > 0,
        times.len() == decodes.len(),
        stages.len() == decodes.len(),
        message::sender_of(decodes[0].message) == Some(sender),
        tracker::first_peer(tracker.names, decodes[0].message) == Some(peer),
        is_news(tracker, times[0], stages[0], sender),
        tracker.stations.contains_key(sender) ==> tracker.stations[sender].active is None,
        forall|k: int|
            0 <= k < decodes.len() && message::sender_of((#[trigger] decodes[k]).message) == Some(
                sender,
            ) ==> !message::ends_qso(decodes[k].message) && (tracker::first_peer(
                tracker.names,
                decodes[k].message,
            ) is None || tracker::first_peer(tracker.names, decodes[k].message) == Some(peer)),
    ensures
        ({
            let after = heard_in_turn(tracker, times, stages, decodes);
            &&& after.names == tracker.names
            &&& after.mode == tracker.mode
            &&& after.stations.contains_key(sender)
            &&& after.stations[sender].active matches Some((since, known)) && since == times[0]
                && tracker::resolved(tracker.names, known) == tracker::resolved(tracker.names, peer)
            &&& after.stations[sender].history == (if tracker.stations.contains_key(sender) {
                tracker.stations[sender].history
            } else {
                Seq::empty()
            })
        }),
    decreases decodes.len(),
{
    let earlier = decodes.drop_last();
    let before = heard_in_turn(tracker, times.drop_last(), stages.drop_last(), earlier);
    law_resolving_twice(tracker.names, peer);
    assert(decodes[decodes.len() - 1] == decodes.last());
    if decodes.len() > 1 {
        assert forall|k: int|
            0 <= k < earlier.len() && message::sender_of((#[trigger] earlier[k]).message) == Some(
                sender,
            ) implies !message::ends_qso(earlier[k].message) && (tracker::first_peer(
            tracker.names,
            earlier[k].message,
        ) is None || tracker::first_peer(tracker.names, earlier[k].message) == Some(peer)) by {
            assert(earlier[k] == decodes[k]);
        }
        law_contact_keeps_its_start(
            tracker,
            times.drop_last(),
            stages.drop_last(),
            earlier,
            sender,
            peer,
        );
        if message::sender_of(decodes.last().message) == Some(sender) {
            let (since, known) = before.stations[sender].active->0;
            law_resolving_twice(tracker.names, known);
        } else {
            law_message_touches_its_sender_only(
                before,
                times.last(),
                stages.last(),
                decodes.last(),
                sender,
            );
        }
    } else {
        assert(before == tracker);
        assert(times.last() == times[0] && stages.last() == stages[0]);
    }
}

/// A contact is put on record when a message ends it: from the first message to the peer until the
/// one that ends it.
pub proof fn law_completed_contact_runs_from_its_first_message(
    tracker: TrackerModel,
    times: Seq<Timestamp>,
    stages: Seq<DecodeStage>,
    decodes: Seq<DecodedMessage>,
    sender: Seq<char>,
    peer: PeerModel,
    ended_at: Timestamp,
    stage: DecodeStage,
    closing: DecodedMessage,
)
    requires
        decodes.len() > 0,
        times.len() == decodes.len(),
        stages.len() == decodes.len(),
        message::sender_of(decodes[0].message) == Some(sender),
        tracker::first_peer(tracker.names, decodes[0].message) == Some(peer),
        is_news(tracker, times[0], stages[0], sender),
        tracker.stations.contains_key(sender) ==> tracker.stations[sender].active is None,
        forall|k: int|
            0 <= k < decodes.len() && message::sender_of((#[trigger] decodes[k]).message) == Some(
                sender,
            ) ==> !message::ends_qso(decodes[k].message) && (tracker::first_peer(
                tracker.names,
                decodes[k].message,
            ) is None || tracker::first_peer(tracker.names, decodes[k].message) == Some(peer)),
        message::sender_of(closing.message) == Some(sender),
        message::ends_qso(closing.message),
        is_news(heard_in_turn(tracker, times, stages, decodes), ended_at, stage, sender),
    ensures
        ({
            let after = tracker::heard(
                heard_in_turn(tracker, times, stages, decodes),
                ended_at,
                stage,
                closing,
            ).stations[sender];
            &&& after.active is None
            &&& after.last_ended == Some(ended_at)
            &&& after.history.len() > 0
            &&& after.history.last().started_at == times[0]
            &&& after.history.last().ended_at == ended_at
            &&& tracker::resolved(tracker.names, after.history.last().peer) == tracker::resolved(
                tracker.names,
                peer,
            )
            &&& after.history.drop_last() == (if tracker.stations.contains_key(sender) {
                tracker.stations[sender].history
            } else {
                Seq::empty()
            })
        }),
{
    law_contact_keeps_its_start(tracker, times, stages, decodes, sender, peer);
    let before = heard_in_turn(tracker, times, stages, decodes);
    let after = tracker::heard(before, ended_at, stage, closing).stations[sender];
    assert(after.history.drop_last() =~= before.stations[sender].history);
}

/// A station that turns to another peer has ended its contact with the first and begun one with the
/// other.
pub proof fn law_turning_to_another_peer(
    tracker: TrackerModel,
    at: Timestamp,
    stage: DecodeStage,
    decode: DecodedMessage,
    sender: Seq<char>,
    peer: PeerModel,
)
    requires
        message::sender_of(decode.message) == Some(sender),
        !message::ends_qso(decode.message),
        tracker::first_peer(tracker.names, decode.message) == Some(peer),
        is_news(tracker, at, stage, sender),
        tracker.stations.contains_key(sender),
        tracker.stations[sender].active matches Some((since, known)) && tracker::resolved(
            tracker.names,
            known,
        ) != tracker::resolved(tracker.names, peer),
    ensures
        ({
            let before = tracker.stations[sender];
            let after = tracker::heard(tracker, at, stage, decode).stations[sender];
            &&& after.active == Some((at, peer))
            &&& after.history == before.history.push(
                CompletedModel {
                    started_at: (before.active->0).0,
                    ended_at: at,
                    peer: (before.active->0).1,
                },
            )
        }),
{
}

/// A message that is news is what its sender was last heard with, and stands in the log; one that is
/// not, or that does not tell its sender, changes nothing.
pub proof fn law_last_message_is_kept(
    tracker: TrackerModel,
    at: Timestamp,
    stage: DecodeStage,
    decode: DecodedMessage,
)
    ensures
        ({
            let after = tracker::heard(tracker, at, stage, decode);
            match message::sender_of(decode.message) {
                Some(sender) => if is_news(tracker, at, stage, sender) {
                    let station = after.stations[sender];
                    &&& after.stations.dom() == tracker.stations.dom().insert(sender)
                    &&& station.heard_at == at
                    &&& station.slot_index == slots::slot_index(tracker.mode, at)
                    &&& station.family == slots::slot_family(tracker.mode, at)
                    &&& station.stage == stage
                    &&& station.freq == decode.freq_hz
                    &&& station.snr == decode.snr_db
                    &&& station.text == decode.text@
                    &&& station.json == decode.structured_json@
                    &&& station.kind == message::message_kind(decode.message)
                    &&& exists|i: int|
                        0 <= i < after.logs.len() && (#[trigger] after.logs[i]).sender == sender
                            && after.logs[i].slot_index == slots::slot_index(tracker.mode, at)
                    &&& (forall|i: int|
                        0 <= i < tracker.logs.len() ==> (#[trigger] tracker.logs[i]).sender != sender
                            || tracker.logs[i].slot_index != slots::slot_index(tracker.mode, at))
                        ==> {
                        let line = after.logs.last();
                        &&& after.logs.drop_last() == tracker.logs
                        &&& line.at == at
                        &&& line.sender == sender
                        &&& line.stage == stage
                        &&& line.snr == decode.snr_db
                        &&& line.dt == decode.dt_seconds
                        &&& line.freq == decode.freq_hz
                        &&& line.text == decode.text@
                    }
                } else {
                    after == tracker
                },
                None => after == tracker,
            }
        }),
{
    if let Some(sender) = message::sender_of(decode.message) {
        let slot_index = slots::slot_index(tracker.mode, at) as u64;
        assert(slot_index == slots::slot_index(tracker.mode, at));
        let after = tracker::heard(tracker, at, stage, decode);
        lemma_log_place(tracker.logs, sender, slot_index);
        let place = tracker::log_place(tracker.logs, sender, slot_index);
        if is_news(tracker, at, stage, sender) {
            assert(after.stations.dom() =~= tracker.stations.dom().insert(sender));
            assert(after.logs[place].sender == sender);
            if place == tracker.logs.len() {
                assert(after.logs.drop_last() =~= tracker.logs);
            }
        }
    }
}

/// A message is among the direct calls to a station exactly when the log holds it and it was
/// addressed to that station, by its call or by a hash that is known to stand for it.
pub proof fn law_which_lines_are_direct_calls(
    tracker: TrackerModel,
    our_call: Seq<char>,
    since: Timestamp,
    call: DirectCallModel,
)
    ensures
        tracker::direct_calls(tracker, our_call, since).contains(call) <==> exists|i: int|
            0 <= i < tracker.logs.len() && (#[trigger] tracker.logs[i]).at >= since && (
            tracker.logs[i].peer matches Some(peer) && tracker::peer_text(tracker.names, peer)
                == our_call) && call == tracker::direct_line(tracker.logs[i], our_call),
{
    let ours = |l: LogModel|
        l.at >= since && tracker::peer_text_opt(tracker.names, l.peer) == Some(our_call);
    let line = |l: LogModel| tracker::direct_line(l, our_call);
    let found = tracker.logs.filter(ours);
    let calls = tracker::direct_calls(tracker, our_call, since);
    assert(calls == found.map_values(line));
    if calls.contains(call) {
        let k = calls.index_of(call);
        tracker.logs.lemma_filter_pred(ours, k);
        assert(found.contains(found[k]));
        tracker.logs.lemma_filter_contains_rev(ours, found[k]);
        let i = tracker.logs.index_of(found[k]);
        assert(tracker.logs[i] == found[k]);
        assert(call == line(found[k]));
    }
    if exists|i: int|
        0 <= i < tracker.logs.len() && (#[trigger] tracker.logs[i]).at >= since && (
        tracker.logs[i].peer matches Some(peer) && tracker::peer_text(tracker.names, peer)
            == our_call) && call == tracker::direct_line(tracker.logs[i], our_call) {
        let i = choose|i: int|
            0 <= i < tracker.logs.len() && (#[trigger] tracker.logs[i]).at >= since && (
            tracker.logs[i].peer matches Some(peer) && tracker::peer_text(tracker.names, peer)
                == our_call) && call == tracker::direct_line(tracker.logs[i], our_call);
        assert(ours(tracker.logs[i]));
        tracker.logs.lemma_filter_contains(ours, i);
        let k = found.index_of(tracker.logs[i]);
        assert(calls[k] == call);
    }
}

/// A direct call keeps who sent it, its text, its signal, its time offset and its frequency, is
/// listed by its time in milliseconds, and is none of ours.
pub proof fn law_direct_call_is_its_line(line: LogModel, our_call: Seq<char>)
    ensures
        ({
            let call = tracker::direct_line(line, our_call);
            &&& call.from_call == line.sender
            &&& call.to_call == our_call
            &&& call.text == line.text
            &&& call.snr == Some(line.snr)
            &&& call.dt == Some(line.dt)
            &&& call.freq == Some(line.freq)
            &&& call.timestamp == clock::written(line.at, clock::TimeStyle::Clock)
            &&& 0 <= line.at <= u64::MAX ==> call.sort_epoch_ms == line.at as int / 1_000_000
            &&& !call.is_ours
        }),
{
}

/// A hash stands for the call that a message last gave with it; a hash that no message has given a
/// call for stands for itself.
pub proof fn law_hash_stands_for_its_call(names: HashNames, hash: u32, call: Seq<char>, other: u32)
    ensures
        tracker::resolved(
            tracker::named22(names, hash, Some(call)),
            PeerModel::Hash22(hash),
        ) == PeerModel::Callsign(call),
        other != hash ==> tracker::resolved(
            tracker::named22(names, hash, Some(call)),
            PeerModel::Hash22(other),
        ) == tracker::resolved(names, PeerModel::Hash22(other)),
        tracker::named22(names, hash, None) == names,
        !names.h22.contains_key(hash) ==> tracker::resolved(names, PeerModel::Hash22(hash))
            == PeerModel::Hash22(hash),
        tracker::resolved(names, PeerModel::Callsign(call)) == PeerModel::Callsign(call),
        tracker::peer_text(names, PeerModel::Callsign(call)) == call,
{
}

/// Like `law_hash_stands_for_its_call`, for the shorter hashes.
pub proof fn law_short_hash_stands_for_its_call(
    names: HashNames,
    hash: u16,
    call: Seq<char>,
    other: u16,
)
    ensures
        tracker::resolved(
            tracker::named12(names, hash, Some(call)),
            PeerModel::Hash12(hash),
        ) == PeerModel::Callsign(call),
        other != hash ==> tracker::resolved(
            tracker::named12(names, hash, Some(call)),
            PeerModel::Hash12(other),
        ) == tracker::resolved(names, PeerModel::Hash12(other)),
        tracker::named12(names, hash, None) == names,
        !names.h12.contains_key(hash) ==> tracker::resolved(names, PeerModel::Hash12(hash))
            == PeerModel::Hash12(hash),
{
}

/// Of the messages of one sender in a stage, those that end a contact are taken after the others,
/// and else they are taken as they came.
pub proof fn law_closing_messages_are_taken_last(decodes: Seq<DecodedMessage>, a: int, b: int)
    requires
        0 <= a < b < tracker::taking_order(decodes).len(),
    ensures
        ({
            let i = tracker::taking_order(decodes)[a];
            let j = tracker::taking_order(decodes)[b];
            &&& 0 <= i < decodes.len() && 0 <= j < decodes.len() && i != j
            &&& message::sender_of(decodes[i].message) is Some
            &&& message::sender_of(decodes[i].message) == message::sender_of(decodes[j].message) ==> {
                let first = message::ends_qso(decodes[i].message);
                let second = message::ends_qso(decodes[j].message);
                (!first && second) || (first == second && i < j)
            }
        }),
{
    law_taking_order(decodes);
    let order = tracker::taking_order(decodes);
    let precedes = |i: int, j: int| tracker::taken_before(decodes, i, j);
    let i = order[a];
    let j = order[b];
    assert(order.contains(i) && order.contains(j));
    assert(tracker::with_sender(decodes).contains(i) && tracker::with_sender(decodes).contains(j));
    assert(precedes(i, j));
    crate::text::lemma_text_lt_irreflexive(tracker::sender_key(decodes[i]));
}

/// Whom a message is addressed to: the call in its first field, or what a hash there stands for; a
/// CQ and any other token address nobody, and a compound message the station that it closes with.
pub proof fn law_addressee_of_a_message(names: HashNames, message: StructuredMessage)
    ensures
        message matches StructuredMessage::Standard { first, .. } ==> match first.value {
            StructuredCallValue::StandardCall { callsign } => tracker::first_peer(names, message)
                == Some(PeerModel::Callsign(callsign@)),
            StructuredCallValue::Hash22 { hash, .. } => tracker::first_peer(names, message) == Some(
                if names.h22.contains_key(hash) {
                    PeerModel::Callsign(names.h22[hash])
                } else {
                    PeerModel::Hash22(hash)
                },
            ),
            StructuredCallValue::Token { .. } => tracker::first_peer(names, message) is None,
        },
        message matches StructuredMessage::Nonstandard {
            hashed_call,
            plain_call,
            hashed_is_second,
            cq,
            ..
        } ==> {
            &&& cq ==> tracker::first_peer(names, message) is None
            &&& !cq && hashed_is_second ==> tracker::first_peer(names, message) == Some(
                PeerModel::Callsign(plain_call.callsign@),
            )
            &&& !cq && !hashed_is_second ==> tracker::first_peer(names, message) == Some(
                if names.h12.contains_key(hashed_call.raw) {
                    PeerModel::Callsign(names.h12[hashed_call.raw])
                } else {
                    PeerModel::Hash12(hashed_call.raw)
                },
            )
        },
        message matches StructuredMessage::Dxpedition { completed_call, .. } ==> (
        completed_call.value matches StructuredCallValue::StandardCall { callsign }
            ==> tracker::first_peer(names, message) == Some(PeerModel::Callsign(callsign@))),
        message is FreeText || message is Unsupported ==> tracker::first_peer(names, message)
            is None,
{
}

/// The line of a message in the log tells whom it is for: whom it is addressed to, or else the peer
/// that its sender is in contact with; a CQ is for nobody.
pub proof fn law_line_tells_whom_it_is_for(
    tracker: TrackerModel,
    at: Timestamp,
    stage: DecodeStage,
    decode: DecodedMessage,
    sender: Seq<char>,
)
    requires
        message::sender_of(decode.message) == Some(sender),
        is_news(tracker, at, stage, sender),
        forall|i: int|
            0 <= i < tracker.logs.len() ==> (#[trigger] tracker.logs[i]).sender != sender
                || tracker.logs[i].slot_index != slots::slot_index(tracker.mode, at),
    ensures
        ({
            let line = tracker::heard(tracker, at, stage, decode).logs.last();
            let addressee = tracker::first_peer(tracker.names, decode.message);
            let before = if tracker.stations.contains_key(sender) {
                tracker.stations[sender].active
            } else {
                None
            };
            &&& message::is_cq(decode.message) ==> line.peer is None
            &&& !message::is_cq(decode.message) && addressee is Some ==> line.peer == addressee
            &&& !message::is_cq(decode.message) && addressee is None ==> (before matches Some((
                since,
                peer,
            )) ==> line.peer is Some)
            &&& line.peer_before == (match before {
                Some((since, peer)) => Some(peer),
                None => None,
            })
            &&& line.peer_after == (
            match tracker::heard(tracker, at, stage, decode).stations[sender].active {
                Some((since, peer)) => Some(peer),
                None => None,
            })
        }),
{
    law_last_message_is_kept(tracker, at, stage, decode);
    let slot_index = slots::slot_index(tracker.mode, at) as u64;
    lemma_log_place(tracker.logs, sender, slot_index);
}

/// What is learnt of hashes: a call that a message gives with a hash is what the hash stands for
/// from then on, in the messages of the same stage already.
pub proof fn law_messages_name_hashes(
    names: HashNames,
    decodes: Seq<DecodedMessage>,
    i: int,
    hash: u32,
    call: Seq<char>,
)
    requires
        0 <= i < decodes.len(),
        decodes[i].message matches StructuredMessage::Standard { second, .. } && (
        second.value matches StructuredCallValue::Hash22 { hash: h, resolved_callsign: Some(c) } && h
            == hash && c@ == call),
        forall|k: int|
            i < k < decodes.len() ==> (#[trigger] decodes[k]).message is FreeText
                || decodes[k].message is Unsupported,
    ensures
        tracker::named_by_all(names, decodes).h22.contains_key(hash),
        tracker::named_by_all(names, decodes).h22[hash] == call,
    decreases decodes.len(),
{
    if i < decodes.len() - 1 {
        let rest = decodes.drop_last();
        assert(rest[i] == decodes[i]);
        assert forall|k: int| i < k < rest.len() implies (#[trigger] rest[k]).message is FreeText
            || rest[k].message is Unsupported by {
            assert(rest[k] == decodes[k]);
        }
        law_messages_name_hashes(names, rest, i, hash, call);
        assert(decodes[decodes.len() - 1].message is FreeText || decodes[decodes.len() - 1].message
            is Unsupported);
    } else {
        assert(decodes.last() == decodes[i]);
    }
}

/// A peer that is known by its call goes on being known by it: while a contact goes on, a message
/// that names the peer by a hash does not take the call away, and one that names it by its call
/// brings it in.
pub proof fn law_known_peer_stays_known(
    tracker: TrackerModel,
    at: Timestamp,
    stage: DecodeStage,
    decode: DecodedMessage,
    sender: Seq<char>,
    peer: PeerModel,
)
    requires
        message::sender_of(decode.message) == Some(sender),
        !message::ends_qso(decode.message),
        tracker::first_peer(tracker.names, decode.message) == Some(peer),
        is_news(tracker, at, stage, sender),
        tracker.stations.contains_key(sender),
        tracker.stations[sender].active matches Some((since, known)) && tracker::resolved(
            tracker.names,
            known,
        ) == tracker::resolved(tracker.names, peer),
    ensures
        ({
            let (since, known) = tracker.stations[sender].active->0;
            let after = tracker::heard(tracker, at, stage, decode).stations[sender];
            &&& after.active == Some((since, tracker::resolved(tracker.names, peer)))
            &&& after.history == tracker.stations[sender].history
            &&& tracker::preferred_peer(tracker.names, PeerModel::Callsign(sender), peer) == (
            match tracker::resolved(tracker.names, peer) {
                PeerModel::Callsign(call) => PeerModel::Callsign(call),
                _ => PeerModel::Callsign(sender),
            })
        }),
{
}

/// A station is shown as in contact exactly while it is in one, with the time at which the contact
/// began and the peer.
pub proof fn law_what_is_shown_of_a_contact(
    shown: WebStationSummary,
    callsign: Seq<char>,
    station: StationModel,
    names: HashNames,
)
    requires
        tracker::shows_station(shown, callsign, station, names),
    ensures
        shown.callsign@ == callsign,
        shown.is_in_qso <==> station.active is Some,
        station.active matches Some((since, peer)) ==> (shown.in_qso_since matches Some(t) && t@
            == clock::written(since, clock::TimeStyle::Clock)),
        station.active matches Some((since, PeerModel::Callsign(call))) ==> (
        shown.qso_with matches Some(peer) && peer@ == call),
        station.active is None ==> shown.in_qso_since is None && shown.qso_with is None,
        shown.qso_history@.len() == station.history.len(),
        forall|i: int|
            0 <= i < station.history.len() ==> (#[trigger] shown.qso_history@[i]).started_at@
                == clock::written(station.history[i].started_at, clock::TimeStyle::Clock)
                && shown.qso_history@[i].ended_at@ == clock::written(
                station.history[i].ended_at,
                clock::TimeStyle::Clock,
            ),
{
}

/// A message names every hash that it gives a call with: both call fields do, the hashed call of a
/// message with a nonstandard call does, and both hashes of a message with two.
pub proof fn law_what_a_message_names(names: HashNames, message: StructuredMessage)
    ensures
        message matches StructuredMessage::Standard { first, second, .. } ==> {
            let after = tracker::named_by(names, message);
            &&& second.value matches StructuredCallValue::Hash22 {
                hash,
                resolved_callsign: Some(call),
            } ==> after.h22.contains_key(hash) && after.h22[hash] == call@
            &&& first.value matches StructuredCallValue::Hash22 {
                hash,
                resolved_callsign: Some(call),
            } ==> after.h22.contains_key(hash) && (!(second.value is Hash22) ==> after.h22[hash]
                == call@)
            &&& after.h12 == names.h12
        },
        message matches StructuredMessage::Nonstandard { hashed_call, .. } ==> {
            let after = tracker::named_by(names, message);
            &&& hashed_call.resolved_callsign matches Some(call) ==> after.h12.contains_key(
                hashed_call.raw,
            ) && after.h12[hashed_call.raw] == call@
            &&& after.h22 == names.h22
        },
        message matches StructuredMessage::EuVhf { hashed_call12, hashed_call22, .. } ==> {
            let after = tracker::named_by(names, message);
            &&& hashed_call12.resolved_callsign matches Some(call) ==> after.h12.contains_key(
                hashed_call12.raw,
            ) && after.h12[hashed_call12.raw] == call@
            &&& hashed_call22.resolved_callsign matches Some(call) ==> after.h22.contains_key(
                hashed_call22.raw,
            ) && after.h22[hashed_call22.raw] == call@
        },
        message is FreeText || message is Unsupported ==> tracker::named_by(names, message) == names,
{
}

} // verus!
