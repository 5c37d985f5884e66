//! From what is heard to the queue, and from the queue to a contact.

use vstd::prelude::*;
use vstd::string::*;

use crate::clock;
use crate::clock::Timestamp;
use crate::message;
use crate::message::{
    DecodedMessage, ReplyWord, StructuredInfoValue, StructuredMessage,
};
use crate::qso::{CommandModel, QsoCommand, QsoStartMode, QsoState};
use crate::queue;
use crate::queue::{DirectCallObservation, ObservationModel, QueueModel, WorkQueueState};
use crate::scheduler;
use crate::scheduler::{
    DispatchKindModel, DispatchModel, QueueDispatch, QueueDispatchKind, CQ_ACTIVITY_WINDOW,
};
use crate::slots;
use crate::slots::DecoderMode;
use crate::text;
use crate::tracker;
use crate::tracker::{LogModel, StartInfoModel, StationStartInfo, StationTracker, TrackerModel};

verus! {

/// With what to answer a standard message to us, and whether the answer may be part of a compound
/// message. A sign-off is not answered.
pub open spec fn answer_to_info(
    acknowledge: bool,
    info: StructuredInfoValue,
) -> Option<(QsoState, bool)> {
    match info {
        StructuredInfoValue::Grid { locator } => if text::same_ignoring_case(locator@, "RR73"@) {
            None
        } else if acknowledge {
            Some((QsoState::Send73, false))
        } else {
            Some((QsoState::SendSig, true))
        },
        StructuredInfoValue::SignalReport { db } => if acknowledge {
            Some((QsoState::SendRR73, false))
        } else {
            Some((QsoState::SendSigAck, false))
        },
        StructuredInfoValue::Reply { word } => match word {
            ReplyWord::Rr73 => None,
            ReplyWord::SeventyThree => None,
            ReplyWord::Rrr => Some((QsoState::Send73, false)),
            ReplyWord::Blank => if acknowledge {
                Some((QsoState::Send73, false))
            } else {
                Some((QsoState::SendSig, false))
            },
        },
        StructuredInfoValue::Blank => if acknowledge {
            Some((QsoState::Send73, false))
        } else {
            Some((QsoState::SendSig, false))
        },
    }
}

fn answer_for_info(acknowledge: bool, info: &StructuredInfoValue) -> (r: Option<(QsoState, bool)>)
    ensures
        r == answer_to_info(acknowledge, *info),
{
    match info {
        StructuredInfoValue::Grid { locator } => if text::eq_ignore_ascii_case(
            locator.as_str(),
            "RR73",
        ) {
            None
        } else if acknowledge {
            Some((QsoState::Send73, false))
        } else {
            Some((QsoState::SendSig, true))
        },
        StructuredInfoValue::SignalReport { .. } => if acknowledge {
            Some((QsoState::SendRR73, false))
        } else {
            Some((QsoState::SendSigAck, false))
        },
        StructuredInfoValue::Reply { word } => match word {
            ReplyWord::Rr73 => None,
            ReplyWord::SeventyThree => None,
            ReplyWord::Rrr => Some((QsoState::Send73, false)),
            ReplyWord::Blank => if acknowledge {
                Some((QsoState::Send73, false))
            } else {
                Some((QsoState::SendSig, false))
            },
        },
        StructuredInfoValue::Blank => if acknowledge {
            Some((QsoState::Send73, false))
        } else {
            Some((QsoState::SendSig, false))
        },
    }
}

/// With what to answer a message, where it is for us and calls for an answer.
pub open spec fn answer_to(
    message: StructuredMessage,
    our_call: Seq<char>,
) -> Option<(QsoState, bool)> {
    match message {
        StructuredMessage::Standard { first, acknowledge, info, .. } => if message::call_name(first)
            == Some(our_call) {
            answer_to_info(acknowledge, info)
        } else {
            None
        },
        StructuredMessage::Nonstandard { reply, cq, .. } => if !cq && message::first_call_of(message)
            == Some(our_call) {
            match reply {
                ReplyWord::Blank => Some((QsoState::SendSig, false)),
                ReplyWord::Rrr => Some((QsoState::Send73, false)),
                ReplyWord::Rr73 => None,
                ReplyWord::SeventyThree => None,
            }
        } else {
            None
        },
        StructuredMessage::Dxpedition { completed_call, next_call, .. } => if message::call_name(
            completed_call,
        ) != Some(our_call) && message::call_name(next_call) == Some(our_call) {
            Some((QsoState::SendSigAck, false))
        } else {
            None
        },
        _ => None,
    }
}

fn is_call(call: &Option<String>, our_call: &str) -> (r: bool)
    ensures
        r == (text::text_opt(*call) == Some(our_call@)),
{
    match call {
        Some(c) => text::str_eq(c.as_str(), our_call),
        None => false,
    }
}

fn answer_for(message: &StructuredMessage, our_call: &str) -> (r: Option<(QsoState, bool)>)
    ensures
        r == answer_to(*message, our_call@),
{
    match message {
        StructuredMessage::Standard { first, acknowledge, info, .. } => {
            if is_call(&message::structured_call_station_name(first), our_call) {
                answer_for_info(*acknowledge, info)
            } else {
                None
            }
        },
        StructuredMessage::Nonstandard { reply, cq, .. } => {
            if !*cq && is_call(&message::semantic_first_call_display_call(message), our_call) {
                match reply {
                    ReplyWord::Blank => Some((QsoState::SendSig, false)),
                    ReplyWord::Rrr => Some((QsoState::Send73, false)),
                    ReplyWord::Rr73 => None,
                    ReplyWord::SeventyThree => None,
                }
            } else {
                None
            }
        },
        StructuredMessage::Dxpedition { completed_call, next_call, .. } => {
            if !is_call(&message::structured_call_station_name(completed_call), our_call) && is_call(
                &message::structured_call_station_name(next_call),
                our_call,
            ) {
                Some((QsoState::SendSigAck, false))
            } else {
                None
            }
        },
        _ => None,
    }
}

/// The direct call that a message is, where it is one.
pub open spec fn observation_of(
    decode: DecodedMessage,
    our_call: Seq<char>,
    at: Timestamp,
    mode: DecoderMode,
) -> Option<ObservationModel> {
    match (message::sender_of(decode.message), answer_to(decode.message, our_call)) {
        (Some(sender), Some((start_state, compound_eligible))) => Some(
            ObservationModel {
                callsign: sender,
                observed_at: at,
                slot_index: slots::slot_index(mode, at) as u64,
                family: slots::slot_family(mode, at),
                snr: decode.snr_db,
                start_state,
                compound_eligible,
                text: decode.text@,
                json: decode.structured_json@,
            },
        ),
        _ => None,
    }
}

pub open spec fn observation_opt(seen: Option<DirectCallObservation>) -> Option<ObservationModel> {
    match seen {
        Some(o) => Some(o@),
        None => None,
    }
}

pub fn direct_call_observation_from_decode(
    decode: &DecodedMessage,
    our_call: &str,
    observed_at: Timestamp,
    mode: DecoderMode,
) -> (r: Option<DirectCallObservation>)
    ensures
        observation_opt(r) == observation_of(*decode, our_call@, observed_at, mode),
{
    let callsign = match message::semantic_sender_call(&decode.message) {
        Some(call) => call,
        None => {
            return None;
        },
    };
    match answer_for(&decode.message, our_call) {
        Some((start_state, compound_eligible)) => Some(
            DirectCallObservation {
                callsign,
                observed_at,
                slot_index: slots::slot_index_for_mode(mode, observed_at),
                slot_family: slots::slot_family_for_mode(mode, observed_at),
                snr_db: decode.snr_db,
                start_state,
                compound_eligible,
                text: decode.text.clone(),
                structured_json: decode.structured_json.clone(),
            },
        ),
        None => None,
    }
}

/// One of the calls is this one, whatever its case.
pub open spec fn among(calls: Seq<Seq<char>>, callsign: Seq<char>) -> bool {
    exists|i: int| 0 <= i < calls.len() && text::same_ignoring_case(#[trigger] calls[i], callsign)
}

fn is_among(calls: &Vec<String>, callsign: &str) -> (r: bool)
    ensures
        r == among(text::texts(calls@), callsign@),
{
    let ghost all = text::texts(calls@);
    let mut i: usize = 0;
    while i < calls.len()
        invariant
            i <= calls@.len(),
            all == text::texts(calls@),
            forall|k: int| 0 <= k < i ==> !text::same_ignoring_case(#[trigger] all[k], callsign@),
        decreases calls@.len() - i,
    {
        assert(all[i as int] == calls@[i as int]@);
        if text::eq_ignore_ascii_case(calls[i].as_str(), callsign) {
            return true;
        }
        i += 1;
    }
    false
}

/// The direct call that is worth queueing: neither of a station that is to be passed over in this
/// slot, nor of the one we are in contact with.
pub open spec fn worth_queueing(
    decode: DecodedMessage,
    our_call: Seq<char>,
    at: Timestamp,
    mode: DecoderMode,
    skipped: Seq<Seq<char>>,
    partner: Option<Seq<char>>,
) -> Option<ObservationModel> {
    match observation_of(decode, our_call, at, mode) {
        Some(seen) => if among(skipped, seen.callsign) || partner == Some(seen.callsign) {
            None
        } else {
            Some(seen)
        },
        None => None,
    }
}

/// The direct calls among the messages that are worth queueing.
pub open spec fn directs_among(
    decodes: Seq<DecodedMessage>,
    our_call: Seq<char>,
    at: Timestamp,
    mode: DecoderMode,
    skipped: Seq<Seq<char>>,
    partner: Option<Seq<char>>,
) -> Seq<ObservationModel>
    decreases decodes.len(),
{
    if decodes.len() == 0 {
        Seq::empty()
    } else {
        let earlier = directs_among(decodes.drop_last(), our_call, at, mode, skipped, partner);
        match worth_queueing(decodes.last(), our_call, at, mode, skipped, partner) {
            Some(seen) => earlier.push(seen),
            None => earlier,
        }
    }
}

pub open spec fn observation_models(seen: Seq<DirectCallObservation>) -> Seq<ObservationModel> {
    seen.map_values(|o: DirectCallObservation| o@)
}

/// The direct calls to take up, where direct calls are taken up at all.
pub fn priority_directs(
    work_queue: &WorkQueueState,
    active_partner: Option<&str>,
    decodes: &[DecodedMessage],
    our_call: &str,
    slot_start: Timestamp,
    slot_skip_calls: &Vec<String>,
) -> (r: Vec<DirectCallObservation>)
    ensures
        observation_models(r@) == (if work_queue@.auto_add_direct {
            directs_among(
                decodes@,
                our_call@,
                slot_start,
                work_queue@.mode,
                text::texts(slot_skip_calls@),
                text::str_opt(active_partner),
            )
        } else {
            Seq::empty()
        }),
{
    let mut r: Vec<DirectCallObservation> = Vec::new();
    assert(observation_models(r@) =~= Seq::<ObservationModel>::empty());
    if !work_queue.auto_add_direct_calls {
        return r;
    }
    let ghost skipped = text::texts(slot_skip_calls@);
    let ghost partner = text::str_opt(active_partner);
    let ghost mode = work_queue@.mode;
    let mut i: usize = 0;
    assert(observation_models(r@) =~= directs_among(
        decodes@.take(0),
        our_call@,
        slot_start,
        mode,
        skipped,
        partner,
    ));
    while i < decodes.len()
        invariant
            i <= decodes@.len(),
            mode == work_queue@.mode,
            skipped == text::texts(slot_skip_calls@),
            partner == text::str_opt(active_partner),
            observation_models(r@) == directs_among(
                decodes@.take(i as int),
                our_call@,
                slot_start,
                mode,
                skipped,
                partner,
            ),
        decreases decodes@.len() - i,
    {
        let ghost before = observation_models(r@);
        assert(decodes@.take(i + 1).drop_last() =~= decodes@.take(i as int));
        assert(decodes@.take(i + 1).last() == decodes@[i as int]);
        if let Some(seen) = direct_call_observation_from_decode(
            &decodes[i],
            our_call,
            slot_start,
            work_queue.current_mode,
        ) {
            let is_partner = match active_partner {
                Some(p) => text::str_eq(p, seen.callsign.as_str()),
                None => false,
            };
            if !is_among(slot_skip_calls, seen.callsign.as_str()) && !is_partner {
                r.push(seen);
                assert(observation_models(r@) =~= before.push(seen@));
            }
        }
        i += 1;
    }
    assert(decodes@.take(i as int) =~= decodes@);
    r
}

/// What a contact that starts with the direct call is told of its station.
pub open spec fn info_from_direct(seen: ObservationModel) -> StartInfoModel {
    StartInfoModel {
        callsign: seen.callsign,
        heard_at: seen.observed_at,
        family: seen.family,
        snr: seen.snr,
        text: Some(seen.text),
        json: Some(seen.json),
    }
}

/// The station of a direct call, as a contact that waits for it is told.
pub fn reserved_station(observation: &DirectCallObservation) -> (r: StationStartInfo)
    ensures
        r@ == info_from_direct(observation@),
{
    StationStartInfo {
        callsign: observation.callsign.clone(),
        last_heard_at: observation.observed_at,
        last_heard_slot_family: observation.slot_family,
        last_snr_db: observation.snr_db,
        last_text: Some(observation.text.clone()),
        last_structured_json: Some(observation.structured_json.clone()),
    }
}

/// The queue with the direct calls put in that no contact has taken for itself.
pub open spec fn with_directs(
    queue: QueueModel,
    seen: Seq<ObservationModel>,
    taken: Seq<bool>,
    now: Timestamp,
) -> QueueModel
    decreases seen.len(),
{
    if seen.len() == 0 {
        queue
    } else {
        let earlier = with_directs(queue, seen.drop_last(), taken, now);
        if taken[seen.len() - 1] {
            earlier
        } else {
            queue::direct_added(earlier, seen.last(), now).0
        }
    }
}

/// Takes direct calls into the queue. `taken` tells of each whether a contact has reserved its
/// station already.
pub fn maybe_track_priority_directs(
    work_queue: &mut WorkQueueState,
    observations: Vec<DirectCallObservation>,
    taken: &Vec<bool>,
    slot_start: Timestamp,
)
    requires
        old(work_queue).wf(),
        taken@.len() == observations@.len(),
    ensures
        final(work_queue).wf(),
        final(work_queue)@ == with_directs(
            old(work_queue)@,
            observation_models(observations@),
            taken@,
            slot_start,
        ),
{
    let ghost all = observation_models(observations@);
    let ghost start = work_queue@;
    let mut rest = observations;
    let count: usize = taken.len();
    let mut i: usize = 0;
    assert(all.take(0) =~= Seq::<ObservationModel>::empty());
    assert(observation_models(rest@) =~= all.skip(0));
    while rest.len() > 0
        invariant
            i <= all.len() == count,
            work_queue.wf(),
            taken@.len() == all.len(),
            observation_models(rest@) == all.skip(i as int),
            rest@.len() == all.len() - i,
            work_queue@ == with_directs(start, all.take(i as int), taken@, slot_start),
        decreases rest@.len(),
    {
        let ghost before = observation_models(rest@);
        let seen = rest.remove(0);
        assert(before[0] == seen@);
        assert(all[i as int] == seen@);
        assert(observation_models(rest@) =~= before.drop_first());
        assert(all.skip(i as int).drop_first() =~= all.skip(i + 1));
        assert(all.take(i + 1).drop_last() =~= all.take(i as int));
        assert(all.take(i + 1).last() == seen@);
        if !taken[i] {
            let _ = work_queue.add_direct_observation(seen, slot_start);
        }
        i += 1;
    }
    assert(all.take(i as int) =~= all);
}

/// The senders of the messages but for our partner, each once, in ascending order.
pub open spec fn senders_among(
    decodes: Seq<DecodedMessage>,
    partner: Option<Seq<char>>,
) -> Seq<Seq<char>>
    decreases decodes.len(),
{
    if decodes.len() == 0 {
        Seq::empty()
    } else {
        let earlier = senders_among(decodes.drop_last(), partner);
        match message::sender_of(decodes.last().message) {
            Some(sender) => if partner == Some(sender) {
                earlier
            } else {
                text::sorted_with(earlier, sender)
            },
            None => earlier,
        }
    }
}

/// The queue once a station that was heard is put in, if it was heard often enough.
pub open spec fn with_heard(
    queue: QueueModel,
    tracker: TrackerModel,
    callsign: Seq<char>,
    now: Timestamp,
) -> QueueModel {
    let since = clock::back_by(now, CQ_ACTIVITY_WINDOW as int);
    match tracker::start_info_of(tracker, callsign) {
        Some(info) => if tracker::decodes_since(tracker.logs, since, callsign)
            >= queue.auto_add_min_count {
            queue::station_added(queue, callsign, info.heard_at, now).0
        } else {
            queue
        },
        None => queue,
    }
}

pub open spec fn with_all_heard(
    queue: QueueModel,
    tracker: TrackerModel,
    calls: Seq<Seq<char>>,
    now: Timestamp,
) -> QueueModel
    decreases calls.len(),
{
    if calls.len() == 0 {
        queue
    } else {
        with_heard(
            with_all_heard(queue, tracker, calls.drop_last(), now),
            tracker,
            calls.last(),
            now,
        )
    }
}

fn sender_list(decodes: &[DecodedMessage], active_partner: Option<&str>) -> (r: Vec<String>)
    ensures
        text::texts(r@) == senders_among(decodes@, text::str_opt(active_partner)),
{
    let ghost partner = text::str_opt(active_partner);
    let mut r: Vec<String> = Vec::new();
    let mut i: usize = 0;
    assert(text::texts(r@) =~= senders_among(decodes@.take(0), partner));
    while i < decodes.len()
        invariant
            i <= decodes@.len(),
            partner == text::str_opt(active_partner),
            text::texts(r@) == senders_among(decodes@.take(i as int), partner),
        decreases decodes@.len() - i,
    {
        assert(decodes@.take(i + 1).drop_last() =~= decodes@.take(i as int));
        assert(decodes@.take(i + 1).last() == decodes@[i as int]);
        if let Some(sender) = message::semantic_sender_call(&decodes[i].message) {
            let is_partner = match active_partner {
                Some(p) => text::str_eq(p, sender.as_str()),
                None => false,
            };
            if !is_partner {
                text::insert_sorted(&mut r, sender);
            }
        }
        i += 1;
    }
    assert(decodes@.take(i as int) =~= decodes@);
    r
}

/// Takes into the queue whom we hear often enough, where that is switched on.
pub fn maybe_auto_add_decoded_calls(
    work_queue: &mut WorkQueueState,
    station_tracker: &StationTracker,
    active_partner: Option<&str>,
    decodes: &[DecodedMessage],
    now: Timestamp,
)
    requires
        old(work_queue).wf(),
        station_tracker.wf(),
    ensures
        final(work_queue).wf(),
        final(work_queue)@ == (if old(work_queue)@.auto_add_all {
            with_all_heard(
                old(work_queue)@,
                station_tracker@,
                senders_among(decodes@, text::str_opt(active_partner)),
                now,
            )
        } else {
            old(work_queue)@
        }),
{
    if !work_queue.auto_add_all_decoded_calls {
        return ;
    }
    let ghost start = work_queue@;
    let since: i128 = clock::go_back(now, CQ_ACTIVITY_WINDOW);
    let calls = sender_list(decodes, active_partner);
    let ghost all = text::texts(calls@);
    let mut i: usize = 0;
    assert(all.take(0) =~= Seq::<Seq<char>>::empty());
    while i < calls.len()
        invariant
            i <= calls@.len(),
            all == text::texts(calls@),
            work_queue.wf(),
            station_tracker.wf(),
            since == clock::back_by(now, CQ_ACTIVITY_WINDOW as int),
            work_queue@ == with_all_heard(start, station_tracker@, all.take(i as int), now),
        decreases calls@.len() - i,
    {
        assert(all.take(i + 1).drop_last() =~= all.take(i as int));
        assert(all.take(i + 1).last() == calls@[i as int]@);
        let count: usize = station_tracker.sender_decode_count_since(since, calls[i].as_str());
        if count as u64 >= work_queue.auto_add_decoded_min_count_5m as u64 {
            if let Some(info) = station_tracker.start_info(calls[i].as_str()) {
                let _ = work_queue.add_station(calls[i].as_str(), info.last_heard_at, now);
            }
        }
        i += 1;
    }
    assert(all.take(i as int) =~= all);
}

/// What a contact is told of the station that is called. A direct call that is no older than what
/// the tracker has heard takes its place; an older one still lends its text and report.
pub open spec fn info_for(
    tracker: TrackerModel,
    kind: DispatchKindModel,
) -> Option<StartInfoModel> {
    match kind {
        DispatchKindModel::Cq { .. } => None,
        DispatchKindModel::Station { callsign, heard_at, family, text, json, snr, .. } => {
            let known = tracker::start_info_of(tracker, callsign);
            match (heard_at, family) {
                (Some(at), Some(family)) => match known {
                    Some(info) => {
                        let told = StartInfoModel {
                            snr: match snr {
                                Some(s) => s,
                                None => info.snr,
                            },
                            text: match text {
                                Some(t) => Some(t),
                                None => info.text,
                            },
                            json: match json {
                                Some(j) => Some(j),
                                None => info.json,
                            },
                            ..info
                        };
                        if at >= info.heard_at {
                            Some(StartInfoModel { heard_at: at, family, ..told })
                        } else {
                            Some(told)
                        }
                    },
                    None => Some(
                        StartInfoModel {
                            callsign,
                            heard_at: at,
                            family,
                            snr: match snr {
                                Some(s) => s,
                                None => 0,
                            },
                            text,
                            json,
                        },
                    ),
                },
                _ => known,
            }
        },
    }
}

fn either_text(a: &Option<String>, b: Option<String>) -> (r: Option<String>)
    ensures
        text::text_opt(r) == (match text::text_opt(*a) {
            Some(t) => Some(t),
            None => text::text_opt(b),
        }),
{
    match a {
        Some(t) => Some(t.clone()),
        None => b,
    }
}

pub fn station_info_from_dispatch(
    tracker: &StationTracker,
    kind: &QueueDispatchKind,
) -> (r: Option<StationStartInfo>)
    requires
        tracker.wf(),
    ensures
        tracker::info_opt(r) == info_for(tracker@, kind@),
{
    match kind {
        QueueDispatchKind::Cq { .. } => None,
        QueueDispatchKind::Station {
            callsign,
            context_last_heard_at,
            context_last_heard_slot_family,
            context_text,
            context_structured_json,
            context_snr_db,
            ..
        } => {
            let known = tracker.start_info(callsign.as_str());
            match (*context_last_heard_at, *context_last_heard_slot_family) {
                (Some(at), Some(family)) => match known {
                    Some(info) => {
                        let newer = at >= info.last_heard_at;
                        Some(
                            StationStartInfo {
                                callsign: info.callsign,
                                last_heard_at: if newer {
                                    at
                                } else {
                                    info.last_heard_at
                                },
                                last_heard_slot_family: if newer {
                                    family
                                } else {
                                    info.last_heard_slot_family
                                },
                                last_snr_db: match *context_snr_db {
                                    Some(s) => s,
                                    None => info.last_snr_db,
                                },
                                last_text: either_text(context_text, info.last_text),
                                last_structured_json: either_text(
                                    context_structured_json,
                                    info.last_structured_json,
                                ),
                            },
                        )
                    },
                    None => Some(
                        StationStartInfo {
                            callsign: callsign.clone(),
                            last_heard_at: at,
                            last_heard_slot_family: family,
                            last_snr_db: match *context_snr_db {
                                Some(s) => s,
                                None => 0,
                            },
                            last_text: text::clone_opt(context_text),
                            last_structured_json: text::clone_opt(context_structured_json),
                        },
                    ),
                },
                _ => known,
            }
        },
    }
}

/// The command that starts what was dispatched.
pub open spec fn command_for(dispatch: DispatchModel) -> CommandModel {
    match dispatch.kind {
        DispatchKindModel::Station { callsign, state, mode, .. } => CommandModel::Start {
            partner: callsign,
            freq: dispatch.freq,
            state,
            mode,
            family: Some(dispatch.family),
        },
        DispatchKindModel::Cq { family } => CommandModel::Start {
            partner: "CQ"@,
            freq: dispatch.freq,
            state: QsoState::SendCq,
            mode: QsoStartMode::Cq,
            family,
        },
    }
}

pub fn qso_start_command_from_dispatch(dispatch: &QueueDispatch) -> (r: QsoCommand)
    ensures
        r@ == command_for(dispatch@),
{
    match &dispatch.kind {
        QueueDispatchKind::Station { callsign, initial_state, start_mode, .. } => QsoCommand::Start {
            partner_call: callsign.clone(),
            tx_freq_hz: dispatch.tx_freq_hz,
            initial_state: *initial_state,
            start_mode: *start_mode,
            tx_slot_family_override: Some(dispatch.tx_slot_family),
        },
        QueueDispatchKind::Cq { tx_slot_family_override } => QsoCommand::Start {
            partner_call: "CQ".to_owned(),
            tx_freq_hz: dispatch.tx_freq_hz,
            initial_state: QsoState::SendCq,
            start_mode: QsoStartMode::Cq,
            tx_slot_family_override: *tx_slot_family_override,
        },
    }
}

/// The station to offer to a contact that closes, for it to go on with in the same message.
pub open spec fn handoff_offer(
    queue: QueueModel,
    tracker: TrackerModel,
    now: Timestamp,
    partner: Option<Seq<char>>,
) -> Option<StartInfoModel> {
    match scheduler::handoff_candidate(queue, now, partner) {
        Some(candidate) => info_for(tracker, candidate.kind),
        None => None,
    }
}

pub fn compound_handoff_offer(
    work_queue: &WorkQueueState,
    tracker: &StationTracker,
    active_partner: Option<&str>,
    now: Timestamp,
) -> (r: Option<StationStartInfo>)
    requires
        work_queue.wf(),
        tracker.wf(),
    ensures
        tracker::info_opt(r) == handoff_offer(
            work_queue@,
            tracker@,
            now,
            text::str_opt(active_partner),
        ),
{
    match work_queue.peek_compound_handoff_candidate(now, active_partner) {
        Some(candidate) => station_info_from_dispatch(tracker, &candidate.kind),
        None => None,
    }
}

/// The queue once a contact has taken up or turned down the offer: the station that was taken up
/// waits no more.
pub fn maybe_arm_compound_handoff_from_queue(
    work_queue: &mut WorkQueueState,
    tracker: &StationTracker,
    active_partner: Option<&str>,
    now: Timestamp,
    armed: bool,
) -> (reserved: Option<String>)
    requires
        old(work_queue).wf(),
        tracker.wf(),
    ensures
        final(work_queue).wf(),
        match (armed, handoff_offer(old(work_queue)@, tracker@, now, text::str_opt(active_partner))) {
            (true, Some(info)) => text::text_opt(reserved) == Some(info.callsign)
                && final(work_queue)@ == (QueueModel {
                entries: queue::without(old(work_queue)@.entries, info.callsign),
                ..old(work_queue)@
            }),
            _ => reserved is None && final(work_queue)@ == old(work_queue)@,
        },
{
    match compound_handoff_offer(work_queue, tracker, active_partner, now) {
        Some(info) => if armed {
            let _ = work_queue.remove_station(info.callsign.as_str());
            Some(info.callsign)
        } else {
            None
        },
        None => None,
    }
}

/// A sign-off to us calls for no answer, and neither does a message to somebody else.
pub proof fn law_only_open_messages_to_us_are_answered(
    message: StructuredMessage,
    our_call: Seq<char>,
)
    ensures
        answer_to(message, our_call) is Some ==> message::first_call_of(message) == Some(our_call)
            || message::next_call_of(message) == Some(our_call),
        answer_to(message, our_call) is Some ==> !message::is_cq(message),
        message::ends_qso(message) && !(message is Dxpedition) ==> answer_to(message, our_call)
            is None,
{
}

/// How a direct call is answered: a locator with a report, a report with its confirmation, a
/// confirmed report with RR73, and anything that confirms without one with 73.
pub proof fn law_answers_by_kind(acknowledge: bool, info: StructuredInfoValue)
    ensures
        info matches StructuredInfoValue::SignalReport { db } ==> answer_to_info(acknowledge, info)
            == Some((
            if acknowledge {
                QsoState::SendRR73
            } else {
                QsoState::SendSigAck
            },
            false,
        )),
        info is Blank ==> answer_to_info(acknowledge, info) == Some((
            if acknowledge {
                QsoState::Send73
            } else {
                QsoState::SendSig
            },
            false,
        )),
        info matches StructuredInfoValue::Grid { locator } && !text::same_ignoring_case(
            locator@,
            "RR73"@,
        ) ==> answer_to_info(acknowledge, info) == Some(
            if acknowledge {
                (QsoState::Send73, false)
            } else {
                (QsoState::SendSig, true)
            },
        ),
        info matches StructuredInfoValue::Reply { word: ReplyWord::Rrr } ==> answer_to_info(
            acknowledge,
            info,
        ) == Some((QsoState::Send73, false)),
{
}

/// Of the messages of a slot each sender but our partner is considered once, and nobody else is.
pub proof fn law_each_sender_is_considered_once(
    decodes: Seq<DecodedMessage>,
    partner: Option<Seq<char>>,
)
    ensures
        text::ascending(senders_among(decodes, partner)),
        forall|s: Seq<char>| #[trigger]
            senders_among(decodes, partner).to_set().contains(s) <==> partner != Some(s)
                && sends_among(decodes, s),
    decreases decodes.len(),
{
    if decodes.len() > 0 {
        let rest = decodes.drop_last();
        law_each_sender_is_considered_once(rest, partner);
        if let Some(sender) = message::sender_of(decodes.last().message) {
            if partner != Some(sender) {
                text::lemma_sorted_with(senders_among(rest, partner), sender);
            }
        }
        assert forall|s: Seq<char>| sends_among(decodes, s) == (sends_among(rest, s)
            || message::sender_of(decodes.last().message) == Some(s)) by {
            if sends_among(decodes, s) {
                let i = choose|i: int|
                    0 <= i < decodes.len() && message::sender_of((#[trigger] decodes[i]).message)
                        == Some(s);
                if i < rest.len() {
                    assert(rest[i] == decodes[i]);
                }
            }
            if sends_among(rest, s) {
                let i = choose|i: int|
                    0 <= i < rest.len() && message::sender_of((#[trigger] rest[i]).message) == Some(
                        s,
                    );
                assert(decodes[i] == rest[i]);
            }
            if message::sender_of(decodes.last().message) == Some(s) {
                assert(decodes[decodes.len() - 1] == decodes.last());
            }
        }
    }
}

/// One of the messages is sent by that station.
pub open spec fn sends_among(decodes: Seq<DecodedMessage>, sender: Seq<char>) -> bool {
    exists|i: int|
        0 <= i < decodes.len() && message::sender_of((#[trigger] decodes[i]).message) == Some(
            sender,
        )
}

/// How a message to us is answered, and whether the answer may be part of a compound message: a
/// locator with a report, a report with its confirmation, a confirmed report with RR73, RRR and any
/// other confirmation with 73, and a message without any of these with a report; RR73 and 73 are not
/// answered, and neither is a message that is not for us. A compound message that turns to us next
/// is answered with a confirmed report.
pub proof fn law_how_a_direct_call_is_answered(message: StructuredMessage, our_call: Seq<char>)
    ensures
        message matches StructuredMessage::Standard { first, acknowledge, info, .. } ==> {
            let answer = answer_to(message, our_call);
            if message::call_name(first) != Some(our_call) {
                answer is None
            } else {
                match info {
                    StructuredInfoValue::SignalReport { .. } => if acknowledge {
                        answer == Some((QsoState::SendRR73, false))
                    } else {
                        answer == Some((QsoState::SendSigAck, false))
                    },
                    StructuredInfoValue::Reply { word: ReplyWord::Rr73 } => answer is None,
                    StructuredInfoValue::Reply { word: ReplyWord::SeventyThree } => answer is None,
                    StructuredInfoValue::Reply { word: ReplyWord::Rrr } => answer == Some(
                        (QsoState::Send73, false),
                    ),
                    StructuredInfoValue::Reply { word: ReplyWord::Blank } => answer == Some(
                        (
                            if acknowledge {
                                QsoState::Send73
                            } else {
                                QsoState::SendSig
                            },
                            false,
                        ),
                    ),
                    StructuredInfoValue::Blank => answer == Some(
                        (
                            if acknowledge {
                                QsoState::Send73
                            } else {
                                QsoState::SendSig
                            },
                            false,
                        ),
                    ),
                    StructuredInfoValue::Grid { locator } => if text::same_ignoring_case(
                        locator@,
                        "RR73"@,
                    ) {
                        answer is None
                    } else if acknowledge {
                        answer == Some((QsoState::Send73, false))
                    } else {
                        answer == Some((QsoState::SendSig, true))
                    },
                }
            }
        },
        message matches StructuredMessage::Nonstandard { reply, cq, .. } ==> {
            let answer = answer_to(message, our_call);
            let for_us = !cq && message::first_call_of(message) == Some(our_call);
            &&& for_us && reply == ReplyWord::Blank ==> answer == Some((QsoState::SendSig, false))
            &&& for_us && reply == ReplyWord::Rrr ==> answer == Some((QsoState::Send73, false))
            &&& !for_us || reply == ReplyWord::Rr73 || reply == ReplyWord::SeventyThree ==> answer
                is None
        },
        message matches StructuredMessage::Dxpedition { completed_call, next_call, .. } ==> {
            let answer = answer_to(message, our_call);
            let for_us = message::call_name(completed_call) != Some(our_call) && message::call_name(
                next_call,
            ) == Some(our_call);
            &&& for_us ==> answer == Some((QsoState::SendSigAck, false))
            &&& !for_us ==> answer is None
        },
        message is FieldDay || message is RttyContest || message is EuVhf || message is FreeText
            || message is Unsupported ==> answer_to(message, our_call) is None,
{
}

/// The direct call that a message is keeps who sent it, when and in which slot, its signal and its
/// text.
pub proof fn law_direct_call_tells_of_its_message(
    decode: DecodedMessage,
    our_call: Seq<char>,
    at: Timestamp,
    mode: DecoderMode,
)
    ensures
        observation_of(decode, our_call, at, mode) is Some <==> message::sender_of(decode.message)
            is Some && answer_to(decode.message, our_call) is Some,
        observation_of(decode, our_call, at, mode) matches Some(seen) ==> {
            &&& message::sender_of(decode.message) == Some(seen.callsign)
            &&& answer_to(decode.message, our_call) == Some(
                (seen.start_state, seen.compound_eligible),
            )
            &&& seen.observed_at == at
            &&& seen.slot_index == slots::slot_index(mode, at)
            &&& seen.family == slots::slot_family(mode, at)
            &&& seen.snr == decode.snr_db
            &&& seen.text == decode.text@
            &&& seen.json == decode.structured_json@
        },
{
}

/// A direct call among the messages is taken up unless its sender is our partner or is passed over
/// in this slot; nothing else is taken up.
pub proof fn law_which_direct_calls_are_taken_up(
    decodes: Seq<DecodedMessage>,
    our_call: Seq<char>,
    at: Timestamp,
    mode: DecoderMode,
    skipped: Seq<Seq<char>>,
    partner: Option<Seq<char>>,
    seen: ObservationModel,
)
    ensures
        directs_among(decodes, our_call, at, mode, skipped, partner).contains(seen) <==> {
            &&& partner != Some(seen.callsign)
            &&& forall|k: int|
                0 <= k < skipped.len() ==> !text::same_ignoring_case(
                    #[trigger] skipped[k],
                    seen.callsign,
                )
            &&& exists|i: int|
                0 <= i < decodes.len() && observation_of(
                    #[trigger] decodes[i],
                    our_call,
                    at,
                    mode,
                ) == Some(seen)
        },
        directs_among(decodes, our_call, at, mode, skipped, partner).len() <= decodes.len(),
    decreases decodes.len(),
{
    if decodes.len() > 0 {
        let rest = decodes.drop_last();
        let earlier = directs_among(rest, our_call, at, mode, skipped, partner);
        let all = directs_among(decodes, our_call, at, mode, skipped, partner);
        law_which_direct_calls_are_taken_up(rest, our_call, at, mode, skipped, partner, seen);
        assert(decodes[decodes.len() - 1] == decodes.last());
        if earlier.contains(seen) {
            let k = earlier.index_of(seen);
            assert(all[k] == seen);
            let i = choose|i: int|
                0 <= i < rest.len() && observation_of(#[trigger] rest[i], our_call, at, mode)
                    == Some(seen);
            assert(decodes[i] == rest[i]);
        }
        if all.contains(seen) && !earlier.contains(seen) {
            let k = all.index_of(seen);
            if k < earlier.len() {
                assert(earlier[k] == seen);
            }
            assert(worth_queueing(decodes.last(), our_call, at, mode, skipped, partner) == Some(
                seen,
            ));
            assert(observation_of(decodes[decodes.len() - 1], our_call, at, mode) == Some(seen));
        }
        if exists|i: int|
            0 <= i < decodes.len() && observation_of(#[trigger] decodes[i], our_call, at, mode)
                == Some(seen) {
            let i = choose|i: int|
                0 <= i < decodes.len() && observation_of(#[trigger] decodes[i], our_call, at, mode)
                    == Some(seen);
            if i < rest.len() {
                assert(rest[i] == decodes[i]);
            } else if partner != Some(seen.callsign) && !among(skipped, seen.callsign) {
                assert(all.last() == seen);
                assert(all[all.len() - 1] == seen);
            }
        }
    } else {
        assert(directs_among(decodes, our_call, at, mode, skipped, partner).len() == 0);
    }
}

/// Whom we hear is put in the queue once the log holds as many lines of it from the last five
/// minutes as are asked for, and not before.
pub proof fn law_who_is_put_in_for_being_heard(
    queue: QueueModel,
    tracker: TrackerModel,
    callsign: Seq<char>,
    now: Timestamp,
)
    requires
        0 <= now,
    ensures
        ({
            let lines = tracker.logs.filter(
                |l: LogModel|
                    l.at >= now - 300_000_000_000 && text::same_ignoring_case(l.sender, callsign),
            );
            let after = with_heard(queue, tracker, callsign, now);
            if tracker.stations.contains_key(callsign) && lines.len() >= queue.auto_add_min_count {
                after == queue::station_added(
                    queue,
                    callsign,
                    tracker.stations[callsign].heard_at,
                    now,
                ).0
            } else {
                after == queue
            }
        }),
{
    let since = clock::back_by(now, 300_000_000_000);
    assert(since == now - 300_000_000_000);
    assert((|l: LogModel|
        l.at >= now - 300_000_000_000 && text::same_ignoring_case(l.sender, callsign)) =~= (
    |l: LogModel| l.at >= since && text::same_ignoring_case(l.sender, callsign)));
}

/// A contact that starts is told of its station what the direct call tells where that is no older
/// than what the tracker has heard; of an older one it takes the report and the text; without one it
/// is told what the tracker has heard.
pub proof fn law_what_a_contact_is_told(
    tracker: TrackerModel,
    callsign: Seq<char>,
    state: QsoState,
    mode: QsoStartMode,
    at: Timestamp,
    family: slots::SlotFamily,
    text: Seq<char>,
    json: Seq<char>,
    snr: i32,
)
    ensures
        ({
            let told = info_for(
                tracker,
                DispatchKindModel::Station {
                    callsign,
                    state,
                    mode,
                    heard_at: Some(at),
                    family: Some(family),
                    text: Some(text),
                    json: Some(json),
                    snr: Some(snr),
                },
            );
            let newer = !tracker.stations.contains_key(callsign) || at
                >= tracker.stations[callsign].heard_at;
            &&& told matches Some(info) && info.callsign == callsign && info.text == Some(text)
                && info.json == Some(json) && info.snr == snr
            &&& newer ==> (told->0).heard_at == at && (told->0).family == family
            &&& !newer ==> (told->0).heard_at == tracker.stations[callsign].heard_at
                && (told->0).family == tracker.stations[callsign].family
        }),
        ({
            let told = info_for(
                tracker,
                DispatchKindModel::Station {
                    callsign,
                    state,
                    mode,
                    heard_at: None,
                    family: None,
                    text: None,
                    json: None,
                    snr: None,
                },
            );
            &&& told is Some <==> tracker.stations.contains_key(callsign)
            &&& told matches Some(info) ==> info.callsign == callsign && info.heard_at
                == tracker.stations[callsign].heard_at && info.family
                == tracker.stations[callsign].family && info.snr == tracker.stations[callsign].snr
        }),
{
}

/// What is started is what was dispatched: a station with the state and the start that were chosen,
/// in the slots that were chosen; a CQ with `CQ` in the place of a partner.
pub proof fn law_what_was_dispatched_is_started(dispatch: DispatchModel)
    ensures
        command_for(dispatch) matches CommandModel::Start { partner, freq, state, mode, family }
            && freq == dispatch.freq && match dispatch.kind {
            DispatchKindModel::Station { callsign, state: first, mode: start, .. } => partner
                == callsign && state == first && mode == start && family == Some(dispatch.family),
            DispatchKindModel::Cq { family: slots } => partner == "CQ"@ && state
                == QsoState::SendCq && mode == QsoStartMode::Cq && family == slots,
        },
{
}

/// Of the direct calls of a stage each goes into the queue in its turn, as any direct call does,
/// unless a contact has taken its station for itself.
pub proof fn law_direct_calls_go_in_one_by_one(
    queue: QueueModel,
    seen: Seq<ObservationModel>,
    taken: Seq<bool>,
    last: ObservationModel,
    last_taken: bool,
    now: Timestamp,
)
    requires
        taken.len() == seen.len(),
    ensures
        with_directs(queue, Seq::empty(), Seq::empty(), now) == queue,
        last_taken ==> with_directs(queue, seen.push(last), taken.push(last_taken), now)
            == with_directs(queue, seen, taken, now),
        !last_taken ==> with_directs(queue, seen.push(last), taken.push(last_taken), now)
            == queue::direct_added(with_directs(queue, seen, taken, now), last, now).0,
{
    lemma_later_marks_do_not_count(queue, seen, taken, taken.push(last_taken), now);
    assert(seen.push(last).drop_last() =~= seen);
}

proof fn lemma_later_marks_do_not_count(
    queue: QueueModel,
    seen: Seq<ObservationModel>,
    taken: Seq<bool>,
    more: Seq<bool>,
    now: Timestamp,
)
    requires
        forall|i: int| 0 <= i < seen.len() ==> #[trigger] taken[i] == more[i],
    ensures
        with_directs(queue, seen, taken, now) == with_directs(queue, seen, more, now),
    decreases seen.len(),
{
    if seen.len() > 0 {
        lemma_later_marks_do_not_count(queue, seen.drop_last(), taken, more, now);
        assert(taken[seen.len() - 1] == more[seen.len() - 1]);
    }
}

} // verus!
