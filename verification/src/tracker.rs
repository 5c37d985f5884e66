//! What has been heard of each station: when and how, and whom it is in contact with.

use std::collections::BTreeMap;

use vstd::prelude::*;
use vstd::string::*;

use crate::clock;
use crate::clock::Timestamp;
use crate::message;
use crate::message::{
    DecodedMessage, FloatBits, StationLastMessageKind, StructuredCallField, StructuredCallValue,
    StructuredMessage,
};
use crate::rank;
use crate::rank::IndexOrder;
use crate::slots;
use crate::slots::{DecodeStage, DecoderMode, SlotFamily};
use crate::text;
use crate::text_map::TextMap;

verus! {

/// How long a station is remembered: an hour.
pub const STATION_RETENTION: u128 = 3_600_000_000_000;

/// A station as another names it: by its call, or by a hash of it.
#[derive(Debug)]
pub enum PeerRef {
    Callsign(String),
    Hash12(u16),
    Hash22(u32),
}

pub enum PeerModel {
    Callsign(Seq<char>),
    Hash12(u16),
    Hash22(u32),
}

impl View for PeerRef {
    type V = PeerModel;

    open spec fn view(&self) -> PeerModel {
        match self {
            PeerRef::Callsign(call) => PeerModel::Callsign(call@),
            PeerRef::Hash12(raw) => PeerModel::Hash12(*raw),
            PeerRef::Hash22(raw) => PeerModel::Hash22(*raw),
        }
    }
}

impl Clone for PeerRef {
    fn clone(&self) -> (r: PeerRef)
        ensures
            r == *self,
    {
        match self {
            PeerRef::Callsign(call) => PeerRef::Callsign(call.clone()),
            PeerRef::Hash12(raw) => PeerRef::Hash12(*raw),
            PeerRef::Hash22(raw) => PeerRef::Hash22(*raw),
        }
    }
}

pub open spec fn peer_opt(peer: Option<PeerRef>) -> Option<PeerModel> {
    match peer {
        Some(p) => Some(p@),
        None => None,
    }
}

fn clone_peer_opt(peer: &Option<PeerRef>) -> (r: Option<PeerRef>)
    ensures
        r == *peer,
{
    match peer {
        Some(p) => Some(p.clone()),
        None => None,
    }
}

/// A contact that goes on.
#[derive(Debug)]
pub struct ActiveQso {
    pub since: Timestamp,
    pub peer: PeerRef,
}

/// A contact that is over.
#[derive(Debug)]
pub struct CompletedQso {
    pub started_at: Timestamp,
    pub ended_at: Timestamp,
    pub peer: PeerRef,
}

pub struct CompletedModel {
    pub started_at: Timestamp,
    pub ended_at: Timestamp,
    pub peer: PeerModel,
}

impl View for CompletedQso {
    type V = CompletedModel;

    open spec fn view(&self) -> CompletedModel {
        CompletedModel { started_at: self.started_at, ended_at: self.ended_at, peer: self.peer@ }
    }
}

pub open spec fn completed(history: Seq<CompletedQso>) -> Seq<CompletedModel> {
    history.map_values(|q: CompletedQso| q@)
}

#[derive(Debug)]
pub struct StationState {
    pub last_heard_at: Timestamp,
    pub last_heard_slot_index: u64,
    pub last_heard_decode_stage: DecodeStage,
    pub last_heard_freq_hz: FloatBits,
    pub last_heard_snr_db: i32,
    pub last_heard_slot_family: SlotFamily,
    pub last_message_kind: StationLastMessageKind,
    pub last_text: String,
    pub last_structured_json: String,
    pub active_qso: Option<ActiveQso>,
    pub last_qso_ended_at: Option<Timestamp>,
    pub qso_history: Vec<CompletedQso>,
}

#[verifier::ext_equal]
pub struct StationModel {
    pub heard_at: Timestamp,
    pub slot_index: u64,
    pub stage: DecodeStage,
    pub freq: FloatBits,
    pub snr: i32,
    pub family: SlotFamily,
    pub kind: StationLastMessageKind,
    pub text: Seq<char>,
    pub json: Seq<char>,
    pub active: Option<(Timestamp, PeerModel)>,
    pub last_ended: Option<Timestamp>,
    pub history: Seq<CompletedModel>,
}

impl View for StationState {
    type V = StationModel;

    open spec fn view(&self) -> StationModel {
        StationModel {
            heard_at: self.last_heard_at,
            slot_index: self.last_heard_slot_index,
            stage: self.last_heard_decode_stage,
            freq: self.last_heard_freq_hz,
            snr: self.last_heard_snr_db,
            family: self.last_heard_slot_family,
            kind: self.last_message_kind,
            text: self.last_text@,
            json: self.last_structured_json@,
            active: match self.active_qso {
                Some(a) => Some((a.since, a.peer@)),
                None => None,
            },
            last_ended: self.last_qso_ended_at,
            history: completed(self.qso_history@),
        }
    }
}

/// One message as it is kept in the log.
#[derive(Debug)]
pub struct LoggedDecode {
    pub received_at: Timestamp,
    pub slot_index: u64,
    pub decode_stage: DecodeStage,
    pub sender_call: String,
    pub peer: Option<PeerRef>,
    pub peer_before: Option<PeerRef>,
    pub peer_after: Option<PeerRef>,
    pub related_calls: Vec<String>,
    pub snr_db: i32,
    pub dt_seconds: FloatBits,
    pub freq_hz: FloatBits,
    pub kind: String,
    pub field1: String,
    pub field2: String,
    pub info: String,
    pub text: String,
}

#[verifier::ext_equal]
pub struct LogModel {
    pub at: Timestamp,
    pub slot_index: u64,
    pub stage: DecodeStage,
    pub sender: Seq<char>,
    pub peer: Option<PeerModel>,
    pub peer_before: Option<PeerModel>,
    pub peer_after: Option<PeerModel>,
    pub related: Seq<Seq<char>>,
    pub snr: i32,
    pub dt: FloatBits,
    pub freq: FloatBits,
    pub columns: (Seq<char>, Seq<char>, Seq<char>, Seq<char>),
    pub text: Seq<char>,
}

impl View for LoggedDecode {
    type V = LogModel;

    open spec fn view(&self) -> LogModel {
        LogModel {
            at: self.received_at,
            slot_index: self.slot_index,
            stage: self.decode_stage,
            sender: self.sender_call@,
            peer: peer_opt(self.peer),
            peer_before: peer_opt(self.peer_before),
            peer_after: peer_opt(self.peer_after),
            related: text::texts(self.related_calls@),
            snr: self.snr_db,
            dt: self.dt_seconds,
            freq: self.freq_hz,
            columns: (self.kind@, self.field1@, self.field2@, self.info@),
            text: self.text@,
        }
    }
}

pub open spec fn log_models(logs: Seq<LoggedDecode>) -> Seq<LogModel> {
    logs.map_values(|l: LoggedDecode| l@)
}

pub open spec fn station_models(
    stations: Map<Seq<char>, StationState>,
) -> Map<Seq<char>, StationModel> {
    stations.map_values(|s: StationState| s@)
}

/// The callsigns that hashes are known to stand for.
#[verifier::ext_equal]
pub struct HashNames {
    pub h12: Map<u16, Seq<char>>,
    pub h22: Map<u32, Seq<char>>,
}

#[verifier::ext_equal]
pub struct TrackerModel {
    pub mode: DecoderMode,
    pub stations: Map<Seq<char>, StationModel>,
    pub logs: Seq<LogModel>,
    pub names: HashNames,
}

/// The peer by its call where that is known.
pub open spec fn resolved(names: HashNames, peer: PeerModel) -> PeerModel {
    match peer {
        PeerModel::Callsign(call) => peer,
        PeerModel::Hash12(raw) => if names.h12.contains_key(raw) {
            PeerModel::Callsign(names.h12[raw])
        } else {
            peer
        },
        PeerModel::Hash22(raw) => if names.h22.contains_key(raw) {
            PeerModel::Callsign(names.h22[raw])
        } else {
            peer
        },
    }
}

pub open spec fn same_peer(names: HashNames, left: PeerModel, right: PeerModel) -> bool {
    resolved(names, left) == resolved(names, right)
}

/// Of two names for a peer, the one by which to go on: its call if either has it, else the newer.
pub open spec fn preferred_peer(
    names: HashNames,
    existing: PeerModel,
    observed: PeerModel,
) -> PeerModel {
    if resolved(names, existing) is Callsign && !(resolved(names, observed) is Callsign) {
        resolved(names, existing)
    } else {
        resolved(names, observed)
    }
}

/// How a peer is shown.
pub open spec fn peer_text(names: HashNames, peer: PeerModel) -> Seq<char> {
    match resolved(names, peer) {
        PeerModel::Callsign(call) => call,
        PeerModel::Hash12(raw) => "<h12:"@ + text::zero_padded(text::numeral(raw as nat, 16), 3) + ">"@,
        PeerModel::Hash22(raw) => "<h22:"@ + text::zero_padded(text::numeral(raw as nat, 16), 6) + ">"@,
    }
}

pub open spec fn peer_text_opt(names: HashNames, peer: Option<PeerModel>) -> Option<Seq<char>> {
    match peer {
        Some(p) => Some(peer_text(names, p)),
        None => None,
    }
}

/// The peer that a call field names, unless it is a token.
pub open spec fn peer_in_field(names: HashNames, field: StructuredCallField) -> Option<PeerModel> {
    match field.value {
        StructuredCallValue::StandardCall { callsign } => Some(PeerModel::Callsign(callsign@)),
        StructuredCallValue::Hash22 { hash, .. } => Some(resolved(names, PeerModel::Hash22(hash))),
        StructuredCallValue::Token { .. } => None,
    }
}

/// The station that a message is addressed to.
pub open spec fn first_peer(names: HashNames, message: StructuredMessage) -> Option<PeerModel> {
    match message {
        StructuredMessage::Standard { first, .. } => peer_in_field(names, first),
        StructuredMessage::Nonstandard { hashed_call, plain_call, hashed_is_second, cq, .. } => {
            if cq {
                None
            } else if hashed_is_second {
                Some(PeerModel::Callsign(plain_call.callsign@))
            } else {
                Some(resolved(names, PeerModel::Hash12(hashed_call.raw)))
            }
        },
        StructuredMessage::Dxpedition { completed_call, .. } => peer_in_field(names, completed_call),
        StructuredMessage::FieldDay { first, .. } => peer_in_field(names, first),
        StructuredMessage::RttyContest { first, .. } => peer_in_field(names, first),
        StructuredMessage::EuVhf { hashed_call12, .. } => Some(
            resolved(names, PeerModel::Hash12(hashed_call12.raw)),
        ),
        StructuredMessage::FreeText => None,
        StructuredMessage::Unsupported => None,
    }
}

/// `names` with what a call field tells.
pub open spec fn named_by_field(names: HashNames, field: StructuredCallField) -> HashNames {
    match field.value {
        StructuredCallValue::Hash22 { hash, resolved_callsign } => named22(names, hash, text::text_opt(resolved_callsign)),
        _ => names,
    }
}

pub open spec fn named12(names: HashNames, raw: u16, call: Option<Seq<char>>) -> HashNames {
    match call {
        Some(c) => HashNames { h12: names.h12.insert(raw, c), ..names },
        None => names,
    }
}

pub open spec fn named22(names: HashNames, raw: u32, call: Option<Seq<char>>) -> HashNames {
    match call {
        Some(c) => HashNames { h22: names.h22.insert(raw, c), ..names },
        None => names,
    }
}

/// `names` with what a message tells of the calls behind hashes.
pub open spec fn named_by(names: HashNames, message: StructuredMessage) -> HashNames {
    match message {
        StructuredMessage::Standard { first, second, .. } => named_by_field(
            named_by_field(names, first),
            second,
        ),
        StructuredMessage::Nonstandard { hashed_call, .. } => named12(
            names,
            hashed_call.raw,
            text::text_opt(hashed_call.resolved_callsign),
        ),
        StructuredMessage::EuVhf { hashed_call12, hashed_call22, .. } => named22(
            named12(names, hashed_call12.raw, text::text_opt(hashed_call12.resolved_callsign)),
            hashed_call22.raw,
            text::text_opt(hashed_call22.resolved_callsign),
        ),
        _ => names,
    }
}

/// `names` with what each of the messages tells, in their order.
pub open spec fn named_by_all(names: HashNames, decodes: Seq<DecodedMessage>) -> HashNames
    decreases decodes.len(),
{
    if decodes.len() == 0 {
        names
    } else {
        named_by(named_by_all(names, decodes.drop_last()), decodes.last().message)
    }
}

/// What a message makes of its sender's contact: it ends it, starts one with the station that it is
/// addressed to, or goes on with it.
pub open spec fn contact_after(
    before: StationModel,
    names: HashNames,
    at: Timestamp,
    message: StructuredMessage,
) -> StationModel {
    let over = |active: (Timestamp, PeerModel)|
        CompletedModel { started_at: active.0, ended_at: at, peer: active.1 };
    if message::ends_qso(message) {
        match before.active {
            Some(active) => StationModel {
                active: None,
                last_ended: Some(at),
                history: before.history.push(over(active)),
                ..before
            },
            None => before,
        }
    } else {
        match (first_peer(names, message), before.active) {
            (None, _) => before,
            (Some(peer), None) => StationModel { active: Some((at, peer)), ..before },
            (Some(peer), Some(active)) => if same_peer(names, active.1, peer) {
                StationModel {
                    active: Some((active.0, preferred_peer(names, active.1, peer))),
                    ..before
                }
            } else {
                StationModel {
                    active: Some((at, peer)),
                    history: before.history.push(over(active)),
                    ..before
                }
            },
        }
    }
}

/// A station of which nothing but this message has been heard, before it is looked at for a contact.
pub open spec fn first_heard(
    mode: DecoderMode,
    at: Timestamp,
    stage: DecodeStage,
    decode: DecodedMessage,
) -> StationModel {
    StationModel {
        heard_at: at,
        slot_index: slots::slot_index(mode, at) as u64,
        stage,
        freq: decode.freq_hz,
        snr: decode.snr_db,
        family: slots::slot_family(mode, at),
        kind: message::message_kind(decode.message),
        text: decode.text@,
        json: decode.structured_json@,
        active: None,
        last_ended: None,
        history: Seq::empty(),
    }
}

/// The station with the message as the last one heard of it.
pub open spec fn reheard(
    before: Option<StationModel>,
    mode: DecoderMode,
    at: Timestamp,
    stage: DecodeStage,
    decode: DecodedMessage,
) -> StationModel {
    let heard = first_heard(mode, at, stage, decode);
    match before {
        Some(b) => StationModel {
            active: b.active,
            last_ended: b.last_ended,
            history: b.history,
            ..heard
        },
        None => heard,
    }
}

pub open spec fn active_peer(station: Option<StationModel>) -> Option<PeerModel> {
    match station {
        Some(s) => match s.active {
            Some(a) => Some(a.1),
            None => None,
        },
        None => None,
    }
}

pub open spec fn first_some(a: Option<PeerModel>, b: Option<PeerModel>) -> Option<PeerModel> {
    match a {
        Some(p) => Some(p),
        None => b,
    }
}

/// The log line of a message.
pub open spec fn log_line(
    before: Option<StationModel>,
    after: StationModel,
    names: HashNames,
    mode: DecoderMode,
    at: Timestamp,
    stage: DecodeStage,
    sender: Seq<char>,
    decode: DecodedMessage,
) -> LogModel {
    let peer_before = active_peer(before);
    let peer_after = active_peer(Some(after));
    LogModel {
        at,
        slot_index: slots::slot_index(mode, at) as u64,
        stage,
        sender,
        peer: if message::is_cq(decode.message) {
            None
        } else {
            first_some(first_peer(names, decode.message), first_some(peer_after, peer_before))
        },
        peer_before,
        peer_after,
        related: message::related_calls(decode.message),
        snr: decode.snr_db,
        dt: decode.dt_seconds,
        freq: decode.freq_hz,
        columns: message::columns(decode.message),
        text: decode.text@,
    }
}

/// Where the log holds a line of this sender in this slot; its length where it holds none.
pub open spec fn log_place(logs: Seq<LogModel>, sender: Seq<char>, slot_index: u64) -> int
    decreases logs.len(),
{
    if logs.len() == 0 {
        0
    } else if logs[0].sender == sender && logs[0].slot_index == slot_index {
        0
    } else {
        1 + log_place(logs.drop_first(), sender, slot_index)
    }
}

/// The log with a line put in: in place of an earlier stage's line of the same sender and slot, or
/// at the end.
pub open spec fn logged(logs: Seq<LogModel>, line: LogModel) -> Seq<LogModel> {
    let place = log_place(logs, line.sender, line.slot_index);
    if place == logs.len() {
        logs.push(line)
    } else if line.stage.order() >= logs[place].stage.order() {
        logs.update(place, line)
    } else {
        logs
    }
}

/// Something later has been heard of the station already.
pub open spec fn outdated(station: StationModel, slot_index: int, stage: DecodeStage) -> bool {
    slot_index < station.slot_index || (slot_index == station.slot_index && stage.order()
        < station.stage.order())
}

pub open spec fn station_at(tracker: TrackerModel, call: Seq<char>) -> Option<StationModel> {
    if tracker.stations.contains_key(call) {
        Some(tracker.stations[call])
    } else {
        None
    }
}

/// The tracker once a message has been heard. One without a known sender, or older than what its
/// sender was last heard with, changes nothing.
pub open spec fn heard(
    tracker: TrackerModel,
    at: Timestamp,
    stage: DecodeStage,
    decode: DecodedMessage,
) -> TrackerModel {
    match message::sender_of(decode.message) {
        None => tracker,
        Some(sender) => {
            let before = station_at(tracker, sender);
            if before matches Some(b) && outdated(b, slots::slot_index(tracker.mode, at), stage) {
                tracker
            } else {
                let after = contact_after(
                    reheard(before, tracker.mode, at, stage, decode),
                    tracker.names,
                    at,
                    decode.message,
                );
                TrackerModel {
                    stations: tracker.stations.insert(sender, after),
                    logs: logged(
                        tracker.logs,
                        log_line(before, after, tracker.names, tracker.mode, at, stage, sender, decode),
                    ),
                    ..tracker
                }
            }
        },
    }
}

/// The tracker once the messages at the places in `order` have been heard one after the other.
pub open spec fn heard_all(
    tracker: TrackerModel,
    at: Timestamp,
    stage: DecodeStage,
    decodes: Seq<DecodedMessage>,
    order: Seq<int>,
) -> TrackerModel
    decreases order.len(),
{
    if order.len() == 0 {
        tracker
    } else {
        heard(
            heard_all(tracker, at, stage, decodes, order.drop_last()),
            at,
            stage,
            decodes[order.last()],
        )
    }
}

pub open spec fn sender_key(decode: DecodedMessage) -> Seq<char> {
    match message::sender_of(decode.message) {
        Some(s) => s,
        None => Seq::empty(),
    }
}

/// Messages are taken by sender; of one sender, those that end a contact come after the others.
pub open spec fn taken_before(decodes: Seq<DecodedMessage>, i: int, j: int) -> bool {
    let a = sender_key(decodes[i]);
    let b = sender_key(decodes[j]);
    let a_ends = message::ends_qso(decodes[i].message);
    let b_ends = message::ends_qso(decodes[j].message);
    text::text_lt(a, b) || (a == b && ((!a_ends && b_ends) || (a_ends == b_ends && i < j)))
}

/// The places of the messages with a known sender.
pub open spec fn with_sender(decodes: Seq<DecodedMessage>) -> Set<int> {
    Set::new(|i: int| 0 <= i < decodes.len() && message::sender_of(decodes[i].message) is Some)
}

/// The order in which the messages of a stage are taken.
pub open spec fn taking_order(decodes: Seq<DecodedMessage>) -> Seq<int> {
    rank::ranking(with_sender(decodes), |i: int, j: int| taken_before(decodes, i, j))
}

pub open spec fn kept(now: Timestamp, at: Timestamp) -> bool {
    clock::since(now, at) <= STATION_RETENTION
}

/// The log without the lines at its head that are too old.
pub open spec fn fresh_logs(logs: Seq<LogModel>, now: Timestamp) -> Seq<LogModel>
    decreases logs.len(),
{
    if logs.len() > 0 && !kept(now, logs[0].at) {
        fresh_logs(logs.drop_first(), now)
    } else {
        logs
    }
}

/// The lines at the head of the log that are too old.
pub open spec fn aged_logs(logs: Seq<LogModel>, now: Timestamp) -> Seq<LogModel> {
    logs.take(logs.len() - fresh_logs(logs, now).len())
}

pub open spec fn fresh_history(
    history: Seq<CompletedModel>,
    now: Timestamp,
) -> Seq<CompletedModel> {
    history.filter(|q: CompletedModel| kept(now, q.ended_at))
}

/// The stations heard within the hour, each with its contacts that ended within the hour.
pub open spec fn fresh_stations(stations: Map<Seq<char>, StationModel>, now: Timestamp) -> Map<
    Seq<char>,
    StationModel,
> {
    Map::new(
        |call: Seq<char>| stations.contains_key(call) && kept(now, stations[call].heard_at),
        |call: Seq<char>|
            StationModel { history: fresh_history(stations[call].history, now), ..stations[call] },
    )
}

pub open spec fn pruned(tracker: TrackerModel, now: Timestamp) -> TrackerModel {
    TrackerModel {
        stations: fresh_stations(tracker.stations, now),
        logs: fresh_logs(tracker.logs, now),
        ..tracker
    }
}

/// The tracker once the messages of a stage have been heard, before anything old is forgotten.
pub open spec fn heard_stage(
    tracker: TrackerModel,
    at: Timestamp,
    stage: DecodeStage,
    decodes: Seq<DecodedMessage>,
) -> TrackerModel {
    let named = TrackerModel { names: named_by_all(tracker.names, decodes), ..tracker };
    heard_all(named, at, stage, decodes, taking_order(decodes))
}

/// The tracker once the messages of a stage have come in.
pub open spec fn ingested(
    tracker: TrackerModel,
    at: Timestamp,
    stage: DecodeStage,
    decodes: Seq<DecodedMessage>,
) -> TrackerModel {
    pruned(heard_stage(tracker, at, stage, decodes), at)
}

pub open spec fn blank_tracker(mode: DecoderMode) -> TrackerModel {
    TrackerModel {
        mode,
        stations: Map::empty(),
        logs: Seq::empty(),
        names: HashNames { h12: Map::empty(), h22: Map::empty() },
    }
}

#[derive(Debug)]
pub struct StationTracker {
    pub mode: DecoderMode,
    pub stations: TextMap<StationState>,
    pub logs: Vec<LoggedDecode>,
    pub hash12_resolutions: BTreeMap<u16, String>,
    pub hash22_resolutions: BTreeMap<u32, String>,
}

impl View for StationTracker {
    type V = TrackerModel;

    open spec fn view(&self) -> TrackerModel {
        TrackerModel {
            mode: self.mode,
            stations: station_models(self.stations@),
            logs: log_models(self.logs@),
            names: self.names(),
        }
    }
}

impl StationTracker {
    pub open spec fn names(&self) -> HashNames {
        HashNames {
            h12: self.hash12_resolutions@.map_values(|s: String| s@),
            h22: self.hash22_resolutions@.map_values(|s: String| s@),
        }
    }

    pub open spec fn wf(&self) -> bool {
        self.stations.wf()
    }

    pub fn new() -> (r: Self)
        ensures
            r.wf(),
            r@ == blank_tracker(DecoderMode::Ft8),
    {
        let r = StationTracker {
            mode: DecoderMode::Ft8,
            stations: TextMap::new(),
            logs: Vec::new(),
            hash12_resolutions: BTreeMap::new(),
            hash22_resolutions: BTreeMap::new(),
        };
        assert(r@ =~= blank_tracker(DecoderMode::Ft8));
        r
    }

    /// Forgets everything, for a receiver that changes to `mode`.
    pub fn reset_for_mode(&mut self, mode: DecoderMode)
        ensures
            final(self).wf(),
            final(self)@ == blank_tracker(mode),
    {
        self.mode = mode;
        self.stations.clear();
        self.logs.clear();
        self.hash12_resolutions.clear();
        self.hash22_resolutions.clear();
        assert(self@ =~= blank_tracker(mode));
    }

    fn learn12(&mut self, raw: u16, call: &Option<String>)
        requires
            old(self).wf(),
        ensures
            final(self).wf(),
            final(self)@ == (TrackerModel {
                names: named12(old(self)@.names, raw, text::text_opt(*call)),
                ..old(self)@
            }),
    {
        if let Some(c) = call {
            self.hash12_resolutions.insert(raw, c.clone());
            assert(self.names().h12 =~= old(self).names().h12.insert(raw, c@));
        }
        assert(self@ =~= (TrackerModel {
            names: named12(old(self)@.names, raw, text::text_opt(*call)),
            ..old(self)@
        }));
    }

    fn learn22(&mut self, raw: u32, call: &Option<String>)
        requires
            old(self).wf(),
        ensures
            final(self).wf(),
            final(self)@ == (TrackerModel {
                names: named22(old(self)@.names, raw, text::text_opt(*call)),
                ..old(self)@
            }),
    {
        if let Some(c) = call {
            self.hash22_resolutions.insert(raw, c.clone());
            assert(self.names().h22 =~= old(self).names().h22.insert(raw, c@));
        }
        assert(self@ =~= (TrackerModel {
            names: named22(old(self)@.names, raw, text::text_opt(*call)),
            ..old(self)@
        }));
    }

    fn observe_structured_call(&mut self, field: &StructuredCallField)
        requires
            old(self).wf(),
        ensures
            final(self).wf(),
            final(self)@ == (TrackerModel {
                names: named_by_field(old(self)@.names, *field),
                ..old(self)@
            }),
    {
        if let StructuredCallValue::Hash22 { hash, resolved_callsign } = &field.value {
            self.learn22(*hash, resolved_callsign);
        }
    }

    /// Takes up the calls behind hashes that a message tells.
    pub fn observe_message_resolutions(&mut self, message: &StructuredMessage)
        requires
            old(self).wf(),
        ensures
            final(self).wf(),
            final(self)@ == (TrackerModel {
                names: named_by(old(self)@.names, *message),
                ..old(self)@
            }),
    {
        match message {
            StructuredMessage::Standard { first, second, .. } => {
                self.observe_structured_call(first);
                self.observe_structured_call(second);
            },
            StructuredMessage::Nonstandard { hashed_call, .. } => {
                self.learn12(hashed_call.raw, &hashed_call.resolved_callsign);
            },
            StructuredMessage::EuVhf { hashed_call12, hashed_call22, .. } => {
                self.learn12(hashed_call12.raw, &hashed_call12.resolved_callsign);
                self.learn22(hashed_call22.raw, &hashed_call22.resolved_callsign);
            },
            _ => {},
        }
    }

    pub fn resolve_peer(&self, peer: PeerRef) -> (r: PeerRef)
        ensures
            r@ == resolved(self@.names, peer@),
    {
        match peer {
            PeerRef::Callsign(call) => PeerRef::Callsign(call),
            PeerRef::Hash12(raw) => match self.hash12_resolutions.get(&raw) {
                Some(call) => PeerRef::Callsign(call.clone()),
                None => PeerRef::Hash12(raw),
            },
            PeerRef::Hash22(raw) => match self.hash22_resolutions.get(&raw) {
                Some(call) => PeerRef::Callsign(call.clone()),
                None => PeerRef::Hash22(raw),
            },
        }
    }

    pub fn same_peer_identity(&self, left: &PeerRef, right: &PeerRef) -> (r: bool)
        ensures
            r == same_peer(self@.names, left@, right@),
    {
        match (self.resolve_peer(left.clone()), self.resolve_peer(right.clone())) {
            (PeerRef::Callsign(l), PeerRef::Callsign(r)) => text::str_eq(l.as_str(), r.as_str()),
            (PeerRef::Hash12(l), PeerRef::Hash12(r)) => l == r,
            (PeerRef::Hash22(l), PeerRef::Hash22(r)) => l == r,
            _ => false,
        }
    }

    pub fn prefer_peer_identity(&self, existing: PeerRef, observed: PeerRef) -> (r: PeerRef)
        ensures
            r@ == preferred_peer(self@.names, existing@, observed@),
    {
        let known = self.resolve_peer(existing);
        let seen = self.resolve_peer(observed);
        match (&known, &seen) {
            (PeerRef::Callsign(_), PeerRef::Callsign(_)) => seen,
            (PeerRef::Callsign(_), _) => known,
            _ => seen,
        }
    }

    pub fn peer_display(&self, peer: &PeerRef) -> (r: String)
        ensures
            r@ == peer_text(self@.names, peer@),
    {
        match self.resolve_peer(peer.clone()) {
            PeerRef::Callsign(call) => call,
            PeerRef::Hash12(raw) => text::cat3(
                "<h12:",
                text::padded_hex(raw as u64, 3).as_str(),
                ">",
            ),
            PeerRef::Hash22(raw) => text::cat3(
                "<h22:",
                text::padded_hex(raw as u64, 6).as_str(),
                ">",
            ),
        }
    }

    fn peer_of_field(&self, field: &StructuredCallField) -> (r: Option<PeerRef>)
        ensures
            peer_opt(r) == peer_in_field(self@.names, *field),
    {
        match &field.value {
            StructuredCallValue::StandardCall { callsign } => Some(PeerRef::Callsign(callsign.clone())),
            StructuredCallValue::Hash22 { hash, .. } => Some(self.resolve_peer(PeerRef::Hash22(*hash))),
            StructuredCallValue::Token { .. } => None,
        }
    }
}

pub fn qso_peer_from_first_field(
    message: &StructuredMessage,
    tracker: &StationTracker,
) -> (r: Option<PeerRef>)
    ensures
        peer_opt(r) == first_peer(tracker@.names, *message),
{
    match message {
        StructuredMessage::Standard { first, .. } => tracker.peer_of_field(first),
        StructuredMessage::Nonstandard { hashed_call, plain_call, hashed_is_second, cq, .. } => {
            if *cq {
                None
            } else if *hashed_is_second {
                Some(PeerRef::Callsign(plain_call.callsign.clone()))
            } else {
                Some(tracker.resolve_peer(PeerRef::Hash12(hashed_call.raw)))
            }
        },
        StructuredMessage::Dxpedition { completed_call, .. } => tracker.peer_of_field(completed_call),
        StructuredMessage::FieldDay { first, .. } => tracker.peer_of_field(first),
        StructuredMessage::RttyContest { first, .. } => tracker.peer_of_field(first),
        StructuredMessage::EuVhf { hashed_call12, .. } => Some(
            tracker.resolve_peer(PeerRef::Hash12(hashed_call12.raw)),
        ),
        StructuredMessage::FreeText => None,
        StructuredMessage::Unsupported => None,
    }
}

impl StationTracker {
    /// What a message makes of its sender's contact. `observed` is the station that the message is
    /// addressed to.
    fn apply_contact(
        &self,
        state: StationState,
        received_at: Timestamp,
        message: &StructuredMessage,
        observed: &Option<PeerRef>,
    ) -> (r: StationState)
        requires
            peer_opt(*observed) == first_peer(self@.names, *message),
        ensures
            r@ == contact_after(state@, self@.names, received_at, *message),
    {
        let mut state = state;
        let ghost before = state@;
        let ghost history = state.qso_history@;
        if message::message_ends_qso(message) {
            if let Some(active) = state.active_qso {
                state.active_qso = None;
                state.last_qso_ended_at = Some(received_at);
                state.qso_history.push(
                    CompletedQso {
                        started_at: active.since,
                        ended_at: received_at,
                        peer: active.peer,
                    },
                );
                assert(completed(state.qso_history@) =~= completed(history).push(
                    state.qso_history@.last()@,
                ));
            }
        } else if let Some(peer) = observed {
            let peer = peer.clone();
            match state.active_qso {
                None => {
                    state.active_qso = Some(ActiveQso { since: received_at, peer });
                },
                Some(active) => {
                    if self.same_peer_identity(&active.peer, &peer) {
                        let known = self.prefer_peer_identity(active.peer, peer);
                        state.active_qso = Some(ActiveQso { since: active.since, peer: known });
                    } else {
                        state.qso_history.push(
                            CompletedQso {
                                started_at: active.since,
                                ended_at: received_at,
                                peer: active.peer,
                            },
                        );
                        state.active_qso = Some(ActiveQso { since: received_at, peer });
                        assert(completed(state.qso_history@) =~= completed(history).push(
                            state.qso_history@.last()@,
                        ));
                    }
                },
            }
        }
        assert(state@ =~= contact_after(before, self@.names, received_at, *message));
        state
    }

    /// Puts a line into the log.
    fn log(&mut self, line: LoggedDecode)
        requires
            old(self).wf(),
        ensures
            final(self).wf(),
            final(self)@ == (TrackerModel { logs: logged(old(self)@.logs, line@), ..old(self)@ }),
    {
        let ghost all = log_models(self.logs@);
        let mut i: usize = 0;
        let mut found = false;
        assert(all.skip(0) =~= all);
        while i < self.logs.len() && !found
            invariant
                i <= self.logs@.len(),
                self == old(self),
                all == log_models(self.logs@),
                log_place(all, line@.sender, line@.slot_index) == i + log_place(
                    all.skip(i as int),
                    line@.sender,
                    line@.slot_index,
                ),
                found ==> i < self.logs@.len() && all[i as int].sender == line@.sender
                    && all[i as int].slot_index == line@.slot_index,
            decreases self.logs@.len() - i + (if found { 0int } else { 1 }),
        {
            assert(all.skip(i as int)[0] == self.logs@[i as int]@);
            if text::str_eq(self.logs[i].sender_call.as_str(), line.sender_call.as_str())
                && self.logs[i].slot_index == line.slot_index {
                found = true;
            } else {
                assert(all.skip(i as int).drop_first() =~= all.skip(i + 1));
                i += 1;
            }
        }
        if found {
            assert(all.skip(i as int)[0] == all[i as int]);
            if !line.decode_stage.earlier_than(self.logs[i].decode_stage) {
                self.logs.set(i, line);
                assert(log_models(self.logs@) =~= all.update(i as int, line@));
            }
        } else {
            self.logs.push(line);
            assert(log_models(self.logs@) =~= all.push(line@));
        }
        assert(self@ =~= (TrackerModel { logs: logged(old(self)@.logs, line@), ..old(self)@ }));
    }

    /// Takes in one message that was received in the slot of `received_at`.
    pub fn ingest_decode_stage(
        &mut self,
        received_at: Timestamp,
        stage: DecodeStage,
        decode: &DecodedMessage,
    )
        requires
            old(self).wf(),
        ensures
            final(self).wf(),
            final(self)@ == heard(old(self)@, received_at, stage, *decode),
    {
        let sender_call = match message::semantic_sender_call(&decode.message) {
            Some(call) => call,
            None => {
                return ;
            },
        };
        let ghost start = self@;
        let current_slot_index: u64 = slots::slot_index_for_mode(self.mode, received_at);
        if let Some(existing) = self.stations.get(sender_call.as_str()) {
            assert(start.stations[sender_call@] == existing@);
            if current_slot_index < existing.last_heard_slot_index || (current_slot_index
                == existing.last_heard_slot_index && stage.earlier_than(
                existing.last_heard_decode_stage,
            )) {
                return ;
            }
        }
        let observed = qso_peer_from_first_field(&decode.message, self);
        let ghost before = station_at(start, sender_call@);
        let known = self.stations.remove(sender_call.as_str());
        let slot_family = slots::slot_family_for_mode(self.mode, received_at);
        let kind = message::station_message_kind(&decode.message);
        let peer_before = match &known {
            Some(state) => match &state.active_qso {
                Some(active) => Some(active.peer.clone()),
                None => None,
            },
            None => None,
        };
        assert(peer_opt(peer_before) == active_peer(before));
        let state = match known {
            Some(state) => StationState {
                last_heard_at: received_at,
                last_heard_slot_index: current_slot_index,
                last_heard_decode_stage: stage,
                last_heard_freq_hz: decode.freq_hz,
                last_heard_snr_db: decode.snr_db,
                last_heard_slot_family: slot_family,
                last_message_kind: kind,
                last_text: decode.text.clone(),
                last_structured_json: decode.structured_json.clone(),
                active_qso: state.active_qso,
                last_qso_ended_at: state.last_qso_ended_at,
                qso_history: state.qso_history,
            },
            None => StationState {
                last_heard_at: received_at,
                last_heard_slot_index: current_slot_index,
                last_heard_decode_stage: stage,
                last_heard_freq_hz: decode.freq_hz,
                last_heard_snr_db: decode.snr_db,
                last_heard_slot_family: slot_family,
                last_message_kind: kind,
                last_text: decode.text.clone(),
                last_structured_json: decode.structured_json.clone(),
                active_qso: None,
                last_qso_ended_at: None,
                qso_history: Vec::new(),
            },
        };
        assert(state@ =~= reheard(before, start.mode, received_at, stage, *decode));
        let state = self.apply_contact(state, received_at, &decode.message, &observed);
        let ghost after = state@;
        let peer_after = match &state.active_qso {
            Some(active) => Some(active.peer.clone()),
            None => None,
        };
        let (kind, field1, field2, info) = message::decode_columns(&decode.message);
        let peer = if message::message_is_cq(&decode.message) {
            None
        } else if observed.is_some() {
            observed
        } else if peer_after.is_some() {
            clone_peer_opt(&peer_after)
        } else {
            clone_peer_opt(&peer_before)
        };
        let line = LoggedDecode {
            received_at,
            slot_index: current_slot_index,
            decode_stage: stage,
            sender_call: sender_call.clone(),
            peer,
            peer_before,
            peer_after,
            related_calls: message::message_related_calls(&decode.message),
            snr_db: decode.snr_db,
            dt_seconds: decode.dt_seconds,
            freq_hz: decode.freq_hz,
            kind,
            field1,
            field2,
            info,
            text: decode.text.clone(),
        };
        assert(line@ == log_line(
            before,
            after,
            start.names,
            start.mode,
            received_at,
            stage,
            sender_call@,
            *decode,
        ));
        self.stations.insert(sender_call, state);
        assert(self@.stations =~= start.stations.insert(sender_call@, after));
        self.log(line);
    }

    /// Forgets what is more than an hour old.
    pub fn prune(&mut self, now: Timestamp)
        requires
            old(self).wf(),
        ensures
            final(self).wf(),
            final(self)@ == pruned(old(self)@, now),
    {
        self.prune_logs(now);
        self.prune_stations(now);
    }

    /// How many lines at the head of the log are too old.
    fn aged_count(&self, now: Timestamp) -> (r: usize)
        ensures
            r <= self@.logs.len(),
            fresh_logs(self@.logs, now) == self@.logs.skip(r as int),
            aged_logs(self@.logs, now) == self@.logs.take(r as int),
    {
        let ghost all = log_models(self.logs@);
        let mut i: usize = 0;
        assert(all.skip(0) =~= all);
        while i < self.logs.len() && clock::elapsed(now, self.logs[i].received_at)
            > STATION_RETENTION
            invariant
                i <= self.logs@.len(),
                all == log_models(self.logs@),
                fresh_logs(all, now) == fresh_logs(all.skip(i as int), now),
            decreases self.logs@.len() - i,
        {
            assert(all.skip(i as int)[0] == self.logs@[i as int]@);
            assert(all.skip(i as int).drop_first() =~= all.skip(i + 1));
            i += 1;
        }
        if i < self.logs.len() {
            assert(all.skip(i as int)[0] == self.logs@[i as int]@);
        }
        i
    }

    fn prune_logs(&mut self, now: Timestamp)
        requires
            old(self).wf(),
        ensures
            final(self).wf(),
            final(self)@ == (TrackerModel { logs: fresh_logs(old(self)@.logs, now), ..old(self)@ }),
    {
        let i: usize = self.aged_count(now);
        self.logs = self.logs.split_off(i);
        assert(log_models(self.logs@) =~= old(self)@.logs.skip(i as int));
        assert(self@ =~= (TrackerModel { logs: fresh_logs(old(self)@.logs, now), ..old(self)@ }));
    }

    fn prune_stations(&mut self, now: Timestamp)
        requires
            old(self).wf(),
        ensures
            final(self).wf(),
            final(self)@ == (TrackerModel {
                stations: fresh_stations(old(self)@.stations, now),
                ..old(self)@
            }),
    {
        let ghost start = self@.stations;
        let mut kept_stations: TextMap<StationState> = TextMap::new();
        let mut done = false;
        while !done
            invariant
                self.wf(),
                kept_stations.wf(),
                start == old(self)@.stations,
                self@.mode == old(self)@.mode,
                self@.logs == old(self)@.logs,
                self@.names == old(self)@.names,
                forall|k: Seq<char>| #[trigger]
                    self@.stations.contains_key(k) ==> start.contains_key(k) && self@.stations[k]
                        == start[k],
                forall|k: Seq<char>| #[trigger]
                    kept_stations@.contains_key(k) <==> start.contains_key(k)
                        && !self@.stations.contains_key(k) && kept(now, start[k].heard_at),
                forall|k: Seq<char>| #[trigger]
                    kept_stations@.contains_key(k) ==> kept_stations@[k]@ == (StationModel {
                        history: fresh_history(start[k].history, now),
                        ..start[k]
                    }),
                done ==> self.stations@ == Map::<Seq<char>, StationState>::empty(),
            decreases self.stations.keys().len() + (if done { 0int } else { 1 }),
        {
            let ghost rest = self@.stations;
            match self.stations.pop_last() {
                Some((call, state)) => {
                    let ghost key = call@;
                    let ghost before = kept_stations@;
                    assert(rest.contains_key(key) && rest[key] == state@);
                    assert(self@.stations =~= rest.remove(key));
                    if clock::elapsed(now, state.last_heard_at) <= STATION_RETENTION {
                        let mut state = state;
                        state.qso_history = prune_history(state.qso_history, now);
                        kept_stations.insert(call, state);
                    }
                    proof {
                        assert forall|k: Seq<char>| #[trigger] self@.stations.contains_key(k) implies start.contains_key(
                            k,
                        ) && self@.stations[k] == start[k] by {
                            assert(rest.contains_key(k));
                        }
                        assert forall|k: Seq<char>| #[trigger] kept_stations@.contains_key(k) <==> (
                        start.contains_key(k) && !self@.stations.contains_key(k) && kept(
                            now,
                            start[k].heard_at,
                        )) by {
                            if k != key {
                                assert(before.contains_key(k) == kept_stations@.contains_key(k));
                                assert(rest.contains_key(k) == self@.stations.contains_key(k));
                            }
                        }
                    }
                },
                None => {
                    done = true;
                },
            }
        }
        self.stations = kept_stations;
        assert(self@.stations =~= fresh_stations(start, now));
        assert(self@ =~= (TrackerModel {
            stations: fresh_stations(old(self)@.stations, now),
            ..old(self)@
        }));
    }

    /// Takes in the messages that one stage of a slot has brought, and forgets what is old.
    pub fn ingest_stage(
        &mut self,
        received_at: Timestamp,
        stage: DecodeStage,
        decodes: &[DecodedMessage],
    )
        requires
            old(self).wf(),
        ensures
            final(self).wf(),
            final(self)@ == ingested(old(self)@, received_at, stage, decodes@),
    {
        self.hear_stage(received_at, stage, decodes);
        self.prune(received_at);
    }

    /// Takes in the messages that one stage of a slot has brought.
    pub fn hear_stage(
        &mut self,
        received_at: Timestamp,
        stage: DecodeStage,
        decodes: &[DecodedMessage],
    )
        requires
            old(self).wf(),
        ensures
            final(self).wf(),
            final(self)@ == heard_stage(old(self)@, received_at, stage, decodes@),
    {
        let ghost start = self@;
        let mut senders: Vec<Option<String>> = Vec::new();
        let mut ends: Vec<bool> = Vec::new();
        let mut members: Vec<usize> = Vec::new();
        let mut i: usize = 0;
        assert(self@ =~= (TrackerModel {
            names: named_by_all(start.names, decodes@.take(0)),
            ..start
        }));
        while i < decodes.len()
            invariant
                i <= decodes@.len(),
                self.wf(),
                self@ == (TrackerModel {
                    names: named_by_all(start.names, decodes@.take(i as int)),
                    ..start
                }),
                senders@.len() == i,
                ends@.len() == i,
                forall|k: int|
                    0 <= k < i ==> text::text_opt(#[trigger] senders@[k]) == message::sender_of(
                        decodes@[k].message,
                    ),
                forall|k: int|
                    0 <= k < i ==> #[trigger] ends@[k] == message::ends_qso(decodes@[k].message),
                members@.no_duplicates(),
                forall|k: int| 0 <= k < members@.len() ==> (#[trigger] members@[k]) < i,
                forall|k: int|
                    0 <= k < i ==> (rank::as_ints(members@).contains(k) <==> #[trigger] message::sender_of(
                        decodes@[k].message,
                    ) is Some),
            decreases decodes@.len() - i,
        {
            self.observe_message_resolutions(&decodes[i].message);
            assert(decodes@.take(i + 1).drop_last() =~= decodes@.take(i as int));
            let sender = message::semantic_sender_call(&decodes[i].message);
            let ghost earlier = members@;
            if sender.is_some() {
                members.push(i);
                assert(rank::as_ints(members@) =~= rank::as_ints(earlier).push(i as int));
                assert(rank::as_ints(members@)[earlier.len() as int] == i);
            }
            assert forall|k: int| 0 <= k < i + 1 implies (rank::as_ints(members@).contains(k)
                <==> #[trigger] message::sender_of(decodes@[k].message) is Some) by {
                if k < i {
                    if rank::as_ints(earlier).contains(k) {
                        let at = rank::as_ints(earlier).index_of(k);
                        assert(rank::as_ints(members@)[at] == k);
                    }
                    if rank::as_ints(members@).contains(k) {
                        let at = rank::as_ints(members@).index_of(k);
                        assert(at < earlier.len());
                        assert(rank::as_ints(earlier)[at] == k);
                    }
                } else if rank::as_ints(members@).contains(k) {
                    let at = rank::as_ints(members@).index_of(k);
                    assert(members@[at] == i);
                    if at < earlier.len() {
                        assert(earlier[at] < i);
                    }
                }
            }
            senders.push(sender);
            ends.push(message::message_ends_qso(&decodes[i].message));
            i += 1;
        }
        assert(decodes@.take(i as int) =~= decodes@);
        let by = TakingOrder { decodes, senders: &senders, ends: &ends };
        let order = rank::rank(&by, &members);
        let ghost ints = rank::as_ints(order@);
        proof {
            assert(rank::as_ints(members@).to_set() =~= with_sender(decodes@)) by {
                assert forall|k: int| #[trigger] rank::as_ints(members@).to_set().contains(k) implies with_sender(
                    decodes@,
                ).contains(k) by {
                    let at = rank::as_ints(members@).index_of(k);
                    assert(rank::as_ints(members@)[at] == k);
                    assert(members@[at] == k);
                    assert(message::sender_of(decodes@[k].message) is Some);
                }
                assert forall|k: int| #[trigger] with_sender(decodes@).contains(k) implies rank::as_ints(
                    members@,
                ).to_set().contains(k) by {
                    assert(message::sender_of(decodes@[k].message) is Some);
                }
            }
            assert((|i: int, j: int| by.precedes(i, j)) =~= (|i: int, j: int|
                taken_before(decodes@, i, j)));
            assert(ints == taking_order(decodes@));
        }
        let ghost named = self@;
        let mut n: usize = 0;
        assert(self@ == heard_all(named, received_at, stage, decodes@, ints.take(0)));
        while n < order.len()
            invariant
                n <= order@.len(),
                self.wf(),
                ints == rank::as_ints(order@),
                forall|k: int| 0 <= k < order@.len() ==> (#[trigger] order@[k]) < decodes@.len(),
                self@ == heard_all(named, received_at, stage, decodes@, ints.take(n as int)),
            decreases order@.len() - n,
        {
            let k: usize = order[n];
            assert(ints.take(n + 1).drop_last() =~= ints.take(n as int));
            assert(ints.take(n + 1).last() == k);
            self.ingest_decode_stage(received_at, stage, &decodes[k]);
            n += 1;
        }
        assert(ints.take(n as int) =~= ints);
    }

    pub fn ingest_frame(&mut self, received_at: Timestamp, decodes: &[DecodedMessage])
        requires
            old(self).wf(),
        ensures
            final(self).wf(),
            final(self)@ == ingested(old(self)@, received_at, DecodeStage::Full, decodes@),
    {
        self.ingest_stage(received_at, DecodeStage::Full, decodes);
    }
}

fn prune_history(history: Vec<CompletedQso>, now: Timestamp) -> (r: Vec<CompletedQso>)
    ensures
        completed(r@) == fresh_history(completed(history@), now),
{
    let ghost all = completed(history@);
    let ghost keep = |q: CompletedModel| kept(now, q.ended_at);
    let mut r = history;
    let mut i: usize = 0;
    let ghost mut n: int = 0;
    proof {
        reveal(Seq::filter);
        assert(completed(r@) =~= all.take(0).filter(keep) + all.skip(0));
    }
    while i < r.len()
        invariant
            0 <= n <= all.len(),
            i <= r@.len(),
            keep == (|q: CompletedModel| kept(now, q.ended_at)),
            i == all.take(n).filter(keep).len(),
            completed(r@) == all.take(n).filter(keep) + all.skip(n),
        decreases r@.len() - i,
    {
        let ghost before = completed(r@);
        proof {
            assert(before[i as int] == r@[i as int]@);
            assert(all.skip(n)[0] == before[i as int]);
            all.take(n).lemma_filter_push(all[n], keep);
            assert(all.take(n + 1) =~= all.take(n).push(all[n]));
            assert(all.skip(n) =~= seq![all[n]] + all.skip(n + 1));
        }
        if clock::elapsed(now, r[i].ended_at) <= STATION_RETENTION {
            i += 1;
        } else {
            let _ = r.remove(i);
            assert(completed(r@) =~= before.remove(i as int));
        }
        proof {
            n = n + 1;
            assert(completed(r@) =~= all.take(n).filter(keep) + all.skip(n));
        }
    }
    assert(n == all.len()) by {
        assert(all.skip(n).len() == 0);
    }
    assert(all.take(n) =~= all);
    assert(completed(r@) =~= all.filter(keep));
    r
}

struct TakingOrder<'a> {
    decodes: &'a [DecodedMessage],
    senders: &'a Vec<Option<String>>,
    ends: &'a Vec<bool>,
}

impl<'a> IndexOrder for TakingOrder<'a> {
    closed spec fn count(&self) -> nat {
        self.decodes@.len()
    }

    closed spec fn valid(&self) -> bool {
        &&& self.senders@.len() == self.decodes@.len()
        &&& self.ends@.len() == self.decodes@.len()
        &&& forall|k: int|
            0 <= k < self.decodes@.len() ==> text::text_opt(#[trigger] self.senders@[k])
                == message::sender_of(self.decodes@[k].message)
        &&& forall|k: int|
            0 <= k < self.decodes@.len() ==> #[trigger] self.ends@[k] == message::ends_qso(
                self.decodes@[k].message,
            )
    }

    closed spec fn precedes(&self, i: int, j: int) -> bool {
        taken_before(self.decodes@, i, j)
    }

    proof fn lemma_strict(&self) {
        lemma_taking_order_strict(self.decodes@);
        assert((|i: int, j: int| self.precedes(i, j)) =~= (|i: int, j: int|
            taken_before(self.decodes@, i, j)));
    }

    fn before(&self, i: usize, j: usize) -> (r: bool) {
        assert(text::text_opt(self.senders@[i as int]) == message::sender_of(
            self.decodes@[i as int].message,
        ));
        assert(text::text_opt(self.senders@[j as int]) == message::sender_of(
            self.decodes@[j as int].message,
        ));
        let a = match &self.senders[i] {
            Some(call) => call.clone(),
            None => String::new(),
        };
        let b = match &self.senders[j] {
            Some(call) => call.clone(),
            None => String::new(),
        };
        assert(a@ =~= sender_key(self.decodes@[i as int]));
        assert(b@ =~= sender_key(self.decodes@[j as int]));
        let a_ends: bool = self.ends[i];
        let b_ends: bool = self.ends[j];
        if text::text_less(a.as_str(), b.as_str()) {
            true
        } else if text::str_eq(a.as_str(), b.as_str()) {
            (!a_ends && b_ends) || (a_ends == b_ends && i < j)
        } else {
            false
        }
    }
}

pub proof fn lemma_taking_order_strict(decodes: Seq<DecodedMessage>)
    ensures
        rank::is_strict_order(
            Set::new(|i: int| 0 <= i < decodes.len()),
            |i: int, j: int| taken_before(decodes, i, j),
        ),
{
    let precedes = |i: int, j: int| taken_before(decodes, i, j);
    assert forall|i: int| !#[trigger] precedes(i, i) by {
        text::lemma_text_lt_irreflexive(sender_key(decodes[i]));
    }
    assert forall|i: int, j: int, k: int| #[trigger] precedes(i, j) && #[trigger] precedes(j, k) implies precedes(
        i,
        k,
    ) by {
        let a = sender_key(decodes[i]);
        let b = sender_key(decodes[j]);
        let c = sender_key(decodes[k]);
        if text::text_lt(a, b) && text::text_lt(b, c) {
            text::lemma_text_lt_transitive(a, b, c);
        }
    }
    assert forall|i: int, j: int| i != j implies #[trigger] precedes(i, j) || precedes(j, i) by {
        text::lemma_text_lt_total(sender_key(decodes[i]), sender_key(decodes[j]));
    }
}

/// What is known of a station when a contact with it starts.
#[derive(Debug)]
pub struct StationStartInfo {
    pub callsign: String,
    pub last_heard_at: Timestamp,
    pub last_heard_slot_family: SlotFamily,
    pub last_snr_db: i32,
    pub last_text: Option<String>,
    pub last_structured_json: Option<String>,
}

#[verifier::ext_equal]
pub struct StartInfoModel {
    pub callsign: Seq<char>,
    pub heard_at: Timestamp,
    pub family: SlotFamily,
    pub snr: i32,
    pub text: Option<Seq<char>>,
    pub json: Option<Seq<char>>,
}

impl View for StationStartInfo {
    type V = StartInfoModel;

    open spec fn view(&self) -> StartInfoModel {
        StartInfoModel {
            callsign: self.callsign@,
            heard_at: self.last_heard_at,
            family: self.last_heard_slot_family,
            snr: self.last_snr_db,
            text: text::text_opt(self.last_text),
            json: text::text_opt(self.last_structured_json),
        }
    }
}

pub open spec fn info_opt(info: Option<StationStartInfo>) -> Option<StartInfoModel> {
    match info {
        Some(i) => Some(i@),
        None => None,
    }
}

/// The text, unless it is empty.
pub open spec fn unless_empty(s: Seq<char>) -> Option<Seq<char>> {
    if s.len() == 0 {
        None
    } else {
        Some(s)
    }
}

fn some_text(s: &String) -> (r: Option<String>)
    ensures
        text::text_opt(r) == unless_empty(s@),
{
    if text::is_empty_text(s.as_str()) {
        None
    } else {
        Some(s.clone())
    }
}

/// What is known of a station, where it has been heard.
pub open spec fn start_info_of(
    tracker: TrackerModel,
    callsign: Seq<char>,
) -> Option<StartInfoModel> {
    match station_at(tracker, callsign) {
        Some(s) => Some(
            StartInfoModel {
                callsign,
                heard_at: s.heard_at,
                family: s.family,
                snr: s.snr,
                text: unless_empty(s.text),
                json: unless_empty(s.json),
            },
        ),
        None => None,
    }
}

/// The stations heard at or after `since`, but for one, whatever its case.
pub open spec fn senders_since(
    logs: Seq<LogModel>,
    since: Timestamp,
    excluded: Seq<char>,
) -> Set<Seq<char>> {
    logs.filter(
        |l: LogModel| l.at >= since && !text::same_ignoring_case(l.sender, excluded),
    ).map_values(|l: LogModel| l.sender).to_set()
}

/// How many lines of the station, whatever its case, the log holds from `since` on.
pub open spec fn decodes_since(logs: Seq<LogModel>, since: Timestamp, callsign: Seq<char>) -> nat {
    logs.filter(
        |l: LogModel| l.at >= since && text::same_ignoring_case(l.sender, callsign),
    ).len()
}

#[derive(Debug)]
pub struct WebCompletedQso {
    pub started_at: String,
    pub ended_at: String,
    pub peer: String,
}

#[derive(Debug)]
pub struct WebStationSummary {
    pub callsign: String,
    pub last_heard_at: String,
    pub last_heard_freq_hz: FloatBits,
    pub last_heard_snr_db: i32,
    pub last_heard_slot_family: String,
    pub is_in_qso: bool,
    pub in_qso_since: Option<String>,
    pub qso_with: Option<String>,
    pub last_qso_ended_at: Option<String>,
    pub qso_history: Vec<WebCompletedQso>,
}

#[derive(Debug)]
pub struct WebStationLog {
    pub timestamp: String,
    pub sender_call: String,
    pub peer: Option<String>,
    pub peer_before: Option<String>,
    pub peer_after: Option<String>,
    pub related_calls: Vec<String>,
    pub snr_db: i32,
    pub dt_seconds: FloatBits,
    pub freq_hz: FloatBits,
    pub kind: String,
    pub field1: String,
    pub field2: String,
    pub info: String,
    pub text: String,
}

/// A message from one station to another, one of which is ours.
#[derive(Debug)]
pub struct WebDirectCallLog {
    pub sort_epoch_ms: u64,
    pub timestamp: String,
    pub from_call: String,
    pub to_call: String,
    pub snr_db: Option<i32>,
    pub dt_seconds: Option<FloatBits>,
    pub freq_hz: Option<FloatBits>,
    pub text: String,
    pub is_ours: bool,
}

#[verifier::ext_equal]
pub struct DirectCallModel {
    pub sort_epoch_ms: int,
    pub timestamp: Seq<char>,
    pub from_call: Seq<char>,
    pub to_call: Seq<char>,
    pub snr: Option<i32>,
    pub dt: Option<FloatBits>,
    pub freq: Option<FloatBits>,
    pub text: Seq<char>,
    pub is_ours: bool,
}

impl View for WebDirectCallLog {
    type V = DirectCallModel;

    open spec fn view(&self) -> DirectCallModel {
        DirectCallModel {
            sort_epoch_ms: self.sort_epoch_ms as int,
            timestamp: self.timestamp@,
            from_call: self.from_call@,
            to_call: self.to_call@,
            snr: self.snr_db,
            dt: self.dt_seconds,
            freq: self.freq_hz,
            text: self.text@,
            is_ours: self.is_ours,
        }
    }
}

impl Clone for WebDirectCallLog {
    fn clone(&self) -> (r: WebDirectCallLog)
        ensures
            r == *self,
    {
        WebDirectCallLog {
            sort_epoch_ms: self.sort_epoch_ms,
            timestamp: self.timestamp.clone(),
            from_call: self.from_call.clone(),
            to_call: self.to_call.clone(),
            snr_db: self.snr_db,
            dt_seconds: self.dt_seconds,
            freq_hz: self.freq_hz,
            text: self.text.clone(),
            is_ours: self.is_ours,
        }
    }
}

pub open spec fn direct_models(calls: Seq<WebDirectCallLog>) -> Seq<DirectCallModel> {
    calls.map_values(|c: WebDirectCallLog| c@)
}

/// Milliseconds since the epoch, at most what 64 bits hold.
pub open spec fn sort_millis(at: Timestamp) -> int {
    if clock::epoch_millis(at) <= u64::MAX {
        clock::epoch_millis(at)
    } else {
        u64::MAX as int
    }
}

pub open spec fn hms(at: Timestamp) -> Seq<char> {
    clock::written(at, clock::TimeStyle::Clock)
}

pub open spec fn hms_opt(at: Option<Timestamp>) -> Option<Seq<char>> {
    clock::written_opt(at, clock::TimeStyle::Clock)
}

/// A log line as a direct call.
pub open spec fn direct_line(line: LogModel, our_call: Seq<char>) -> DirectCallModel {
    DirectCallModel {
        sort_epoch_ms: sort_millis(line.at),
        timestamp: hms(line.at),
        from_call: line.sender,
        to_call: our_call,
        snr: Some(line.snr),
        dt: Some(line.dt),
        freq: Some(line.freq),
        text: line.text,
        is_ours: false,
    }
}

/// The log lines from `since` on that are addressed to our station.
pub open spec fn direct_calls(
    tracker: TrackerModel,
    our_call: Seq<char>,
    since: Timestamp,
) -> Seq<DirectCallModel> {
    tracker.logs.filter(
        |l: LogModel|
            l.at >= since && peer_text_opt(tracker.names, l.peer) == Some(our_call),
    ).map_values(|l: LogModel| direct_line(l, our_call))
}

/// All lines of the log that are addressed to our station.
pub open spec fn calls_to_us(tracker: TrackerModel, our_call: Seq<char>) -> Seq<DirectCallModel> {
    direct_calls(tracker, our_call, clock::FIRST_INSTANT)
}

/// The lines addressed to our station that are too old for the log.
pub open spec fn aged_calls(
    tracker: TrackerModel,
    our_call: Seq<char>,
    now: Timestamp,
) -> Seq<DirectCallModel> {
    calls_to_us(TrackerModel { logs: aged_logs(tracker.logs, now), ..tracker }, our_call)
}

pub open spec fn shows_completed(
    shown: WebCompletedQso,
    qso: CompletedModel,
    names: HashNames,
) -> bool {
    &&& shown.started_at@ == hms(qso.started_at)
    &&& shown.ended_at@ == hms(qso.ended_at)
    &&& shown.peer@ == peer_text(names, qso.peer)
}

pub open spec fn shows_station(
    shown: WebStationSummary,
    callsign: Seq<char>,
    station: StationModel,
    names: HashNames,
) -> bool {
    &&& shown.callsign@ == callsign
    &&& shown.last_heard_at@ == hms(station.heard_at)
    &&& shown.last_heard_freq_hz == station.freq
    &&& shown.last_heard_snr_db == station.snr
    &&& shown.last_heard_slot_family@ == station.family.name()
    &&& shown.is_in_qso == (station.active is Some)
    &&& text::text_opt(shown.in_qso_since) == (match station.active {
        Some(a) => Some(hms(a.0)),
        None => None,
    })
    &&& text::text_opt(shown.qso_with) == (match station.active {
        Some(a) => Some(peer_text(names, a.1)),
        None => None,
    })
    &&& text::text_opt(shown.last_qso_ended_at) == hms_opt(station.last_ended)
    &&& shown.qso_history@.len() == station.history.len()
    &&& forall|i: int|
        0 <= i < station.history.len() ==> shows_completed(
            #[trigger] shown.qso_history@[i],
            station.history[i],
            names,
        )
}

pub open spec fn shows_log(shown: WebStationLog, line: LogModel, names: HashNames) -> bool {
    &&& shown.timestamp@ == hms(line.at)
    &&& shown.sender_call@ == line.sender
    &&& text::text_opt(shown.peer) == peer_text_opt(names, line.peer)
    &&& text::text_opt(shown.peer_before) == peer_text_opt(names, line.peer_before)
    &&& text::text_opt(shown.peer_after) == peer_text_opt(names, line.peer_after)
    &&& text::texts(shown.related_calls@) == line.related
    &&& shown.snr_db == line.snr
    &&& shown.dt_seconds == line.dt
    &&& shown.freq_hz == line.freq
    &&& (shown.kind@, shown.field1@, shown.field2@, shown.info@) == line.columns
    &&& shown.text@ == line.text
}

/// Every time of a station can be shown.
pub open spec fn station_displayable(station: StationModel) -> bool {
    &&& clock::displayable(station.heard_at)
    &&& station.active matches Some(a) ==> clock::displayable(a.0)
    &&& clock::displayable_opt(station.last_ended)
    &&& forall|i: int|
        0 <= i < station.history.len() ==> clock::displayable(
            (#[trigger] station.history[i]).started_at,
        ) && clock::displayable(station.history[i].ended_at)
}

/// Every time that the tracker holds can be shown.
pub open spec fn tracker_displayable(tracker: TrackerModel) -> bool {
    &&& forall|i: int| 0 <= i < tracker.logs.len() ==> clock::displayable((#[trigger] tracker.logs[i]).at)
    &&& forall|call: Seq<char>| #[trigger]
        tracker.stations.contains_key(call) ==> station_displayable(tracker.stations[call])
}

fn clone_texts(v: &Vec<String>) -> (r: Vec<String>)
    ensures
        text::texts(r@) == text::texts(v@),
{
    let mut r: Vec<String> = Vec::new();
    let mut i: usize = 0;
    while i < v.len()
        invariant
            i <= v@.len(),
            text::texts(r@) == text::texts(v@).take(i as int),
        decreases v@.len() - i,
    {
        let ghost before = text::texts(r@);
        r.push(v[i].clone());
        assert(text::texts(r@) =~= before.push(v@[i as int]@));
        i += 1;
        assert(text::texts(v@).take(i as int) =~= text::texts(v@).take(i - 1).push(v@[i - 1]@));
    }
    assert(text::texts(v@).take(i as int) =~= text::texts(v@));
    r
}

impl StationTracker {
    pub fn start_info(&self, callsign: &str) -> (r: Option<StationStartInfo>)
        requires
            self.wf(),
        ensures
            info_opt(r) == start_info_of(self@, callsign@),
    {
        match self.stations.get(callsign) {
            Some(state) => Some(
                StationStartInfo {
                    callsign: callsign.to_owned(),
                    last_heard_at: state.last_heard_at,
                    last_heard_slot_family: state.last_heard_slot_family,
                    last_snr_db: state.last_heard_snr_db,
                    last_text: some_text(&state.last_text),
                    last_structured_json: some_text(&state.last_structured_json),
                },
            ),
            None => None,
        }
    }

    /// How many different stations have been heard from `since` on, one of them left out.
    pub fn unique_sender_count_since_excluding(
        &self,
        since: Timestamp,
        excluded_call: &str,
    ) -> (r: usize)
        ensures
            r == senders_since(self@.logs, since, excluded_call@).len(),
    {
        let ghost all = self@.logs;
        let ghost pred = |l: LogModel|
            l.at >= since && !text::same_ignoring_case(l.sender, excluded_call@);
        let ghost name = |l: LogModel| l.sender;
        let mut calls: TextMap<()> = TextMap::new();
        let mut i: usize = 0;
        proof {
            reveal(Seq::filter);
            assert(calls@.dom() =~= all.take(0).filter(pred).map_values(name).to_set());
        }
        while i < self.logs.len()
            invariant
                i <= self.logs@.len(),
                all == log_models(self.logs@),
                calls.wf(),
                pred == (|l: LogModel|
                    l.at >= since && !text::same_ignoring_case(l.sender, excluded_call@)),
                name == (|l: LogModel| l.sender),
                calls@.dom() == all.take(i as int).filter(pred).map_values(name).to_set(),
            decreases self.logs@.len() - i,
        {
            let ghost found = all.take(i as int).filter(pred);
            let ghost before = calls@;
            let entry = &self.logs[i];
            proof {
                all.take(i as int).lemma_filter_push(all[i as int], pred);
                assert(all.take(i + 1) =~= all.take(i as int).push(all[i as int]));
                assert(all[i as int] == entry@);
            }
            if entry.received_at >= since && !text::eq_ignore_ascii_case(
                entry.sender_call.as_str(),
                excluded_call,
            ) {
                calls.insert(entry.sender_call.clone(), ());
                proof {
                    let names = found.map_values(name);
                    assert(found.push(all[i as int]).map_values(name) =~= names.push(entry@.sender));
                    assert(names.push(entry@.sender).to_set() =~= names.to_set().insert(entry@.sender)) by {
                        assert forall|c: Seq<char>| #[trigger] names.push(entry@.sender).contains(c)
                            <==> (names.contains(c) || c == entry@.sender) by {
                            if names.contains(c) {
                                let k = names.index_of(c);
                                assert(names.push(entry@.sender)[k] == c);
                            }
                            assert(names.push(entry@.sender)[names.len() as int] == entry@.sender);
                        }
                    }
                    assert(calls@.dom() =~= before.dom().insert(entry@.sender));
                }
            }
            i += 1;
        }
        assert(all.take(i as int) =~= all);
        calls.len()
    }

    /// How often a station has been heard from `since` on.
    pub fn sender_decode_count_since(&self, since: Timestamp, callsign: &str) -> (r: usize)
        ensures
            r == decodes_since(self@.logs, since, callsign@),
    {
        let ghost all = self@.logs;
        let ghost pred = |l: LogModel|
            l.at >= since && text::same_ignoring_case(l.sender, callsign@);
        let mut count: usize = 0;
        let mut i: usize = 0;
        proof {
            reveal(Seq::filter);
            assert(all.take(0).filter(pred).len() == 0);
        }
        while i < self.logs.len()
            invariant
                i <= self.logs@.len(),
                count <= i,
                all == log_models(self.logs@),
                pred == (|l: LogModel|
                    l.at >= since && text::same_ignoring_case(l.sender, callsign@)),
                count == all.take(i as int).filter(pred).len(),
            decreases self.logs@.len() - i,
        {
            let entry = &self.logs[i];
            proof {
                all.take(i as int).lemma_filter_push(all[i as int], pred);
                assert(all.take(i + 1) =~= all.take(i as int).push(all[i as int]));
                assert(all[i as int] == entry@);
            }
            if entry.received_at >= since && text::eq_ignore_ascii_case(
                entry.sender_call.as_str(),
                callsign,
            ) {
                count += 1;
            }
            i += 1;
        }
        assert(all.take(i as int) =~= all);
        count
    }

    fn peer_display_opt(&self, peer: &Option<PeerRef>) -> (r: Option<String>)
        ensures
            text::text_opt(r) == peer_text_opt(self@.names, peer_opt(*peer)),
    {
        match peer {
            Some(p) => Some(self.peer_display(p)),
            None => None,
        }
    }

    fn web_history(&self, history: &Vec<CompletedQso>) -> (r: Vec<WebCompletedQso>)
        requires
            forall|i: int|
                0 <= i < history@.len() ==> clock::displayable((#[trigger] history@[i]).started_at)
                    && clock::displayable(history@[i].ended_at),
        ensures
            r@.len() == history@.len(),
            forall|i: int|
                0 <= i < r@.len() ==> shows_completed(
                    #[trigger] r@[i],
                    history@[i]@,
                    self@.names,
                ),
    {
        let mut r: Vec<WebCompletedQso> = Vec::new();
        let mut i: usize = 0;
        while i < history.len()
            invariant
                i <= history@.len(),
                r@.len() == i,
                forall|i: int|
                    0 <= i < history@.len() ==> clock::displayable(
                        (#[trigger] history@[i]).started_at,
                    ) && clock::displayable(history@[i].ended_at),
                forall|k: int|
                    0 <= k < i ==> shows_completed(
                        #[trigger] r@[k],
                        history@[k]@,
                        self@.names,
                    ),
            decreases history@.len() - i,
        {
            let qso = &history[i];
            r.push(
                WebCompletedQso {
                    started_at: clock::format_time(qso.started_at),
                    ended_at: clock::format_time(qso.ended_at),
                    peer: self.peer_display(&qso.peer),
                },
            );
            i += 1;
        }
        r
    }

    /// Every station, in ascending order of calls.
    pub fn web_station_summaries(&self) -> (r: Vec<WebStationSummary>)
        requires
            self.wf(),
            tracker_displayable(self@),
        ensures
            r@.len() == self.stations.keys().len(),
            forall|i: int|
                0 <= i < r@.len() ==> shows_station(
                    #[trigger] r@[i],
                    self.stations.keys()[i],
                    self@.stations[self.stations.keys()[i]],
                    self@.names,
                ),
    {
        let mut r: Vec<WebStationSummary> = Vec::new();
        let n: usize = self.stations.len();
        let mut i: usize = 0;
        while i < n
            invariant
                i <= n,
                n == self.stations.keys().len(),
                self.wf(),
                tracker_displayable(self@),
                r@.len() == i,
                forall|k: int|
                    0 <= k < i ==> shows_station(
                        #[trigger] r@[k],
                        self.stations.keys()[k],
                        self@.stations[self.stations.keys()[k]],
                        self@.names,
                    ),
            decreases n - i,
        {
            let ghost call = self.stations.keys()[i as int];
            proof {
                self.stations.lemma_entries();
                assert(self.stations@.contains_key(call));
                assert(self@.stations.contains_key(call));
            }
            let state = self.stations.value_at(i);
            assert(self@.stations[call] == state@);
            assert(station_displayable(state@));
            assert forall|k: int| 0 <= k < state.qso_history@.len() implies clock::displayable(
                (#[trigger] state.qso_history@[k]).started_at,
            ) && clock::displayable(state.qso_history@[k].ended_at) by {
                assert(state@.history[k] == state.qso_history@[k]@);
            }
            let summary = WebStationSummary {
                callsign: self.stations.key_at(i).clone(),
                last_heard_at: clock::format_time(state.last_heard_at),
                last_heard_freq_hz: state.last_heard_freq_hz,
                last_heard_snr_db: state.last_heard_snr_db,
                last_heard_slot_family: state.last_heard_slot_family.as_str().to_owned(),
                is_in_qso: state.active_qso.is_some(),
                in_qso_since: match &state.active_qso {
                    Some(qso) => Some(clock::format_time(qso.since)),
                    None => None,
                },
                qso_with: match &state.active_qso {
                    Some(qso) => Some(self.peer_display(&qso.peer)),
                    None => None,
                },
                last_qso_ended_at: clock::format_time_opt(state.last_qso_ended_at),
                qso_history: self.web_history(&state.qso_history),
            };
            assert(shows_station(summary, call, self@.stations[call], self@.names)) by {
                assert forall|k: int| 0 <= k < state@.history.len() implies shows_completed(
                    #[trigger] summary.qso_history@[k],
                    state@.history[k],
                    self@.names,
                ) by {
                    assert(state@.history[k] == state.qso_history@[k]@);
                }
            }
            r.push(summary);
            i += 1;
        }
        r
    }

    /// The whole log, oldest line first.
    pub fn web_logs(&self) -> (r: Vec<WebStationLog>)
        requires
            tracker_displayable(self@),
        ensures
            r@.len() == self@.logs.len(),
            forall|i: int|
                0 <= i < r@.len() ==> shows_log(#[trigger] r@[i], self@.logs[i], self@.names),
    {
        let mut r: Vec<WebStationLog> = Vec::new();
        let mut i: usize = 0;
        while i < self.logs.len()
            invariant
                i <= self.logs@.len(),
                tracker_displayable(self@),
                r@.len() == i,
                forall|k: int|
                    0 <= k < i ==> shows_log(#[trigger] r@[k], self@.logs[k], self@.names),
            decreases self.logs@.len() - i,
        {
            let entry = &self.logs[i];
            assert(self@.logs[i as int] == entry@);
            r.push(
                WebStationLog {
                    timestamp: clock::format_time(entry.received_at),
                    sender_call: entry.sender_call.clone(),
                    peer: self.peer_display_opt(&entry.peer),
                    peer_before: self.peer_display_opt(&entry.peer_before),
                    peer_after: self.peer_display_opt(&entry.peer_after),
                    related_calls: clone_texts(&entry.related_calls),
                    snr_db: entry.snr_db,
                    dt_seconds: entry.dt_seconds,
                    freq_hz: entry.freq_hz,
                    kind: entry.kind.clone(),
                    field1: entry.field1.clone(),
                    field2: entry.field2.clone(),
                    info: entry.info.clone(),
                    text: entry.text.clone(),
                },
            );
            i += 1;
        }
        r
    }

    /// What has been sent to our station from `since` on.
    /// The direct calls among the first `count` lines of the log.
    fn direct_calls_among(&self, our_call: &str, since: Timestamp, count: usize) -> (r: Vec<
        WebDirectCallLog,
    >)
        requires
            tracker_displayable(self@),
            count <= self@.logs.len(),
        ensures
            direct_models(r@) == direct_calls(
                TrackerModel { logs: self@.logs.take(count as int), ..self@ },
                our_call@,
                since,
            ),
    {
        let ghost all = self@.logs;
        let ghost names = self@.names;
        let ghost ours = |l: LogModel|
            l.at >= since && peer_text_opt(names, l.peer) == Some(our_call@);
        let ghost line = |l: LogModel| direct_line(l, our_call@);
        let mut r: Vec<WebDirectCallLog> = Vec::new();
        let mut i: usize = 0;
        proof {
            reveal(Seq::filter);
            assert(direct_models(r@) =~= all.take(0).filter(ours).map_values(line));
        }
        while i < count
            invariant
                i <= count <= self.logs@.len(),
                tracker_displayable(self@),
                all == self@.logs,
                names == self@.names,
                ours == (|l: LogModel|
                    l.at >= since && peer_text_opt(names, l.peer) == Some(our_call@)),
                line == (|l: LogModel| direct_line(l, our_call@)),
                direct_models(r@) == all.take(i as int).filter(ours).map_values(line),
            decreases count - i,
        {
            let ghost found = all.take(i as int).filter(ours);
            let ghost before = direct_models(r@);
            let entry = &self.logs[i];
            proof {
                all.take(i as int).lemma_filter_push(all[i as int], ours);
                assert(all.take(i + 1) =~= all.take(i as int).push(all[i as int]));
                assert(all[i as int] == entry@);
            }
            if entry.received_at >= since && text::opt_eq(
                text::borrow_opt(&self.peer_display_opt(&entry.peer)),
                Some(our_call),
            ) {
                r.push(
                    WebDirectCallLog {
                        sort_epoch_ms: clock::system_time_to_epoch_ms(entry.received_at),
                        timestamp: clock::format_time(entry.received_at),
                        from_call: entry.sender_call.clone(),
                        to_call: our_call.to_owned(),
                        snr_db: Some(entry.snr_db),
                        dt_seconds: Some(entry.dt_seconds),
                        freq_hz: Some(entry.freq_hz),
                        text: entry.text.clone(),
                        is_ours: false,
                    },
                );
                assert(r@.last()@ =~= direct_line(entry@, our_call@));
                assert(direct_models(r@) =~= before.push(direct_line(entry@, our_call@)));
                assert(found.push(entry@).map_values(line) =~= found.map_values(line).push(
                    direct_line(entry@, our_call@),
                ));
            }
            i += 1;
        }
        r
    }

    /// The lines of the log from `since` on that are addressed to our station.
    pub fn web_direct_calls(&self, our_call: &str, since: Timestamp) -> (r: Vec<WebDirectCallLog>)
        requires
            tracker_displayable(self@),
        ensures
            direct_models(r@) == direct_calls(self@, our_call@, since),
    {
        assert(self@.logs.take(self.logs@.len() as int) =~= self@.logs);
        self.direct_calls_among(our_call, since, self.logs.len())
    }

    /// The direct calls that are about to be forgotten.
    pub fn aged_direct_calls(&self, our_call: &str, now: Timestamp) -> (r: Vec<WebDirectCallLog>)
        requires
            tracker_displayable(self@),
        ensures
            direct_models(r@) == aged_calls(self@, our_call@, now),
    {
        let count: usize = self.aged_count(now);
        self.direct_calls_among(our_call, clock::FIRST_INSTANT, count)
    }
}

} // verus!
