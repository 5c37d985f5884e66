//! The state of the station as it is shown on the web.

use std::collections::VecDeque;

use vstd::prelude::*;
use vstd::string::*;

use crate::bandmap;
use crate::bandmap::{BandMapStore, WebBandMaps};
use crate::clock;
use crate::clock::Timestamp;
use crate::history;
use crate::history::WebQsoHistoryEntry;
use crate::message::{DecodedMessage, FloatBits};
use crate::queue::WorkQueueState;
use crate::receiver::ReceiverState;
use crate::rig;
use crate::rig::{RigSnapshot, RigTelemetry, WebPower};
use crate::rows;
use crate::rows::WebDecodeRow;
use crate::scheduler;
use crate::scheduler::WebQueueSnapshot;
use crate::slots;
use crate::slots::{DecodeStage, DecoderMode};
use crate::text;
use crate::tracker;
use crate::tracker::{
    DirectCallModel, PeerModel, StationTracker, TrackerModel, WebDirectCallLog, WebStationLog,
    WebStationSummary,
};
use crate::tracker_laws;

verus! {

/// The level of a channel of which nothing is known: 120 dB below full scale.
pub const SILENCE_DBFS: FloatBits = 0xc2f0_0000;

/// What the audio capture reports.
#[derive(Debug)]
pub struct AudioState {
    pub latest_sample_time: Option<Timestamp>,
    pub selected_channel: usize,
    pub overall_dbfs: FloatBits,
    pub channel_dbfs: Vec<FloatBits>,
    pub recoveries: u64,
}

#[derive(Debug)]
pub struct WebAudioStats {
    pub latest_sample: Option<String>,
    pub selected_channel: usize,
    pub overall_dbfs: FloatBits,
    pub left_dbfs: FloatBits,
    pub right_dbfs: FloatBits,
    pub recoveries: u64,
}

/// The level of a channel, or silence where there is none.
pub open spec fn level(channels: Seq<FloatBits>, i: int) -> FloatBits {
    if i < channels.len() {
        channels[i]
    } else {
        SILENCE_DBFS
    }
}

/// The level of a channel, or silence where there is none.
pub fn channel_level(channels: &Vec<FloatBits>, i: usize) -> (r: FloatBits)
    ensures
        r == level(channels@, i as int),
{
    if i < channels.len() {
        channels[i]
    } else {
        SILENCE_DBFS
    }
}

pub open spec fn label_opt(mode: DecoderMode, time: Option<Timestamp>) -> Option<Seq<char>> {
    match time {
        Some(t) => Some(slots::slot_label(mode, t)),
        None => None,
    }
}

fn slot_time_opt(mode: DecoderMode, time: Option<Timestamp>) -> (r: Option<String>)
    requires
        clock::displayable_opt(time),
    ensures
        text::text_opt(r) == label_opt(mode, time),
{
    match time {
        Some(t) => Some(slots::format_slot_time_for_mode(mode, t)),
        None => None,
    }
}

pub open spec fn shows_audio(shown: WebAudioStats, audio: AudioState, mode: DecoderMode) -> bool {
    &&& text::text_opt(shown.latest_sample) == label_opt(mode, audio.latest_sample_time)
    &&& shown.selected_channel == audio.selected_channel
    &&& shown.overall_dbfs == audio.overall_dbfs
    &&& shown.left_dbfs == level(audio.channel_dbfs@, 0)
    &&& shown.right_dbfs == level(audio.channel_dbfs@, 1)
    &&& shown.recoveries == audio.recoveries
}

pub fn web_audio_stats(audio: &AudioState, mode: DecoderMode) -> (r: WebAudioStats)
    requires
        clock::displayable_opt(audio.latest_sample_time),
    ensures
        shows_audio(r, *audio, mode),
{
    WebAudioStats {
        latest_sample: slot_time_opt(mode, audio.latest_sample_time),
        selected_channel: audio.selected_channel,
        overall_dbfs: audio.overall_dbfs,
        left_dbfs: channel_level(&audio.channel_dbfs, 0),
        right_dbfs: channel_level(&audio.channel_dbfs, 1),
        recoveries: audio.recoveries,
    }
}

/// The decoding times in milliseconds. A mode without early stages shows its one time in the
/// middle.
#[derive(Clone, Copy, Debug, PartialEq, Eq, Structural)]
pub struct WebDecodeTimes {
    pub early_ms: Option<u128>,
    pub mid_ms: Option<u128>,
    pub late_ms: Option<u128>,
    pub tx_margin_ms: Option<i128>,
}

pub open spec fn times_shown(receiver: ReceiverState) -> WebDecodeTimes {
    match receiver.app_mode {
        DecoderMode::Ft8 => WebDecodeTimes {
            early_ms: receiver.times.early41_wall_ms,
            mid_ms: receiver.times.early47_wall_ms,
            late_ms: receiver.times.full_wall_ms,
            tx_margin_ms: receiver.times.tx_margin_ms,
        },
        DecoderMode::Ft4 => WebDecodeTimes {
            early_ms: None,
            mid_ms: receiver.times.full_wall_ms,
            late_ms: None,
            tx_margin_ms: receiver.times.tx_margin_ms,
        },
    }
}

pub fn web_decode_times(receiver: &ReceiverState) -> (r: WebDecodeTimes)
    ensures
        r == times_shown(*receiver),
{
    match receiver.app_mode {
        DecoderMode::Ft8 => WebDecodeTimes {
            early_ms: receiver.times.early41_wall_ms,
            mid_ms: receiver.times.early47_wall_ms,
            late_ms: receiver.times.full_wall_ms,
            tx_margin_ms: receiver.times.tx_margin_ms,
        },
        DecoderMode::Ft4 => WebDecodeTimes {
            early_ms: None,
            mid_ms: receiver.times.full_wall_ms,
            late_ms: None,
            tx_margin_ms: receiver.times.tx_margin_ms,
        },
    }
}

/// The rig as it is shown.
#[derive(Debug)]
pub struct WebRig {
    pub kind: Option<String>,
    pub frequency_hz: Option<u64>,
    pub mode: String,
    pub band: String,
    pub power: WebPower,
    pub telemetry: RigTelemetry,
    pub is_tx: Option<bool>,
}

pub open spec fn shows_rig(shown: WebRig, rig: Option<RigSnapshot>) -> bool {
    match rig {
        Some(state) => {
            &&& text::text_opt(shown.kind) == Some(state.kind_name@)
            &&& shown.frequency_hz == Some(state.frequency_hz)
            &&& shown.mode@ == state.mode@
            &&& shown.band@ == state.band@
            &&& rig::shows_power(shown.power, state.power)
            &&& shown.telemetry == state.telemetry
            &&& shown.is_tx == state.transmitting
        },
        None => {
            &&& shown.kind is None
            &&& shown.frequency_hz is None
            &&& shown.mode@ == "unavailable"@
            &&& shown.band@ == "unavailable"@
            &&& shown.power.watts is None
            &&& shown.power.label is None
            &&& shown.power.current_id is None
            &&& shown.power.settings@.len() == 0
            &&& !shown.power.settable
            &&& !shown.power.is_discrete
            &&& shown.telemetry == (RigTelemetry {
                bar_graph: None,
                rx_s_meter: None,
                tx_forward_power_w: None,
                tx_swr: None,
            })
            &&& shown.is_tx is None
        },
    }
}

pub fn web_rig(rig: &Option<RigSnapshot>) -> (r: WebRig)
    ensures
        shows_rig(r, *rig),
{
    match rig {
        Some(state) => WebRig {
            kind: Some(state.kind_name.clone()),
            frequency_hz: Some(state.frequency_hz),
            mode: state.mode.clone(),
            band: state.band.clone(),
            power: rig::rig_power_web_fields(&state.power),
            telemetry: state.telemetry,
            is_tx: state.transmitting,
        },
        None => WebRig {
            kind: None,
            frequency_hz: None,
            mode: "unavailable".to_owned(),
            band: "unavailable".to_owned(),
            power: WebPower {
                watts: None,
                label: None,
                current_id: None,
                settings: Vec::new(),
                settable: false,
                is_discrete: false,
            },
            telemetry: RigTelemetry {
                bar_graph: None,
                rx_s_meter: None,
                tx_forward_power_w: None,
                tx_swr: None,
            },
            is_tx: None,
        },
    }
}

/// The direct calls since the start: those that were heard, whether or not the tracker still has
/// them, and those that we sent, by time.
pub open spec fn pane_calls(
    tracker: TrackerModel,
    past: Seq<DirectCallModel>,
    ours: Seq<DirectCallModel>,
    our_call: Seq<char>,
) -> Seq<DirectCallModel> {
    history::by_time(past + tracker::calls_to_us(tracker, our_call) + ours)
}

/// Puts copies of the calls at the end.
fn add_copies(calls: &mut Vec<WebDirectCallLog>, more: &Vec<WebDirectCallLog>)
    ensures
        tracker::direct_models(final(calls)@) == tracker::direct_models(old(calls)@)
            + tracker::direct_models(more@),
{
    let ghost all = tracker::direct_models(more@);
    let ghost start = tracker::direct_models(calls@);
    let mut i: usize = 0;
    assert(start =~= start + all.take(0));
    while i < more.len()
        invariant
            i <= more@.len(),
            all == tracker::direct_models(more@),
            tracker::direct_models(calls@) == start + all.take(i as int),
        decreases more@.len() - i,
    {
        let ghost before = tracker::direct_models(calls@);
        calls.push(more[i].clone());
        assert(tracker::direct_models(calls@) =~= before.push(all[i as int]));
        assert(start + all.take(i + 1) =~= (start + all.take(i as int)).push(all[i as int]));
        i += 1;
    }
    assert(all.take(i as int) =~= all);
}

/// `past` are the calls that the tracker has no more, `ours` those that we sent.
pub fn direct_call_pane(
    tracker: &StationTracker,
    past: &Vec<WebDirectCallLog>,
    ours: &Vec<WebDirectCallLog>,
    our_call: &str,
) -> (r: Vec<WebDirectCallLog>)
    requires
        tracker::tracker_displayable(tracker@),
    ensures
        tracker::direct_models(r@) == pane_calls(
            tracker@,
            tracker::direct_models(past@),
            tracker::direct_models(ours@),
            our_call@,
        ),
{
    let mut calls: Vec<WebDirectCallLog> = Vec::new();
    add_copies(&mut calls, past);
    assert(tracker::direct_models(calls@) =~= tracker::direct_models(past@));
    let heard = tracker.web_direct_calls(our_call, clock::FIRST_INSTANT);
    add_copies(&mut calls, &heard);
    add_copies(&mut calls, ours);
    history::sort_calls(calls)
}

/// The spread of the time offsets.
#[derive(Clone, Copy, Debug, PartialEq, Eq, Structural)]
pub struct DtSummary {
    pub mean: Option<FloatBits>,
    pub median: Option<FloatBits>,
    pub stddev: Option<FloatBits>,
    pub count: usize,
}

#[derive(Clone, Copy, Debug, PartialEq, Eq, Structural)]
pub struct WebDtStats {
    pub current_mean_seconds: Option<FloatBits>,
    pub current_median_seconds: Option<FloatBits>,
    pub current_stddev_seconds: Option<FloatBits>,
    pub current_count: usize,
    pub ten_minute_mean_seconds: Option<FloatBits>,
    pub ten_minute_median_seconds: Option<FloatBits>,
    pub ten_minute_count: usize,
}

#[derive(Debug)]
pub struct WebSnapshot {
    pub time_utc: String,
    pub our_call: String,
    pub rig: WebRig,
    pub app_mode: String,
    pub rig_tune_active: bool,
    pub decode_status: String,
    pub audio_stats: WebAudioStats,
    pub decode_times: WebDecodeTimes,
    pub dt_stats: WebDtStats,
    pub current_slot: String,
    pub last_done_slot: Option<String>,
    pub decodes: Vec<WebDecodeRow>,
    pub waterfall: Vec<Vec<u8>>,
    pub bandmaps: WebBandMaps,
    pub stations: Vec<WebStationSummary>,
    pub station_logs: Vec<WebStationLog>,
    pub direct_calls: Vec<WebDirectCallLog>,
    pub queue: WebQueueSnapshot,
    pub qso_history: Vec<WebQsoHistoryEntry>,
}

/// What is shown of the receiver and what it has decoded.
pub open spec fn shows_receiver(
    shown: WebSnapshot,
    receiver: ReceiverState,
    dt_current: DtSummary,
    dt_ten_minutes: DtSummary,
    now: Timestamp,
) -> bool {
    let mode = receiver.app_mode;
    &&& shown.time_utc@ == clock::written(now, clock::TimeStyle::DateTimeUtc)
    &&& shown.app_mode@ == mode.upper_name()
    &&& shown.decode_status@ == receiver.decode_status@
    &&& shown.decode_times == times_shown(receiver)
    &&& shown.dt_stats == (WebDtStats {
        current_mean_seconds: dt_current.mean,
        current_median_seconds: dt_current.median,
        current_stddev_seconds: dt_current.stddev,
        current_count: dt_current.count,
        ten_minute_mean_seconds: dt_ten_minutes.mean,
        ten_minute_median_seconds: dt_ten_minutes.median,
        ten_minute_count: dt_ten_minutes.count,
    })
    &&& shown.current_slot@ == slots::slot_label(mode, slots::slot_boundary(mode, now) as i128)
    &&& text::text_opt(shown.last_done_slot) == label_opt(mode, receiver.last_slot_start)
    &&& rows::shows_decodes(shown.decodes@, receiver.decodes)
}

/// What is shown of the stations that were heard and of those that wait.
pub open spec fn shows_stations(
    shown: WebSnapshot,
    mode: DecoderMode,
    bandmaps: BandMapStore,
    station_tracker: StationTracker,
    work_queue: WorkQueueState,
    past_direct_calls: Seq<WebDirectCallLog>,
    qso_direct_calls: Seq<WebDirectCallLog>,
    our_call: Seq<char>,
    now: Timestamp,
) -> bool {
    let boundary = slots::slot_boundary(mode, now) as i128;
    &&& shown.our_call@ == our_call
    &&& bandmap::shows_bandmaps(
        shown.bandmaps,
        bandmaps,
        slots::slot_index(mode, boundary),
        work_queue@,
        now,
    )
    &&& shown.stations@.len() == station_tracker.stations.keys().len()
    &&& forall|i: int|
        0 <= i < shown.stations@.len() ==> tracker::shows_station(
            #[trigger] shown.stations@[i],
            station_tracker.stations.keys()[i],
            station_tracker@.stations[station_tracker.stations.keys()[i]],
            station_tracker@.names,
        )
    &&& shown.station_logs@.len() == station_tracker@.logs.len()
    &&& forall|i: int|
        0 <= i < shown.station_logs@.len() ==> tracker::shows_log(
            #[trigger] shown.station_logs@[i],
            station_tracker@.logs[i],
            station_tracker@.names,
        )
    &&& tracker::direct_models(shown.direct_calls@) == pane_calls(
        station_tracker@,
        tracker::direct_models(past_direct_calls),
        tracker::direct_models(qso_direct_calls),
        our_call,
    )
    &&& scheduler::shows_queue(shown.queue, work_queue@, station_tracker@, now)
}

pub open spec fn same_rows(shown: Seq<Vec<u8>>, rows: Seq<Vec<u8>>) -> bool {
    shown.len() == rows.len() && forall|i: int|
        0 <= i < rows.len() ==> (#[trigger] shown[i])@ == rows[i]@
}

fn copy_row(row: &Vec<u8>) -> (r: Vec<u8>)
    ensures
        r@ == row@,
{
    let mut r: Vec<u8> = Vec::new();
    let mut i: usize = 0;
    while i < row.len()
        invariant
            i <= row@.len(),
            r@ == row@.take(i as int),
        decreases row@.len() - i,
    {
        r.push(row[i]);
        assert(r@ =~= row@.take(i + 1));
        i += 1;
    }
    assert(row@.take(i as int) =~= row@);
    r
}

fn copy_rows(rows: &VecDeque<Vec<u8>>) -> (r: Vec<Vec<u8>>)
    ensures
        same_rows(r@, rows@),
{
    let mut r: Vec<Vec<u8>> = Vec::new();
    let mut i: usize = 0;
    while i < rows.len()
        invariant
            i <= rows@.len(),
            r@.len() == i,
            forall|k: int| 0 <= k < i ==> (#[trigger] r@[k])@ == rows@[k]@,
        decreases rows@.len() - i,
    {
        r.push(copy_row(&rows[i]));
        i += 1;
    }
    r
}

fn copy_history(entries: &Vec<WebQsoHistoryEntry>) -> (r: Vec<WebQsoHistoryEntry>)
    ensures
        r@ == entries@,
{
    let mut r: Vec<WebQsoHistoryEntry> = Vec::new();
    let mut i: usize = 0;
    while i < entries.len()
        invariant
            i <= entries@.len(),
            r@ == entries@.take(i as int),
        decreases entries@.len() - i,
    {
        r.push(entries[i].clone());
        assert(r@ =~= entries@.take(i + 1));
        i += 1;
    }
    assert(entries@.take(i as int) =~= entries@);
    r
}

/// The state of the station at `now`. `past_direct_calls` are the calls to us that the tracker has no
/// more, `qso_direct_calls` those that we sent.
pub fn refresh_web_snapshot(
    receiver: &ReceiverState,
    rig_snapshot: &Option<RigSnapshot>,
    audio: &AudioState,
    waterfall_rows: &VecDeque<Vec<u8>>,
    bandmaps: &BandMapStore,
    dt_current: DtSummary,
    dt_ten_minutes: DtSummary,
    station_tracker: &StationTracker,
    work_queue: &WorkQueueState,
    qso_history: &Vec<WebQsoHistoryEntry>,
    past_direct_calls: &Vec<WebDirectCallLog>,
    qso_direct_calls: &Vec<WebDirectCallLog>,
    our_call: &str,
    tune_active: bool,
    now: Timestamp,
) -> (r: WebSnapshot)
    requires
        bandmaps.wf(),
        station_tracker.wf(),
        work_queue.wf(),
        clock::displayable(now),
        clock::displayable(slots::slot_boundary(receiver.app_mode, now) as i128),
        clock::displayable_opt(receiver.last_slot_start),
        clock::displayable_opt(audio.latest_sample_time),
        tracker::tracker_displayable(station_tracker@),
        scheduler::queue_displayable(work_queue@),
    ensures
        shows_receiver(r, *receiver, dt_current, dt_ten_minutes, now),
        shows_rig(r.rig, *rig_snapshot),
        shows_audio(r.audio_stats, *audio, receiver.app_mode),
        shows_stations(
            r,
            receiver.app_mode,
            *bandmaps,
            *station_tracker,
            *work_queue,
            past_direct_calls@,
            qso_direct_calls@,
            our_call@,
            now,
        ),
        same_rows(r.waterfall@, waterfall_rows@),
        r.rig_tune_active == tune_active,
        r.qso_history@ == qso_history@,
{
    let mode = receiver.app_mode;
    let current_slot: i128 = slots::current_slot_boundary_for_mode(mode, now);
    let current_slot_index: u64 = slots::slot_index_for_mode(mode, current_slot);
    WebSnapshot {
        time_utc: clock::format_utc_clock(now),
        our_call: our_call.to_owned(),
        rig: web_rig(rig_snapshot),
        app_mode: mode.label().to_owned(),
        rig_tune_active: tune_active,
        decode_status: receiver.decode_status.clone(),
        audio_stats: web_audio_stats(audio, mode),
        decode_times: web_decode_times(receiver),
        dt_stats: WebDtStats {
            current_mean_seconds: dt_current.mean,
            current_median_seconds: dt_current.median,
            current_stddev_seconds: dt_current.stddev,
            current_count: dt_current.count,
            ten_minute_mean_seconds: dt_ten_minutes.mean,
            ten_minute_median_seconds: dt_ten_minutes.median,
            ten_minute_count: dt_ten_minutes.count,
        },
        current_slot: slots::format_slot_time_for_mode(mode, current_slot),
        last_done_slot: slot_time_opt(mode, receiver.last_slot_start),
        decodes: rows::web_decode_rows(&receiver.decodes),
        waterfall: copy_rows(waterfall_rows),
        bandmaps: bandmap::web_bandmaps(bandmaps, current_slot_index, work_queue, now),
        stations: station_tracker.web_station_summaries(),
        station_logs: station_tracker.web_logs(),
        direct_calls: direct_call_pane(
            station_tracker,
            past_direct_calls,
            qso_direct_calls,
            our_call,
        ),
        queue: work_queue.web_snapshot(station_tracker, now),
        qso_history: copy_history(qso_history),
    }
}

/// The pane lists every direct call that was heard or sent, however old, each once and by time.
pub proof fn law_pane_lists_every_call(
    tracker: TrackerModel,
    past: Seq<DirectCallModel>,
    ours: Seq<DirectCallModel>,
    our_call: Seq<char>,
)
    ensures
        ({
            let heard = tracker::calls_to_us(tracker, our_call);
            let pane = pane_calls(tracker, past, ours, our_call);
            &&& pane.len() == past.len() + heard.len() + ours.len()
            &&& forall|i: int| 0 <= i < past.len() ==> pane.contains(#[trigger] past[i])
            &&& forall|i: int| 0 <= i < heard.len() ==> pane.contains(#[trigger] heard[i])
            &&& forall|i: int| 0 <= i < ours.len() ==> pane.contains(#[trigger] ours[i])
            &&& forall|i: int, j: int|
                0 <= i < j < pane.len() ==> (#[trigger] pane[i]).sort_epoch_ms <= (
                #[trigger] pane[j]).sort_epoch_ms
        }),
{
    let heard = tracker::calls_to_us(tracker, our_call);
    let all = past + heard + ours;
    history::law_calls_are_listed_by_time(all);
    assert forall|i: int| 0 <= i < past.len() implies history::by_time(all).contains(
        #[trigger] past[i],
    ) by {
        assert(all[i] == past[i]);
    }
    assert forall|i: int| 0 <= i < heard.len() implies history::by_time(all).contains(
        #[trigger] heard[i],
    ) by {
        assert(all[past.len() + i] == heard[i]);
    }
    assert forall|i: int| 0 <= i < ours.len() implies history::by_time(all).contains(
        #[trigger] ours[i],
    ) by {
        assert(all[past.len() + heard.len() + i] == ours[i]);
    }
}

/// Forgetting what is old takes nothing from the pane: what the tracker gives up is handed on.
pub proof fn law_pruning_changes_no_pane(
    tracker: TrackerModel,
    past: Seq<DirectCallModel>,
    ours: Seq<DirectCallModel>,
    our_call: Seq<char>,
    now: Timestamp,
)
    ensures
        pane_calls(
            tracker::pruned(tracker, now),
            past + tracker::aged_calls(tracker, our_call, now),
            ours,
            our_call,
        ) == pane_calls(tracker, past, ours, our_call),
{
    tracker_laws::law_pruning_parts_the_calls(tracker, our_call, now);
    let aged = tracker::aged_calls(tracker, our_call, now);
    let kept = tracker::calls_to_us(tracker::pruned(tracker, now), our_call);
    assert(past + aged + kept + ours =~= past + (aged + kept) + ours);
}

/// Starting afresh in another mode or on another band takes nothing from the pane.
pub proof fn law_fresh_start_changes_no_pane(
    tracker: TrackerModel,
    past: Seq<DirectCallModel>,
    ours: Seq<DirectCallModel>,
    our_call: Seq<char>,
    mode: DecoderMode,
)
    ensures
        pane_calls(
            tracker::blank_tracker(mode),
            past + tracker::calls_to_us(tracker, our_call),
            ours,
            our_call,
        ) == pane_calls(tracker, past, ours, our_call),
{
    reveal(Seq::filter);
    let heard = tracker::calls_to_us(tracker, our_call);
    let none = tracker::calls_to_us(tracker::blank_tracker(mode), our_call);
    assert(none.len() == 0);
    assert(past + heard + none + ours =~= past + heard + ours);
}

/// A message that was known to be for us when it was logged stays in the pane, whatever other slots
/// bring.
pub proof fn law_direct_call_stays_in_the_pane(
    tracker: TrackerModel,
    past: Seq<DirectCallModel>,
    ours: Seq<DirectCallModel>,
    our_call: Seq<char>,
    at: Timestamp,
    stage: DecodeStage,
    decodes: Seq<DecodedMessage>,
    i: int,
)
    requires
        0 <= i < tracker.logs.len(),
        tracker.logs[i].peer == Some(PeerModel::Callsign(our_call)),
        tracker.logs[i].at >= clock::FIRST_INSTANT,
        tracker.logs[i].slot_index != slots::slot_index(tracker.mode, at) as u64,
    ensures
        ({
            let heard = tracker::heard_stage(tracker, at, stage, decodes);
            pane_calls(
                tracker::ingested(tracker, at, stage, decodes),
                past + tracker::aged_calls(heard, our_call, at),
                ours,
                our_call,
            ).contains(tracker::direct_line(tracker.logs[i], our_call))
        }),
{
    let heard = tracker::heard_stage(tracker, at, stage, decodes);
    tracker_laws::law_direct_call_stays_in_the_log(tracker, at, stage, decodes, our_call, i);
    law_pruning_changes_no_pane(heard, past, ours, our_call, at);
    law_pane_lists_every_call(heard, past, ours, our_call);
    let calls = tracker::calls_to_us(heard, our_call);
    let k = calls.index_of(tracker::direct_line(tracker.logs[i], our_call));
    assert(calls[k] == tracker::direct_line(tracker.logs[i], our_call));
}

/// Of an FT8 slot the times of its three stages are shown; an FT4 slot has one, which stands in the
/// middle. What was left until transmission is shown in either mode.
pub proof fn law_which_times_are_shown(receiver: ReceiverState)
    ensures
        ({
            let shown = times_shown(receiver);
            let times = receiver.times;
            &&& shown.tx_margin_ms == times.tx_margin_ms
            &&& receiver.app_mode == DecoderMode::Ft8 ==> shown.early_ms == times.early41_wall_ms
                && shown.mid_ms == times.early47_wall_ms && shown.late_ms == times.full_wall_ms
            &&& receiver.app_mode == DecoderMode::Ft4 ==> shown.early_ms is None && shown.mid_ms
                == times.full_wall_ms && shown.late_ms is None
        }),
{
}

/// The first channel is shown on the left and the second on the right; a channel that is not there
/// is silent.
pub proof fn law_channels_are_shown_apart(
    shown: WebAudioStats,
    audio: AudioState,
    mode: DecoderMode,
)
    requires
        shows_audio(shown, audio, mode),
    ensures
        audio.channel_dbfs@.len() >= 1 ==> shown.left_dbfs == audio.channel_dbfs@[0],
        audio.channel_dbfs@.len() >= 2 ==> shown.right_dbfs == audio.channel_dbfs@[1],
        audio.channel_dbfs@.len() == 0 ==> shown.left_dbfs == 0xc2f0_0000,
        audio.channel_dbfs@.len() < 2 ==> shown.right_dbfs == 0xc2f0_0000,
        shown.overall_dbfs == audio.overall_dbfs,
        shown.recoveries == audio.recoveries,
{
}

} // verus!
