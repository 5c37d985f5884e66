use std::collections::VecDeque;

use ft8rx::bandmap::{
    bandmap_age_seconds, bandmap_column, clear_bandmaps, update_bandmaps, web_bandmaps,
    BandMapStore,
};
use ft8rx::clock::Timestamp;
use ft8rx::floats::{float_at_most, float_is_finite, float_less, place_of_float};
use ft8rx::message::{
    bandmap_detail, decode_columns, message_ends_qso, message_is_cq, message_related_calls,
    semantic_first_call_display_call, semantic_sender_call, station_message_kind, CallModifier,
    DecodedMessage, HashedCallField10, HashedCallField12, HashedCallField22, PlainCallField,
    ReplyWord, StationLastMessageKind, StructuredCallField, StructuredCallValue,
    StructuredInfoValue, StructuredMessage, StructuredRttyExchange,
};
use ft8rx::queue::{QueueConfig, WorkQueueState};
use ft8rx::receiver::{
    absorb_stage, carry_out_queue_command, change_context, dt_frame, note_polled_band,
    push_dt_frame, session_reset_needed, DecodeEvent, DecodeOutcome, ReceiverState,
};
use ft8rx::control::QueueCommand;
use ft8rx::rig::{RigKind, RigPowerState, RigSnapshot, RigTelemetry};
use ft8rx::rows::{
    composite_rows, final_decodes, preferred_stage_decodes, relabel_stage_update, web_decode_rows,
    StageDecodeReport, StageDecodes,
};
use ft8rx::screen::{render, render_due, Screen, ScreenRig, ScreenRow};
use ft8rx::slots::{
    DecodeProfile, DecodeStage, DecoderMode, SlotFamily, StageSamples,
};
use ft8rx::tracker::{StationTracker, WebDirectCallLog};
use ft8rx::waterfall::{push_waterfall_row, seeded_waterfall_rows, should_refresh_waterfall};
use ft8rx::web::{
    channel_level, direct_call_pane, refresh_web_snapshot, web_rig, AudioState, DtSummary,
};
use ft8rx::worked::WorkedLog;

const SECOND: Timestamp = 1_000_000_000;
const MILLI: Timestamp = 1_000_000;
const FT8: StageSamples = StageSamples { early41: 141_696, early47: 162_432, full: 172_800 };

fn call(callsign: &str) -> StructuredCallField {
    StructuredCallField {
        value: StructuredCallValue::StandardCall { callsign: callsign.to_string() },
        modifier: None,
    }
}

fn token(word: &str) -> StructuredCallField {
    StructuredCallField {
        value: StructuredCallValue::Token { token: word.to_string() },
        modifier: None,
    }
}

fn standard(
    first: StructuredCallField,
    second: StructuredCallField,
    acknowledge: bool,
    info: StructuredInfoValue,
) -> StructuredMessage {
    StructuredMessage::Standard { first, second, acknowledge, info }
}

fn cq(from: &str) -> StructuredMessage {
    standard(
        token("CQ"),
        call(from),
        false,
        StructuredInfoValue::Grid { locator: "FN20".to_string() },
    )
}

fn decode(message: StructuredMessage, text: &str, freq_hz: f32) -> DecodedMessage {
    DecodedMessage {
        utc: "000000".to_string(),
        snr_db: -10,
        dt_seconds: 0.25f32.to_bits(),
        freq_hz: freq_hz.to_bits(),
        text: text.to_string(),
        structured_json: "{}".to_string(),
        message,
    }
}

fn cq_decode(from: &str, freq_hz: f32) -> DecodedMessage {
    decode(cq(from), &format!("CQ {from} FN20"), freq_hz)
}

fn queue() -> WorkQueueState {
    let config = QueueConfig {
        auto_add_all_decoded_calls_default: false,
        auto_add_decoded_min_count_5m_default: 1,
        auto_add_direct_calls_default: true,
        ignore_direct_calls_from_recently_worked_default: true,
        cq_enabled_default: false,
        cq_percent_default: 80,
        pause_cq_when_few_unique_calls_default: false,
        cq_pause_min_unique_calls_5m_default: 3,
        use_compound_rr73_handoff_default: true,
        use_compound_73_once_handoff_default: false,
        use_compound_for_direct_signal_callers_default: false,
        no_message_retry_delay_seconds_default: 35,
        no_forward_retry_delay_seconds_default: 300,
    };
    WorkQueueState::new(&config, "N1VF", 900.0f32.to_bits(), WorkedLog::new())
}

fn columns(message: &StructuredMessage) -> (String, String, String, String) {
    decode_columns(message)
}

fn texts(kind: &str, field1: &str, field2: &str, info: &str) -> (String, String, String, String) {
    (kind.to_string(), field1.to_string(), field2.to_string(), info.to_string())
}

#[test]
fn each_kind_of_message_has_its_columns() {
    assert_eq!(columns(&cq("K1ABC")), texts("std", "CQ", "K1ABC", "FN20"));
    let report = standard(
        call("N1VF"),
        StructuredCallField { modifier: Some(CallModifier::P), ..call("K1ABC") },
        true,
        StructuredInfoValue::SignalReport { db: -7 },
    );
    assert_eq!(columns(&report), texts("std", "N1VF", "K1ABC/P", "R-07"));
    let hashed = StructuredMessage::Nonstandard {
        hashed_call: HashedCallField12 { raw: 1, resolved_callsign: Some("N1VF".to_string()) },
        plain_call: PlainCallField { callsign: "PJ4/K1ABC".to_string() },
        hashed_is_second: false,
        reply: ReplyWord::Rr73,
        cq: false,
    };
    assert_eq!(columns(&hashed), texts("nonstd", "<N1VF>", "PJ4/K1ABC", "RR73"));
    let dxpedition = StructuredMessage::Dxpedition {
        completed_call: call("OLD1"),
        next_call: call("NEW1"),
        hashed_call10: HashedCallField10 { raw: 9, resolved_callsign: None },
        report_db: 3,
    };
    assert_eq!(columns(&dxpedition), texts("dxped", "OLD1", "NEW1", "RR73; <...> +03"));
    let field_day = StructuredMessage::FieldDay {
        first: call("A1A"),
        second: call("B1B"),
        acknowledge: true,
        transmitter_count: 2,
        class: 'A',
        section: "EMA".to_string(),
    };
    assert_eq!(columns(&field_day), texts("fday", "A1A", "B1B", "R 2A EMA"));
    let rtty = StructuredMessage::RttyContest {
        tu: true,
        first: call("A1A"),
        second: call("B1B"),
        acknowledge: false,
        report: 529,
        exchange: StructuredRttyExchange::Serial { value: 13 },
    };
    assert_eq!(columns(&rtty), texts("rtty", "TU; A1A", "B1B", "529 0013"));
    let vhf = StructuredMessage::EuVhf {
        hashed_call12: HashedCallField12 { raw: 1, resolved_callsign: Some("A1A".to_string()) },
        hashed_call22: HashedCallField22 { raw: 2, resolved_callsign: None },
        acknowledge: true,
        report: 59,
        serial: 7,
        grid6: "JO22DB".to_string(),
    };
    assert_eq!(columns(&vhf).3, "R 590007 JO22DB");
}

#[test]
fn senders_and_first_calls_are_told() {
    assert_eq!(semantic_sender_call(&cq("K1ABC")).as_deref(), Some("K1ABC"));
    assert_eq!(semantic_first_call_display_call(&cq("K1ABC")), None);
    let to_us = standard(call("N1VF"), call("K1ABC"), false, StructuredInfoValue::Blank);
    assert_eq!(semantic_first_call_display_call(&to_us).as_deref(), Some("N1VF"));
    assert_eq!(
        message_related_calls(&to_us),
        vec!["K1ABC".to_string(), "N1VF".to_string()]
    );
    assert_eq!(semantic_sender_call(&StructuredMessage::FreeText), None);
}

#[test]
fn sign_offs_end_a_contact_and_ready_their_sender() {
    let reply = |word| {
        standard(call("A1A"), call("B1B"), false, StructuredInfoValue::Reply { word })
    };
    assert!(message_is_cq(&cq("K1ABC")));
    assert!(message_ends_qso(&cq("K1ABC")));
    assert!(message_ends_qso(&reply(ReplyWord::Rr73)));
    assert!(message_ends_qso(&reply(ReplyWord::SeventyThree)));
    assert_eq!(station_message_kind(&cq("K1ABC")), StationLastMessageKind::Cq);
    assert_eq!(station_message_kind(&reply(ReplyWord::Rr73)), StationLastMessageKind::Rr73);
    assert!(station_message_kind(&reply(ReplyWord::SeventyThree)).is_ready_last_message());
    let busy = standard(call("A1A"), call("B1B"), false, StructuredInfoValue::Blank);
    assert_eq!(station_message_kind(&busy).as_str(), "other");
    assert!(!station_message_kind(&busy).is_ready_last_message());
}

#[test]
fn band_map_details_sum_up_the_message() {
    assert_eq!(bandmap_detail(&cq("K1ABC")).as_deref(), Some("CQ FN20"));
    let blank = standard(call("A1A"), call("B1B"), false, StructuredInfoValue::Blank);
    assert_eq!(bandmap_detail(&blank), None);
}

#[test]
fn each_text_is_listed_once_under_its_first_stage() {
    let stages = StageDecodes {
        early41: vec![cq_decode("K1ABC", 1500.0)],
        early47: vec![cq_decode("W1XYZ", 700.0)],
        full: vec![cq_decode("K1ABC", 1501.0), cq_decode("AA1A", 2000.0)],
    };
    let rows = composite_rows(&stages);
    let listed = rows
        .iter()
        .map(|row| (row.seen, row.display.text.as_str(), f32::from_bits(row.display.freq_hz)))
        .collect::<Vec<_>>();
    assert_eq!(
        listed,
        vec![
            ("mid", "CQ W1XYZ FN20", 700.0),
            ("early", "CQ K1ABC FN20", 1501.0),
            ("full", "CQ AA1A FN20", 2000.0),
        ]
    );
    let shown = web_decode_rows(&stages);
    assert_eq!(shown.len(), 3);
    assert_eq!(shown[1].field2_select_call.as_deref(), Some("K1ABC"));
    assert_eq!(preferred_stage_decodes(&stages).len(), 2);
}

#[test]
fn a_slot_decoded_at_once_shows_its_last_report() {
    let report = |stage, decodes| StageDecodeReport {
        stage,
        decodes,
        new_decodes: vec![cq_decode("NEW", 1.0)],
        updated_decodes: vec![],
    };
    let found = final_decodes(
        vec![
            report(DecodeStage::Early47, vec![cq_decode("K1ABC", 1500.0)]),
            report(DecodeStage::Early41, vec![]),
        ],
        30 * SECOND,
        DecoderMode::Ft8,
    );
    assert_eq!(found.len(), 1);
    assert_eq!(found[0].utc, "000030");
    let mut update = report(DecodeStage::Full, vec![cq_decode("K1ABC", 1500.0)]);
    relabel_stage_update(&mut update, 7_500 * MILLI, DecoderMode::Ft4);
    assert_eq!(update.decodes[0].utc, "000007.5");
    assert_eq!(update.new_decodes[0].utc, "000007.5");
}

#[test]
fn floats_are_ordered_by_their_bits() {
    let less = |a: f32, b: f32| float_less(a.to_bits(), b.to_bits());
    assert!(less(-2.0, -1.0) && less(-1.0, 0.5) && less(0.5, 2.0));
    assert!(!less(0.0, -0.0) && !less(-0.0, 0.0));
    assert!(!less(f32::NAN, 1.0) && !less(1.0, f32::NAN));
    assert!(float_at_most(1.0f32.to_bits(), 1.0f32.to_bits()));
    assert!(!float_is_finite(f32::INFINITY.to_bits()));
    assert!(place_of_float((-0.0f32).to_bits()) < place_of_float(0.0f32.to_bits()));
}

#[test]
fn stations_stand_on_the_map_of_their_family() {
    let mut maps = BandMapStore::new();
    update_bandmaps(&mut maps, DecoderMode::Ft8, 30 * SECOND, &[cq_decode("EVEN", 1010.0)]);
    update_bandmaps(&mut maps, DecoderMode::Ft8, 45 * SECOND, &[cq_decode("ODD", 10.0)]);
    let mut work_queue = queue();
    work_queue.set_current_band(Some("20m".to_string()));
    work_queue.mark_worked("EVEN", "20m", 30 * SECOND);
    let shown = web_bandmaps(&maps, 3, &work_queue, 50 * SECOND);
    let column = bandmap_column(1010.0f32.to_bits()).expect("on the map");
    assert_eq!(shown.even[0][column].len(), 1);
    let entry = &shown.even[0][column][0];
    assert_eq!((entry.callsign.as_str(), entry.age_slots), ("EVEN", 1));
    assert_eq!(entry.detail.as_deref(), Some("CQ FN20"));
    assert!(entry.worked_recently);
    assert_eq!(shown.odd[0][0][0].callsign, "ODD");
    assert_eq!((shown.even_age_seconds, shown.odd_age_seconds), (Some(20), Some(5)));
    // Ten slots on nothing is left of the first station.
    update_bandmaps(&mut maps, DecoderMode::Ft8, 180 * SECOND, &[]);
    let later = web_bandmaps(&maps, 12, &work_queue, 180 * SECOND);
    assert!(later.even[0][column].is_empty());
    clear_bandmaps(&mut maps);
    assert_eq!(bandmap_age_seconds(maps.even_last_updated_at, 0), None);
}

#[test]
fn the_map_ends_at_four_kilohertz() {
    assert_eq!(bandmap_column((-1.0f32).to_bits()), None);
    assert_eq!(bandmap_column(0.0f32.to_bits()), Some(0));
    assert!(bandmap_column(3999.0f32.to_bits()).is_some());
    assert_eq!(bandmap_column(4000.0f32.to_bits()), None);
    assert_eq!(bandmap_column(f32::NAN.to_bits()), None);
}

#[test]
fn the_waterfall_keeps_its_length() {
    let mut rows = seeded_waterfall_rows();
    assert_eq!((rows.len(), rows[0].len()), (180, 400));
    push_waterfall_row(&mut rows, vec![7; 400]);
    assert_eq!(rows.len(), 180);
    assert_eq!((rows[0][0], rows[1][0]), (7, 0));
    assert!(should_refresh_waterfall(200 * MILLI, 0, Some(5), 4));
    assert!(!should_refresh_waterfall(199 * MILLI, 0, Some(5), 4));
    assert!(!should_refresh_waterfall(200 * MILLI, 0, Some(4), 4));
    assert!(!should_refresh_waterfall(200 * MILLI, 0, None, 4));
}

fn event(stage: DecodeStage, result: Result<Vec<DecodedMessage>, String>) -> DecodeEvent {
    DecodeEvent {
        slot_start: 15 * SECOND,
        mode: DecoderMode::Ft8,
        stage,
        wall_ms: 500,
        worker_wait_ms: 1,
        decode_run_ms: 499,
        result,
    }
}

#[test]
fn a_slot_passes_from_stage_to_stage() {
    let mut receiver = ReceiverState::new(DecoderMode::Ft8, DecodeProfile::Medium, SECOND);
    assert_eq!(receiver.next_slot, 15 * SECOND);
    assert_eq!(receiver.decode_status, "Idle");
    let late = Some(30 * SECOND);
    assert_eq!(receiver.next_due_stage(FT8, late), Some(DecodeStage::Early41));
    assert_eq!(
        receiver.begin_stage(FT8, DecodeStage::Early41),
        Ok(15 * SECOND + 11_808 * MILLI)
    );
    receiver.job_sent(DecodeStage::Early41);
    assert!(receiver.active_decode.is_some());
    let taken = receiver.decode_finished(
        event(DecodeStage::Early41, Ok(vec![cq_decode("K1ABC", 1500.0)])),
        Some("W1XYZ"),
        FT8,
        30 * SECOND + 350 * MILLI,
    );
    assert!(matches!(taken, DecodeOutcome::Taken(None)));
    assert_eq!(receiver.decodes.early41.len(), 1);
    assert_eq!(receiver.times.early41_wall_ms, Some(500));
    assert_eq!(receiver.slot_direct_skip_calls, vec!["W1XYZ".to_string()]);
    assert_eq!(receiver.next_due_stage(FT8, late), Some(DecodeStage::Early47));
    assert!(receiver.job_dropped(DecodeStage::Early47).is_none());
    receiver.job_sent(DecodeStage::Full);
    assert_eq!(receiver.next_slot, 30 * SECOND);
    let outcome = receiver.decode_finished(
        event(DecodeStage::Full, Ok(vec![])),
        None,
        FT8,
        30 * SECOND + 350 * MILLI,
    );
    match outcome {
        DecodeOutcome::Taken(Some(line)) => {
            assert_eq!(line.status, "dropped");
            assert_eq!(line.tx_margin_ms, 450);
            assert_eq!(line.full.decode_count, 0);
        }
        _ => panic!("expected a line"),
    }
    assert_eq!(receiver.times.tx_margin_ms, Some(450));
    assert_eq!(receiver.last_slot_start, Some(15 * SECOND));
}

#[test]
fn a_result_of_another_mode_is_outdated() {
    let mut receiver = ReceiverState::new(DecoderMode::Ft4, DecodeProfile::Medium, SECOND);
    let outcome = receiver.decode_finished(event(DecodeStage::Full, Ok(vec![])), None, FT8, 0);
    assert!(matches!(outcome, DecodeOutcome::Outdated));
    let mut receiver = ReceiverState::new(DecoderMode::Ft8, DecodeProfile::Medium, SECOND);
    let outcome = receiver.decode_finished(event(DecodeStage::Full, Ok(vec![])), None, FT8, 0);
    assert!(matches!(outcome, DecodeOutcome::Clock));
}

#[test]
fn failures_are_told_in_the_status() {
    let mut receiver = ReceiverState::new(DecoderMode::Ft8, DecodeProfile::Medium, SECOND);
    receiver.decode_finished(
        event(DecodeStage::Full, Err("no memory".to_string())),
        None,
        FT8,
        30 * SECOND + 350 * MILLI,
    );
    assert_eq!(receiver.decode_status, "Last full 000015 failed: no memory");
    assert!(receiver.capture_failed(DecodeStage::Early41, "gap").is_none());
    assert_eq!(receiver.decode_status, "Capture error for early 000015: gap");
    assert!(receiver.job_dropped(DecodeStage::Full).is_some());
    assert_eq!(
        receiver.decode_status,
        "capture=active decode=busy dropping=000015 drops=1 next=000030"
    );
    assert!(receiver.capture_failed(DecodeStage::Full, "gap").is_some());
    assert_eq!(receiver.next_slot, 45 * SECOND);
}

#[test]
fn the_decoder_starts_afresh_for_a_slot_without_its_second_stage() {
    let again = |slot, early47, stage| {
        session_reset_needed(slot, DecoderMode::Ft8, early47, 15 * SECOND, DecoderMode::Ft8, stage)
    };
    assert!(!again(Some(15 * SECOND), true, DecodeStage::Full));
    assert!(again(Some(15 * SECOND), false, DecodeStage::Full));
    assert!(!again(Some(15 * SECOND), false, DecodeStage::Early47));
    assert!(again(None, true, DecodeStage::Early41));
    assert!(again(Some(0), true, DecodeStage::Early41));
}

#[test]
fn time_offsets_go_back_forty_slots() {
    let mut frames: VecDeque<Vec<u32>> = VecDeque::new();
    for i in 0..41u32 {
        push_dt_frame(&mut frames, vec![i]);
    }
    assert_eq!(frames.len(), 40);
    assert_eq!(frames[0], vec![1]);
    assert_eq!(dt_frame(&[cq_decode("K1ABC", 1.0)]), vec![0.25f32.to_bits()]);
}

#[test]
fn a_whole_slot_reaches_tracker_map_and_queue() {
    let mut tracker = StationTracker::new();
    let mut past = vec![];
    let mut maps = BandMapStore::new();
    let mut work_queue = queue();
    work_queue.set_auto_add_all_decoded_calls(true);
    let heard = [cq_decode("K1ABC", 1500.0)];
    absorb_stage(
        &mut tracker,
        &mut past,
        &mut maps,
        &mut work_queue,
        DecoderMode::Ft8,
        30 * SECOND,
        DecodeStage::Early47,
        &heard,
        "N1VF",
        None,
    );
    assert!(tracker.start_info("K1ABC").is_some());
    assert!(work_queue.entries.is_empty());
    assert_eq!(maps.even_last_updated_at, None);
    absorb_stage(
        &mut tracker,
        &mut past,
        &mut maps,
        &mut work_queue,
        DecoderMode::Ft8,
        30 * SECOND,
        DecodeStage::Full,
        &heard,
        "N1VF",
        None,
    );
    assert_eq!(work_queue.entries.len(), 1);
    assert_eq!(maps.even_last_updated_at, Some(30 * SECOND));
}

#[test]
fn a_change_of_band_forgets_what_was_heard_but_not_who_was_worked() {
    let mut receiver = ReceiverState::new(DecoderMode::Ft8, DecodeProfile::Medium, SECOND);
    let mut tracker = StationTracker::new();
    let mut past = vec![];
    let mut maps = BandMapStore::new();
    let mut work_queue = queue();
    tracker.ingest_frame(30 * SECOND, &[cq_decode("K1ABC", 1500.0)]);
    update_bandmaps(&mut maps, DecoderMode::Ft8, 30 * SECOND, &[cq_decode("K1ABC", 1500.0)]);
    work_queue.set_current_band(Some("20m".to_string()));
    work_queue.mark_worked("W1XYZ", "20m", 30 * SECOND);
    work_queue.add_station("K1ABC", 30 * SECOND, 30 * SECOND).expect("queued");
    assert!(!change_context(
        &mut receiver,
        &mut tracker,
        &mut past,
        &mut work_queue,
        &mut maps,
        Some("20m"),
        Some("20m".to_string()),
        DecoderMode::Ft8,
        "N1VF",
        31 * SECOND,
    ));
    assert_eq!(work_queue.entries.len(), 1);
    assert!(change_context(
        &mut receiver,
        &mut tracker,
        &mut past,
        &mut work_queue,
        &mut maps,
        Some("20m"),
        Some("40m".to_string()),
        DecoderMode::Ft4,
        "N1VF",
        31 * SECOND,
    ));
    assert!(work_queue.entries.is_empty());
    assert!(tracker.start_info("K1ABC").is_none());
    assert_eq!(tracker.mode, DecoderMode::Ft4);
    assert_eq!(receiver.next_slot, 37_500 * MILLI);
    assert!(work_queue.was_worked_recently("W1XYZ", Some("20m"), 31 * SECOND));
    work_queue.add_station("K1ABC", 30 * SECOND, 30 * SECOND).expect("queued");
    note_polled_band(
        &mut work_queue,
        &mut maps,
        Some("40m"),
        None,
        DecoderMode::Ft4,
    );
    assert!(work_queue.entries.is_empty());
    assert_eq!(work_queue.current_band, None);
}

#[test]
fn commands_reach_the_queue() {
    let mut tracker = StationTracker::new();
    tracker.ingest_frame(30 * SECOND, &[cq_decode("K1ABC", 1500.0)]);
    let mut work_queue = queue();
    let mut send = |command| {
        carry_out_queue_command(
            &mut work_queue,
            &tracker,
            command,
            200.0f32.to_bits(),
            3500.0f32.to_bits(),
            31 * SECOND,
        )
    };
    send(QueueCommand::Add { callsign: "K1ABC".to_string() });
    send(QueueCommand::Add { callsign: "UNHEARD".to_string() });
    send(QueueCommand::SetTxFreq {
        slot_family: SlotFamily::Even,
        tx_freq_hz: 1500.0f32.to_bits(),
    });
    send(QueueCommand::SetTxFreq {
        slot_family: SlotFamily::Odd,
        tx_freq_hz: 4000.0f32.to_bits(),
    });
    send(QueueCommand::SetCqEnabled { enabled: true });
    send(QueueCommand::SetCqPercent { percent: 101 });
    send(QueueCommand::ToggleNextCqParity);
    assert_eq!(work_queue.entries.len(), 1);
    assert_eq!(work_queue.even_tx_freq_hz, 1500.0f32.to_bits());
    assert_eq!(work_queue.odd_tx_freq_hz, 900.0f32.to_bits());
    assert!(work_queue.cq_enabled && work_queue.next_cq_parity_flipped);
    assert_eq!(work_queue.cq_percent, 100);
}

fn rig_snapshot() -> RigSnapshot {
    RigSnapshot {
        kind: RigKind::K3s,
        kind_name: "k3s".to_string(),
        frequency_hz: 14_074_000,
        mode: "DATA".to_string(),
        band: "20m".to_string(),
        power: RigPowerState::Continuous {
            current_watts: Some(20.0f32.to_bits()),
            current_text: Some("20.0".to_string()),
        },
        telemetry: RigTelemetry {
            bar_graph: Some(3),
            rx_s_meter: None,
            tx_forward_power_w: None,
            tx_swr: None,
        },
        transmitting: Some(false),
    }
}

fn no_summary() -> DtSummary {
    DtSummary { mean: None, median: None, stddev: None, count: 0 }
}

#[test]
fn the_web_shows_the_station() {
    let mut receiver = ReceiverState::new(DecoderMode::Ft8, DecodeProfile::Medium, SECOND);
    receiver.decodes.full = vec![cq_decode("K1ABC", 1500.0)];
    receiver.times.full_wall_ms = Some(700);
    let mut tracker = StationTracker::new();
    tracker.ingest_frame(30 * SECOND, &[cq_decode("K1ABC", 1500.0)]);
    let audio = AudioState {
        latest_sample_time: Some(31 * SECOND),
        selected_channel: 1,
        overall_dbfs: (-30.0f32).to_bits(),
        channel_dbfs: vec![(-40.0f32).to_bits()],
        recoveries: 2,
    };
    let shown = refresh_web_snapshot(
        &receiver,
        &Some(rig_snapshot()),
        &audio,
        &seeded_waterfall_rows(),
        &BandMapStore::new(),
        DtSummary { mean: Some(1), median: Some(2), stddev: Some(3), count: 4 },
        no_summary(),
        &tracker,
        &queue(),
        &vec![],
        &vec![],
        &vec![],
        "N1VF",
        true,
        32 * SECOND,
    );
    assert_eq!(shown.time_utc, "1970-01-01 00:00:32 UTC");
    assert_eq!((shown.app_mode.as_str(), shown.our_call.as_str()), ("FT8", "N1VF"));
    assert_eq!(shown.rig.kind.as_deref(), Some("k3s"));
    assert_eq!(shown.rig.power.label.as_deref(), Some("20.0 W"));
    assert!(shown.rig_tune_active);
    assert_eq!(shown.audio_stats.latest_sample.as_deref(), Some("000031"));
    assert_eq!(shown.audio_stats.left_dbfs, (-40.0f32).to_bits());
    assert_eq!(shown.audio_stats.right_dbfs, (-120.0f32).to_bits());
    assert_eq!(shown.decode_times.late_ms, Some(700));
    assert_eq!(shown.dt_stats.current_count, 4);
    assert_eq!((shown.current_slot.as_str(), shown.last_done_slot), ("000030", None));
    assert_eq!((shown.decodes.len(), shown.waterfall.len()), (1, 180));
    assert_eq!((shown.stations.len(), shown.station_logs.len()), (1, 1));
    assert!(shown.direct_calls.is_empty() && shown.qso_history.is_empty());
    assert_eq!(shown.queue.unique_calls_last_5m, 1);
}

#[test]
fn without_a_rig_everything_is_unavailable() {
    let shown = web_rig(&None);
    assert_eq!((shown.mode.as_str(), shown.band.as_str()), ("unavailable", "unavailable"));
    assert!(shown.kind.is_none() && shown.frequency_hz.is_none() && shown.is_tx.is_none());
    assert_eq!(channel_level(&vec![], 0), (-120.0f32).to_bits());
}

fn our_row(sort_epoch_ms: u64) -> WebDirectCallLog {
    WebDirectCallLog {
        sort_epoch_ms,
        timestamp: String::new(),
        from_call: "N1VF".to_string(),
        to_call: "K1ABC".to_string(),
        snr_db: None,
        dt_seconds: None,
        freq_hz: None,
        text: String::new(),
        is_ours: true,
    }
}

fn to_us(from: &str) -> DecodedMessage {
    decode(
        standard(call("N1VF"), call(from), false, StructuredInfoValue::Blank),
        &format!("N1VF {from}"),
        1500.0,
    )
}

fn row_times(pane: &[WebDirectCallLog]) -> Vec<(u64, bool)> {
    pane.iter().map(|entry| (entry.sort_epoch_ms, entry.is_ours)).collect::<Vec<_>>()
}

#[test]
fn the_pane_lists_every_call_by_time() {
    let mut tracker = StationTracker::new();
    let now = 7_200 * SECOND;
    tracker.ingest_frame(now - 60 * SECOND, &[to_us("K1ABC")]);
    let ours = vec![our_row(7_190_000), our_row(10), our_row(3_540_000)];
    let pane = direct_call_pane(&tracker, &vec![], &ours, "N1VF");
    assert_eq!(
        row_times(&pane),
        vec![(10, true), (3_540_000, true), (7_140_000, false), (7_190_000, true)]
    );
}

#[test]
fn a_call_to_us_outlives_the_tracker() {
    let mut receiver = ReceiverState::new(DecoderMode::Ft8, DecodeProfile::Medium, SECOND);
    let mut tracker = StationTracker::new();
    let mut past = vec![];
    let mut maps = BandMapStore::new();
    let mut work_queue = queue();
    for (at, from) in [(30, "OLD1"), (7_200, "NEW1"), (12_000, "NEW2")] {
        absorb_stage(
            &mut tracker,
            &mut past,
            &mut maps,
            &mut work_queue,
            DecoderMode::Ft8,
            at * SECOND,
            DecodeStage::Full,
            &[to_us(from), cq_decode("K1ABC", 700.0)],
            "N1VF",
            None,
        );
    }
    assert!(tracker.start_info("OLD1").is_none());
    assert_eq!(past.len(), 2);
    let expected = vec![(30_000, false), (7_200_000, false), (12_000_000, false)];
    assert_eq!(row_times(&direct_call_pane(&tracker, &past, &vec![], "N1VF")), expected);
    assert!(change_context(
        &mut receiver,
        &mut tracker,
        &mut past,
        &mut work_queue,
        &mut maps,
        Some("20m"),
        Some("40m".to_string()),
        DecoderMode::Ft4,
        "N1VF",
        12_010 * SECOND,
    ));
    assert!(tracker.web_logs().is_empty());
    assert_eq!(row_times(&direct_call_pane(&tracker, &past, &vec![], "N1VF")), expected);
}

#[test]
fn an_old_row_of_ours_is_still_shown() {
    let shown = refresh_web_snapshot(
        &ReceiverState::new(DecoderMode::Ft8, DecodeProfile::Medium, SECOND),
        &None,
        &AudioState {
            latest_sample_time: None,
            selected_channel: 0,
            overall_dbfs: 0,
            channel_dbfs: vec![],
            recoveries: 0,
        },
        &seeded_waterfall_rows(),
        &BandMapStore::new(),
        no_summary(),
        no_summary(),
        &StationTracker::new(),
        &queue(),
        &vec![],
        &vec![],
        &vec![our_row(1_000)],
        "N1VF",
        false,
        3_661 * SECOND,
    );
    assert_eq!(row_times(&shown.direct_calls), vec![(1_000, true)]);
}

fn screen(rig: Option<ScreenRig>, app_mode: DecoderMode, rows: Vec<ScreenRow>) -> Screen {
    Screen {
        local_time: "2026-04-04 05:00:00 PDT".to_string(),
        rig,
        app_mode,
        audio_name: "K3S".to_string(),
        audio_spec: "hw:1".to_string(),
        latest_sample_time: None,
        capture_channel: 0,
        left_text: "-40.0".to_string(),
        right_text: "-120.0".to_string(),
        decode_status: "Idle".to_string(),
        last_decode_text: Some("0.70".to_string()),
        early_text: "-".to_string(),
        mid_text: "0.50s".to_string(),
        late_text: "0.70s".to_string(),
        margin_text: "+0.45s".to_string(),
        current_slot: 30 * SECOND,
        progress: "[....] 0%".to_string(),
        last_slot_start: Some(15 * SECOND),
        level_text: "-30.0".to_string(),
        recoveries: 1,
        dt_mean_text: "+0.10".to_string(),
        dt_median_text: "+0.20".to_string(),
        dt_stddev_text: "0.30".to_string(),
        dt_count: 3,
        rows,
    }
}

#[test]
fn the_screen_is_drawn_line_by_line() {
    let rig = ScreenRig {
        frequency_text: "14.0740".to_string(),
        kind: RigKind::K3s,
        kind_name: "k3s".to_string(),
        mode: "DATA".to_string(),
        band: "20m".to_string(),
        transmitting: Some(true),
        power: RigPowerState::Continuous {
            current_watts: Some(20.0f32.to_bits()),
            current_text: Some("20.0".to_string()),
        },
        bar_graph: Some(3),
        s_meter_text: None,
        forward_text: Some("18.5".to_string()),
        swr_text: Some("1.2".to_string()),
    };
    let row = ScreenRow {
        seen: "mid".to_string(),
        utc: "000030".to_string(),
        snr_db: -7,
        dt_text: " +0.25".to_string(),
        freq_text: "    1500".to_string(),
        text: "CQ K1ABC FN20".to_string(),
    };
    let drawn = render(&screen(Some(rig), DecoderMode::Ft8, vec![row]));
    let lines = drawn.lines().collect::<Vec<_>>();
    assert_eq!(
        lines,
        vec![
            "\x1b[2J\x1b[HFT8RX    2026-04-04 05:00:00 PDT",
            "Rig      14.0740 MHz  k3s  DATA  FT8  20m  TX  P=20.0W",
            "RigTel   BG=3  FWD=18.5W  SWR=1.2",
            "Audio    K3S (hw:1)",
            "Chan     latest=------ selected=0 left=-40.0 dBFS right=-120.0 dBFS",
            "Status   Idle last=0.70s",
            "DecodeT  early=- mid=0.50s late=0.70s tx_margin=+0.45s",
            "Slot     000030 [....] 0% last_done=000015",
            "AudioLvl last=-30.0 dBFS recoveries=1",
            "dT stats avg=+0.10s med=+0.20s stddev=0.30s count=3",
            "",
            "Seen    UTC    SNR   dT(s)   Freq(Hz)  Message",
            "------  -----  ----  ------  --------  -------",
            "mid     000030    -7   +0.25      1500  CQ K1ABC FN20",
        ]
    );
    assert!(drawn.ends_with('\n'));
}

#[test]
fn the_screen_goes_without_rig_and_messages() {
    let drawn = render(&screen(None, DecoderMode::Ft4, vec![]));
    let lines = drawn.lines().collect::<Vec<_>>();
    assert_eq!(lines[1], "Rig      unavailable  ?  unavailable  FT4  unavailable  ?  P=-");
    assert_eq!(lines[2], "RigTel   BG=-");
    assert_eq!(lines[6], "DecodeT  mid=0.70s tx_margin=+0.45s");
    assert_eq!(lines[13], "no decodes yet");
    assert!(render_due(250 * MILLI, 0) && !render_due(249 * MILLI, 0));
}
