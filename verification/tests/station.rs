use ft8rx::clock::Timestamp;
use ft8rx::dispatch::{
    compound_handoff_offer, direct_call_observation_from_decode,
    maybe_arm_compound_handoff_from_queue, maybe_auto_add_decoded_calls,
    maybe_track_priority_directs, priority_directs, qso_start_command_from_dispatch,
    reserved_station, station_info_from_dispatch,
};
use ft8rx::message::{
    DecodedMessage, HashedCallField10, HashedCallField12, PlainCallField, ReplyWord,
    StructuredCallField, StructuredCallValue, StructuredInfoValue, StructuredMessage,
};
use ft8rx::qso::{QsoCommand, QsoOutcome, QsoStartMode, QsoState, QueueRetryDelayKind};
use ft8rx::queue::{DirectCallObservation, QueueConfig, QueueRefusal, WorkQueueState};
use ft8rx::scheduler::{QueueDispatch, QueueDispatchKind};
use ft8rx::slots::{
    next_slot_boundary_for_mode, slot_family_for_mode, slot_index_for_mode, DecodeStage,
    DecoderMode, SlotFamily,
};
use ft8rx::tracker::StationTracker;
use ft8rx::worked::WorkedLog;

const SECOND: Timestamp = 1_000_000_000;
const CQ_ACTIVITY_WINDOW: Timestamp = 300 * SECOND;

fn ingest_decode(tracker: &mut StationTracker, received_at: Timestamp, decode: &DecodedMessage) {
    tracker.ingest_frame(received_at, std::slice::from_ref(decode));
}

fn ft8_slot_index(time: Timestamp) -> u64 {
    slot_index_for_mode(DecoderMode::Ft8, time)
}

fn ft8_slot_family(time: Timestamp) -> SlotFamily {
    slot_family_for_mode(DecoderMode::Ft8, time)
}

fn ft8_next_slot_boundary(now: Timestamp) -> Timestamp {
    next_slot_boundary_for_mode(DecoderMode::Ft8, now)
}

fn sample_queue_config() -> QueueConfig {
    QueueConfig {
        auto_add_all_decoded_calls_default: false,
        auto_add_decoded_min_count_5m_default: 2,
        auto_add_direct_calls_default: true,
        ignore_direct_calls_from_recently_worked_default: true,
        cq_enabled_default: false,
        cq_percent_default: 80,
        pause_cq_when_few_unique_calls_default: false,
        cq_pause_min_unique_calls_5m_default: 3,
        use_compound_rr73_handoff_default: true,
        use_compound_73_once_handoff_default: false,
        use_compound_for_direct_signal_callers_default: false,
        no_message_retry_delay_seconds_default: 35,
        no_forward_retry_delay_seconds_default: 300,
    }
}

fn new_queue() -> WorkQueueState {
    WorkQueueState::new(&sample_queue_config(), "N1VF", 900.0f32.to_bits(), WorkedLog::new())
}

fn standard_call(callsign: &str) -> StructuredCallField {
    StructuredCallField {
        value: StructuredCallValue::StandardCall { callsign: callsign.to_string() },
        modifier: None,
    }
}

fn token_call(token: &str) -> StructuredCallField {
    StructuredCallField {
        value: StructuredCallValue::Token { token: token.to_string() },
        modifier: None,
    }
}

fn grid_info(locator: &str) -> StructuredInfoValue {
    StructuredInfoValue::Grid { locator: locator.to_string() }
}

fn decode_of(message: StructuredMessage, text: &str, snr_db: i32) -> DecodedMessage {
    DecodedMessage {
        utc: "00:00:00".to_string(),
        snr_db,
        dt_seconds: 0.1f32.to_bits(),
        freq_hz: 1000.0f32.to_bits(),
        text: text.to_string(),
        structured_json: "{}".to_string(),
        message,
    }
}

fn standard_decode(
    first: StructuredCallField,
    from: &str,
    acknowledge: bool,
    info: StructuredInfoValue,
    text: &str,
    snr_db: i32,
) -> DecodedMessage {
    decode_of(
        StructuredMessage::Standard { first, second: standard_call(from), acknowledge, info },
        text,
        snr_db,
    )
}

fn directed_decode(from: &str, to: &str) -> DecodedMessage {
    standard_decode(
        standard_call(to),
        from,
        false,
        StructuredInfoValue::Blank,
        &format!("{to} {from}"),
        -10,
    )
}

fn cq_decode(from: &str) -> DecodedMessage {
    standard_decode(
        token_call("CQ"),
        from,
        false,
        grid_info("FN20"),
        &format!("CQ {from} FN20"),
        -10,
    )
}

fn reply_decode(from: &str, to: &str, word: ReplyWord) -> DecodedMessage {
    standard_decode(
        standard_call(to),
        from,
        false,
        StructuredInfoValue::Reply { word },
        &format!("{to} {from} RR73"),
        -10,
    )
}

fn report_decode(from: &str, to: &str, acknowledge: bool, db: i16, text: &str) -> DecodedMessage {
    standard_decode(
        standard_call(to),
        from,
        acknowledge,
        StructuredInfoValue::SignalReport { db },
        text,
        2,
    )
}

fn dxpedition_direct_decode(
    sender: &str,
    completed: &str,
    next: &str,
    report_db: i16,
) -> DecodedMessage {
    decode_of(
        StructuredMessage::Dxpedition {
            completed_call: standard_call(completed),
            next_call: standard_call(next),
            hashed_call10: HashedCallField10 {
                raw: 0,
                resolved_callsign: Some(sender.to_string()),
            },
            report_db,
        },
        &format!("{completed} RR73; {next} <{sender}> {report_db}"),
        -10,
    )
}

fn observation(
    callsign: &str,
    at: Timestamp,
    snr_db: i32,
    start_state: QsoState,
    compound_eligible: bool,
    text: &str,
) -> DirectCallObservation {
    DirectCallObservation {
        callsign: callsign.to_string(),
        observed_at: at,
        slot_index: ft8_slot_index(at),
        slot_family: ft8_slot_family(at),
        snr_db,
        start_state,
        compound_eligible,
        text: text.to_string(),
        structured_json: "{}".to_string(),
    }
}

fn outcome(reason: &str, finished_at: Timestamp, sent_terminal_73: bool) -> QsoOutcome {
    QsoOutcome {
        partner_call: "K1ABC".to_string(),
        exit_reason: reason.to_string(),
        finished_at,
        rig_band: Some("40m".to_string()),
        sent_terminal_73,
    }
}

fn calls_of(queue: &WorkQueueState) -> Vec<String> {
    queue.entries.iter().map(|entry| entry.callsign.clone()).collect::<Vec<_>>()
}

#[test]
fn station_tracker_reset_for_mode_clears_previous_state() {
    let now = 30 * SECOND;
    let mut tracker = StationTracker::new();
    ingest_decode(&mut tracker, now, &cq_decode("K1ABC"));
    assert!(tracker.start_info("K1ABC").is_some());

    tracker.reset_for_mode(DecoderMode::Ft4);

    assert_eq!(tracker.mode, DecoderMode::Ft4);
    assert!(tracker.start_info("K1ABC").is_none());
    assert!(tracker.web_logs().is_empty());
}

#[test]
fn queue_scheduler_can_dispatch_in_ft4_mode() {
    let now = 30 * SECOND;
    let mut tracker = StationTracker::new();
    ingest_decode(&mut tracker, now, &cq_decode("K1ABC"));
    let mut queue = new_queue();
    queue.auto_enabled = true;
    queue.set_current_band(Some("20m".to_string()));
    queue.set_current_mode(DecoderMode::Ft4);
    queue.add_station("K1ABC", now, now).expect("queued");

    let dispatch =
        queue.scheduler_pick(now + 8 * SECOND, &tracker, false, false).expect("dispatch");
    assert_eq!(dispatch.callsign, "K1ABC");
    assert_eq!(queue.scheduler_status, "dispatching K1ABC");
}

#[test]
fn related_calls_ignore_previous_qso_peer() {
    let mut tracker = StationTracker::new();
    let now = SECOND;

    ingest_decode(&mut tracker, now, &directed_decode("B", "A"));
    ingest_decode(&mut tracker, now + 15 * SECOND, &directed_decode("B", "C"));

    let logs = tracker.web_logs();
    assert_eq!(logs.len(), 2);
    assert_eq!(logs[0].related_calls, vec!["A".to_string(), "B".to_string()]);
    assert_eq!(logs[1].related_calls, vec!["B".to_string(), "C".to_string()]);
    assert_eq!(logs[1].peer.as_deref(), Some("C"));
    assert_eq!(logs[1].peer.as_deref(), Some("C"));
    assert_eq!(logs[1].peer_before.as_deref(), Some("A"));
    assert_eq!(logs[1].peer_after.as_deref(), Some("C"));
    assert!(!logs[1].related_calls.iter().any(|call| call == "A"));
}

#[test]
fn cq_clears_display_peer_after_qso() {
    let mut tracker = StationTracker::new();
    let now = SECOND;

    ingest_decode(&mut tracker, now, &directed_decode("B", "A"));
    ingest_decode(&mut tracker, now + 15 * SECOND, &cq_decode("B"));

    let logs = tracker.web_logs();
    assert_eq!(logs.len(), 2);
    assert_eq!(logs[1].peer_before.as_deref(), Some("A"));
    assert_eq!(logs[1].peer, None);
    assert_eq!(logs[1].peer_after, None);
}

#[test]
fn queue_pick_uses_oldest_ready_entry() {
    let now = 30 * SECOND;
    let mut tracker = StationTracker::new();
    ingest_decode(&mut tracker, now, &cq_decode("OLDER"));
    ingest_decode(&mut tracker, now, &cq_decode("NEWER"));

    let mut queue = new_queue();
    queue.auto_enabled = true;
    queue.add_station("OLDER", now, now).expect("older queued");
    queue.add_station("NEWER", now + SECOND, now + SECOND).expect("newer queued");

    let dispatch = queue.scheduler_pick(now + SECOND, &tracker, false, false).expect("dispatch");
    assert_eq!(dispatch.callsign, "OLDER");
}

#[test]
fn direct_observation_same_slot_does_not_increment_count() {
    let mut queue = new_queue();
    let now = 30 * SECOND;
    let heard =
        || observation("K1ABC", now, -5, QsoState::SendSig, true, "N1VF K1ABC FN20");
    queue.add_direct_observation(heard(), now).expect("first add");
    queue.add_direct_observation(heard(), now).expect("duplicate stage add");
    let entry = queue.entries.first().expect("queued entry");
    assert_eq!(entry.direct_count, 1);
}

#[test]
fn dxpedition_direct_to_us_starts_as_send_sig_ack() {
    let now = 30 * SECOND;
    let decode = dxpedition_direct_decode("PY7ZZ", "SP4MCH", "N1VF", -18);
    let observation = direct_call_observation_from_decode(&decode, "N1VF", now, DecoderMode::Ft8)
        .expect("direct observation");
    assert_eq!(observation.callsign, "PY7ZZ");
    assert_eq!(observation.start_state, QsoState::SendSigAck);
    assert!(!observation.compound_eligible);
}

#[test]
fn acknowledged_signal_direct_to_us_starts_as_send_rr73() {
    let now = 30 * SECOND;
    let decode = report_decode("JA1IST", "N1VF", true, -21, "N1VF JA1IST R-21");
    let observation = direct_call_observation_from_decode(&decode, "N1VF", now, DecoderMode::Ft8)
        .expect("direct observation");
    assert_eq!(observation.callsign, "JA1IST");
    assert_eq!(observation.start_state, QsoState::SendRR73);
    assert!(!observation.compound_eligible);
}

#[test]
fn compound_handoff_candidate_only_uses_grid_style_directs() {
    let mut queue = new_queue();
    let now = 30 * SECOND;
    let later = now + 15 * SECOND;
    queue
        .add_direct_observation(
            observation("GRID", now, -8, QsoState::SendSig, true, "N1VF GRID FN20"),
            now,
        )
        .expect("grid direct");
    queue
        .add_direct_observation(
            observation("GRID", later, -8, QsoState::SendSig, true, "N1VF GRID FN20"),
            later,
        )
        .expect("grid repeat");
    queue
        .add_direct_observation(
            observation("SIG", later, -2, QsoState::SendSigAck, false, "N1VF SIG -02"),
            later,
        )
        .expect("signal direct");
    let candidate = queue
        .peek_compound_handoff_candidate(now + 16 * SECOND, None)
        .expect("compound candidate");
    assert_eq!(candidate.callsign, "GRID");

    let mut queue = new_queue();
    queue
        .add_direct_observation(
            observation("SIG", now, -2, QsoState::SendSigAck, false, "N1VF SIG -02"),
            now,
        )
        .expect("signal direct");
    assert!(queue.peek_compound_handoff_candidate(now + SECOND, None).is_none());
}

#[test]
fn compound_handoff_candidate_can_include_signal_direct_when_enabled() {
    let mut queue = new_queue();
    queue.set_use_compound_for_direct_signal_callers(true);
    let now = 30 * SECOND;
    queue
        .add_direct_observation(
            observation("SIG", now, -2, QsoState::SendSigAck, false, "N1VF SIG -02"),
            now,
        )
        .expect("signal direct");
    let candidate =
        queue.peek_compound_handoff_candidate(now + SECOND, None).expect("compound candidate");
    assert_eq!(candidate.callsign, "SIG");
    match candidate.kind {
        QueueDispatchKind::Station { initial_state, .. } => {
            assert_eq!(initial_state, QsoState::SendSigAck);
        }
        QueueDispatchKind::Cq { .. } => panic!("expected station dispatch"),
    }
}

#[test]
fn reserved_compound_next_call_is_not_readded_to_queue() {
    let mut queue = new_queue();
    let now = 30 * SECOND;
    let rx_slot_start = now + 15 * SECOND;
    let decode = standard_decode(
        standard_call("N1VF"),
        "NEW1",
        false,
        grid_info("FN20"),
        "N1VF NEW1 FN20",
        -7,
    );
    let found = priority_directs(
        &queue,
        Some("OLD1"),
        &[decode],
        "N1VF",
        rx_slot_start,
        &vec!["NEW1".to_string()],
    );
    assert!(found.is_empty());
    maybe_track_priority_directs(&mut queue, found, &vec![], rx_slot_start);
    assert!(queue.entries.is_empty());
}

#[test]
fn later_decode_stage_does_not_requeue_same_slot_active_partner_direct() {
    let mut queue = new_queue();
    queue.set_auto_add_direct_calls(true);
    let slot_3 = 75 * SECOND;
    let ack_08 = DecodedMessage {
        utc: "00:00:30".to_string(),
        snr_db: 1,
        ..report_decode("JA1IST", "N1VF", true, -8, "N1VF JA1IST R-08")
    };
    let slot_skip_calls = vec!["JA1IST".to_string()];

    let found = priority_directs(
        &queue,
        Some("JA1IST"),
        std::slice::from_ref(&ack_08),
        "N1VF",
        slot_3,
        &slot_skip_calls,
    );
    maybe_track_priority_directs(&mut queue, found, &vec![], slot_3);
    assert!(queue.entries.is_empty());

    let found = priority_directs(
        &queue,
        None,
        std::slice::from_ref(&ack_08),
        "N1VF",
        slot_3,
        &slot_skip_calls,
    );
    maybe_track_priority_directs(&mut queue, found, &vec![], slot_3);
    assert!(queue.entries.is_empty());
}

#[test]
fn queue_requeue_after_early_no_msg_adds_retry_delay() {
    let now = 30 * SECOND;
    let mut tracker = StationTracker::new();
    ingest_decode(&mut tracker, now, &cq_decode("K1ABC"));
    let mut queue = new_queue();
    queue.set_current_band(Some("40m".to_string()));
    queue.handle_qso_outcome(&outcome("send_grid_no_msg_limit", now, false), &tracker);
    let entry = queue.entries.first().expect("requeued entry");
    assert_eq!(entry.callsign, "K1ABC");
    assert_eq!(entry.queued_at, now);
    assert_eq!(
        entry.ok_to_schedule_after,
        now + sample_queue_config().no_message_retry_delay_seconds_default as i128 * SECOND
    );
}

#[test]
fn queue_requeue_after_no_fwd_uses_no_fwd_retry_delay() {
    let now = 30 * SECOND;
    let mut tracker = StationTracker::new();
    ingest_decode(&mut tracker, now, &cq_decode("K1ABC"));
    let mut queue = new_queue();
    queue.set_current_band(Some("40m".to_string()));
    queue.handle_qso_outcome(&outcome("send_sig_no_fwd_limit", now, false), &tracker);
    let entry = queue.entries.first().expect("requeued entry");
    assert_eq!(entry.callsign, "K1ABC");
    assert_eq!(entry.queued_at, now);
    assert_eq!(
        entry.ok_to_schedule_after,
        now + sample_queue_config().no_forward_retry_delay_seconds_default as i128 * SECOND
    );
}

#[test]
fn queue_drops_recently_worked_station_immediately() {
    let now = 30 * SECOND;
    let mut queue = new_queue();
    queue.set_current_band(Some("40m".to_string()));
    queue.mark_worked("K1ABC", "40m", now);
    let added = queue.add_station("K1ABC", now, now);
    assert!(added.is_err());
    assert!(queue.entries.is_empty());
}

#[test]
fn queue_allows_recently_worked_station_on_different_band() {
    let now = 30 * SECOND;
    let mut queue = new_queue();
    queue.mark_worked("K1ABC", "20m", now);
    queue.set_current_band(Some("40m".to_string()));
    let added = queue.add_station("K1ABC", now, now);
    assert!(added.is_ok());
    assert_eq!(queue.entries.len(), 1);
}

#[test]
fn queue_rejects_our_own_call() {
    let now = 30 * SECOND;
    let mut queue = new_queue();
    queue.set_current_band(Some("40m".to_string()));
    assert!(queue.add_station("N1VF", now, now).is_err());
    assert!(queue.entries.is_empty());
    let heard = observation("N1VF", now, -10, QsoState::SendSig, false, "N1VF N1VF FN20");
    assert!(queue.add_direct_observation(heard, now).is_err());
    assert!(queue.entries.is_empty());
}

#[test]
fn next_cq_parity_flip_is_consumed_once() {
    let now = 31 * SECOND;
    let mut queue = new_queue();
    let tracker = StationTracker::new();
    queue.auto_enabled = true;
    queue.cq_enabled = true;
    queue.cq_percent = 100;
    queue.next_cq_parity_flipped = true;

    let dispatch = queue.scheduler_pick(now, &tracker, false, false).expect("cq dispatch");
    match dispatch.kind {
        QueueDispatchKind::Cq { tx_slot_family_override } => {
            assert_eq!(
                tx_slot_family_override,
                Some(ft8_slot_family(ft8_next_slot_boundary(now)).opposite())
            );
        }
        _ => panic!("expected cq dispatch"),
    }
    assert!(!queue.next_cq_parity_flipped);

    let second = queue
        .scheduler_pick(now + 15 * SECOND, &tracker, false, false)
        .expect("second cq dispatch");
    match second.kind {
        QueueDispatchKind::Cq { tx_slot_family_override } => assert_eq!(
            tx_slot_family_override,
            Some(ft8_slot_family(ft8_next_slot_boundary(now + 15 * SECOND)))
        ),
        _ => panic!("expected cq dispatch"),
    }
}

#[test]
fn auto_add_decoded_calls_queues_unique_non_active_callers() {
    let now = 30 * SECOND;
    let mut queue = new_queue();
    queue.set_current_band(Some("40m".to_string()));
    queue.set_auto_add_all_decoded_calls(true);
    queue.set_auto_add_decoded_min_count_5m(1);
    let mut tracker = StationTracker::new();

    tracker.ingest_frame(now, &[cq_decode("ALPHA"), cq_decode("BRAVO"), cq_decode("ALPHA")]);

    maybe_auto_add_decoded_calls(
        &mut queue,
        &tracker,
        None,
        &[cq_decode("ALPHA"), cq_decode("BRAVO"), cq_decode("ALPHA")],
        now,
    );

    assert_eq!(calls_of(&queue), vec!["ALPHA".to_string(), "BRAVO".to_string()]);
}

#[test]
fn auto_add_decoded_calls_requires_repeat_count_within_5m() {
    let mut queue = new_queue();
    queue.set_current_band(Some("40m".to_string()));
    queue.set_auto_add_all_decoded_calls(true);
    let mut tracker = StationTracker::new();

    let first = 30 * SECOND;
    let second = first + 30 * SECOND;

    ingest_decode(&mut tracker, first, &cq_decode("ALPHA"));
    maybe_auto_add_decoded_calls(&mut queue, &tracker, None, &[cq_decode("ALPHA")], first);
    assert!(queue.entries.is_empty());

    ingest_decode(&mut tracker, second, &cq_decode("ALPHA"));
    maybe_auto_add_decoded_calls(&mut queue, &tracker, None, &[cq_decode("ALPHA")], second);

    assert_eq!(calls_of(&queue), vec!["ALPHA".to_string()]);
}

#[test]
fn auto_add_decoded_calls_ignores_old_repeat_outside_5m_window() {
    let mut queue = new_queue();
    queue.set_current_band(Some("40m".to_string()));
    queue.set_auto_add_all_decoded_calls(true);
    let mut tracker = StationTracker::new();

    let first = 30 * SECOND;
    let second = first + 301 * SECOND;

    ingest_decode(&mut tracker, first, &cq_decode("ALPHA"));
    ingest_decode(&mut tracker, second, &cq_decode("ALPHA"));
    maybe_auto_add_decoded_calls(&mut queue, &tracker, None, &[cq_decode("ALPHA")], second);

    assert!(queue.entries.is_empty());
}

#[test]
fn cq_pause_low_activity_blocks_cq_dispatch_until_threshold_met() {
    let now = 60 * SECOND;
    let mut queue = new_queue();
    let mut tracker = StationTracker::new();
    queue.auto_enabled = true;
    queue.cq_enabled = true;
    queue.cq_percent = 100;
    queue.set_pause_cq_when_few_unique_calls(true);
    queue.set_cq_pause_min_unique_calls_5m(3);

    ingest_decode(&mut tracker, now - 30 * SECOND, &cq_decode("A1"));
    ingest_decode(&mut tracker, now - 15 * SECOND, &cq_decode("A2"));

    assert!(queue.scheduler_pick(now, &tracker, false, false).is_none());
    assert!(queue.scheduler_status.contains("cq paused"));

    ingest_decode(&mut tracker, now, &cq_decode("A3"));
    let dispatch = queue
        .scheduler_pick(now + SECOND, &tracker, false, false)
        .expect("cq dispatch once threshold is met");
    match dispatch.kind {
        QueueDispatchKind::Cq { .. } => {}
        _ => panic!("expected cq dispatch"),
    }
}

#[test]
fn unique_sender_count_excludes_our_own_call() {
    let now = 60 * SECOND;
    let mut tracker = StationTracker::new();
    ingest_decode(&mut tracker, now - 30 * SECOND, &cq_decode("A1"));
    ingest_decode(&mut tracker, now - 15 * SECOND, &cq_decode("N1VF"));
    ingest_decode(&mut tracker, now, &cq_decode("A2"));

    assert_eq!(
        tracker.unique_sender_count_since_excluding(now - CQ_ACTIVITY_WINDOW, "N1VF"),
        2
    );
}

#[test]
fn station_tracker_uses_early_stage_for_start_info() {
    let slot_start = 45 * SECOND;
    let mut tracker = StationTracker::new();
    tracker.ingest_stage(
        slot_start,
        DecodeStage::Early47,
        &[standard_decode(
            standard_call("N1VF"),
            "K7VAY",
            false,
            grid_info("DM42"),
            "N1VF K7VAY DM42",
            -4,
        )],
    );

    let info = tracker.start_info("K7VAY").expect("start info");
    assert_eq!(info.last_heard_at, slot_start);
    assert_eq!(info.last_heard_slot_family, SlotFamily::Odd);
    assert_eq!(info.last_snr_db, -4);
    assert_eq!(info.last_text.as_deref(), Some("N1VF K7VAY DM42"));
}

#[test]
fn station_tracker_replaces_same_slot_log_with_later_stage() {
    let slot_start = 45 * SECOND;
    let mut tracker = StationTracker::new();
    let heard = |snr_db: i32| {
        standard_decode(
            standard_call("N1VF"),
            "K7VAY",
            false,
            grid_info("DM42"),
            "N1VF K7VAY DM42",
            snr_db,
        )
    };

    tracker.ingest_stage(slot_start, DecodeStage::Early47, &[heard(-9)]);
    tracker.ingest_stage(slot_start, DecodeStage::Full, &[heard(-4)]);

    let logs = tracker.web_logs();
    assert_eq!(logs.len(), 1);
    assert_eq!(logs[0].sender_call, "K7VAY");
    assert_eq!(logs[0].snr_db, -4);
    let info = tracker.start_info("K7VAY").expect("start info");
    assert_eq!(info.last_snr_db, -4);
    assert_eq!(info.last_heard_slot_family, SlotFamily::Odd);
}

#[test]
fn station_dispatch_preserves_scheduler_selected_tx_parity() {
    let dispatch = QueueDispatch {
        kind: QueueDispatchKind::Station {
            callsign: "K7VAY".to_string(),
            initial_state: QsoState::SendSig,
            start_mode: QsoStartMode::Direct,
            context_last_heard_at: None,
            context_last_heard_slot_family: None,
            context_text: None,
            context_structured_json: None,
            context_snr_db: None,
        },
        callsign: "K7VAY".to_string(),
        tx_slot_family: SlotFamily::Even,
        tx_freq_hz: 720.0f32.to_bits(),
    };

    match qso_start_command_from_dispatch(&dispatch) {
        QsoCommand::Start { tx_slot_family_override, .. } => {
            assert_eq!(tx_slot_family_override, Some(SlotFamily::Even))
        }
        _ => panic!("expected start command"),
    }
}

#[test]
fn direct_dispatch_context_overrides_stale_tracker_slot_family() {
    let older = 30 * SECOND;
    let newer = older + 15 * SECOND;
    let mut tracker = StationTracker::new();
    ingest_decode(&mut tracker, older, &cq_decode("K7VAY"));

    let station_info = station_info_from_dispatch(
        &tracker,
        &QueueDispatchKind::Station {
            callsign: "K7VAY".to_string(),
            initial_state: QsoState::SendSig,
            start_mode: QsoStartMode::Direct,
            context_last_heard_at: Some(newer),
            context_last_heard_slot_family: Some(SlotFamily::Odd),
            context_text: Some("N1VF K7VAY DM42".to_string()),
            context_structured_json: Some("{}".to_string()),
            context_snr_db: Some(-4),
        },
    )
    .expect("station info");

    assert_eq!(station_info.last_heard_at, newer);
    assert_eq!(station_info.last_heard_slot_family, SlotFamily::Odd);
    assert_eq!(station_info.last_snr_db, -4);
    assert_eq!(station_info.last_text.as_deref(), Some("N1VF K7VAY DM42"));
}

#[test]
fn a_second_request_leaves_one_entry() {
    let mut queue = new_queue();
    queue.add_station("K1ABC", SECOND, SECOND).expect("queued");
    queue.add_station("K1ABC", SECOND, 2 * SECOND).expect("queued again");
    assert_eq!(calls_of(&queue), vec!["K1ABC".to_string()]);
    assert_eq!(queue.entries[0].queued_at, SECOND);
}

#[test]
fn refusals_say_why() {
    let now = 30 * SECOND;
    let mut queue = new_queue();
    queue.set_current_band(Some("40m".to_string()));
    queue.mark_worked("K1ABC", "40m", now);
    assert_eq!(queue.add_station("n1vf", now, now), Err(QueueRefusal::OwnCall));
    assert_eq!(queue.add_station("K1ABC", now, now), Err(QueueRefusal::WorkedRecently));
    let heard = observation("K1ABC", now, -1, QsoState::SendSig, true, "N1VF K1ABC FN20");
    assert_eq!(
        queue.add_direct_observation(heard, now),
        Err(QueueRefusal::DirectCallerWorkedRecently)
    );
    let day = 24 * 3600 * SECOND;
    assert!(!queue.was_worked_recently("K1ABC", Some("40m"), now + day + SECOND));
    assert!(queue.add_station("K1ABC", now, now + day + SECOND).is_ok());
}

#[test]
fn a_direct_call_in_the_next_slot_counts_again() {
    let mut queue = new_queue();
    let now = 30 * SECOND;
    for at in [now, now + 30 * SECOND] {
        queue
            .add_direct_observation(
                observation("K1ABC", at, -5, QsoState::SendSig, true, "N1VF K1ABC FN20"),
                at,
            )
            .expect("taken");
    }
    assert_eq!(queue.entries.len(), 1);
    assert_eq!(queue.entries[0].direct_count, 2);
    assert!(queue.entries[0].direct_pending);
}

#[test]
fn a_station_to_retry_goes_to_the_back() {
    let now = 60 * SECOND;
    let mut tracker = StationTracker::new();
    ingest_decode(&mut tracker, now, &cq_decode("K1ABC"));
    let mut queue = new_queue();
    queue.set_current_band(Some("40m".to_string()));
    queue.add_station("K1ABC", SECOND, SECOND).expect("queued");
    queue.add_station("W1XYZ", SECOND, SECOND).expect("queued");
    queue.handle_qso_outcome(&outcome("send_grid_no_msg_limit", now, false), &tracker);
    assert_eq!(calls_of(&queue), vec!["W1XYZ".to_string(), "K1ABC".to_string()]);
    queue.set_retry_delay(QueueRetryDelayKind::NoMessage, 7 * SECOND as u128);
    queue.handle_qso_outcome(&outcome("send_grid_no_msg_limit", now, false), &tracker);
    assert_eq!(queue.entries[1].ok_to_schedule_after, now + 7 * SECOND);
}

#[test]
fn a_closed_contact_leaves_the_queue() {
    let now = 60 * SECOND;
    let tracker = StationTracker::new();
    let mut queue = new_queue();
    queue.set_current_band(Some("40m".to_string()));
    queue.add_station("K1ABC", SECOND, SECOND).expect("queued");
    queue.handle_qso_outcome(&outcome("complete", now, true), &tracker);
    assert!(queue.entries.is_empty());
    assert!(queue.was_worked_recently("K1ABC", Some("40m"), now + SECOND));
    assert!(!queue.was_worked_recently("K1ABC", Some("20m"), now + SECOND));
}

#[test]
fn our_own_call_is_never_queued_again() {
    let now = 60 * SECOND;
    let tracker = StationTracker::new();
    let mut queue = new_queue();
    let mut ended = outcome("send_grid_no_msg_limit", now, false);
    ended.partner_call = "N1VF".to_string();
    queue.handle_qso_outcome(&ended, &tracker);
    assert!(queue.entries.is_empty());
}

#[test]
fn nothing_is_sent_while_the_scheduler_is_held() {
    let now = 30 * SECOND;
    let mut tracker = StationTracker::new();
    ingest_decode(&mut tracker, now, &cq_decode("K1ABC"));
    let mut queue = new_queue();
    queue.add_station("K1ABC", now, now).expect("queued");
    assert!(queue.scheduler_pick(now, &tracker, false, false).is_none());
    queue.set_auto_enabled(true);
    assert!(queue.scheduler_pick(now, &tracker, true, false).is_none());
    assert!(queue.scheduler_pick(now, &tracker, false, true).is_none());
    assert_eq!(queue.entries.len(), 1);
    assert!(queue.scheduler_pick(now, &tracker, false, false).is_some());
    assert!(queue.entries.is_empty());
}

#[test]
fn a_direct_call_goes_before_cq_and_older_stations() {
    let now = 45 * SECOND;
    let mut tracker = StationTracker::new();
    ingest_decode(&mut tracker, now, &cq_decode("OLDER"));
    let mut queue = new_queue();
    queue.auto_enabled = true;
    queue.cq_enabled = true;
    queue.cq_percent = 100;
    queue.add_station("OLDER", now, now - 10 * SECOND).expect("queued");
    queue
        .add_direct_observation(
            observation("K1ABC", now, -5, QsoState::SendSig, true, "N1VF K1ABC FN20"),
            now,
        )
        .expect("taken");
    let dispatch = queue.scheduler_pick(now + SECOND, &tracker, false, false).expect("dispatch");
    assert_eq!(dispatch.callsign, "K1ABC");
    assert_eq!(calls_of(&queue), vec!["OLDER".to_string()]);
    // K1ABC sends in odd slots, so we answer in even ones.
    assert_eq!(dispatch.tx_slot_family, SlotFamily::Even);
    assert_eq!(dispatch.tx_freq_hz, 900.0f32.to_bits());
}

#[test]
fn the_latest_direct_call_goes_first() {
    let now = 60 * SECOND;
    let mut queue = new_queue();
    for (call, at) in [("EARLY", 30 * SECOND), ("LATE", now)] {
        queue
            .add_direct_observation(
                observation(call, at, -5, QsoState::SendSig, true, "N1VF X FN20"),
                at,
            )
            .expect("taken");
    }
    assert_eq!(queue.best_priority_direct_index(now + SECOND), Some(1));
    assert!(queue.has_recent_priority_direct_for_slot(now, now + SECOND));
    assert_eq!(
        queue.best_priority_direct_index_excluding(now + SECOND, Some("LATE")),
        Some(0)
    );
}

#[test]
fn a_cq_leaves_every_station_in_the_queue() {
    // Enough seeds are tried that both CQ and the station come up.
    let mut cq = 0;
    let mut station = 0;
    for second in 0..40 {
        let now = (3_000 + second) * SECOND;
        let mut tracker = StationTracker::new();
        ingest_decode(&mut tracker, now, &cq_decode("K1ABC"));
        let mut queue = new_queue();
        queue.auto_enabled = true;
        queue.cq_enabled = true;
        queue.cq_percent = 50;
        queue.add_station("K1ABC", now, now).expect("queued");
        let dispatch = queue.scheduler_pick(now, &tracker, false, false).expect("dispatch");
        match dispatch.kind {
            QueueDispatchKind::Cq { .. } => {
                cq += 1;
                assert_eq!(queue.entries.len(), 1);
            }
            QueueDispatchKind::Station { .. } => {
                station += 1;
                assert!(queue.entries.is_empty());
            }
        }
    }
    assert_eq!(cq + station, 40);
}

#[test]
fn worked_stations_are_found_by_band_and_for_a_day() {
    let mut log = WorkedLog::new();
    log.insert("K1ABC", "40m", 100 * SECOND);
    assert_eq!(log.get("K1ABC", "40m"), Some(100 * SECOND));
    assert_eq!(log.get("K1ABC", "20m"), None);
    let day = 24 * 3600 * SECOND;
    assert!(log.was_worked_recently("K1ABC", Some("40m"), 100 * SECOND + day - SECOND));
    assert!(!log.was_worked_recently("K1ABC", Some("40m"), 100 * SECOND + day + SECOND));
    assert!(!log.was_worked_recently("K1ABC", None, 100 * SECOND));
    log.retain_recent(100 * SECOND + day + SECOND);
    assert_eq!(log.get("K1ABC", "40m"), None);
}

#[test]
fn merging_keeps_the_later_time() {
    let mut log = WorkedLog::new();
    log.insert("K1ABC", "40m", 100 * SECOND);
    let mut other = WorkedLog::new();
    other.insert("K1ABC", "40m", 50 * SECOND);
    other.insert("W1XYZ", "20m", 10 * SECOND);
    log.merge(&other);
    assert_eq!(log.get("K1ABC", "40m"), Some(100 * SECOND));
    assert_eq!(log.get("W1XYZ", "20m"), Some(10 * SECOND));
}

#[test]
fn an_earlier_stage_changes_nothing() {
    let mut tracker = StationTracker::new();
    tracker.ingest_stage(30 * SECOND, DecodeStage::Full, &[directed_decode("B", "A")]);
    tracker.ingest_stage(30 * SECOND, DecodeStage::Early41, &[cq_decode("B")]);
    tracker.ingest_stage(15 * SECOND, DecodeStage::Full, &[cq_decode("B")]);
    let logs = tracker.web_logs();
    assert_eq!(logs.len(), 1);
    assert_eq!(logs[0].text, "A B");
    assert_eq!(tracker.start_info("B").expect("heard").last_text.as_deref(), Some("A B"));
}

#[test]
fn a_message_touches_its_sender_only() {
    let mut tracker = StationTracker::new();
    ingest_decode(&mut tracker, 15 * SECOND, &directed_decode("B", "A"));
    ingest_decode(&mut tracker, 30 * SECOND, &directed_decode("A", "B"));
    assert_eq!(tracker.start_info("B").expect("heard").last_heard_at, 15 * SECOND);
    assert_eq!(tracker.start_info("A").expect("heard").last_heard_at, 30 * SECOND);
}

#[test]
fn a_sign_off_ends_the_contact_and_records_it() {
    let mut tracker = StationTracker::new();
    ingest_decode(&mut tracker, 15 * SECOND, &directed_decode("B", "A"));
    ingest_decode(&mut tracker, 45 * SECOND, &reply_decode("B", "A", ReplyWord::Rr73));
    let stations = tracker.web_station_summaries();
    assert_eq!(stations.len(), 1);
    assert!(!stations[0].is_in_qso);
    assert_eq!(stations[0].qso_history.len(), 1);
    assert_eq!(stations[0].qso_history[0].peer, "A");
}

#[test]
fn in_one_slot_the_ending_message_comes_last() {
    let mut tracker = StationTracker::new();
    tracker.ingest_frame(
        15 * SECOND,
        &[reply_decode("B", "A", ReplyWord::SeventyThree), directed_decode("B", "A")],
    );
    let stations = tracker.web_station_summaries();
    assert!(!stations[0].is_in_qso);
    assert_eq!(tracker.web_logs().len(), 1);
}

#[test]
fn a_hashed_peer_is_known_once_its_call_was_heard() {
    let mut tracker = StationTracker::new();
    let hashed = |resolved: Option<&str>| {
        decode_of(
            StructuredMessage::Nonstandard {
                hashed_call: HashedCallField12 {
                    raw: 77,
                    resolved_callsign: resolved.map(str::to_string),
                },
                plain_call: PlainCallField { callsign: "PJ4/K1ABC".to_string() },
                hashed_is_second: false,
                reply: ReplyWord::Blank,
                cq: false,
            },
            "<...> PJ4/K1ABC",
            -3,
        )
    };
    ingest_decode(&mut tracker, 15 * SECOND, &hashed(None));
    let unknown = tracker.web_logs();
    assert_ne!(unknown[0].peer.as_deref(), Some("W9XYZ"));
    ingest_decode(&mut tracker, 45 * SECOND, &hashed(Some("W9XYZ")));
    let known = tracker.web_logs();
    assert_eq!(known[0].peer.as_deref(), Some("W9XYZ"));
    assert_eq!(known[1].peer.as_deref(), Some("W9XYZ"));
}

#[test]
fn what_was_heard_more_than_an_hour_ago_is_forgotten() {
    let mut tracker = StationTracker::new();
    ingest_decode(&mut tracker, 15 * SECOND, &cq_decode("OLD"));
    ingest_decode(&mut tracker, 3_600 * SECOND, &cq_decode("NEW"));
    tracker.prune(3_630 * SECOND);
    assert!(tracker.start_info("OLD").is_none());
    assert!(tracker.start_info("NEW").is_some());
    assert_eq!(tracker.web_logs().len(), 1);
}

#[test]
fn calls_to_and_from_us_are_listed() {
    let mut tracker = StationTracker::new();
    ingest_decode(&mut tracker, 15 * SECOND, &directed_decode("K1ABC", "N1VF"));
    ingest_decode(&mut tracker, 30 * SECOND, &directed_decode("K1ABC", "W1XYZ"));
    let calls = tracker.web_direct_calls("N1VF", 0);
    assert_eq!(calls.len(), 1);
    assert_eq!((calls[0].from_call.as_str(), calls[0].to_call.as_str()), ("K1ABC", "N1VF"));
    assert_eq!(calls[0].sort_epoch_ms, 15_000);
    assert!(!calls[0].is_ours);
    assert!(tracker.web_direct_calls("N1VF", 16 * SECOND).is_empty());
}

#[test]
fn messages_of_a_sender_are_counted_by_slot() {
    let mut tracker = StationTracker::new();
    ingest_decode(&mut tracker, 15 * SECOND, &cq_decode("K1ABC"));
    ingest_decode(&mut tracker, 45 * SECOND, &cq_decode("K1ABC"));
    assert_eq!(tracker.sender_decode_count_since(0, "K1ABC"), 2);
    assert_eq!(tracker.sender_decode_count_since(20 * SECOND, "K1ABC"), 1);
}

#[test]
fn answers_follow_the_message() {
    let now = 30 * SECOND;
    let answer = |decode: &DecodedMessage| {
        direct_call_observation_from_decode(decode, "N1VF", now, DecoderMode::Ft8)
            .map(|o| (o.start_state, o.compound_eligible))
    };
    let grid = standard_decode(
        standard_call("N1VF"),
        "K1ABC",
        false,
        grid_info("FN20"),
        "N1VF K1ABC FN20",
        -4,
    );
    assert_eq!(answer(&grid), Some((QsoState::SendSig, true)));
    let report = report_decode("K1ABC", "N1VF", false, -7, "N1VF K1ABC -07");
    assert_eq!(answer(&report), Some((QsoState::SendSigAck, false)));
    let confirmed = report_decode("K1ABC", "N1VF", true, -7, "N1VF K1ABC R-07");
    assert_eq!(answer(&confirmed), Some((QsoState::SendRR73, false)));
    assert_eq!(answer(&reply_decode("K1ABC", "N1VF", ReplyWord::SeventyThree)), None);
    assert_eq!(answer(&directed_decode("K1ABC", "W1XYZ")), None);
    assert_eq!(answer(&cq_decode("K1ABC")), None);
}

#[test]
fn a_direct_call_is_taken_by_a_contact_or_queued() {
    let now = 30 * SECOND;
    let mut queue = new_queue();
    let grids = [
        standard_decode(standard_call("N1VF"), "AA1A", false, grid_info("FN20"), "N1VF AA1A FN20", 1),
        standard_decode(standard_call("N1VF"), "BB1B", false, grid_info("FN31"), "N1VF BB1B FN31", 2),
    ];
    let found = priority_directs(&queue, None, &grids, "N1VF", now, &vec![]);
    assert_eq!(found.len(), 2);
    let offered = reserved_station(&found[0]);
    assert_eq!(offered.callsign, "AA1A");
    assert_eq!(offered.last_text.as_deref(), Some("N1VF AA1A FN20"));
    maybe_track_priority_directs(&mut queue, found, &vec![true, false], now);
    assert_eq!(calls_of(&queue), vec!["BB1B".to_string()]);
}

#[test]
fn a_handoff_that_is_armed_takes_its_station_from_the_queue() {
    let now = 45 * SECOND;
    let tracker = StationTracker::new();
    let mut queue = new_queue();
    queue
        .add_direct_observation(
            observation("NEW1", now, -7, QsoState::SendSig, true, "N1VF NEW1 FN20"),
            now,
        )
        .expect("taken");
    let offer = compound_handoff_offer(&queue, &tracker, Some("OLD1"), now + SECOND)
        .expect("an offer");
    assert_eq!(offer.callsign, "NEW1");
    assert!(compound_handoff_offer(&queue, &tracker, Some("NEW1"), now + SECOND).is_none());
    let kept = maybe_arm_compound_handoff_from_queue(
        &mut queue,
        &tracker,
        Some("OLD1"),
        now + SECOND,
        false,
    );
    assert_eq!(kept, None);
    assert_eq!(queue.entries.len(), 1);
    let taken = maybe_arm_compound_handoff_from_queue(
        &mut queue,
        &tracker,
        Some("OLD1"),
        now + SECOND,
        true,
    );
    assert_eq!(taken.as_deref(), Some("NEW1"));
    assert!(queue.entries.is_empty());
}

#[test]
fn the_queue_is_shown_with_its_settings() {
    let now = 30 * SECOND;
    let mut tracker = StationTracker::new();
    ingest_decode(&mut tracker, now, &cq_decode("K1ABC"));
    let mut queue = new_queue();
    queue.add_station("K1ABC", now, now).expect("queued");
    let shown = queue.web_snapshot(&tracker, now + SECOND);
    assert_eq!(shown.entries.len(), 1);
    assert_eq!(shown.entries[0].callsign, "K1ABC");
    assert!(shown.entries[0].ready);
    assert_eq!(shown.entries[0].last_heard_message, "cq");
    assert_eq!(shown.unique_calls_last_5m, 1);
    assert_eq!(shown.no_message_retry_delay_seconds, 35);
    assert_eq!(shown.no_forward_retry_delay_seconds, 300);
    assert_eq!(shown.cq_percent, 80);
    assert_eq!(shown.scheduler_status, "auto disabled");
}

#[test]
fn settings_are_kept_in_range() {
    let mut queue = new_queue();
    queue.set_cq_percent(150);
    assert_eq!(queue.cq_percent, 100);
    queue.set_auto_add_decoded_min_count_5m(0);
    assert_eq!(queue.auto_add_decoded_min_count_5m, 1);
    queue.set_tx_freq_hz(SlotFamily::Odd, 1500.0f32.to_bits());
    assert_eq!(queue.tx_freq_hz_for(SlotFamily::Odd), 1500.0f32.to_bits());
    assert_eq!(queue.tx_freq_hz_for(SlotFamily::Even), 900.0f32.to_bits());
}

#[test]
fn direct_calls_with_priority_are_listed_first() {
    let now = 45 * SECOND;
    let tracker = StationTracker::new();
    let mut queue = new_queue();
    queue.add_station("OLDER", now, now - 10 * SECOND).expect("queued");
    queue
        .add_direct_observation(
            observation("K1ABC", now, -5, QsoState::SendSig, true, "N1VF K1ABC FN20"),
            now,
        )
        .expect("taken");
    let shown = queue.web_snapshot(&tracker, now + SECOND);
    let listed = shown
        .entries
        .iter()
        .map(|entry| (entry.callsign.as_str(), entry.priority_direct))
        .collect::<Vec<_>>();
    assert_eq!(listed, vec![("K1ABC", true), ("OLDER", false)]);
    assert_eq!(calls_of(&queue), vec!["OLDER".to_string(), "K1ABC".to_string()]);
}

#[test]
fn ties_of_direct_calls_go_by_count_then_signal_then_age_then_call() {
    let now = 60 * SECOND;
    let first = |calls: &[(&str, Timestamp, i32, u32)]| {
        let mut queue = new_queue();
        for (call, queued_at, snr_db, count) in calls {
            queue
                .add_direct_observation(
                    observation(call, now, *snr_db, QsoState::SendSig, true, "N1VF X FN20"),
                    *queued_at,
                )
                .expect("taken");
            let last = queue.entries.len() - 1;
            queue.entries[last].direct_count = *count;
        }
        let place = queue.best_priority_direct_index(now + SECOND).expect("one goes first");
        queue.entries[place].callsign.clone()
    };
    assert_eq!(first(&[("A", now, 5, 1), ("B", now, -5, 2)]), "B");
    assert_eq!(first(&[("A", now, -5, 1), ("B", now, 5, 1)]), "B");
    assert_eq!(first(&[("A", now, 5, 1), ("B", now - SECOND, 5, 1)]), "B");
    assert_eq!(first(&[("B", now, 5, 1), ("A", now, 5, 1)]), "A");
}

#[test]
fn a_station_unheard_for_ten_minutes_leaves_the_queue() {
    let mut queue = new_queue();
    queue.add_station("K1ABC", 0, 0).expect("queued");
    queue.prune_queue(600 * SECOND);
    assert_eq!(queue.entries.len(), 1);
    queue.prune_queue(601 * SECOND);
    assert!(queue.entries.is_empty());
}
