use ft8rx::clock::{self, Timestamp};
use ft8rx::decode_log::{option_u128_i128, option_usize_i64, DecodeCycleLogState};
use ft8rx::slots::{
    current_slot_boundary_for_mode, format_slot_time_for_mode, format_status,
    full_decode_sample_count, is_even_slot_family_for_mode, latest_slot_index_for_family,
    next_slot_boundary_for_mode, next_unhandled_decode_stage_ready_at, parse_slot_family_name,
    should_poll_rig_on_main_loop, should_poll_rig_telemetry_during_tx, slot_duration_for_mode,
    slot_family_for_mode, slot_index_for_mode, slot_millis_for_mode, stage_capture_end,
    stage_display_label, stage_sample_count, tx_margin_after_stage_decode_ms, ActiveDecodeJob,
    ClockError, DecodeProfile, DecodeStage, DecoderMode, SlotFamily, SlotStageState, StageSamples,
};

const SECOND: Timestamp = 1_000_000_000;
const MILLI: Timestamp = 1_000_000;
const DECODER_SAMPLE_RATE_HZ: u32 = 12_000;

const FT8: StageSamples = StageSamples { early41: 141_696, early47: 162_432, full: 172_800 };
const FT4: StageSamples = StageSamples { early41: 72_576, early47: 72_576, full: 72_576 };

#[test]
fn full_decode_sample_window_matches_decoder_mode_spec() {
    assert_eq!(full_decode_sample_count(DECODER_SAMPLE_RATE_HZ, FT8), 172_800);
    assert_eq!(full_decode_sample_count(DECODER_SAMPLE_RATE_HZ, FT4), 72_576);
    assert_eq!(stage_capture_end(FT4, 0, DecodeStage::Full), Ok(72_576 * SECOND / 12_000));
}

#[test]
fn tx_telemetry_polling_is_allowed_during_tx_without_active_decode() {
    let now = 10 * SECOND;
    assert!(should_poll_rig_telemetry_during_tx(now, 0, None, true));
    assert!(!should_poll_rig_telemetry_during_tx(now, now - 100 * MILLI, None, true));
    assert!(!should_poll_rig_telemetry_during_tx(
        now,
        0,
        Some(ActiveDecodeJob { slot_start: now, stage: DecodeStage::Full }),
        true
    ));
    assert!(!should_poll_rig_telemetry_during_tx(now, 0, None, false));
}

#[test]
fn ft8_live_scheduler_uses_medium_early47_residual_prep_before_full() {
    let slot_start = 30 * SECOND;
    let early41_ready =
        stage_capture_end(FT8, slot_start, DecodeStage::Early41).expect("early41 ready");
    let early47_ready =
        stage_capture_end(FT8, slot_start, DecodeStage::Early47).expect("early47 ready");
    let full_ready = stage_capture_end(FT8, slot_start, DecodeStage::Full).expect("full ready");
    assert_eq!((full_ready - slot_start) / MILLI, 14_400);
    assert_eq!(FT8.full, 172_800);

    let mut stages = SlotStageState::new();
    assert_eq!(
        stages.next_due_stage(
            DecoderMode::Ft8,
            DecodeProfile::Medium,
            FT8,
            slot_start,
            Some(early41_ready)
        ),
        Some(DecodeStage::Early41)
    );
    stages.mark_handled(DecodeStage::Early41);
    assert_eq!(
        stages.next_due_stage(
            DecoderMode::Ft8,
            DecodeProfile::Medium,
            FT8,
            slot_start,
            Some(early47_ready)
        ),
        Some(DecodeStage::Early47)
    );
    stages.mark_handled(DecodeStage::Early47);
    assert_eq!(
        stages.next_due_stage(
            DecoderMode::Ft8,
            DecodeProfile::Medium,
            FT8,
            slot_start,
            Some(full_ready)
        ),
        Some(DecodeStage::Full)
    );
}

#[test]
fn ft8_deepest_live_scheduler_uses_early47_residual_prep_before_full() {
    let slot_start = 30 * SECOND;
    let early41_ready =
        stage_capture_end(FT8, slot_start, DecodeStage::Early41).expect("early41 ready");
    let early47_ready =
        stage_capture_end(FT8, slot_start, DecodeStage::Early47).expect("early47 ready");
    let full_ready = stage_capture_end(FT8, slot_start, DecodeStage::Full).expect("full ready");

    let mut stages = SlotStageState::new();
    assert_eq!(
        stages.next_due_stage(
            DecoderMode::Ft8,
            DecodeProfile::Deepest,
            FT8,
            slot_start,
            Some(early41_ready)
        ),
        Some(DecodeStage::Early41)
    );
    stages.mark_handled(DecodeStage::Early41);
    assert_eq!(
        stages.next_due_stage(
            DecoderMode::Ft8,
            DecodeProfile::Deepest,
            FT8,
            slot_start,
            Some(early47_ready)
        ),
        Some(DecodeStage::Early47)
    );
    stages.mark_handled(DecodeStage::Early47);
    assert_eq!(
        stages.next_due_stage(
            DecoderMode::Ft8,
            DecodeProfile::Deepest,
            FT8,
            slot_start,
            Some(full_ready)
        ),
        Some(DecodeStage::Full)
    );
}

#[test]
fn ft8_live_scheduler_skips_early_stages_for_quick_profile() {
    let slot_start = 30 * SECOND;
    let early41_ready =
        stage_capture_end(FT8, slot_start, DecodeStage::Early41).expect("early41 ready");
    let early47_ready =
        stage_capture_end(FT8, slot_start, DecodeStage::Early47).expect("early47 ready");
    let full_ready = stage_capture_end(FT8, slot_start, DecodeStage::Full).expect("full ready");

    assert_eq!(
        SlotStageState::new().next_due_stage(
            DecoderMode::Ft8,
            DecodeProfile::Quick,
            FT8,
            slot_start,
            Some(early41_ready)
        ),
        None
    );
    assert_eq!(
        SlotStageState::new().next_due_stage(
            DecoderMode::Ft8,
            DecodeProfile::Quick,
            FT8,
            slot_start,
            Some(early47_ready)
        ),
        None
    );
    assert_eq!(
        SlotStageState::new().next_due_stage(
            DecoderMode::Ft8,
            DecodeProfile::Quick,
            FT8,
            slot_start,
            Some(full_ready)
        ),
        Some(DecodeStage::Full)
    );
}

#[test]
fn full_decode_margin_is_against_next_slot_pre_key_deadline() {
    let slot_start = 30 * SECOND;
    // The transmitter is keyed 350 ms into the slot.
    let tx_start = 45 * SECOND + 350 * MILLI;
    assert_eq!(
        tx_margin_after_stage_decode_ms(
            FT8,
            DecoderMode::Ft8,
            slot_start,
            DecodeStage::Full,
            500,
            tx_start
        )
        .expect("margin"),
        450
    );
}

#[test]
fn ft4_only_schedules_full_decode_stage() {
    let slot_start = 30 * SECOND;
    let before_full_ready = slot_start + SECOND;
    let ft4_full_ready =
        stage_capture_end(FT4, slot_start, DecodeStage::Full).expect("ft4 full ready");

    assert_eq!(
        SlotStageState::new().next_due_stage(
            DecoderMode::Ft4,
            DecodeProfile::Medium,
            FT4,
            slot_start,
            Some(before_full_ready)
        ),
        None
    );
    assert_eq!(
        SlotStageState::new().next_due_stage(
            DecoderMode::Ft4,
            DecodeProfile::Medium,
            FT4,
            slot_start,
            Some(ft4_full_ready)
        ),
        Some(DecodeStage::Full)
    );
}

#[test]
fn ft4_slot_boundaries_preserve_half_second_alignment() {
    let before_half = 7_499 * MILLI;
    let at_half = 7_500 * MILLI;
    let later = 22_900 * MILLI;

    assert_eq!(current_slot_boundary_for_mode(DecoderMode::Ft4, before_half), 0);
    assert_eq!(current_slot_boundary_for_mode(DecoderMode::Ft4, at_half), 7_500 * MILLI);
    assert_eq!(next_slot_boundary_for_mode(DecoderMode::Ft4, at_half), 15_000 * MILLI);
    assert_eq!(current_slot_boundary_for_mode(DecoderMode::Ft4, later), 22_500 * MILLI);
}

#[test]
fn mode_aware_slot_time_formatting_is_stable() {
    assert_eq!(format_slot_time_for_mode(DecoderMode::Ft4, 7_500 * MILLI), "000007.5");
    assert_eq!(format_slot_time_for_mode(DecoderMode::Ft4, 15 * SECOND), "000015.0");
    assert_eq!(format_slot_time_for_mode(DecoderMode::Ft8, 15 * SECOND), "000015");
    assert_eq!(clock::format_slot_time(15 * SECOND), "000015");
}

#[test]
fn full_decode_is_labeled_full_for_all_modes() {
    assert_eq!(stage_display_label(DecoderMode::Ft8, DecodeStage::Full), "full");
    assert_eq!(stage_display_label(DecoderMode::Ft4, DecodeStage::Full), "full");
}

#[test]
fn early_stages_are_labeled_early_and_mid() {
    assert_eq!(stage_display_label(DecoderMode::Ft8, DecodeStage::Early41), "early");
    assert_eq!(stage_display_label(DecoderMode::Ft8, DecodeStage::Early47), "mid");
}

#[test]
fn slots_last_fifteen_seconds_or_half_of_that() {
    assert_eq!(slot_millis_for_mode(DecoderMode::Ft8), 15_000);
    assert_eq!(slot_millis_for_mode(DecoderMode::Ft4), 7_500);
    assert_eq!(slot_duration_for_mode(DecoderMode::Ft4), 7_500_000_000);
}

#[test]
fn slots_count_from_the_epoch_and_alternate() {
    assert_eq!(slot_index_for_mode(DecoderMode::Ft8, 44 * SECOND), 2);
    assert_eq!(slot_index_for_mode(DecoderMode::Ft8, 45 * SECOND), 3);
    assert_eq!(slot_family_for_mode(DecoderMode::Ft8, 44 * SECOND), SlotFamily::Even);
    assert_eq!(slot_family_for_mode(DecoderMode::Ft8, 45 * SECOND), SlotFamily::Odd);
    assert!(is_even_slot_family_for_mode(DecoderMode::Ft4, 15 * SECOND));
    assert!(!is_even_slot_family_for_mode(DecoderMode::Ft4, 7_500 * MILLI));
    assert_eq!(SlotFamily::Even.opposite(), SlotFamily::Odd);
    assert_eq!(SlotFamily::Odd.opposite().opposite(), SlotFamily::Odd);
}

#[test]
fn a_slot_holds_the_times_up_to_the_next_boundary() {
    let now = 52 * SECOND + 300 * MILLI;
    let start = current_slot_boundary_for_mode(DecoderMode::Ft8, now);
    let next = next_slot_boundary_for_mode(DecoderMode::Ft8, now);
    assert_eq!((start, next), (45 * SECOND, 60 * SECOND));
    assert_eq!(
        slot_index_for_mode(DecoderMode::Ft8, start),
        slot_index_for_mode(DecoderMode::Ft8, now)
    );
    assert_eq!(
        slot_index_for_mode(DecoderMode::Ft8, next),
        slot_index_for_mode(DecoderMode::Ft8, now) + 1
    );
    assert_eq!(
        slot_family_for_mode(DecoderMode::Ft8, next),
        slot_family_for_mode(DecoderMode::Ft8, now).opposite()
    );
}

#[test]
fn latest_slot_of_a_family_is_the_current_or_the_one_before() {
    let now = 50 * SECOND;
    assert_eq!(latest_slot_index_for_family(DecoderMode::Ft8, now, SlotFamily::Odd), 3);
    assert_eq!(latest_slot_index_for_family(DecoderMode::Ft8, now, SlotFamily::Even), 2);
}

#[test]
fn slot_families_are_read_without_regard_to_case() {
    assert_eq!(parse_slot_family_name("even"), Some(SlotFamily::Even));
    assert_eq!(parse_slot_family_name(" ODD "), Some(SlotFamily::Odd));
    assert_eq!(parse_slot_family_name("both"), None);
    for family in [SlotFamily::Even, SlotFamily::Odd] {
        assert_eq!(parse_slot_family_name(family.as_str()), Some(family));
    }
}

#[test]
fn stages_scale_with_the_sample_rate() {
    assert_eq!(stage_sample_count(48_000, FT8, DecodeStage::Full), 691_200);
    assert_eq!(stage_sample_count(12_000, FT8, DecodeStage::Early41), 141_696);
    assert_eq!(stage_sample_count(11_025, FT4, DecodeStage::Full), 66_679);
    assert_eq!(stage_sample_count(11_025, FT8, DecodeStage::Early41), 130_183);
}

#[test]
fn the_margin_is_an_error_where_the_key_time_has_passed() {
    assert_eq!(
        tx_margin_after_stage_decode_ms(FT8, DecoderMode::Ft8, 0, DecodeStage::Full, 10, 0),
        Err(ClockError)
    );
}

#[test]
fn a_late_decode_has_a_negative_margin() {
    assert_eq!(
        tx_margin_after_stage_decode_ms(
            FT8,
            DecoderMode::Ft8,
            0,
            DecodeStage::Full,
            2_000,
            15_350 * MILLI
        ),
        Ok(-1_050)
    );
}

#[test]
fn the_next_open_stage_is_waited_for() {
    let mut stages = SlotStageState::new();
    assert_eq!(
        next_unhandled_decode_stage_ready_at(
            FT8,
            DecoderMode::Ft8,
            DecodeProfile::Medium,
            0,
            stages
        ),
        Some(11_808 * MILLI)
    );
    stages.mark_handled(DecodeStage::Early41);
    stages.mark_handled(DecodeStage::Early47);
    stages.mark_handled(DecodeStage::Full);
    assert_eq!(
        next_unhandled_decode_stage_ready_at(
            FT8,
            DecoderMode::Ft8,
            DecodeProfile::Medium,
            0,
            stages
        ),
        None
    );
}

#[test]
fn the_rig_is_left_alone_while_something_goes_on() {
    let now = 100 * SECOND;
    let free = |active: Option<ActiveDecodeJob>, qso: bool, tx: bool, busy: bool| {
        should_poll_rig_on_main_loop(
            now,
            0,
            90 * SECOND,
            SlotStageState::new(),
            FT8,
            DecoderMode::Ft8,
            DecodeProfile::Medium,
            active,
            qso,
            tx,
            busy,
        )
    };
    let job = ActiveDecodeJob { slot_start: 90 * SECOND, stage: DecodeStage::Early41 };
    assert!(!free(Some(job), false, false, false));
    assert!(!free(None, true, false, false));
    assert!(!free(None, false, true, false));
    assert!(!free(None, false, false, true));
}

#[test]
fn the_status_names_the_stage_and_the_next_slot() {
    let busy = format_status(
        Some(ActiveDecodeJob { slot_start: 30 * SECOND, stage: DecodeStage::Full }),
        45 * SECOND,
        2,
        true,
        DecoderMode::Ft8,
    );
    assert_eq!(busy, "capture=active decode=full slot=000030 drops=2 next=000045");
    let idle = format_status(None, 45 * SECOND, 0, false, DecoderMode::Ft8);
    assert_eq!(idle, "capture=idle decode=idle drops=0 next=000045");
}

#[test]
fn stages_come_due_in_order_and_once() {
    let mut stages = SlotStageState::new();
    let late = Some(20 * SECOND);
    let mut seen = vec![];
    while let Some(stage) =
        stages.next_due_stage(DecoderMode::Ft8, DecodeProfile::Medium, FT8, 0, late)
    {
        assert!(!stages.is_handled(stage));
        stages.mark_handled(stage);
        seen.push(stage);
    }
    assert_eq!(seen, vec![DecodeStage::Early41, DecodeStage::Early47, DecodeStage::Full]);
}

#[test]
fn missing_counts_are_logged_as_minus_one() {
    assert_eq!(option_u128_i128(None), -1);
    assert_eq!(option_u128_i128(Some(7)), 7);
    assert_eq!(option_u128_i128(Some(u128::MAX - 1)), -2);
    assert_eq!(option_usize_i64(None), -1);
    assert_eq!(option_usize_i64(Some(3)), 3);
}

#[test]
fn the_decode_cycle_line_tells_of_each_stage() {
    let mut log = DecodeCycleLogState::new();
    log.begin(30 * SECOND, DecoderMode::Ft8);
    log.record_ok(DecodeStage::Early41, 500, 20, 480, 9);
    log.record_dropped(DecodeStage::Early47, "decode_worker_busy");
    let line = log.emit(30 * SECOND, DecoderMode::Ft8, DecodeProfile::Medium, Some(-40));
    assert_eq!(line.slot, "000030");
    assert_eq!((line.mode, line.decode_profile), ("ft8", "medium"));
    assert_eq!(line.status, "dropped");
    assert_eq!(line.early41.wall_ms, 500);
    assert_eq!(line.early41.decode_count, 9);
    assert_eq!(line.early47.wall_ms, -1);
    assert_eq!(line.full.decode_count, -1);
    assert_eq!(line.tx_margin_ms, -40);
    assert_eq!((line.error_stage, line.error_message.as_str()), ("early47", "decode_worker_busy"));
    log.record_decode_failed(DecodeStage::Full, 900, 1, 2, "boom".to_string());
    let line = log.emit(30 * SECOND, DecoderMode::Ft8, DecodeProfile::Quick, None);
    assert_eq!(line.status, "decode_failed");
    assert_eq!(line.tx_margin_ms, -1);
    log.record_capture_failed(DecodeStage::Full, "gap".to_string());
    let line = log.emit(30 * SECOND, DecoderMode::Ft8, DecodeProfile::Quick, None);
    assert_eq!((line.status, line.error_message.as_str()), ("capture_failed", "gap"));
    log.reset();
    let line = log.emit(45 * SECOND, DecoderMode::Ft4, DecodeProfile::Deepest, None);
    assert_eq!(line.status, "ok");
    assert_eq!(line.slot, "000045.0");
}
