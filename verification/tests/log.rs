use ft8rx::adif::{
    build_adif_export_report, collect_adif_records, format_adif_freq_mhz, normalize_adif_band,
    normalize_adif_mode, render_adif, AdifExportReport, AdifRecord, IneligibleQso,
};
use ft8rx::adif_status::{adif_export_status, parse_cty_lookups, CtyLookup};
use ft8rx::clock::{
    format_adif_date, format_adif_time, format_datetime, format_relative_age, format_time,
    format_utc_clock, parse_rfc3339, system_time_to_epoch_ms, Timestamp,
};
use ft8rx::exchange::{
    classify_exchange_info, extract_exchange_info, extract_station_call_from_rx_text,
    extract_station_call_from_tx_text, extract_tx_exchange_info, is_gridsquare,
    normalize_call_token, normalize_signal_report, parse_direct_message_calls, push_unique_info,
    ExchangeInfo,
};
use ft8rx::history::{scan_qso_jsonl, FileStamp, QsoJsonlCache, QsoJsonlRefresh};
use ft8rx::log_record::{read_record, read_records};
use ft8rx::sessions::{collect_sessions, terminal_state};

const SECOND: Timestamp = 1_000_000_000;

#[test]
fn qso_jsonl_scan_does_not_merge_reused_session_ids() {
    let contents = r#"{"timestamp":"2026-04-03T02:26:37Z","level":"INFO","fields":{"message":"qso_fsm","event":"start","session_id":2,"partner_call":"W0ONN","state_before":"idle","state_after":"send_grid","last_rx_event":"start","rx_text":"","tx_text":""}}
{"timestamp":"2026-04-03T02:30:00Z","level":"INFO","fields":{"message":"qso_fsm","event":"exit","session_id":2,"partner_call":"W0ONN","state_before":"send_grid","state_after":"idle","last_rx_event":"send_grid_no_msg_limit","rx_text":"","tx_text":""}}
{"timestamp":"2026-04-04T01:24:12Z","level":"INFO","fields":{"message":"qso_fsm","event":"start","session_id":2,"partner_call":"K4SYT","state_before":"idle","state_after":"send_grid","last_rx_event":"start","rx_text":"","tx_text":""}}
{"timestamp":"2026-04-04T01:26:14Z","level":"INFO","fields":{"message":"qso_fsm","event":"tx_launch","session_id":2,"partner_call":"K4SYT","state_before":"send_73","state_after":"send_73","last_rx_event":"to_us_reply_rr73","rx_text":"","tx_text":"K4SYT N1VF 73"}}
{"timestamp":"2026-04-04T01:27:15Z","level":"INFO","fields":{"message":"qso_fsm","event":"exit","session_id":2,"partner_call":"K4SYT","state_before":"send_73","state_after":"idle","last_rx_event":"send_73_no_msg_limit","rx_text":"","tx_text":""}}"#;
    let now = 10 * 365 * 24 * 60 * 60 * SECOND;
    let scan = scan_qso_jsonl(contents, now, 0);
    assert_eq!(scan.history.len(), 2);
    assert_eq!(scan.history[0].callsign, "K4SYT");
    assert_eq!(scan.history[1].callsign, "W0ONN");
    assert!(scan.history[0].reached_73);
    assert!(!scan.history[1].reached_73);
}

#[test]
fn qso_jsonl_scan_uses_start_context_rx_text_for_received_info() {
    let contents = r#"{"timestamp":"2026-04-04T04:54:34Z","level":"INFO","fields":{"message":"qso_fsm","event":"start","session_id":7,"partner_call":"KJ7JJ","state_before":"idle","state_after":"send_grid","last_rx_event":"start_context","rx_text":"CQ KJ7JJ DN17","tx_text":""}}
{"timestamp":"2026-04-04T04:54:58Z","level":"INFO","fields":{"message":"qso_fsm","event":"exit","session_id":7,"partner_call":"KJ7JJ","state_before":"send_grid","state_after":"idle","last_rx_event":"tx_error","rx_text":"","tx_text":""}}"#;
    let now = 10 * 365 * 24 * 60 * 60 * SECOND;
    let scan = scan_qso_jsonl(contents, now, 0);
    assert_eq!(scan.history.len(), 1);
    assert_eq!(scan.history[0].callsign, "KJ7JJ");
    assert_eq!(scan.history[0].received_info, "DN17");
}

#[test]
fn qso_jsonl_scan_attributes_compound_report_only_to_follow_on_qso() {
    let contents = r#"{"timestamp":"2026-04-04T05:00:00Z","level":"INFO","fields":{"message":"qso_fsm","event":"start","session_id":10,"partner_call":"OLD1","state_before":"idle","state_after":"send_sig","last_rx_event":"start","rx_text":"","tx_text":""}}
{"timestamp":"2026-04-04T05:00:15Z","level":"INFO","fields":{"message":"qso_fsm","event":"tx_launch","session_id":10,"partner_call":"OLD1","state_before":"send_rr73","state_after":"send_rr73","last_rx_event":"to_us_ack","rx_text":"","tx_text":"OLD1 RR73; NEW1 <N1VF> -07","compound_finished_call":"OLD1","compound_next_call":"NEW1"}}
{"timestamp":"2026-04-04T05:00:30Z","level":"INFO","fields":{"message":"qso_fsm","event":"exit","session_id":10,"partner_call":"OLD1","state_before":"send_rr73","state_after":"idle","last_rx_event":"compound_handoff_sent","rx_text":"","tx_text":"","compound_finished_call":"OLD1","compound_next_call":"NEW1"}}
{"timestamp":"2026-04-04T05:00:30Z","level":"INFO","fields":{"message":"qso_fsm","event":"start","session_id":11,"partner_call":"NEW1","state_before":"idle","state_after":"send_sig","last_rx_event":"start_context","rx_text":"N1VF NEW1 FN20","tx_text":""}}
{"timestamp":"2026-04-04T05:00:30Z","level":"INFO","fields":{"message":"qso_fsm","event":"compound_start","session_id":11,"partner_call":"NEW1","state_before":"idle","state_after":"send_sig","last_rx_event":"start_context","rx_text":"","tx_text":"OLD1 RR73; NEW1 <N1VF> -07","compound_finished_call":"OLD1","compound_next_call":"NEW1"}}"#;
    let now = 10 * 365 * 24 * 60 * 60 * SECOND;
    let scan = scan_qso_jsonl(contents, now, 0);
    assert_eq!(scan.history.len(), 2);
    let old = scan
        .history
        .iter()
        .find(|entry| entry.callsign == "OLD1")
        .expect("old qso");
    let new = scan
        .history
        .iter()
        .find(|entry| entry.callsign == "NEW1")
        .expect("new qso");
    assert_eq!(new.sent_info, "-07");
    assert_eq!(old.sent_info, "-");
    assert!(old.reached_73);
}

#[test]
fn qso_jsonl_scan_tracks_roger_responses_separately_from_any_reply() {
    let contents = r#"{"timestamp":"2026-04-04T05:00:00Z","level":"INFO","fields":{"message":"qso_fsm","event":"start","session_id":12,"partner_call":"K1ABC","state_before":"idle","state_after":"send_grid","last_rx_event":"start","rx_text":"","tx_text":""}}
{"timestamp":"2026-04-04T05:00:15Z","level":"INFO","fields":{"message":"qso_fsm","event":"rx_slot_early41","session_id":12,"partner_call":"K1ABC","state_before":"send_grid","state_after":"send_grid","last_rx_event":"to_us_report_like","rx_text":"N1VF K1ABC -08","tx_text":""}}
{"timestamp":"2026-04-04T05:00:30Z","level":"INFO","fields":{"message":"qso_fsm","event":"rx_slot_early41","session_id":12,"partner_call":"K1ABC","state_before":"send_sig_ack","state_after":"send_sig_ack","last_rx_event":"to_us_ack","rx_text":"N1VF K1ABC R-07","tx_text":""}}
{"timestamp":"2026-04-04T05:00:45Z","level":"INFO","fields":{"message":"qso_fsm","event":"exit","session_id":12,"partner_call":"K1ABC","state_before":"send_sig_ack","state_after":"idle","last_rx_event":"stopped","rx_text":"","tx_text":""}}"#;
    let now = 10 * 365 * 24 * 60 * 60 * SECOND;
    let scan = scan_qso_jsonl(contents, now, 0);
    assert_eq!(scan.history.len(), 1);
    assert!(scan.history[0].got_reply);
    assert!(scan.history[0].got_roger);
}

#[test]
fn qso_jsonl_scan_surfaces_logged_app_mode() {
    let contents = r#"{"timestamp":"2026-04-04T05:00:00Z","level":"INFO","fields":{"message":"qso_fsm","event":"start","session_id":13,"partner_call":"K1ABC","state_before":"idle","state_after":"send_grid","last_rx_event":"start","app_mode":"ft4","rx_text":"","tx_text":""}}
{"timestamp":"2026-04-04T05:00:15Z","level":"INFO","fields":{"message":"qso_fsm","event":"exit","session_id":13,"partner_call":"K1ABC","state_before":"send_grid","state_after":"idle","last_rx_event":"stopped","app_mode":"ft4","rx_text":"","tx_text":""}}"#;
    let now = 10 * 365 * 24 * 60 * 60 * SECOND;
    let scan = scan_qso_jsonl(contents, now, 0);
    assert_eq!(scan.history.len(), 1);
    assert_eq!(scan.history[0].mode, "FT4");
}

#[test]
fn collect_adif_records_exports_only_award_valid_qsos() {
    let contents = r#"{"timestamp":"2026-04-04T05:00:00Z","level":"INFO","fields":{"message":"qso_fsm","event":"start","session_id":20,"partner_call":"K1ABC","state_before":"idle","state_after":"send_grid","last_rx_event":"start_context","rig_band":"20m","rig_frequency_hz":14074000,"app_mode":"ft8","rx_text":"CQ K1ABC FN20","tx_text":""}}
{"timestamp":"2026-04-04T05:00:15Z","level":"INFO","fields":{"message":"qso_fsm","event":"rx_slot_early41","session_id":20,"partner_call":"K1ABC","state_before":"send_grid","state_after":"send_sig_ack","last_rx_event":"to_us_report_like","rig_band":"20m","rig_frequency_hz":14074000,"app_mode":"ft8","rx_text":"N1VF K1ABC -08","tx_text":""}}
{"timestamp":"2026-04-04T05:00:30Z","level":"INFO","fields":{"message":"qso_fsm","event":"rx_slot_early41","session_id":20,"partner_call":"K1ABC","state_before":"send_sig_ack","state_after":"send_rr73","last_rx_event":"to_us_ack","rig_band":"20m","rig_frequency_hz":14074000,"app_mode":"ft8","rx_text":"N1VF K1ABC R-08","tx_text":""}}
{"timestamp":"2026-04-04T05:00:45Z","level":"INFO","fields":{"message":"qso_fsm","event":"tx_launch","session_id":20,"partner_call":"K1ABC","state_before":"send_sig_ack","state_after":"send_sig_ack","last_rx_event":"to_us_report_like","rig_band":"20m","rig_frequency_hz":14074000,"app_mode":"ft8","rx_text":"","tx_text":"K1ABC N1VF R-07"}}
{"timestamp":"2026-04-04T05:01:00Z","level":"INFO","fields":{"message":"qso_fsm","event":"tx_launch","session_id":20,"partner_call":"K1ABC","state_before":"send_rr73","state_after":"send_rr73","last_rx_event":"to_us_ack","rig_band":"20m","rig_frequency_hz":14074000,"app_mode":"ft8","rx_text":"","tx_text":"K1ABC N1VF RR73"}}
{"timestamp":"2026-04-04T05:01:15Z","level":"INFO","fields":{"message":"qso_fsm","event":"exit","session_id":20,"partner_call":"K1ABC","state_before":"send_rr73","state_after":"idle","last_rx_event":"send_rr73_no_msg_limit","rig_band":"20m","rig_frequency_hz":14074000,"app_mode":"ft8","rx_text":"","tx_text":""}}
{"timestamp":"2026-04-04T05:02:00Z","level":"INFO","fields":{"message":"qso_fsm","event":"start","session_id":21,"partner_call":"W1XYZ","state_before":"idle","state_after":"send_grid","last_rx_event":"start_context","rig_band":"20m","rig_frequency_hz":14074000,"app_mode":"ft8","rx_text":"CQ W1XYZ FN31","tx_text":""}}
{"timestamp":"2026-04-04T05:02:15Z","level":"INFO","fields":{"message":"qso_fsm","event":"rx_slot_early41","session_id":21,"partner_call":"W1XYZ","state_before":"send_grid","state_after":"send_sig_ack","last_rx_event":"to_us_report_like","rig_band":"20m","rig_frequency_hz":14074000,"app_mode":"ft8","rx_text":"N1VF W1XYZ -05","tx_text":""}}
{"timestamp":"2026-04-04T05:02:30Z","level":"INFO","fields":{"message":"qso_fsm","event":"exit","session_id":21,"partner_call":"W1XYZ","state_before":"send_sig_ack","state_after":"idle","last_rx_event":"stopped","rig_band":"20m","rig_frequency_hz":14074000,"app_mode":"ft8","rx_text":"","tx_text":""}}"#;
    let records = collect_adif_records(contents, "N1VF", "CM97");
    assert_eq!(records.len(), 1);
    assert_eq!(records[0].call, "K1ABC");
    assert_eq!(records[0].band, "20M");
    assert_eq!(records[0].freq.as_deref(), Some("14.074000"));
    assert_eq!(records[0].mode, "MFSK");
    assert_eq!(records[0].submode.as_deref(), Some("FT8"));
    assert_eq!(records[0].rst_sent, "-07");
    assert_eq!(records[0].rst_rcvd, "-08");
    assert_eq!(records[0].gridsquare.as_deref(), Some("FN20"));
}

#[test]
fn collect_adif_records_requires_both_signal_reports() {
    let contents = r#"{"timestamp":"2026-04-04T05:00:00Z","level":"INFO","fields":{"message":"qso_fsm","event":"start","session_id":22,"partner_call":"K1ABC","state_before":"idle","state_after":"send_grid","last_rx_event":"start_context","rig_band":"20m","rig_frequency_hz":14074000,"app_mode":"ft8","rx_text":"CQ K1ABC FN20","tx_text":""}}
{"timestamp":"2026-04-04T05:00:15Z","level":"INFO","fields":{"message":"qso_fsm","event":"rx_slot_early41","session_id":22,"partner_call":"K1ABC","state_before":"send_grid","state_after":"send_sig_ack","last_rx_event":"to_us_ack","rig_band":"20m","rig_frequency_hz":14074000,"app_mode":"ft8","rx_text":"N1VF K1ABC R-08","tx_text":""}}
{"timestamp":"2026-04-04T05:00:30Z","level":"INFO","fields":{"message":"qso_fsm","event":"tx_launch","session_id":22,"partner_call":"K1ABC","state_before":"send_rr73","state_after":"send_rr73","last_rx_event":"to_us_ack","rig_band":"20m","rig_frequency_hz":14074000,"app_mode":"ft8","rx_text":"","tx_text":"K1ABC N1VF RR73"}}
{"timestamp":"2026-04-04T05:00:45Z","level":"INFO","fields":{"message":"qso_fsm","event":"exit","session_id":22,"partner_call":"K1ABC","state_before":"send_rr73","state_after":"idle","last_rx_event":"send_rr73_no_msg_limit","rig_band":"20m","rig_frequency_hz":14074000,"app_mode":"ft8","rx_text":"","tx_text":""}}"#;
    let records = collect_adif_records(contents, "N1VF", "CM97");
    assert!(records.is_empty());
}

#[test]
fn build_adif_export_report_lists_ineligible_reasons() {
    let contents = r#"{"timestamp":"2026-04-04T05:00:00Z","level":"INFO","fields":{"message":"qso_fsm","event":"start","session_id":23,"partner_call":"W1XYZ","state_before":"idle","state_after":"send_grid","last_rx_event":"start_context","rig_band":"20m","rig_frequency_hz":14074000,"app_mode":"ft8","rx_text":"CQ W1XYZ FN31","tx_text":""}}
{"timestamp":"2026-04-04T05:00:15Z","level":"INFO","fields":{"message":"qso_fsm","event":"rx_slot_early41","session_id":23,"partner_call":"W1XYZ","state_before":"send_grid","state_after":"send_sig_ack","last_rx_event":"to_us_report_like","rig_band":"20m","rig_frequency_hz":14074000,"app_mode":"ft8","rx_text":"N1VF W1XYZ -05","tx_text":""}}
{"timestamp":"2026-04-04T05:00:30Z","level":"INFO","fields":{"message":"qso_fsm","event":"exit","session_id":23,"partner_call":"W1XYZ","state_before":"send_sig_ack","state_after":"idle","last_rx_event":"stopped","rig_band":"20m","rig_frequency_hz":14074000,"app_mode":"ft8","rx_text":"","tx_text":""}}"#;
    let report = build_adif_export_report(contents, "N1VF", "CM97");
    assert!(report.eligible_records.is_empty());
    assert_eq!(report.ineligible_sessions.len(), 1);
    assert_eq!(report.ineligible_sessions[0].session_id, 23);
    assert_eq!(
        report.ineligible_sessions[0].reason,
        "missing sent report".to_string()
    );
}

#[test]
fn exporter_allows_remote_station_named_like_previous_home_call() {
    let contents = r#"{"timestamp":"2026-04-04T05:00:00Z","level":"INFO","fields":{"message":"qso_fsm","event":"start","session_id":24,"partner_call":"N1VF","state_before":"idle","state_after":"send_grid","last_rx_event":"start_context","rig_band":"20m","rig_frequency_hz":14074000,"app_mode":"ft8","rx_text":"CQ N1VF CM97","tx_text":""}}
{"timestamp":"2026-04-04T05:00:15Z","level":"INFO","fields":{"message":"qso_fsm","event":"rx_slot_early41","session_id":24,"partner_call":"N1VF","state_before":"send_grid","state_after":"send_sig_ack","last_rx_event":"to_us_report_like","rig_band":"20m","rig_frequency_hz":14074000,"app_mode":"ft8","rx_text":"E51RWK N1VF -08","tx_text":""}}
{"timestamp":"2026-04-04T05:00:30Z","level":"INFO","fields":{"message":"qso_fsm","event":"rx_slot_early41","session_id":24,"partner_call":"N1VF","state_before":"send_sig_ack","state_after":"send_rr73","last_rx_event":"to_us_ack","rig_band":"20m","rig_frequency_hz":14074000,"app_mode":"ft8","rx_text":"E51RWK N1VF R-08","tx_text":""}}
{"timestamp":"2026-04-04T05:00:45Z","level":"INFO","fields":{"message":"qso_fsm","event":"tx_launch","session_id":24,"partner_call":"N1VF","state_before":"send_sig_ack","state_after":"send_sig_ack","last_rx_event":"to_us_report_like","rig_band":"20m","rig_frequency_hz":14074000,"app_mode":"ft8","rx_text":"","tx_text":"N1VF E51RWK R-07"}}
{"timestamp":"2026-04-04T05:01:00Z","level":"INFO","fields":{"message":"qso_fsm","event":"tx_launch","session_id":24,"partner_call":"N1VF","state_before":"send_rr73","state_after":"send_rr73","last_rx_event":"to_us_ack","rig_band":"20m","rig_frequency_hz":14074000,"app_mode":"ft8","rx_text":"","tx_text":"N1VF E51RWK RR73"}}
{"timestamp":"2026-04-04T05:01:15Z","level":"INFO","fields":{"message":"qso_fsm","event":"exit","session_id":24,"partner_call":"N1VF","state_before":"send_rr73","state_after":"idle","last_rx_event":"send_rr73_no_msg_limit","rig_band":"20m","rig_frequency_hz":14074000,"app_mode":"ft8","rx_text":"","tx_text":""}}"#;
    let records = collect_adif_records(contents, "E51RWK", "BG08");
    assert_eq!(records.len(), 1);
    assert_eq!(records[0].call, "N1VF");
    assert_eq!(records[0].station_callsign, "E51RWK");
}

#[test]
fn exporter_rejects_sessions_logged_under_different_station_call() {
    let contents = r#"{"timestamp":"2026-04-04T05:00:00Z","level":"INFO","fields":{"message":"qso_fsm","event":"start","session_id":25,"partner_call":"K1ABC","state_before":"idle","state_after":"send_grid","last_rx_event":"start_context","rig_band":"20m","rig_frequency_hz":14074000,"app_mode":"ft8","rx_text":"CQ K1ABC FN20","tx_text":""}}
{"timestamp":"2026-04-04T05:00:15Z","level":"INFO","fields":{"message":"qso_fsm","event":"rx_slot_early41","session_id":25,"partner_call":"K1ABC","state_before":"send_grid","state_after":"send_sig_ack","last_rx_event":"to_us_report_like","rig_band":"20m","rig_frequency_hz":14074000,"app_mode":"ft8","rx_text":"N1VF K1ABC -08","tx_text":""}}
{"timestamp":"2026-04-04T05:00:30Z","level":"INFO","fields":{"message":"qso_fsm","event":"rx_slot_early41","session_id":25,"partner_call":"K1ABC","state_before":"send_sig_ack","state_after":"send_rr73","last_rx_event":"to_us_ack","rig_band":"20m","rig_frequency_hz":14074000,"app_mode":"ft8","rx_text":"N1VF K1ABC R-08","tx_text":""}}
{"timestamp":"2026-04-04T05:00:45Z","level":"INFO","fields":{"message":"qso_fsm","event":"tx_launch","session_id":25,"partner_call":"K1ABC","state_before":"send_sig_ack","state_after":"send_sig_ack","last_rx_event":"to_us_report_like","rig_band":"20m","rig_frequency_hz":14074000,"app_mode":"ft8","rx_text":"","tx_text":"K1ABC N1VF R-07"}}
{"timestamp":"2026-04-04T05:01:00Z","level":"INFO","fields":{"message":"qso_fsm","event":"tx_launch","session_id":25,"partner_call":"K1ABC","state_before":"send_rr73","state_after":"send_rr73","last_rx_event":"to_us_ack","rig_band":"20m","rig_frequency_hz":14074000,"app_mode":"ft8","rx_text":"","tx_text":"K1ABC N1VF RR73"}}
{"timestamp":"2026-04-04T05:01:15Z","level":"INFO","fields":{"message":"qso_fsm","event":"exit","session_id":25,"partner_call":"K1ABC","state_before":"send_rr73","state_after":"idle","last_rx_event":"send_rr73_no_msg_limit","rig_band":"20m","rig_frequency_hz":14074000,"app_mode":"ft8","rx_text":"","tx_text":""}}"#;
    let report = build_adif_export_report(contents, "E51RWK", "BG08");
    assert!(report.eligible_records.is_empty());
    assert_eq!(report.ineligible_sessions.len(), 1);
    assert!(
        report.ineligible_sessions[0]
            .reason
            .contains("different station callsign(s): N1VF")
    );
}

#[test]
fn render_adif_writes_expected_fields() {
    let record = AdifRecord {
        session_id: 1,
        call: "K1ABC".to_string(),
        qso_date: "20260404".to_string(),
        time_on: "050000".to_string(),
        qso_date_off: Some("20260404".to_string()),
        time_off: Some("050115".to_string()),
        band: "20M".to_string(),
        freq: Some("14.074000".to_string()),
        mode: "MFSK".to_string(),
        submode: Some("FT8".to_string()),
        rst_sent: "-07".to_string(),
        rst_rcvd: "-08".to_string(),
        station_callsign: "N1VF".to_string(),
        my_gridsquare: "CM97".to_string(),
        gridsquare: Some("FN20".to_string()),
    };
    let adif = render_adif(&[record]);
    assert!(adif.contains("<ADIF_VER:5>3.1.4<PROGRAMID:5>ft8rx"));
    assert!(adif.contains("<CALL:5>K1ABC"));
    assert!(adif.contains("<MODE:4>MFSK<SUBMODE:3>FT8"));
    assert!(adif.contains("<RST_SENT:3>-07<RST_RCVD:3>-08"));
    assert!(
        adif.contains("<STATION_CALLSIGN:4>N1VF<MY_GRIDSQUARE:4>CM97<GRIDSQUARE:4>FN20<EOR>")
    );
}

#[test]
fn times_are_written_in_utc() {
    let time = 1_775_278_874_500_000_000;
    assert_eq!(format_datetime(time), "2026-04-04 05:01:14");
    assert_eq!(format_time(time), "05:01:14");
    assert_eq!(format_utc_clock(time), "2026-04-04 05:01:14 UTC");
    assert_eq!(format_adif_date(time), "20260404");
    assert_eq!(format_adif_time(time), "050114");
    assert_eq!(system_time_to_epoch_ms(time), 1_775_278_874_500);
    assert_eq!(system_time_to_epoch_ms(-5), 0);
}

#[test]
fn log_times_are_read_with_their_offset() {
    assert_eq!(parse_rfc3339("1970-01-01T00:00:01Z"), Some(SECOND));
    assert_eq!(parse_rfc3339("1970-01-01T01:00:00+01:00"), Some(0));
    assert_eq!(parse_rfc3339("1970-01-01T00:00:00.25Z"), Some(SECOND / 4));
    assert_eq!(parse_rfc3339("yesterday"), None);
}

#[test]
fn ages_are_told_in_fitting_units() {
    let age = |seconds: u128| format_relative_age(seconds * 1_000_000_000);
    assert_eq!(age(0), "1 secs ago");
    assert_eq!(age(89), "89 secs ago");
    assert_eq!(age(90), "2 mins ago");
    assert_eq!(age(149), "2 mins ago");
    assert_eq!(age(150), "3 mins ago");
    assert_eq!(age(90 * 60), "2 hours ago");
    assert_eq!(age(36 * 3600), "2 days ago");
}

#[test]
fn the_exchange_is_the_third_word() {
    assert_eq!(extract_exchange_info("N1VF K1ABC r-07").as_deref(), Some("R-07"));
    assert_eq!(extract_exchange_info("N1VF K1ABC RR73"), None);
    assert_eq!(extract_exchange_info("N1VF K1ABC"), None);
}

#[test]
fn a_compound_report_belongs_to_the_next_contact() {
    let text = "OLD1 RR73; NEW1 <N1VF> -07";
    assert_eq!(
        extract_tx_exchange_info(text, "compound_start", "NEW1", "").as_deref(),
        Some("-07")
    );
    assert_eq!(
        extract_tx_exchange_info(text, "tx_launch", "new1", "NEW1").as_deref(),
        Some("-07")
    );
    assert_eq!(extract_tx_exchange_info(text, "tx_launch", "OLD1", "NEW1"), None);
    assert_eq!(
        extract_tx_exchange_info("K1ABC N1VF -03", "tx_launch", "K1ABC", "").as_deref(),
        Some("-03")
    );
}

#[test]
fn direct_messages_name_both_calls() {
    assert_eq!(
        parse_direct_message_calls("OLD1 RR73; NEW1 <N1VF> -07"),
        Some(("NEW1".to_string(), "N1VF".to_string()))
    );
    assert_eq!(
        parse_direct_message_calls("K1ABC N1VF 73"),
        Some(("K1ABC".to_string(), "N1VF".to_string()))
    );
    assert_eq!(parse_direct_message_calls("K1ABC"), None);
}

#[test]
fn reports_and_grids_are_told_apart() {
    assert_eq!(normalize_signal_report("R-07").as_deref(), Some("-07"));
    assert_eq!(normalize_signal_report("+12").as_deref(), Some("+12"));
    assert_eq!(normalize_signal_report("-7"), None);
    assert!(is_gridsquare("FN20"));
    assert!(!is_gridsquare("F920"));
    assert!(matches!(classify_exchange_info("A B R-07"), Some(ExchangeInfo::Report(r)) if r == "-07"));
    assert!(matches!(classify_exchange_info("CQ K1ABC fn20"), Some(ExchangeInfo::Grid(g)) if g == "FN20"));
    assert!(classify_exchange_info("A B RRR").is_none());
}

#[test]
fn station_calls_are_found_in_what_was_sent_and_heard() {
    assert_eq!(
        extract_station_call_from_tx_text("OLD1 RR73; NEW1 <n1vf> -07").as_deref(),
        Some("N1VF")
    );
    assert_eq!(extract_station_call_from_tx_text("K1ABC N1VF -03").as_deref(), Some("N1VF"));
    assert_eq!(extract_station_call_from_tx_text("CQ N1VF CM97").as_deref(), Some("N1VF"));
    assert_eq!(extract_station_call_from_rx_text("N1VF K1ABC -03").as_deref(), Some("N1VF"));
    assert_eq!(extract_station_call_from_rx_text("CQ K1ABC FN20"), None);
    assert_eq!(normalize_call_token("<>"), None);
}

#[test]
fn a_value_is_noted_once() {
    let mut values = vec!["-07".to_string()];
    push_unique_info(&mut values, "-07".to_string());
    push_unique_info(&mut values, "FN20".to_string());
    assert_eq!(values, vec!["-07".to_string(), "FN20".to_string()]);
}

const CONTACT: &str = r#"{"timestamp":"2026-04-04T05:00:00Z","fields":{"message":"qso_fsm","event":"start","session_id":3,"partner_call":"K1ABC","state_before":"idle","state_after":"send_grid","last_rx_event":"start_context","rig_band":"20m","rig_frequency_hz":14074000,"app_mode":"ft8","rx_text":"CQ K1ABC FN20","tx_text":""}}
not a record
{"timestamp":"2026-04-04T05:00:15Z","fields":{"message":"qso_fsm","event":"rx_slot_early41","session_id":3,"partner_call":"K1ABC","state_before":"send_grid","state_after":"send_sig_ack","last_rx_event":"to_us_report_like","rig_band":"20m","rig_frequency_hz":14074000,"app_mode":"ft8","rx_text":"N1VF K1ABC -08","tx_text":""}}
{"timestamp":"2026-04-04T05:00:45Z","fields":{"message":"qso_fsm","event":"tx_launch","session_id":3,"partner_call":"K1ABC","state_before":"send_sig_ack","state_after":"send_sig_ack","last_rx_event":"to_us_report_like","rig_band":"20m","rig_frequency_hz":14074000,"app_mode":"ft8","rx_text":"","tx_text":"K1ABC N1VF R-07"}}
{"timestamp":"2026-04-04T05:01:00Z","fields":{"message":"qso_fsm","event":"tx_launch","session_id":3,"partner_call":"K1ABC","state_before":"send_rr73","state_after":"send_rr73","last_rx_event":"to_us_ack","rig_band":"20m","rig_frequency_hz":14074000,"app_mode":"ft8","rx_text":"","tx_text":"K1ABC N1VF RR73"}}
{"timestamp":"2026-04-04T05:01:15Z","fields":{"message":"qso_fsm","event":"exit","session_id":3,"partner_call":"K1ABC","state_before":"send_rr73","state_after":"idle","last_rx_event":"done","rig_band":"20m","rig_frequency_hz":14074000,"app_mode":"ft8","rx_text":"","tx_text":""}}"#;

#[test]
fn records_are_read_from_their_lines() {
    let records = read_records(CONTACT);
    assert_eq!(records.len(), 5);
    assert_eq!(records[0].session_id, 3);
    assert_eq!(records[0].partner_call, "K1ABC");
    assert_eq!(records[0].rig_frequency_hz, Some(14_074_000));
    assert_eq!(records[3].tx_text, "K1ABC N1VF RR73");
    assert!(read_record("{}").is_none());
    assert!(read_record("[1, 2]").is_none());
}

#[test]
fn a_contact_is_gathered_from_its_records() {
    let book = collect_sessions(&read_records(CONTACT));
    assert_eq!(book.sessions.len(), 1);
    let contact = &book.sessions[0];
    assert_eq!(contact.sent_report.as_deref(), Some("-07"));
    assert_eq!(contact.received_report.as_deref(), Some("-08"));
    assert_eq!(contact.remote_grid.as_deref(), Some("FN20"));
    assert_eq!(contact.exit_reason.as_deref(), Some("done"));
    assert!(contact.got_reply && contact.reached_73);
    assert!(book.active.is_empty());
    assert!(terminal_state("send_rr73"));
    assert!(!terminal_state("send_grid"));
}

#[test]
fn a_new_start_opens_a_new_contact() {
    let twice = format!("{CONTACT}\n{CONTACT}");
    let book = collect_sessions(&read_records(&twice));
    assert_eq!(book.sessions.len(), 2);
    assert_eq!(book.sessions[0].ended_at, book.sessions[1].ended_at);
}

#[test]
fn the_history_leaves_out_what_is_older_than_a_day() {
    let at = parse_rfc3339("2026-04-04T05:01:15Z").expect("a time");
    let soon = scan_qso_jsonl(CONTACT, at + 60 * SECOND, 0);
    assert_eq!(soon.history.len(), 1);
    assert_eq!(soon.history[0].age, "60 secs ago");
    assert_eq!(soon.history[0].age_seconds, 60);
    assert_eq!(soon.history[0].band, "20m");
    assert_eq!(soon.history[0].exit_reason, "done");
    assert!(soon.recent_worked.get("K1ABC", "20m").is_some());
    let late = scan_qso_jsonl(CONTACT, at + 90_000 * SECOND, 0);
    assert!(late.history.is_empty());
    assert!(late.recent_worked.get("K1ABC", "20m").is_none());
}

#[test]
fn our_calls_are_listed_by_time() {
    let at = parse_rfc3339("2026-04-04T05:01:15Z").expect("a time");
    let scan = scan_qso_jsonl(CONTACT, at, 0);
    assert_eq!(scan.direct_calls.len(), 2);
    assert!(scan.direct_calls[0].sort_epoch_ms < scan.direct_calls[1].sort_epoch_ms);
    assert!(scan.direct_calls.iter().all(|call| call.is_ours && call.to_call == "K1ABC"));
    assert!(scan_qso_jsonl(CONTACT, at, at).direct_calls.is_empty());
}

#[test]
fn the_log_is_read_again_only_when_it_has_changed() {
    let mut cache = QsoJsonlCache::new(0);
    assert!(cache.refresh_due(0));
    let stamp = FileStamp { modified: Some(5), len: CONTACT.len() as u64 };
    assert!(cache.note_file(10, Some(stamp)));
    let at = parse_rfc3339("2026-04-04T05:01:15Z").expect("a time");
    cache.take_contents(CONTACT, at, stamp);
    assert_eq!(cache.scan.history.len(), 1);
    assert!(!cache.note_file(at, Some(stamp)));
    cache.apply_refresh(QsoJsonlRefresh {
        scanned_at: at,
        stamp: FileStamp { modified: None, len: 0 },
        scan: scan_qso_jsonl("", at, 0),
    });
    assert!(cache.scan.history.is_empty());
}

#[test]
fn bands_modes_and_frequencies_follow_adif() {
    assert_eq!(normalize_adif_band(" 20m ").as_deref(), Some("20M"));
    assert_eq!(normalize_adif_band("  "), None);
    assert_eq!(normalize_adif_mode("ft4"), Some(("MFSK", Some("FT4"))));
    assert_eq!(normalize_adif_mode("js8"), None);
    assert_eq!(format_adif_freq_mhz(14_074_000), "14.074000");
    assert_eq!(format_adif_freq_mhz(999), "0.000999");
}

#[test]
fn every_contact_is_exported_or_explained() {
    let report = build_adif_export_report(CONTACT, "N1VF", "CM97");
    assert_eq!(report.eligible_records.len(), 1);
    assert!(report.ineligible_sessions.is_empty());
    let unsigned = CONTACT.replace("RR73\"", "-07\"").replace("send_rr73", "send_sig");
    let report = build_adif_export_report(&unsigned, "N1VF", "CM97");
    assert!(report.eligible_records.is_empty());
    assert_eq!(report.ineligible_sessions.len(), 1);
    assert_eq!(report.ineligible_sessions[0].call, "K1ABC");
}

#[test]
fn exported_records_are_sorted() {
    let mut log = String::new();
    for day in ["06", "04", "05"] {
        log.push_str(&CONTACT.replace("2026-04-04", &format!("2026-04-{day}")));
        log.push('\n');
    }
    let report = build_adif_export_report(&log, "N1VF", "CM97");
    let dates = report.eligible_records.iter().map(|r| r.qso_date.clone()).collect::<Vec<_>>();
    assert_eq!(
        dates,
        vec!["20260404".to_string(), "20260405".to_string(), "20260406".to_string()]
    );
}

fn bare_record(call: &str, grid: Option<&str>) -> AdifRecord {
    AdifRecord {
        session_id: 1,
        call: call.to_string(),
        qso_date: "20260404".to_string(),
        time_on: "050000".to_string(),
        qso_date_off: None,
        time_off: None,
        band: "20M".to_string(),
        freq: None,
        mode: "MFSK".to_string(),
        submode: None,
        rst_sent: "-07".to_string(),
        rst_rcvd: "-08".to_string(),
        station_callsign: "N1VF".to_string(),
        my_gridsquare: "CM97".to_string(),
        gridsquare: grid.map(str::to_string),
    }
}

fn refused(session_id: u64, call: &str, reason: &str) -> IneligibleQso {
    IneligibleQso {
        session_id,
        call: call.to_string(),
        started_at: Some(0),
        ended_at: None,
        reason: reason.to_string(),
    }
}

#[test]
fn the_status_of_an_export_counts_grids_and_countries() {
    let report = AdifExportReport {
        eligible_records: vec![bare_record("K1ABC", Some("FN20")), bare_record("W1XYZ", Some("FN20"))],
        ineligible_sessions: vec![
            refused(7, "JA1IST", "missing sent report"),
            refused(8, "JA2IST", "missing rig band"),
            refused(9, "JA3IST", "missing sent report"),
        ],
    };
    let lookups = vec![
        CtyLookup { call: "K1ABC".to_string(), country: "USA".to_string(), dxcc_adif: 291 },
        CtyLookup { call: "W1XYZ".to_string(), country: "USA".to_string(), dxcc_adif: 291 },
    ];
    assert_eq!(
        adif_export_status(&report, &Ok(lookups)),
        vec![
            "ADIF export status: 2 eligible, 3 ineligible".to_string(),
            "Ineligible summary:".to_string(),
            "    1  missing rig band".to_string(),
            "    2  missing sent report".to_string(),
            "Ineligible QSOs:".to_string(),
            "  1970-01-01 00:00:00  #7  JA1IST  missing sent report".to_string(),
            "  1970-01-01 00:00:00  #8  JA2IST  missing rig band".to_string(),
            "  1970-01-01 00:00:00  #9  JA3IST  missing sent report".to_string(),
            "Eligible summary: 1 unique grids, 1 unique countries, 1 unique DXCC entities"
                .to_string(),
        ]
    );
    let unknown = adif_export_status(&report, &Err("no table".to_string()));
    assert_eq!(
        unknown.last().map(String::as_str),
        Some("Eligible summary: 1 unique grids; country/DXCC summary unavailable (no table)")
    );
}

#[test]
fn country_lookups_are_read_from_their_table() {
    let found = parse_cty_lookups(
        r#"{"K1ABC": {"country": "USA", "dxcc_adif": 291}, "JA1IST": {"country": "Japan", "dxcc_adif": 339}}"#,
    )
    .expect("a table");
    let mut rows = found
        .iter()
        .map(|row| (row.call.clone(), row.country.clone(), row.dxcc_adif))
        .collect::<Vec<_>>();
    rows.sort();
    assert_eq!(
        rows,
        vec![
            ("JA1IST".to_string(), "Japan".to_string(), 339),
            ("K1ABC".to_string(), "USA".to_string(), 291),
        ]
    );
    assert!(parse_cty_lookups("not json").is_none());
}
