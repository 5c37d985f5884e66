use ft8rx::adif::adif_record_from_session;
use ft8rx::api::{
    api_qso_stop, api_queue_add, api_queue_auto, api_queue_auto_add_decoded_min_count_5m,
    api_queue_clear, api_queue_cq_min_unique_calls_5m, api_queue_cq_percent, api_queue_remove,
    api_queue_retry_delay, api_queue_tx_freq, api_rig_config, api_rig_tune,
    parse_supported_app_mode, ApiCode, PowerRequest, RigView,
};
use ft8rx::control::{QsoControlPlane, QueueCommand, QueueControlPlane, RigCommand, RigControlPlane};
use ft8rx::qso::{retry_kind_of, QsoCommand, QueueRetryDelayKind};
use ft8rx::rig::{
    apply_rig_telemetry, calling_frequency_hz, configured_input_device_override,
    configured_output_device_override, configured_power_request, rig_power_web_fields, AppConfig,
    Band, RigConfig, RigKind, RigPowerRequest, RigPowerState, RigSnapshot, RigTelemetry, TxConfig,
    WebRigPowerSetting,
};
use ft8rx::rig_steps::{rig_setup_steps, setup_mismatch, SetupStep, TuneAction, TuneRun};
use ft8rx::sessions::SessionSummary;
use ft8rx::slots::DecoderMode;

fn sample_app_config() -> AppConfig {
    AppConfig {
        rig: None,
        tx: TxConfig { output_device: None, power_w: Some(20.0f32.to_bits()) },
    }
}

#[test]
fn configured_power_request_uses_continuous_k3s_power() {
    let config = sample_app_config();
    assert!(matches!(
        configured_power_request(&config, RigKind::K3s),
        Some(RigPowerRequest::ContinuousWatts(watts)) if watts == 20.0f32.to_bits()
    ));
}

#[test]
fn configured_power_request_uses_discrete_mchf_setting() {
    let mut config = sample_app_config();
    config.rig = Some(RigConfig {
        input_device: None,
        output_device: None,
        power_setting: Some("2w".to_string()),
        power_w: None,
    });
    assert!(matches!(
        configured_power_request(&config, RigKind::Mchf),
        Some(RigPowerRequest::SettingId(id)) if id == "2w"
    ));
}

#[test]
fn calling_frequency_uses_mode_specific_qrgs() {
    assert_eq!(calling_frequency_hz(Band::M20, DecoderMode::Ft8), 14_074_000);
    assert_eq!(calling_frequency_hz(Band::M20, DecoderMode::Ft4), 14_080_000);
    assert_eq!(
        calling_frequency_hz(Band::M60, DecoderMode::Ft4),
        calling_frequency_hz(Band::M60, DecoderMode::Ft8)
    );
}

#[test]
fn parse_supported_app_mode_rejects_ft2() {
    assert_eq!(parse_supported_app_mode("ft8"), Ok(DecoderMode::Ft8));
    assert_eq!(parse_supported_app_mode("ft4"), Ok(DecoderMode::Ft4));
    assert_eq!(
        parse_supported_app_mode("ft2"),
        Err("FT2 is not supported in ft8rx; use FT8 or FT4".to_string())
    );
}

#[test]
fn devices_come_from_the_rig_before_the_transmitter() {
    let mut config = sample_app_config();
    assert_eq!(configured_input_device_override(&config), None);
    config.tx.output_device = Some("hdmi".to_string());
    assert_eq!(configured_output_device_override(&config), Some("hdmi"));
    config.rig = Some(RigConfig {
        input_device: Some("usb-in".to_string()),
        output_device: Some("usb-out".to_string()),
        power_setting: None,
        power_w: None,
    });
    assert_eq!(configured_input_device_override(&config), Some("usb-in"));
    assert_eq!(configured_output_device_override(&config), Some("usb-out"));
}

#[test]
fn telemetry_is_taken_into_the_snapshot() {
    let telemetry = RigTelemetry {
        bar_graph: Some(9),
        rx_s_meter: None,
        tx_forward_power_w: Some(18.0f32.to_bits()),
        tx_swr: Some(1.5f32.to_bits()),
    };
    let mut snapshot = Some(RigSnapshot {
        kind: RigKind::Mchf,
        kind_name: "mchf".to_string(),
        frequency_hz: 7_074_000,
        mode: "USB".to_string(),
        band: "40m".to_string(),
        power: RigPowerState::Continuous { current_watts: None, current_text: None },
        telemetry: RigTelemetry {
            bar_graph: None,
            rx_s_meter: None,
            tx_forward_power_w: None,
            tx_swr: None,
        },
        transmitting: Some(true),
    });
    apply_rig_telemetry(&mut snapshot, telemetry, None);
    let state = snapshot.as_ref().expect("a rig");
    assert_eq!(state.telemetry, telemetry);
    assert_eq!(state.transmitting, Some(true));
    apply_rig_telemetry(&mut snapshot, telemetry, Some(false));
    assert_eq!(snapshot.expect("a rig").transmitting, Some(false));
    let mut none = None;
    apply_rig_telemetry(&mut none, telemetry, Some(true));
    assert!(none.is_none());
}

fn setting(id: &str, watts: f32) -> WebRigPowerSetting {
    WebRigPowerSetting {
        id: id.to_string(),
        label: id.to_uppercase(),
        nominal_watts: Some(watts.to_bits()),
    }
}

#[test]
fn discrete_power_shows_the_watts_of_its_setting() {
    let shown = rig_power_web_fields(&RigPowerState::Discrete {
        current_id: Some("2w".to_string()),
        current_label: Some("2 W".to_string()),
        settings: vec![setting("1w", 1.0), setting("2w", 2.0)],
        can_set: false,
    });
    assert_eq!(shown.watts, Some(2.0f32.to_bits()));
    assert_eq!(shown.label.as_deref(), Some("2 W"));
    assert_eq!(shown.settings.len(), 2);
    assert!(shown.is_discrete && !shown.settable);
    let unknown = rig_power_web_fields(&RigPowerState::Continuous {
        current_watts: None,
        current_text: None,
    });
    assert!(unknown.label.is_none() && unknown.settable && !unknown.is_discrete);
}

#[test]
fn the_rig_is_set_in_order() {
    let steps = rig_setup_steps(
        Band::M20,
        Some(RigPowerRequest::ContinuousWatts(5)),
        DecoderMode::Ft4,
    );
    assert_eq!(steps.len(), 3);
    assert!(matches!(steps[0], SetupStep::Frequency(14_080_000)));
    assert!(matches!(steps[1], SetupStep::DataMode));
    assert!(matches!(steps[2], SetupStep::Power(RigPowerRequest::ContinuousWatts(5))));
    let transverter = rig_setup_steps(Band::Xvtr(1), None, DecoderMode::Ft8);
    assert_eq!(transverter.len(), 1);
    assert!(setup_mismatch(Band::M20, DecoderMode::Ft8, Band::M20, 14_080_000));
    assert!(setup_mismatch(Band::M20, DecoderMode::Ft8, Band::M40, 14_074_000));
    assert!(!setup_mismatch(Band::M20, DecoderMode::Ft8, Band::M20, 14_074_000));
    assert!(!setup_mismatch(Band::Xvtr(1), DecoderMode::Ft8, Band::M20, 1));
    assert_eq!(Band::Xvtr(3).label(), "xvtr3");
    assert_eq!(Band::parse("20m"), Some(Band::M20));
    assert_eq!(Band::parse("xvtr255"), Some(Band::Xvtr(255)));
    assert_eq!(Band::parse("11m"), None);
}

#[test]
fn tuning_goes_back_to_receiving_whatever_became_of_the_tone() {
    let mut run = TuneRun::new(RigKind::K3s);
    let mut seen = vec![];
    while run.action != TuneAction::Finished {
        let error = match run.action {
            TuneAction::PlayTone => Some("no device".to_string()),
            _ => None,
        };
        seen.push(run.action);
        run.advance(error);
    }
    assert_eq!(
        seen,
        vec![
            TuneAction::ShowPower,
            TuneAction::Transmit,
            TuneAction::PlayTone,
            TuneAction::Receive,
            TuneAction::RestoreMeter,
        ]
    );
    assert_eq!(run.failure.as_deref(), Some("no device"));
}

#[test]
fn tuning_stops_where_the_rig_does_not_transmit() {
    let mut run = TuneRun::new(RigKind::Mchf);
    assert_eq!(run.action, TuneAction::Transmit);
    run.advance(Some("busy".to_string()));
    assert_eq!(run.action, TuneAction::Finished);
    assert_eq!(run.failure.as_deref(), Some("busy"));
}

#[test]
fn commands_come_out_in_order_and_once() {
    let mut plane = QueueControlPlane::new();
    plane.enqueue(QueueCommand::Clear);
    plane.enqueue(QueueCommand::ToggleNextCqParity);
    let drained = plane.drain();
    assert!(matches!(drained[..], [QueueCommand::Clear, QueueCommand::ToggleNextCqParity]));
    assert!(plane.drain().is_empty());
    let mut rig = RigControlPlane::new();
    rig.enqueue(RigCommand::Tune10s);
    assert_eq!(rig.drain().len(), 1);
    let mut qso = QsoControlPlane::new();
    qso.enqueue(QsoCommand::Stop { reason: "manual".to_string() });
    assert_eq!(qso.drain().len(), 1);
    assert!(qso.drain().is_empty());
}

fn idle_view() -> RigView {
    RigView {
        rig_mode: "DATA".to_string(),
        rig_band: "20m".to_string(),
        app_mode: "FT8".to_string(),
        rig_is_tx: Some(false),
        rig_tune_active: false,
        qso_active: false,
        qso_tx_active: false,
        power_is_discrete: false,
        power_settable: true,
        power_current_id: None,
        power_settings: vec![],
    }
}

fn watts(value: Option<f32>) -> PowerRequest {
    PowerRequest {
        watts: value.map(f32::to_bits),
        watts_text: value.map(|w| format!("{w:.1}")).unwrap_or_default(),
        setting_id: None,
    }
}

fn ask(view: &RigView, band: Band, mode: &str, power: &PowerRequest) -> (u16, String, bool) {
    let (reply, command) = api_rig_config(view, Ok(band), mode, power);
    assert_eq!(reply.ok, command.is_some());
    (reply.code.number(), reply.message, command.is_some())
}

#[test]
fn a_fitting_request_sets_the_rig() {
    let (reply, command) =
        api_rig_config(&idle_view(), Ok(Band::M40), "FT4", &watts(Some(5.0)));
    assert_eq!((reply.code, reply.message.as_str()), (ApiCode::Accepted, "rig config queued"));
    assert!(matches!(
        command,
        Some(RigCommand::Configure {
            band: Band::M40,
            power: Some(RigPowerRequest::ContinuousWatts(w)),
            app_mode: DecoderMode::Ft4,
        }) if w == 5.0f32.to_bits()
    ));
}

#[test]
fn requests_that_do_not_fit_are_turned_down() {
    let refused = |code: u16, message: &str| (code, message.to_string(), false);
    let none = watts(None);
    let mut view = idle_view();
    view.rig_mode = "unavailable".to_string();
    assert_eq!(ask(&view, Band::M20, "ft8", &none), refused(503, "rig unavailable"));
    view = idle_view();
    view.rig_is_tx = Some(true);
    assert_eq!(ask(&view, Band::M20, "ft8", &none), refused(409, "transmit active"));
    view = idle_view();
    view.rig_tune_active = true;
    assert_eq!(ask(&view, Band::M20, "ft8", &none), refused(409, "transmit active"));
    view = idle_view();
    view.qso_active = true;
    assert_eq!(
        ask(&view, Band::M40, "ft8", &none),
        refused(409, "cannot change band during active qso")
    );
    assert_eq!(
        ask(&view, Band::M20, "ft4", &none),
        refused(409, "cannot change mode during active qso")
    );
    assert!(ask(&view, Band::M20, "ft8", &watts(Some(5.0))).2);
    view = idle_view();
    assert_eq!(
        ask(&view, Band::M20, "ft8", &watts(Some(110.5))),
        refused(400, "power must be between 0.1 and 110.0 W")
    );
    assert_eq!(
        ask(&view, Band::M20, "ft2", &none),
        refused(400, "FT2 is not supported in ft8rx; use FT8 or FT4")
    );
    let (reply, command) = api_rig_config(&view, Err("bad band".to_string()), "ft8", &none);
    assert_eq!((reply.code, reply.message.as_str()), (ApiCode::BadRequest, "bad band"));
    assert!(command.is_none());
}

#[test]
fn discrete_power_is_asked_for_by_its_setting() {
    let mut view = idle_view();
    view.power_is_discrete = true;
    view.power_settings = vec![setting("1w", 1.0), setting("2w", 2.0)];
    let named = |id: &str| PowerRequest {
        watts: None,
        watts_text: String::new(),
        setting_id: Some(id.to_string()),
    };
    assert!(ask(&view, Band::M20, "ft8", &named("2w")).2);
    assert_eq!(ask(&view, Band::M20, "ft8", &named("9w")).1, "unknown power setting");
    assert_eq!(
        ask(&view, Band::M20, "ft8", &watts(Some(5.0))).1,
        "continuous watts are not valid for this rig (5.0 requested)"
    );
    view.power_settable = false;
    view.power_current_id = Some("1w".to_string());
    assert!(ask(&view, Band::M20, "ft8", &named("1w")).2);
    assert_eq!(
        ask(&view, Band::M20, "ft8", &named("2w")),
        (409, "power setting is not CAT-settable on this rig".to_string(), false)
    );
}

#[test]
fn tuning_is_asked_for_only_when_nothing_goes_on() {
    assert!(api_rig_tune(&idle_view(), true).1.is_some());
    assert!(api_rig_tune(&idle_view(), false).1.is_none());
    let mut view = idle_view();
    view.qso_tx_active = true;
    assert!(api_rig_tune(&view, true).1.is_none());
}

#[test]
fn queue_requests_become_commands() {
    let (reply, command) = api_queue_add(" k1abc ");
    assert!(reply.ok);
    assert!(matches!(command, Some(QueueCommand::Add { callsign }) if callsign == "K1ABC"));
    assert!(api_queue_add("  ").1.is_none());
    assert!(api_queue_remove("").1.is_none());
    assert!(api_queue_remove("K1ABC").1.is_some());
    assert!(matches!(api_queue_clear().1, Some(QueueCommand::Clear)));
    assert!(matches!(api_queue_auto(true).1, Some(QueueCommand::SetAuto { enabled: true })));
    assert!(api_queue_auto_add_decoded_min_count_5m(0).1.is_none());
    assert!(api_queue_auto_add_decoded_min_count_5m(1).1.is_some());
    assert!(api_queue_cq_percent(101).1.is_none());
    assert!(api_queue_cq_percent(100).1.is_some());
    assert!(api_queue_cq_min_unique_calls_5m(3).1.is_some());
    assert!(matches!(api_qso_stop().1, QsoCommand::Stop { .. }));
}

#[test]
fn transmit_frequencies_have_limits() {
    let ask = |family: &str, hz: f32| {
        api_queue_tx_freq(
            family,
            hz.to_bits(),
            200.0f32.to_bits(),
            3500.0f32.to_bits(),
            "200",
            "3500",
        )
    };
    assert!(ask("even", 200.0).1.is_some());
    assert!(ask("odd", 3500.0).1.is_some());
    assert!(ask("odd", 3500.5).1.is_none());
    assert!(ask("odd", f32::NAN).1.is_none());
    assert!(ask("neither", 1000.0).1.is_none());
}

#[test]
fn retry_delays_are_named() {
    assert!(matches!(
        api_queue_retry_delay("no_message", 60).1,
        Some(QueueCommand::SetRetryDelay {
            kind: QueueRetryDelayKind::NoMessage,
            retry_delay_seconds: 60,
        })
    ));
    assert!(api_queue_retry_delay("never", 60).1.is_none());
    assert_eq!(retry_kind_of("send_grid_no_msg_limit"), Some(QueueRetryDelayKind::NoMessage));
    assert_eq!(retry_kind_of("complete"), None);
    assert_eq!(QueueRetryDelayKind::NoForward.as_str(), "no_forward");
}

fn complete_session() -> SessionSummary {
    SessionSummary {
        session_id: 5,
        partner_call: "K1ABC".to_string(),
        rig_band: Some("20m".to_string()),
        rig_frequency_hz: Some(14_074_000),
        app_mode: Some("ft8".to_string()),
        started_at: Some(0),
        ended_at: None,
        last_seen_at: Some(60_000_000_000),
        got_roger: true,
        got_reply: true,
        reached_73: true,
        sent_infos: vec![],
        received_infos: vec![],
        sent_report: Some("-07".to_string()),
        received_report: Some("-08".to_string()),
        remote_grid: None,
        exit_reason: None,
        observed_station_calls: vec!["N1VF".to_string()],
    }
}

#[test]
fn a_complete_contact_becomes_a_record() {
    let record = adif_record_from_session(&complete_session(), "n1vf", "CM97").expect("a record");
    assert_eq!((record.call.as_str(), record.band.as_str()), ("K1ABC", "20M"));
    assert_eq!((record.qso_date.as_str(), record.time_on.as_str()), ("19700101", "000000"));
    assert_eq!(record.time_off.as_deref(), Some("000100"));
    assert_eq!(record.freq.as_deref(), Some("14.074000"));
}

#[test]
fn each_missing_part_is_named() {
    let reason = |change: &dyn Fn(&mut SessionSummary)| {
        let mut session = complete_session();
        change(&mut session);
        match adif_record_from_session(&session, "N1VF", "CM97") {
            Ok(_) => panic!("expected a reason"),
            Err(missing) => missing.reason,
        }
    };
    assert_eq!(
        reason(&|s| {
            s.started_at = None;
            s.last_seen_at = None;
        }),
        "missing QSO start time"
    );
    assert_eq!(
        reason(&|s| s.observed_station_calls = vec!["W1AW".to_string(), "K9ZZ".to_string()]),
        "session logged under different station callsign(s): W1AW, K9ZZ"
    );
    assert_eq!(reason(&|s| s.got_reply = false), "no directed reply from peer");
    assert_eq!(reason(&|s| s.received_report = None), "missing received report");
    assert_eq!(reason(&|s| s.sent_report = None), "missing sent report");
    assert_eq!(reason(&|s| s.got_roger = false), "no roger/ack from peer");
    assert_eq!(reason(&|s| s.reached_73 = false), "we never sent terminal 73/RR73");
    assert_eq!(reason(&|s| s.rig_band = Some(" ".to_string())), "missing rig band");
    assert_eq!(reason(&|s| s.app_mode = None), "missing or unsupported app mode");
}
