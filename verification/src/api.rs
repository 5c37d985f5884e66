//! What requests over the web are answered, and what they set going.

use vstd::prelude::*;
use vstd::string::*;

use crate::control::{QueueCommand, RigCommand};
use crate::floats;
use crate::message::FloatBits;
use crate::qso::{QsoCommand, QueueRetryDelayKind};
use crate::rig;
use crate::rig::{Band, PowerModel, RigPowerRequest, WebRigPowerSetting};
use crate::slots;
use crate::slots::DecoderMode;
use crate::text;

verus! {

#[derive(Clone, Copy, Debug, PartialEq, Eq, Structural)]
pub enum ApiCode {
    Accepted,
    BadRequest,
    Conflict,
    ServiceUnavailable,
}

impl ApiCode {
    /// The number of the HTTP status.
    pub fn number(self) -> (r: u16)
        ensures
            r == (match self {
                ApiCode::Accepted => 202u16,
                ApiCode::BadRequest => 400u16,
                ApiCode::Conflict => 409u16,
                ApiCode::ServiceUnavailable => 503u16,
            }),
    {
        match self {
            ApiCode::Accepted => 202,
            ApiCode::BadRequest => 400,
            ApiCode::Conflict => 409,
            ApiCode::ServiceUnavailable => 503,
        }
    }
}

/// An answer to a request. It is well only where the request is accepted.
#[derive(Debug)]
pub struct ApiReply {
    pub code: ApiCode,
    pub ok: bool,
    pub message: String,
}

/// The answer says this.
pub open spec fn says(reply: ApiReply, code: ApiCode, message: Seq<char>) -> bool {
    reply.code == code && reply.ok == (code == ApiCode::Accepted) && reply.message@ == message
}

fn reply(code: ApiCode, message: &str) -> (r: ApiReply)
    ensures
        says(r, code, message@),
{
    let ok = match code {
        ApiCode::Accepted => true,
        _ => false,
    };
    ApiReply { code, ok, message: message.to_owned() }
}

/// The request is accepted with this answer, and the command goes out.
pub open spec fn accepts(
    r: (ApiReply, Option<QueueCommand>),
    message: Seq<char>,
    command: QueueCommand,
) -> bool {
    says(r.0, ApiCode::Accepted, message) && r.1 == Some(command)
}

/// The request is turned down with this answer, and no command goes out.
pub open spec fn turns_down(r: (ApiReply, Option<QueueCommand>), message: Seq<char>) -> bool {
    says(r.0, ApiCode::BadRequest, message) && r.1 is None
}

fn accept(message: &str, command: QueueCommand) -> (r: (ApiReply, Option<QueueCommand>))
    ensures
        accepts(r, message@, command),
{
    (reply(ApiCode::Accepted, message), Some(command))
}

fn turn_down(message: &str) -> (r: (ApiReply, Option<QueueCommand>))
    ensures
        turns_down(r, message@),
{
    (reply(ApiCode::BadRequest, message), None)
}

pub fn api_qso_stop() -> (r: (ApiReply, QsoCommand))
    ensures
        says(r.0, ApiCode::Accepted, "qso stop queued"@),
        r.1 matches QsoCommand::Stop { reason } && reason@ == "web_stop"@,
{
    (
        reply(ApiCode::Accepted, "qso stop queued"),
        QsoCommand::Stop { reason: "web_stop".to_owned() },
    )
}

/// A callsign as it is asked for: in capitals, without space around it.
pub open spec fn asked_call(callsign: Seq<char>) -> Seq<char> {
    text::uppercased(text::trimmed(callsign))
}

fn read_call(callsign: &str) -> (r: String)
    ensures
        r@ == asked_call(callsign@),
{
    let trimmed = text::trim(callsign);
    text::to_uppercase(trimmed.as_str())
}

pub fn api_queue_add(callsign: &str) -> (r: (ApiReply, Option<QueueCommand>))
    ensures
        if asked_call(callsign@).len() == 0 {
            turns_down(r, "callsign required"@)
        } else {
            says(r.0, ApiCode::Accepted, "queue add queued"@) && (r.1 matches Some(
                QueueCommand::Add { callsign: call },
            ) && call@ == asked_call(callsign@))
        },
{
    let call = read_call(callsign);
    if text::is_empty_text(call.as_str()) {
        return turn_down("callsign required");
    }
    accept("queue add queued", QueueCommand::Add { callsign: call })
}

pub fn api_queue_remove(callsign: &str) -> (r: (ApiReply, Option<QueueCommand>))
    ensures
        if asked_call(callsign@).len() == 0 {
            turns_down(r, "callsign required"@)
        } else {
            says(r.0, ApiCode::Accepted, "queue remove queued"@) && (r.1 matches Some(
                QueueCommand::Remove { callsign: call },
            ) && call@ == asked_call(callsign@))
        },
{
    let call = read_call(callsign);
    if text::is_empty_text(call.as_str()) {
        return turn_down("callsign required");
    }
    accept("queue remove queued", QueueCommand::Remove { callsign: call })
}

pub fn api_queue_clear() -> (r: (ApiReply, Option<QueueCommand>))
    ensures
        accepts(r, "queue clear queued"@, QueueCommand::Clear),
{
    accept("queue clear queued", QueueCommand::Clear)
}

pub fn api_queue_auto(enabled: bool) -> (r: (ApiReply, Option<QueueCommand>))
    ensures
        accepts(r, "queue auto updated"@, QueueCommand::SetAuto { enabled }),
{
    accept("queue auto updated", QueueCommand::SetAuto { enabled })
}

pub fn api_queue_auto_add_decoded(enabled: bool) -> (r: (ApiReply, Option<QueueCommand>))
    ensures
        accepts(
            r,
            "queue decoded auto-add updated"@,
            QueueCommand::SetAutoAddAllDecodedCalls { enabled },
        ),
{
    accept(
        "queue decoded auto-add updated",
        QueueCommand::SetAutoAddAllDecodedCalls { enabled },
    )
}

pub fn api_queue_auto_add_decoded_min_count_5m(count: u32) -> (r: (ApiReply, Option<QueueCommand>))
    ensures
        if 1 <= count <= 1000 {
            accepts(
                r,
                "queue decoded auto-add threshold updated"@,
                QueueCommand::SetAutoAddDecodedMinCount5m { count },
            )
        } else {
            turns_down(r, "count must be between 1 and 1000"@)
        },
{
    if count < 1 || count > 1000 {
        return turn_down("count must be between 1 and 1000");
    }
    accept(
        "queue decoded auto-add threshold updated",
        QueueCommand::SetAutoAddDecodedMinCount5m { count },
    )
}

pub fn api_queue_auto_add_direct(enabled: bool) -> (r: (ApiReply, Option<QueueCommand>))
    ensures
        accepts(r, "queue direct auto-add updated"@, QueueCommand::SetAutoAddDirect { enabled }),
{
    accept("queue direct auto-add updated", QueueCommand::SetAutoAddDirect { enabled })
}

pub fn api_queue_ignore_direct_worked(enabled: bool) -> (r: (ApiReply, Option<QueueCommand>))
    ensures
        accepts(
            r,
            "queue direct worked filter updated"@,
            QueueCommand::SetIgnoreDirectWorked { enabled },
        ),
{
    accept(
        "queue direct worked filter updated",
        QueueCommand::SetIgnoreDirectWorked { enabled },
    )
}

pub fn api_queue_cq_enabled(enabled: bool) -> (r: (ApiReply, Option<QueueCommand>))
    ensures
        accepts(r, "queue cq enabled updated"@, QueueCommand::SetCqEnabled { enabled }),
{
    accept("queue cq enabled updated", QueueCommand::SetCqEnabled { enabled })
}

pub fn api_queue_cq_percent(percent: u8) -> (r: (ApiReply, Option<QueueCommand>))
    ensures
        if percent <= 100 && percent % 10 == 0 {
            accepts(r, "queue cq percent updated"@, QueueCommand::SetCqPercent { percent })
        } else {
            turns_down(r, "cq percent must be one of 0,10,...,100"@)
        },
{
    if percent > 100 || percent % 10 != 0 {
        return turn_down("cq percent must be one of 0,10,...,100");
    }
    accept("queue cq percent updated", QueueCommand::SetCqPercent { percent })
}

pub fn api_queue_pause_cq_low_activity(enabled: bool) -> (r: (ApiReply, Option<QueueCommand>))
    ensures
        accepts(
            r,
            "queue low-activity cq pause updated"@,
            QueueCommand::SetPauseCqWhenFewUniqueCalls { enabled },
        ),
{
    accept(
        "queue low-activity cq pause updated",
        QueueCommand::SetPauseCqWhenFewUniqueCalls { enabled },
    )
}

pub fn api_queue_cq_min_unique_calls_5m(count: u32) -> (r: (ApiReply, Option<QueueCommand>))
    ensures
        if count <= 1000 {
            accepts(
                r,
                "queue cq 5m unique threshold updated"@,
                QueueCommand::SetCqPauseMinUniqueCalls5m { count },
            )
        } else {
            turns_down(r, "count must be between 0 and 1000"@)
        },
{
    if count > 1000 {
        return turn_down("count must be between 0 and 1000");
    }
    accept(
        "queue cq 5m unique threshold updated",
        QueueCommand::SetCqPauseMinUniqueCalls5m { count },
    )
}

pub fn api_queue_compound_rr73_handoff(enabled: bool) -> (r: (ApiReply, Option<QueueCommand>))
    ensures
        accepts(
            r,
            "compound rr73 handoff updated"@,
            QueueCommand::SetCompoundRr73Handoff { enabled },
        ),
{
    accept("compound rr73 handoff updated", QueueCommand::SetCompoundRr73Handoff { enabled })
}

pub fn api_queue_compound_73_once_handoff(enabled: bool) -> (r: (ApiReply, Option<QueueCommand>))
    ensures
        accepts(
            r,
            "compound 73 once handoff updated"@,
            QueueCommand::SetCompound73OnceHandoff { enabled },
        ),
{
    accept(
        "compound 73 once handoff updated",
        QueueCommand::SetCompound73OnceHandoff { enabled },
    )
}

pub fn api_queue_compound_direct_signal(enabled: bool) -> (r: (ApiReply, Option<QueueCommand>))
    ensures
        accepts(
            r,
            "compound direct signal callers updated"@,
            QueueCommand::SetCompoundForDirectSignalCallers { enabled },
        ),
{
    accept(
        "compound direct signal callers updated",
        QueueCommand::SetCompoundForDirectSignalCallers { enabled },
    )
}

pub fn api_queue_next_cq_parity() -> (r: (ApiReply, Option<QueueCommand>))
    ensures
        accepts(r, "next cq parity toggled"@, QueueCommand::ToggleNextCqParity),
{
    accept("next cq parity toggled", QueueCommand::ToggleNextCqParity)
}

/// The frequency is one to transmit on.
pub open spec fn usable_tx_freq(freq: FloatBits, min: FloatBits, max: FloatBits) -> bool {
    floats::is_finite(freq) && !floats::less(freq, min) && !floats::less(max, freq)
}

/// `min_text` and `max_text` are the limits in whole hertz, as they are shown.
pub fn api_queue_tx_freq(
    slot_family: &str,
    tx_freq_hz: FloatBits,
    min: FloatBits,
    max: FloatBits,
    min_text: &str,
    max_text: &str,
) -> (r: (ApiReply, Option<QueueCommand>))
    ensures
        if !usable_tx_freq(tx_freq_hz, min, max) {
            turns_down(
                r,
                "tx freq must be between "@ + min_text@ + (" and "@ + max_text@ + " Hz"@),
            )
        } else {
            match slots::family_named(slot_family@) {
                Some(family) => accepts(
                    r,
                    "queue "@ + family.name() + " tx freq updated"@,
                    QueueCommand::SetTxFreq { slot_family: family, tx_freq_hz },
                ),
                None => turns_down(r, "slot_family must be 'even' or 'odd'"@),
            }
        },
{
    if !floats::float_is_finite(tx_freq_hz) || floats::float_less(tx_freq_hz, min)
        || floats::float_less(max, tx_freq_hz) {
        let tail = text::cat3(" and ", max_text, " Hz");
        return turn_down(
            text::cat3("tx freq must be between ", min_text, tail.as_str()).as_str(),
        );
    }
    match slots::parse_slot_family_name(slot_family) {
        Some(family) => accept(
            text::cat3("queue ", family.as_str(), " tx freq updated").as_str(),
            QueueCommand::SetTxFreq { slot_family: family, tx_freq_hz },
        ),
        None => turn_down("slot_family must be 'even' or 'odd'"),
    }
}

/// The delay that a request speaks of.
pub open spec fn delay_named(kind: Seq<char>) -> Option<QueueRetryDelayKind> {
    if kind == "no_message"@ {
        Some(QueueRetryDelayKind::NoMessage)
    } else if kind == "no_forward"@ {
        Some(QueueRetryDelayKind::NoForward)
    } else {
        None
    }
}

pub fn api_queue_retry_delay(
    kind: &str,
    retry_delay_seconds: u64,
) -> (r: (ApiReply, Option<QueueCommand>))
    ensures
        if !(1 <= retry_delay_seconds <= 3600) {
            turns_down(r, "retry delay must be between 1 and 3600 seconds"@)
        } else {
            match delay_named(kind@) {
                Some(kind) => accepts(
                    r,
                    "queue "@ + kind.name() + " retry delay updated"@,
                    QueueCommand::SetRetryDelay { kind, retry_delay_seconds },
                ),
                None => turns_down(r, "kind must be 'no_message' or 'no_forward'"@),
            }
        },
{
    if retry_delay_seconds == 0 || retry_delay_seconds > 3600 {
        return turn_down("retry delay must be between 1 and 3600 seconds");
    }
    let known = if text::str_eq(kind, "no_message") {
        Some(QueueRetryDelayKind::NoMessage)
    } else if text::str_eq(kind, "no_forward") {
        Some(QueueRetryDelayKind::NoForward)
    } else {
        None
    };
    match known {
        Some(kind) => accept(
            text::cat3("queue ", kind.as_str(), " retry delay updated").as_str(),
            QueueCommand::SetRetryDelay { kind, retry_delay_seconds },
        ),
        None => turn_down("kind must be 'no_message' or 'no_forward'"),
    }
}

/// What a mode's name stands for, whatever its case, or what to say of it.
pub open spec fn mode_named(value: Seq<char>) -> Result<DecoderMode, Seq<char>> {
    let name = text::lowered(value);
    if name == "ft8"@ {
        Ok(DecoderMode::Ft8)
    } else if name == "ft4"@ {
        Ok(DecoderMode::Ft4)
    } else if name == "ft2"@ {
        Err("FT2 is not supported in ft8rx; use FT8 or FT4"@)
    } else {
        Err("unknown mode: "@ + value)
    }
}

pub fn parse_supported_app_mode(value: &str) -> (r: Result<DecoderMode, String>)
    ensures
        (match r {
            Ok(mode) => Ok(mode),
            Err(error) => Err(error@),
        }) == mode_named(value@),
{
    let name = text::to_ascii_lowercase(value);
    if text::str_eq(name.as_str(), "ft8") {
        Ok(DecoderMode::Ft8)
    } else if text::str_eq(name.as_str(), "ft4") {
        Ok(DecoderMode::Ft4)
    } else if text::str_eq(name.as_str(), "ft2") {
        Err("FT2 is not supported in ft8rx; use FT8 or FT4".to_owned())
    } else {
        Err(text::cat2("unknown mode: ", value))
    }
}

/// What is known of the rig and of the contact when a request comes in.
#[derive(Debug)]
pub struct RigView {
    pub rig_mode: String,
    pub rig_band: String,
    pub app_mode: String,
    pub rig_is_tx: Option<bool>,
    pub rig_tune_active: bool,
    pub qso_active: bool,
    pub qso_tx_active: bool,
    pub power_is_discrete: bool,
    pub power_settable: bool,
    pub power_current_id: Option<String>,
    pub power_settings: Vec<WebRigPowerSetting>,
}

impl RigView {
    pub open spec fn transmits(&self) -> bool {
        self.qso_tx_active || self.rig_tune_active || self.rig_is_tx == Some(true)
    }

    pub open spec fn is_absent(&self) -> bool {
        self.rig_mode@ == "unavailable"@
    }

    fn transmitting(&self) -> (r: bool)
        ensures
            r == self.transmits(),
    {
        let keyed = match self.rig_is_tx {
            Some(tx) => tx,
            None => false,
        };
        self.qso_tx_active || self.rig_tune_active || keyed
    }
}

/// The power that is asked for. `watts_text` is the number of watts as it is shown.
#[derive(Debug)]
pub struct PowerRequest {
    pub watts: Option<FloatBits>,
    pub watts_text: String,
    pub setting_id: Option<String>,
}

/// A tenth of a watt.
pub const MIN_WATTS: FloatBits = 0x3dcc_cccd;

/// A hundred and ten watts.
pub const MAX_WATTS: FloatBits = 0x42dc_0000;

pub open spec fn has_setting(settings: Seq<rig::SettingModel>, id: Seq<char>) -> bool {
    exists|i: int| 0 <= i < settings.len() && (#[trigger] settings[i]).id == id
}

/// The power to set, or the answer to a request that cannot be met.
pub open spec fn power_asked(
    view: RigView,
    request: PowerRequest,
) -> Result<Option<PowerModel>, (ApiCode, Seq<char>)> {
    if view.power_is_discrete {
        if request.watts is Some {
            Err(
                (
                    ApiCode::BadRequest,
                    "continuous watts are not valid for this rig ("@ + request.watts_text@
                        + " requested)"@,
                ),
            )
        } else {
            match request.setting_id {
                None => Ok(None),
                Some(id) => if !view.power_settable {
                    if text::text_opt(view.power_current_id) == Some(id@) {
                        Ok(None)
                    } else {
                        Err((ApiCode::Conflict, "power setting is not CAT-settable on this rig"@))
                    }
                } else if has_setting(rig::setting_models(view.power_settings@), id@) {
                    Ok(Some(PowerModel::SettingId(id@)))
                } else {
                    Err((ApiCode::BadRequest, "unknown power setting"@))
                },
            }
        }
    } else {
        match request.watts {
            None => Ok(None),
            Some(watts) => if floats::at_most(MIN_WATTS, watts) && floats::at_most(
                watts,
                MAX_WATTS,
            ) {
                Ok(Some(PowerModel::ContinuousWatts(watts)))
            } else {
                Err((ApiCode::BadRequest, "power must be between 0.1 and 110.0 W"@))
            },
        }
    }
}

fn knows_setting(settings: &Vec<WebRigPowerSetting>, id: &str) -> (r: bool)
    ensures
        r == has_setting(rig::setting_models(settings@), id@),
{
    let ghost all = rig::setting_models(settings@);
    let mut i: usize = 0;
    while i < settings.len()
        invariant
            i <= settings@.len(),
            all == rig::setting_models(settings@),
            forall|k: int| 0 <= k < i ==> (#[trigger] all[k]).id != id@,
        decreases settings@.len() - i,
    {
        assert(all[i as int] == settings@[i as int]@);
        if text::str_eq(settings[i].id.as_str(), id) {
            return true;
        }
        i += 1;
    }
    false
}

pub open spec fn power_answer(
    r: Result<Option<RigPowerRequest>, ApiReply>,
    asked: Result<Option<PowerModel>, (ApiCode, Seq<char>)>,
) -> bool {
    match (r, asked) {
        (Ok(power), Ok(wanted)) => rig::power_opt(power) == wanted,
        (Err(answer), Err((code, message))) => says(answer, code, message),
        _ => false,
    }
}

fn read_power(
    view: &RigView,
    request: &PowerRequest,
) -> (r: Result<Option<RigPowerRequest>, ApiReply>)
    ensures
        power_answer(r, power_asked(*view, *request)),
{
    if view.power_is_discrete {
        if request.watts.is_some() {
            let message = text::cat3(
                "continuous watts are not valid for this rig (",
                request.watts_text.as_str(),
                " requested)",
            );
            return Err(reply(ApiCode::BadRequest, message.as_str()));
        }
        match &request.setting_id {
            None => Ok(None),
            Some(id) => if !view.power_settable {
                if text::opt_eq(text::borrow_opt(&view.power_current_id), Some(id.as_str())) {
                    Ok(None)
                } else {
                    Err(
                        reply(
                            ApiCode::Conflict,
                            "power setting is not CAT-settable on this rig",
                        ),
                    )
                }
            } else if knows_setting(&view.power_settings, id.as_str()) {
                Ok(Some(RigPowerRequest::SettingId(id.clone())))
            } else {
                Err(reply(ApiCode::BadRequest, "unknown power setting"))
            },
        }
    } else {
        match request.watts {
            None => Ok(None),
            Some(watts) => if floats::float_at_most(MIN_WATTS, watts) && floats::float_at_most(
                watts,
                MAX_WATTS,
            ) {
                Ok(Some(RigPowerRequest::ContinuousWatts(watts)))
            } else {
                Err(reply(ApiCode::BadRequest, "power must be between 0.1 and 110.0 W"))
            },
        }
    }
}

/// The answer to a request to change band, mode or power: the code and message of a refusal, or what
/// to set. Band and mode stay as they are while a contact goes on; power can be changed then, as
/// long as nothing is transmitted.
pub open spec fn config_asked(
    view: RigView,
    band: Result<Band, Seq<char>>,
    mode: Result<DecoderMode, Seq<char>>,
    power: PowerRequest,
) -> Result<(Band, DecoderMode, Option<PowerModel>), (ApiCode, Seq<char>)> {
    if view.is_absent() {
        Err((ApiCode::ServiceUnavailable, "rig unavailable"@))
    } else if view.transmits() {
        Err((ApiCode::Conflict, "transmit active"@))
    } else {
        match (band, mode) {
            (Err(message), _) => Err((ApiCode::BadRequest, message)),
            (_, Err(message)) => Err((ApiCode::BadRequest, message)),
            (Ok(band), Ok(mode)) => match power_asked(view, power) {
                Err(refusal) => Err(refusal),
                Ok(power) => if view.qso_active && view.rig_band@ != band.name() {
                    Err((ApiCode::Conflict, "cannot change band during active qso"@))
                } else if view.qso_active && view.app_mode@ != mode.upper_name() {
                    Err((ApiCode::Conflict, "cannot change mode during active qso"@))
                } else {
                    Ok((band, mode, power))
                },
            },
        }
    }
}

pub open spec fn band_result(band: Result<Band, String>) -> Result<Band, Seq<char>> {
    match band {
        Ok(b) => Ok(b),
        Err(error) => Err(error@),
    }
}

/// Answers a request to change band, mode or power. `band` is the band that was named, or what to
/// say of a name that is none.
pub fn api_rig_config(
    view: &RigView,
    band: Result<Band, String>,
    app_mode: &str,
    power: &PowerRequest,
) -> (r: (
    ApiReply,
    Option<RigCommand>,
))
    ensures
        match config_asked(*view, band_result(band), mode_named(app_mode@), *power) {
            Ok((band, mode, power)) => says(r.0, ApiCode::Accepted, "rig config queued"@) && (r.1
                matches Some(RigCommand::Configure { band: b, power: p, app_mode: m }) && b == band
                && m == mode && rig::power_opt(p) == power),
            Err((code, message)) => says(r.0, code, message) && r.1 is None,
        },
{
    if text::str_eq(view.rig_mode.as_str(), "unavailable") {
        return (reply(ApiCode::ServiceUnavailable, "rig unavailable"), None);
    }
    if view.transmitting() {
        return (reply(ApiCode::Conflict, "transmit active"), None);
    }
    let band = match band {
        Ok(band) => band,
        Err(message) => {
            return (reply(ApiCode::BadRequest, message.as_str()), None);
        },
    };
    let mode = match parse_supported_app_mode(app_mode) {
        Ok(mode) => mode,
        Err(message) => {
            return (reply(ApiCode::BadRequest, message.as_str()), None);
        },
    };
    let power = match read_power(view, power) {
        Ok(power) => power,
        Err(answer) => {
            return (answer, None);
        },
    };
    if view.qso_active && !text::str_eq(view.rig_band.as_str(), band.label().as_str()) {
        return (reply(ApiCode::Conflict, "cannot change band during active qso"), None);
    }
    if view.qso_active && !text::str_eq(view.app_mode.as_str(), mode.label()) {
        return (reply(ApiCode::Conflict, "cannot change mode during active qso"), None);
    }
    (
        reply(ApiCode::Accepted, "rig config queued"),
        Some(RigCommand::Configure { band, power, app_mode: mode }),
    )
}

/// Answers a request to tune.
pub fn api_rig_tune(view: &RigView, tune_available: bool) -> (r: (ApiReply, Option<RigCommand>))
    ensures
        if !tune_available {
            says(r.0, ApiCode::ServiceUnavailable, "audio output unavailable"@) && r.1 is None
        } else if view.is_absent() {
            says(r.0, ApiCode::ServiceUnavailable, "rig unavailable"@) && r.1 is None
        } else if view.qso_active || view.transmits() {
            says(r.0, ApiCode::Conflict, "rig busy"@) && r.1 is None
        } else {
            says(r.0, ApiCode::Accepted, "tune queued"@) && r.1 == Some(RigCommand::Tune10s)
        },
{
    if !tune_available {
        return (reply(ApiCode::ServiceUnavailable, "audio output unavailable"), None);
    }
    if text::str_eq(view.rig_mode.as_str(), "unavailable") {
        return (reply(ApiCode::ServiceUnavailable, "rig unavailable"), None);
    }
    if view.qso_active || view.transmitting() {
        return (reply(ApiCode::Conflict, "rig busy"), None);
    }
    (reply(ApiCode::Accepted, "tune queued"), Some(RigCommand::Tune10s))
}

/// While something is transmitted no request changes the rig, and while a contact goes on none
/// changes its band or mode.
pub proof fn law_rig_is_left_alone(
    view: RigView,
    band: Result<Band, Seq<char>>,
    mode: Result<DecoderMode, Seq<char>>,
    power: PowerRequest,
)
    ensures
        view.transmits() ==> config_asked(view, band, mode, power) is Err,
        view.qso_active ==> match config_asked(view, band, mode, power) {
            Ok((b, m, _)) => b.name() == view.rig_band@ && m.upper_name() == view.app_mode@,
            Err(_) => true,
        },
{
}

/// While a contact goes on and nothing is transmitted, the power can be changed on the band and in
/// the mode that the rig is on.
pub proof fn law_power_changes_during_a_contact(
    view: RigView,
    band: Band,
    mode: DecoderMode,
    power: PowerRequest,
)
    requires
        !view.is_absent(),
        !view.transmits(),
        view.rig_band@ == band.name(),
        view.app_mode@ == mode.upper_name(),
    ensures
        config_asked(view, Ok(band), Ok(mode), power) == (match power_asked(view, power) {
            Ok(p) => Ok((band, mode, p)),
            Err(refusal) => Err(refusal),
        }),
{
}

/// A request changes the rig only while the rig is there and nothing is transmitted, neither by a
/// contact nor for tuning nor by the rig itself; and it is refused as unavailable, as a conflict or
/// as a bad request accordingly.
pub proof fn law_when_the_rig_can_be_changed(
    view: RigView,
    band: Result<Band, Seq<char>>,
    mode: Result<DecoderMode, Seq<char>>,
    power: PowerRequest,
)
    ensures
        ({
            let answer = config_asked(view, band, mode, power);
            let absent = view.rig_mode@ == "unavailable"@;
            let busy = view.qso_tx_active || view.rig_tune_active || view.rig_is_tx == Some(true);
            &&& absent ==> (answer matches Err((code, _)) && code == ApiCode::ServiceUnavailable)
            &&& !absent && busy ==> (answer matches Err((code, _)) && code == ApiCode::Conflict)
            &&& !absent && !busy && (band is Err || mode is Err) ==> (answer matches Err((code, _))
                && code == ApiCode::BadRequest)
            &&& answer matches Ok((b, m, _)) ==> !absent && !busy && band == Ok::<Band, Seq<char>>(b)
                && mode == Ok::<DecoderMode, Seq<char>>(m) && (view.qso_active ==> b.name()
                == view.rig_band@ && m.upper_name() == view.app_mode@)
            &&& !absent && !busy && !view.qso_active && band is Ok && mode is Ok && power.watts
                is None && power.setting_id is None ==> answer == Ok::<
                (Band, DecoderMode, Option<PowerModel>),
                (ApiCode, Seq<char>),
            >((band->Ok_0, mode->Ok_0, None))
        }),
{
}

/// On a rig with continuous power a number of watts is set if it is not below 0.1 nor above 110, and
/// refused else; a setting by name is not looked at. On a rig with settings a number of watts is
/// refused, and a setting is set if the rig knows it and can set it.
pub proof fn law_which_power_can_be_set(view: RigView, request: PowerRequest)
    ensures
        !view.power_is_discrete ==> match request.watts {
            Some(watts) => if floats::at_most(0x3dcc_cccd, watts) && floats::at_most(
                watts,
                0x42dc_0000,
            ) {
                power_asked(view, request) == Ok::<Option<PowerModel>, (ApiCode, Seq<char>)>(
                    Some(PowerModel::ContinuousWatts(watts)),
                )
            } else {
                power_asked(view, request) matches Err((code, _)) && code == ApiCode::BadRequest
            },
            None => power_asked(view, request) == Ok::<Option<PowerModel>, (ApiCode, Seq<char>)>(
                None,
            ),
        },
        view.power_is_discrete && request.watts is Some ==> (power_asked(view, request) matches Err((
            code,
            _,
        )) && code == ApiCode::BadRequest),
        view.power_is_discrete && request.watts is None ==> (request.setting_id matches Some(id) ==> {
            let known = exists|i: int|
                0 <= i < view.power_settings@.len() && (#[trigger] view.power_settings@[i]).id@
                    == id@;
            let current = view.power_current_id matches Some(now) && now@ == id@;
            &&& view.power_settable && known ==> power_asked(view, request) == Ok::<
                Option<PowerModel>,
                (ApiCode, Seq<char>),
            >(Some(PowerModel::SettingId(id@)))
            &&& view.power_settable && !known ==> (power_asked(view, request) matches Err((code, _))
                && code == ApiCode::BadRequest)
            &&& !view.power_settable && current ==> power_asked(view, request) == Ok::<
                Option<PowerModel>,
                (ApiCode, Seq<char>),
            >(None)
            &&& !view.power_settable && !current ==> (power_asked(view, request) matches Err((
                code,
                _,
            )) && code == ApiCode::Conflict)
        }),
{
    if let Some(id) = request.setting_id {
        let all = rig::setting_models(view.power_settings@);
        assert forall|i: int| 0 <= i < all.len() implies (#[trigger] all[i]).id
            == view.power_settings@[i].id@ by {}
        if has_setting(all, id@) {
            let i = choose|i: int| 0 <= i < all.len() && (#[trigger] all[i]).id == id@;
            assert(view.power_settings@[i].id@ == id@);
        }
        if exists|i: int|
            0 <= i < view.power_settings@.len() && (#[trigger] view.power_settings@[i]).id@ == id@ {
            let i = choose|i: int|
                0 <= i < view.power_settings@.len() && (#[trigger] view.power_settings@[i]).id@
                    == id@;
            assert(all[i].id == id@);
        }
    }
}

/// The name of a retry delay, and that of a mode in either case, is read back.
pub proof fn law_names_are_read_back(kind: QueueRetryDelayKind, mode: DecoderMode)
    ensures
        delay_named(kind.name()) == Some(kind),
        mode_named(mode.name()) == Ok::<DecoderMode, Seq<char>>(mode),
        mode_named(mode.upper_name()) == Ok::<DecoderMode, Seq<char>>(mode),
{
    reveal_strlit("no_message");
    reveal_strlit("no_forward");
    reveal_strlit("ft8");
    reveal_strlit("ft4");
    reveal_strlit("ft2");
    reveal_strlit("FT8");
    reveal_strlit("FT4");
    assert("no_message"@[3] != "no_forward"@[3]);
    assert("ft8"@[2] != "ft4"@[2]);
    assert(text::lowered(mode.name()) =~= mode.name());
    assert(text::lowered(mode.upper_name()) =~= mode.name());
}

/// A callsign is asked for in whatever case and with whatever space around it: what is asked for has
/// no space at its ends, is the same call but for case, and has no small letter.
pub proof fn law_calls_are_asked_for_in_any_case(callsign: Seq<char>)
    requires
        text::all_ascii(callsign),
    ensures
        text::same_ignoring_case(asked_call(callsign), text::trimmed(callsign)),
        asked_call(callsign).len() == text::trimmed(callsign).len(),
        forall|i: int|
            0 <= i < asked_call(callsign).len() ==> !('a' <= #[trigger] asked_call(callsign)[i]
                <= 'z'),
{
    let cut = text::law_trimming_takes_white_space_off(callsign);
    let inner = text::trimmed(callsign);
    assert(text::all_ascii(inner)) by {
        assert forall|i: int| 0 <= i < inner.len() implies (#[trigger] inner[i] as u32) < 128 by {
            assert(inner[i] == callsign[cut.0 + i]);
        }
    }
    text::law_same_but_for_case(inner, text::uppercased(inner));
    text::law_same_but_for_case(text::uppercased(inner), inner);
    assert forall|i: int| 0 <= i < asked_call(callsign).len() implies !('a' <= #[trigger] asked_call(
        callsign,
    )[i] <= 'z') by {
        text::lemma_shift(inner[i]);
    }
}

} // verus!
