//! The transceiver: its bands, its power, and what is known of its state.

use vstd::prelude::*;
use vstd::string::*;

use crate::message::FloatBits;
use crate::slots::DecoderMode;
use crate::text;

verus! {

#[derive(Clone, Copy, Debug, PartialEq, Eq, Structural)]
pub enum Band {
    M160,
    M80,
    M60,
    M40,
    M30,
    M20,
    M17,
    M15,
    M12,
    M10,
    M6,
    Xvtr(u8),
}

impl Band {
    pub open spec fn name(self) -> Seq<char> {
        match self {
            Band::M160 => "160m"@,
            Band::M80 => "80m"@,
            Band::M60 => "60m"@,
            Band::M40 => "40m"@,
            Band::M30 => "30m"@,
            Band::M20 => "20m"@,
            Band::M17 => "17m"@,
            Band::M15 => "15m"@,
            Band::M12 => "12m"@,
            Band::M10 => "10m"@,
            Band::M6 => "6m"@,
            Band::Xvtr(n) => "xvtr"@ + text::decimal(n as nat),
        }
    }

    pub fn label(self) -> (r: String)
        ensures
            r@ == self.name(),
    {
        match self {
            Band::M160 => "160m".to_owned(),
            Band::M80 => "80m".to_owned(),
            Band::M60 => "60m".to_owned(),
            Band::M40 => "40m".to_owned(),
            Band::M30 => "30m".to_owned(),
            Band::M20 => "20m".to_owned(),
            Band::M17 => "17m".to_owned(),
            Band::M15 => "15m".to_owned(),
            Band::M12 => "12m".to_owned(),
            Band::M10 => "10m".to_owned(),
            Band::M6 => "6m".to_owned(),
            Band::Xvtr(n) => text::cat2("xvtr", text::decimal_text(n as u64).as_str()),
        }
    }

    /// The band of a name.
    pub fn parse(name: &str) -> (r: Option<Band>)
        ensures
            match r {
                Some(band) => band.name() == name@,
                None => forall|band: Band| #[trigger] band.name() != name@,
            },
    {
        let fixed = [
            Band::M160,
            Band::M80,
            Band::M60,
            Band::M40,
            Band::M30,
            Band::M20,
            Band::M17,
            Band::M15,
            Band::M12,
            Band::M10,
            Band::M6,
        ];
        let mut i: usize = 0;
        while i < fixed.len()
            invariant
                i <= fixed@.len(),
                forall|k: int| 0 <= k < i ==> (#[trigger] fixed@[k]).name() != name@,
            decreases fixed@.len() - i,
        {
            if text::str_eq(fixed[i].label().as_str(), name) {
                return Some(fixed[i]);
            }
            i += 1;
        }
        let mut n: u16 = 0;
        while n < 256
            invariant
                n <= 256,
                forall|k: u8| k < n ==> #[trigger] Band::Xvtr(k).name() != name@,
            decreases 256 - n,
        {
            let band = Band::Xvtr(n as u8);
            if text::str_eq(band.label().as_str(), name) {
                return Some(band);
            }
            n += 1;
        }
        assert forall|band: Band| #[trigger] band.name() != name@ by {
            match band {
                Band::M160 => assert(fixed@[0] == band),
                Band::M80 => assert(fixed@[1] == band),
                Band::M60 => assert(fixed@[2] == band),
                Band::M40 => assert(fixed@[3] == band),
                Band::M30 => assert(fixed@[4] == band),
                Band::M20 => assert(fixed@[5] == band),
                Band::M17 => assert(fixed@[6] == band),
                Band::M15 => assert(fixed@[7] == band),
                Band::M12 => assert(fixed@[8] == band),
                Band::M10 => assert(fixed@[9] == band),
                Band::M6 => assert(fixed@[10] == band),
                Band::Xvtr(k) => assert(k < n),
            }
        }
        None
    }
}

/// Where FT8 is called on a band; nothing for a transverter.
pub open spec fn ft8_frequency(band: Band) -> u64 {
    match band {
        Band::M160 => 1_840_000,
        Band::M80 => 3_573_000,
        Band::M60 => 5_357_000,
        Band::M40 => 7_074_000,
        Band::M30 => 10_136_000,
        Band::M20 => 14_074_000,
        Band::M17 => 18_100_000,
        Band::M15 => 21_074_000,
        Band::M12 => 24_915_000,
        Band::M10 => 28_074_000,
        Band::M6 => 50_313_000,
        Band::Xvtr(_) => 0,
    }
}

/// Where a mode is called on a band: FT4 has no place of its own on 160 m and 60 m.
pub open spec fn calling_frequency(band: Band, mode: DecoderMode) -> u64 {
    match mode {
        DecoderMode::Ft8 => ft8_frequency(band),
        DecoderMode::Ft4 => match band {
            Band::M80 => 3_575_000,
            Band::M40 => 7_047_500,
            Band::M30 => 10_140_000,
            Band::M20 => 14_080_000,
            Band::M17 => 18_104_000,
            Band::M15 => 21_140_000,
            Band::M12 => 24_919_000,
            Band::M10 => 28_180_000,
            Band::M6 => 50_318_000,
            _ => ft8_frequency(band),
        },
    }
}

pub fn calling_frequency_hz(band: Band, app_mode: DecoderMode) -> (r: u64)
    ensures
        r == calling_frequency(band, app_mode),
{
    match (app_mode, band) {
        (DecoderMode::Ft4, Band::M80) => 3_575_000,
        (DecoderMode::Ft4, Band::M40) => 7_047_500,
        (DecoderMode::Ft4, Band::M30) => 10_140_000,
        (DecoderMode::Ft4, Band::M20) => 14_080_000,
        (DecoderMode::Ft4, Band::M17) => 18_104_000,
        (DecoderMode::Ft4, Band::M15) => 21_140_000,
        (DecoderMode::Ft4, Band::M12) => 24_919_000,
        (DecoderMode::Ft4, Band::M10) => 28_180_000,
        (DecoderMode::Ft4, Band::M6) => 50_318_000,
        (_, Band::M160) => 1_840_000,
        (_, Band::M80) => 3_573_000,
        (_, Band::M60) => 5_357_000,
        (_, Band::M40) => 7_074_000,
        (_, Band::M30) => 10_136_000,
        (_, Band::M20) => 14_074_000,
        (_, Band::M17) => 18_100_000,
        (_, Band::M15) => 21_074_000,
        (_, Band::M12) => 24_915_000,
        (_, Band::M10) => 28_074_000,
        (_, Band::M6) => 50_313_000,
        (_, Band::Xvtr(_)) => 0,
    }
}

#[derive(Clone, Copy, Debug, PartialEq, Eq, Structural)]
pub enum RigKind {
    K3s,
    Mchf,
}

/// What the power is to be set to.
#[derive(Debug)]
pub enum RigPowerRequest {
    ContinuousWatts(FloatBits),
    SettingId(String),
}

pub enum PowerModel {
    ContinuousWatts(FloatBits),
    SettingId(Seq<char>),
}

impl View for RigPowerRequest {
    type V = PowerModel;

    open spec fn view(&self) -> PowerModel {
        match self {
            RigPowerRequest::ContinuousWatts(watts) => PowerModel::ContinuousWatts(*watts),
            RigPowerRequest::SettingId(id) => PowerModel::SettingId(id@),
        }
    }
}

pub open spec fn power_opt(power: Option<RigPowerRequest>) -> Option<PowerModel> {
    match power {
        Some(p) => Some(p@),
        None => None,
    }
}

#[derive(Debug)]
pub struct RigConfig {
    pub input_device: Option<String>,
    pub output_device: Option<String>,
    pub power_setting: Option<String>,
    pub power_w: Option<FloatBits>,
}

#[derive(Debug)]
pub struct TxConfig {
    pub output_device: Option<String>,
    pub power_w: Option<FloatBits>,
}

#[derive(Debug)]
pub struct AppConfig {
    pub rig: Option<RigConfig>,
    pub tx: TxConfig,
}

pub open spec fn input_override(config: AppConfig) -> Option<Seq<char>> {
    match config.rig {
        Some(rig) => text::text_opt(rig.input_device),
        None => None,
    }
}

pub fn configured_input_device_override(config: &AppConfig) -> (r: Option<&str>)
    ensures
        text::str_opt(r) == input_override(*config),
{
    match &config.rig {
        Some(rig) => text::borrow_opt(&rig.input_device),
        None => None,
    }
}

/// The output device of the rig, or else the one for transmitting.
pub open spec fn output_override(config: AppConfig) -> Option<Seq<char>> {
    let of_rig = match config.rig {
        Some(rig) => text::text_opt(rig.output_device),
        None => None,
    };
    match of_rig {
        Some(device) => Some(device),
        None => text::text_opt(config.tx.output_device),
    }
}

pub fn configured_output_device_override(config: &AppConfig) -> (r: Option<&str>)
    ensures
        text::str_opt(r) == output_override(*config),
{
    let of_rig = match &config.rig {
        Some(rig) => text::borrow_opt(&rig.output_device),
        None => None,
    };
    match of_rig {
        Some(device) => Some(device),
        None => text::borrow_opt(&config.tx.output_device),
    }
}

/// The power to set at the start. A K3S takes watts, an mcHF one of its settings.
pub open spec fn power_wanted(config: AppConfig, kind: RigKind) -> Option<PowerModel> {
    match kind {
        RigKind::K3s => {
            let of_rig = match config.rig {
                Some(rig) => rig.power_w,
                None => None,
            };
            match (of_rig, config.tx.power_w) {
                (Some(watts), _) => Some(PowerModel::ContinuousWatts(watts)),
                (None, Some(watts)) => Some(PowerModel::ContinuousWatts(watts)),
                (None, None) => None,
            }
        },
        RigKind::Mchf => match config.rig {
            Some(rig) => match rig.power_setting {
                Some(id) => Some(PowerModel::SettingId(id@)),
                None => None,
            },
            None => None,
        },
    }
}

pub fn configured_power_request(config: &AppConfig, kind: RigKind) -> (r: Option<RigPowerRequest>)
    ensures
        power_opt(r) == power_wanted(*config, kind),
{
    match kind {
        RigKind::K3s => {
            let of_rig = match &config.rig {
                Some(rig) => rig.power_w,
                None => None,
            };
            match (of_rig, config.tx.power_w) {
                (Some(watts), _) => Some(RigPowerRequest::ContinuousWatts(watts)),
                (None, Some(watts)) => Some(RigPowerRequest::ContinuousWatts(watts)),
                (None, None) => None,
            }
        },
        RigKind::Mchf => match &config.rig {
            Some(rig) => match &rig.power_setting {
                Some(id) => Some(RigPowerRequest::SettingId(id.clone())),
                None => None,
            },
            None => None,
        },
    }
}

/// One of the power settings of a rig that has no others.
#[derive(Debug)]
pub struct WebRigPowerSetting {
    pub id: String,
    pub label: String,
    pub nominal_watts: Option<FloatBits>,
}

#[verifier::ext_equal]
pub struct SettingModel {
    pub id: Seq<char>,
    pub label: Seq<char>,
    pub watts: Option<FloatBits>,
}

impl View for WebRigPowerSetting {
    type V = SettingModel;

    open spec fn view(&self) -> SettingModel {
        SettingModel { id: self.id@, label: self.label@, watts: self.nominal_watts }
    }
}

pub open spec fn setting_models(settings: Seq<WebRigPowerSetting>) -> Seq<SettingModel> {
    settings.map_values(|s: WebRigPowerSetting| s@)
}

/// The power of a rig, which it takes in watts or as one of its settings. `current_text` is the
/// number of watts as it is shown.
#[derive(Debug)]
pub enum RigPowerState {
    Continuous { current_watts: Option<FloatBits>, current_text: Option<String> },
    Discrete {
        current_id: Option<String>,
        current_label: Option<String>,
        settings: Vec<WebRigPowerSetting>,
        can_set: bool,
    },
}

#[derive(Clone, Copy, Debug, PartialEq, Eq, Structural)]
pub struct RigTelemetry {
    pub bar_graph: Option<u8>,
    pub rx_s_meter: Option<FloatBits>,
    pub tx_forward_power_w: Option<FloatBits>,
    pub tx_swr: Option<FloatBits>,
}

/// What was last read from the rig.
#[derive(Debug)]
pub struct RigSnapshot {
    pub kind: RigKind,
    pub kind_name: String,
    pub frequency_hz: u64,
    pub mode: String,
    pub band: String,
    pub power: RigPowerState,
    pub telemetry: RigTelemetry,
    pub transmitting: Option<bool>,
}

/// Puts new readings in place of the old; whether the rig transmits only where that is known.
pub fn apply_rig_telemetry(
    snapshot: &mut Option<RigSnapshot>,
    telemetry: RigTelemetry,
    transmitting: Option<bool>,
)
    ensures
        *final(snapshot) == (match *old(snapshot) {
            Some(s) => Some(
                RigSnapshot {
                    telemetry,
                    transmitting: if transmitting is Some {
                        transmitting
                    } else {
                        s.transmitting
                    },
                    ..s
                },
            ),
            None => None,
        }),
{
    if let Some(s) = snapshot {
        s.telemetry = telemetry;
        if transmitting.is_some() {
            s.transmitting = transmitting;
        }
    }
}

/// The power of the rig as it is shown.
#[derive(Debug)]
pub struct WebPower {
    pub watts: Option<FloatBits>,
    pub label: Option<String>,
    pub current_id: Option<String>,
    pub settings: Vec<WebRigPowerSetting>,
    pub settable: bool,
    pub is_discrete: bool,
}

/// The watts of the setting of that name.
pub open spec fn watts_of(settings: Seq<SettingModel>, id: Option<Seq<char>>) -> Option<FloatBits>
    decreases settings.len(),
{
    if settings.len() == 0 {
        None
    } else if id == Some(settings[0].id) {
        settings[0].watts
    } else {
        watts_of(settings.drop_first(), id)
    }
}

pub open spec fn shows_power(shown: WebPower, power: RigPowerState) -> bool {
    match power {
        RigPowerState::Continuous { current_watts, current_text } => {
            &&& shown.watts == current_watts
            &&& text::text_opt(shown.label) == (match current_text {
                Some(t) => Some(t@ + " W"@),
                None => None,
            })
            &&& shown.current_id is None
            &&& shown.settings@.len() == 0
            &&& shown.settable
            &&& !shown.is_discrete
        },
        RigPowerState::Discrete { current_id, current_label, settings, can_set } => {
            &&& shown.watts == watts_of(setting_models(settings@), text::text_opt(current_id))
            &&& text::text_opt(shown.label) == text::text_opt(current_label)
            &&& text::text_opt(shown.current_id) == text::text_opt(current_id)
            &&& setting_models(shown.settings@) == setting_models(settings@)
            &&& shown.settable == can_set
            &&& shown.is_discrete
        },
    }
}

fn find_watts(settings: &Vec<WebRigPowerSetting>, id: &Option<String>) -> (r: Option<FloatBits>)
    ensures
        r == watts_of(setting_models(settings@), text::text_opt(*id)),
{
    let ghost all = setting_models(settings@);
    let mut i: usize = 0;
    assert(all.skip(0) =~= all);
    while i < settings.len()
        invariant
            i <= settings@.len(),
            all == setting_models(settings@),
            watts_of(all, text::text_opt(*id)) == watts_of(all.skip(i as int), text::text_opt(*id)),
        decreases settings@.len() - i,
    {
        assert(all.skip(i as int)[0] == settings@[i as int]@);
        if text::opt_eq(text::borrow_opt(id), Some(settings[i].id.as_str())) {
            return settings[i].nominal_watts;
        }
        assert(all.skip(i as int).drop_first() =~= all.skip(i + 1));
        i += 1;
    }
    None
}

fn copy_settings(settings: &Vec<WebRigPowerSetting>) -> (r: Vec<WebRigPowerSetting>)
    ensures
        setting_models(r@) == setting_models(settings@),
{
    let ghost all = setting_models(settings@);
    let mut r: Vec<WebRigPowerSetting> = Vec::new();
    let mut i: usize = 0;
    while i < settings.len()
        invariant
            i <= settings@.len(),
            all == setting_models(settings@),
            setting_models(r@) == all.take(i as int),
        decreases settings@.len() - i,
    {
        let ghost before = setting_models(r@);
        let s = &settings[i];
        r.push(
            WebRigPowerSetting {
                id: s.id.clone(),
                label: s.label.clone(),
                nominal_watts: s.nominal_watts,
            },
        );
        assert(setting_models(r@) =~= before.push(all[i as int]));
        assert(all.take(i + 1) =~= all.take(i as int).push(all[i as int]));
        i += 1;
    }
    assert(all.take(i as int) =~= all);
    r
}

pub fn rig_power_web_fields(power: &RigPowerState) -> (r: WebPower)
    ensures
        shows_power(r, *power),
{
    match power {
        RigPowerState::Continuous { current_watts, current_text } => WebPower {
            watts: *current_watts,
            label: match current_text {
                Some(t) => Some(text::cat2(t.as_str(), " W")),
                None => None,
            },
            current_id: None,
            settings: Vec::new(),
            settable: true,
            is_discrete: false,
        },
        RigPowerState::Discrete { current_id, current_label, settings, can_set } => WebPower {
            watts: find_watts(settings, current_id),
            label: text::clone_opt(current_label),
            current_id: text::clone_opt(current_id),
            settings: copy_settings(settings),
            settable: *can_set,
            is_discrete: true,
        },
    }
}

/// Each band is called on a frequency of its own, within the band; a transverter band has none. FT4
/// is called above FT8 on every band that has a frequency of its own for it, but for 40 m, where it
/// is below.
pub proof fn law_calling_frequencies_lie_in_their_bands(band: Band, mode: DecoderMode)
    ensures
        ({
            let hz = calling_frequency(band, mode);
            let ft8 = calling_frequency(band, DecoderMode::Ft8);
            let ft4 = calling_frequency(band, DecoderMode::Ft4);
            &&& match band {
                Band::M160 => 1_800_000 <= hz <= 2_000_000,
                Band::M80 => 3_500_000 <= hz <= 4_000_000,
                Band::M60 => 5_330_000 <= hz <= 5_410_000,
                Band::M40 => 7_000_000 <= hz <= 7_300_000,
                Band::M30 => 10_100_000 <= hz <= 10_150_000,
                Band::M20 => 14_000_000 <= hz <= 14_350_000,
                Band::M17 => 18_068_000 <= hz <= 18_168_000,
                Band::M15 => 21_000_000 <= hz <= 21_450_000,
                Band::M12 => 24_890_000 <= hz <= 24_990_000,
                Band::M10 => 28_000_000 <= hz <= 29_700_000,
                Band::M6 => 50_000_000 <= hz <= 54_000_000,
                Band::Xvtr(_) => hz == 0,
            }
            &&& band == Band::M160 || band == Band::M60 || band is Xvtr <==> ft4 == ft8
            &&& band == Band::M40 <==> ft4 < ft8
            &&& match band {
                Band::M80 => ft4 - ft8 == 2_000,
                Band::M40 => ft8 - ft4 == 26_500,
                Band::M30 | Band::M17 | Band::M12 => ft4 - ft8 == 4_000,
                Band::M20 => ft4 - ft8 == 6_000,
                Band::M15 => ft4 - ft8 == 66_000,
                Band::M10 => ft4 - ft8 == 106_000,
                Band::M6 => ft4 - ft8 == 5_000,
                _ => true,
            }
            &&& match band {
                Band::M160 => ft8 == 1_840_000,
                Band::M60 => ft8 == 5_357_000,
                Band::M80 => ft8 == 3_573_000,
                Band::M40 | Band::M20 | Band::M15 | Band::M10 => ft8 % 1_000_000 == 74_000,
                Band::M30 => ft8 == 10_136_000,
                Band::M17 => ft8 == 18_100_000,
                Band::M12 => ft8 == 24_915_000,
                Band::M6 => ft8 == 50_313_000,
                Band::Xvtr(_) => true,
            }
        }),
{
}

/// What the configuration of a rig says goes before what is said for transmitting in general; a K3S
/// is given watts and an mcHF one of its settings.
pub proof fn law_rig_configuration_goes_first(config: AppConfig)
    ensures
        config.rig matches Some(rig) ==> {
            &&& rig.output_device matches Some(device) ==> output_override(config) == Some(device@)
            &&& rig.power_w matches Some(watts) ==> power_wanted(config, RigKind::K3s) == Some(
                PowerModel::ContinuousWatts(watts),
            )
            &&& rig.power_setting matches Some(id) ==> power_wanted(config, RigKind::Mchf) == Some(
                PowerModel::SettingId(id@),
            )
            &&& rig.power_setting is None ==> power_wanted(config, RigKind::Mchf) is None
            &&& rig.output_device is None ==> output_override(config) == text::text_opt(
                config.tx.output_device,
            )
            &&& rig.power_w is None ==> power_wanted(config, RigKind::K3s) == (
            match config.tx.power_w {
                Some(watts) => Some(PowerModel::ContinuousWatts(watts)),
                None => None,
            })
        },
        config.rig is None ==> {
            &&& input_override(config) is None
            &&& output_override(config) == text::text_opt(config.tx.output_device)
            &&& power_wanted(config, RigKind::Mchf) is None
        },
{
}

/// The watts of a setting are those of the first setting of its name.
pub proof fn law_watts_of_a_setting(settings: Seq<SettingModel>, id: Seq<char>, i: int)
    requires
        0 <= i < settings.len(),
        settings[i].id == id,
        forall|j: int| 0 <= j < i ==> (#[trigger] settings[j]).id != id,
    ensures
        watts_of(settings, Some(id)) == settings[i].watts,
        watts_of(settings, None) is None,
    decreases settings.len(),
{
    let rest = settings.drop_first();
    lemma_no_setting(settings);
    if i > 0 {
        assert(settings[0].id != id);
        assert(rest[i - 1] == settings[i]);
        assert forall|j: int| 0 <= j < i - 1 implies (#[trigger] rest[j]).id != id by {
            assert(rest[j] == settings[j + 1]);
        }
        law_watts_of_a_setting(rest, id, i - 1);
    }
}

proof fn lemma_no_setting(settings: Seq<SettingModel>)
    ensures
        watts_of(settings, None) is None,
    decreases settings.len(),
{
    if settings.len() > 0 {
        lemma_no_setting(settings.drop_first());
    }
}

} // verus!
