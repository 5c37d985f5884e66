//! What is asked of the rig, and in what order, to set it to a band and to tune an antenna.

use vstd::prelude::*;
use vstd::string::*;

use crate::rig;
use crate::rig::{Band, PowerModel, RigKind, RigPowerRequest};
use crate::slots::DecoderMode;

verus! {

/// How long the tone for tuning lasts: ten seconds.
pub const TUNE_DURATION: u128 = 10_000_000_000;

pub const TUNE_TONE_HZ: u32 = 1_000;

pub const TUNE_SAMPLE_RATE_HZ: u32 = 48_000;

/// A thing that the rig is to do.
#[derive(Debug)]
pub enum SetupStep {
    Frequency(u64),
    DataMode,
    Power(RigPowerRequest),
}

pub enum SetupModel {
    Frequency(u64),
    DataMode,
    Power(PowerModel),
}

impl View for SetupStep {
    type V = SetupModel;

    open spec fn view(&self) -> SetupModel {
        match self {
            SetupStep::Frequency(hz) => SetupModel::Frequency(*hz),
            SetupStep::DataMode => SetupModel::DataMode,
            SetupStep::Power(request) => SetupModel::Power(request@),
        }
    }
}

pub open spec fn setup_models(steps: Seq<SetupStep>) -> Seq<SetupModel> {
    steps.map_values(|s: SetupStep| s@)
}

/// The calling frequency first, where the band has one, and the power last, where one is asked for.
pub open spec fn setup(
    band: Band,
    power: Option<PowerModel>,
    app_mode: DecoderMode,
) -> Seq<SetupModel> {
    let frequency = rig::calling_frequency(band, app_mode);
    (if frequency > 0 {
        seq![SetupModel::Frequency(frequency)]
    } else {
        Seq::empty()
    }) + seq![SetupModel::DataMode] + (match power {
        Some(p) => seq![SetupModel::Power(p)],
        None => Seq::empty(),
    })
}

/// What sets the rig to a band and a mode. The first step that fails ends it.
pub fn rig_setup_steps(
    band: Band,
    power: Option<RigPowerRequest>,
    app_mode: DecoderMode,
) -> (r: Vec<SetupStep>)
    ensures
        setup_models(r@) == setup(band, rig::power_opt(power), app_mode),
{
    let frequency_hz: u64 = rig::calling_frequency_hz(band, app_mode);
    let mut r: Vec<SetupStep> = Vec::new();
    if frequency_hz > 0 {
        r.push(SetupStep::Frequency(frequency_hz));
    }
    r.push(SetupStep::DataMode);
    if let Some(request) = power {
        r.push(SetupStep::Power(request));
    }
    assert(setup_models(r@) =~= setup(band, rig::power_opt(power), app_mode));
    r
}

/// Whether the rig reports another frequency or band than it was set to.
pub fn setup_mismatch(
    band: Band,
    app_mode: DecoderMode,
    reported_band: Band,
    reported_frequency_hz: u64,
) -> (r: bool)
    ensures
        r == (rig::calling_frequency(band, app_mode) > 0 && (reported_frequency_hz
            != rig::calling_frequency(band, app_mode) || reported_band != band)),
{
    let frequency_hz: u64 = rig::calling_frequency_hz(band, app_mode);
    frequency_hz > 0 && (reported_frequency_hz != frequency_hz || reported_band != band)
}

/// What is done next to tune an antenna.
#[derive(Clone, Copy, Debug, PartialEq, Eq, Structural)]
pub enum TuneAction {
    /// Have the meter show power; what it showed before is remembered.
    ShowPower,
    Transmit,
    PlayTone,
    Receive,
    /// Have the meter show what it showed before.
    RestoreMeter,
    Finished,
}

/// The tuning of an antenna: what is done next, and what went wrong so far.
#[derive(Debug)]
pub struct TuneRun {
    pub kind: RigKind,
    pub action: TuneAction,
    pub failure: Option<String>,
}

#[verifier::ext_equal]
pub struct TuneModel {
    pub kind: RigKind,
    pub action: TuneAction,
    pub failure: Option<Seq<char>>,
}

impl View for TuneRun {
    type V = TuneModel;

    open spec fn view(&self) -> TuneModel {
        TuneModel {
            kind: self.kind,
            action: self.action,
            failure: crate::text::text_opt(self.failure),
        }
    }
}

/// Only a K3S has a meter that is set.
pub open spec fn tune_begun(kind: RigKind) -> TuneModel {
    TuneModel {
        kind,
        action: if kind == RigKind::K3s {
            TuneAction::ShowPower
        } else {
            TuneAction::Transmit
        },
        failure: None,
    }
}

/// What follows an action that went well or failed with a message. A failure before the tone ends
/// it. One of the tone is told at the end, unless the rig does not go back to receiving.
pub open spec fn tune_after(run: TuneModel, error: Option<Seq<char>>) -> TuneModel {
    match run.action {
        TuneAction::ShowPower => TuneModel {
            action: if error is None {
                TuneAction::Transmit
            } else {
                TuneAction::Finished
            },
            failure: error,
            ..run
        },
        TuneAction::Transmit => TuneModel {
            action: if error is None {
                TuneAction::PlayTone
            } else {
                TuneAction::Finished
            },
            failure: error,
            ..run
        },
        TuneAction::PlayTone => TuneModel { action: TuneAction::Receive, failure: error, ..run },
        TuneAction::Receive => if error is Some {
            TuneModel { action: TuneAction::Finished, failure: error, ..run }
        } else if run.kind == RigKind::K3s {
            TuneModel { action: TuneAction::RestoreMeter, ..run }
        } else {
            TuneModel { action: TuneAction::Finished, ..run }
        },
        TuneAction::RestoreMeter => TuneModel {
            action: TuneAction::Finished,
            failure: if run.failure is Some {
                run.failure
            } else {
                error
            },
            ..run
        },
        TuneAction::Finished => run,
    }
}

impl TuneRun {
    pub fn new(kind: RigKind) -> (r: TuneRun)
        ensures
            r@ == tune_begun(kind),
    {
        TuneRun {
            kind,
            action: if kind == RigKind::K3s {
                TuneAction::ShowPower
            } else {
                TuneAction::Transmit
            },
            failure: None,
        }
    }

    /// Takes how the action went: what went wrong, where something did.
    pub fn advance(&mut self, error: Option<String>)
        ensures
            final(self)@ == tune_after(old(self)@, crate::text::text_opt(error)),
    {
        let failed = error.is_some();
        match self.action {
            TuneAction::ShowPower => {
                self.action = if failed {
                    TuneAction::Finished
                } else {
                    TuneAction::Transmit
                };
                self.failure = error;
            },
            TuneAction::Transmit => {
                self.action = if failed {
                    TuneAction::Finished
                } else {
                    TuneAction::PlayTone
                };
                self.failure = error;
            },
            TuneAction::PlayTone => {
                self.action = TuneAction::Receive;
                self.failure = error;
            },
            TuneAction::Receive => {
                if failed {
                    self.action = TuneAction::Finished;
                    self.failure = error;
                } else if self.kind == RigKind::K3s {
                    self.action = TuneAction::RestoreMeter;
                } else {
                    self.action = TuneAction::Finished;
                }
            },
            TuneAction::RestoreMeter => {
                self.action = TuneAction::Finished;
                if self.failure.is_none() {
                    self.failure = error;
                }
            },
            TuneAction::Finished => {},
        }
    }
}

/// The rig is told to receive once the tone was played, whether or not the tone went well, and no
/// action but the tone comes between transmitting and receiving.
pub proof fn law_tuning_ends_in_receiving(
    run: TuneModel,
    sent: Option<Seq<char>>,
    played: Option<Seq<char>>,
)
    requires
        run.action == TuneAction::Transmit,
    ensures
        sent is None ==> tune_after(run, sent).action == TuneAction::PlayTone && tune_after(
            tune_after(run, sent),
            played,
        ).action == TuneAction::Receive,
        sent is Some ==> tune_after(run, sent).action == TuneAction::Finished,
{
}

/// A tone that failed is told at the end, where the rig went back to receiving.
pub proof fn law_failed_tone_is_told(run: TuneModel, played: Seq<char>, restored: Option<Seq<char>>)
    requires
        run.action == TuneAction::PlayTone,
    ensures
        ({
            let received = tune_after(tune_after(run, Some(played)), None);
            let last = if received.action == TuneAction::RestoreMeter {
                tune_after(received, restored)
            } else {
                received
            };
            last.action == TuneAction::Finished && last.failure == Some(played)
        }),
{
}

/// The rig is set to the calling frequency before all else where the band has one, always to its
/// data mode, and to a power only where one is asked for, as the last step.
pub proof fn law_setup_in_order(band: Band, power: Option<PowerModel>, app_mode: DecoderMode)
    ensures
        ({
            let steps = setup(band, power, app_mode);
            let hz = rig::calling_frequency(band, app_mode);
            let data = if hz > 0 {
                1int
            } else {
                0
            };
            &&& hz > 0 ==> steps[0] == SetupModel::Frequency(hz)
            &&& steps[data] == SetupModel::DataMode
            &&& power matches Some(p) ==> steps.len() == data + 2 && steps[data + 1]
                == SetupModel::Power(p)
            &&& power is None ==> steps.len() == data + 1
        }),
{
}

/// That the rig did not go back to receiving is told before anything else, and ends the run.
pub proof fn law_failed_return_is_told(run: TuneModel, error: Seq<char>)
    requires
        run.action == TuneAction::Receive,
    ensures
        tune_after(run, Some(error)).action == TuneAction::Finished,
        tune_after(run, Some(error)).failure == Some(error),
{
}

/// A K3S shows its power first and gets its meter back at the end; an mcHF does neither. A run that
/// meets no error ends without one.
pub proof fn law_course_of_tuning(kind: RigKind)
    ensures
        ({
            let first = tune_begun(kind);
            let sending = if kind == RigKind::K3s {
                tune_after(first, None)
            } else {
                first
            };
            let playing = tune_after(sending, None);
            let receiving = tune_after(playing, None);
            let back = tune_after(receiving, None);
            let last = if kind == RigKind::K3s {
                tune_after(back, None)
            } else {
                back
            };
            &&& kind == RigKind::K3s ==> first.action == TuneAction::ShowPower && back.action
                == TuneAction::RestoreMeter
            &&& sending.action == TuneAction::Transmit
            &&& playing.action == TuneAction::PlayTone
            &&& receiving.action == TuneAction::Receive
            &&& last.action == TuneAction::Finished
            &&& last.failure is None
        }),
{
}

} // verus!
