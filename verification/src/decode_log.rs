//! What is recorded of the decoding of one slot.

use vstd::prelude::*;
use vstd::string::*;

use crate::clock::Timestamp;
use crate::slots::{DecodeProfile, DecodeStage, DecoderMode};
use crate::slots;
use crate::clock;

verus! {

/// How a slot's decoding went wrong.
#[derive(Clone, Copy, Debug, PartialEq, Eq, Structural)]
pub enum CycleStatus {
    DecodeFailed,
    CaptureFailed,
    Dropped,
}

impl CycleStatus {
    pub open spec fn name(self) -> Seq<char> {
        match self {
            CycleStatus::DecodeFailed => "decode_failed"@,
            CycleStatus::CaptureFailed => "capture_failed"@,
            CycleStatus::Dropped => "dropped"@,
        }
    }

    pub fn as_str(self) -> (r: &'static str)
        ensures
            r@ == self.name(),
    {
        match self {
            CycleStatus::DecodeFailed => "decode_failed",
            CycleStatus::CaptureFailed => "capture_failed",
            CycleStatus::Dropped => "dropped",
        }
    }
}

/// What is known of one stage: how long it took in all, how long it waited for the worker, how
/// long it ran, and how many messages it found.
#[derive(Clone, Copy, Debug, PartialEq, Eq, Structural)]
pub struct StageRecord {
    pub wall_ms: Option<u128>,
    pub worker_wait_ms: Option<u128>,
    pub decode_run_ms: Option<u128>,
    pub decode_count: Option<usize>,
}

impl StageRecord {
    pub open spec fn blank() -> StageRecord {
        StageRecord { wall_ms: None, worker_wait_ms: None, decode_run_ms: None, decode_count: None }
    }
}

#[derive(Debug)]
pub struct DecodeCycleLogState {
    pub slot_start: Option<Timestamp>,
    pub mode: Option<DecoderMode>,
    pub early41: StageRecord,
    pub early47: StageRecord,
    pub full: StageRecord,
    pub status: Option<CycleStatus>,
    pub error_stage: Option<DecodeStage>,
    pub error_message: Option<String>,
}

#[verifier::ext_equal]
pub struct CycleModel {
    pub slot: Option<Timestamp>,
    pub mode: Option<DecoderMode>,
    pub stages: spec_fn(DecodeStage) -> StageRecord,
    pub error: Option<(CycleStatus, DecodeStage, Seq<char>)>,
}

/// Nothing recorded yet of a slot.
pub open spec fn blank_cycle(slot: Option<Timestamp>, mode: Option<DecoderMode>) -> CycleModel {
    CycleModel { slot, mode, stages: |s: DecodeStage| StageRecord::blank(), error: None }
}

impl CycleModel {
    pub open spec fn with_stage(self, stage: DecodeStage, record: StageRecord) -> CycleModel {
        CycleModel {
            stages: |s: DecodeStage| if s == stage { record } else { (self.stages)(s) },
            ..self
        }
    }

    pub open spec fn timed(
        self,
        stage: DecodeStage,
        wall: u128,
        wait: u128,
        run: u128,
    ) -> CycleModel {
        self.with_stage(
            stage,
            StageRecord {
                wall_ms: Some(wall),
                worker_wait_ms: Some(wait),
                decode_run_ms: Some(run),
                ..(self.stages)(stage)
            },
        )
    }

    pub open spec fn counted(self, stage: DecodeStage, count: usize) -> CycleModel {
        self.with_stage(
            stage,
            StageRecord { decode_count: Some(count), ..(self.stages)(stage) },
        )
    }

    pub open spec fn failed(
        self,
        status: CycleStatus,
        stage: DecodeStage,
        message: Seq<char>,
    ) -> CycleModel {
        CycleModel { error: Some((status, stage, message)), ..self }
    }
}

/// The fields of the line that is logged when a slot is done; a number that is not known is -1.
#[derive(Debug)]
pub struct DecodeCycleLine {
    pub slot: String,
    pub mode: &'static str,
    pub decode_profile: &'static str,
    pub status: &'static str,
    pub early41: StageLine,
    pub early47: StageLine,
    pub full: StageLine,
    pub tx_margin_ms: i128,
    pub error_stage: &'static str,
    pub error_message: String,
}

#[derive(Clone, Copy, Debug, PartialEq, Eq, Structural)]
pub struct StageLine {
    pub wall_ms: i128,
    pub worker_wait_ms: i128,
    pub decode_run_ms: i128,
    pub decode_count: i64,
}

/// `n` as a signed type of that many `values` holds it.
pub open spec fn wrapped(n: int, values: int) -> int {
    if n < values / 2 {
        n
    } else {
        n - values
    }
}

pub open spec fn u128_or_minus_one(value: Option<u128>) -> int {
    match value {
        Some(v) => wrapped(v as int, 0x1_0000_0000_0000_0000_0000_0000_0000_0000int),
        None => -1,
    }
}

pub fn option_u128_i128(value: Option<u128>) -> (r: i128)
    ensures
        r == u128_or_minus_one(value),
{
    match value {
        Some(v) => if v <= i128::MAX as u128 {
            v as i128
        } else {
            -((u128::MAX - v) as i128) - 1
        },
        None => -1,
    }
}

pub open spec fn usize_or_minus_one(value: Option<usize>) -> int {
    match value {
        Some(v) => wrapped(v as int, 0x1_0000_0000_0000_0000),
        None => -1,
    }
}

pub fn option_usize_i64(value: Option<usize>) -> (r: i64)
    ensures
        r == usize_or_minus_one(value),
{
    match value {
        Some(v) => if v as u64 <= i64::MAX as u64 {
            v as i64
        } else {
            -((u64::MAX - v as u64) as i64) - 1
        },
        None => -1,
    }
}

pub open spec fn line_of(record: StageRecord, line: StageLine) -> bool {
    &&& line.wall_ms == u128_or_minus_one(record.wall_ms)
    &&& line.worker_wait_ms == u128_or_minus_one(record.worker_wait_ms)
    &&& line.decode_run_ms == u128_or_minus_one(record.decode_run_ms)
    &&& line.decode_count == usize_or_minus_one(record.decode_count)
}

/// The line tells what was recorded of the slot.
pub open spec fn line_tells(
    line: DecodeCycleLine,
    cycle: CycleModel,
    slot_start: Timestamp,
    mode: DecoderMode,
    profile: DecodeProfile,
    tx_margin_ms: Option<i128>,
) -> bool {
    &&& line.slot@ == slots::slot_label(mode, slot_start)
    &&& line.mode@ == mode.name()
    &&& line.decode_profile@ == profile.name()
    &&& line_of((cycle.stages)(DecodeStage::Early41), line.early41)
    &&& line_of((cycle.stages)(DecodeStage::Early47), line.early47)
    &&& line_of((cycle.stages)(DecodeStage::Full), line.full)
    &&& line.tx_margin_ms == (match tx_margin_ms {
        Some(m) => m as int,
        None => -1,
    })
    &&& match cycle.error {
        Some((status, stage, message)) => line.status@ == status.name() && line.error_stage@
            == stage.name() && line.error_message@ == message,
        None => line.status@ == "ok"@ && line.error_stage@ == ""@ && line.error_message@ == ""@,
    }
}

fn stage_line(record: StageRecord) -> (r: StageLine)
    ensures
        line_of(record, r),
{
    StageLine {
        wall_ms: option_u128_i128(record.wall_ms),
        worker_wait_ms: option_u128_i128(record.worker_wait_ms),
        decode_run_ms: option_u128_i128(record.decode_run_ms),
        decode_count: option_usize_i64(record.decode_count),
    }
}

impl View for DecodeCycleLogState {
    type V = CycleModel;

    open spec fn view(&self) -> CycleModel {
        CycleModel {
            slot: self.slot_start,
            mode: self.mode,
            stages: |s: DecodeStage|
                match s {
                    DecodeStage::Early41 => self.early41,
                    DecodeStage::Early47 => self.early47,
                    DecodeStage::Full => self.full,
                },
            error: match (self.status, self.error_stage, self.error_message) {
                (Some(status), Some(stage), Some(message)) => Some((status, stage, message@)),
                _ => None,
            },
        }
    }
}

impl DecodeCycleLogState {
    /// The three parts of an error are there together or not at all.
    pub open spec fn wf(&self) -> bool {
        (self.status is Some) == (self.error_stage is Some) && (self.status is Some) == (
        self.error_message is Some)
    }

    pub fn new() -> (r: Self)
        ensures
            r.wf(),
            r@ == blank_cycle(None, None),
    {
        let blank = StageRecord {
            wall_ms: None,
            worker_wait_ms: None,
            decode_run_ms: None,
            decode_count: None,
        };
        let r = DecodeCycleLogState {
            slot_start: None,
            mode: None,
            early41: blank,
            early47: blank,
            full: blank,
            status: None,
            error_stage: None,
            error_message: None,
        };
        assert(r@.stages =~= blank_cycle(None, None).stages);
        r
    }

    pub fn reset(&mut self)
        ensures
            final(self).wf(),
            final(self)@ == blank_cycle(None, None),
    {
        *self = DecodeCycleLogState::new();
    }

    /// Starts afresh, unless the same slot is being recorded already.
    pub fn begin(&mut self, slot_start: Timestamp, mode: DecoderMode)
        requires
            old(self).wf(),
        ensures
            final(self).wf(),
            final(self)@ == (if old(self)@.slot == Some(slot_start) && old(self)@.mode == Some(mode) {
                old(self)@
            } else {
                blank_cycle(Some(slot_start), Some(mode))
            }),
    {
        let same_slot = match self.slot_start {
            Some(t) => t == slot_start,
            None => false,
        };
        let same_mode = match self.mode {
            Some(m) => m == mode,
            None => false,
        };
        if !same_slot || !same_mode {
            self.reset();
            let ghost before = self@;
            self.slot_start = Some(slot_start);
            self.mode = Some(mode);
            assert(self@.stages =~= before.stages);
        }
    }

    fn record_timing(
        &mut self,
        stage: DecodeStage,
        wall_ms: u128,
        worker_wait_ms: u128,
        decode_run_ms: u128,
    )
        requires
            old(self).wf(),
        ensures
            final(self).wf(),
            final(self)@ == old(self)@.timed(stage, wall_ms, worker_wait_ms, decode_run_ms),
    {
        match stage {
            DecodeStage::Early41 => {
                self.early41.wall_ms = Some(wall_ms);
                self.early41.worker_wait_ms = Some(worker_wait_ms);
                self.early41.decode_run_ms = Some(decode_run_ms);
            },
            DecodeStage::Early47 => {
                self.early47.wall_ms = Some(wall_ms);
                self.early47.worker_wait_ms = Some(worker_wait_ms);
                self.early47.decode_run_ms = Some(decode_run_ms);
            },
            DecodeStage::Full => {
                self.full.wall_ms = Some(wall_ms);
                self.full.worker_wait_ms = Some(worker_wait_ms);
                self.full.decode_run_ms = Some(decode_run_ms);
            },
        }
        assert(self@.stages =~= old(self)@.timed(stage, wall_ms, worker_wait_ms, decode_run_ms).stages);
    }

    fn record_decode_count(&mut self, stage: DecodeStage, decode_count: usize)
        requires
            old(self).wf(),
        ensures
            final(self).wf(),
            final(self)@ == old(self)@.counted(stage, decode_count),
    {
        match stage {
            DecodeStage::Early41 => self.early41.decode_count = Some(decode_count),
            DecodeStage::Early47 => self.early47.decode_count = Some(decode_count),
            DecodeStage::Full => self.full.decode_count = Some(decode_count),
        }
        assert(self@.stages =~= old(self)@.counted(stage, decode_count).stages);
    }

    fn record_error(&mut self, status: CycleStatus, stage: DecodeStage, message: String)
        requires
            old(self).wf(),
        ensures
            final(self).wf(),
            final(self)@ == old(self)@.failed(status, stage, message@),
    {
        self.status = Some(status);
        self.error_stage = Some(stage);
        self.error_message = Some(message);
        assert(self@.stages =~= old(self)@.stages);
    }

    pub fn record_ok(
        &mut self,
        stage: DecodeStage,
        wall_ms: u128,
        worker_wait_ms: u128,
        decode_run_ms: u128,
        decode_count: usize,
    )
        requires
            old(self).wf(),
        ensures
            final(self).wf(),
            final(self)@ == old(self)@.timed(stage, wall_ms, worker_wait_ms, decode_run_ms).counted(
                stage,
                decode_count,
            ),
    {
        self.record_timing(stage, wall_ms, worker_wait_ms, decode_run_ms);
        self.record_decode_count(stage, decode_count);
    }

    pub fn record_decode_failed(
        &mut self,
        stage: DecodeStage,
        wall_ms: u128,
        worker_wait_ms: u128,
        decode_run_ms: u128,
        error: String,
    )
        requires
            old(self).wf(),
        ensures
            final(self).wf(),
            final(self)@ == old(self)@.timed(stage, wall_ms, worker_wait_ms, decode_run_ms).failed(
                CycleStatus::DecodeFailed,
                stage,
                error@,
            ),
    {
        self.record_timing(stage, wall_ms, worker_wait_ms, decode_run_ms);
        self.record_error(CycleStatus::DecodeFailed, stage, error);
    }

    pub fn record_capture_failed(&mut self, stage: DecodeStage, error: String)
        requires
            old(self).wf(),
        ensures
            final(self).wf(),
            final(self)@ == old(self)@.failed(CycleStatus::CaptureFailed, stage, error@),
    {
        self.record_error(CycleStatus::CaptureFailed, stage, error);
    }

    pub fn record_dropped(&mut self, stage: DecodeStage, reason: &str)
        requires
            old(self).wf(),
        ensures
            final(self).wf(),
            final(self)@ == old(self)@.failed(CycleStatus::Dropped, stage, reason@),
    {
        self.record_error(CycleStatus::Dropped, stage, reason.to_owned());
    }

    /// The line that is logged for the slot.
    pub fn emit(
        &self,
        slot_start: Timestamp,
        mode: DecoderMode,
        decode_profile: DecodeProfile,
        tx_margin_ms: Option<i128>,
    ) -> (r: DecodeCycleLine)
        requires
            self.wf(),
            clock::displayable(slot_start),
        ensures
            line_tells(r, self@, slot_start, mode, decode_profile, tx_margin_ms),
    {
        DecodeCycleLine {
            slot: slots::format_slot_time_for_mode(mode, slot_start),
            mode: mode.as_str(),
            decode_profile: decode_profile.as_str(),
            status: match self.status {
                Some(status) => status.as_str(),
                None => "ok",
            },
            early41: stage_line(self.early41),
            early47: stage_line(self.early47),
            full: stage_line(self.full),
            tx_margin_ms: match tx_margin_ms {
                Some(m) => m,
                None => -1,
            },
            error_stage: match self.error_stage {
                Some(stage) => stage.as_str(),
                None => "",
            },
            error_message: match &self.error_message {
                Some(message) => message.clone(),
                None => "".to_owned(),
            },
        }
    }
}

/// What is noted of a stage does not touch what is noted of another, and times and number of
/// messages of one stage are kept apart.
pub proof fn law_stages_are_noted_apart(
    cycle: CycleModel,
    stage: DecodeStage,
    other: DecodeStage,
    wall: u128,
    wait: u128,
    run: u128,
    count: usize,
)
    ensures
        ({
            let timed = cycle.timed(stage, wall, wait, run);
            let counted = cycle.counted(stage, count);
            &&& (timed.stages)(stage).wall_ms == Some(wall)
            &&& (timed.stages)(stage).worker_wait_ms == Some(wait)
            &&& (timed.stages)(stage).decode_run_ms == Some(run)
            &&& (timed.stages)(stage).decode_count == (cycle.stages)(stage).decode_count
            &&& (counted.stages)(stage).decode_count == Some(count)
            &&& (counted.stages)(stage).wall_ms == (cycle.stages)(stage).wall_ms
            &&& (counted.stages)(stage).worker_wait_ms == (cycle.stages)(stage).worker_wait_ms
            &&& (counted.stages)(stage).decode_run_ms == (cycle.stages)(stage).decode_run_ms
            &&& other != stage ==> (timed.stages)(other) == (cycle.stages)(other)
                && (counted.stages)(other) == (cycle.stages)(other)
            &&& timed.error == cycle.error && counted.error == cycle.error
        }),
{
}

/// The line of a slot has minus one for every number that was not noted, and says `ok` unless
/// something failed.
pub proof fn law_line_of_a_slot(
    line: DecodeCycleLine,
    cycle: CycleModel,
    slot_start: Timestamp,
    mode: DecoderMode,
    profile: DecodeProfile,
    tx_margin_ms: Option<i128>,
)
    requires
        line_tells(line, cycle, slot_start, mode, profile, tx_margin_ms),
    ensures
        (cycle.stages)(DecodeStage::Full).wall_ms is None ==> line.full.wall_ms == -1,
        (cycle.stages)(DecodeStage::Full).decode_count is None ==> line.full.decode_count == -1,
        (cycle.stages)(DecodeStage::Full).wall_ms matches Some(ms) ==> (ms <= i128::MAX
            ==> line.full.wall_ms == ms),
        (cycle.stages)(DecodeStage::Early41).wall_ms matches Some(ms) ==> (ms <= i128::MAX
            ==> line.early41.wall_ms == ms),
        (cycle.stages)(DecodeStage::Early47).wall_ms matches Some(ms) ==> (ms <= i128::MAX
            ==> line.early47.wall_ms == ms),
        tx_margin_ms is None ==> line.tx_margin_ms == -1,
        tx_margin_ms matches Some(ms) ==> line.tx_margin_ms == ms,
        cycle.error is None ==> line.status@ == "ok"@,
        cycle.error matches Some((status, stage, message)) ==> line.error_message@ == message && (
        line.status@ == "decode_failed"@ <==> status == CycleStatus::DecodeFailed) && (line.status@
            == "capture_failed"@ <==> status == CycleStatus::CaptureFailed) && (line.status@
            == "dropped"@ <==> status == CycleStatus::Dropped),
{
    reveal_strlit("decode_failed");
    reveal_strlit("capture_failed");
    reveal_strlit("dropped");
    assert("decode_failed"@.len() == 13 && "capture_failed"@.len() == 14 && "dropped"@.len() == 7);
    if let Some((status, stage, message)) = cycle.error {
        assert(line.status@ == status.name());
    }
}

} // verus!
