//! What the receiver does as slots pass: what is decoded next, and what becomes of what was decoded.

use std::collections::VecDeque;

use vstd::prelude::*;
use vstd::string::*;

use crate::api;
use crate::bandmap;
use crate::bandmap::BandMapStore;
use crate::clock;
use crate::clock::Timestamp;
use crate::control::QueueCommand;
use crate::decode_log;
use crate::decode_log::{CycleStatus, DecodeCycleLine, DecodeCycleLogState};
use crate::dispatch;
use crate::floats;
use crate::message::{DecodedMessage, FloatBits};
use crate::qso::QueueRetryDelayKind;
use crate::queue;
use crate::queue::{QueueModel, WorkQueueState};
use crate::rows::StageDecodes;
use crate::slots;
use crate::slots::{
    ActiveDecodeJob, ClockError, DecodeProfile, DecodeStage, DecoderMode, SlotFamily,
    SlotStageState, StageSamples,
};
use crate::text;
use crate::tracker;
use crate::tracker::{StationTracker, TrackerModel, WebDirectCallLog};
use crate::tracker_laws;

verus! {

/// How many slots the statistics of time offsets go back.
pub const DT_HISTORY_FRAMES: usize = 40;

/// How long the stages of the last slot took, and what was left until transmission.
#[derive(Clone, Copy, Debug, PartialEq, Eq, Structural)]
pub struct DecodeTimes {
    pub early41_wall_ms: Option<u128>,
    pub early47_wall_ms: Option<u128>,
    pub full_wall_ms: Option<u128>,
    pub last_decode_wall_ms: Option<u128>,
    pub tx_margin_ms: Option<i128>,
}

impl DecodeTimes {
    pub open spec fn blank() -> DecodeTimes {
        DecodeTimes {
            early41_wall_ms: None,
            early47_wall_ms: None,
            full_wall_ms: None,
            last_decode_wall_ms: None,
            tx_margin_ms: None,
        }
    }

    /// The times once a stage has been decoded.
    pub open spec fn with(self, stage: DecodeStage, wall_ms: u128) -> DecodeTimes {
        match stage {
            DecodeStage::Early41 => DecodeTimes { early41_wall_ms: Some(wall_ms), ..self },
            DecodeStage::Early47 => DecodeTimes { early47_wall_ms: Some(wall_ms), ..self },
            DecodeStage::Full => DecodeTimes {
                full_wall_ms: Some(wall_ms),
                last_decode_wall_ms: Some(wall_ms),
                ..self
            },
        }
    }

    fn none() -> (r: DecodeTimes)
        ensures
            r == DecodeTimes::blank(),
    {
        DecodeTimes {
            early41_wall_ms: None,
            early47_wall_ms: None,
            full_wall_ms: None,
            last_decode_wall_ms: None,
            tx_margin_ms: None,
        }
    }
}

#[derive(Debug)]
pub struct ReceiverState {
    pub app_mode: DecoderMode,
    pub decode_profile: DecodeProfile,
    pub next_slot: Timestamp,
    pub next_slot_stages: SlotStageState,
    pub decode_cycle_log: DecodeCycleLogState,
    pub active_decode: Option<ActiveDecodeJob>,
    pub times: DecodeTimes,
    pub dropped_slots: u64,
    pub last_slot_start: Option<Timestamp>,
    pub decodes: StageDecodes,
    pub decode_status: String,
    pub slot_direct_skip_start: Option<Timestamp>,
    pub slot_direct_skip_calls: Vec<String>,
}

pub open spec fn no_decodes(decodes: StageDecodes) -> bool {
    decodes.early41@.len() == 0 && decodes.early47@.len() == 0 && decodes.full@.len() == 0
}

fn clear_decodes(decodes: &mut StageDecodes)
    ensures
        no_decodes(*final(decodes)),
{
    decodes.early41.clear();
    decodes.early47.clear();
    decodes.full.clear();
}

/// No stage has been taken care of.
pub open spec fn all_open(stages: SlotStageState) -> bool {
    forall|stage: DecodeStage| !stages.handled(stage)
}

/// The stages with one more taken care of.
pub open spec fn marked(before: SlotStageState, after: SlotStageState, stage: DecodeStage) -> bool {
    forall|s: DecodeStage| after.handled(s) == (s == stage || before.handled(s))
}

impl ReceiverState {
    pub open spec fn wf(&self) -> bool {
        self.decode_cycle_log.wf()
    }

    /// The receiver can go on to the slot after the next.
    pub open spec fn can_advance(&self) -> bool {
        self.next_slot + slots::slot_nanos(self.app_mode) <= slots::LAST_INSTANT
    }

    pub fn new(app_mode: DecoderMode, decode_profile: DecodeProfile, now: Timestamp) -> (r: Self)
        ensures
            r.wf(),
            r.app_mode == app_mode,
            r.decode_profile == decode_profile,
            r.next_slot == slots::next_boundary(app_mode, now),
            all_open(r.next_slot_stages),
            r.decode_cycle_log@ == decode_log::blank_cycle(None, None),
            r.active_decode is None,
            r.times == DecodeTimes::blank(),
            r.dropped_slots == 0,
            r.last_slot_start is None,
            no_decodes(r.decodes),
            r.decode_status@ == "Idle"@,
            r.slot_direct_skip_start is None,
            r.slot_direct_skip_calls@.len() == 0,
    {
        ReceiverState {
            app_mode,
            decode_profile,
            next_slot: slots::next_slot_boundary_for_mode(app_mode, now),
            next_slot_stages: SlotStageState::new(),
            decode_cycle_log: DecodeCycleLogState::new(),
            active_decode: None,
            times: DecodeTimes::none(),
            dropped_slots: 0,
            last_slot_start: None,
            decodes: StageDecodes { early41: Vec::new(), early47: Vec::new(), full: Vec::new() },
            decode_status: "Idle".to_owned(),
            slot_direct_skip_start: None,
            slot_direct_skip_calls: Vec::new(),
        }
    }

    /// The stage to decode next, once its samples are there.
    pub fn next_due_stage(
        &self,
        timing: StageSamples,
        latest_sample_time: Option<Timestamp>,
    ) -> (r: Option<DecodeStage>)
        ensures
            r == (match (
                latest_sample_time,
                self.next_slot_stages.first_open(self.app_mode, self.decode_profile),
            ) {
                (Some(latest), Some(stage)) => match slots::stage_end(
                    timing,
                    self.next_slot,
                    stage,
                ) {
                    Some(end) if latest >= end => Some(stage),
                    _ => None,
                },
                _ => None,
            }),
    {
        self.next_slot_stages.next_due_stage(
            self.app_mode,
            self.decode_profile,
            timing,
            self.next_slot,
            latest_sample_time,
        )
    }

    /// Begins a stage of the next slot; when its samples end.
    pub fn begin_stage(
        &mut self,
        timing: StageSamples,
        stage: DecodeStage,
    ) -> (r: Result<Timestamp, ClockError>)
        requires
            old(self).wf(),
        ensures
            final(self).wf(),
            *final(self) == (ReceiverState {
                decode_cycle_log: final(self).decode_cycle_log,
                ..*old(self)
            }),
            final(self).decode_cycle_log@ == (if old(self).decode_cycle_log@.slot == Some(
                old(self).next_slot,
            ) && old(self).decode_cycle_log@.mode == Some(old(self).app_mode) {
                old(self).decode_cycle_log@
            } else {
                decode_log::blank_cycle(Some(old(self).next_slot), Some(old(self).app_mode))
            }),
            r == (match slots::stage_end(timing, old(self).next_slot, stage) {
                Some(t) => Ok::<Timestamp, ClockError>(t),
                None => Err(ClockError),
            }),
    {
        self.decode_cycle_log.begin(self.next_slot, self.app_mode);
        slots::stage_capture_end(timing, self.next_slot, stage)
    }

    /// Goes on to the slot after the next.
    fn advance(&mut self)
        requires
            old(self).wf(),
            old(self).can_advance(),
        ensures
            final(self).wf(),
            all_open(final(self).next_slot_stages),
            *final(self) == (ReceiverState {
                next_slot: (old(self).next_slot + slots::slot_nanos(old(self).app_mode)) as i128,
                next_slot_stages: final(self).next_slot_stages,
                ..*old(self)
            }),
    {
        let step: u128 = slots::slot_duration_for_mode(self.app_mode);
        self.next_slot = self.next_slot + step as i128;
        self.next_slot_stages = SlotStageState::new();
    }

    /// Closes the record of a slot; the line that is logged for it.
    fn close_cycle(
        &mut self,
        slot_start: Timestamp,
        mode: DecoderMode,
        tx_margin_ms: Option<i128>,
    ) -> (line: DecodeCycleLine)
        requires
            old(self).wf(),
            clock::displayable(slot_start),
        ensures
            final(self).wf(),
            *final(self) == (ReceiverState {
                decode_cycle_log: final(self).decode_cycle_log,
                ..*old(self)
            }),
            final(self).decode_cycle_log@ == decode_log::blank_cycle(None, None),
            decode_log::line_tells(
                line,
                old(self).decode_cycle_log@,
                slot_start,
                mode,
                old(self).decode_profile,
                tx_margin_ms,
            ),
    {
        let line = self.decode_cycle_log.emit(slot_start, mode, self.decode_profile, tx_margin_ms);
        self.decode_cycle_log.reset();
        line
    }

    /// The samples of a stage could not be had. With the last stage the slot is given up.
    pub fn capture_failed(
        &mut self,
        stage: DecodeStage,
        error: &str,
    ) -> (line: Option<DecodeCycleLine>)
        requires
            old(self).wf(),
            clock::displayable(old(self).next_slot),
            stage == DecodeStage::Full ==> old(self).can_advance(),
        ensures
            final(self).wf(),
            final(self).app_mode == old(self).app_mode,
            final(self).decode_profile == old(self).decode_profile,
            final(self).active_decode == old(self).active_decode,
            final(self).slot_direct_skip_start == old(self).slot_direct_skip_start,
            final(self).slot_direct_skip_calls == old(self).slot_direct_skip_calls,
            final(self).dropped_slots == old(self).dropped_slots,
            final(self).decode_status@ == "Capture error for "@ + slots::stage_label(stage) + " "@
                + slots::slot_label(old(self).app_mode, old(self).next_slot) + ": "@ + error@,
            ({
                let cycle = old(self).decode_cycle_log@.failed(
                    CycleStatus::CaptureFailed,
                    stage,
                    error@,
                );
                if stage == DecodeStage::Full {
                    &&& line matches Some(l) && decode_log::line_tells(
                        l,
                        cycle,
                        old(self).next_slot,
                        old(self).app_mode,
                        old(self).decode_profile,
                        None,
                    )
                    &&& final(self).decode_cycle_log@ == decode_log::blank_cycle(None, None)
                    &&& final(self).last_slot_start == Some(old(self).next_slot)
                    &&& no_decodes(final(self).decodes)
                    &&& final(self).times == (DecodeTimes {
                        tx_margin_ms: None,
                        ..old(self).times
                    })
                    &&& final(self).next_slot == old(self).next_slot + slots::slot_nanos(
                        old(self).app_mode,
                    )
                    &&& all_open(final(self).next_slot_stages)
                } else {
                    &&& line is None
                    &&& final(self).decode_cycle_log@ == cycle
                    &&& final(self).last_slot_start == old(self).last_slot_start
                    &&& final(self).decodes == old(self).decodes
                    &&& final(self).times == old(self).times
                    &&& final(self).next_slot == old(self).next_slot
                    &&& marked(old(self).next_slot_stages, final(self).next_slot_stages, stage)
                }
            }),
    {
        let slot_start: i128 = self.next_slot;
        let app_mode = self.app_mode;
        let slot = slots::format_slot_time_for_mode(app_mode, slot_start);
        let mut status = text::cat3(
            "Capture error for ",
            slots::stage_display_label(app_mode, stage),
            " ",
        );
        status.append(slot.as_str());
        status.append(": ");
        status.append(error);
        self.decode_status = status;
        self.decode_cycle_log.record_capture_failed(stage, error.to_owned());
        self.next_slot_stages.mark_handled(stage);
        if stage == DecodeStage::Full {
            self.last_slot_start = Some(slot_start);
            clear_decodes(&mut self.decodes);
            self.times.tx_margin_ms = None;
            let line = self.close_cycle(slot_start, app_mode, None);
            self.advance();
            Some(line)
        } else {
            None
        }
    }

    /// A stage has been handed to the decoder. With the first stage what was shown of the last slot
    /// goes; with the last the receiver goes on to the slot after it.
    pub fn job_sent(&mut self, stage: DecodeStage)
        requires
            old(self).wf(),
            stage == DecodeStage::Full ==> old(self).can_advance(),
        ensures
            final(self).wf(),
            final(self).app_mode == old(self).app_mode,
            final(self).decode_profile == old(self).decode_profile,
            final(self).decode_cycle_log == old(self).decode_cycle_log,
            final(self).dropped_slots == old(self).dropped_slots,
            final(self).last_slot_start == old(self).last_slot_start,
            final(self).decode_status == old(self).decode_status,
            final(self).slot_direct_skip_start == old(self).slot_direct_skip_start,
            final(self).slot_direct_skip_calls == old(self).slot_direct_skip_calls,
            final(self).active_decode == Some(
                ActiveDecodeJob { slot_start: old(self).next_slot, stage },
            ),
            if stage == DecodeStage::Early41 {
                final(self).times == DecodeTimes::blank() && no_decodes(final(self).decodes)
            } else {
                final(self).times == old(self).times && final(self).decodes == old(self).decodes
            },
            if stage == DecodeStage::Full {
                final(self).next_slot == old(self).next_slot + slots::slot_nanos(old(self).app_mode)
                    && all_open(final(self).next_slot_stages)
            } else {
                final(self).next_slot == old(self).next_slot && marked(
                    old(self).next_slot_stages,
                    final(self).next_slot_stages,
                    stage,
                )
            },
    {
        self.next_slot_stages.mark_handled(stage);
        if stage == DecodeStage::Early41 {
            self.times = DecodeTimes::none();
            clear_decodes(&mut self.decodes);
        }
        self.active_decode = Some(ActiveDecodeJob { slot_start: self.next_slot, stage });
        if stage == DecodeStage::Full {
            self.advance();
        }
    }

    /// The decoder was busy, so a stage is passed over. With the last stage the slot is lost.
    pub fn job_dropped(&mut self, stage: DecodeStage) -> (line: Option<DecodeCycleLine>)
        requires
            old(self).wf(),
            stage == DecodeStage::Full ==> old(self).can_advance() && old(self).dropped_slots
                < u64::MAX && clock::displayable(old(self).next_slot) && clock::displayable(
                (old(self).next_slot + slots::slot_nanos(old(self).app_mode)) as i128,
            ),
        ensures
            final(self).wf(),
            final(self).app_mode == old(self).app_mode,
            final(self).decode_profile == old(self).decode_profile,
            final(self).active_decode == old(self).active_decode,
            final(self).slot_direct_skip_start == old(self).slot_direct_skip_start,
            final(self).slot_direct_skip_calls == old(self).slot_direct_skip_calls,
            ({
                let cycle = old(self).decode_cycle_log@.failed(
                    CycleStatus::Dropped,
                    stage,
                    "decode_worker_busy"@,
                );
                if stage == DecodeStage::Full {
                    &&& line matches Some(l) && decode_log::line_tells(
                        l,
                        cycle,
                        old(self).next_slot,
                        old(self).app_mode,
                        old(self).decode_profile,
                        None,
                    )
                    &&& final(self).decode_cycle_log@ == decode_log::blank_cycle(None, None)
                    &&& final(self).dropped_slots == old(self).dropped_slots + 1
                    &&& final(self).decode_status@ == "capture=active decode=busy dropping="@
                        + slots::slot_label(old(self).app_mode, old(self).next_slot) + (" drops="@
                        + text::decimal((old(self).dropped_slots + 1) as nat)) + (" next="@
                        + slots::slot_label(old(self).app_mode, final(self).next_slot))
                    &&& final(self).last_slot_start == Some(old(self).next_slot)
                    &&& no_decodes(final(self).decodes)
                    &&& final(self).times == (DecodeTimes {
                        tx_margin_ms: None,
                        ..old(self).times
                    })
                    &&& final(self).next_slot == old(self).next_slot + slots::slot_nanos(
                        old(self).app_mode,
                    )
                    &&& all_open(final(self).next_slot_stages)
                } else {
                    &&& line is None
                    &&& final(self).decode_cycle_log@ == cycle
                    &&& final(self).dropped_slots == old(self).dropped_slots
                    &&& final(self).decode_status == old(self).decode_status
                    &&& final(self).last_slot_start == old(self).last_slot_start
                    &&& final(self).decodes == old(self).decodes
                    &&& final(self).times == old(self).times
                    &&& final(self).next_slot == old(self).next_slot
                    &&& marked(old(self).next_slot_stages, final(self).next_slot_stages, stage)
                }
            }),
    {
        let slot_start: i128 = self.next_slot;
        let app_mode = self.app_mode;
        self.next_slot_stages.mark_handled(stage);
        self.decode_cycle_log.record_dropped(stage, "decode_worker_busy");
        if stage == DecodeStage::Full {
            self.dropped_slots = self.dropped_slots + 1;
            self.last_slot_start = Some(slot_start);
            clear_decodes(&mut self.decodes);
            self.times.tx_margin_ms = None;
            let line = self.close_cycle(slot_start, app_mode, None);
            self.advance();
            let mut status = text::cat2(
                "capture=active decode=busy dropping=",
                slots::format_slot_time_for_mode(app_mode, slot_start).as_str(),
            );
            status.append(
                text::cat2(" drops=", text::decimal_text(self.dropped_slots).as_str()).as_str(),
            );
            status.append(
                text::cat2(
                    " next=",
                    slots::format_slot_time_for_mode(app_mode, self.next_slot).as_str(),
                ).as_str(),
            );
            self.decode_status = status;
            Some(line)
        } else {
            None
        }
    }
}

/// What the decoder has found in a stage, or why it failed, and how long it took.
#[derive(Debug)]
pub struct DecodeEvent {
    pub slot_start: Timestamp,
    pub mode: DecoderMode,
    pub stage: DecodeStage,
    pub wall_ms: u128,
    pub worker_wait_ms: u128,
    pub decode_run_ms: u128,
    pub result: Result<Vec<DecodedMessage>, String>,
}

/// The calls that are passed over in a slot: those that were our partners at any stage of it.
pub open spec fn skipped_in(
    slot: Option<Timestamp>,
    calls: Seq<Seq<char>>,
    slot_start: Timestamp,
    partner: Option<Seq<char>>,
) -> Seq<Seq<char>> {
    let kept = if slot == Some(slot_start) {
        calls
    } else {
        Seq::empty()
    };
    match partner {
        Some(p) => text::sorted_with(kept, p),
        None => kept,
    }
}

/// The messages of the stage are in place of those that were there; the other stages keep theirs.
pub open spec fn stage_replaced(
    before: StageDecodes,
    after: StageDecodes,
    stage: DecodeStage,
    decodes: Seq<DecodedMessage>,
) -> bool {
    match stage {
        DecodeStage::Early41 => after.early41@ == decodes && after.early47 == before.early47
            && after.full == before.full,
        DecodeStage::Early47 => after.early41 == before.early41 && after.early47@ == decodes
            && after.full == before.full,
        DecodeStage::Full => after.early41 == before.early41 && after.early47 == before.early47
            && after.full@ == decodes,
    }
}

/// What the end of a decoding job makes of the receiver.
pub open spec fn decode_taken(
    before: ReceiverState,
    after: ReceiverState,
    event: DecodeEvent,
    partner: Option<Seq<char>>,
    margin: Result<i128, ClockError>,
    line: Option<DecodeCycleLine>,
) -> bool {
    let timed = before.decode_cycle_log@.timed(
        event.stage,
        event.wall_ms,
        event.worker_wait_ms,
        event.decode_run_ms,
    );
    let margin_known = match margin {
        Ok(m) => Some(m),
        Err(_) => None,
    };
    &&& after.app_mode == before.app_mode
    &&& after.decode_profile == before.decode_profile
    &&& after.next_slot == before.next_slot
    &&& after.next_slot_stages == before.next_slot_stages
    &&& after.dropped_slots == before.dropped_slots
    &&& after.active_decode is None
    &&& after.slot_direct_skip_start == Some(event.slot_start)
    &&& text::texts(after.slot_direct_skip_calls@) == skipped_in(
        before.slot_direct_skip_start,
        text::texts(before.slot_direct_skip_calls@),
        event.slot_start,
        partner,
    )
    &&& match event.result {
        Ok(decodes) => {
            let cycle = timed.counted(event.stage, decodes@.len() as usize);
            &&& after.decode_status == before.decode_status
            &&& stage_replaced(before.decodes, after.decodes, event.stage, decodes@)
            &&& if event.stage == DecodeStage::Full {
                &&& after.last_slot_start == Some(event.slot_start)
                &&& after.times == (DecodeTimes {
                    tx_margin_ms: margin_known,
                    ..before.times.with(event.stage, event.wall_ms)
                })
                &&& after.decode_cycle_log@ == decode_log::blank_cycle(None, None)
                &&& line matches Some(l) && decode_log::line_tells(
                    l,
                    cycle,
                    event.slot_start,
                    event.mode,
                    before.decode_profile,
                    margin_known,
                )
            } else {
                &&& after.last_slot_start == before.last_slot_start
                &&& after.times == before.times.with(event.stage, event.wall_ms)
                &&& after.decode_cycle_log@ == cycle
                &&& line is None
            }
        },
        Err(error) => {
            let cycle = timed.failed(CycleStatus::DecodeFailed, event.stage, error@);
            &&& after.decode_status@ == "Last "@ + slots::stage_label(event.stage) + " "@
                + slots::slot_label(before.app_mode, event.slot_start) + " failed: "@ + error@
            &&& if event.stage == DecodeStage::Full {
                &&& after.last_slot_start == Some(event.slot_start)
                &&& no_decodes(after.decodes)
                &&& after.times == (DecodeTimes {
                    tx_margin_ms: margin_known,
                    ..before.times.with(event.stage, event.wall_ms)
                })
                &&& after.decode_cycle_log@ == decode_log::blank_cycle(None, None)
                &&& line matches Some(l) && decode_log::line_tells(
                    l,
                    cycle,
                    event.slot_start,
                    event.mode,
                    before.decode_profile,
                    margin_known,
                )
            } else {
                &&& after.last_slot_start == before.last_slot_start
                &&& after.decodes == before.decodes
                &&& after.times == before.times
                &&& after.decode_cycle_log@ == cycle
                &&& line is None
            }
        },
    }
}

/// What the receiver answers when a decoding job has ended.
#[derive(Debug)]
pub enum DecodeOutcome {
    /// The receiver has gone to another mode since.
    Outdated,
    /// The result was taken; with the last stage a line is logged.
    Taken(Option<DecodeCycleLine>),
    /// The time of the next transmission cannot be told.
    Clock,
}

impl ReceiverState {
    fn note_skipped(&mut self, slot_start: Timestamp, active_partner: Option<&str>)
        requires
            old(self).wf(),
        ensures
            final(self).wf(),
            *final(self) == (ReceiverState {
                slot_direct_skip_start: Some(slot_start),
                slot_direct_skip_calls: final(self).slot_direct_skip_calls,
                ..*old(self)
            }),
            text::texts(final(self).slot_direct_skip_calls@) == skipped_in(
                old(self).slot_direct_skip_start,
                text::texts(old(self).slot_direct_skip_calls@),
                slot_start,
                text::str_opt(active_partner),
            ),
    {
        let same = match self.slot_direct_skip_start {
            Some(t) => t == slot_start,
            None => false,
        };
        if !same {
            self.slot_direct_skip_start = Some(slot_start);
            self.slot_direct_skip_calls.clear();
            assert(text::texts(self.slot_direct_skip_calls@) =~= Seq::<Seq<char>>::empty());
        }
        if let Some(partner) = active_partner {
            text::insert_sorted(&mut self.slot_direct_skip_calls, partner.to_owned());
        }
    }

    fn note_times(&mut self, stage: DecodeStage, wall_ms: u128)
        requires
            old(self).wf(),
        ensures
            final(self).wf(),
            *final(self) == (ReceiverState {
                times: old(self).times.with(stage, wall_ms),
                ..*old(self)
            }),
    {
        match stage {
            DecodeStage::Early41 => self.times.early41_wall_ms = Some(wall_ms),
            DecodeStage::Early47 => self.times.early47_wall_ms = Some(wall_ms),
            DecodeStage::Full => {
                self.times.full_wall_ms = Some(wall_ms);
                self.times.last_decode_wall_ms = Some(wall_ms);
            },
        }
    }

    fn replace_stage(&mut self, stage: DecodeStage, decodes: Vec<DecodedMessage>)
        requires
            old(self).wf(),
        ensures
            final(self).wf(),
            *final(self) == (ReceiverState { decodes: final(self).decodes, ..*old(self) }),
            stage_replaced(old(self).decodes, final(self).decodes, stage, decodes@),
    {
        match stage {
            DecodeStage::Early41 => self.decodes.early41 = decodes,
            DecodeStage::Early47 => self.decodes.early47 = decodes,
            DecodeStage::Full => self.decodes.full = decodes,
        }
    }

    /// Takes the end of a decoding job. `tx_start` is when the transmitter is keyed for the slot
    /// after the one that was decoded. A whole slot that was decoded is not taken where the time
    /// that was left cannot be told.
    pub fn decode_finished(
        &mut self,
        event: DecodeEvent,
        active_partner: Option<&str>,
        timing: StageSamples,
        tx_start: Timestamp,
    ) -> (r: DecodeOutcome)
        requires
            old(self).wf(),
            event.wall_ms <= i128::MAX,
            clock::displayable(event.slot_start),
        ensures
            final(self).wf(),
            ({
                let margin = slots::tx_margin(
                    timing,
                    old(self).app_mode,
                    event.slot_start,
                    event.stage,
                    event.wall_ms,
                    tx_start,
                );
                if event.mode != old(self).app_mode {
                    r is Outdated && *final(self) == *old(self)
                } else if event.result is Ok && event.stage == DecodeStage::Full && margin is Err {
                    r is Clock && *final(self) == *old(self)
                } else {
                    r matches DecodeOutcome::Taken(line) && decode_taken(
                        *old(self),
                        *final(self),
                        event,
                        text::str_opt(active_partner),
                        margin,
                        line,
                    )
                }
            }),
    {
        if event.mode != self.app_mode {
            return DecodeOutcome::Outdated;
        }
        let stage = event.stage;
        let margin = slots::tx_margin_after_stage_decode_ms(
            timing,
            self.app_mode,
            event.slot_start,
            stage,
            event.wall_ms,
            tx_start,
        );
        let margin_known: Option<i128> = match margin {
            Ok(m) => Some(m),
            Err(_) => None,
        };
        if event.result.is_ok() && stage == DecodeStage::Full && margin_known.is_none() {
            return DecodeOutcome::Clock;
        }
        self.active_decode = None;
        self.note_skipped(event.slot_start, active_partner);
        match event.result {
            Ok(decodes) => {
                self.decode_cycle_log.record_ok(
                    stage,
                    event.wall_ms,
                    event.worker_wait_ms,
                    event.decode_run_ms,
                    decodes.len(),
                );
                self.note_times(stage, event.wall_ms);
                self.replace_stage(stage, decodes);
                if stage == DecodeStage::Full {
                    self.last_slot_start = Some(event.slot_start);
                    self.times.tx_margin_ms = margin_known;
                    let line = self.close_cycle(event.slot_start, event.mode, margin_known);
                    DecodeOutcome::Taken(Some(line))
                } else {
                    DecodeOutcome::Taken(None)
                }
            },
            Err(error) => {
                let mut status = text::cat3("Last ", slots::stage_display_label(self.app_mode, stage), " ");
                status.append(
                    slots::format_slot_time_for_mode(self.app_mode, event.slot_start).as_str(),
                );
                status.append(" failed: ");
                status.append(error.as_str());
                self.decode_status = status;
                self.decode_cycle_log.record_decode_failed(
                    stage,
                    event.wall_ms,
                    event.worker_wait_ms,
                    event.decode_run_ms,
                    error,
                );
                if stage == DecodeStage::Full {
                    self.last_slot_start = Some(event.slot_start);
                    self.note_times(stage, event.wall_ms);
                    clear_decodes(&mut self.decodes);
                    self.times.tx_margin_ms = margin_known;
                    let line = self.close_cycle(event.slot_start, event.mode, margin_known);
                    DecodeOutcome::Taken(Some(line))
                } else {
                    DecodeOutcome::Taken(None)
                }
            },
        }
    }
}

/// Whether the decoder has to start afresh for a job: in another slot or mode, and for a whole FT8
/// slot whose second stage it has not decoded.
pub fn session_reset_needed(
    session_slot: Option<Timestamp>,
    session_mode: DecoderMode,
    early47_decoded: bool,
    slot_start: Timestamp,
    mode: DecoderMode,
    stage: DecodeStage,
) -> (r: bool)
    ensures
        r == ((mode == DecoderMode::Ft8 && stage == DecodeStage::Full && !early47_decoded)
            || session_slot != Some(slot_start) || session_mode != mode),
{
    let same_slot = match session_slot {
        Some(t) => t == slot_start,
        None => false,
    };
    (mode == DecoderMode::Ft8 && stage == DecodeStage::Full && !early47_decoded) || !same_slot
        || session_mode != mode
}

/// The frames with a new one at the end; where there are enough, the oldest goes.
pub open spec fn with_frame(
    frames: Seq<Vec<FloatBits>>,
    frame: Vec<FloatBits>,
) -> Seq<Vec<FloatBits>> {
    (if frames.len() == DT_HISTORY_FRAMES {
        frames.drop_first()
    } else {
        frames
    }).push(frame)
}

pub fn push_dt_frame(frames: &mut VecDeque<Vec<FloatBits>>, frame: Vec<FloatBits>)
    ensures
        final(frames)@ == with_frame(old(frames)@, frame),
{
    if frames.len() == DT_HISTORY_FRAMES {
        let _ = frames.pop_front();
        assert(frames@ =~= old(frames)@.drop_first());
    }
    frames.push_back(frame);
}

/// The time offsets of the messages.
pub fn dt_frame(decodes: &[DecodedMessage]) -> (r: Vec<FloatBits>)
    ensures
        r@ == decodes@.map_values(|d: DecodedMessage| d.dt_seconds),
{
    let ghost offset = |d: DecodedMessage| d.dt_seconds;
    let mut r: Vec<FloatBits> = Vec::new();
    let mut i: usize = 0;
    while i < decodes.len()
        invariant
            i <= decodes@.len(),
            offset == (|d: DecodedMessage| d.dt_seconds),
            r@ == decodes@.take(i as int).map_values(offset),
        decreases decodes@.len() - i,
    {
        r.push(decodes[i].dt_seconds);
        assert(decodes@.take(i + 1) =~= decodes@.take(i as int).push(decodes@[i as int]));
        assert(r@ =~= decodes@.take(i + 1).map_values(offset));
        i += 1;
    }
    assert(decodes@.take(i as int) =~= decodes@);
    r
}

/// Takes the messages of a stage into the tracker; those of a whole slot also onto the band map and,
/// where that is switched on, into the queue. Direct calls that are too old for the tracker go to
/// `past_calls`.
pub fn absorb_stage(
    tracker: &mut StationTracker,
    past_calls: &mut Vec<WebDirectCallLog>,
    bandmaps: &mut BandMapStore,
    work_queue: &mut WorkQueueState,
    app_mode: DecoderMode,
    slot_start: Timestamp,
    stage: DecodeStage,
    decodes: &[DecodedMessage],
    our_call: &str,
    active_partner: Option<&str>,
)
    requires
        old(tracker).wf(),
        old(bandmaps).wf(),
        old(work_queue).wf(),
        tracker::tracker_displayable(old(tracker)@),
        clock::displayable(slot_start),
    ensures
        final(tracker).wf(),
        final(bandmaps).wf(),
        final(work_queue).wf(),
        tracker::tracker_displayable(final(tracker)@),
        final(tracker)@ == tracker::ingested(old(tracker)@, slot_start, stage, decodes@),
        tracker::direct_models(final(past_calls)@) == tracker::direct_models(old(past_calls)@)
            + tracker::aged_calls(
            tracker::heard_stage(old(tracker)@, slot_start, stage, decodes@),
            our_call@,
            slot_start,
        ),
        stage == DecodeStage::Full ==> final(bandmaps)@ == bandmap::updated(
            old(bandmaps)@,
            app_mode,
            slot_start,
            decodes@,
        ),
        stage != DecodeStage::Full ==> final(bandmaps)@ == old(bandmaps)@,
        final(work_queue)@ == (if stage == DecodeStage::Full && old(work_queue)@.auto_add_all {
            dispatch::with_all_heard(
                old(work_queue)@,
                final(tracker)@,
                dispatch::senders_among(decodes@, text::str_opt(active_partner)),
                slot_start,
            )
        } else {
            old(work_queue)@
        }),
{
    proof {
        tracker_laws::law_hearing_keeps_times_displayable(tracker@, slot_start, stage, decodes@);
        tracker_laws::law_ingest_keeps_times_displayable(tracker@, slot_start, stage, decodes@);
    }
    tracker.hear_stage(slot_start, stage, decodes);
    append_calls(past_calls, tracker.aged_direct_calls(our_call, slot_start));
    tracker.prune(slot_start);
    if stage == DecodeStage::Full {
        bandmap::update_bandmaps(bandmaps, app_mode, slot_start, decodes);
        dispatch::maybe_auto_add_decoded_calls(
            work_queue,
            tracker,
            active_partner,
            decodes,
            slot_start,
        );
    }
}

fn append_calls(calls: &mut Vec<WebDirectCallLog>, more: Vec<WebDirectCallLog>)
    ensures
        tracker::direct_models(final(calls)@) == tracker::direct_models(old(calls)@)
            + tracker::direct_models(more@),
{
    let mut more = more;
    let ghost added = more@;
    calls.append(&mut more);
    assert(tracker::direct_models(calls@) =~= tracker::direct_models(old(calls)@)
        + tracker::direct_models(added));
}

/// The queue that has been emptied.
pub open spec fn emptied(queue: QueueModel) -> QueueModel {
    QueueModel {
        entries: Seq::empty(),
        status: if queue.auto_enabled {
            "queue empty"@
        } else {
            "auto disabled"@
        },
        ..queue
    }
}

/// The rig has been set to a band and a mode. Where either is another than before, everything that
/// was heard is forgotten, the queue and the band maps are emptied, and the receiver starts afresh
/// with the next slot. Which stations were worked on which band is kept, and the direct calls go to
/// `past_calls`.
pub fn change_context(
    receiver: &mut ReceiverState,
    tracker: &mut StationTracker,
    past_calls: &mut Vec<WebDirectCallLog>,
    work_queue: &mut WorkQueueState,
    bandmaps: &mut BandMapStore,
    previous_band: Option<&str>,
    current_band: Option<String>,
    app_mode: DecoderMode,
    our_call: &str,
    now: Timestamp,
) -> (changed: bool)
    requires
        tracker::tracker_displayable(old(tracker)@),
        old(receiver).wf(),
        old(tracker).wf(),
        old(work_queue).wf(),
        old(bandmaps).wf(),
    ensures
        final(receiver).wf(),
        final(tracker).wf(),
        final(work_queue).wf(),
        final(bandmaps).wf(),
        changed == (text::str_opt(previous_band) != text::text_opt(current_band)
            || old(receiver).app_mode != app_mode),
        final(receiver).app_mode == app_mode,
        final(receiver).decode_profile == old(receiver).decode_profile,
        final(receiver).dropped_slots == old(receiver).dropped_slots,
        final(receiver).decode_status == old(receiver).decode_status,
        final(receiver).slot_direct_skip_start == old(receiver).slot_direct_skip_start,
        final(receiver).slot_direct_skip_calls == old(receiver).slot_direct_skip_calls,
        changed ==> {
            &&& final(bandmaps)@ == bandmap::blank_store()
            &&& final(tracker)@ == tracker::blank_tracker(app_mode)
            &&& final(receiver).times == DecodeTimes::blank()
            &&& final(receiver).last_slot_start is None
            &&& no_decodes(final(receiver).decodes)
            &&& final(receiver).next_slot == slots::next_boundary(app_mode, now)
            &&& all_open(final(receiver).next_slot_stages)
            &&& final(receiver).decode_cycle_log@ == decode_log::blank_cycle(None, None)
            &&& final(receiver).active_decode is None
        },
        !changed ==> {
            &&& final(bandmaps)@ == old(bandmaps)@
            &&& final(tracker)@ == old(tracker)@
            &&& *final(receiver) == *old(receiver)
        },
        tracker::direct_models(final(past_calls)@) == (if changed {
            tracker::direct_models(old(past_calls)@) + tracker::calls_to_us(
                old(tracker)@,
                our_call@,
            )
        } else {
            tracker::direct_models(old(past_calls)@)
        }),
        final(work_queue)@ == (QueueModel {
            band: text::text_opt(current_band),
            mode: app_mode,
            ..(if changed {
                emptied(old(work_queue)@)
            } else {
                old(work_queue)@
            })
        }),
{
    let same_band = text::opt_eq(previous_band, text::borrow_opt(&current_band));
    let changed = !same_band || receiver.app_mode != app_mode;
    receiver.app_mode = app_mode;
    if changed {
        bandmap::clear_bandmaps(bandmaps);
        work_queue.clear();
        append_calls(past_calls, tracker.web_direct_calls(our_call, clock::FIRST_INSTANT));
        tracker.reset_for_mode(app_mode);
        receiver.times = DecodeTimes::none();
        receiver.last_slot_start = None;
        clear_decodes(&mut receiver.decodes);
        receiver.next_slot = slots::next_slot_boundary_for_mode(app_mode, now);
        receiver.next_slot_stages = SlotStageState::new();
        receiver.decode_cycle_log.reset();
        receiver.active_decode = None;
    }
    work_queue.set_current_band(current_band);
    work_queue.set_current_mode(app_mode);
    changed
}

/// The rig was found on a band. Where it is another than before, the queue and the band maps are
/// emptied.
pub fn note_polled_band(
    work_queue: &mut WorkQueueState,
    bandmaps: &mut BandMapStore,
    previous_band: Option<&str>,
    current_band: Option<String>,
    app_mode: DecoderMode,
)
    requires
        old(work_queue).wf(),
        old(bandmaps).wf(),
    ensures
        final(work_queue).wf(),
        final(bandmaps).wf(),
        ({
            let same = text::str_opt(previous_band) == text::text_opt(current_band);
            &&& final(bandmaps)@ == (if same {
                old(bandmaps)@
            } else {
                bandmap::blank_store()
            })
            &&& final(work_queue)@ == (QueueModel {
                band: text::text_opt(current_band),
                mode: app_mode,
                ..(if same {
                    old(work_queue)@
                } else {
                    emptied(old(work_queue)@)
                })
            })
        }),
{
    if !text::opt_eq(previous_band, text::borrow_opt(&current_band)) {
        bandmap::clear_bandmaps(bandmaps);
        work_queue.clear();
    }
    work_queue.set_current_band(current_band);
    work_queue.set_current_mode(app_mode);
}

/// The queue once a command has been carried out. A station that was not heard cannot be added, and
/// a frequency that is not usable changes nothing.
pub open spec fn carried_out(
    queue: QueueModel,
    tracker: TrackerModel,
    command: QueueCommand,
    min: FloatBits,
    max: FloatBits,
    now: Timestamp,
) -> QueueModel {
    match command {
        QueueCommand::Add { callsign } => match tracker::start_info_of(tracker, callsign@) {
            Some(info) => queue::station_added(queue, callsign@, info.heard_at, now).0,
            None => queue,
        },
        QueueCommand::Remove { callsign } => QueueModel {
            entries: queue::without(queue.entries, callsign@),
            ..queue
        },
        QueueCommand::Clear => emptied(queue),
        QueueCommand::SetAuto { enabled } => QueueModel {
            auto_enabled: enabled,
            status: if enabled {
                "auto enabled"@
            } else {
                "auto disabled"@
            },
            ..queue
        },
        QueueCommand::SetTxFreq { slot_family, tx_freq_hz } => if api::usable_tx_freq(
            tx_freq_hz,
            min,
            max,
        ) {
            match slot_family {
                SlotFamily::Even => QueueModel { even_freq: tx_freq_hz, ..queue },
                SlotFamily::Odd => QueueModel { odd_freq: tx_freq_hz, ..queue },
            }
        } else {
            queue
        },
        QueueCommand::SetRetryDelay { kind, retry_delay_seconds } => match kind {
            QueueRetryDelayKind::NoMessage => QueueModel {
                no_message_delay: queue::nanos_of_seconds(retry_delay_seconds),
                ..queue
            },
            QueueRetryDelayKind::NoForward => QueueModel {
                no_forward_delay: queue::nanos_of_seconds(retry_delay_seconds),
                ..queue
            },
        },
        _ => setting_changed(queue, command),
    }
}

/// The queue once one of its settings has been changed.
pub open spec fn setting_changed(queue: QueueModel, command: QueueCommand) -> QueueModel {
    match command {
        QueueCommand::SetAutoAddAllDecodedCalls { enabled } => QueueModel {
            auto_add_all: enabled,
            ..queue
        },
        QueueCommand::SetAutoAddDecodedMinCount5m { count } => QueueModel {
            auto_add_min_count: queue::at_least_one(count),
            ..queue
        },
        QueueCommand::SetAutoAddDirect { enabled } => QueueModel {
            auto_add_direct: enabled,
            ..queue
        },
        QueueCommand::SetIgnoreDirectWorked { enabled } => QueueModel {
            ignore_worked_directs: enabled,
            ..queue
        },
        QueueCommand::SetCqEnabled { enabled } => QueueModel { cq_enabled: enabled, ..queue },
        QueueCommand::SetCqPercent { percent } => QueueModel {
            cq_percent: queue::at_most_hundred(percent),
            ..queue
        },
        QueueCommand::SetPauseCqWhenFewUniqueCalls { enabled } => QueueModel {
            pause_cq: enabled,
            ..queue
        },
        QueueCommand::SetCqPauseMinUniqueCalls5m { count } => QueueModel {
            pause_cq_below: count,
            ..queue
        },
        QueueCommand::SetCompoundRr73Handoff { enabled } => QueueModel {
            compound_rr73: enabled,
            ..queue
        },
        QueueCommand::SetCompound73OnceHandoff { enabled } => QueueModel {
            compound_73_once: enabled,
            ..queue
        },
        QueueCommand::SetCompoundForDirectSignalCallers { enabled } => QueueModel {
            compound_for_signal: enabled,
            ..queue
        },
        QueueCommand::ToggleNextCqParity => QueueModel {
            cq_parity_flipped: !queue.cq_parity_flipped,
            ..queue
        },
        _ => queue,
    }
}

/// Carries out a command. `min` and `max` are the limits of the frequencies to transmit on.
pub fn carry_out_queue_command(
    work_queue: &mut WorkQueueState,
    tracker: &StationTracker,
    command: QueueCommand,
    min: FloatBits,
    max: FloatBits,
    now: Timestamp,
)
    requires
        old(work_queue).wf(),
        tracker.wf(),
    ensures
        final(work_queue).wf(),
        final(work_queue)@ == carried_out(old(work_queue)@, tracker@, command, min, max, now),
{
    match command {
        QueueCommand::Add { callsign } => {
            if let Some(info) = tracker.start_info(callsign.as_str()) {
                let _ = work_queue.add_station(callsign.as_str(), info.last_heard_at, now);
            }
        },
        QueueCommand::Remove { callsign } => {
            let _ = work_queue.remove_station(callsign.as_str());
        },
        QueueCommand::Clear => work_queue.clear(),
        QueueCommand::SetAuto { enabled } => work_queue.set_auto_enabled(enabled),
        QueueCommand::SetTxFreq { slot_family, tx_freq_hz } => {
            if floats::float_is_finite(tx_freq_hz) && !floats::float_less(tx_freq_hz, min)
                && !floats::float_less(max, tx_freq_hz) {
                work_queue.set_tx_freq_hz(slot_family, tx_freq_hz);
            }
        },
        QueueCommand::SetRetryDelay { kind, retry_delay_seconds } => work_queue.set_retry_delay(
            kind,
            retry_delay_seconds as u128 * 1_000_000_000,
        ),
        other => change_setting(work_queue, other),
    }
}

fn change_setting(work_queue: &mut WorkQueueState, command: QueueCommand)
    requires
        old(work_queue).wf(),
    ensures
        final(work_queue).wf(),
        final(work_queue)@ == setting_changed(old(work_queue)@, command),
{
    match command {
        QueueCommand::SetAutoAddAllDecodedCalls { enabled } =>
            work_queue.set_auto_add_all_decoded_calls(enabled),
        QueueCommand::SetAutoAddDecodedMinCount5m { count } =>
            work_queue.set_auto_add_decoded_min_count_5m(count),
        QueueCommand::SetAutoAddDirect { enabled } => work_queue.set_auto_add_direct_calls(enabled),
        QueueCommand::SetIgnoreDirectWorked { enabled } =>
            work_queue.set_ignore_direct_calls_from_recently_worked(enabled),
        QueueCommand::SetCqEnabled { enabled } => work_queue.set_cq_enabled(enabled),
        QueueCommand::SetCqPercent { percent } => work_queue.set_cq_percent(percent),
        QueueCommand::SetPauseCqWhenFewUniqueCalls { enabled } =>
            work_queue.set_pause_cq_when_few_unique_calls(enabled),
        QueueCommand::SetCqPauseMinUniqueCalls5m { count } =>
            work_queue.set_cq_pause_min_unique_calls_5m(count),
        QueueCommand::SetCompoundRr73Handoff { enabled } =>
            work_queue.set_use_compound_rr73_handoff(enabled),
        QueueCommand::SetCompound73OnceHandoff { enabled } =>
            work_queue.set_use_compound_73_once_handoff(enabled),
        QueueCommand::SetCompoundForDirectSignalCallers { enabled } =>
            work_queue.set_use_compound_for_direct_signal_callers(enabled),
        QueueCommand::ToggleNextCqParity => work_queue.toggle_next_cq_parity(),
        _ => {},
    }
}

/// Emptying the queue at a change of band leaves every station's record of having been worked: on
/// its band it stays turned away.
pub proof fn law_band_change_keeps_worked(
    queue: QueueModel,
    callsign: Seq<char>,
    band: Option<Seq<char>>,
    now: Timestamp,
)
    ensures
        emptied(queue).entries.len() == 0,
        crate::worked::worked_recently(emptied(queue).worked, callsign, band, now)
            == crate::worked::worked_recently(queue.worked, callsign, band, now),
{
}

/// What the commands do to the queue. A station that was not heard cannot be added; emptying the
/// queue leaves nobody; a share of CQ is at most a hundred per cent, and the least number of messages
/// at least one; a delay is set in seconds, and a frequency outside of the limits not at all.
pub proof fn law_what_queue_commands_do(
    queue: QueueModel,
    tracker: TrackerModel,
    command: QueueCommand,
    min: FloatBits,
    max: FloatBits,
    now: Timestamp,
)
    requires
        queue::sound(queue),
    ensures
        ({
            let after = carried_out(queue, tracker, command, min, max, now);
            match command {
                QueueCommand::Add { callsign } => if tracker.stations.contains_key(callsign@) {
                    after == queue::station_added(
                        queue,
                        callsign@,
                        tracker.stations[callsign@].heard_at,
                        now,
                    ).0
                } else {
                    after == queue
                },
                QueueCommand::Remove { .. } => after.worked == queue.worked,
                QueueCommand::Clear => after.entries.len() == 0 && after.worked == queue.worked,
                QueueCommand::SetAuto { enabled } => after.auto_enabled == enabled && after.entries
                    == queue.entries,
                QueueCommand::SetCqEnabled { enabled } => after.cq_enabled == enabled,
                QueueCommand::SetCqPercent { percent } => after.cq_percent <= 100 && (percent <= 100
                    ==> after.cq_percent == percent) && (percent > 100 ==> after.cq_percent == 100),
                QueueCommand::SetAutoAddDecodedMinCount5m { count } => after.auto_add_min_count >= 1
                    && (count >= 1 ==> after.auto_add_min_count == count),
                QueueCommand::SetAutoAddAllDecodedCalls { enabled } => after.auto_add_all == enabled,
                QueueCommand::SetAutoAddDirect { enabled } => after.auto_add_direct == enabled,
                QueueCommand::SetIgnoreDirectWorked { enabled } => after.ignore_worked_directs
                    == enabled,
                QueueCommand::SetPauseCqWhenFewUniqueCalls { enabled } => after.pause_cq == enabled,
                QueueCommand::SetCqPauseMinUniqueCalls5m { count } => after.pause_cq_below == count,
                QueueCommand::SetCompoundRr73Handoff { enabled } => after.compound_rr73 == enabled,
                QueueCommand::SetCompound73OnceHandoff { enabled } => after.compound_73_once
                    == enabled,
                QueueCommand::SetCompoundForDirectSignalCallers { enabled } => after.compound_for_signal
                    == enabled,
                QueueCommand::ToggleNextCqParity => after.cq_parity_flipped
                    != queue.cq_parity_flipped,
                QueueCommand::SetRetryDelay {
                    kind: QueueRetryDelayKind::NoMessage,
                    retry_delay_seconds,
                } => after.no_message_delay == retry_delay_seconds * 1_000_000_000
                    && after.no_forward_delay == queue.no_forward_delay,
                QueueCommand::SetRetryDelay {
                    kind: QueueRetryDelayKind::NoForward,
                    retry_delay_seconds,
                } => after.no_forward_delay == retry_delay_seconds * 1_000_000_000
                    && after.no_message_delay == queue.no_message_delay,
                QueueCommand::SetTxFreq { slot_family, tx_freq_hz } => {
                    let usable = floats::is_finite(tx_freq_hz) && !floats::less(tx_freq_hz, min)
                        && !floats::less(max, tx_freq_hz);
                    &&& after.even_freq == (if usable && slot_family == SlotFamily::Even {
                        tx_freq_hz
                    } else {
                        queue.even_freq
                    })
                    &&& after.odd_freq == (if usable && slot_family == SlotFamily::Odd {
                        tx_freq_hz
                    } else {
                        queue.odd_freq
                    })
                },
            }
        }),
{
}

/// Taking a station out of the queue takes out this station and nobody else.
pub proof fn law_taking_a_station_out(
    queue: QueueModel,
    tracker: TrackerModel,
    callsign: String,
    min: FloatBits,
    max: FloatBits,
    now: Timestamp,
)
    requires
        queue::sound(queue),
    ensures
        ({
            let after = carried_out(
                queue,
                tracker,
                QueueCommand::Remove { callsign },
                min,
                max,
                now,
            ).entries;
            &&& forall|i: int|
                0 <= i < after.len() ==> (#[trigger] after[i]).callsign != callsign@
                    && queue.entries.contains(after[i])
            &&& forall|i: int|
                0 <= i < queue.entries.len() && (#[trigger] queue.entries[i]).callsign != callsign@
                    ==> after.contains(queue.entries[i])
        }),
{
    let after = queue::without(queue.entries, callsign@);
    queue::lemma_place_of(queue.entries, callsign@);
    queue::lemma_without(queue.entries, callsign@);
    let place = queue::place_of(queue.entries, callsign@);
    if queue::waits(queue.entries, callsign@) {
        assert forall|i: int| 0 <= i < after.len() implies (#[trigger] after[i]).callsign
            != callsign@ && queue.entries.contains(after[i]) by {
            assert(after[i] == queue.entries[if i < place { i } else { i + 1 }]);
        }
        assert forall|i: int|
            0 <= i < queue.entries.len() && (#[trigger] queue.entries[i]).callsign
                != callsign@ implies after.contains(queue.entries[i]) by {
            assert(after[if i < place { i } else { i - 1 }] == queue.entries[i]);
        }
    }
}

/// Flipping the parity of the next CQ twice changes nothing.
pub proof fn law_flipping_twice(
    queue: QueueModel,
    tracker: TrackerModel,
    min: FloatBits,
    max: FloatBits,
    now: Timestamp,
)
    ensures
        ({
            let flip = QueueCommand::ToggleNextCqParity;
            let once = carried_out(queue, tracker, flip, min, max, now);
            carried_out(once, tracker, flip, min, max, now) == queue
        }),
{
}

/// Of the frames of time offsets the last forty are kept, in their order.
pub proof fn law_last_forty_frames_are_kept(frames: Seq<Vec<FloatBits>>, frame: Vec<FloatBits>)
    requires
        frames.len() <= 40,
    ensures
        with_frame(frames, frame).len() <= 40,
        with_frame(frames, frame).last() == frame,
        frames.len() < 40 ==> with_frame(frames, frame).drop_last() == frames,
        frames.len() == 40 ==> with_frame(frames, frame).drop_last() == frames.drop_first(),
{
    assert(with_frame(frames, frame).drop_last() =~= (if frames.len() == 40 {
        frames.drop_first()
    } else {
        frames
    }));
}

/// The calls that are passed over in a slot are those that were passed over in it before and our
/// partner; in another slot the list starts afresh.
pub proof fn law_who_is_passed_over(
    slot: Option<Timestamp>,
    calls: Seq<Seq<char>>,
    slot_start: Timestamp,
    partner: Option<Seq<char>>,
    call: Seq<char>,
)
    requires
        text::ascending(calls),
    ensures
        text::ascending(skipped_in(slot, calls, slot_start, partner)),
        skipped_in(slot, calls, slot_start, partner).to_set().contains(call) <==> partner == Some(
            call,
        ) || (slot == Some(slot_start) && calls.to_set().contains(call)),
{
    let kept = if slot == Some(slot_start) {
        calls
    } else {
        Seq::empty()
    };
    if let Some(p) = partner {
        text::lemma_sorted_with(kept, p);
    }
    assert(!Seq::<Seq<char>>::empty().to_set().contains(call));
}

/// The messages of a stage take the place of those of that stage alone.
pub proof fn law_stages_are_replaced_alone(
    before: StageDecodes,
    after: StageDecodes,
    stage: DecodeStage,
    decodes: Seq<DecodedMessage>,
)
    requires
        stage_replaced(before, after, stage, decodes),
    ensures
        stage == DecodeStage::Early41 ==> after.early41@ == decodes,
        stage == DecodeStage::Early47 ==> after.early47@ == decodes,
        stage == DecodeStage::Full ==> after.full@ == decodes,
        stage != DecodeStage::Early41 ==> after.early41 == before.early41,
        stage != DecodeStage::Early47 ==> after.early47 == before.early47,
        stage != DecodeStage::Full ==> after.full == before.full,
{
}

/// The time that a stage took is noted for that stage; that of a whole slot is the last of all.
pub proof fn law_times_of_the_stages(times: DecodeTimes, stage: DecodeStage, wall_ms: u128)
    ensures
        ({
            let after = times.with(stage, wall_ms);
            &&& after.early41_wall_ms == (if stage == DecodeStage::Early41 {
                Some(wall_ms)
            } else {
                times.early41_wall_ms
            })
            &&& after.early47_wall_ms == (if stage == DecodeStage::Early47 {
                Some(wall_ms)
            } else {
                times.early47_wall_ms
            })
            &&& after.full_wall_ms == (if stage == DecodeStage::Full {
                Some(wall_ms)
            } else {
                times.full_wall_ms
            })
            &&& after.last_decode_wall_ms == (if stage == DecodeStage::Full {
                Some(wall_ms)
            } else {
                times.last_decode_wall_ms
            })
            &&& after.tx_margin_ms == times.tx_margin_ms
        }),
{
}

} // verus!
