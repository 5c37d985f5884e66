//! Transmit and receive slots: where they begin, how they are numbered and which family they
//! belong to, and when the parts of a slot can be decoded.

use vstd::prelude::*;
use vstd::string::*;

use crate::clock;
use crate::clock::{Nanos, Timestamp};
use crate::text;

verus! {

pub const DECODER_SAMPLE_RATE_HZ: u32 = 12_000;

#[derive(Clone, Copy, Debug, PartialEq, Eq, Structural)]
pub enum DecoderMode {
    Ft8,
    Ft4,
}

#[derive(Clone, Copy, Debug, PartialEq, Eq, Structural)]
pub enum DecodeProfile {
    Quick,
    Medium,
    Deepest,
}

/// The parts of a slot that are decoded, from the earliest to the last.
#[derive(Clone, Copy, Debug, PartialEq, Eq, Structural)]
pub enum DecodeStage {
    Early41,
    Early47,
    Full,
}

#[derive(Clone, Copy, Debug, PartialEq, Eq, Structural)]
pub enum SlotFamily {
    Even,
    Odd,
}

/// The system clock cannot hold a time that was asked for.
#[derive(Clone, Copy, Debug, PartialEq, Eq, Structural)]
pub struct ClockError;

impl DecoderMode {
    pub open spec fn name(self) -> Seq<char> {
        match self {
            DecoderMode::Ft8 => "ft8"@,
            DecoderMode::Ft4 => "ft4"@,
        }
    }

    pub open spec fn upper_name(self) -> Seq<char> {
        match self {
            DecoderMode::Ft8 => "FT8"@,
            DecoderMode::Ft4 => "FT4"@,
        }
    }

    pub fn as_str(self) -> (r: &'static str)
        ensures
            r@ == self.name(),
    {
        match self {
            DecoderMode::Ft8 => "ft8",
            DecoderMode::Ft4 => "ft4",
        }
    }

    /// The name in capitals, as it is shown.
    pub fn label(self) -> (r: &'static str)
        ensures
            r@ == self.upper_name(),
    {
        match self {
            DecoderMode::Ft8 => "FT8",
            DecoderMode::Ft4 => "FT4",
        }
    }
}

impl DecodeProfile {
    pub open spec fn name(self) -> Seq<char> {
        match self {
            DecodeProfile::Quick => "quick"@,
            DecodeProfile::Medium => "medium"@,
            DecodeProfile::Deepest => "deepest"@,
        }
    }

    pub fn as_str(self) -> (r: &'static str)
        ensures
            r@ == self.name(),
    {
        match self {
            DecodeProfile::Quick => "quick",
            DecodeProfile::Medium => "medium",
            DecodeProfile::Deepest => "deepest",
        }
    }

    /// The profile of that name.
    pub fn parse(name: &str) -> (r: Option<DecodeProfile>)
        ensures
            r == (if name@ == "quick"@ {
                Some(DecodeProfile::Quick)
            } else if name@ == "medium"@ {
                Some(DecodeProfile::Medium)
            } else if name@ == "deepest"@ {
                Some(DecodeProfile::Deepest)
            } else {
                None
            }),
    {
        if text::str_eq(name, "quick") {
            Some(DecodeProfile::Quick)
        } else if text::str_eq(name, "medium") {
            Some(DecodeProfile::Medium)
        } else if text::str_eq(name, "deepest") {
            Some(DecodeProfile::Deepest)
        } else {
            None
        }
    }
}

impl DecodeStage {
    /// The place of the stage among the stages of a slot.
    pub open spec fn order(self) -> int {
        match self {
            DecodeStage::Early41 => 0,
            DecodeStage::Early47 => 1,
            DecodeStage::Full => 2,
        }
    }

    pub open spec fn name(self) -> Seq<char> {
        match self {
            DecodeStage::Early41 => "early41"@,
            DecodeStage::Early47 => "early47"@,
            DecodeStage::Full => "full"@,
        }
    }

    pub fn as_str(self) -> (r: &'static str)
        ensures
            r@ == self.name(),
    {
        match self {
            DecodeStage::Early41 => "early41",
            DecodeStage::Early47 => "early47",
            DecodeStage::Full => "full",
        }
    }

    /// Whether this stage comes before `other`.
    pub fn earlier_than(self, other: DecodeStage) -> (r: bool)
        ensures
            r == (self.order() < other.order()),
    {
        match (self, other) {
            (DecodeStage::Early41, DecodeStage::Early47) => true,
            (DecodeStage::Early41, DecodeStage::Full) => true,
            (DecodeStage::Early47, DecodeStage::Full) => true,
            _ => false,
        }
    }
}

impl SlotFamily {
    pub open spec fn other(self) -> SlotFamily {
        match self {
            SlotFamily::Even => SlotFamily::Odd,
            SlotFamily::Odd => SlotFamily::Even,
        }
    }

    pub open spec fn name(self) -> Seq<char> {
        match self {
            SlotFamily::Even => "even"@,
            SlotFamily::Odd => "odd"@,
        }
    }

    pub fn opposite(self) -> (r: SlotFamily)
        ensures
            r == self.other(),
    {
        match self {
            SlotFamily::Even => SlotFamily::Odd,
            SlotFamily::Odd => SlotFamily::Even,
        }
    }

    pub fn as_str(self) -> (r: &'static str)
        ensures
            r@ == self.name(),
    {
        match self {
            SlotFamily::Even => "even",
            SlotFamily::Odd => "odd",
        }
    }
}

/// The family of the opposite family is the family itself.
pub proof fn law_opposite_twice(family: SlotFamily)
    ensures
        family.other().other() == family,
        family.other() != family,
{
}

/// What a family name given by a user stands for; case and space around it do not matter.
pub open spec fn family_named(value: Seq<char>) -> Option<SlotFamily> {
    let name = text::lowered(text::trimmed(value));
    if name == "even"@ {
        Some(SlotFamily::Even)
    } else if name == "odd"@ {
        Some(SlotFamily::Odd)
    } else {
        None
    }
}

pub fn parse_slot_family_name(value: &str) -> (r: Option<SlotFamily>)
    ensures
        r == family_named(value@),
{
    let trimmed = text::trim(value);
    let name = text::to_ascii_lowercase(trimmed.as_str());
    if text::str_eq(name.as_str(), "even") {
        Some(SlotFamily::Even)
    } else if text::str_eq(name.as_str(), "odd") {
        Some(SlotFamily::Odd)
    } else {
        None
    }
}

/// The length of a slot in milliseconds.
pub open spec fn slot_millis(mode: DecoderMode) -> int {
    match mode {
        DecoderMode::Ft8 => 15_000,
        DecoderMode::Ft4 => 7_500,
    }
}

pub fn slot_millis_for_mode(mode: DecoderMode) -> (r: u64)
    ensures
        r == slot_millis(mode),
{
    match mode {
        DecoderMode::Ft8 => 15_000,
        DecoderMode::Ft4 => 7_500,
    }
}

pub open spec fn slot_nanos(mode: DecoderMode) -> int {
    slot_millis(mode) * 1_000_000
}

pub fn slot_duration_for_mode(mode: DecoderMode) -> (r: Nanos)
    ensures
        r == slot_nanos(mode),
{
    match mode {
        DecoderMode::Ft8 => 15_000_000_000,
        DecoderMode::Ft4 => 7_500_000_000,
    }
}

/// What is kept of a count that is held in 64 bits.
pub open spec fn low_64_bits(n: int) -> int {
    n % 0x1_0000_0000_0000_0000
}

/// How many whole slots have passed since the epoch.
pub open spec fn slots_since_epoch(mode: DecoderMode, time: Timestamp) -> int {
    clock::epoch_millis(time) / slot_millis(mode)
}

pub open spec fn slot_index(mode: DecoderMode, time: Timestamp) -> int {
    low_64_bits(slots_since_epoch(mode, time))
}

/// How many milliseconds that many slots last.
pub open spec fn millis_of_slots(mode: DecoderMode, n: int) -> int {
    match mode {
        DecoderMode::Ft8 => n * 15_000,
        DecoderMode::Ft4 => n * 7_500,
    }
}

/// When the slot that holds `time` began.
pub open spec fn slot_boundary(mode: DecoderMode, time: Timestamp) -> int {
    low_64_bits(millis_of_slots(mode, slots_since_epoch(mode, time))) * 1_000_000
}

pub open spec fn next_boundary(mode: DecoderMode, time: Timestamp) -> int {
    slot_boundary(mode, time) + slot_nanos(mode)
}

pub open spec fn family_of_index(index: int) -> SlotFamily {
    if index % 2 == 0 {
        SlotFamily::Even
    } else {
        SlotFamily::Odd
    }
}

pub open spec fn slot_family(mode: DecoderMode, time: Timestamp) -> SlotFamily {
    family_of_index(slot_index(mode, time))
}

/// The index of the last slot of the family that has begun by `now`.
pub open spec fn latest_index(mode: DecoderMode, now: Timestamp, family: SlotFamily) -> int {
    let current = slot_index(mode, slot_boundary(mode, now) as i128);
    if family_of_index(current) == family {
        current
    } else if current == 0 {
        0
    } else {
        current - 1
    }
}

pub fn current_slot_boundary_for_mode(mode: DecoderMode, now: Timestamp) -> (r: Timestamp)
    ensures
        r == slot_boundary(mode, now),
        0 <= r <= u64::MAX * 1_000_000,
{
    let millis: u128 = clock::elapsed(now, 0) / 1_000_000;
    let slot: u128 = slot_millis_for_mode(mode) as u128;
    let whole: u128 = millis / slot;
    assert(whole * slot <= millis) by (nonlinear_arith)
        requires
            whole == millis / slot,
            slot > 0,
    ;
    let kept: u128 = (whole * slot) % 0x1_0000_0000_0000_0000;
    (kept as i128) * 1_000_000
}

pub fn next_slot_boundary_for_mode(mode: DecoderMode, now: Timestamp) -> (r: Timestamp)
    ensures
        r == next_boundary(mode, now),
        0 <= r <= (u64::MAX + 15_000) * 1_000_000,
{
    let duration: u128 = slot_duration_for_mode(mode);
    current_slot_boundary_for_mode(mode, now) + duration as i128
}

pub fn slot_index_for_mode(mode: DecoderMode, time: Timestamp) -> (r: u64)
    ensures
        r == slot_index(mode, time),
{
    let millis: u128 = clock::elapsed(time, 0) / 1_000_000;
    let slot: u128 = slot_millis_for_mode(mode) as u128;
    ((millis / slot) % 0x1_0000_0000_0000_0000) as u64
}

pub fn is_even_slot_family_for_mode(mode: DecoderMode, time: Timestamp) -> (r: bool)
    ensures
        r == (slot_family(mode, time) == SlotFamily::Even),
{
    slot_index_for_mode(mode, time) % 2 == 0
}

pub fn slot_family_for_mode(mode: DecoderMode, time: Timestamp) -> (r: SlotFamily)
    ensures
        r == slot_family(mode, time),
{
    if is_even_slot_family_for_mode(mode, time) {
        SlotFamily::Even
    } else {
        SlotFamily::Odd
    }
}

pub fn latest_slot_index_for_family(
    mode: DecoderMode,
    now: Timestamp,
    family: SlotFamily,
) -> (r: u64)
    ensures
        r == latest_index(mode, now, family),
{
    let current_slot: i128 = current_slot_boundary_for_mode(mode, now);
    let current: u64 = slot_index_for_mode(mode, current_slot);
    let even: bool = is_even_slot_family_for_mode(mode, current_slot);
    match (family, even) {
        (SlotFamily::Even, true) | (SlotFamily::Odd, false) => current,
        _ => {
            if current == 0 {
                0
            } else {
                current - 1
            }
        },
    }
}

/// A time that slot counting is exact for: not before the epoch, and within 64 bits of
/// milliseconds.
pub open spec fn countable(time: Timestamp) -> bool {
    0 <= time && clock::epoch_millis(time) <= u64::MAX - 15_000
}

/// A slot holds the times from its boundary up to the next one, the boundary has the same index as
/// every time in the slot, and the slot after it has the next index and the other family.
pub proof fn law_slot_holds_its_times(mode: DecoderMode, time: Timestamp)
    requires
        countable(time),
    ensures
        slot_boundary(mode, time) <= time < next_boundary(mode, time),
        slot_index(mode, slot_boundary(mode, time) as i128) == slot_index(mode, time),
        slot_boundary(mode, slot_boundary(mode, time) as i128) == slot_boundary(mode, time),
        slot_index(mode, next_boundary(mode, time) as i128) == slot_index(mode, time) + 1,
        slot_family(mode, next_boundary(mode, time) as i128) == slot_family(mode, time).other(),
{
    let slot = slot_millis(mode);
    let millis = clock::epoch_millis(time);
    let n = millis / slot;
    assert(n * slot <= millis < n * slot + slot) by (nonlinear_arith)
        requires
            n == millis / slot,
            slot > 0,
    ;
    assert(0 <= n <= millis) by (nonlinear_arith)
        requires
            n == millis / slot,
            slot > 0,
            0 <= millis,
    ;
    let start = n * slot * 1_000_000;
    assert(slot_boundary(mode, time) == start);
    assert(clock::epoch_millis(start as i128) == n * slot);
    assert((n * slot) / slot == n) by (nonlinear_arith)
        requires
            slot > 0,
    ;
    let after = start + slot * 1_000_000;
    assert(n * slot + slot == (n + 1) * slot) by (nonlinear_arith);
    assert(clock::epoch_millis(after as i128) == (n + 1) * slot);
    assert(((n + 1) * slot) / slot == n + 1) by (nonlinear_arith)
        requires
            slot > 0,
    ;
}

/// Slots are counted from the epoch on. Those of FT8 last fifteen seconds, those of FT4 seven and a
/// half, and the slots with even numbers are the even family.
pub proof fn law_slots_are_counted_from_the_epoch(mode: DecoderMode, time: Timestamp)
    requires
        0 <= time <= (u64::MAX - 15_000) * 1_000_000,
    ensures
        mode == DecoderMode::Ft8 ==> slot_index(mode, time) == time as int / 15_000_000_000
            && slot_boundary(mode, time) == (time as int / 15_000_000_000) * 15_000_000_000
            && next_boundary(mode, time) == slot_boundary(mode, time) + 15_000_000_000,
        mode == DecoderMode::Ft4 ==> slot_index(mode, time) == time as int / 7_500_000_000
            && slot_boundary(mode, time) == (time as int / 7_500_000_000) * 7_500_000_000
            && next_boundary(mode, time) == slot_boundary(mode, time) + 7_500_000_000,
        slot_index(mode, time) % 2 == 0 ==> slot_family(mode, time) == SlotFamily::Even,
        slot_index(mode, time) % 2 != 0 ==> slot_family(mode, time) == SlotFamily::Odd,
{
    law_slot_holds_its_times(mode, time);
    let n = slots_since_epoch(mode, time);
    assert(slot_index(mode, time) == n);
}

/// The latest slot of a family has begun, belongs to the family, and is the current slot or the one
/// before it.
pub proof fn law_latest_slot_of_family(mode: DecoderMode, now: Timestamp, family: SlotFamily)
    requires
        countable(now),
        slot_index(mode, now) > 0,
    ensures
        family_of_index(latest_index(mode, now, family)) == family,
        slot_index(mode, now) - 1 <= latest_index(mode, now, family) <= slot_index(mode, now),
{
    law_slot_holds_its_times(mode, now);
}

pub open spec fn slot_label(mode: DecoderMode, time: Timestamp) -> Seq<char> {
    match mode {
        DecoderMode::Ft8 => clock::written(time, clock::TimeStyle::Digits),
        DecoderMode::Ft4 => clock::written(time, clock::TimeStyle::Digits) + "."@ + text::decimal(
            (clock::subsecond(time) / 100_000_000) as nat,
        ),
    }
}

/// The slot's time of day; with tenths where slots begin within a second.
pub fn format_slot_time_for_mode(mode: DecoderMode, time: Timestamp) -> (r: String)
    requires
        clock::displayable(time),
    ensures
        r@ == slot_label(mode, time),
{
    match mode {
        DecoderMode::Ft8 => clock::format_slot_time(time),
        DecoderMode::Ft4 => clock::format_slot_time_tenths(time),
    }
}

pub open spec fn stage_label(stage: DecodeStage) -> Seq<char> {
    match stage {
        DecodeStage::Early41 => "early"@,
        DecodeStage::Early47 => "mid"@,
        DecodeStage::Full => "full"@,
    }
}

pub fn stage_display_label(_mode: DecoderMode, stage: DecodeStage) -> (r: &'static str)
    ensures
        r@ == stage_label(stage),
{
    match stage {
        DecodeStage::Early41 => "early",
        DecodeStage::Early47 => "mid",
        DecodeStage::Full => "full",
    }
}

/// How many samples, at the decoder's rate, each stage of a slot needs.
#[derive(Clone, Copy, Debug, PartialEq, Eq, Structural)]
pub struct StageSamples {
    pub early41: u32,
    pub early47: u32,
    pub full: u32,
}

impl StageSamples {
    pub open spec fn of(self, stage: DecodeStage) -> u32 {
        match stage {
            DecodeStage::Early41 => self.early41,
            DecodeStage::Early47 => self.early47,
            DecodeStage::Full => self.full,
        }
    }

    pub fn required(self, stage: DecodeStage) -> (r: u32)
        ensures
            r == self.of(stage),
    {
        match stage {
            DecodeStage::Early41 => self.early41,
            DecodeStage::Early47 => self.early47,
            DecodeStage::Full => self.full,
        }
    }
}

/// As many samples at `rate` as take as long as `samples` at the decoder's rate, to the nearest.
pub open spec fn samples_at_rate(samples: int, rate: int) -> int {
    clock::nearest(samples * rate, DECODER_SAMPLE_RATE_HZ as int)
}

pub fn stage_sample_count(
    sample_rate_hz: u32,
    timing: StageSamples,
    stage: DecodeStage,
) -> (r: usize)
    requires
        samples_at_rate(timing.of(stage) as int, sample_rate_hz as int) <= usize::MAX,
    ensures
        r == samples_at_rate(timing.of(stage) as int, sample_rate_hz as int),
{
    let samples: u64 = timing.required(stage) as u64;
    let rate: u64 = sample_rate_hz as u64;
    assert(0 <= samples * rate <= 0xffff_ffff * 0xffff_ffff) by (nonlinear_arith)
        requires
            samples <= 0xffff_ffff,
            rate <= 0xffff_ffff,
    ;
    ((samples * rate + 6_000) / 12_000) as usize
}

pub fn full_decode_sample_count(sample_rate_hz: u32, timing: StageSamples) -> (r: usize)
    requires
        samples_at_rate(timing.full as int, sample_rate_hz as int) <= usize::MAX,
    ensures
        r == samples_at_rate(timing.full as int, sample_rate_hz as int),
{
    stage_sample_count(sample_rate_hz, timing, DecodeStage::Full)
}

/// The last instant that the system clock can hold.
pub const LAST_INSTANT: i128 = 9_223_372_036_854_775_807_999_999_999;

/// `time` and `amount` later, where the system clock can hold it.
pub open spec fn after(time: Timestamp, amount: int) -> Option<Timestamp> {
    if time + amount <= LAST_INSTANT {
        Some((time + amount) as i128)
    } else {
        None
    }
}

pub fn checked_after(time: Timestamp, amount: Nanos) -> (r: Option<Timestamp>)
    ensures
        r == after(time, amount as int),
{
    match time.checked_add_unsigned(amount) {
        Some(t) if t <= LAST_INSTANT => Some(t),
        _ => None,
    }
}

/// How long `samples` samples at the decoder's rate take, to the nearest nanosecond.
pub open spec fn samples_nanos(samples: int) -> int {
    (samples * 250_000 + 1) / 3
}

/// When the samples of a stage are all there.
pub open spec fn stage_end(
    timing: StageSamples,
    slot_start: Timestamp,
    stage: DecodeStage,
) -> Option<
    Timestamp,
> {
    after(slot_start, samples_nanos(timing.of(stage) as int))
}

pub fn stage_capture_end(
    timing: StageSamples,
    slot_start: Timestamp,
    stage: DecodeStage,
) -> (r: Result<
    Timestamp,
    ClockError,
>)
    ensures
        r == (match stage_end(timing, slot_start, stage) {
            Some(t) => Ok::<Timestamp, ClockError>(t),
            None => Err(ClockError),
        }),
{
    let samples: u128 = timing.required(stage) as u128;
    match checked_after(slot_start, (samples * 250_000 + 1) / 3) {
        Some(t) => Ok(t),
        None => Err(ClockError),
    }
}

/// The milliseconds left until transmission when a stage has been decoded in `wall_ms`; negative
/// when it came too late.
pub open spec fn tx_margin(
    timing: StageSamples,
    mode: DecoderMode,
    slot_start: Timestamp,
    stage: DecodeStage,
    wall_ms: u128,
    tx_start: Timestamp,
) -> Result<i128, ClockError> {
    if after(slot_start, slot_nanos(mode)) is None {
        Err(ClockError)
    } else {
        match stage_end(timing, slot_start, stage) {
            Some(end) if end <= tx_start => Ok(
                (clock::since(tx_start, end) / 1_000_000 - wall_ms) as i128,
            ),
            _ => Err(ClockError),
        }
    }
}

/// `tx_start` is when the transmitter is keyed for the slot after the one that begins at
/// `slot_start`.
pub fn tx_margin_after_stage_decode_ms(
    timing: StageSamples,
    mode: DecoderMode,
    slot_start: Timestamp,
    stage: DecodeStage,
    wall_ms: u128,
    tx_start: Timestamp,
) -> (r: Result<i128, ClockError>)
    requires
        wall_ms <= i128::MAX,
    ensures
        r == tx_margin(timing, mode, slot_start, stage, wall_ms, tx_start),
{
    if checked_after(slot_start, slot_duration_for_mode(mode)).is_none() {
        return Err(ClockError);
    }
    match stage_capture_end(timing, slot_start, stage) {
        Ok(end) => {
            if end <= tx_start {
                let left: i128 = (clock::elapsed(tx_start, end) / 1_000_000) as i128;
                Ok(left - wall_ms as i128)
            } else {
                Err(ClockError)
            }
        },
        Err(_) => Err(ClockError),
    }
}

/// Early stages are decoded in FT8 only, and not by the quick profile.
pub open spec fn stage_enabled(
    mode: DecoderMode,
    profile: DecodeProfile,
    stage: DecodeStage,
) -> bool {
    stage == DecodeStage::Full || (mode == DecoderMode::Ft8 && profile != DecodeProfile::Quick)
}

pub fn decode_stage_enabled_for_profile(
    mode: DecoderMode,
    profile: DecodeProfile,
    stage: DecodeStage,
) -> (r: bool)
    ensures
        r == stage_enabled(mode, profile, stage),
{
    match stage {
        DecodeStage::Full => true,
        DecodeStage::Early41 => mode == DecoderMode::Ft8 && profile != DecodeProfile::Quick,
        DecodeStage::Early47 => mode == DecoderMode::Ft8 && profile != DecodeProfile::Quick,
    }
}

/// Which stages of a slot have been taken care of.
#[derive(Clone, Copy, Debug, PartialEq, Eq, Structural)]
pub struct SlotStageState {
    pub early41: bool,
    pub early47: bool,
    pub full: bool,
}

impl SlotStageState {
    pub open spec fn handled(self, stage: DecodeStage) -> bool {
        match stage {
            DecodeStage::Early41 => self.early41,
            DecodeStage::Early47 => self.early47,
            DecodeStage::Full => self.full,
        }
    }

    /// The stage waits to be decoded.
    pub open spec fn open_stage(
        self,
        mode: DecoderMode,
        profile: DecodeProfile,
        stage: DecodeStage,
    ) -> bool {
        stage_enabled(mode, profile, stage) && !self.handled(stage)
    }

    /// The earliest stage that waits to be decoded.
    pub open spec fn first_open(
        self,
        mode: DecoderMode,
        profile: DecodeProfile,
    ) -> Option<DecodeStage> {
        if self.open_stage(mode, profile, DecodeStage::Early41) {
            Some(DecodeStage::Early41)
        } else if self.open_stage(mode, profile, DecodeStage::Early47) {
            Some(DecodeStage::Early47)
        } else if self.open_stage(mode, profile, DecodeStage::Full) {
            Some(DecodeStage::Full)
        } else {
            None
        }
    }

    pub fn new() -> (r: SlotStageState)
        ensures
            forall|stage: DecodeStage| !r.handled(stage),
    {
        SlotStageState { early41: false, early47: false, full: false }
    }

    pub fn is_handled(self, stage: DecodeStage) -> (r: bool)
        ensures
            r == self.handled(stage),
    {
        match stage {
            DecodeStage::Early41 => self.early41,
            DecodeStage::Early47 => self.early47,
            DecodeStage::Full => self.full,
        }
    }

    pub fn mark_handled(&mut self, stage: DecodeStage)
        ensures
            forall|s: DecodeStage| final(self).handled(s) == (s == stage || old(self).handled(s)),
    {
        match stage {
            DecodeStage::Early41 => self.early41 = true,
            DecodeStage::Early47 => self.early47 = true,
            DecodeStage::Full => self.full = true,
        }
    }

    fn next_open(self, mode: DecoderMode, profile: DecodeProfile) -> (r: Option<DecodeStage>)
        ensures
            r == self.first_open(mode, profile),
    {
        if decode_stage_enabled_for_profile(mode, profile, DecodeStage::Early41) && !self.early41 {
            Some(DecodeStage::Early41)
        } else if decode_stage_enabled_for_profile(mode, profile, DecodeStage::Early47)
            && !self.early47 {
            Some(DecodeStage::Early47)
        } else if !self.full {
            Some(DecodeStage::Full)
        } else {
            None
        }
    }

    /// The earliest stage that waits to be decoded, once its samples have come in.
    pub fn next_due_stage(
        self,
        mode: DecoderMode,
        profile: DecodeProfile,
        timing: StageSamples,
        slot_start: Timestamp,
        latest_sample_time: Option<Timestamp>,
    ) -> (r: Option<DecodeStage>)
        ensures
            r == (match (latest_sample_time, self.first_open(mode, profile)) {
                (Some(latest), Some(stage)) => match stage_end(timing, slot_start, stage) {
                    Some(end) if latest >= end => Some(stage),
                    _ => None,
                },
                _ => None,
            }),
    {
        match latest_sample_time {
            Some(latest) => match self.next_open(mode, profile) {
                Some(stage) => match stage_capture_end(timing, slot_start, stage) {
                    Ok(end) => if latest >= end {
                        Some(stage)
                    } else {
                        None
                    },
                    Err(_) => None,
                },
                None => None,
            },
            None => None,
        }
    }
}

/// A slot's stages come due in order, each once: the due stage is not handled yet, no stage before
/// it is left to do, and once it is marked another comes or none.
pub proof fn law_stages_in_order(state: SlotStageState, mode: DecoderMode, profile: DecodeProfile)
    ensures
        match state.first_open(mode, profile) {
            Some(due) => {
                &&& stage_enabled(mode, profile, due)
                &&& !state.handled(due)
                &&& forall|s: DecodeStage|
                    s.order() < due.order() ==> !state.open_stage(mode, profile, s)
                &&& forall|marked: SlotStageState|
                    (forall|s: DecodeStage| marked.handled(s) == (s == due || state.handled(s)))
                        ==> #[trigger] marked.first_open(mode, profile) != Some(due)
            },
            None => forall|s: DecodeStage| stage_enabled(mode, profile, s) ==> state.handled(s),
        },
{
    match state.first_open(mode, profile) {
        Some(due) => {
            assert forall|marked: SlotStageState|
                (forall|s: DecodeStage| marked.handled(s) == (s == due || state.handled(s))) implies
                #[trigger] marked.first_open(mode, profile) != Some(due) by {
                assert(marked.handled(due));
            }
        },
        None => {
            assert(!state.open_stage(mode, profile, DecodeStage::Full));
        },
    }
}

pub open spec fn next_ready(
    timing: StageSamples,
    mode: DecoderMode,
    profile: DecodeProfile,
    slot_start: Timestamp,
    stages: SlotStageState,
) -> Option<Timestamp> {
    match stages.first_open(mode, profile) {
        Some(stage) => stage_end(timing, slot_start, stage),
        None => None,
    }
}

pub fn next_unhandled_decode_stage_ready_at(
    timing: StageSamples,
    mode: DecoderMode,
    profile: DecodeProfile,
    slot_start: Timestamp,
    stages: SlotStageState,
) -> (r: Option<Timestamp>)
    ensures
        r == next_ready(timing, mode, profile, slot_start, stages),
{
    match stages.next_open(mode, profile) {
        Some(stage) => match stage_capture_end(timing, slot_start, stage) {
            Ok(end) => Some(end),
            Err(_) => None,
        },
        None => None,
    }
}

#[derive(Clone, Copy, Debug, PartialEq, Eq, Structural)]
pub struct ActiveDecodeJob {
    pub slot_start: Timestamp,
    pub stage: DecodeStage,
}

/// The rig is asked at most every two seconds, only while nothing is decoded or sent, and not in
/// the second and a half before a stage comes due.
pub fn should_poll_rig_on_main_loop(
    now: Timestamp,
    last_rig_poll: Timestamp,
    next_slot: Timestamp,
    next_slot_stages: SlotStageState,
    timing: StageSamples,
    mode: DecoderMode,
    decode_profile: DecodeProfile,
    active_decode: Option<ActiveDecodeJob>,
    qso_active: bool,
    qso_tx_active: bool,
    tx_busy: bool,
) -> (r: bool)
    ensures
        r == {
            &&& clock::since(now, last_rig_poll) >= 2_000_000_000
            &&& active_decode is None
            &&& !qso_active
            &&& !qso_tx_active
            &&& !tx_busy
            &&& match next_ready(timing, mode, decode_profile, next_slot, next_slot_stages) {
                Some(ready) => clock::since(ready, now) >= 1_500_000_000,
                None => true,
            }
        },
{
    if clock::elapsed(now, last_rig_poll) < 2_000_000_000 {
        return false;
    }
    if active_decode.is_some() || qso_active || qso_tx_active || tx_busy {
        return false;
    }
    match next_unhandled_decode_stage_ready_at(
        timing,
        mode,
        decode_profile,
        next_slot,
        next_slot_stages,
    ) {
        Some(ready) => clock::elapsed(ready, now) >= 1_500_000_000,
        None => true,
    }
}

/// Telemetry is read every half second while transmitting, unless something is being decoded.
pub fn should_poll_rig_telemetry_during_tx(
    now: Timestamp,
    last_poll: Timestamp,
    active_decode: Option<ActiveDecodeJob>,
    tx_path_active: bool,
) -> (r: bool)
    ensures
        r == (tx_path_active && active_decode is None && clock::since(now, last_poll)
            >= 500_000_000),
{
    tx_path_active && active_decode.is_none() && clock::elapsed(now, last_poll) >= 500_000_000
}

pub open spec fn status_text(
    active_decode: Option<ActiveDecodeJob>,
    next_slot: Timestamp,
    dropped_slots: u64,
    capture_active: bool,
    mode: DecoderMode,
) -> Seq<char> {
    let capture = "capture="@ + (if capture_active { "active"@ } else { "idle"@ });
    let rest = " drops="@ + text::decimal(dropped_slots as nat) + (" next="@ + slot_label(
        mode,
        next_slot,
    ));
    match active_decode {
        Some(active) => capture + (" decode="@ + stage_label(active.stage) + (" slot="@ + slot_label(
            mode,
            active.slot_start,
        ))) + rest,
        None => capture + " decode=idle"@ + rest,
    }
}

/// One line on what the receiver is doing.
pub fn format_status(
    active_decode: Option<ActiveDecodeJob>,
    next_slot: Timestamp,
    dropped_slots: u64,
    capture_active: bool,
    app_mode: DecoderMode,
) -> (r: String)
    requires
        clock::displayable(next_slot),
        active_decode matches Some(active) ==> clock::displayable(active.slot_start),
    ensures
        r@ == status_text(active_decode, next_slot, dropped_slots, capture_active, app_mode),
{
    let state = if capture_active {
        "active"
    } else {
        "idle"
    };
    let capture = text::cat2("capture=", state);
    let drops = text::cat2(" drops=", text::decimal_text(dropped_slots).as_str());
    let next = text::cat2(" next=", format_slot_time_for_mode(app_mode, next_slot).as_str());
    let rest = text::cat2(drops.as_str(), next.as_str());
    match active_decode {
        Some(active) => {
            let stage = text::cat2(" decode=", stage_display_label(app_mode, active.stage));
            let slot = text::cat2(
                " slot=",
                format_slot_time_for_mode(app_mode, active.slot_start).as_str(),
            );
            let decode = text::cat2(stage.as_str(), slot.as_str());
            text::cat3(capture.as_str(), decode.as_str(), rest.as_str())
        },
        None => text::cat3(capture.as_str(), " decode=idle", rest.as_str()),
    }
}

/// The name of a family is read back as that family.
pub proof fn law_family_name_is_read_back(family: SlotFamily)
    ensures
        family_named(family.name()) == Some(family),
{
    reveal_strlit("even");
    reveal_strlit("odd");
    assert(text::trimmed(family.name()) == family.name());
    assert(text::lowered(family.name()) =~= family.name());
}

/// The whole slot is always decoded; the two early stages in FT8 only, and not by the quick profile.
pub proof fn law_which_stages_are_decoded(mode: DecoderMode, profile: DecodeProfile)
    ensures
        stage_enabled(mode, profile, DecodeStage::Full),
        stage_enabled(mode, profile, DecodeStage::Early41) <==> mode == DecoderMode::Ft8 && (profile
            == DecodeProfile::Medium || profile == DecodeProfile::Deepest),
        stage_enabled(mode, profile, DecodeStage::Early47) <==> mode == DecoderMode::Ft8 && (profile
            == DecodeProfile::Medium || profile == DecodeProfile::Deepest),
{
}

/// Twelve thousand samples last a second, and other numbers as long in proportion, to the nearest
/// nanosecond; as many samples at another rate last as long to within half a sample.
pub proof fn law_samples_last_in_proportion(samples: int, rate: int)
    requires
        0 <= samples,
        0 < rate,
    ensures
        -6_000 <= samples_nanos(samples) * 12_000 - samples * 1_000_000_000 <= 6_000,
        -6_000 <= samples_at_rate(samples, rate) * 12_000 - samples * rate <= 6_000,
        samples_at_rate(samples, 12_000) == samples,
{
}

/// A stage can be decoded once its samples have come in, counted from the beginning of the slot, and
/// what is left until transmission shrinks by as much as decoding takes.
pub proof fn law_stage_is_due_with_its_samples(
    timing: StageSamples,
    mode: DecoderMode,
    slot_start: Timestamp,
    stage: DecodeStage,
    wall_ms: u128,
    tx_start: Timestamp,
)
    requires
        0 <= slot_start <= 0xffff_ffff_ffff_ffff * 1_000_000,
        0 <= tx_start <= 0xffff_ffff_ffff_ffff * 1_000_000,
        wall_ms <= 0xffff_ffff_ffff_ffff,
    ensures
        stage_end(timing, slot_start, stage) matches Some(end) && end - slot_start == samples_nanos(
            (match stage {
                DecodeStage::Early41 => timing.early41,
                DecodeStage::Early47 => timing.early47,
                DecodeStage::Full => timing.full,
            }) as int,
        ) && (tx_margin(timing, mode, slot_start, stage, wall_ms, tx_start) is Err <==> end > tx_start)
            && (tx_margin(timing, mode, slot_start, stage, wall_ms, tx_start) matches Ok(left)
            ==> left + wall_ms == (tx_start - end) / 1_000_000),
{
}

/// A slot is named by the time of day at which it begins; one of FT4 with the tenth of a second.
pub proof fn law_slots_are_named_by_their_time(time: Timestamp)
    requires
        0 <= time,
    ensures
        slot_label(DecoderMode::Ft8, time) == clock::written(time, clock::TimeStyle::Digits),
        ({
            let label = slot_label(DecoderMode::Ft4, time);
            let tenth = (time % 1_000_000_000) / 100_000_000;
            &&& label == clock::written(time, clock::TimeStyle::Digits) + seq!['.'] + text::decimal(
                tenth as nat,
            )
            &&& text::decimal(tenth as nat).len() == 1
        }),
{
    reveal_strlit(".");
    assert("."@ =~= seq!['.']);
    let tenth = (time % 1_000_000_000) / 100_000_000;
    text::law_decimal_stands_for_its_number(tenth as nat);
}

} // verus!
