//! The decoded messages of a slot as they are listed.

use vstd::prelude::*;
use vstd::string::*;

use crate::clock;
use crate::clock::Timestamp;
use crate::floats;
use crate::message;
use crate::message::{DecodedMessage, FloatBits};
use crate::rank;
use crate::rank::IndexOrder;
use crate::slots;
use crate::slots::{DecodeStage, DecoderMode};
use crate::text;

verus! {

/// What the stages of a slot have brought.
#[derive(Debug)]
pub struct StageDecodes {
    pub early41: Vec<DecodedMessage>,
    pub early47: Vec<DecodedMessage>,
    pub full: Vec<DecodedMessage>,
}

impl StageDecodes {
    /// The messages of all stages, the earliest stage first.
    pub open spec fn all(&self) -> Seq<DecodedMessage> {
        self.early41@ + self.early47@ + self.full@
    }
}

/// The messages of the last stage that brought any.
pub open spec fn preferred(stages: StageDecodes) -> Seq<DecodedMessage> {
    if stages.full@.len() > 0 {
        stages.full@
    } else if stages.early47@.len() > 0 {
        stages.early47@
    } else {
        stages.early41@
    }
}

pub fn preferred_stage_decodes(stages: &StageDecodes) -> (r: &Vec<DecodedMessage>)
    ensures
        r@ == preferred(*stages),
{
    if stages.full.len() > 0 {
        &stages.full
    } else if stages.early47.len() > 0 {
        &stages.early47
    } else {
        &stages.early41
    }
}

/// The text occurs among the messages.
pub open spec fn has_text(decodes: Seq<DecodedMessage>, s: Seq<char>) -> bool {
    exists|i: int| 0 <= i < decodes.len() && (#[trigger] decodes[i]).text@ == s
}

/// In which stage a text was first seen.
pub open spec fn first_seen(stages: StageDecodes, s: Seq<char>) -> Seq<char> {
    if has_text(stages.early41@, s) {
        "early"@
    } else if has_text(stages.early47@, s) {
        "mid"@
    } else {
        "full"@
    }
}

/// The message is the last of those with its text.
pub open spec fn is_last(all: Seq<DecodedMessage>, i: int) -> bool {
    forall|j: int| i < j < all.len() ==> (#[trigger] all[j]).text@ != all[i].text@
}

/// The places of the messages that are listed: for each text the last.
pub open spec fn listed(all: Seq<DecodedMessage>) -> Set<int> {
    Set::new(|i: int| 0 <= i < all.len() && is_last(all, i))
}

/// Messages go by frequency, those on one frequency by text.
pub open spec fn above(all: Seq<DecodedMessage>, i: int, j: int) -> bool {
    let a = floats::float_place(all[i].freq_hz);
    let b = floats::float_place(all[j].freq_hz);
    a < b || (a == b && (text::text_lt(all[i].text@, all[j].text@) || (all[i].text@ == all[j].text@
        && i < j)))
}

pub open spec fn row_order(all: Seq<DecodedMessage>) -> Seq<int> {
    rank::ranking(listed(all), |i: int, j: int| above(all, i, j))
}

/// One message of those listed, and the stage in which its text was first seen.
#[derive(Debug)]
pub struct CompositeDecodeRow<'a> {
    pub display: &'a DecodedMessage,
    pub seen: &'static str,
}

/// The rows list each text once, with its last message.
pub open spec fn shows_rows(rows: Seq<CompositeDecodeRow<'_>>, stages: StageDecodes) -> bool {
    let order = row_order(stages.all());
    rows.len() == order.len() && forall|k: int|
        0 <= k < rows.len() ==> *(#[trigger] rows[k]).display == stages.all()[order[k]]
            && rows[k].seen@ == first_seen(stages, stages.all()[order[k]].text@)
}

struct RowOrder<'a> {
    all: &'a Vec<&'a DecodedMessage>,
}

impl<'a> RowOrder<'a> {
    spec fn messages(&self) -> Seq<DecodedMessage> {
        self.all@.map_values(|d: &DecodedMessage| *d)
    }
}

pub proof fn lemma_above_strict(all: Seq<DecodedMessage>)
    ensures
        rank::is_strict_order(
            Set::new(|i: int| 0 <= i < all.len()),
            |i: int, j: int| above(all, i, j),
        ),
{
    let precedes = |i: int, j: int| above(all, i, j);
    assert forall|i: int| !#[trigger] precedes(i, i) by {
        text::lemma_text_lt_irreflexive(all[i].text@);
    }
    assert forall|i: int, j: int, k: int| #[trigger] precedes(i, j) && #[trigger] precedes(j, k) implies precedes(
        i,
        k,
    ) by {
        if text::text_lt(all[i].text@, all[j].text@) && text::text_lt(all[j].text@, all[k].text@) {
            text::lemma_text_lt_transitive(all[i].text@, all[j].text@, all[k].text@);
        }
    }
    assert forall|i: int, j: int| i != j implies #[trigger] precedes(i, j) || precedes(j, i) by {
        text::lemma_text_lt_total(all[i].text@, all[j].text@);
    }
}

impl<'a> IndexOrder for RowOrder<'a> {
    closed spec fn count(&self) -> nat {
        self.all@.len()
    }

    closed spec fn valid(&self) -> bool {
        true
    }

    closed spec fn precedes(&self, i: int, j: int) -> bool {
        above(self.messages(), i, j)
    }

    proof fn lemma_strict(&self) {
        lemma_above_strict(self.messages());
        assert((|i: int, j: int| self.precedes(i, j)) =~= (|i: int, j: int|
            above(self.messages(), i, j)));
    }

    fn before(&self, i: usize, j: usize) -> (r: bool) {
        let x = self.all[i];
        let y = self.all[j];
        let a: u64 = floats::place_of_float(x.freq_hz);
        let b: u64 = floats::place_of_float(y.freq_hz);
        a < b || (a == b && (text::text_less(x.text.as_str(), y.text.as_str()) || (text::str_eq(
            x.text.as_str(),
            y.text.as_str(),
        ) && i < j)))
    }
}

fn append_refs<'a>(all: &mut Vec<&'a DecodedMessage>, decodes: &'a Vec<DecodedMessage>)
    ensures
        final(all)@.map_values(|d: &DecodedMessage| *d) == old(all)@.map_values(
            |d: &DecodedMessage| *d,
        ) + decodes@,
{
    let ghost start = all@.map_values(|d: &DecodedMessage| *d);
    let mut i: usize = 0;
    assert(start + decodes@.take(0) =~= start);
    while i < decodes.len()
        invariant
            i <= decodes@.len(),
            all@.map_values(|d: &DecodedMessage| *d) == start + decodes@.take(i as int),
        decreases decodes@.len() - i,
    {
        let ghost before = all@.map_values(|d: &DecodedMessage| *d);
        all.push(&decodes[i]);
        assert(all@.map_values(|d: &DecodedMessage| *d) =~= before.push(decodes@[i as int]));
        assert(start + decodes@.take(i + 1) =~= (start + decodes@.take(i as int)).push(
            decodes@[i as int],
        ));
        i += 1;
    }
    assert(decodes@.take(i as int) =~= decodes@);
}

fn contains_text(decodes: &Vec<DecodedMessage>, s: &str) -> (r: bool)
    ensures
        r == has_text(decodes@, s@),
{
    let mut i: usize = 0;
    while i < decodes.len()
        invariant
            i <= decodes@.len(),
            forall|k: int| 0 <= k < i ==> (#[trigger] decodes@[k]).text@ != s@,
        decreases decodes@.len() - i,
    {
        if text::str_eq(decodes[i].text.as_str(), s) {
            return true;
        }
        i += 1;
    }
    false
}

fn last_places(all: &Vec<&DecodedMessage>) -> (r: Vec<usize>)
    ensures
        r@.no_duplicates(),
        forall|k: int| 0 <= k < r@.len() ==> (#[trigger] r@[k]) < all@.len(),
        rank::as_ints(r@).to_set() == listed(all@.map_values(|d: &DecodedMessage| *d)),
{
    let ghost messages = all@.map_values(|d: &DecodedMessage| *d);
    let ghost places = listed(messages);
    let mut r: Vec<usize> = Vec::new();
    let mut i: usize = 0;
    while i < all.len()
        invariant
            i <= all@.len(),
            messages == all@.map_values(|d: &DecodedMessage| *d),
            places == listed(messages),
            r@.no_duplicates(),
            forall|k: int| 0 <= k < r@.len() ==> (#[trigger] r@[k]) < i,
            forall|k: int|
                0 <= k < i ==> (rank::as_ints(r@).contains(k) <==> #[trigger] places.contains(k)),
        decreases all@.len() - i,
    {
        let ghost before = r@;
        let mut last = true;
        let mut j: usize = i + 1;
        while j < all.len() && last
            invariant
                i < j <= all@.len(),
                messages == all@.map_values(|d: &DecodedMessage| *d),
                last ==> forall|k: int|
                    i < k < j ==> (#[trigger] messages[k]).text@ != messages[i as int].text@,
                !last ==> !is_last(messages, i as int),
            decreases all@.len() - j,
        {
            if text::str_eq(all[j].text.as_str(), all[i].text.as_str()) {
                last = false;
                assert(messages[j as int].text@ == messages[i as int].text@);
            }
            j += 1;
        }
        if last {
            r.push(i);
        }
        proof {
            rank::lemma_places_step(before, r@, i, last);
            assert(places.contains(i as int) == last);
            assert forall|k: int| 0 <= k < i + 1 implies (rank::as_ints(r@).contains(k)
                <==> #[trigger] places.contains(k)) by {
                if k < i {
                    assert(rank::as_ints(r@).contains(k) <==> rank::as_ints(before).contains(k));
                }
            }
        }
        i += 1;
    }
    proof {
        let ints = rank::as_ints(r@);
        assert forall|k: int| #[trigger] ints.to_set().contains(k) <==> places.contains(k) by {
            if ints.contains(k) {
                let at = ints.index_of(k);
                assert(r@[at] == k);
            }
        }
        assert(ints.to_set() =~= places);
    }
    r
}

/// The messages of a slot, each text once, by frequency.
pub fn composite_rows<'a>(stages: &'a StageDecodes) -> (r: Vec<CompositeDecodeRow<'a>>)
    ensures
        shows_rows(r@, *stages),
{
    let mut all: Vec<&DecodedMessage> = Vec::new();
    assert(all@.map_values(|d: &DecodedMessage| *d) =~= Seq::<DecodedMessage>::empty());
    append_refs(&mut all, &stages.early41);
    append_refs(&mut all, &stages.early47);
    append_refs(&mut all, &stages.full);
    let ghost messages = all@.map_values(|d: &DecodedMessage| *d);
    assert(messages =~= stages.all());
    let places = last_places(&all);
    let by = RowOrder { all: &all };
    let order = rank::rank(&by, &places);
    let ghost ranked = row_order(messages);
    proof {
        assert(by.messages() == messages);
        assert((|i: int, j: int| by.precedes(i, j)) =~= (|i: int, j: int| above(messages, i, j)));
        assert(rank::as_ints(order@) == ranked);
    }
    let mut r: Vec<CompositeDecodeRow<'a>> = Vec::new();
    let mut n: usize = 0;
    while n < order.len()
        invariant
            n <= order@.len(),
            messages == all@.map_values(|d: &DecodedMessage| *d),
            ranked == rank::as_ints(order@),
            forall|k: int| 0 <= k < order@.len() ==> (#[trigger] order@[k]) < all@.len(),
            r@.len() == n,
            forall|k: int|
                0 <= k < n ==> *(#[trigger] r@[k]).display == messages[ranked[k]] && r@[k].seen@
                    == first_seen(*stages, messages[ranked[k]].text@),
        decreases order@.len() - n,
    {
        let k: usize = order[n];
        let display = all[k];
        assert(ranked[n as int] == k);
        assert(messages[k as int] == *display);
        let seen = if contains_text(&stages.early41, display.text.as_str()) {
            "early"
        } else if contains_text(&stages.early47, display.text.as_str()) {
            "mid"
        } else {
            "full"
        };
        r.push(CompositeDecodeRow { display, seen });
        n += 1;
    }
    r
}

#[derive(Debug)]
pub struct WebDecodeRow {
    pub seen: String,
    pub utc: String,
    pub snr_db: i32,
    pub dt_seconds: FloatBits,
    pub freq_hz: FloatBits,
    pub kind: String,
    pub field1: String,
    pub field1_select_call: Option<String>,
    pub field2: String,
    pub field2_select_call: Option<String>,
    pub info: String,
    pub text: String,
}

pub open spec fn shows_decode(
    shown: WebDecodeRow,
    decode: DecodedMessage,
    seen: Seq<char>,
) -> bool {
    &&& shown.seen@ == seen
    &&& shown.utc@ == decode.utc@
    &&& shown.snr_db == decode.snr_db
    &&& shown.dt_seconds == decode.dt_seconds
    &&& shown.freq_hz == decode.freq_hz
    &&& (shown.kind@, shown.field1@, shown.field2@, shown.info@) == message::columns(decode.message)
    &&& text::text_opt(shown.field1_select_call) == message::first_call_of(decode.message)
    &&& text::text_opt(shown.field2_select_call) == message::sender_of(decode.message)
    &&& shown.text@ == decode.text@
}

/// The rows of a slot's messages.
pub open spec fn shows_decodes(shown: Seq<WebDecodeRow>, stages: StageDecodes) -> bool {
    let order = row_order(stages.all());
    shown.len() == order.len() && forall|k: int|
        0 <= k < shown.len() ==> shows_decode(
            #[trigger] shown[k],
            stages.all()[order[k]],
            first_seen(stages, stages.all()[order[k]].text@),
        )
}

pub fn web_decode_rows(stages: &StageDecodes) -> (r: Vec<WebDecodeRow>)
    ensures
        shows_decodes(r@, *stages),
{
    let rows = composite_rows(stages);
    let mut r: Vec<WebDecodeRow> = Vec::new();
    let mut i: usize = 0;
    while i < rows.len()
        invariant
            i <= rows@.len(),
            r@.len() == i,
            forall|k: int|
                0 <= k < i ==> shows_decode(#[trigger] r@[k], *rows@[k].display, rows@[k].seen@),
        decreases rows@.len() - i,
    {
        let decode = rows[i].display;
        let (kind, field1, field2, info) = message::decode_columns(&decode.message);
        r.push(
            WebDecodeRow {
                seen: rows[i].seen.to_owned(),
                utc: decode.utc.clone(),
                snr_db: decode.snr_db,
                dt_seconds: decode.dt_seconds,
                freq_hz: decode.freq_hz,
                kind,
                field1,
                field1_select_call: message::semantic_first_call_display_call(&decode.message),
                field2,
                field2_select_call: message::semantic_sender_call(&decode.message),
                info,
                text: decode.text.clone(),
            },
        );
        i += 1;
    }
    assert(shows_decodes(r@, *stages)) by {
        let order = row_order(stages.all());
        assert forall|k: int| 0 <= k < r@.len() implies shows_decode(
            #[trigger] r@[k],
            stages.all()[order[k]],
            first_seen(*stages, stages.all()[order[k]].text@),
        ) by {
            assert(*rows@[k].display == stages.all()[order[k]]);
        }
    }
    r
}

/// What the decoder has found by the end of a stage: all messages, and of these the new ones and
/// those that have changed.
#[derive(Debug)]
pub struct StageDecodeReport {
    pub stage: DecodeStage,
    pub decodes: Vec<DecodedMessage>,
    pub new_decodes: Vec<DecodedMessage>,
    pub updated_decodes: Vec<DecodedMessage>,
}

/// The messages with another time, and nothing else changed.
pub open spec fn relabeled(
    before: Seq<DecodedMessage>,
    after: Seq<DecodedMessage>,
    label: Seq<char>,
) -> bool {
    after.len() == before.len() && forall|i: int|
        0 <= i < after.len() ==> (#[trigger] after[i]).utc@ == label && after[i] == (
        DecodedMessage { utc: after[i].utc, ..before[i] })
}

pub open spec fn report_relabeled(
    before: StageDecodeReport,
    after: StageDecodeReport,
    label: Seq<char>,
) -> bool {
    after.stage == before.stage && relabeled(before.decodes@, after.decodes@, label) && relabeled(
        before.new_decodes@,
        after.new_decodes@,
        label,
    ) && relabeled(before.updated_decodes@, after.updated_decodes@, label)
}

/// Puts the slot's time in place of each message's own.
pub fn relabel_stage_update(
    update: &mut StageDecodeReport,
    slot_start: Timestamp,
    mode: DecoderMode,
)
    requires
        clock::displayable(slot_start),
    ensures
        report_relabeled(*old(update), *final(update), slots::slot_label(mode, slot_start)),
{
    let slot_label = slots::format_slot_time_for_mode(mode, slot_start);
    relabel_decodes(&mut update.decodes, slot_label.as_str());
    relabel_decodes(&mut update.new_decodes, slot_label.as_str());
    relabel_decodes(&mut update.updated_decodes, slot_label.as_str());
}

/// The messages of a slot that is decoded at once: those of the last report that is not of the
/// first stage.
pub open spec fn last_reported(updates: Seq<StageDecodeReport>) -> Seq<DecodedMessage>
    decreases updates.len(),
{
    if updates.len() == 0 {
        Seq::empty()
    } else if updates.last().stage != DecodeStage::Early41 {
        updates.last().decodes@
    } else {
        last_reported(updates.drop_last())
    }
}

/// The messages of a slot that is decoded at once, under the time of the slot.
pub fn final_decodes(
    updates: Vec<StageDecodeReport>,
    slot_start: Timestamp,
    mode: DecoderMode,
) -> (r: Vec<DecodedMessage>)
    requires
        clock::displayable(slot_start),
    ensures
        relabeled(last_reported(updates@), r@, slots::slot_label(mode, slot_start)),
{
    let slot_label = slots::format_slot_time_for_mode(mode, slot_start);
    let ghost all = updates@;
    let mut updates = updates;
    let mut r: Vec<DecodedMessage> = Vec::new();
    let mut found = false;
    while !found && updates.len() > 0
        invariant
            !found ==> r@.len() == 0 && last_reported(updates@) == last_reported(all),
            found ==> r@ == last_reported(all),
        decreases updates@.len(),
    {
        let ghost before = updates@;
        if let Some(update) = updates.pop() {
            assert(updates@ == before.drop_last());
            if update.stage != DecodeStage::Early41 {
                r = update.decodes;
                found = true;
            }
        }
    }
    assert(r@ =~= last_reported(all));
    relabel_decodes(&mut r, slot_label.as_str());
    r
}

/// Puts a label in place of each message's own time.
fn relabel_decodes(decodes: &mut Vec<DecodedMessage>, label: &str)
    ensures
        relabeled(old(decodes)@, final(decodes)@, label@),
{
    let ghost start = decodes@;
    let mut i: usize = 0;
    while i < decodes.len()
        invariant
            i <= decodes@.len(),
            decodes@.len() == start.len(),
            forall|k: int|
                0 <= k < i ==> (#[trigger] decodes@[k]).utc@ == label@ && decodes@[k] == (
                DecodedMessage { utc: decodes@[k].utc, ..start[k] }),
            forall|k: int| i <= k < decodes@.len() ==> #[trigger] decodes@[k] == start[k],
        decreases decodes@.len() - i,
    {
        decodes[i].utc = label.to_owned();
        i += 1;
    }
}

/// The text is that of a message that is listed.
pub open spec fn is_listed(all: Seq<DecodedMessage>, s: Seq<char>) -> bool {
    exists|j: int| #[trigger] listed(all).contains(j) && all[j].text@ == s
}

/// Each text that any stage has brought is listed once, and nothing else.
pub proof fn law_each_text_is_listed_once(all: Seq<DecodedMessage>)
    ensures
        rank::is_ranking(row_order(all), listed(all), |i: int, j: int| above(all, i, j)),
        forall|i: int| 0 <= i < all.len() ==> is_listed(all, (#[trigger] all[i]).text@),
        forall|i: int, j: int|
            listed(all).contains(i) && listed(all).contains(j) && i != j ==> (
            #[trigger] all[i]).text@ != (#[trigger] all[j]).text@,
{
    let places = Set::new(|i: int| 0 <= i < all.len());
    let range = vstd::set_lib::set_int_range(0, all.len() as int);
    vstd::set_lib::lemma_int_range(0, all.len() as int);
    assert(listed(all).subset_of(range));
    vstd::set_lib::lemma_len_subset(listed(all), range);
    lemma_above_strict(all);
    assert(listed(all).subset_of(places));
    rank::lemma_ranking_exists(listed(all), |i: int, j: int| above(all, i, j));
    assert forall|i: int| 0 <= i < all.len() implies is_listed(all, (#[trigger] all[i]).text@) by {
        let j = lemma_last_of_text(all, i);
        assert(listed(all).contains(j));
    }
    assert forall|i: int, j: int|
        listed(all).contains(i) && listed(all).contains(j) && i != j implies (
    #[trigger] all[i]).text@ != (#[trigger] all[j]).text@ by {
        if i < j {
            assert(is_last(all, i));
        } else {
            assert(is_last(all, j));
        }
    }
}

proof fn lemma_last_of_text(all: Seq<DecodedMessage>, i: int) -> (j: int)
    requires
        0 <= i < all.len(),
    ensures
        i <= j < all.len(),
        is_last(all, j),
        all[j].text@ == all[i].text@,
    decreases all.len() - i,
{
    if is_last(all, i) {
        i
    } else {
        let k = choose|k: int| i < k < all.len() && (#[trigger] all[k]).text@ == all[i].text@;
        lemma_last_of_text(all, k)
    }
}

/// A text was first seen in the earliest stage whose messages hold it, and the messages of a slot
/// are those of its latest stage that brought any.
pub proof fn law_stages_of_a_slot(stages: StageDecodes, i: int)
    ensures
        0 <= i < stages.early41@.len() ==> first_seen(stages, stages.early41@[i].text@) == "early"@,
        0 <= i < stages.early47@.len() && (forall|k: int|
            0 <= k < stages.early41@.len() ==> (#[trigger] stages.early41@[k]).text@
                != stages.early47@[i].text@) ==> first_seen(stages, stages.early47@[i].text@)
            == "mid"@,
        0 <= i < stages.full@.len() && (forall|k: int|
            0 <= k < stages.early41@.len() ==> (#[trigger] stages.early41@[k]).text@
                != stages.full@[i].text@) && (forall|k: int|
            0 <= k < stages.early47@.len() ==> (#[trigger] stages.early47@[k]).text@
                != stages.full@[i].text@) ==> first_seen(stages, stages.full@[i].text@) == "full"@,
        stages.full@.len() > 0 ==> preferred(stages) == stages.full@,
        stages.full@.len() == 0 && stages.early47@.len() > 0 ==> preferred(stages)
            == stages.early47@,
        stages.full@.len() == 0 && stages.early47@.len() == 0 ==> preferred(stages)
            == stages.early41@,
{
}

/// The rows go up the band, and rows of one frequency are in the order of their texts.
pub proof fn law_rows_go_up_the_band(all: Seq<DecodedMessage>, a: int, b: int)
    requires
        0 <= a < b < row_order(all).len(),
    ensures
        ({
            let x = all[row_order(all)[a]];
            let y = all[row_order(all)[b]];
            floats::float_place(x.freq_hz) < floats::float_place(y.freq_hz) || (
            floats::float_place(x.freq_hz) == floats::float_place(y.freq_hz) && (text::text_lt(
                x.text@,
                y.text@,
            ) || x.text@ == y.text@))
        }),
{
    law_each_text_is_listed_once(all);
    let precedes = |i: int, j: int| above(all, i, j);
    assert(precedes(row_order(all)[a], row_order(all)[b]));
}

/// A slot that is decoded at once has the messages of the last report of its second stage or of the
/// whole slot.
pub proof fn law_messages_of_a_slot_at_once(updates: Seq<StageDecodeReport>, last: StageDecodeReport)
    ensures
        last.stage == DecodeStage::Full || last.stage == DecodeStage::Early47 ==> last_reported(
            updates.push(last),
        ) == last.decodes@,
        last.stage == DecodeStage::Early41 ==> last_reported(updates.push(last)) == last_reported(
            updates,
        ),
        last_reported(Seq::empty()).len() == 0,
{
    assert(updates.push(last).drop_last() =~= updates);
}

/// There is a row for each message that is listed, in the order of the list, with the text of the
/// message, its signal and its frequency, and the calls by which its stations are looked up.
pub proof fn law_a_row_for_each_message(
    shown: Seq<WebDecodeRow>,
    rows: Seq<CompositeDecodeRow<'_>>,
    stages: StageDecodes,
    k: int,
)
    requires
        shows_decodes(shown, stages),
        shows_rows(rows, stages),
        0 <= k < row_order(stages.all()).len(),
    ensures
        ({
            let message = stages.all()[row_order(stages.all())[k]];
            &&& shown.len() == row_order(stages.all()).len()
            &&& rows.len() == shown.len()
            &&& *rows[k].display == message
            &&& shown[k].text@ == message.text@
            &&& shown[k].snr_db == message.snr_db
            &&& shown[k].freq_hz == message.freq_hz
            &&& shown[k].dt_seconds == message.dt_seconds
            &&& text::text_opt(shown[k].field1_select_call) == message::first_call_of(
                message.message,
            )
            &&& text::text_opt(shown[k].field2_select_call) == message::sender_of(message.message)
            &&& shown[k].seen@ == rows[k].seen@
        }),
{
    assert(shows_decode(
        shown[k],
        stages.all()[row_order(stages.all())[k]],
        first_seen(stages, stages.all()[row_order(stages.all())[k]].text@),
    ));
    assert(*rows[k].display == stages.all()[row_order(stages.all())[k]]);
}

/// Under another time a message is the same message.
pub proof fn law_only_the_time_is_relabeled(
    before: Seq<DecodedMessage>,
    after: Seq<DecodedMessage>,
    label: Seq<char>,
    i: int,
)
    requires
        relabeled(before, after, label),
        0 <= i < before.len(),
    ensures
        after.len() == before.len(),
        after[i].utc@ == label,
        after[i].text == before[i].text,
        after[i].message == before[i].message,
        after[i].snr_db == before[i].snr_db,
        after[i].freq_hz == before[i].freq_hz,
{
}

} // verus!
