//! Who is heard where on the band, apart for the two slot families.

use vstd::prelude::*;
use vstd::string::*;

use crate::clock;
use crate::clock::Timestamp;
use crate::floats;
use crate::message;
use crate::message::{DecodedMessage, FloatBits};
use crate::queue;
use crate::queue::{QueueModel, WorkQueueState};
use crate::rank;
use crate::rank::IndexOrder;
use crate::scheduler;
use crate::slots;
use crate::slots::DecoderMode;
use crate::text;
use crate::text_map::TextMap;

verus! {

/// How many slots a station stays on the map.
pub const BANDMAP_MAX_AGE_SLOTS: u64 = 10;

/// How many columns of 400 Hz the map has.
pub const BANDMAP_COLUMNS: usize = 10;

#[derive(Debug)]
pub struct BandMapEntry {
    pub detail: Option<String>,
    pub freq_hz: FloatBits,
    pub last_seen_slot_index: u64,
}

#[verifier::ext_equal]
pub struct HeardModel {
    pub detail: Option<Seq<char>>,
    pub freq: FloatBits,
    pub slot_index: u64,
}

impl View for BandMapEntry {
    type V = HeardModel;

    open spec fn view(&self) -> HeardModel {
        HeardModel {
            detail: text::text_opt(self.detail),
            freq: self.freq_hz,
            slot_index: self.last_seen_slot_index,
        }
    }
}

pub type MapModel = Map<Seq<char>, HeardModel>;

pub open spec fn map_model(map: Map<Seq<char>, BandMapEntry>) -> MapModel {
    map.map_values(|e: BandMapEntry| e@)
}

#[derive(Debug)]
pub struct BandMapStore {
    pub even: TextMap<BandMapEntry>,
    pub odd: TextMap<BandMapEntry>,
    pub even_last_updated_at: Option<Timestamp>,
    pub odd_last_updated_at: Option<Timestamp>,
}

#[verifier::ext_equal]
pub struct StoreModel {
    pub even: MapModel,
    pub odd: MapModel,
    pub even_at: Option<Timestamp>,
    pub odd_at: Option<Timestamp>,
}

impl View for BandMapStore {
    type V = StoreModel;

    open spec fn view(&self) -> StoreModel {
        StoreModel {
            even: map_model(self.even@),
            odd: map_model(self.odd@),
            even_at: self.even_last_updated_at,
            odd_at: self.odd_last_updated_at,
        }
    }
}

pub open spec fn blank_store() -> StoreModel {
    StoreModel { even: Map::empty(), odd: Map::empty(), even_at: None, odd_at: None }
}

/// How many slots ago a station was heard.
pub open spec fn age_in_slots(current: int, heard: HeardModel) -> int {
    scheduler::less_or_none(current, heard.slot_index as int)
}

/// The stations heard in the last ten slots.
pub open spec fn fresh(map: MapModel, current: int) -> MapModel {
    Map::new(
        |c: Seq<char>| map.contains_key(c) && age_in_slots(current, map[c]) < BANDMAP_MAX_AGE_SLOTS,
        |c: Seq<char>| map[c],
    )
}

/// The map with the sender of a message put in.
pub open spec fn with_sender(map: MapModel, decode: DecodedMessage, slot_index: int) -> MapModel {
    match message::sender_of(decode.message) {
        Some(call) => map.insert(
            call,
            HeardModel {
                detail: message::detail_of(decode.message),
                freq: decode.freq_hz,
                slot_index: slot_index as u64,
            },
        ),
        None => map,
    }
}

pub open spec fn with_senders(
    map: MapModel,
    decodes: Seq<DecodedMessage>,
    slot_index: int,
) -> MapModel
    decreases decodes.len(),
{
    if decodes.len() == 0 {
        map
    } else {
        with_sender(
            with_senders(map, decodes.drop_last(), slot_index),
            decodes.last(),
            slot_index,
        )
    }
}

/// The maps once the messages of a slot have come in: the old entries go from both, the new ones go
/// to the map of the slot's family.
pub open spec fn updated(
    store: StoreModel,
    mode: DecoderMode,
    slot_start: Timestamp,
    decodes: Seq<DecodedMessage>,
) -> StoreModel {
    let index = slots::slot_index(mode, slot_start);
    let even = fresh(store.even, index);
    let odd = fresh(store.odd, index);
    match slots::slot_family(mode, slot_start) {
        slots::SlotFamily::Even => StoreModel {
            even: with_senders(even, decodes, index),
            odd,
            even_at: Some(slot_start),
            ..store
        },
        slots::SlotFamily::Odd => StoreModel {
            even,
            odd: with_senders(odd, decodes, index),
            odd_at: Some(slot_start),
            ..store
        },
    }
}

/// Drops the stations that have not been heard for ten slots.
pub fn prune_bandmap(map: &mut TextMap<BandMapEntry>, current_slot_index: u64)
    requires
        old(map).wf(),
    ensures
        final(map).wf(),
        map_model(final(map)@) == fresh(map_model(old(map)@), current_slot_index as int),
{
    let ghost start = map_model(map@);
    let mut left: TextMap<BandMapEntry> = TextMap::new();
    let mut done = false;
    while !done
        invariant
            map.wf(),
            left.wf(),
            forall|c: Seq<char>| #[trigger]
                map_model(map@).contains_key(c) ==> start.contains_key(c) && map_model(map@)[c]
                    == start[c],
            forall|c: Seq<char>| #[trigger]
                left@.contains_key(c) <==> start.contains_key(c) && !map_model(map@).contains_key(c)
                    && age_in_slots(current_slot_index as int, start[c]) < BANDMAP_MAX_AGE_SLOTS,
            forall|c: Seq<char>| #[trigger] left@.contains_key(c) ==> left@[c]@ == start[c],
            done ==> map@ == Map::<Seq<char>, BandMapEntry>::empty(),
        decreases map.keys().len() + (if done { 0int } else { 1 }),
    {
        let ghost rest = map_model(map@);
        match map.pop_last() {
            Some((call, entry)) => {
                let ghost key = call@;
                let ghost before = left@;
                assert(rest.contains_key(key) && rest[key] == entry@);
                assert(map_model(map@) =~= rest.remove(key));
                let kept = current_slot_index <= entry.last_seen_slot_index || current_slot_index
                    - entry.last_seen_slot_index < BANDMAP_MAX_AGE_SLOTS;
                if kept {
                    left.insert(call, entry);
                }
                proof {
                    assert forall|c: Seq<char>| #[trigger] map_model(map@).contains_key(c) implies start.contains_key(
                        c,
                    ) && map_model(map@)[c] == start[c] by {
                        assert(rest.contains_key(c));
                    }
                    assert forall|c: Seq<char>| #[trigger] left@.contains_key(c) <==> (
                    start.contains_key(c) && !map_model(map@).contains_key(c) && age_in_slots(
                        current_slot_index as int,
                        start[c],
                    ) < BANDMAP_MAX_AGE_SLOTS) by {
                        if c != key {
                            assert(before.contains_key(c) == left@.contains_key(c));
                            assert(rest.contains_key(c) == map_model(map@).contains_key(c));
                        }
                    }
                }
            },
            None => {
                done = true;
            },
        }
    }
    *map = left;
    assert(map_model(map@) =~= fresh(start, current_slot_index as int));
}

/// The calls that a message puts on the map, with what is shown of them.
pub fn bandmap_calls_from_decode(decode: &DecodedMessage) -> (r: Option<(String, Option<String>)>)
    ensures
        match r {
            Some((call, detail)) => message::sender_of(decode.message) == Some(call@)
                && text::text_opt(detail) == message::detail_of(decode.message),
            None => message::sender_of(decode.message) is None,
        },
{
    match message::semantic_sender_call(&decode.message) {
        Some(call) => Some((call, message::bandmap_detail(&decode.message))),
        None => None,
    }
}

fn put_senders(map: &mut TextMap<BandMapEntry>, decodes: &[DecodedMessage], slot_index: u64)
    requires
        old(map).wf(),
    ensures
        final(map).wf(),
        map_model(final(map)@) == with_senders(
            map_model(old(map)@),
            decodes@,
            slot_index as int,
        ),
{
    let ghost start = map_model(map@);
    let mut i: usize = 0;
    assert(decodes@.take(0) =~= Seq::<DecodedMessage>::empty());
    while i < decodes.len()
        invariant
            i <= decodes@.len(),
            map.wf(),
            map_model(map@) == with_senders(start, decodes@.take(i as int), slot_index as int),
        decreases decodes@.len() - i,
    {
        let ghost before = map_model(map@);
        assert(decodes@.take(i + 1).drop_last() =~= decodes@.take(i as int));
        assert(decodes@.take(i + 1).last() == decodes@[i as int]);
        if let Some((call, detail)) = bandmap_calls_from_decode(&decodes[i]) {
            let entry = BandMapEntry {
                detail,
                freq_hz: decodes[i].freq_hz,
                last_seen_slot_index: slot_index,
            };
            let ghost key = call@;
            map.insert(call, entry);
            assert(map_model(map@) =~= before.insert(key, entry@));
        }
        i += 1;
    }
    assert(decodes@.take(i as int) =~= decodes@);
}

impl BandMapStore {
    pub open spec fn wf(&self) -> bool {
        self.even.wf() && self.odd.wf()
    }

    pub fn new() -> (r: Self)
        ensures
            r.wf(),
            r@ == blank_store(),
    {
        let r = BandMapStore {
            even: TextMap::new(),
            odd: TextMap::new(),
            even_last_updated_at: None,
            odd_last_updated_at: None,
        };
        assert(r@ =~= blank_store());
        r
    }
}

pub fn update_bandmaps(
    store: &mut BandMapStore,
    mode: DecoderMode,
    slot_start: Timestamp,
    decodes: &[DecodedMessage],
)
    requires
        old(store).wf(),
    ensures
        final(store).wf(),
        final(store)@ == updated(old(store)@, mode, slot_start, decodes@),
{
    let slot_index: u64 = slots::slot_index_for_mode(mode, slot_start);
    prune_bandmap(&mut store.even, slot_index);
    prune_bandmap(&mut store.odd, slot_index);
    if slots::is_even_slot_family_for_mode(mode, slot_start) {
        store.even_last_updated_at = Some(slot_start);
        put_senders(&mut store.even, decodes, slot_index);
    } else {
        store.odd_last_updated_at = Some(slot_start);
        put_senders(&mut store.odd, decodes, slot_index);
    }
}

pub fn clear_bandmaps(store: &mut BandMapStore)
    ensures
        final(store).wf(),
        final(store)@ == blank_store(),
{
    store.even.clear();
    store.odd.clear();
    store.even_last_updated_at = None;
    store.odd_last_updated_at = None;
    assert(store@ =~= blank_store());
}

/// How many whole seconds ago the map was updated.
pub open spec fn age_of(updated_at: Option<Timestamp>, now: Timestamp) -> Option<int> {
    match updated_at {
        Some(t) => Some(clock::since(now, t) / 1_000_000_000),
        None => None,
    }
}

pub fn bandmap_age_seconds(last_updated_at: Option<Timestamp>, now: Timestamp) -> (r: Option<u128>)
    ensures
        (match r {
            Some(age) => Some(age as int),
            None => None,
        }) == age_of(last_updated_at, now),
{
    match last_updated_at {
        Some(t) => Some(clock::elapsed(now, t) / 1_000_000_000),
        None => None,
    }
}

/// The column of a frequency: the bits of the floats 0, 400, 800 and so on up to 4000 part the
/// columns. A frequency below nothing or from 4000 Hz on has none.
pub open spec fn column_of(freq: FloatBits) -> Option<int> {
    if freq == 0x8000_0000 || freq < 0x43c8_0000 {
        Some(0)
    } else if freq < 0x4448_0000 {
        Some(1)
    } else if freq < 0x4496_0000 {
        Some(2)
    } else if freq < 0x44c8_0000 {
        Some(3)
    } else if freq < 0x44fa_0000 {
        Some(4)
    } else if freq < 0x4516_0000 {
        Some(5)
    } else if freq < 0x452f_0000 {
        Some(6)
    } else if freq < 0x4548_0000 {
        Some(7)
    } else if freq < 0x4561_0000 {
        Some(8)
    } else if freq < 0x457a_0000 {
        Some(9)
    } else {
        None
    }
}

/// The column of a frequency.
pub fn bandmap_column(freq: FloatBits) -> (r: Option<usize>)
    ensures
        (match r {
            Some(c) => Some(c as int),
            None => None,
        }) == column_of(freq),
        r matches Some(c) ==> c < BANDMAP_COLUMNS,
{
    if freq == 0x8000_0000 || freq < 0x43c8_0000 {
        Some(0)
    } else if freq < 0x4448_0000 {
        Some(1)
    } else if freq < 0x4496_0000 {
        Some(2)
    } else if freq < 0x44c8_0000 {
        Some(3)
    } else if freq < 0x44fa_0000 {
        Some(4)
    } else if freq < 0x4516_0000 {
        Some(5)
    } else if freq < 0x452f_0000 {
        Some(6)
    } else if freq < 0x4548_0000 {
        Some(7)
    } else if freq < 0x4561_0000 {
        Some(8)
    } else if freq < 0x457a_0000 {
        Some(9)
    } else {
        None
    }
}

#[derive(Debug)]
pub struct WebBandMapCall {
    pub callsign: String,
    pub detail: Option<String>,
    pub age_slots: u64,
    pub worked_recently: bool,
}

pub open spec fn shows_call(
    shown: WebBandMapCall,
    callsign: Seq<char>,
    heard: HeardModel,
    current: int,
    queue: QueueModel,
    now: Timestamp,
) -> bool {
    &&& shown.callsign@ == callsign
    &&& text::text_opt(shown.detail) == heard.detail
    &&& shown.age_slots == age_in_slots(current, heard)
    &&& shown.worked_recently == queue::worked_here(queue, callsign, now)
}

/// The places, among the calls of the map, of those in a column.
pub open spec fn in_column(
    calls: Seq<Seq<char>>,
    map: MapModel,
    current: int,
    column: int,
) -> Set<int> {
    Set::new(
        |i: int|
            0 <= i < calls.len() && age_in_slots(current, map[calls[i]]) < BANDMAP_MAX_AGE_SLOTS
                && column_of(map[calls[i]].freq) == Some(column),
    )
}

/// Calls go by frequency, those on one frequency by name.
pub open spec fn lower_on_band(calls: Seq<Seq<char>>, map: MapModel, i: int, j: int) -> bool {
    let a = floats::float_place(map[calls[i]].freq);
    let b = floats::float_place(map[calls[j]].freq);
    a < b || (a == b && text::text_lt(calls[i], calls[j]))
}

pub open spec fn column_order(
    calls: Seq<Seq<char>>,
    map: MapModel,
    current: int,
    column: int,
) -> Seq<int> {
    rank::ranking(
        in_column(calls, map, current, column),
        |i: int, j: int| lower_on_band(calls, map, i, j),
    )
}

/// The cell of a column lists its calls, the lowest first.
pub open spec fn shows_cell(
    cell: Seq<WebBandMapCall>,
    calls: Seq<Seq<char>>,
    map: MapModel,
    current: int,
    column: int,
    queue: QueueModel,
    now: Timestamp,
) -> bool {
    let order = column_order(calls, map, current, column);
    cell.len() == order.len() && forall|k: int|
        0 <= k < cell.len() ==> shows_call(
            #[trigger] cell[k],
            calls[order[k]],
            map[calls[order[k]]],
            current,
            queue,
            now,
        )
}

/// The grid has one row with a cell for each column.
pub open spec fn shows_grid(
    grid: Seq<Vec<Vec<WebBandMapCall>>>,
    calls: Seq<Seq<char>>,
    map: MapModel,
    current: int,
    queue: QueueModel,
    now: Timestamp,
) -> bool {
    &&& grid.len() == 1
    &&& grid[0]@.len() == BANDMAP_COLUMNS
    &&& forall|c: int|
        0 <= c < BANDMAP_COLUMNS ==> shows_cell(
            (#[trigger] grid[0]@[c])@,
            calls,
            map,
            current,
            c,
            queue,
            now,
        )
}

struct BandOrder<'a> {
    map: &'a TextMap<BandMapEntry>,
}

impl<'a> IndexOrder for BandOrder<'a> {
    closed spec fn count(&self) -> nat {
        self.map.keys().len()
    }

    closed spec fn valid(&self) -> bool {
        self.map.wf()
    }

    closed spec fn precedes(&self, i: int, j: int) -> bool {
        lower_on_band(self.map.keys(), map_model(self.map@), i, j)
    }

    proof fn lemma_strict(&self) {
        lemma_band_order_strict(self.map.keys(), map_model(self.map@));
        assert((|i: int, j: int| self.precedes(i, j)) =~= (|i: int, j: int|
            lower_on_band(self.map.keys(), map_model(self.map@), i, j)));
    }

    fn before(&self, i: usize, j: usize) -> (r: bool) {
        proof {
            self.map.lemma_entries();
            assert(self.map@.contains_key(self.map.keys()[i as int]));
            assert(self.map@.contains_key(self.map.keys()[j as int]));
        }
        let a: u64 = floats::place_of_float(self.map.value_at(i).freq_hz);
        let b: u64 = floats::place_of_float(self.map.value_at(j).freq_hz);
        a < b || (a == b && text::text_less(
            self.map.key_at(i).as_str(),
            self.map.key_at(j).as_str(),
        ))
    }
}

pub proof fn lemma_band_order_strict(calls: Seq<Seq<char>>, map: MapModel)
    requires
        text::ascending(calls),
    ensures
        rank::is_strict_order(
            Set::new(|i: int| 0 <= i < calls.len()),
            |i: int, j: int| lower_on_band(calls, map, i, j),
        ),
{
    let precedes = |i: int, j: int| lower_on_band(calls, map, i, j);
    assert forall|i: int| !#[trigger] precedes(i, i) by {
        text::lemma_text_lt_irreflexive(calls[i]);
    }
    assert forall|i: int, j: int, k: int| #[trigger] precedes(i, j) && #[trigger] precedes(j, k) implies precedes(
        i,
        k,
    ) by {
        if text::text_lt(calls[i], calls[j]) && text::text_lt(calls[j], calls[k]) {
            text::lemma_text_lt_transitive(calls[i], calls[j], calls[k]);
        }
    }
    assert forall|i: int, j: int|
        0 <= i < calls.len() && 0 <= j < calls.len() && i != j implies #[trigger] precedes(i, j)
        || precedes(j, i) by {
        if i < j {
            assert(text::text_lt(calls[i], calls[j]));
        } else {
            assert(text::text_lt(calls[j], calls[i]));
        }
    }
}

fn column_places(
    map: &TextMap<BandMapEntry>,
    current_slot_index: u64,
    column: usize,
) -> (r: Vec<usize>)
    requires
        map.wf(),
    ensures
        r@.no_duplicates(),
        forall|k: int| 0 <= k < r@.len() ==> (#[trigger] r@[k]) < map.keys().len(),
        rank::as_ints(r@).to_set() == in_column(
            map.keys(),
            map_model(map@),
            current_slot_index as int,
            column as int,
        ),
{
    let ghost places = in_column(
        map.keys(),
        map_model(map@),
        current_slot_index as int,
        column as int,
    );
    let n: usize = map.len();
    let mut r: Vec<usize> = Vec::new();
    let mut i: usize = 0;
    while i < n
        invariant
            i <= n == map.keys().len(),
            map.wf(),
            places == in_column(
                map.keys(),
                map_model(map@),
                current_slot_index as int,
                column as int,
            ),
            r@.no_duplicates(),
            forall|k: int| 0 <= k < r@.len() ==> (#[trigger] r@[k]) < i,
            forall|k: int|
                0 <= k < i ==> (rank::as_ints(r@).contains(k) <==> #[trigger] places.contains(k)),
        decreases n - i,
    {
        let ghost before = r@;
        proof {
            map.lemma_entries();
            assert(map@.contains_key(map.keys()[i as int]));
        }
        let entry = map.value_at(i);
        assert(map_model(map@)[map.keys()[i as int]] == entry@);
        let age: u64 = if current_slot_index > entry.last_seen_slot_index {
            current_slot_index - entry.last_seen_slot_index
        } else {
            0
        };
        let here = match bandmap_column(entry.freq_hz) {
            Some(c) => c == column,
            None => false,
        };
        let shown = age < BANDMAP_MAX_AGE_SLOTS && here;
        if shown {
            r.push(i);
        }
        proof {
            rank::lemma_places_step(before, r@, i, shown);
            assert(places.contains(i as int) == shown);
            assert forall|k: int| 0 <= k < i + 1 implies (rank::as_ints(r@).contains(k)
                <==> #[trigger] places.contains(k)) by {
                if k < i {
                    assert(rank::as_ints(r@).contains(k) <==> rank::as_ints(before).contains(k));
                }
            }
        }
        i += 1;
    }
    proof {
        let ints = rank::as_ints(r@);
        assert forall|k: int| #[trigger] ints.to_set().contains(k) <==> places.contains(k) by {
            if ints.contains(k) {
                let at = ints.index_of(k);
                assert(r@[at] == k);
            }
        }
        assert(ints.to_set() =~= places);
    }
    r
}

fn bandmap_cell(
    map: &TextMap<BandMapEntry>,
    current_slot_index: u64,
    column: usize,
    work_queue: &WorkQueueState,
    now: Timestamp,
) -> (r: Vec<WebBandMapCall>)
    requires
        map.wf(),
        work_queue.wf(),
    ensures
        shows_cell(
            r@,
            map.keys(),
            map_model(map@),
            current_slot_index as int,
            column as int,
            work_queue@,
            now,
        ),
{
    let ghost calls = map.keys();
    let ghost model = map_model(map@);
    let places = column_places(map, current_slot_index, column);
    let by = BandOrder { map };
    let order = rank::rank(&by, &places);
    let ghost ranked = column_order(calls, model, current_slot_index as int, column as int);
    proof {
        assert((|i: int, j: int| by.precedes(i, j)) =~= (|i: int, j: int|
            lower_on_band(calls, model, i, j)));
        assert(rank::as_ints(order@) == ranked);
    }
    let mut r: Vec<WebBandMapCall> = Vec::new();
    let mut n: usize = 0;
    while n < order.len()
        invariant
            n <= order@.len(),
            map.wf(),
            work_queue.wf(),
            calls == map.keys(),
            model == map_model(map@),
            ranked == rank::as_ints(order@),
            forall|k: int| 0 <= k < order@.len() ==> (#[trigger] order@[k]) < calls.len(),
            r@.len() == n,
            forall|k: int|
                0 <= k < n ==> shows_call(
                    #[trigger] r@[k],
                    calls[ranked[k]],
                    model[calls[ranked[k]]],
                    current_slot_index as int,
                    work_queue@,
                    now,
                ),
        decreases order@.len() - n,
    {
        let k: usize = order[n];
        proof {
            map.lemma_entries();
            assert(map@.contains_key(map.keys()[k as int]));
            assert(ranked[n as int] == k);
        }
        let entry = map.value_at(k);
        let call = map.key_at(k);
        assert(model[calls[k as int]] == entry@);
        let age_slots: u64 = if current_slot_index > entry.last_seen_slot_index {
            current_slot_index - entry.last_seen_slot_index
        } else {
            0
        };
        r.push(
            WebBandMapCall {
                callsign: call.clone(),
                detail: text::clone_opt(&entry.detail),
                age_slots,
                worked_recently: work_queue.was_worked_recently_on_current_band(
                    call.as_str(),
                    now,
                ),
            },
        );
        n += 1;
    }
    r
}

/// The map as it is shown: a cell for each 400 Hz.
pub fn build_bandmap_grid(
    map: &TextMap<BandMapEntry>,
    current_slot_index: u64,
    work_queue: &WorkQueueState,
    now: Timestamp,
) -> (r: Vec<Vec<Vec<WebBandMapCall>>>)
    requires
        map.wf(),
        work_queue.wf(),
    ensures
        shows_grid(
            r@,
            map.keys(),
            map_model(map@),
            current_slot_index as int,
            work_queue@,
            now,
        ),
{
    let mut row: Vec<Vec<WebBandMapCall>> = Vec::new();
    let mut c: usize = 0;
    while c < BANDMAP_COLUMNS
        invariant
            c <= BANDMAP_COLUMNS,
            map.wf(),
            work_queue.wf(),
            row@.len() == c,
            forall|k: int|
                0 <= k < c ==> shows_cell(
                    (#[trigger] row@[k])@,
                    map.keys(),
                    map_model(map@),
                    current_slot_index as int,
                    k,
                    work_queue@,
                    now,
                ),
        decreases BANDMAP_COLUMNS - c,
    {
        row.push(bandmap_cell(map, current_slot_index, c, work_queue, now));
        c += 1;
    }
    let mut grid: Vec<Vec<Vec<WebBandMapCall>>> = Vec::new();
    grid.push(row);
    assert(grid@[0] == row);
    grid
}

#[derive(Debug)]
pub struct WebBandMaps {
    pub even: Vec<Vec<Vec<WebBandMapCall>>>,
    pub odd: Vec<Vec<Vec<WebBandMapCall>>>,
    pub even_age_seconds: Option<u128>,
    pub odd_age_seconds: Option<u128>,
}

pub open spec fn seconds_opt(seconds: Option<u128>) -> Option<int> {
    match seconds {
        Some(s) => Some(s as int),
        None => None,
    }
}

/// Both maps as they are shown.
pub open spec fn shows_bandmaps(
    shown: WebBandMaps,
    store: BandMapStore,
    current: int,
    queue: QueueModel,
    now: Timestamp,
) -> bool {
    &&& shows_grid(shown.even@, store.even.keys(), store@.even, current, queue, now)
    &&& shows_grid(shown.odd@, store.odd.keys(), store@.odd, current, queue, now)
    &&& seconds_opt(shown.even_age_seconds) == age_of(store.even_last_updated_at, now)
    &&& seconds_opt(shown.odd_age_seconds) == age_of(store.odd_last_updated_at, now)
}

pub fn web_bandmaps(
    store: &BandMapStore,
    current_slot_index: u64,
    work_queue: &WorkQueueState,
    now: Timestamp,
) -> (r: WebBandMaps)
    requires
        store.wf(),
        work_queue.wf(),
    ensures
        shows_bandmaps(r, *store, current_slot_index as int, work_queue@, now),
{
    WebBandMaps {
        even: build_bandmap_grid(&store.even, current_slot_index, work_queue, now),
        odd: build_bandmap_grid(&store.odd, current_slot_index, work_queue, now),
        even_age_seconds: bandmap_age_seconds(store.even_last_updated_at, now),
        odd_age_seconds: bandmap_age_seconds(store.odd_last_updated_at, now),
    }
}

proof fn lemma_with_senders(
    map: MapModel,
    decodes: Seq<DecodedMessage>,
    index: int,
    call: Seq<char>,
)
    requires
        0 <= index <= u64::MAX,
    ensures
        with_senders(map, decodes, index).contains_key(call) ==> map.contains_key(call) || with_senders(
            map,
            decodes,
            index,
        )[call].slot_index == index,
        map.contains_key(call) ==> with_senders(map, decodes, index).contains_key(call),
        with_senders(map, decodes, index).contains_key(call) ==> with_senders(
            map,
            decodes,
            index,
        )[call].slot_index == index || (map.contains_key(call) && with_senders(
            map,
            decodes,
            index,
        )[call] == map[call]),
    decreases decodes.len(),
{
    if decodes.len() > 0 {
        lemma_with_senders(map, decodes.drop_last(), index, call);
    }
}

/// After an update every station on either map was heard in the last ten slots; the map of the other
/// family gets no new station.
pub proof fn law_update_keeps_maps_fresh(
    store: StoreModel,
    mode: DecoderMode,
    slot_start: Timestamp,
    decodes: Seq<DecodedMessage>,
    call: Seq<char>,
)
    ensures
        ({
            let after = updated(store, mode, slot_start, decodes);
            let index = slots::slot_index(mode, slot_start);
            &&& after.even.contains_key(call) ==> age_in_slots(index, after.even[call])
                < BANDMAP_MAX_AGE_SLOTS
            &&& after.odd.contains_key(call) ==> age_in_slots(index, after.odd[call])
                < BANDMAP_MAX_AGE_SLOTS
            &&& slots::slot_family(mode, slot_start) == slots::SlotFamily::Even
                ==> after.odd.dom().subset_of(store.odd.dom())
            &&& slots::slot_family(mode, slot_start) == slots::SlotFamily::Odd
                ==> after.even.dom().subset_of(store.even.dom())
        }),
{
    let index = slots::slot_index(mode, slot_start);
    lemma_with_senders(fresh(store.even, index), decodes, index, call);
    lemma_with_senders(fresh(store.odd, index), decodes, index, call);
}

/// One of the messages is sent by that station.
pub open spec fn sends(decodes: Seq<DecodedMessage>, call: Seq<char>) -> bool {
    exists|k: int| 0 <= k < decodes.len() && message::sender_of((#[trigger] decodes[k]).message)
        == Some(call)
}

proof fn lemma_put(map: MapModel, decodes: Seq<DecodedMessage>, index: int, call: Seq<char>)
    requires
        0 <= index <= u64::MAX,
    ensures
        with_senders(map, decodes, index).contains_key(call) <==> map.contains_key(call) || sends(
            decodes,
            call,
        ),
        !sends(decodes, call) && map.contains_key(call) ==> with_senders(map, decodes, index)[call]
            == map[call],
        sends(decodes, call) ==> with_senders(map, decodes, index)[call].slot_index == index
            && exists|k: int|
            0 <= k < decodes.len() && message::sender_of((#[trigger] decodes[k]).message) == Some(
                call,
            ) && with_senders(map, decodes, index)[call].freq == decodes[k].freq_hz && (forall|
                later: int,
            |
                k < later < decodes.len() ==> message::sender_of(
                    (#[trigger] decodes[later]).message,
                ) != Some(call)),
    decreases decodes.len(),
{
    if decodes.len() > 0 {
        let rest = decodes.drop_last();
        let last = decodes.len() - 1;
        lemma_put(map, rest, index, call);
        assert(decodes[last] == decodes.last());
        assert forall|k: int| 0 <= k < rest.len() implies rest[k] == decodes[k] by {}
        if message::sender_of(decodes.last().message) == Some(call) {
            assert(sends(decodes, call));
        } else {
            assert(sends(decodes, call) == sends(rest, call)) by {
                if sends(rest, call) {
                    let k = choose|k: int|
                        0 <= k < rest.len() && message::sender_of((#[trigger] rest[k]).message)
                            == Some(call);
                    assert(message::sender_of(decodes[k].message) == Some(call));
                }
                if sends(decodes, call) {
                    let k = choose|k: int|
                        0 <= k < decodes.len() && message::sender_of(
                            (#[trigger] decodes[k]).message,
                        ) == Some(call);
                    assert(rest[k] == decodes[k]);
                }
            }
            if sends(rest, call) {
                let k = choose|k: int|
                    0 <= k < rest.len() && message::sender_of((#[trigger] rest[k]).message) == Some(
                        call,
                    ) && with_senders(map, rest, index)[call].freq == rest[k].freq_hz && (forall|
                        later: int,
                    |
                        k < later < rest.len() ==> message::sender_of(
                            (#[trigger] rest[later]).message,
                        ) != Some(call));
                assert(decodes[k] == rest[k]);
                assert forall|later: int| k < later < decodes.len() implies message::sender_of(
                    (#[trigger] decodes[later]).message,
                ) != Some(call) by {
                    if later < last {
                        assert(rest[later] == decodes[later]);
                    }
                }
            }
        }
    }
}

/// The map of a slot's family shows whoever sends in the slot, where it was heard last, and whoever
/// was heard in the ten slots up to this one; the other map shows whoever of it was heard in these,
/// and nobody new.
pub proof fn law_who_is_on_the_maps(
    store: StoreModel,
    mode: DecoderMode,
    slot_start: Timestamp,
    decodes: Seq<DecodedMessage>,
    call: Seq<char>,
)
    ensures
        ({
            let after = updated(store, mode, slot_start, decodes);
            let index = slots::slot_index(mode, slot_start);
            let even = slots::slot_family(mode, slot_start) == slots::SlotFamily::Even;
            let (mine, mine_before, other, other_before) = if even {
                (after.even, store.even, after.odd, store.odd)
            } else {
                (after.odd, store.odd, after.even, store.even)
            };
            &&& mine.contains_key(call) <==> sends(decodes, call) || (mine_before.contains_key(call)
                && index - mine_before[call].slot_index < 10)
            &&& other.contains_key(call) <==> other_before.contains_key(call) && index
                - other_before[call].slot_index < 10
            &&& other.contains_key(call) ==> other[call] == other_before[call]
            &&& sends(decodes, call) ==> mine[call].slot_index == index && exists|k: int|
                0 <= k < decodes.len() && message::sender_of((#[trigger] decodes[k]).message)
                    == Some(call) && mine[call].freq == decodes[k].freq_hz
            &&& !sends(decodes, call) && mine.contains_key(call) ==> mine[call] == mine_before[call]
            &&& even ==> after.even_at == Some(slot_start) && after.odd_at == store.odd_at
            &&& !even ==> after.odd_at == Some(slot_start) && after.even_at == store.even_at
        }),
{
    let index = slots::slot_index(mode, slot_start);
    lemma_put(fresh(store.even, index), decodes, index, call);
    lemma_put(fresh(store.odd, index), decodes, index, call);
}

/// The columns go up with the frequency: of two frequencies that have a column, the greater one is
/// not to the left of the other; what lies between two frequencies of one column is in it; and what
/// is not below 4000 Hz has none.
pub proof fn law_columns_go_up_the_band(a: FloatBits, b: FloatBits)
    requires
        a <= b < 0x7f80_0000,
    ensures
        column_of(b) matches Some(right) ==> (column_of(a) matches Some(left) && 0 <= left <= right
            < 10),
        column_of(b) is None <==> floats::at_most(0x457a_0000, b),
        column_of(b) == Some(0int) <==> floats::less(b, 0x43c8_0000),
{
}

/// Each column is four hundred hertz wide: a frequency from 400 Hz up to 4000 Hz, which as a float is
/// a mantissa over a power of two, is in the column that the whole number of 400 Hz in it tells.
pub proof fn law_columns_are_400_hz_wide(freq: FloatBits)
    requires
        0x43c8_0000 <= freq < 0x457a_0000,
    ensures
        ({
            let mantissa = 0x80_0000 + freq % 0x80_0000;
            let exponent = freq / 0x80_0000;
            let over: int = if exponent == 135 {
                32_768
            } else if exponent == 136 {
                16_384
            } else if exponent == 137 {
                8_192
            } else {
                4_096
            };
            &&& 135 <= exponent <= 138
            &&& column_of(freq) matches Some(column) && 400 * column * over <= mantissa < 400 * (
            column + 1) * over
        }),
{
}

/// A station on the map is shown with what it sent and how many slots ago that was, and marked where
/// it was worked on the current band within a day.
pub proof fn law_what_is_shown_of_a_station(
    shown: WebBandMapCall,
    callsign: Seq<char>,
    heard: HeardModel,
    current: int,
    queue: QueueModel,
    now: Timestamp,
)
    requires
        shows_call(shown, callsign, heard, current, queue, now),
        heard.slot_index <= current,
    ensures
        shown.callsign@ == callsign,
        text::text_opt(shown.detail) == heard.detail,
        shown.age_slots == current - heard.slot_index,
        shown.worked_recently <==> (queue.band matches Some(band) && queue.worked.contains_key(
            (callsign, band),
        ) && now - queue.worked[(callsign, band)] <= 86_400_000_000_000),
{
}

/// In a column stand the stations that were heard in the last ten slots on its frequencies, each
/// once, and the lower ones before the higher.
pub proof fn law_column_goes_up_the_band(
    calls: Seq<Seq<char>>,
    map: MapModel,
    current: int,
    column: int,
    i: int,
)
    requires
        text::ascending(calls),
    ensures
        ({
            let order = column_order(calls, map, current, column);
            &&& order.contains(i) <==> 0 <= i < calls.len() && current - map[calls[i]].slot_index < 10
                && column_of(map[calls[i]].freq) == Some(column)
            &&& forall|a: int, b: int|
                0 <= a < b < order.len() ==> (#[trigger] order[a]) != (#[trigger] order[b])
                    && floats::float_place(map[calls[order[a]]].freq) <= floats::float_place(
                    map[calls[order[b]]].freq,
                )
        }),
{
    let members = in_column(calls, map, current, column);
    let precedes = |i: int, j: int| lower_on_band(calls, map, i, j);
    let places = Set::new(|i: int| 0 <= i < calls.len());
    let range = vstd::set_lib::set_int_range(0, calls.len() as int);
    vstd::set_lib::lemma_int_range(0, calls.len() as int);
    assert(members.subset_of(range));
    vstd::set_lib::lemma_len_subset(members, range);
    lemma_band_order_strict(calls, map);
    assert(members.subset_of(places));
    rank::lemma_ranking_exists(members, precedes);
    let order = column_order(calls, map, current, column);
    assert forall|a: int, b: int| 0 <= a < b < order.len() implies (#[trigger] order[a]) != (
    #[trigger] order[b]) && floats::float_place(map[calls[order[a]]].freq) <= floats::float_place(
        map[calls[order[b]]].freq,
    ) by {
        assert(precedes(order[a], order[b]));
        text::lemma_text_lt_irreflexive(calls[order[a]]);
    }
    assert(members.contains(i) <==> order.contains(i));
}

/// A cell has an entry for each station of its column, in the order of the column.
pub proof fn law_an_entry_for_each_station(
    cell: Seq<WebBandMapCall>,
    calls: Seq<Seq<char>>,
    map: MapModel,
    current: int,
    column: int,
    queue: QueueModel,
    now: Timestamp,
    k: int,
)
    requires
        shows_cell(cell, calls, map, current, column, queue, now),
        0 <= k < column_order(calls, map, current, column).len(),
    ensures
        cell.len() == column_order(calls, map, current, column).len(),
        cell[k].callsign@ == calls[column_order(calls, map, current, column)[k]],
{
    assert(shows_call(
        cell[k],
        calls[column_order(calls, map, current, column)[k]],
        map[calls[column_order(calls, map, current, column)[k]]],
        current,
        queue,
        now,
    ));
}

} // verus!
