//! What the contact log tells of the last day: the contacts, our transmissions, and which stations
//! were worked.

use vstd::prelude::*;
use vstd::string::*;

use crate::clock;
use crate::clock::Timestamp;
use crate::exchange;
use crate::log_record;
use crate::log_record::{LogRecord, RecordModel};
use crate::rank;
use crate::rank::IndexOrder;
use crate::sessions;
use crate::sessions::{SessionModel, SessionSummary};
use crate::text;
use crate::tracker;
use crate::tracker::{DirectCallModel, WebDirectCallLog};
use crate::worked;
use crate::worked::{WorkedLog, WorkedModel};

verus! {

/// How often the log is looked at: every two seconds.
pub const QSO_JSONL_REFRESH_INTERVAL: u128 = 2_000_000_000;

/// A contact as it is listed.
#[derive(Debug)]
pub struct WebQsoHistoryEntry {
    pub time: String,
    pub age: String,
    pub age_seconds: u64,
    pub callsign: String,
    pub band: String,
    pub mode: String,
    pub sent_info: String,
    pub received_info: String,
    pub got_roger: bool,
    pub got_reply: bool,
    pub reached_73: bool,
    pub exit_reason: String,
}

impl Clone for WebQsoHistoryEntry {
    fn clone(&self) -> (r: WebQsoHistoryEntry)
        ensures
            r == *self,
    {
        WebQsoHistoryEntry {
            time: self.time.clone(),
            age: self.age.clone(),
            age_seconds: self.age_seconds,
            callsign: self.callsign.clone(),
            band: self.band.clone(),
            mode: self.mode.clone(),
            sent_info: self.sent_info.clone(),
            received_info: self.received_info.clone(),
            got_roger: self.got_roger,
            got_reply: self.got_reply,
            reached_73: self.reached_73,
            exit_reason: self.exit_reason.clone(),
        }
    }
}

/// The time of a contact: when it ended, or when it was last heard of.
pub open spec fn session_time(s: SessionModel) -> Option<Timestamp> {
    match (s.ended, s.last_seen) {
        (Some(t), _) => Some(t),
        (None, Some(t)) => Some(t),
        (None, None) => s.started,
    }
}

pub open spec fn age_seconds(s: SessionModel, now: Timestamp) -> int {
    clock::since(now, session_time(s)->0) / 1_000_000_000
}

pub open spec fn or_dash(value: Option<Seq<char>>) -> Seq<char> {
    match value {
        Some(v) => v,
        None => "-"@,
    }
}

pub open spec fn joined_or_dash(values: Seq<Seq<char>>) -> Seq<char> {
    if values.len() == 0 {
        "-"@
    } else {
        text::joined(values, ", "@)
    }
}

/// The row of a contact.
pub open spec fn shows_contact(shown: WebQsoHistoryEntry, s: SessionModel, now: Timestamp) -> bool {
    &&& session_time(s) matches Some(time) && shown.time@ == clock::written(
        time,
        clock::TimeStyle::DateTime,
    )
    &&& shown.age@ == clock::relative_age(age_seconds(s, now))
    &&& shown.age_seconds == age_seconds(s, now)
    &&& shown.callsign@ == s.partner
    &&& shown.band@ == or_dash(s.band)
    &&& shown.mode@ == or_dash(s.mode)
    &&& shown.sent_info@ == joined_or_dash(s.sent_infos)
    &&& shown.received_info@ == joined_or_dash(s.received_infos)
    &&& shown.got_roger == s.got_roger
    &&& shown.got_reply == s.got_reply
    &&& shown.reached_73 == s.reached_73
    &&& shown.exit_reason@ == (match s.exit_reason {
        Some(reason) => reason,
        None => "in_progress"@,
    })
}

/// The contacts of the last day.
pub open spec fn of_last_day(all: Seq<SessionModel>, now: Timestamp) -> Set<int> {
    Set::new(
        |i: int|
            0 <= i < all.len() && session_time(all[i]) is Some && age_seconds(all[i], now) <= 86_400,
    )
}

pub open spec fn time_key(s: SessionModel) -> int {
    match session_time(s) {
        Some(t) => t as int,
        None => 0,
    }
}

/// The latest contact comes first; of two at one time, the one of the lesser session, then the one
/// that began first.
pub open spec fn listed_before(all: Seq<SessionModel>, i: int, j: int) -> bool {
    let a = time_key(all[i]);
    let b = time_key(all[j]);
    a > b || (a == b && (all[i].id < all[j].id || (all[i].id == all[j].id && i < j)))
}

pub open spec fn history_order(all: Seq<SessionModel>, now: Timestamp) -> Seq<int> {
    rank::ranking(of_last_day(all, now), |i: int, j: int| listed_before(all, i, j))
}

/// The rows are those of the last day's contacts, the latest first.
pub open spec fn shows_history(
    rows: Seq<WebQsoHistoryEntry>,
    all: Seq<SessionModel>,
    now: Timestamp,
) -> bool {
    let order = history_order(all, now);
    rows.len() == order.len() && forall|k: int|
        0 <= k < rows.len() ==> shows_contact(#[trigger] rows[k], all[order[k]], now)
}

/// The record is of a closing message that went out within the last day, on a known band.
pub open spec fn works_station(r: RecordModel, now: Timestamp) -> bool {
    r.event == "tx_launch"@ && sessions::is_terminal(r.state_before) && clock::since(now, r.at)
        <= worked::RECENT_WORKED_RETENTION && r.band.len() > 0
}

/// Which stations were worked on which band, each with the latest time.
pub open spec fn worked_by(records: Seq<RecordModel>, now: Timestamp) -> WorkedModel
    decreases records.len(),
{
    if records.len() == 0 {
        Map::empty()
    } else {
        let earlier = worked_by(records.drop_last(), now);
        let r = records.last();
        let key = (r.partner, r.band);
        if works_station(r, now) && !(earlier.contains_key(key) && earlier[key] >= r.at) {
            earlier.insert(key, r.at)
        } else {
            earlier
        }
    }
}

/// The record is of one of our transmissions from `since` on.
pub open spec fn is_our_call(r: RecordModel, since: Timestamp) -> bool {
    r.event == "tx_launch"@ && r.tx_text.len() > 0 && r.at >= since
}

/// One of our transmissions as a direct call.
pub open spec fn our_call_line(r: RecordModel) -> DirectCallModel {
    let (to, from) = match exchange::direct_calls(r.tx_text) {
        Some((to, from)) => (to, from),
        None => (r.partner, "TX"@),
    };
    DirectCallModel {
        sort_epoch_ms: tracker::sort_millis(r.at),
        timestamp: tracker::hms(r.at),
        from_call: from,
        to_call: to,
        snr: None,
        dt: None,
        freq: None,
        text: r.tx_text,
        is_ours: true,
    }
}

/// Our transmissions from `since` on, as they were logged.
pub open spec fn our_calls(records: Seq<RecordModel>, since: Timestamp) -> Seq<DirectCallModel> {
    records.filter(|r: RecordModel| is_our_call(r, since)).map_values(
        |r: RecordModel| our_call_line(r),
    )
}

/// Calls go by their time; those of one time keep their order.
pub open spec fn called_before(calls: Seq<DirectCallModel>, i: int, j: int) -> bool {
    calls[i].sort_epoch_ms < calls[j].sort_epoch_ms || (calls[i].sort_epoch_ms
        == calls[j].sort_epoch_ms && i < j)
}

pub open spec fn all_places(n: nat) -> Set<int> {
    Set::new(|i: int| 0 <= i < n)
}

/// The calls in the order of their times.
pub open spec fn by_time(calls: Seq<DirectCallModel>) -> Seq<DirectCallModel> {
    rank::ranking(
        all_places(calls.len()),
        |i: int, j: int| called_before(calls, i, j),
    ).map_values(|i: int| calls[i])
}

/// What a log tells.
#[derive(Debug)]
pub struct QsoJsonlScan {
    pub history: Vec<WebQsoHistoryEntry>,
    pub direct_calls: Vec<WebDirectCallLog>,
    pub recent_worked: WorkedLog,
}

/// The scan tells what the records do.
pub open spec fn tells(
    scan: QsoJsonlScan,
    records: Seq<RecordModel>,
    now: Timestamp,
    direct_calls_since: Timestamp,
) -> bool {
    &&& scan.recent_worked.wf()
    &&& scan.recent_worked@ == worked_by(records, now)
    &&& tracker::direct_models(scan.direct_calls@) == by_time(our_calls(records, direct_calls_since))
    &&& shows_history(scan.history@, sessions::book_of(records).sessions, now)
}

struct HistoryOrder<'a> {
    sessions: &'a Vec<SessionSummary>,
}

fn time_of(s: &SessionSummary) -> (r: Option<Timestamp>)
    ensures
        r == session_time(s@),
{
    match (s.ended_at, s.last_seen_at) {
        (Some(t), _) => Some(t),
        (None, Some(t)) => Some(t),
        (None, None) => s.started_at,
    }
}

impl<'a> IndexOrder for HistoryOrder<'a> {
    closed spec fn count(&self) -> nat {
        self.sessions@.len()
    }

    closed spec fn valid(&self) -> bool {
        true
    }

    closed spec fn precedes(&self, i: int, j: int) -> bool {
        listed_before(sessions::session_models(self.sessions@), i, j)
    }

    proof fn lemma_strict(&self) {
    }

    fn before(&self, i: usize, j: usize) -> (r: bool) {
        let ghost all = sessions::session_models(self.sessions@);
        assert(all[i as int] == self.sessions@[i as int]@);
        assert(all[j as int] == self.sessions@[j as int]@);
        let a: i128 = match time_of(&self.sessions[i]) {
            Some(t) => t,
            None => 0,
        };
        let b: i128 = match time_of(&self.sessions[j]) {
            Some(t) => t,
            None => 0,
        };
        let x: u64 = self.sessions[i].session_id;
        let y: u64 = self.sessions[j].session_id;
        a > b || (a == b && (x < y || (x == y && i < j)))
    }
}

fn or_dash_text(value: &Option<String>) -> (r: String)
    ensures
        r@ == or_dash(text::text_opt(*value)),
{
    match value {
        Some(v) => v.clone(),
        None => "-".to_owned(),
    }
}

fn join_or_dash(values: &Vec<String>) -> (r: String)
    ensures
        r@ == joined_or_dash(text::texts(values@)),
{
    if values.len() == 0 {
        "-".to_owned()
    } else {
        text::join(values, ", ")
    }
}

fn history_row(s: &SessionSummary, time: Timestamp, now: Timestamp) -> (r: WebQsoHistoryEntry)
    requires
        session_time(s@) == Some(time),
        clock::displayable(time),
        age_seconds(s@, now) <= 86_400,
    ensures
        shows_contact(r, s@, now),
{
    let age: u128 = clock::elapsed(now, time);
    WebQsoHistoryEntry {
        time: clock::format_datetime(time),
        age: clock::format_relative_age(age),
        age_seconds: (age / 1_000_000_000) as u64,
        callsign: s.partner_call.clone(),
        band: or_dash_text(&s.rig_band),
        mode: or_dash_text(&s.app_mode),
        sent_info: join_or_dash(&s.sent_infos),
        received_info: join_or_dash(&s.received_infos),
        got_roger: s.got_roger,
        got_reply: s.got_reply,
        reached_73: s.reached_73,
        exit_reason: match &s.exit_reason {
            Some(reason) => reason.clone(),
            None => "in_progress".to_owned(),
        },
    }
}

/// The places of the contacts of the last day.
fn recent_places(all: &Vec<SessionSummary>, now: Timestamp) -> (r: Vec<usize>)
    ensures
        r@.no_duplicates(),
        forall|k: int| 0 <= k < r@.len() ==> (#[trigger] r@[k]) < all@.len(),
        rank::as_ints(r@).to_set() == of_last_day(sessions::session_models(all@), now),
{
    let ghost models = sessions::session_models(all@);
    let mut r: Vec<usize> = Vec::new();
    let mut i: usize = 0;
    while i < all.len()
        invariant
            i <= all@.len(),
            models == sessions::session_models(all@),
            r@.no_duplicates(),
            forall|k: int| 0 <= k < r@.len() ==> (#[trigger] r@[k]) < i,
            forall|k: int|
                0 <= k < i ==> (rank::as_ints(r@).contains(k) <==> #[trigger] of_last_day(
                    models,
                    now,
                ).contains(k)),
        decreases all@.len() - i,
    {
        let ghost before = r@;
        assert(models[i as int] == all@[i as int]@);
        let recent = match time_of(&all[i]) {
            Some(time) => clock::elapsed(now, time) / 1_000_000_000 <= 86_400,
            None => false,
        };
        if recent {
            r.push(i);
        }
        proof {
            rank::lemma_places_step(before, r@, i, recent);
        }
        i += 1;
    }
    proof {
        let ints = rank::as_ints(r@);
        assert forall|k: int| #[trigger] ints.to_set().contains(k) <==> of_last_day(models, now).contains(
            k,
        ) by {
            if ints.contains(k) {
                let at = ints.index_of(k);
                assert(r@[at] == k);
            }
        }
        assert(ints.to_set() =~= of_last_day(models, now));
    }
    r
}

fn history_rows(all: &Vec<SessionSummary>, now: Timestamp) -> (r: Vec<WebQsoHistoryEntry>)
    requires
        forall|i: int|
            0 <= i < all@.len() ==> sessions::session_displayable((#[trigger] all@[i])@),
    ensures
        shows_history(r@, sessions::session_models(all@), now),
{
    let ghost models = sessions::session_models(all@);
    let places = recent_places(all, now);
    let by = HistoryOrder { sessions: all };
    let order = rank::rank(&by, &places);
    proof {
        assert((|i: int, j: int| by.precedes(i, j)) =~= (|i: int, j: int|
            listed_before(models, i, j)));
        assert(rank::as_ints(order@) == history_order(models, now));
        assert forall|k: int| 0 <= k < order@.len() implies of_last_day(models, now).contains(
            #[trigger] order@[k] as int,
        ) by {
            assert(rank::as_ints(order@)[k] == order@[k]);
            assert(rank::as_ints(order@).contains(order@[k] as int));
        }
    }
    let mut r: Vec<WebQsoHistoryEntry> = Vec::new();
    let mut n: usize = 0;
    while n < order.len()
        invariant
            n <= order@.len(),
            models == sessions::session_models(all@),
            forall|i: int|
                0 <= i < all@.len() ==> sessions::session_displayable((#[trigger] all@[i])@),
            forall|k: int|
                0 <= k < order@.len() ==> of_last_day(models, now).contains(
                    #[trigger] order@[k] as int,
                ),
            r@.len() == n,
            forall|k: int|
                0 <= k < n ==> shows_contact(#[trigger] r@[k], models[order@[k] as int], now),
        decreases order@.len() - n,
    {
        let k: usize = order[n];
        assert(of_last_day(models, now).contains(order@[n as int] as int));
        assert(models[k as int] == all@[k as int]@);
        if let Some(time) = time_of(&all[k]) {
            r.push(history_row(&all[k], time, now));
        }
        n += 1;
    }
    assert(shows_history(r@, models, now)) by {
        let places = history_order(models, now);
        assert forall|k: int| 0 <= k < r@.len() implies shows_contact(
            #[trigger] r@[k],
            models[places[k]],
            now,
        ) by {
            assert(places[k] == order@[k]);
        }
    }
    r
}

fn worked_stations(records: &Vec<LogRecord>, now: Timestamp) -> (r: WorkedLog)
    ensures
        r.wf(),
        r@ == worked_by(log_record::record_models(records@), now),
{
    let ghost all = log_record::record_models(records@);
    let mut r = WorkedLog::new();
    let mut i: usize = 0;
    while i < records.len()
        invariant
            i <= records@.len(),
            all == log_record::record_models(records@),
            r.wf(),
            r@ == worked_by(all.take(i as int), now),
        decreases records@.len() - i,
    {
        let record = &records[i];
        assert(all.take(i + 1).drop_last() =~= all.take(i as int));
        assert(all.take(i + 1).last() == record@);
        if text::str_eq(record.event.as_str(), "tx_launch") && sessions::terminal_state(
            record.state_before.as_str(),
        ) && clock::elapsed(now, record.timestamp) <= worked::RECENT_WORKED_RETENTION
            && !text::is_empty_text(record.rig_band.as_str()) {
            let newer = match r.get(record.partner_call.as_str(), record.rig_band.as_str()) {
                Some(existing) => existing < record.timestamp,
                None => true,
            };
            if newer {
                r.insert(record.partner_call.as_str(), record.rig_band.as_str(), record.timestamp);
            }
        }
        i += 1;
    }
    assert(all.take(i as int) =~= all);
    r
}

fn our_call_row(record: &LogRecord) -> (r: WebDirectCallLog)
    requires
        clock::displayable(record.timestamp),
    ensures
        r@ == our_call_line(record@),
{
    let (to_call, from_call) = match exchange::parse_direct_message_calls(record.tx_text.as_str()) {
        Some(calls) => calls,
        None => (record.partner_call.clone(), "TX".to_owned()),
    };
    WebDirectCallLog {
        sort_epoch_ms: clock::system_time_to_epoch_ms(record.timestamp),
        timestamp: clock::format_time(record.timestamp),
        from_call,
        to_call,
        snr_db: None,
        dt_seconds: None,
        freq_hz: None,
        text: record.tx_text.clone(),
        is_ours: true,
    }
}

fn our_call_rows(records: &Vec<LogRecord>, since: Timestamp) -> (r: Vec<WebDirectCallLog>)
    requires
        log_record::records_displayable(log_record::record_models(records@)),
    ensures
        tracker::direct_models(r@) == our_calls(log_record::record_models(records@), since),
{
    let ghost all = log_record::record_models(records@);
    let ghost ours = |r: RecordModel| is_our_call(r, since);
    let ghost line = |r: RecordModel| our_call_line(r);
    let mut r: Vec<WebDirectCallLog> = Vec::new();
    let mut i: usize = 0;
    proof {
        reveal(Seq::filter);
        assert(tracker::direct_models(r@) =~= all.take(0).filter(ours).map_values(line));
    }
    while i < records.len()
        invariant
            i <= records@.len(),
            all == log_record::record_models(records@),
            log_record::records_displayable(all),
            ours == (|r: RecordModel| is_our_call(r, since)),
            line == (|r: RecordModel| our_call_line(r)),
            tracker::direct_models(r@) == all.take(i as int).filter(ours).map_values(line),
        decreases records@.len() - i,
    {
        let record = &records[i];
        let ghost found = all.take(i as int).filter(ours);
        let ghost before = tracker::direct_models(r@);
        proof {
            assert(all[i as int] == record@);
            all.take(i as int).lemma_filter_push(record@, ours);
            assert(all.take(i + 1) =~= all.take(i as int).push(record@));
        }
        if text::str_eq(record.event.as_str(), "tx_launch") && !text::is_empty_text(
            record.tx_text.as_str(),
        ) && record.timestamp >= since {
            r.push(our_call_row(record));
            assert(tracker::direct_models(r@) =~= before.push(our_call_line(record@)));
            assert(found.push(record@).map_values(line) =~= found.map_values(line).push(
                our_call_line(record@),
            ));
        }
        i += 1;
    }
    assert(all.take(i as int) =~= all);
    r
}

struct CallOrder<'a> {
    calls: &'a Vec<WebDirectCallLog>,
}

impl<'a> IndexOrder for CallOrder<'a> {
    closed spec fn count(&self) -> nat {
        self.calls@.len()
    }

    closed spec fn valid(&self) -> bool {
        true
    }

    closed spec fn precedes(&self, i: int, j: int) -> bool {
        called_before(tracker::direct_models(self.calls@), i, j)
    }

    proof fn lemma_strict(&self) {
    }

    fn before(&self, i: usize, j: usize) -> (r: bool) {
        let ghost all = tracker::direct_models(self.calls@);
        assert(all[i as int] == self.calls@[i as int]@);
        assert(all[j as int] == self.calls@[j as int]@);
        let a: u64 = self.calls[i].sort_epoch_ms;
        let b: u64 = self.calls[j].sort_epoch_ms;
        a < b || (a == b && i < j)
    }
}

/// Puts calls in the order of their times; those of one time keep their order.
pub fn sort_calls(calls: Vec<WebDirectCallLog>) -> (r: Vec<WebDirectCallLog>)
    ensures
        tracker::direct_models(r@) == by_time(tracker::direct_models(calls@)),
{
    let ghost all = tracker::direct_models(calls@);
    let mut places: Vec<usize> = Vec::new();
    let mut i: usize = 0;
    while i < calls.len()
        invariant
            i <= calls@.len(),
            places@.len() == i,
            forall|k: int| 0 <= k < i ==> #[trigger] places@[k] == k,
        decreases calls@.len() - i,
    {
        places.push(i);
        i += 1;
    }
    proof {
        let ints = rank::as_ints(places@);
        assert forall|k: int| #[trigger] ints.to_set().contains(k) <==> all_places(all.len()).contains(k) by {
            if ints.contains(k) {
                let at = ints.index_of(k);
                assert(places@[at] == k);
            }
            if 0 <= k < all.len() {
                assert(ints[k] == k);
            }
        }
        assert(ints.to_set() =~= all_places(all.len()));
    }
    let by = CallOrder { calls: &calls };
    let order = rank::rank(&by, &places);
    let ghost ints = rank::as_ints(order@);
    proof {
        assert((|i: int, j: int| by.precedes(i, j)) =~= (|i: int, j: int|
            called_before(all, i, j)));
        assert(ints == rank::ranking(
            all_places(all.len()),
            |i: int, j: int| called_before(all, i, j),
        ));
    }
    let mut r: Vec<WebDirectCallLog> = Vec::new();
    let mut n: usize = 0;
    let ghost pick = |i: int| all[i];
    assert(tracker::direct_models(r@) =~= ints.take(0).map_values(pick));
    while n < order.len()
        invariant
            n <= order@.len(),
            all == tracker::direct_models(calls@),
            ints == rank::as_ints(order@),
            forall|k: int| 0 <= k < order@.len() ==> (#[trigger] order@[k]) < calls@.len(),
            pick == (|i: int| all[i]),
            tracker::direct_models(r@) == ints.take(n as int).map_values(pick),
        decreases order@.len() - n,
    {
        let k: usize = order[n];
        let ghost before = tracker::direct_models(r@);
        r.push(calls[k].clone());
        assert(tracker::direct_models(r@) =~= before.push(all[k as int]));
        assert(ints.take(n + 1) =~= ints.take(n as int).push(k as int));
        assert(ints.take(n + 1).map_values(pick) =~= ints.take(n as int).map_values(pick).push(
            all[k as int],
        ));
        n += 1;
    }
    assert(ints.take(n as int) =~= ints);
    r
}

/// What the records of a log tell.
pub fn scan_records(
    records: &Vec<LogRecord>,
    now: Timestamp,
    direct_calls_since: Timestamp,
) -> (r: QsoJsonlScan)
    requires
        log_record::records_displayable(log_record::record_models(records@)),
    ensures
        tells(r, log_record::record_models(records@), now, direct_calls_since),
{
    let book = sessions::collect_sessions(records);
    proof {
        sessions::lemma_sessions_displayable(log_record::record_models(records@));
        assert forall|i: int| 0 <= i < book.sessions@.len() implies sessions::session_displayable(
            (#[trigger] book.sessions@[i])@,
        ) by {
            assert(book@.sessions[i] == book.sessions@[i]@);
        }
    }
    let history = history_rows(&book.sessions, now);
    let direct_calls = sort_calls(our_call_rows(records, direct_calls_since));
    let recent_worked = worked_stations(records, now);
    QsoJsonlScan { history, direct_calls, recent_worked }
}

/// What a log tells.
pub fn scan_qso_jsonl(
    contents: &str,
    now: Timestamp,
    direct_calls_since: Timestamp,
) -> (r: QsoJsonlScan)
    ensures
        tells(r, log_record::records_of(contents@), now, direct_calls_since),
{
    let records = log_record::read_records(contents);
    scan_records(&records, now, direct_calls_since)
}


proof fn lemma_places_finite(places: Set<int>, n: nat)
    requires
        places.subset_of(all_places(n)),
    ensures
        places.finite(),
{
    assert(places.subset_of(vstd::set_lib::set_int_range(0, n as int)));
    vstd::set_lib::lemma_int_range(0, n as int);
    vstd::set_lib::lemma_len_subset(places, vstd::set_lib::set_int_range(0, n as int));
}

/// The history lists each contact of the last day once, and no other, the latest first.
pub proof fn law_history_lists_the_last_day(all: Seq<SessionModel>, now: Timestamp)
    ensures
        rank::is_ranking(
            history_order(all, now),
            of_last_day(all, now),
            |i: int, j: int| listed_before(all, i, j),
        ),
{
    lemma_places_finite(of_last_day(all, now), all.len());
    rank::lemma_ranking_exists(of_last_day(all, now), |i: int, j: int| listed_before(all, i, j));
}

/// The list of our calls holds each of them once, the earliest first.
pub proof fn law_calls_are_listed_by_time(calls: Seq<DirectCallModel>)
    ensures
        by_time(calls).len() == calls.len(),
        forall|i: int, j: int|
            0 <= i < j < calls.len() ==> (#[trigger] by_time(calls)[i]).sort_epoch_ms <= (
            #[trigger] by_time(calls)[j]).sort_epoch_ms,
        forall|i: int| 0 <= i < calls.len() ==> by_time(calls).contains(#[trigger] calls[i]),
{
    let precedes = |i: int, j: int| called_before(calls, i, j);
    let places = all_places(calls.len());
    lemma_places_finite(places, calls.len());
    rank::lemma_ranking_exists(places, precedes);
    let order = rank::ranking(places, precedes);
    assert forall|a: int, b: int| 0 <= a < b < order.len() implies order[a] != order[b] by {
        assert(precedes(order[a], order[b]));
    }
    assert(order.to_set() =~= places) by {
        assert forall|i: int| #[trigger] order.to_set().contains(i) <==> places.contains(i) by {}
    }
    order.unique_seq_to_set();
    assert(places =~= vstd::set_lib::set_int_range(0, calls.len() as int));
    vstd::set_lib::lemma_int_range(0, calls.len() as int);
    let listed = by_time(calls);
    assert forall|i: int, j: int| 0 <= i < j < calls.len() implies (#[trigger] listed[i]).sort_epoch_ms
        <= (#[trigger] listed[j]).sort_epoch_ms by {
        assert(precedes(order[i], order[j]));
    }
    assert forall|i: int| 0 <= i < calls.len() implies listed.contains(#[trigger] calls[i]) by {
        assert(places.contains(i));
        let at = order.index_of(i);
        assert(order[at] == i);
        assert(listed[at] == calls[i]);
    }
}

/// A station counts as worked on a band exactly when a closing message went out to it on that band
/// within the last day, and then from the latest such message on.
pub proof fn law_worked_by_closing_message_only(
    records: Seq<RecordModel>,
    now: Timestamp,
    partner: Seq<char>,
    band: Seq<char>,
)
    ensures
        worked_by(records, now).contains_key((partner, band)) <==> exists|i: int|
            0 <= i < records.len() && works_station(#[trigger] records[i], now) && records[i].partner
                == partner && records[i].band == band,
        forall|i: int|
            0 <= i < records.len() && works_station(#[trigger] records[i], now) && records[i].partner
                == partner && records[i].band == band ==> worked_by(records, now)[(partner, band)]
                >= records[i].at,
        worked_by(records, now).contains_key((partner, band)) ==> exists|i: int|
            0 <= i < records.len() && works_station(#[trigger] records[i], now) && records[i].partner
                == partner && records[i].band == band && records[i].at == worked_by(records, now)[(
                partner,
                band,
            )],
    decreases records.len(),
{
    if records.len() > 0 {
        let earlier = records.drop_last();
        law_worked_by_closing_message_only(earlier, now, partner, band);
        let before = worked_by(earlier, now);
        let after = worked_by(records, now);
        let last = records.len() - 1;
        let key = (partner, band);
        assert forall|i: int| 0 <= i < earlier.len() implies earlier[i] == records[i] by {}
        if before.contains_key(key) {
            let i = choose|i: int|
                0 <= i < earlier.len() && works_station(#[trigger] earlier[i], now)
                    && earlier[i].partner == partner && earlier[i].band == band && earlier[i].at
                    == before[key];
            assert(records[i] == earlier[i]);
        }
        assert forall|i: int|
            0 <= i < records.len() && works_station(#[trigger] records[i], now) && records[i].partner
                == partner && records[i].band == band implies after.contains_key(key) && after[key]
            >= records[i].at by {
            if i < last {
                assert(earlier[i] == records[i]);
            }
        }
        if after.contains_key(key) && !before.contains_key(key) {
            assert(works_station(records[last], now));
        }
        if after.contains_key(key) && after[key] != before[key] {
            assert(works_station(records[last], now));
        }
    }
}

/// A station counts as worked on a band exactly when a transmission in the state `send_rr73`,
/// `send_73` or `send_73_once` was launched to it on that band within the last day; the time is that
/// of the latest such launch.
pub proof fn law_worked_by_launching_a_closing_message(
    records: Seq<RecordModel>,
    now: Timestamp,
    partner: Seq<char>,
    band: Seq<char>,
)
    ensures
        worked_by(records, now).contains_key((partner, band)) <==> band.len() > 0 && exists|i: int|
            0 <= i < records.len() && (#[trigger] records[i]).event == "tx_launch"@ && (
            records[i].state_before == "send_rr73"@ || records[i].state_before == "send_73"@
                || records[i].state_before == "send_73_once"@) && records[i].partner == partner
                && records[i].band == band && now - records[i].at <= 86_400_000_000_000,
        worked_by(records, now).contains_key((partner, band)) ==> {
            let latest = worked_by(records, now)[(partner, band)];
            &&& now - latest <= 86_400_000_000_000
            &&& exists|i: int|
                0 <= i < records.len() && (#[trigger] records[i]).event == "tx_launch"@
                    && records[i].partner == partner && records[i].band == band && records[i].at
                    == latest
            &&& forall|i: int|
                0 <= i < records.len() && (#[trigger] records[i]).event == "tx_launch"@ && (
                records[i].state_before == "send_rr73"@ || records[i].state_before == "send_73"@
                    || records[i].state_before == "send_73_once"@) && records[i].partner == partner
                    && records[i].band == band ==> records[i].at <= latest
        },
{
    law_worked_by_closing_message_only(records, now, partner, band);
    let worked = worked_by(records, now);
    if worked.contains_key((partner, band)) {
        let i = choose|i: int|
            0 <= i < records.len() && works_station(#[trigger] records[i], now) && records[i].partner
                == partner && records[i].band == band && records[i].at == worked[(partner, band)];
        assert(records[i].event == "tx_launch"@);
    }
    assert forall|i: int|
        0 <= i < records.len() && (#[trigger] records[i]).event == "tx_launch"@ && (
        records[i].state_before == "send_rr73"@ || records[i].state_before == "send_73"@
            || records[i].state_before == "send_73_once"@) && records[i].partner == partner
            && records[i].band == band && band.len() > 0 implies (works_station(records[i], now) || now
        - records[i].at > 86_400_000_000_000) by {}
}

/// What is looked at to see whether the log has changed.
#[derive(Clone, Copy, Debug, PartialEq, Eq, Structural)]
pub struct FileStamp {
    pub modified: Option<Timestamp>,
    pub len: u64,
}

/// A scan that was made elsewhere.
#[derive(Debug)]
pub struct QsoJsonlRefresh {
    pub scanned_at: Timestamp,
    pub stamp: FileStamp,
    pub scan: QsoJsonlScan,
}

/// The last scan of the log, and the state of the log that it was made of.
#[derive(Debug)]
pub struct QsoJsonlCache {
    pub direct_calls_since: Timestamp,
    pub stamp: FileStamp,
    pub last_refresh_at: Option<Timestamp>,
    pub scan: QsoJsonlScan,
}

/// The scan tells of nothing.
pub open spec fn tells_nothing(scan: QsoJsonlScan) -> bool {
    scan.recent_worked.wf() && scan.history@.len() == 0 && scan.direct_calls@.len() == 0
        && scan.recent_worked@ == WorkedModel::empty()
}

fn empty_scan() -> (r: QsoJsonlScan)
    ensures
        tells_nothing(r),
{
    QsoJsonlScan { history: Vec::new(), direct_calls: Vec::new(), recent_worked: WorkedLog::new() }
}

/// Two looks at the log found it in different states.
pub fn stamp_changed(last: FileStamp, stamp: FileStamp) -> (r: bool)
    ensures
        r == (last != stamp),
{
    let same = match (last.modified, stamp.modified) {
        (Some(a), Some(b)) => a == b,
        (None, None) => true,
        _ => false,
    };
    !same || last.len != stamp.len
}

impl QsoJsonlCache {
    pub open spec fn wf(&self) -> bool {
        self.scan.recent_worked.wf()
    }

    /// It is time to look at the log again.
    pub open spec fn due(&self, now: Timestamp) -> bool {
        match self.last_refresh_at {
            Some(last) => clock::since(now, last) >= QSO_JSONL_REFRESH_INTERVAL,
            None => true,
        }
    }

    pub fn new(direct_calls_since: Timestamp) -> (r: Self)
        ensures
            r.wf(),
            r.direct_calls_since == direct_calls_since,
            r.stamp == (FileStamp { modified: None, len: 0 }),
            r.last_refresh_at is None,
            tells_nothing(r.scan),
    {
        QsoJsonlCache {
            direct_calls_since,
            stamp: FileStamp { modified: None, len: 0 },
            last_refresh_at: None,
            scan: empty_scan(),
        }
    }

    pub fn refresh_due(&self, now: Timestamp) -> (r: bool)
        ensures
            r == self.due(now),
    {
        match self.last_refresh_at {
            Some(last) => clock::elapsed(now, last) >= QSO_JSONL_REFRESH_INTERVAL,
            None => true,
        }
    }

    /// Takes note of the log's state, `None` where there is no log; whether it is to be read. What is
    /// held goes when the log is gone.
    pub fn note_file(&mut self, now: Timestamp, found: Option<FileStamp>) -> (read: bool)
        requires
            old(self).wf(),
        ensures
            final(self).wf(),
            final(self).direct_calls_since == old(self).direct_calls_since,
            !old(self).due(now) ==> !read && *final(self) == *old(self),
            old(self).due(now) ==> final(self).last_refresh_at == Some(now),
            old(self).due(now) ==> match found {
                Some(stamp) => read == (stamp != old(self).stamp) && final(self).stamp == old(
                    self,
                ).stamp && final(self).scan == old(self).scan,
                None => !read && tells_nothing(final(self).scan) && final(self).stamp == (FileStamp {
                    modified: None,
                    len: 0,
                }),
            },
    {
        if !self.refresh_due(now) {
            return false;
        }
        self.last_refresh_at = Some(now);
        match found {
            Some(stamp) => stamp_changed(self.stamp, stamp),
            None => {
                self.scan = empty_scan();
                self.stamp = FileStamp { modified: None, len: 0 };
                false
            },
        }
    }

    /// Takes over what the log says.
    pub fn take_contents(&mut self, contents: &str, now: Timestamp, stamp: FileStamp)
        ensures
            final(self).wf(),
            final(self).direct_calls_since == old(self).direct_calls_since,
            final(self).last_refresh_at == old(self).last_refresh_at,
            final(self).stamp == stamp,
            tells(
                final(self).scan,
                log_record::records_of(contents@),
                now,
                old(self).direct_calls_since,
            ),
    {
        self.scan = scan_qso_jsonl(contents, now, self.direct_calls_since);
        self.stamp = stamp;
    }

    /// Takes over a scan that was made elsewhere.
    pub fn apply_refresh(&mut self, refresh: QsoJsonlRefresh)
        requires
            refresh.scan.recent_worked.wf(),
        ensures
            final(self).wf(),
            final(self).direct_calls_since == old(self).direct_calls_since,
            final(self).last_refresh_at == Some(refresh.scanned_at),
            final(self).stamp == refresh.stamp,
            final(self).scan == refresh.scan,
    {
        self.scan = refresh.scan;
        self.stamp = refresh.stamp;
        self.last_refresh_at = Some(refresh.scanned_at);
    }
}

/// The history lists a contact exactly when it ended, or else was last heard of, within the last day
/// (to the second), and it lists the contacts once each, the latest first.
pub proof fn law_which_contacts_the_history_lists(all: Seq<SessionModel>, now: Timestamp, i: int)
    ensures
        ({
            let order = history_order(all, now);
            let when = |s: SessionModel|
                if s.ended is Some {
                    s.ended
                } else if s.last_seen is Some {
                    s.last_seen
                } else {
                    s.started
                };
            &&& order.contains(i) <==> 0 <= i < all.len() && (when(all[i]) matches Some(time) && now
                - time < 86_401_000_000_000)
            &&& forall|a: int, b: int|
                0 <= a < b < order.len() ==> (#[trigger] order[a]) != (#[trigger] order[b]) && when(
                    all[order[a]],
                )->0 >= when(all[order[b]])->0
        }),
{
    law_history_lists_the_last_day(all, now);
    let order = history_order(all, now);
    let precedes = |i: int, j: int| listed_before(all, i, j);
    assert forall|a: int, b: int| 0 <= a < b < order.len() implies (#[trigger] order[a]) != (
    #[trigger] order[b]) && session_time(all[order[a]])->0 >= session_time(all[order[b]])->0 by {
        assert(precedes(order[a], order[b]));
        assert(order.contains(order[a]) && order.contains(order[b]));
        assert(of_last_day(all, now).contains(order[a]));
        assert(of_last_day(all, now).contains(order[b]));
    }
    assert(of_last_day(all, now).contains(i) <==> order.contains(i));
}

/// Of a log, our transmissions are the launches with a text from `since` on, and all of them are
/// listed.
pub proof fn law_which_transmissions_are_ours(
    records: Seq<RecordModel>,
    since: Timestamp,
    call: DirectCallModel,
)
    ensures
        our_calls(records, since).contains(call) <==> exists|i: int|
            0 <= i < records.len() && (#[trigger] records[i]).event == "tx_launch"@
                && records[i].tx_text.len() > 0 && records[i].at >= since && call == our_call_line(
                records[i],
            ),
        forall|r: RecordModel| #[trigger]
            our_call_line(r).is_ours && our_call_line(r).text == r.tx_text,
        forall|r: RecordModel|
            0 <= r.at <= u64::MAX ==> (#[trigger] our_call_line(r)).sort_epoch_ms == r.at as int
                / 1_000_000,
        forall|r: RecordModel|
            exchange::direct_calls(r.tx_text) is None ==> (#[trigger] our_call_line(r)).to_call
                == r.partner,
        forall|r: RecordModel|
            exchange::direct_calls(r.tx_text) is Some ==> exchange::direct_calls(r.tx_text) == Some(
                ((#[trigger] our_call_line(r)).to_call, our_call_line(r).from_call),
            ),
{
    let ours = |r: RecordModel| is_our_call(r, since);
    let line = |r: RecordModel| our_call_line(r);
    let found = records.filter(ours);
    let calls = our_calls(records, since);
    if calls.contains(call) {
        let k = calls.index_of(call);
        records.lemma_filter_pred(ours, k);
        assert(found.contains(found[k]));
        records.lemma_filter_contains_rev(ours, found[k]);
        let i = records.index_of(found[k]);
        assert(records[i] == found[k]);
    }
    if exists|i: int|
        0 <= i < records.len() && (#[trigger] records[i]).event == "tx_launch"@
            && records[i].tx_text.len() > 0 && records[i].at >= since && call == our_call_line(
            records[i],
        ) {
        let i = choose|i: int|
            0 <= i < records.len() && (#[trigger] records[i]).event == "tx_launch"@
                && records[i].tx_text.len() > 0 && records[i].at >= since && call == our_call_line(
                records[i],
            );
        assert(ours(records[i]));
        records.lemma_filter_contains(ours, i);
        let k = found.index_of(records[i]);
        assert(calls[k] == line(records[i]));
    }
}

/// The row of a contact names the partner and shows what is known; a dash stands for what is not,
/// and `in_progress` for the reason of an end that has not come.
pub proof fn law_what_a_row_shows(shown: WebQsoHistoryEntry, s: SessionModel, now: Timestamp)
    requires
        shows_contact(shown, s, now),
    ensures
        shown.callsign@ == s.partner,
        s.band matches Some(band) ==> shown.band@ == band,
        s.band is None ==> shown.band@ == seq!['-'],
        s.mode matches Some(mode) ==> shown.mode@ == mode,
        s.mode is None ==> shown.mode@ == seq!['-'],
        s.sent_infos.len() == 0 ==> shown.sent_info@ == seq!['-'],
        s.sent_infos.len() == 1 ==> shown.sent_info@ == s.sent_infos[0],
        s.received_infos.len() == 0 ==> shown.received_info@ == seq!['-'],
        s.received_infos.len() == 1 ==> shown.received_info@ == s.received_infos[0],
        shown.got_roger == s.got_roger,
        shown.got_reply == s.got_reply,
        shown.reached_73 == s.reached_73,
        s.exit_reason matches Some(reason) ==> shown.exit_reason@ == reason,
        s.exit_reason is None ==> shown.exit_reason@ == "in_progress"@,
        s.ended matches Some(end) ==> shown.time@ == clock::written(end, clock::TimeStyle::DateTime)
            && shown.age_seconds == (if now > end {
            (now - end) / 1_000_000_000
        } else {
            0
        }),
{
    reveal_strlit("-");
    assert("-"@ =~= seq!['-']);
}

/// The history has a row for each contact that it lists, in the order of the list.
pub proof fn law_a_row_for_each_contact(
    rows: Seq<WebQsoHistoryEntry>,
    all: Seq<SessionModel>,
    now: Timestamp,
    k: int,
)
    requires
        shows_history(rows, all, now),
        0 <= k < history_order(all, now).len(),
    ensures
        rows.len() == history_order(all, now).len(),
        rows[k].callsign@ == all[history_order(all, now)[k]].partner,
        rows[k].got_roger == all[history_order(all, now)[k]].got_roger,
        rows[k].got_reply == all[history_order(all, now)[k]].got_reply,
        rows[k].reached_73 == all[history_order(all, now)[k]].reached_73,
{
    assert(shows_contact(rows[k], all[history_order(all, now)[k]], now));
}

} // verus!
