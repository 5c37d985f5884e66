//! The contacts that the records of a log tell of.

use std::collections::BTreeMap;

use vstd::prelude::*;
use vstd::string::*;

use crate::clock;
use crate::clock::Timestamp;
use crate::exchange;
use crate::exchange::{ExchangeInfo, ExchangeModel};
use crate::log_record;
use crate::log_record::{LogRecord, RecordModel};
use crate::qso::QsoState;
use crate::text;

verus! {

/// What is known of one contact.
#[derive(Debug)]
pub struct SessionSummary {
    pub session_id: u64,
    pub partner_call: String,
    pub rig_band: Option<String>,
    pub rig_frequency_hz: Option<u64>,
    pub app_mode: Option<String>,
    pub started_at: Option<Timestamp>,
    pub ended_at: Option<Timestamp>,
    pub last_seen_at: Option<Timestamp>,
    pub got_roger: bool,
    pub got_reply: bool,
    pub reached_73: bool,
    pub sent_infos: Vec<String>,
    pub received_infos: Vec<String>,
    pub sent_report: Option<String>,
    pub received_report: Option<String>,
    pub remote_grid: Option<String>,
    pub exit_reason: Option<String>,
    pub observed_station_calls: Vec<String>,
}

#[verifier::ext_equal]
pub struct SessionModel {
    pub id: u64,
    pub partner: Seq<char>,
    pub band: Option<Seq<char>>,
    pub frequency: Option<u64>,
    pub mode: Option<Seq<char>>,
    pub started: Option<Timestamp>,
    pub ended: Option<Timestamp>,
    pub last_seen: Option<Timestamp>,
    pub got_roger: bool,
    pub got_reply: bool,
    pub reached_73: bool,
    pub sent_infos: Seq<Seq<char>>,
    pub received_infos: Seq<Seq<char>>,
    pub sent_report: Option<Seq<char>>,
    pub received_report: Option<Seq<char>>,
    pub grid: Option<Seq<char>>,
    pub exit_reason: Option<Seq<char>>,
    pub station_calls: Seq<Seq<char>>,
}

impl View for SessionSummary {
    type V = SessionModel;

    open spec fn view(&self) -> SessionModel {
        SessionModel {
            id: self.session_id,
            partner: self.partner_call@,
            band: text::text_opt(self.rig_band),
            frequency: self.rig_frequency_hz,
            mode: text::text_opt(self.app_mode),
            started: self.started_at,
            ended: self.ended_at,
            last_seen: self.last_seen_at,
            got_roger: self.got_roger,
            got_reply: self.got_reply,
            reached_73: self.reached_73,
            sent_infos: text::texts(self.sent_infos@),
            received_infos: text::texts(self.received_infos@),
            sent_report: text::text_opt(self.sent_report),
            received_report: text::text_opt(self.received_report),
            grid: text::text_opt(self.remote_grid),
            exit_reason: text::text_opt(self.exit_reason),
            station_calls: text::texts(self.observed_station_calls@),
        }
    }
}

pub open spec fn session_models(sessions: Seq<SessionSummary>) -> Seq<SessionModel> {
    sessions.map_values(|s: SessionSummary| s@)
}

/// A contact of which nothing is known but its session and its partner.
pub open spec fn blank_session(id: u64, partner: Seq<char>) -> SessionModel {
    SessionModel {
        id,
        partner,
        band: None,
        frequency: None,
        mode: None,
        started: None,
        ended: None,
        last_seen: None,
        got_roger: false,
        got_reply: false,
        reached_73: false,
        sent_infos: Seq::empty(),
        received_infos: Seq::empty(),
        sent_report: None,
        received_report: None,
        grid: None,
        exit_reason: None,
        station_calls: Seq::empty(),
    }
}

/// The states in which we send the message that closes a contact.
pub open spec fn is_terminal(state: Seq<char>) -> bool {
    state == "send_rr73"@ || state == "send_73"@ || state == "send_73_once"@
}

pub fn terminal_state(state: &str) -> (r: bool)
    ensures
        r == is_terminal(state@),
{
    text::str_eq(state, "send_rr73") || text::str_eq(state, "send_73") || text::str_eq(
        state,
        "send_73_once",
    )
}

/// The events in which the partner confirms what we sent.
pub open spec fn is_roger(event: Seq<char>) -> bool {
    event == "to_us_ack"@ || event == "to_us_reply_rrr"@ || event == "to_us_reply_rr73"@ || event
        == "to_us_reply_73"@
}

fn roger_event(event: &str) -> (r: bool)
    ensures
        r == is_roger(event@),
{
    text::str_eq(event, "to_us_ack") || text::str_eq(event, "to_us_reply_rrr") || text::str_eq(
        event,
        "to_us_reply_rr73",
    ) || text::str_eq(event, "to_us_reply_73")
}

/// The first that is known stays.
pub open spec fn first_known(known: Option<Seq<char>>, new: Seq<char>) -> Option<Seq<char>> {
    if known is None && new.len() > 0 {
        Some(new)
    } else {
        known
    }
}

/// The contact with the times of a record.
pub open spec fn with_times(s: SessionModel, r: RecordModel) -> SessionModel {
    SessionModel {
        partner: if s.partner.len() == 0 {
            r.partner
        } else {
            s.partner
        },
        last_seen: Some(r.at),
        started: if r.event == "start"@ && s.started is None {
            Some(r.at)
        } else {
            s.started
        },
        ended: if r.event == "exit"@ {
            Some(r.at)
        } else {
            s.ended
        },
        exit_reason: if r.event == "exit"@ {
            Some(r.rx_event)
        } else {
            s.exit_reason
        },
        ..s
    }
}

/// The contact with what a record tells of band, frequency and mode.
pub open spec fn with_rig(s: SessionModel, r: RecordModel) -> SessionModel {
    SessionModel {
        band: first_known(s.band, r.band),
        frequency: match s.frequency {
            Some(f) => Some(f),
            None => r.frequency,
        },
        mode: if s.mode is None && r.mode.len() > 0 {
            Some(text::uppercased(r.mode))
        } else {
            s.mode
        },
        ..s
    }
}

/// The contact with how far it has got by a record.
pub open spec fn with_progress(s: SessionModel, r: RecordModel) -> SessionModel {
    SessionModel {
        got_reply: s.got_reply || text::has_prefix(r.rx_event, "to_us_"@),
        got_roger: s.got_roger || is_roger(r.rx_event),
        reached_73: s.reached_73 || is_terminal(r.state_before) || is_terminal(r.state_after),
        ..s
    }
}

pub open spec fn with_call(calls: Seq<Seq<char>>, call: Option<Seq<char>>) -> Seq<Seq<char>> {
    match call {
        Some(c) => text::sorted_with(calls, c),
        None => calls,
    }
}

pub open spec fn with_info(infos: Seq<Seq<char>>, info: Option<Seq<char>>) -> Seq<Seq<char>> {
    match info {
        Some(i) => exchange::with_unique(infos, i),
        None => infos,
    }
}

/// What we sent as our part of the exchange, according to a record.
pub open spec fn sent_by(r: RecordModel) -> Option<Seq<char>> {
    exchange::sent_info(r.tx_text, r.event, r.partner, r.compound_next)
}

pub open spec fn report_in(info: Option<Seq<char>>) -> Option<Seq<char>> {
    match info {
        Some(i) => match exchange::classified(i) {
            Some(ExchangeModel::Report(report)) => Some(report),
            _ => None,
        },
        None => None,
    }
}

pub open spec fn or_else(a: Option<Seq<char>>, b: Option<Seq<char>>) -> Option<Seq<char>> {
    match a {
        Some(x) => Some(x),
        None => b,
    }
}

/// The contact with what was exchanged according to a record.
pub open spec fn with_exchange(s: SessionModel, r: RecordModel) -> SessionModel {
    let received = exchange::third_word(r.rx_text);
    SessionModel {
        sent_infos: with_info(s.sent_infos, sent_by(r)),
        received_infos: with_info(s.received_infos, exchange::exchange_info(r.rx_text)),
        sent_report: or_else(s.sent_report, report_in(sent_by(r))),
        received_report: match received {
            Some(ExchangeModel::Report(report)) => or_else(s.received_report, Some(report)),
            _ => s.received_report,
        },
        grid: match received {
            Some(ExchangeModel::Grid(grid)) => or_else(s.grid, Some(grid)),
            _ => s.grid,
        },
        station_calls: with_call(
            with_call(s.station_calls, exchange::sending_call(r.tx_text)),
            exchange::addressed_call(r.rx_text),
        ),
        ..s
    }
}

/// The contact once a record of it has been read.
pub open spec fn session_with(s: SessionModel, r: RecordModel) -> SessionModel {
    with_exchange(with_progress(with_rig(with_times(s, r), r), r), r)
}

fn absorb_times(s: &mut SessionSummary, r: &LogRecord)
    ensures
        final(s)@ == with_times(old(s)@, r@),
{
    if text::is_empty_text(s.partner_call.as_str()) {
        s.partner_call = r.partner_call.clone();
    }
    s.last_seen_at = Some(r.timestamp);
    if text::str_eq(r.event.as_str(), "start") && s.started_at.is_none() {
        s.started_at = Some(r.timestamp);
    }
    if text::str_eq(r.event.as_str(), "exit") {
        s.ended_at = Some(r.timestamp);
        s.exit_reason = Some(r.last_rx_event.clone());
    }
}

fn absorb_rig(s: &mut SessionSummary, r: &LogRecord)
    ensures
        final(s)@ == with_rig(old(s)@, r@),
{
    if !text::is_empty_text(r.rig_band.as_str()) && s.rig_band.is_none() {
        s.rig_band = Some(r.rig_band.clone());
    }
    if s.rig_frequency_hz.is_none() {
        s.rig_frequency_hz = r.rig_frequency_hz;
    }
    if !text::is_empty_text(r.app_mode.as_str()) && s.app_mode.is_none() {
        s.app_mode = Some(text::to_uppercase(r.app_mode.as_str()));
    }
}

fn absorb_progress(s: &mut SessionSummary, r: &LogRecord)
    ensures
        final(s)@ == with_progress(old(s)@, r@),
{
    if text::starts_with(r.last_rx_event.as_str(), "to_us_") {
        s.got_reply = true;
    }
    if roger_event(r.last_rx_event.as_str()) {
        s.got_roger = true;
    }
    if terminal_state(r.state_before.as_str()) || terminal_state(r.state_after.as_str()) {
        s.reached_73 = true;
    }
}

fn add_call(calls: &mut Vec<String>, call: Option<String>)
    ensures
        text::texts(final(calls)@) == with_call(text::texts(old(calls)@), text::text_opt(call)),
{
    if let Some(c) = call {
        text::insert_sorted(calls, c);
    }
}

fn add_info(infos: &mut Vec<String>, info: Option<String>)
    ensures
        text::texts(final(infos)@) == with_info(text::texts(old(infos)@), text::text_opt(info)),
{
    if let Some(i) = info {
        exchange::push_unique_info(infos, i);
    }
}

fn absorb_exchange(s: &mut SessionSummary, r: &LogRecord)
    ensures
        final(s)@ == with_exchange(old(s)@, r@),
{
    add_call(
        &mut s.observed_station_calls,
        exchange::extract_station_call_from_tx_text(r.tx_text.as_str()),
    );
    add_call(
        &mut s.observed_station_calls,
        exchange::extract_station_call_from_rx_text(r.rx_text.as_str()),
    );
    match exchange::classify_exchange_info(r.rx_text.as_str()) {
        Some(ExchangeInfo::Grid(grid)) => {
            if s.remote_grid.is_none() {
                s.remote_grid = Some(grid);
            }
        },
        Some(ExchangeInfo::Report(report)) => {
            if s.received_report.is_none() {
                s.received_report = Some(report);
            }
        },
        None => {},
    }
    let sent = exchange::extract_tx_exchange_info(
        r.tx_text.as_str(),
        r.event.as_str(),
        r.partner_call.as_str(),
        r.compound_next_call.as_str(),
    );
    if let Some(info) = &sent {
        if let Some(ExchangeInfo::Report(report)) = exchange::classify_exchange_token(info.as_str()) {
            if s.sent_report.is_none() {
                s.sent_report = Some(report);
            }
        }
    }
    add_info(&mut s.sent_infos, sent);
    add_info(&mut s.received_infos, exchange::extract_exchange_info(r.rx_text.as_str()));
}

fn absorb(s: &mut SessionSummary, r: &LogRecord)
    ensures
        final(s)@ == session_with(old(s)@, r@),
{
    absorb_times(s, r);
    absorb_rig(s, r);
    absorb_progress(s, r);
    absorb_exchange(s, r);
}

fn new_session(session_id: u64, partner_call: &String) -> (r: SessionSummary)
    ensures
        r@ == blank_session(session_id, partner_call@),
{
    let r = SessionSummary {
        session_id,
        partner_call: partner_call.clone(),
        rig_band: None,
        rig_frequency_hz: None,
        app_mode: None,
        started_at: None,
        ended_at: None,
        last_seen_at: None,
        got_roger: false,
        got_reply: false,
        reached_73: false,
        sent_infos: Vec::new(),
        received_infos: Vec::new(),
        sent_report: None,
        received_report: None,
        remote_grid: None,
        exit_reason: None,
        observed_station_calls: Vec::new(),
    };
    assert(r@ =~= blank_session(session_id, partner_call@));
    r
}

/// The contacts in the order in which they began, and which of them goes on under which session.
#[derive(Debug)]
pub struct SessionBook {
    pub sessions: Vec<SessionSummary>,
    pub active: BTreeMap<u64, usize>,
}

#[verifier::ext_equal]
pub struct BookModel {
    pub sessions: Seq<SessionModel>,
    pub active: Map<u64, int>,
}

impl View for SessionBook {
    type V = BookModel;

    open spec fn view(&self) -> BookModel {
        BookModel {
            sessions: session_models(self.sessions@),
            active: self.active@.map_values(|i: usize| i as int),
        }
    }
}

/// The place of the contact that a record belongs to: the one that goes on under its session, unless
/// it starts a new one.
pub open spec fn place_for(book: BookModel, r: RecordModel) -> int {
    if r.event != "start"@ && book.active.contains_key(r.session_id) {
        book.active[r.session_id]
    } else {
        book.sessions.len() as int
    }
}

/// The book once a record has been read.
pub open spec fn book_with(book: BookModel, r: RecordModel) -> BookModel {
    let place = place_for(book, r);
    let sessions = if place < book.sessions.len() {
        book.sessions.update(place, session_with(book.sessions[place], r))
    } else {
        book.sessions.push(session_with(blank_session(r.session_id, r.partner), r))
    };
    BookModel {
        sessions,
        active: if r.event == "exit"@ {
            book.active.remove(r.session_id)
        } else {
            book.active.insert(r.session_id, place)
        },
    }
}

pub open spec fn blank_book() -> BookModel {
    BookModel { sessions: Seq::empty(), active: Map::empty() }
}

/// The book of a log.
pub open spec fn book_of(records: Seq<RecordModel>) -> BookModel
    decreases records.len(),
{
    if records.len() == 0 {
        blank_book()
    } else {
        book_with(book_of(records.drop_last()), records.last())
    }
}

/// What goes on is in the book.
pub open spec fn book_sound(book: BookModel) -> bool {
    forall|id: u64| #[trigger]
        book.active.contains_key(id) ==> 0 <= book.active[id] < book.sessions.len()
            && book.sessions[book.active[id]].id == id
}

impl SessionBook {
    pub open spec fn wf(&self) -> bool {
        book_sound(self@)
    }

    pub fn new() -> (r: Self)
        ensures
            r.wf(),
            r@ == blank_book(),
    {
        let r = SessionBook { sessions: Vec::new(), active: BTreeMap::new() };
        assert(r@ =~= blank_book());
        r
    }

    /// Reads a record.
    pub fn take(&mut self, r: &LogRecord)
        requires
            old(self).wf(),
        ensures
            final(self).wf(),
            final(self)@ == book_with(old(self)@, r@),
    {
        let ghost before = self@;
        let known: Option<usize> = if text::str_eq(r.event.as_str(), "start") {
            None
        } else {
            match self.active.get(&r.session_id) {
                Some(i) => Some(*i),
                None => None,
            }
        };
        let place: usize = match known {
            Some(i) => {
                assert(before.active.contains_key(r.session_id) && before.active[r.session_id] == i);
                i
            },
            None => {
                let i: usize = self.sessions.len();
                self.sessions.push(new_session(r.session_id, &r.partner_call));
                assert(session_models(self.sessions@) =~= before.sessions.push(
                    blank_session(r.session_id, r.partner_call@),
                ));
                i
            },
        };
        let ghost middle = session_models(self.sessions@);
        assert(place == place_for(before, r@));
        assert(middle[place as int] == self.sessions@[place as int]@);
        absorb(&mut self.sessions[place], r);
        assert(session_models(self.sessions@) =~= middle.update(
            place as int,
            session_with(middle[place as int], r@),
        ));
        if text::str_eq(r.event.as_str(), "exit") {
            self.active.remove(&r.session_id);
        } else {
            self.active.insert(r.session_id, place);
        }
        assert(self@ =~= book_with(before, r@));
        proof {
            lemma_book_with_sound(before, r@);
        }
    }
}

proof fn lemma_book_with_sound(book: BookModel, r: RecordModel)
    requires
        book_sound(book),
    ensures
        book_sound(book_with(book, r)),
{
    let after = book_with(book, r);
    let place = place_for(book, r);
    assert forall|id: u64| #[trigger] after.active.contains_key(id) implies 0 <= after.active[id]
        < after.sessions.len() && after.sessions[after.active[id]].id == id by {
        if id != r.session_id {
            assert(book.active.contains_key(id));
        }
    }
}

/// Reads the records of a log.
pub fn collect_sessions(records: &Vec<LogRecord>) -> (r: SessionBook)
    ensures
        r.wf(),
        r@ == book_of(log_record::record_models(records@)),
{
    let ghost all = log_record::record_models(records@);
    let mut book = SessionBook::new();
    let mut i: usize = 0;
    assert(all.take(0) =~= Seq::<RecordModel>::empty());
    while i < records.len()
        invariant
            i <= records@.len(),
            all == log_record::record_models(records@),
            book.wf(),
            book@ == book_of(all.take(i as int)),
        decreases records@.len() - i,
    {
        assert(all.take(i + 1).drop_last() =~= all.take(i as int));
        assert(all.take(i + 1).last() == records@[i as int]@);
        book.take(&records[i]);
        i += 1;
    }
    assert(all.take(i as int) =~= all);
    book
}

/// Every time that the contact has can be shown.
pub open spec fn session_displayable(s: SessionModel) -> bool {
    clock::displayable_opt(s.started) && clock::displayable_opt(s.ended) && clock::displayable_opt(
        s.last_seen,
    ) && s.last_seen is Some
}

/// The contacts of a log with times that can be shown have times that can be shown.
pub proof fn lemma_sessions_displayable(records: Seq<RecordModel>)
    requires
        log_record::records_displayable(records),
    ensures
        book_sound(book_of(records)),
        forall|i: int|
            0 <= i < book_of(records).sessions.len() ==> session_displayable(
                #[trigger] book_of(records).sessions[i],
            ),
    decreases records.len(),
{
    if records.len() > 0 {
        let earlier = records.drop_last();
        assert forall|i: int| 0 <= i < earlier.len() implies clock::displayable(
            (#[trigger] earlier[i]).at,
        ) by {
            assert(earlier[i] == records[i]);
        }
        lemma_sessions_displayable(earlier);
        let book = book_of(earlier);
        let r = records.last();
        assert(clock::displayable(records[records.len() - 1].at));
        let place = place_for(book, r);
        let after = book_of(records);
        lemma_book_with_sound(book, r);
        assert forall|i: int| 0 <= i < after.sessions.len() implies session_displayable(
            #[trigger] after.sessions[i],
        ) by {
            if i < book.sessions.len() {
                assert(session_displayable(book.sessions[i]));
            }
        }
    }
}

/// A record that starts a contact opens a new one, whatever went on under its session, and leaves
/// every earlier contact as it was: a session number that is used again does not run two contacts
/// into one.
pub proof fn law_start_opens_a_new_contact(book: BookModel, r: RecordModel)
    requires
        r.event == "start"@,
    ensures
        book_with(book, r).sessions.len() == book.sessions.len() + 1,
        book_with(book, r).sessions.drop_last() == book.sessions,
        book_with(book, r).sessions.last() == session_with(
            blank_session(r.session_id, r.partner),
            r,
        ),
        book_with(book, r).active[r.session_id] == book.sessions.len(),
{
    reveal_strlit("start");
    reveal_strlit("exit");
    assert(book_with(book, r).sessions.drop_last() =~= book.sessions);
    assert("start"@.len() != "exit"@.len());
}

/// After the record that ends a contact, no later record of its session goes to it.
pub proof fn law_ended_contact_takes_no_more(book: BookModel, exit: RecordModel, later: RecordModel)
    requires
        book_sound(book),
        exit.event == "exit"@,
        later.session_id == exit.session_id,
    ensures
        place_for(book_with(book, exit), later) == book_with(book, exit).sessions.len(),
{
}

/// A record changes one contact at most.
pub proof fn law_record_changes_one_contact(book: BookModel, r: RecordModel, i: int)
    requires
        book_sound(book),
        0 <= i < book.sessions.len(),
        i != place_for(book, r),
    ensures
        book_with(book, r).sessions[i] == book.sessions[i],
{
}

/// What a contact has reached it keeps: a reply, a roger, a closing message, its band, its mode and
/// the reports.
pub proof fn law_progress_is_kept(s: SessionModel, r: RecordModel)
    ensures
        s.got_reply ==> session_with(s, r).got_reply,
        s.got_roger ==> session_with(s, r).got_roger,
        s.reached_73 ==> session_with(s, r).reached_73,
        s.band is Some ==> session_with(s, r).band == s.band,
        s.mode is Some ==> session_with(s, r).mode == s.mode,
        s.sent_report is Some ==> session_with(s, r).sent_report == s.sent_report,
        s.received_report is Some ==> session_with(s, r).received_report == s.received_report,
        s.grid is Some ==> session_with(s, r).grid == s.grid,
        session_with(s, r).id == s.id,
{
}

/// The contact that the record at `i` is put to.
pub open spec fn contact_of(records: Seq<RecordModel>, i: int) -> int {
    place_for(book_of(records.take(i)), records[i])
}

/// From the record at `i` to the one at `j` a contact goes on: both have one session number, and in
/// between no contact was ended under it and none was started.
pub open spec fn goes_on(records: Seq<RecordModel>, i: int, j: int) -> bool {
    &&& 0 <= i <= j < records.len()
    &&& records[i].session_id == records[j].session_id
    &&& forall|k: int|
        i < k <= j && (#[trigger] records[k]).session_id == records[i].session_id ==> records[k].event
            != "start"@
    &&& forall|k: int|
        i <= k < j && (#[trigger] records[k]).session_id == records[i].session_id ==> records[k].event
            != "exit"@
}

/// Both records are of one contact.
pub open spec fn one_contact(records: Seq<RecordModel>, i: int, j: int) -> bool {
    goes_on(records, i, j) || goes_on(records, j, i)
}

/// The last record of the session before `n`; below nothing where there is none.
spec fn last_before(records: Seq<RecordModel>, id: u64, n: int) -> int
    decreases n,
{
    if n <= 0 {
        -1
    } else if records[n - 1].session_id == id {
        n - 1
    } else {
        last_before(records, id, n - 1)
    }
}

proof fn lemma_active(records: Seq<RecordModel>, id: u64, n: int)
    requires
        0 <= n <= records.len(),
    ensures
        ({
            let book = book_of(records.take(n));
            let last = last_before(records, id, n);
            &&& book_sound(book)
            &&& -1 <= last < n
            &&& last >= 0 ==> records[last].session_id == id
            &&& forall|k: int| last < k < n ==> (#[trigger] records[k]).session_id != id
            &&& book.active.contains_key(id) <==> last >= 0 && records[last].event != "exit"@
            &&& book.active.contains_key(id) ==> book.active[id] == contact_of(records, last)
        }),
    decreases n,
{
    if n > 0 {
        lemma_active(records, id, n - 1);
        assert(records.take(n).drop_last() =~= records.take(n - 1));
        assert(records.take(n).last() == records[n - 1]);
        lemma_book_with_sound(book_of(records.take(n - 1)), records[n - 1]);
    } else {
        assert(records.take(0).len() == 0);
    }
}

/// What the record before `n` makes of the contact at `place`.
proof fn lemma_step(records: Seq<RecordModel>, n: int, place: int)
    requires
        0 < n <= records.len(),
        0 <= place < book_of(records.take(n)).sessions.len(),
    ensures
        ({
            let r = records[n - 1];
            let before = book_of(records.take(n - 1)).sessions;
            let after = book_of(records.take(n)).sessions;
            &&& 0 <= contact_of(records, n - 1) <= before.len()
            &&& contact_of(records, n - 1) < after.len()
            &&& place == contact_of(records, n - 1) ==> after[place] == session_with(
                if place < before.len() {
                    before[place]
                } else {
                    blank_session(r.session_id, r.partner)
                },
                r,
            )
            &&& place != contact_of(records, n - 1) ==> place < before.len() && after[place]
                == before[place]
            &&& before.len() <= after.len()
            &&& r.event == "start"@ ==> contact_of(records, n - 1) == before.len()
        }),
{
    lemma_active(records, records[n - 1].session_id, n - 1);
    assert(records.take(n).drop_last() =~= records.take(n - 1));
    assert(records.take(n).last() == records[n - 1]);
}

proof fn lemma_contact_is_there(records: Seq<RecordModel>, i: int, n: int)
    requires
        0 <= i < n <= records.len(),
    ensures
        0 <= contact_of(records, i) < book_of(records.take(n)).sessions.len(),
    decreases n,
{
    lemma_active(records, records[n - 1].session_id, n - 1);
    assert(records.take(n).drop_last() =~= records.take(n - 1));
    assert(records.take(n).last() == records[n - 1]);
    if i < n - 1 {
        lemma_contact_is_there(records, i, n - 1);
    }
}

/// Two records are put to one contact exactly when they have one session number and between them no
/// contact was ended under it and none was started.
pub proof fn law_records_of_one_contact(records: Seq<RecordModel>, i: int, j: int)
    requires
        0 <= i <= j < records.len(),
    ensures
        contact_of(records, i) == contact_of(records, j) <==> goes_on(records, i, j),
    decreases j, i,
{
    if i < j {
        let id = records[j].session_id;
        let last = last_before(records, id, j);
        lemma_active(records, id, j);
        lemma_contact_is_there(records, i, j);
        if contact_of(records, i) == contact_of(records, j) {
            assert(records[j].event != "start"@ && last >= 0);
            if last < i {
                law_records_of_one_contact(records, last, i);
                assert(records[i].session_id != id);
            } else {
                law_records_of_one_contact(records, i, last);
            }
        }
        if goes_on(records, i, j) {
            assert(last >= i) by {
                if last < i {
                    assert(records[i].session_id != id);
                }
            }
            assert(records[last].event != "exit"@);
            assert(goes_on(records, i, last));
            law_records_of_one_contact(records, i, last);
        }
    }
}

proof fn lemma_one_contact(records: Seq<RecordModel>, i: int, j: int)
    requires
        0 <= i < records.len(),
    ensures
        one_contact(records, i, j) <==> 0 <= j < records.len() && contact_of(records, i)
            == contact_of(records, j),
{
    if 0 <= j < records.len() {
        if i <= j {
            law_records_of_one_contact(records, i, j);
        } else {
            law_records_of_one_contact(records, j, i);
        }
    }
}

/// Every contact has a record.
proof fn lemma_contact_has_record(records: Seq<RecordModel>, n: int, place: int) -> (i: int)
    requires
        0 <= n <= records.len(),
        0 <= place < book_of(records.take(n)).sessions.len(),
    ensures
        0 <= i < n,
        contact_of(records, i) == place,
    decreases n,
{
    if n == 0 {
        assert(records.take(0).len() == 0);
        0
    } else {
        lemma_step(records, n, place);
        if contact_of(records, n - 1) == place {
            n - 1
        } else {
            lemma_contact_has_record(records, n - 1, place)
        }
    }
}

/// The record at `j` is one of the first `n` and is put to the contact.
spec fn put_to(records: Seq<RecordModel>, n: int, place: int, j: int) -> bool {
    0 <= j < n && contact_of(records, j) == place
}

spec fn confirms(r: RecordModel) -> bool {
    r.rx_event == "to_us_ack"@ || r.rx_event == "to_us_reply_rrr"@ || r.rx_event
        == "to_us_reply_rr73"@ || r.rx_event == "to_us_reply_73"@
}

spec fn closes(r: RecordModel) -> bool {
    r.state_before == "send_rr73"@ || r.state_before == "send_73"@ || r.state_before
        == "send_73_once"@ || r.state_after == "send_rr73"@ || r.state_after == "send_73"@
        || r.state_after == "send_73_once"@
}

proof fn lemma_progress(records: Seq<RecordModel>, n: int, place: int)
    requires
        0 <= n <= records.len(),
        0 <= place < book_of(records.take(n)).sessions.len(),
    ensures
        ({
            let s = book_of(records.take(n)).sessions[place];
            &&& s.got_roger <==> exists|j: int| #[trigger]
                put_to(records, n, place, j) && confirms(records[j])
            &&& s.got_reply <==> exists|j: int| #[trigger]
                put_to(records, n, place, j) && text::has_prefix(records[j].rx_event, "to_us_"@)
            &&& s.reached_73 <==> exists|j: int| #[trigger]
                put_to(records, n, place, j) && closes(records[j])
        }),
    decreases n,
{
    if n == 0 {
        assert(records.take(0).len() == 0);
    } else {
        let r = records[n - 1];
        let before = book_of(records.take(n - 1)).sessions;
        let s = book_of(records.take(n)).sessions[place];
        lemma_step(records, n, place);
        if place < before.len() {
            lemma_progress(records, n - 1, place);
        }
        assert forall|j: int| #[trigger] put_to(records, n, place, j) implies (j == n - 1 || (
        put_to(records, n - 1, place, j) && place < before.len())) by {
            if j < n - 1 {
                lemma_contact_is_there(records, j, n - 1);
            }
        }
        assert forall|j: int| #[trigger] put_to(records, n - 1, place, j) implies put_to(
            records,
            n,
            place,
            j,
        ) && place < before.len() by {
            lemma_contact_is_there(records, j, n - 1);
        }
        if contact_of(records, n - 1) == place {
            assert(put_to(records, n, place, n - 1));
        }
        if place < before.len() {
            let old = before[place];
            if old.got_roger {
                let j = choose|j: int| #[trigger]
                    put_to(records, n - 1, place, j) && confirms(records[j]);
                assert(put_to(records, n, place, j));
            }
            if old.got_reply {
                let j = choose|j: int| #[trigger]
                    put_to(records, n - 1, place, j) && text::has_prefix(
                        records[j].rx_event,
                        "to_us_"@,
                    );
                assert(put_to(records, n, place, j));
            }
            if old.reached_73 {
                let j = choose|j: int| #[trigger]
                    put_to(records, n - 1, place, j) && closes(records[j]);
                assert(put_to(records, n, place, j));
            }
        }
    }
}

/// How far a contact has got. It has its roger exactly when one of its records has `to_us_ack`,
/// `to_us_reply_rrr`, `to_us_reply_rr73` or `to_us_reply_73` as what was received; a reply when one
/// has any event to us; and it has reached 73 when one of its records has `send_rr73`, `send_73` or
/// `send_73_once` as the state before or after.
pub proof fn law_how_far_a_contact_got(records: Seq<RecordModel>, i: int)
    requires
        0 <= i < records.len(),
    ensures
        0 <= contact_of(records, i) < book_of(records).sessions.len(),
        ({
            let s = book_of(records).sessions[contact_of(records, i)];
            &&& s.got_roger <==> exists|j: int| #[trigger]
                one_contact(records, i, j) && (records[j].rx_event == "to_us_ack"@
                    || records[j].rx_event == "to_us_reply_rrr"@ || records[j].rx_event
                    == "to_us_reply_rr73"@ || records[j].rx_event == "to_us_reply_73"@)
            &&& s.got_reply <==> exists|j: int| #[trigger]
                one_contact(records, i, j) && text::has_prefix(records[j].rx_event, "to_us_"@)
            &&& s.reached_73 <==> exists|j: int| #[trigger]
                one_contact(records, i, j) && (records[j].state_before == "send_rr73"@
                    || records[j].state_before == "send_73"@ || records[j].state_before
                    == "send_73_once"@ || records[j].state_after == "send_rr73"@
                    || records[j].state_after == "send_73"@ || records[j].state_after
                    == "send_73_once"@)
        }),
{
    let n = records.len() as int;
    let place = contact_of(records, i);
    assert(records.take(n) =~= records);
    lemma_contact_is_there(records, i, n);
    lemma_progress(records, n, place);
    assert forall|j: int| #[trigger] put_to(records, n, place, j) == one_contact(records, i, j) by {
        lemma_one_contact(records, i, j);
    }
    let s = book_of(records).sessions[place];
    if s.got_roger {
        let j = choose|j: int| #[trigger] put_to(records, n, place, j) && confirms(records[j]);
        assert(one_contact(records, i, j));
    }
    if s.got_reply {
        let j = choose|j: int| #[trigger]
            put_to(records, n, place, j) && text::has_prefix(records[j].rx_event, "to_us_"@);
        assert(one_contact(records, i, j));
    }
    if s.reached_73 {
        let j = choose|j: int| #[trigger] put_to(records, n, place, j) && closes(records[j]);
        assert(one_contact(records, i, j));
    }
    assert forall|j: int| #[trigger] one_contact(records, i, j) implies put_to(
        records,
        n,
        place,
        j,
    ) by {
        lemma_one_contact(records, i, j);
    }
}

/// Every contact of a log has records of its own.
pub proof fn law_contact_has_a_record(records: Seq<RecordModel>, place: int) -> (i: int)
    requires
        0 <= place < book_of(records).sessions.len(),
    ensures
        0 <= i < records.len(),
        contact_of(records, i) == place,
{
    assert(records.take(records.len() as int) =~= records);
    lemma_contact_has_record(records, records.len() as int, place)
}

/// What the first `n` records tell first of the contact at `place`.
spec fn first_told<V>(
    records: Seq<RecordModel>,
    n: int,
    place: int,
    tells: spec_fn(RecordModel) -> Option<V>,
) -> Option<V>
    decreases n,
{
    if n <= 0 {
        None
    } else if first_told(records, n - 1, place, tells) is Some {
        first_told(records, n - 1, place, tells)
    } else if contact_of(records, n - 1) == place {
        tells(records[n - 1])
    } else {
        None
    }
}

/// What the first `n` records tell last of the contact at `place`.
spec fn last_told<V>(
    records: Seq<RecordModel>,
    n: int,
    place: int,
    tells: spec_fn(RecordModel) -> Option<V>,
) -> Option<V>
    decreases n,
{
    if n <= 0 {
        None
    } else if contact_of(records, n - 1) == place && tells(records[n - 1]) is Some {
        tells(records[n - 1])
    } else {
        last_told(records, n - 1, place, tells)
    }
}

/// What the records of one contact tell first, in the order of the log.
pub open spec fn tells_first<V>(
    records: Seq<RecordModel>,
    i: int,
    tells: spec_fn(RecordModel) -> Option<V>,
    value: Option<V>,
) -> bool {
    match value {
        Some(v) => exists|j: int| #[trigger]
            one_contact(records, i, j) && tells(records[j]) == Some(v) && forall|k: int|
                k < j && #[trigger] one_contact(records, i, k) ==> tells(records[k]) is None,
        None => forall|j: int| #[trigger]
            one_contact(records, i, j) ==> tells(records[j]) is None,
    }
}

/// What the records of one contact tell last, in the order of the log.
pub open spec fn tells_last<V>(
    records: Seq<RecordModel>,
    i: int,
    tells: spec_fn(RecordModel) -> Option<V>,
    value: Option<V>,
) -> bool {
    match value {
        Some(v) => exists|j: int| #[trigger]
            one_contact(records, i, j) && tells(records[j]) == Some(v) && forall|k: int|
                k > j && #[trigger] one_contact(records, i, k) ==> tells(records[k]) is None,
        None => forall|j: int| #[trigger]
            one_contact(records, i, j) ==> tells(records[j]) is None,
    }
}

proof fn lemma_first_told<V>(
    records: Seq<RecordModel>,
    n: int,
    place: int,
    tells: spec_fn(RecordModel) -> Option<V>,
)
    ensures
        match first_told(records, n, place, tells) {
            Some(v) => exists|j: int| #[trigger]
                put_to(records, n, place, j) && tells(records[j]) == Some(v) && forall|k: int|
                    k < j && #[trigger] put_to(records, n, place, k) ==> tells(records[k]) is None,
            None => forall|j: int| #[trigger]
                put_to(records, n, place, j) ==> tells(records[j]) is None,
        },
    decreases n,
{
    if n > 0 {
        lemma_first_told(records, n - 1, place, tells);
        assert forall|j: int| #[trigger] put_to(records, n, place, j) && j < n - 1 implies put_to(
            records,
            n - 1,
            place,
            j,
        ) by {}
        if let Some(v) = first_told(records, n - 1, place, tells) {
            let j = choose|j: int| #[trigger]
                put_to(records, n - 1, place, j) && tells(records[j]) == Some(v) && forall|k: int|
                    k < j && #[trigger] put_to(records, n - 1, place, k) ==> tells(records[k])
                        is None;
            assert(put_to(records, n, place, j));
        } else if contact_of(records, n - 1) == place {
            assert(put_to(records, n, place, n - 1));
        }
    }
}

proof fn lemma_last_told<V>(
    records: Seq<RecordModel>,
    n: int,
    place: int,
    tells: spec_fn(RecordModel) -> Option<V>,
)
    ensures
        match last_told(records, n, place, tells) {
            Some(v) => exists|j: int| #[trigger]
                put_to(records, n, place, j) && tells(records[j]) == Some(v) && forall|k: int|
                    k > j && #[trigger] put_to(records, n, place, k) ==> tells(records[k]) is None,
            None => forall|j: int| #[trigger]
                put_to(records, n, place, j) ==> tells(records[j]) is None,
        },
    decreases n,
{
    if n > 0 {
        lemma_last_told(records, n - 1, place, tells);
        assert forall|j: int| #[trigger] put_to(records, n, place, j) && j < n - 1 implies put_to(
            records,
            n - 1,
            place,
            j,
        ) by {}
        if contact_of(records, n - 1) == place && tells(records[n - 1]) is Some {
            assert(put_to(records, n, place, n - 1));
        } else if let Some(v) = last_told(records, n - 1, place, tells) {
            let j = choose|j: int| #[trigger]
                put_to(records, n - 1, place, j) && tells(records[j]) == Some(v) && forall|k: int|
                    k > j && #[trigger] put_to(records, n - 1, place, k) ==> tells(records[k])
                        is None;
            assert(put_to(records, n, place, j));
        }
    }
}

proof fn lemma_tells_first<V>(
    records: Seq<RecordModel>,
    i: int,
    tells: spec_fn(RecordModel) -> Option<V>,
)
    requires
        0 <= i < records.len(),
    ensures
        tells_first(
            records,
            i,
            tells,
            first_told(records, records.len() as int, contact_of(records, i), tells),
        ),
{
    let n = records.len() as int;
    let place = contact_of(records, i);
    lemma_first_told(records, n, place, tells);
    assert forall|j: int| #[trigger] one_contact(records, i, j) == put_to(records, n, place, j) by {
        lemma_one_contact(records, i, j);
    }
    if let Some(v) = first_told(records, n, place, tells) {
        let j = choose|j: int| #[trigger]
            put_to(records, n, place, j) && tells(records[j]) == Some(v) && forall|k: int|
                k < j && #[trigger] put_to(records, n, place, k) ==> tells(records[k]) is None;
        assert(one_contact(records, i, j));
    }
}

proof fn lemma_tells_last<V>(
    records: Seq<RecordModel>,
    i: int,
    tells: spec_fn(RecordModel) -> Option<V>,
)
    requires
        0 <= i < records.len(),
    ensures
        tells_last(
            records,
            i,
            tells,
            last_told(records, records.len() as int, contact_of(records, i), tells),
        ),
{
    let n = records.len() as int;
    let place = contact_of(records, i);
    lemma_last_told(records, n, place, tells);
    assert forall|j: int| #[trigger] one_contact(records, i, j) == put_to(records, n, place, j) by {
        lemma_one_contact(records, i, j);
    }
    if let Some(v) = last_told(records, n, place, tells) {
        let j = choose|j: int| #[trigger]
            put_to(records, n, place, j) && tells(records[j]) == Some(v) && forall|k: int|
                k > j && #[trigger] put_to(records, n, place, k) ==> tells(records[k]) is None;
        assert(one_contact(records, i, j));
    }
}

/// Of a contact that no record has been put to, nothing is told.
proof fn lemma_nothing_told<V>(
    records: Seq<RecordModel>,
    n: int,
    place: int,
    tells: spec_fn(RecordModel) -> Option<V>,
)
    requires
        0 <= n <= records.len(),
        place >= book_of(records.take(n)).sessions.len(),
    ensures
        first_told(records, n, place, tells) is None,
        last_told(records, n, place, tells) is None,
{
    lemma_first_told(records, n, place, tells);
    lemma_last_told(records, n, place, tells);
    assert forall|j: int| !#[trigger] put_to(records, n, place, j) by {
        if 0 <= j < n {
            lemma_contact_is_there(records, j, n);
        }
    }
}

/// When a record starts a contact, when it ends one, and why.
pub open spec fn start_told(r: RecordModel) -> Option<Timestamp> {
    if r.event == "start"@ {
        Some(r.at)
    } else {
        None
    }
}

pub open spec fn end_told(r: RecordModel) -> Option<Timestamp> {
    if r.event == "exit"@ {
        Some(r.at)
    } else {
        None
    }
}

pub open spec fn reason_told(r: RecordModel) -> Option<Seq<char>> {
    if r.event == "exit"@ {
        Some(r.rx_event)
    } else {
        None
    }
}

pub open spec fn band_told(r: RecordModel) -> Option<Seq<char>> {
    if r.band.len() > 0 {
        Some(r.band)
    } else {
        None
    }
}

pub open spec fn mode_told(r: RecordModel) -> Option<Seq<char>> {
    if r.mode.len() > 0 {
        Some(text::uppercased(r.mode))
    } else {
        None
    }
}

pub open spec fn partner_told(r: RecordModel) -> Option<Seq<char>> {
    if r.partner.len() > 0 {
        Some(r.partner)
    } else {
        None
    }
}

pub open spec fn report_told(r: RecordModel) -> Option<Seq<char>> {
    match exchange::third_word(r.rx_text) {
        Some(ExchangeModel::Report(report)) => Some(report),
        _ => None,
    }
}

pub open spec fn grid_told(r: RecordModel) -> Option<Seq<char>> {
    match exchange::third_word(r.rx_text) {
        Some(ExchangeModel::Grid(grid)) => Some(grid),
        _ => None,
    }
}

proof fn lemma_what_is_told(records: Seq<RecordModel>, n: int, place: int)
    requires
        0 <= n <= records.len(),
        0 <= place < book_of(records.take(n)).sessions.len(),
    ensures
        ({
            let s = book_of(records.take(n)).sessions[place];
            &&& s.started == first_told(records, n, place, |r: RecordModel| start_told(r))
            &&& s.ended == last_told(records, n, place, |r: RecordModel| end_told(r))
            &&& s.exit_reason == last_told(records, n, place, |r: RecordModel| reason_told(r))
            &&& s.last_seen == last_told(records, n, place, |r: RecordModel| Some(r.at))
            &&& s.band == first_told(records, n, place, |r: RecordModel| band_told(r))
            &&& s.mode == first_told(records, n, place, |r: RecordModel| mode_told(r))
            &&& s.frequency == first_told(records, n, place, |r: RecordModel| r.frequency)
            &&& s.sent_report == first_told(
                records,
                n,
                place,
                |r: RecordModel| report_in(sent_by(r)),
            )
            &&& s.received_report == first_told(records, n, place, |r: RecordModel| report_told(r))
            &&& s.grid == first_told(records, n, place, |r: RecordModel| grid_told(r))
            &&& forall|j: int| #[trigger]
                put_to(records, n, place, j) ==> records[j].session_id == s.id
        }),
    decreases n,
{
    if n == 0 {
        assert(records.take(0).len() == 0);
    } else {
        let before = book_of(records.take(n - 1)).sessions;
        lemma_step(records, n, place);
        lemma_active(records, records[n - 1].session_id, n - 1);
        if place < before.len() {
            lemma_what_is_told(records, n - 1, place);
        } else {
            lemma_nothing_told(records, n - 1, place, |r: RecordModel| start_told(r));
            lemma_nothing_told(records, n - 1, place, |r: RecordModel| end_told(r));
            lemma_nothing_told(records, n - 1, place, |r: RecordModel| reason_told(r));
            lemma_nothing_told(records, n - 1, place, |r: RecordModel| Some(r.at));
            lemma_nothing_told(records, n - 1, place, |r: RecordModel| band_told(r));
            lemma_nothing_told(records, n - 1, place, |r: RecordModel| mode_told(r));
            lemma_nothing_told(records, n - 1, place, |r: RecordModel| r.frequency);
            lemma_nothing_told(
                records,
                n - 1,
                place,
                |r: RecordModel| report_in(sent_by(r)),
            );
            lemma_nothing_told(records, n - 1, place, |r: RecordModel| report_told(r));
            lemma_nothing_told(records, n - 1, place, |r: RecordModel| grid_told(r));
        }
        let s = book_of(records.take(n)).sessions[place];
        assert forall|j: int| #[trigger] put_to(records, n, place, j) implies records[j].session_id
            == s.id by {
            if j < n - 1 {
                lemma_contact_is_there(records, j, n - 1);
                assert(put_to(records, n - 1, place, j));
            }
        }
    }
}

proof fn lemma_partner_is_told(records: Seq<RecordModel>, n: int, place: int)
    requires
        0 <= n <= records.len(),
        0 <= place < book_of(records.take(n)).sessions.len(),
    ensures
        ({
            let partner = book_of(records.take(n)).sessions[place].partner;
            first_told(records, n, place, |r: RecordModel| partner_told(r)) == (if partner.len() > 0 {
                Some(partner)
            } else {
                None
            })
        }),
    decreases n,
{
    if n == 0 {
        assert(records.take(0).len() == 0);
    } else {
        lemma_step(records, n, place);
        if place < book_of(records.take(n - 1)).sessions.len() {
            lemma_partner_is_told(records, n - 1, place);
        } else {
            lemma_nothing_told(records, n - 1, place, |r: RecordModel| partner_told(r));
        }
    }
}

/// What is known of a contact is what its records tell: its partner, the time of its start, of its end and of the
/// last record; the reason of the end; band, mode and frequency as told first; and of the reports
/// that were sent and received the first of each.
pub proof fn law_contact_is_what_its_records_tell(records: Seq<RecordModel>, i: int)
    requires
        0 <= i < records.len(),
    ensures
        0 <= contact_of(records, i) < book_of(records).sessions.len(),
        ({
            let s = book_of(records).sessions[contact_of(records, i)];
            &&& s.id == records[i].session_id
            &&& tells_first(records, i, |r: RecordModel| start_told(r), s.started)
            &&& tells_last(records, i, |r: RecordModel| end_told(r), s.ended)
            &&& tells_last(records, i, |r: RecordModel| reason_told(r), s.exit_reason)
            &&& tells_last(records, i, |r: RecordModel| Some(r.at), s.last_seen)
            &&& tells_first(records, i, |r: RecordModel| band_told(r), s.band)
            &&& tells_first(records, i, |r: RecordModel| mode_told(r), s.mode)
            &&& tells_first(records, i, |r: RecordModel| r.frequency, s.frequency)
            &&& tells_first(
                records,
                i,
                |r: RecordModel| report_in(sent_by(r)),
                s.sent_report,
            )
            &&& tells_first(records, i, |r: RecordModel| report_told(r), s.received_report)
            &&& tells_first(records, i, |r: RecordModel| grid_told(r), s.grid)
            &&& tells_first(
                records,
                i,
                |r: RecordModel| partner_told(r),
                if s.partner.len() > 0 {
                    Some(s.partner)
                } else {
                    None
                },
            )
        }),
{
    let n = records.len() as int;
    let place = contact_of(records, i);
    assert(records.take(n) =~= records);
    lemma_contact_is_there(records, i, n);
    lemma_what_is_told(records, n, place);
    assert(put_to(records, n, place, i));
    lemma_tells_first(records, i, |r: RecordModel| start_told(r));
    lemma_tells_last(records, i, |r: RecordModel| end_told(r));
    lemma_tells_last(records, i, |r: RecordModel| reason_told(r));
    lemma_tells_last(records, i, |r: RecordModel| Some(r.at));
    lemma_tells_first(records, i, |r: RecordModel| band_told(r));
    lemma_tells_first(records, i, |r: RecordModel| mode_told(r));
    lemma_tells_first(records, i, |r: RecordModel| r.frequency);
    lemma_tells_first(records, i, |r: RecordModel| report_in(sent_by(r)));
    lemma_tells_first(records, i, |r: RecordModel| report_told(r));
    lemma_tells_first(records, i, |r: RecordModel| grid_told(r));
    lemma_tells_first(records, i, |r: RecordModel| partner_told(r));
    lemma_partner_is_told(records, n, place);
}

proof fn lemma_confirming_is_replying(event: Seq<char>)
    requires
        event == "to_us_ack"@ || event == "to_us_reply_rrr"@ || event == "to_us_reply_rr73"@ || event
            == "to_us_reply_73"@,
    ensures
        text::has_prefix(event, "to_us_"@),
{
    reveal_strlit("to_us_");
    reveal_strlit("to_us_ack");
    reveal_strlit("to_us_reply_rrr");
    reveal_strlit("to_us_reply_rr73");
    reveal_strlit("to_us_reply_73");
    assert(event.take(6) =~= "to_us_"@);
}

/// A contact with a roger has a reply, and every contact has a time at which it was last heard of.
pub proof fn law_roger_is_a_reply(records: Seq<RecordModel>, i: int)
    requires
        0 <= i < records.len(),
    ensures
        ({
            let s = book_of(records).sessions[contact_of(records, i)];
            (s.got_roger ==> s.got_reply) && s.last_seen is Some
        }),
{
    let s = book_of(records).sessions[contact_of(records, i)];
    law_how_far_a_contact_got(records, i);
    law_contact_is_what_its_records_tell(records, i);
    if s.got_roger {
        let j = choose|j: int| #[trigger]
            one_contact(records, i, j) && (records[j].rx_event == "to_us_ack"@ || records[j].rx_event
                == "to_us_reply_rrr"@ || records[j].rx_event == "to_us_reply_rr73"@
                || records[j].rx_event == "to_us_reply_73"@);
        lemma_confirming_is_replying(records[j].rx_event);
        assert(one_contact(records, i, j));
    }
    if s.last_seen is None {
        assert(one_contact(records, i, i));
    }
}

/// The states in which we send RR73 or 73 are those in which a contact is closed.
pub proof fn law_closing_states(state: QsoState)
    ensures
        is_terminal(state.name()) <==> state == QsoState::SendRR73 || state == QsoState::Send73
            || state == QsoState::Send73Once,
{
    reveal_strlit("idle");
    reveal_strlit("send_cq");
    reveal_strlit("send_grid");
    reveal_strlit("send_sig");
    reveal_strlit("send_sig_ack");
    reveal_strlit("send_rr73");
    reveal_strlit("send_rrr");
    reveal_strlit("send_73");
    reveal_strlit("send_73_once");
    assert("send_grid"@[5] != "send_rr73"@[5]);
    assert("send_cq"@[5] != "send_73"@[5]);
    assert("send_sig_ack"@[5] != "send_73_once"@[5]);
    let name = state.name();
    match state {
        QsoState::Idle => assert(name.len() == 4),
        QsoState::SendCq => assert(name.len() == 7 && name[5] == 'c'),
        QsoState::SendGrid => assert(name.len() == 9 && name[5] == 'g'),
        QsoState::SendSig => assert(name.len() == 8),
        QsoState::SendSigAck => assert(name.len() == 12 && name[5] == 's'),
        QsoState::SendRRR => assert(name.len() == 8),
        _ => {},
    }
}

proof fn lemma_exchanged(records: Seq<RecordModel>, n: int, place: int, x: Seq<char>)
    requires
        0 <= n <= records.len(),
        0 <= place < book_of(records.take(n)).sessions.len(),
    ensures
        ({
            let s = book_of(records.take(n)).sessions[place];
            &&& text::ascending(s.station_calls)
            &&& s.sent_infos.contains(x) <==> exists|j: int| #[trigger]
                put_to(records, n, place, j) && sent_by(records[j]) == Some(x)
            &&& s.received_infos.contains(x) <==> exists|j: int| #[trigger]
                put_to(records, n, place, j) && exchange::exchange_info(records[j].rx_text) == Some(
                    x,
                )
            &&& s.station_calls.to_set().contains(x) <==> exists|j: int| #[trigger]
                put_to(records, n, place, j) && (exchange::sending_call(records[j].tx_text) == Some(
                    x,
                ) || exchange::addressed_call(records[j].rx_text) == Some(x))
        }),
    decreases n,
{
    if n == 0 {
        assert(records.take(0).len() == 0);
    } else {
        let r = records[n - 1];
        let before = book_of(records.take(n - 1)).sessions;
        let after = book_of(records.take(n)).sessions[place];
        lemma_step(records, n, place);
        if place < before.len() {
            lemma_exchanged(records, n - 1, place, x);
        }
        assert forall|j: int| #[trigger] put_to(records, n, place, j) implies (j == n - 1 || (
        put_to(records, n - 1, place, j) && place < before.len())) by {
            if j < n - 1 {
                lemma_contact_is_there(records, j, n - 1);
            }
        }
        assert forall|j: int| #[trigger] put_to(records, n - 1, place, j) implies put_to(
            records,
            n,
            place,
            j,
        ) && place < before.len() by {
            lemma_contact_is_there(records, j, n - 1);
        }
        let old = if place < before.len() {
            before[place]
        } else {
            blank_session(r.session_id, r.partner)
        };
        assert(text::ascending(old.station_calls));
        lemma_noted(old.sent_infos, sent_by(r), x);
        lemma_noted(old.received_infos, exchange::exchange_info(r.rx_text), x);
        lemma_called(old.station_calls, exchange::sending_call(r.tx_text), x);
        lemma_called(
            with_call(old.station_calls, exchange::sending_call(r.tx_text)),
            exchange::addressed_call(r.rx_text),
            x,
        );
        assert(!Seq::<Seq<char>>::empty().to_set().contains(x));
        if contact_of(records, n - 1) == place {
            assert(put_to(records, n, place, n - 1));
        }
        if place < before.len() {
            if old.sent_infos.contains(x) {
                let j = choose|j: int| #[trigger]
                    put_to(records, n - 1, place, j) && sent_by(records[j]) == Some(x);
                assert(put_to(records, n, place, j));
            }
            if old.received_infos.contains(x) {
                let j = choose|j: int| #[trigger]
                    put_to(records, n - 1, place, j) && exchange::exchange_info(records[j].rx_text)
                        == Some(x);
                assert(put_to(records, n, place, j));
            }
            if old.station_calls.to_set().contains(x) {
                let j = choose|j: int| #[trigger]
                    put_to(records, n - 1, place, j) && (exchange::sending_call(records[j].tx_text)
                        == Some(x) || exchange::addressed_call(records[j].rx_text) == Some(x));
                assert(put_to(records, n, place, j));
            }
        }
    }
}

proof fn lemma_noted(infos: Seq<Seq<char>>, info: Option<Seq<char>>, x: Seq<char>)
    ensures
        with_info(infos, info).contains(x) <==> infos.contains(x) || info == Some(x),
{
    if let Some(i) = info {
        let all = exchange::with_unique(infos, i);
        if infos.contains(x) {
            assert(all[infos.index_of(x)] == x);
        }
        if !infos.contains(i) {
            assert(all.last() == i);
            if all.contains(x) {
                let k = all.index_of(x);
                if k < infos.len() {
                    assert(infos[k] == x);
                }
            }
        }
    }
}

proof fn lemma_called(calls: Seq<Seq<char>>, call: Option<Seq<char>>, x: Seq<char>)
    requires
        text::ascending(calls),
    ensures
        text::ascending(with_call(calls, call)),
        with_call(calls, call).to_set().contains(x) <==> calls.to_set().contains(x) || call == Some(
            x,
        ),
{
    if let Some(c) = call {
        text::lemma_sorted_with(calls, c);
    }
}

/// What was sent and received in a contact is what its records tell of, and the calls that it was
/// logged under are those that the texts sent come from and the texts received are addressed to.
pub proof fn law_what_was_exchanged_in_a_contact(
    records: Seq<RecordModel>,
    i: int,
    x: Seq<char>,
)
    requires
        0 <= i < records.len(),
    ensures
        0 <= contact_of(records, i) < book_of(records).sessions.len(),
        ({
            let s = book_of(records).sessions[contact_of(records, i)];
            &&& s.sent_infos.contains(x) <==> exists|j: int| #[trigger]
                one_contact(records, i, j) && exchange::sent_info(
                    records[j].tx_text,
                    records[j].event,
                    records[j].partner,
                    records[j].compound_next,
                ) == Some(x)
            &&& s.received_infos.contains(x) <==> exists|j: int| #[trigger]
                one_contact(records, i, j) && exchange::exchange_info(records[j].rx_text) == Some(x)
            &&& s.station_calls.contains(x) <==> exists|j: int| #[trigger]
                one_contact(records, i, j) && (exchange::sending_call(records[j].tx_text) == Some(x)
                    || exchange::addressed_call(records[j].rx_text) == Some(x))
        }),
{
    let n = records.len() as int;
    let place = contact_of(records, i);
    assert(records.take(n) =~= records);
    lemma_contact_is_there(records, i, n);
    lemma_exchanged(records, n, place, x);
    let s = book_of(records).sessions[place];
    assert(s.station_calls.contains(x) <==> s.station_calls.to_set().contains(x));
    assert forall|j: int| #[trigger] one_contact(records, i, j) == put_to(records, n, place, j) by {
        lemma_one_contact(records, i, j);
    }
    if s.sent_infos.contains(x) {
        let j = choose|j: int| #[trigger]
            put_to(records, n, place, j) && sent_by(records[j]) == Some(x);
        assert(one_contact(records, i, j));
    }
    if s.received_infos.contains(x) {
        let j = choose|j: int| #[trigger]
            put_to(records, n, place, j) && exchange::exchange_info(records[j].rx_text) == Some(x);
        assert(one_contact(records, i, j));
    }
    if s.station_calls.contains(x) {
        let j = choose|j: int| #[trigger]
            put_to(records, n, place, j) && (exchange::sending_call(records[j].tx_text) == Some(x)
                || exchange::addressed_call(records[j].rx_text) == Some(x));
        assert(one_contact(records, i, j));
    }
}

} // verus!
