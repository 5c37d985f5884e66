//! Export of contacts in the ADIF format.

use vstd::prelude::*;
use vstd::string::*;

use crate::clock;
use crate::clock::Timestamp;
use crate::lines;
use crate::log_record;
use crate::log_record::{LogRecord, RecordModel};
use crate::rank;
use crate::rank::IndexOrder;
use crate::sessions;
use crate::sessions::{SessionModel, SessionSummary};
use crate::text;

verus! {

pub const PROGRAM_VERSION: &'static str = "0.1.0";

/// A contact that can be exported.
#[derive(Debug)]
pub struct AdifRecord {
    pub session_id: u64,
    pub call: String,
    pub qso_date: String,
    pub time_on: String,
    pub qso_date_off: Option<String>,
    pub time_off: Option<String>,
    pub band: String,
    pub freq: Option<String>,
    pub mode: String,
    pub submode: Option<String>,
    pub rst_sent: String,
    pub rst_rcvd: String,
    pub station_callsign: String,
    pub my_gridsquare: String,
    pub gridsquare: Option<String>,
}

#[verifier::ext_equal]
pub struct AdifModel {
    pub session_id: u64,
    pub call: Seq<char>,
    pub date: Seq<char>,
    pub time: Seq<char>,
    pub date_off: Option<Seq<char>>,
    pub time_off: Option<Seq<char>>,
    pub band: Seq<char>,
    pub freq: Option<Seq<char>>,
    pub mode: Seq<char>,
    pub submode: Option<Seq<char>>,
    pub sent: Seq<char>,
    pub received: Seq<char>,
    pub station: Seq<char>,
    pub my_grid: Seq<char>,
    pub grid: Option<Seq<char>>,
}

impl View for AdifRecord {
    type V = AdifModel;

    open spec fn view(&self) -> AdifModel {
        AdifModel {
            session_id: self.session_id,
            call: self.call@,
            date: self.qso_date@,
            time: self.time_on@,
            date_off: text::text_opt(self.qso_date_off),
            time_off: text::text_opt(self.time_off),
            band: self.band@,
            freq: text::text_opt(self.freq),
            mode: self.mode@,
            submode: text::text_opt(self.submode),
            sent: self.rst_sent@,
            received: self.rst_rcvd@,
            station: self.station_callsign@,
            my_grid: self.my_gridsquare@,
            grid: text::text_opt(self.gridsquare),
        }
    }
}

/// A contact that cannot be exported, and why.
#[derive(Debug)]
pub struct IneligibleQso {
    pub session_id: u64,
    pub call: String,
    pub started_at: Option<Timestamp>,
    pub ended_at: Option<Timestamp>,
    pub reason: String,
}

#[verifier::ext_equal]
pub struct IneligibleModel {
    pub session_id: u64,
    pub call: Seq<char>,
    pub started: Option<Timestamp>,
    pub ended: Option<Timestamp>,
    pub reason: Seq<char>,
}

impl View for IneligibleQso {
    type V = IneligibleModel;

    open spec fn view(&self) -> IneligibleModel {
        IneligibleModel {
            session_id: self.session_id,
            call: self.call@,
            started: self.started_at,
            ended: self.ended_at,
            reason: self.reason@,
        }
    }
}

pub open spec fn or_time(a: Option<Timestamp>, b: Option<Timestamp>) -> Option<Timestamp> {
    match a {
        Some(t) => Some(t),
        None => b,
    }
}

pub open spec fn start_of(s: SessionModel) -> Option<Timestamp> {
    or_time(s.started, s.last_seen)
}

pub open spec fn end_of(s: SessionModel) -> Option<Timestamp> {
    or_time(s.ended, s.last_seen)
}

fn time_or(a: Option<Timestamp>, b: Option<Timestamp>) -> (r: Option<Timestamp>)
    ensures
        r == or_time(a, b),
{
    match a {
        Some(t) => Some(t),
        None => b,
    }
}

/// The band in capitals, unless it is blank.
pub open spec fn adif_band(value: Seq<char>) -> Option<Seq<char>> {
    if text::trimmed(value).len() == 0 {
        None
    } else {
        Some(text::uppercased(text::trimmed(value)))
    }
}

pub fn normalize_adif_band(value: &str) -> (r: Option<String>)
    ensures
        text::text_opt(r) == adif_band(value@),
{
    let trimmed = text::trim(value);
    if text::is_empty_text(trimmed.as_str()) {
        None
    } else {
        Some(text::to_uppercase(trimmed.as_str()))
    }
}

/// Mode and submode, where the mode is one of ours.
pub open spec fn adif_mode(value: Seq<char>) -> Option<(Seq<char>, Option<Seq<char>>)> {
    let name = text::uppercased(text::trimmed(value));
    if name == "FT8"@ {
        Some(("MFSK"@, Some("FT8"@)))
    } else if name == "FT4"@ {
        Some(("MFSK"@, Some("FT4"@)))
    } else {
        None
    }
}

pub open spec fn mode_opt(mode: Option<(&'static str, Option<&'static str>)>) -> Option<
    (Seq<char>, Option<Seq<char>>),
> {
    match mode {
        Some((m, submode)) => Some((m@, text::str_opt(submode))),
        None => None,
    }
}

pub fn normalize_adif_mode(value: &str) -> (r: Option<(&'static str, Option<&'static str>)>)
    ensures
        mode_opt(r) == adif_mode(value@),
{
    let trimmed = text::trim(value);
    let name = text::to_uppercase(trimmed.as_str());
    if text::str_eq(name.as_str(), "FT8") {
        Some(("MFSK", Some("FT8")))
    } else if text::str_eq(name.as_str(), "FT4") {
        Some(("MFSK", Some("FT4")))
    } else {
        None
    }
}

pub open spec fn band_of(s: SessionModel) -> Option<Seq<char>> {
    match s.band {
        Some(band) => adif_band(band),
        None => None,
    }
}

pub open spec fn mode_of(s: SessionModel) -> Option<(Seq<char>, Option<Seq<char>>)> {
    match s.mode {
        Some(mode) => adif_mode(mode),
        None => None,
    }
}

/// A frequency in megahertz, to the hertz.
pub open spec fn megahertz(hz: nat) -> Seq<char> {
    text::decimal(hz / 1_000_000) + "."@ + text::zero_padded(text::decimal(hz % 1_000_000), 6)
}

pub fn format_adif_freq_mhz(frequency_hz: u64) -> (r: String)
    ensures
        r@ == megahertz(frequency_hz as nat),
{
    text::cat3(
        text::decimal_text(frequency_hz / 1_000_000).as_str(),
        ".",
        text::padded_decimal(frequency_hz % 1_000_000, 6).as_str(),
    )
}

/// The calls that are not ours.
pub open spec fn other_calls(calls: Seq<Seq<char>>, ours: Seq<char>) -> Seq<Seq<char>> {
    calls.filter(|c: Seq<char>| c != ours)
}

/// Why a contact cannot be exported, if it cannot: it has to be ours, with a reply and both reports,
/// confirmed and closed, on a known band and in one of our modes.
pub open spec fn refusal(s: SessionModel, station: Seq<char>) -> Option<Seq<char>> {
    let ours = text::uppercased(text::trimmed(station));
    if start_of(s) is None {
        Some("missing QSO start time"@)
    } else if s.station_calls.len() > 0 && !s.station_calls.contains(ours) {
        Some(
            "session logged under different station callsign(s): "@ + text::joined(
                other_calls(s.station_calls, ours),
                ", "@,
            ),
        )
    } else if !s.got_reply {
        Some("no directed reply from peer"@)
    } else if s.received_report is None {
        Some("missing received report"@)
    } else if s.sent_report is None {
        Some("missing sent report"@)
    } else if !s.got_roger {
        Some("no roger/ack from peer"@)
    } else if !s.reached_73 {
        Some("we never sent terminal 73/RR73"@)
    } else if band_of(s) is None {
        Some("missing rig band"@)
    } else if mode_of(s) is None {
        Some("missing or unsupported app mode"@)
    } else {
        None
    }
}

pub open spec fn freq_of(s: SessionModel) -> Option<Seq<char>> {
    match s.frequency {
        Some(hz) => Some(megahertz(hz as nat)),
        None => None,
    }
}

/// The record of a contact that can be exported.
pub open spec fn exported(s: SessionModel, station: Seq<char>, my_grid: Seq<char>) -> AdifModel {
    AdifModel {
        session_id: s.id,
        call: s.partner,
        date: clock::written(start_of(s)->0, clock::TimeStyle::Date),
        time: clock::written(start_of(s)->0, clock::TimeStyle::Digits),
        date_off: clock::written_opt(end_of(s), clock::TimeStyle::Date),
        time_off: clock::written_opt(end_of(s), clock::TimeStyle::Digits),
        band: band_of(s)->0,
        freq: freq_of(s),
        mode: (mode_of(s)->0).0,
        submode: (mode_of(s)->0).1,
        sent: s.sent_report->0,
        received: s.received_report->0,
        station,
        my_grid,
        grid: s.grid,
    }
}

pub open spec fn refused(s: SessionModel, reason: Seq<char>) -> IneligibleModel {
    IneligibleModel {
        session_id: s.id,
        call: s.partner,
        started: start_of(s),
        ended: end_of(s),
        reason,
    }
}

fn other_call_list(calls: &Vec<String>, ours: &str) -> (r: Vec<String>)
    ensures
        text::texts(r@) == other_calls(text::texts(calls@), ours@),
{
    let ghost all = text::texts(calls@);
    let ghost other = |c: Seq<char>| c != ours@;
    let mut r: Vec<String> = Vec::new();
    let mut i: usize = 0;
    proof {
        reveal(Seq::filter);
        assert(text::texts(r@) =~= all.take(0).filter(other));
    }
    while i < calls.len()
        invariant
            i <= calls@.len(),
            all == text::texts(calls@),
            other == (|c: Seq<char>| c != ours@),
            text::texts(r@) == all.take(i as int).filter(other),
        decreases calls@.len() - i,
    {
        let ghost before = text::texts(r@);
        proof {
            assert(all[i as int] == calls@[i as int]@);
            all.take(i as int).lemma_filter_push(all[i as int], other);
            assert(all.take(i + 1) =~= all.take(i as int).push(all[i as int]));
        }
        if !text::str_eq(calls[i].as_str(), ours) {
            r.push(calls[i].clone());
            assert(text::texts(r@) =~= before.push(calls@[i as int]@));
        }
        i += 1;
    }
    assert(all.take(i as int) =~= all);
    r
}

fn has_call(calls: &Vec<String>, call: &str) -> (r: bool)
    ensures
        r == text::texts(calls@).contains(call@),
{
    let ghost all = text::texts(calls@);
    let mut i: usize = 0;
    while i < calls.len()
        invariant
            i <= calls@.len(),
            all == text::texts(calls@),
            forall|k: int| 0 <= k < i ==> #[trigger] all[k] != call@,
        decreases calls@.len() - i,
    {
        assert(all[i as int] == calls@[i as int]@);
        if text::str_eq(calls[i].as_str(), call) {
            return true;
        }
        i += 1;
    }
    false
}

fn session_band(s: &SessionSummary) -> (r: Option<String>)
    ensures
        text::text_opt(r) == band_of(s@),
{
    match &s.rig_band {
        Some(band) => normalize_adif_band(band.as_str()),
        None => None,
    }
}

fn session_mode(s: &SessionSummary) -> (r: Option<(&'static str, Option<&'static str>)>)
    ensures
        mode_opt(r) == mode_of(s@),
{
    match &s.app_mode {
        Some(mode) => normalize_adif_mode(mode.as_str()),
        None => None,
    }
}

fn refusal_reason(s: &SessionSummary, station_callsign: &str) -> (r: Option<String>)
    ensures
        text::text_opt(r) == refusal(s@, station_callsign@),
{
    let trimmed = text::trim(station_callsign);
    let ours = text::to_uppercase(trimmed.as_str());
    if time_or(s.started_at, s.last_seen_at).is_none() {
        Some("missing QSO start time".to_owned())
    } else if s.observed_station_calls.len() > 0 && !has_call(
        &s.observed_station_calls,
        ours.as_str(),
    ) {
        let others = other_call_list(&s.observed_station_calls, ours.as_str());
        Some(
            text::cat2(
                "session logged under different station callsign(s): ",
                text::join(&others, ", ").as_str(),
            ),
        )
    } else if !s.got_reply {
        Some("no directed reply from peer".to_owned())
    } else if s.received_report.is_none() {
        Some("missing received report".to_owned())
    } else if s.sent_report.is_none() {
        Some("missing sent report".to_owned())
    } else if !s.got_roger {
        Some("no roger/ack from peer".to_owned())
    } else if !s.reached_73 {
        Some("we never sent terminal 73/RR73".to_owned())
    } else if session_band(s).is_none() {
        Some("missing rig band".to_owned())
    } else if session_mode(s).is_none() {
        Some("missing or unsupported app mode".to_owned())
    } else {
        None
    }
}

fn date_opt(time: Option<Timestamp>) -> (r: Option<String>)
    requires
        clock::displayable_opt(time),
    ensures
        text::text_opt(r) == clock::written_opt(time, clock::TimeStyle::Date),
{
    match time {
        Some(t) => Some(clock::format_adif_date(t)),
        None => None,
    }
}

fn time_opt(time: Option<Timestamp>) -> (r: Option<String>)
    requires
        clock::displayable_opt(time),
    ensures
        text::text_opt(r) == clock::written_opt(time, clock::TimeStyle::Digits),
{
    match time {
        Some(t) => Some(clock::format_adif_time(t)),
        None => None,
    }
}

fn text_or_blank(value: &Option<String>) -> (r: String)
    ensures
        value matches Some(v) ==> r@ == v@,
{
    match value {
        Some(v) => v.clone(),
        None => String::new(),
    }
}

/// The record of a contact, or why it has none.
pub fn adif_record_from_session(
    session: &SessionSummary,
    station_callsign: &str,
    my_gridsquare: &str,
) -> (r: Result<
    AdifRecord,
    IneligibleQso,
>)
    requires
        clock::displayable_opt(start_of(session@)),
        clock::displayable_opt(end_of(session@)),
    ensures
        match (r, refusal(session@, station_callsign@)) {
            (Ok(record), None) => record@ == exported(session@, station_callsign@, my_gridsquare@),
            (Err(ineligible), Some(reason)) => ineligible@ == refused(session@, reason),
            _ => false,
        },
{
    let started_at = time_or(session.started_at, session.last_seen_at);
    let ended_at = time_or(session.ended_at, session.last_seen_at);
    if let Some(reason) = refusal_reason(session, station_callsign) {
        return Err(
            IneligibleQso {
                session_id: session.session_id,
                call: session.partner_call.clone(),
                started_at,
                ended_at,
                reason,
            },
        );
    }
    let start: i128 = match started_at {
        Some(t) => t,
        None => 0,
    };
    let (mode, submode) = match session_mode(session) {
        Some(parts) => parts,
        None => ("", None),
    };
    let band = session_band(session);
    let record = AdifRecord {
        session_id: session.session_id,
        call: session.partner_call.clone(),
        qso_date: clock::format_adif_date(start),
        time_on: clock::format_adif_time(start),
        qso_date_off: date_opt(ended_at),
        time_off: time_opt(ended_at),
        band: text_or_blank(&band),
        freq: match session.rig_frequency_hz {
            Some(hz) => Some(format_adif_freq_mhz(hz)),
            None => None,
        },
        mode: mode.to_owned(),
        submode: match submode {
            Some(name) => Some(name.to_owned()),
            None => None,
        },
        rst_sent: text_or_blank(&session.sent_report),
        rst_rcvd: text_or_blank(&session.received_report),
        station_callsign: station_callsign.to_owned(),
        my_gridsquare: my_gridsquare.to_owned(),
        gridsquare: text::clone_opt(&session.remote_grid),
    };
    assert(record@ =~= exported(session@, station_callsign@, my_gridsquare@));
    Ok(record)
}

/// One field of a record: its name, the length of its value in bytes, and the value.
pub open spec fn adif_field(name: Seq<char>, value: Seq<char>) -> Seq<char> {
    "<"@ + name + ":"@ + text::decimal(lines::byte_len(value)) + ">"@ + value
}

pub open spec fn adif_field_opt(name: Seq<char>, value: Option<Seq<char>>) -> Seq<char> {
    match value {
        Some(v) => adif_field(name, v),
        None => Seq::empty(),
    }
}

pub open spec fn adif_header() -> Seq<char> {
    adif_field("ADIF_VER"@, "3.1.4"@) + adif_field("PROGRAMID"@, "ft8rx"@) + adif_field(
        "PROGRAMVERSION"@,
        PROGRAM_VERSION@,
    ) + "<EOH>\n"@
}

pub open spec fn adif_line(r: AdifModel) -> Seq<char> {
    adif_field("CALL"@, r.call) + adif_field("QSO_DATE"@, r.date) + adif_field("TIME_ON"@, r.time)
        + adif_field_opt("QSO_DATE_OFF"@, r.date_off) + adif_field_opt("TIME_OFF"@, r.time_off)
        + adif_field("BAND"@, r.band) + adif_field_opt("FREQ"@, r.freq) + adif_field(
        "MODE"@,
        r.mode,
    ) + adif_field_opt("SUBMODE"@, r.submode) + adif_field("RST_SENT"@, r.sent) + adif_field(
        "RST_RCVD"@,
        r.received,
    ) + adif_field("STATION_CALLSIGN"@, r.station) + adif_field("MY_GRIDSQUARE"@, r.my_grid)
        + adif_field_opt("GRIDSQUARE"@, r.grid) + "<EOR>\n"@
}

pub open spec fn adif_models(records: Seq<AdifRecord>) -> Seq<AdifModel> {
    records.map_values(|r: AdifRecord| r@)
}

pub open spec fn adif_lines(records: Seq<AdifModel>) -> Seq<char>
    decreases records.len(),
{
    if records.len() == 0 {
        Seq::empty()
    } else {
        adif_lines(records.drop_last()) + adif_line(records.last())
    }
}

pub fn append_adif_field(output: &mut String, name: &str, value: &str)
    ensures
        final(output)@ == old(output)@ + adif_field(name@, value@),
{
    let ghost before = output@;
    output.append("<");
    output.append(name);
    output.append(":");
    output.append(text::long_decimal_text(lines::byte_length(value)).as_str());
    output.append(">");
    output.append(value);
    assert(output@ =~= before + adif_field(name@, value@));
}

fn append_adif_field_opt(output: &mut String, name: &str, value: &Option<String>)
    ensures
        final(output)@ == old(output)@ + adif_field_opt(name@, text::text_opt(*value)),
{
    match value {
        Some(v) => append_adif_field(output, name, v.as_str()),
        None => {
            assert(output@ =~= output@ + Seq::<char>::empty());
        },
    }
}

fn append_record(output: &mut String, record: &AdifRecord)
    ensures
        final(output)@ == old(output)@ + adif_line(record@),
{
    let ghost before = output@;
    append_adif_field(output, "CALL", record.call.as_str());
    append_adif_field(output, "QSO_DATE", record.qso_date.as_str());
    append_adif_field(output, "TIME_ON", record.time_on.as_str());
    append_adif_field_opt(output, "QSO_DATE_OFF", &record.qso_date_off);
    append_adif_field_opt(output, "TIME_OFF", &record.time_off);
    append_adif_field(output, "BAND", record.band.as_str());
    append_adif_field_opt(output, "FREQ", &record.freq);
    append_adif_field(output, "MODE", record.mode.as_str());
    append_adif_field_opt(output, "SUBMODE", &record.submode);
    append_adif_field(output, "RST_SENT", record.rst_sent.as_str());
    append_adif_field(output, "RST_RCVD", record.rst_rcvd.as_str());
    append_adif_field(output, "STATION_CALLSIGN", record.station_callsign.as_str());
    append_adif_field(output, "MY_GRIDSQUARE", record.my_gridsquare.as_str());
    append_adif_field_opt(output, "GRIDSQUARE", &record.gridsquare);
    output.append("<EOR>\n");
    assert(output@ =~= before + adif_line(record@));
}

proof fn lemma_regroup(a: Seq<char>, b: Seq<char>, c: Seq<char>)
    ensures
        a + b + c == a + (b + c),
{
    assert(a + b + c =~= a + (b + c));
}

/// The records as an ADIF file.
pub fn render_adif(records: &[AdifRecord]) -> (r: String)
    ensures
        r@ == adif_header() + adif_lines(adif_models(records@)),
{
    let ghost all = adif_models(records@);
    let mut output = String::new();
    append_adif_field(&mut output, "ADIF_VER", "3.1.4");
    append_adif_field(&mut output, "PROGRAMID", "ft8rx");
    append_adif_field(&mut output, "PROGRAMVERSION", PROGRAM_VERSION);
    output.append("<EOH>\n");
    let ghost head = output@;
    assert(head =~= adif_header());
    let mut i: usize = 0;
    assert(output@ =~= head + adif_lines(all.take(0)));
    while i < records.len()
        invariant
            i <= records@.len(),
            all == adif_models(records@),
            output@ == head + adif_lines(all.take(i as int)),
        decreases records@.len() - i,
    {
        assert(all.take(i + 1).drop_last() =~= all.take(i as int));
        assert(all.take(i + 1).last() == records@[i as int]@);
        append_record(&mut output, &records[i]);
        let ghost line = adif_line(records@[i as int]@);
        proof {
            lemma_regroup(head, adif_lines(all.take(i as int)), line);
        }
        i += 1;
    }
    assert(all.take(i as int) =~= all);
    output
}

impl Clone for AdifRecord {
    fn clone(&self) -> (r: AdifRecord)
        ensures
            r == *self,
    {
        AdifRecord {
            session_id: self.session_id,
            call: self.call.clone(),
            qso_date: self.qso_date.clone(),
            time_on: self.time_on.clone(),
            qso_date_off: text::clone_opt(&self.qso_date_off),
            time_off: text::clone_opt(&self.time_off),
            band: self.band.clone(),
            freq: text::clone_opt(&self.freq),
            mode: self.mode.clone(),
            submode: text::clone_opt(&self.submode),
            rst_sent: self.rst_sent.clone(),
            rst_rcvd: self.rst_rcvd.clone(),
            station_callsign: self.station_callsign.clone(),
            my_gridsquare: self.my_gridsquare.clone(),
            gridsquare: text::clone_opt(&self.gridsquare),
        }
    }
}

impl Clone for IneligibleQso {
    fn clone(&self) -> (r: IneligibleQso)
        ensures
            r == *self,
    {
        IneligibleQso {
            session_id: self.session_id,
            call: self.call.clone(),
            started_at: self.started_at,
            ended_at: self.ended_at,
            reason: self.reason.clone(),
        }
    }
}

/// The contacts of a log, sorted out for export.
#[derive(Debug)]
pub struct AdifExportReport {
    pub eligible_records: Vec<AdifRecord>,
    pub ineligible_sessions: Vec<IneligibleQso>,
}

pub open spec fn ineligible_models(sessions: Seq<IneligibleQso>) -> Seq<IneligibleModel> {
    sessions.map_values(|s: IneligibleQso| s@)
}

/// The places of the contacts that can be exported.
pub open spec fn eligible_places(all: Seq<SessionModel>, station: Seq<char>) -> Set<int> {
    Set::new(|i: int| 0 <= i < all.len() && refusal(all[i], station) is None)
}

/// The places of the contacts that cannot be exported.
pub open spec fn ineligible_places(all: Seq<SessionModel>, station: Seq<char>) -> Set<int> {
    Set::new(|i: int| 0 <= i < all.len() && refusal(all[i], station) is Some)
}

/// What the records are sorted by: date, time and call.
pub open spec fn export_key(
    s: SessionModel,
    station: Seq<char>,
) -> (Seq<char>, Seq<char>, Seq<char>) {
    if refusal(s, station) is None {
        (
            clock::written(start_of(s)->0, clock::TimeStyle::Date),
            clock::written(start_of(s)->0, clock::TimeStyle::Digits),
            s.partner,
        )
    } else {
        (Seq::empty(), Seq::empty(), Seq::empty())
    }
}

/// Of two contacts that are otherwise alike, the one of the lesser session comes first, then the one
/// that began first.
pub open spec fn began_before(all: Seq<SessionModel>, i: int, j: int) -> bool {
    all[i].id < all[j].id || (all[i].id == all[j].id && i < j)
}

pub open spec fn exported_before(
    all: Seq<SessionModel>,
    station: Seq<char>,
    i: int,
    j: int,
) -> bool {
    let (date_i, time_i, call_i) = export_key(all[i], station);
    let (date_j, time_j, call_j) = export_key(all[j], station);
    text::text_lt(date_i, date_j) || (date_i == date_j && (text::text_lt(time_i, time_j) || (time_i
        == time_j && (text::text_lt(call_i, call_j) || (call_i == call_j && began_before(
        all,
        i,
        j,
    ))))))
}

/// What the contacts that cannot be exported are sorted by: their start and their call.
pub open spec fn refused_key(s: SessionModel, station: Seq<char>) -> (int, Seq<char>) {
    if refusal(s, station) is Some {
        (
            match start_of(s) {
                Some(t) => t as int,
                None => 0,
            },
            s.partner,
        )
    } else {
        (0, Seq::empty())
    }
}

pub open spec fn refused_before(
    all: Seq<SessionModel>,
    station: Seq<char>,
    i: int,
    j: int,
) -> bool {
    let (time_i, call_i) = refused_key(all[i], station);
    let (time_j, call_j) = refused_key(all[j], station);
    time_i < time_j || (time_i == time_j && (text::text_lt(call_i, call_j) || (call_i == call_j
        && began_before(all, i, j))))
}

pub open spec fn export_order(all: Seq<SessionModel>, station: Seq<char>) -> Seq<int> {
    rank::ranking(
        eligible_places(all, station),
        |i: int, j: int| exported_before(all, station, i, j),
    )
}

pub open spec fn refused_order(all: Seq<SessionModel>, station: Seq<char>) -> Seq<int> {
    rank::ranking(
        ineligible_places(all, station),
        |i: int, j: int| refused_before(all, station, i, j),
    )
}

/// The records of the contacts that can be exported.
pub open spec fn eligible_records(
    all: Seq<SessionModel>,
    station: Seq<char>,
    my_grid: Seq<char>,
) -> Seq<AdifModel> {
    export_order(all, station).map_values(|i: int| exported(all[i], station, my_grid))
}

/// The contacts that cannot be exported.
pub open spec fn ineligible_sessions(
    all: Seq<SessionModel>,
    station: Seq<char>,
) -> Seq<IneligibleModel> {
    refused_order(all, station).map_values(|i: int| refused(all[i], refusal(all[i], station)->0))
}

/// Records of calling CQ are of no contact.
pub open spec fn is_contact(r: RecordModel) -> bool {
    !text::same_ignoring_case(r.partner, "CQ"@)
}

/// The contacts of a log.
pub open spec fn contacts_of(records: Seq<RecordModel>) -> Seq<SessionModel> {
    sessions::book_of(records.filter(|r: RecordModel| is_contact(r))).sessions
}

/// The report tells of the contacts of a log.
pub open spec fn reports(
    report: AdifExportReport,
    records: Seq<RecordModel>,
    station: Seq<char>,
    my_grid: Seq<char>,
) -> bool {
    &&& adif_models(report.eligible_records@) == eligible_records(
        contacts_of(records),
        station,
        my_grid,
    )
    &&& ineligible_models(report.ineligible_sessions@) == ineligible_sessions(
        contacts_of(records),
        station,
    )
}

pub proof fn lemma_export_order_strict(all: Seq<SessionModel>, station: Seq<char>)
    ensures
        rank::is_strict_order(
            Set::new(|i: int| 0 <= i < all.len()),
            |i: int, j: int| exported_before(all, station, i, j),
        ),
{
    let precedes = |i: int, j: int| exported_before(all, station, i, j);
    assert forall|i: int| !#[trigger] precedes(i, i) by {
        let (date, time, call) = export_key(all[i], station);
        text::lemma_text_lt_irreflexive(date);
        text::lemma_text_lt_irreflexive(time);
        text::lemma_text_lt_irreflexive(call);
    }
    assert forall|i: int, j: int, k: int| #[trigger] precedes(i, j) && #[trigger] precedes(j, k) implies precedes(
        i,
        k,
    ) by {
        let (date_i, time_i, call_i) = export_key(all[i], station);
        let (date_j, time_j, call_j) = export_key(all[j], station);
        let (date_k, time_k, call_k) = export_key(all[k], station);
        if text::text_lt(date_i, date_j) && text::text_lt(date_j, date_k) {
            text::lemma_text_lt_transitive(date_i, date_j, date_k);
        }
        if text::text_lt(time_i, time_j) && text::text_lt(time_j, time_k) {
            text::lemma_text_lt_transitive(time_i, time_j, time_k);
        }
        if text::text_lt(call_i, call_j) && text::text_lt(call_j, call_k) {
            text::lemma_text_lt_transitive(call_i, call_j, call_k);
        }
    }
    assert forall|i: int, j: int| i != j implies #[trigger] precedes(i, j) || precedes(j, i) by {
        let (date_i, time_i, call_i) = export_key(all[i], station);
        let (date_j, time_j, call_j) = export_key(all[j], station);
        text::lemma_text_lt_total(date_i, date_j);
        text::lemma_text_lt_total(time_i, time_j);
        text::lemma_text_lt_total(call_i, call_j);
    }
}

pub proof fn lemma_refused_order_strict(all: Seq<SessionModel>, station: Seq<char>)
    ensures
        rank::is_strict_order(
            Set::new(|i: int| 0 <= i < all.len()),
            |i: int, j: int| refused_before(all, station, i, j),
        ),
{
    let precedes = |i: int, j: int| refused_before(all, station, i, j);
    assert forall|i: int| !#[trigger] precedes(i, i) by {
        text::lemma_text_lt_irreflexive(refused_key(all[i], station).1);
    }
    assert forall|i: int, j: int, k: int| #[trigger] precedes(i, j) && #[trigger] precedes(j, k) implies precedes(
        i,
        k,
    ) by {
        let call_i = refused_key(all[i], station).1;
        let call_j = refused_key(all[j], station).1;
        let call_k = refused_key(all[k], station).1;
        if text::text_lt(call_i, call_j) && text::text_lt(call_j, call_k) {
            text::lemma_text_lt_transitive(call_i, call_j, call_k);
        }
    }
    assert forall|i: int, j: int| i != j implies #[trigger] precedes(i, j) || precedes(j, i) by {
        text::lemma_text_lt_total(refused_key(all[i], station).1, refused_key(all[j], station).1);
    }
}

/// Each contact as a record or with the reason why it is none.
type Sorted = Vec<Result<AdifRecord, IneligibleQso>>;

spec fn sorted_out(
    outcomes: Seq<Result<AdifRecord, IneligibleQso>>,
    all: Seq<SessionModel>,
    station: Seq<char>,
    my_grid: Seq<char>,
) -> bool {
    outcomes.len() == all.len() && forall|i: int|
        0 <= i < all.len() ==> match (#[trigger] outcomes[i], refusal(all[i], station)) {
            (Ok(record), None) => record@ == exported(all[i], station, my_grid),
            (Err(ineligible), Some(reason)) => ineligible@ == refused(all[i], reason),
            _ => false,
        }
}

struct ExportOrder<'a> {
    sessions: &'a Vec<SessionSummary>,
    outcomes: &'a Sorted,
    station: &'a str,
    my_grid: &'a str,
}

impl<'a> ExportOrder<'a> {
    spec fn all(&self) -> Seq<SessionModel> {
        sessions::session_models(self.sessions@)
    }
}

fn began_earlier(sessions: &Vec<SessionSummary>, i: usize, j: usize) -> (r: bool)
    requires
        i < sessions@.len(),
        j < sessions@.len(),
    ensures
        r == began_before(sessions::session_models(sessions@), i as int, j as int),
{
    let a: u64 = sessions[i].session_id;
    let b: u64 = sessions[j].session_id;
    a < b || (a == b && i < j)
}

impl<'a> IndexOrder for ExportOrder<'a> {
    closed spec fn count(&self) -> nat {
        self.sessions@.len()
    }

    closed spec fn valid(&self) -> bool {
        sorted_out(self.outcomes@, self.all(), self.station@, self.my_grid@)
    }

    closed spec fn precedes(&self, i: int, j: int) -> bool {
        exported_before(self.all(), self.station@, i, j)
    }

    proof fn lemma_strict(&self) {
        lemma_export_order_strict(self.all(), self.station@);
        assert((|i: int, j: int| self.precedes(i, j)) =~= (|i: int, j: int|
            exported_before(self.all(), self.station@, i, j)));
    }

    fn before(&self, i: usize, j: usize) -> (r: bool) {
        let earlier = began_earlier(self.sessions, i, j);
        let none = "";
        proof {
            reveal_strlit("");
            assert(""@ =~= Seq::<char>::empty());
        }
        let (date_i, time_i, call_i) = match &self.outcomes[i] {
            Ok(a) => (a.qso_date.as_str(), a.time_on.as_str(), a.call.as_str()),
            Err(_) => (none, none, none),
        };
        let (date_j, time_j, call_j) = match &self.outcomes[j] {
            Ok(b) => (b.qso_date.as_str(), b.time_on.as_str(), b.call.as_str()),
            Err(_) => (none, none, none),
        };
        assert((date_i@, time_i@, call_i@) == export_key(self.all()[i as int], self.station@));
        assert((date_j@, time_j@, call_j@) == export_key(self.all()[j as int], self.station@));
        text::text_less(date_i, date_j) || (text::str_eq(date_i, date_j) && (text::text_less(
            time_i,
            time_j,
        ) || (text::str_eq(time_i, time_j) && (text::text_less(call_i, call_j) || (text::str_eq(
            call_i,
            call_j,
        ) && earlier)))))
    }
}

struct RefusedOrder<'a> {
    sessions: &'a Vec<SessionSummary>,
    outcomes: &'a Sorted,
    station: &'a str,
    my_grid: &'a str,
}

impl<'a> RefusedOrder<'a> {
    spec fn all(&self) -> Seq<SessionModel> {
        sessions::session_models(self.sessions@)
    }
}

impl<'a> IndexOrder for RefusedOrder<'a> {
    closed spec fn count(&self) -> nat {
        self.sessions@.len()
    }

    closed spec fn valid(&self) -> bool {
        sorted_out(self.outcomes@, self.all(), self.station@, self.my_grid@)
    }

    closed spec fn precedes(&self, i: int, j: int) -> bool {
        refused_before(self.all(), self.station@, i, j)
    }

    proof fn lemma_strict(&self) {
        lemma_refused_order_strict(self.all(), self.station@);
        assert((|i: int, j: int| self.precedes(i, j)) =~= (|i: int, j: int|
            refused_before(self.all(), self.station@, i, j)));
    }

    fn before(&self, i: usize, j: usize) -> (r: bool) {
        let earlier = began_earlier(self.sessions, i, j);
        let none = "";
        proof {
            reveal_strlit("");
            assert(""@ =~= Seq::<char>::empty());
        }
        let (time_i, call_i): (i128, &str) = match &self.outcomes[i] {
            Ok(_) => (0, none),
            Err(a) => (
                match a.started_at {
                    Some(t) => t,
                    None => 0,
                },
                a.call.as_str(),
            ),
        };
        let (time_j, call_j): (i128, &str) = match &self.outcomes[j] {
            Ok(_) => (0, none),
            Err(b) => (
                match b.started_at {
                    Some(t) => t,
                    None => 0,
                },
                b.call.as_str(),
            ),
        };
        assert((time_i as int, call_i@) == refused_key(self.all()[i as int], self.station@));
        assert((time_j as int, call_j@) == refused_key(self.all()[j as int], self.station@));
        time_i < time_j || (time_i == time_j && (text::text_less(call_i, call_j) || (text::str_eq(
            call_i,
            call_j,
        ) && earlier)))
    }
}

fn sort_out(all: &Vec<SessionSummary>, station_callsign: &str, my_gridsquare: &str) -> (r: Sorted)
    requires
        forall|i: int|
            0 <= i < all@.len() ==> sessions::session_displayable((#[trigger] all@[i])@),
    ensures
        sorted_out(r@, sessions::session_models(all@), station_callsign@, my_gridsquare@),
{
    let ghost models = sessions::session_models(all@);
    let mut r: Sorted = Vec::new();
    let mut i: usize = 0;
    while i < all.len()
        invariant
            i <= all@.len(),
            models == sessions::session_models(all@),
            forall|i: int|
                0 <= i < all@.len() ==> sessions::session_displayable((#[trigger] all@[i])@),
            r@.len() == i,
            forall|k: int|
                0 <= k < i ==> match (#[trigger] r@[k], refusal(models[k], station_callsign@)) {
                    (Ok(record), None) => record@ == exported(
                        models[k],
                        station_callsign@,
                        my_gridsquare@,
                    ),
                    (Err(ineligible), Some(reason)) => ineligible@ == refused(models[k], reason),
                    _ => false,
                },
        decreases all@.len() - i,
    {
        assert(models[i as int] == all@[i as int]@);
        assert(sessions::session_displayable(all@[i as int]@));
        r.push(adif_record_from_session(&all[i], station_callsign, my_gridsquare));
        i += 1;
    }
    r
}

/// The places of the records, or of those that are none.
fn places_of(outcomes: &Sorted, eligible: bool) -> (r: Vec<usize>)
    ensures
        r@.no_duplicates(),
        forall|k: int| 0 <= k < r@.len() ==> (#[trigger] r@[k]) < outcomes@.len(),
        forall|k: int|
            rank::as_ints(r@).contains(k) <==> 0 <= k < outcomes@.len() && (
            #[trigger] outcomes@[k] is Ok) == eligible,
{
    let mut r: Vec<usize> = Vec::new();
    let mut i: usize = 0;
    while i < outcomes.len()
        invariant
            i <= outcomes@.len(),
            r@.no_duplicates(),
            forall|k: int| 0 <= k < r@.len() ==> (#[trigger] r@[k]) < i,
            forall|k: int|
                0 <= k < i ==> (rank::as_ints(r@).contains(k) <==> (#[trigger] outcomes@[k] is Ok)
                    == eligible),
        decreases outcomes@.len() - i,
    {
        let ghost before = r@;
        let ok = match &outcomes[i] {
            Ok(_) => true,
            Err(_) => false,
        };
        if ok == eligible {
            r.push(i);
        }
        proof {
            rank::lemma_places_step(before, r@, i, ok == eligible);
            assert forall|k: int| 0 <= k < i + 1 implies (rank::as_ints(r@).contains(k) <==> (
            #[trigger] outcomes@[k] is Ok) == eligible) by {
                if k < i {
                    assert(rank::as_ints(r@).contains(k) <==> rank::as_ints(before).contains(k));
                }
            }
        }
        i += 1;
    }
    assert forall|k: int|
        rank::as_ints(r@).contains(k) <==> 0 <= k < outcomes@.len() && (#[trigger] outcomes@[k] is Ok)
            == eligible by {
        if rank::as_ints(r@).contains(k) {
            let at = rank::as_ints(r@).index_of(k);
            assert(r@[at] == k);
        }
    }
    r
}

fn pick_records(
    outcomes: &Sorted,
    order: &Vec<usize>,
    Ghost(picked): Ghost<Seq<AdifModel>>,
) -> (r: Vec<AdifRecord>)
    requires
        picked.len() == order@.len(),
        forall|k: int|
            0 <= k < order@.len() ==> (#[trigger] order@[k]) < outcomes@.len() && (
            outcomes@[order@[k] as int] matches Ok(record) && record@ == picked[k]),
    ensures
        adif_models(r@) == picked,
{
    let mut r: Vec<AdifRecord> = Vec::new();
    let mut n: usize = 0;
    while n < order.len()
        invariant
            n <= order@.len(),
            picked.len() == order@.len(),
            forall|k: int|
                0 <= k < order@.len() ==> (#[trigger] order@[k]) < outcomes@.len() && (
                outcomes@[order@[k] as int] matches Ok(record) && record@ == picked[k]),
            adif_models(r@) == picked.take(n as int),
        decreases order@.len() - n,
    {
        let ghost before = adif_models(r@);
        let k: usize = order[n];
        if let Ok(record) = &outcomes[k] {
            r.push(record.clone());
            assert(adif_models(r@) =~= before.push(picked[n as int]));
        }
        assert(picked.take(n + 1) =~= picked.take(n as int).push(picked[n as int]));
        n += 1;
    }
    assert(picked.take(n as int) =~= picked);
    r
}

fn pick_refused(
    outcomes: &Sorted,
    order: &Vec<usize>,
    Ghost(picked): Ghost<Seq<IneligibleModel>>,
) -> (r: Vec<IneligibleQso>)
    requires
        picked.len() == order@.len(),
        forall|k: int|
            0 <= k < order@.len() ==> (#[trigger] order@[k]) < outcomes@.len() && (
            outcomes@[order@[k] as int] matches Err(session) && session@ == picked[k]),
    ensures
        ineligible_models(r@) == picked,
{
    let mut r: Vec<IneligibleQso> = Vec::new();
    let mut n: usize = 0;
    while n < order.len()
        invariant
            n <= order@.len(),
            picked.len() == order@.len(),
            forall|k: int|
                0 <= k < order@.len() ==> (#[trigger] order@[k]) < outcomes@.len() && (
                outcomes@[order@[k] as int] matches Err(session) && session@ == picked[k]),
            ineligible_models(r@) == picked.take(n as int),
        decreases order@.len() - n,
    {
        let ghost before = ineligible_models(r@);
        let k: usize = order[n];
        if let Err(session) = &outcomes[k] {
            r.push(session.clone());
            assert(ineligible_models(r@) =~= before.push(picked[n as int]));
        }
        assert(picked.take(n + 1) =~= picked.take(n as int).push(picked[n as int]));
        n += 1;
    }
    assert(picked.take(n as int) =~= picked);
    r
}

/// Sorts contacts out for export.
pub fn report_on_sessions(
    all: &Vec<SessionSummary>,
    station_callsign: &str,
    my_gridsquare: &str,
) -> (r: AdifExportReport)
    requires
        forall|i: int|
            0 <= i < all@.len() ==> sessions::session_displayable((#[trigger] all@[i])@),
    ensures
        adif_models(r.eligible_records@) == eligible_records(
            sessions::session_models(all@),
            station_callsign@,
            my_gridsquare@,
        ),
        ineligible_models(r.ineligible_sessions@) == ineligible_sessions(
            sessions::session_models(all@),
            station_callsign@,
        ),
{
    let ghost models = sessions::session_models(all@);
    let ghost station = station_callsign@;
    let ghost grid = my_gridsquare@;
    let outcomes = sort_out(all, station_callsign, my_gridsquare);
    let eligible = places_of(&outcomes, true);
    let refused_ones = places_of(&outcomes, false);
    assert forall|i: int| 0 <= i < models.len() implies (#[trigger] outcomes@[i] is Ok) == (refusal(
        models[i],
        station,
    ) is None) by {}
    assert(rank::as_ints(eligible@).to_set() =~= eligible_places(models, station)) by {
        assert forall|k: int| #[trigger] rank::as_ints(eligible@).to_set().contains(k)
            <==> eligible_places(models, station).contains(k) by {
            if 0 <= k < models.len() {
                assert((outcomes@[k] is Ok) == (refusal(models[k], station) is None));
            }
        }
    }
    assert(rank::as_ints(refused_ones@).to_set() =~= ineligible_places(models, station)) by {
        assert forall|k: int| #[trigger] rank::as_ints(refused_ones@).to_set().contains(k)
            <==> ineligible_places(models, station).contains(k) by {
            if 0 <= k < models.len() {
                assert((outcomes@[k] is Ok) == (refusal(models[k], station) is None));
            }
        }
    }
    let export_by = ExportOrder {
        sessions: all,
        outcomes: &outcomes,
        station: station_callsign,
        my_grid: my_gridsquare,
    };
    let order = rank::rank(&export_by, &eligible);
    let refused_by = RefusedOrder {
        sessions: all,
        outcomes: &outcomes,
        station: station_callsign,
        my_grid: my_gridsquare,
    };
    let rest = rank::rank(&refused_by, &refused_ones);
    let ghost records = eligible_records(models, station, grid);
    let ghost others = ineligible_sessions(models, station);
    proof {
        assert((|i: int, j: int| export_by.precedes(i, j)) =~= (|i: int, j: int|
            exported_before(models, station, i, j)));
        assert(rank::as_ints(order@) == export_order(models, station));
        assert forall|k: int| 0 <= k < order@.len() implies (#[trigger] order@[k])
            < outcomes@.len() && (outcomes@[order@[k] as int] matches Ok(record) && record@
            == records[k]) by {
            assert(rank::as_ints(order@)[k] == order@[k]);
            assert(rank::as_ints(order@).contains(order@[k] as int));
            assert(eligible_places(models, station).contains(order@[k] as int));
        }
        assert((|i: int, j: int| refused_by.precedes(i, j)) =~= (|i: int, j: int|
            refused_before(models, station, i, j)));
        assert(rank::as_ints(rest@) == refused_order(models, station));
        assert forall|k: int| 0 <= k < rest@.len() implies (#[trigger] rest@[k]) < outcomes@.len()
            && (outcomes@[rest@[k] as int] matches Err(session) && session@ == others[k]) by {
            assert(rank::as_ints(rest@)[k] == rest@[k]);
            assert(rank::as_ints(rest@).contains(rest@[k] as int));
            assert(ineligible_places(models, station).contains(rest@[k] as int));
        }
    }
    AdifExportReport {
        eligible_records: pick_records(&outcomes, &order, Ghost(records)),
        ineligible_sessions: pick_refused(&outcomes, &rest, Ghost(others)),
    }
}

/// The records that are of contacts.
fn contact_book(records: &Vec<LogRecord>) -> (r: sessions::SessionBook)
    ensures
        r.wf(),
        r@.sessions == contacts_of(log_record::record_models(records@)),
{
    let ghost all = log_record::record_models(records@);
    let ghost pred = |r: RecordModel| is_contact(r);
    let mut book = sessions::SessionBook::new();
    let mut i: usize = 0;
    proof {
        reveal(Seq::filter);
        assert(all.take(0).filter(pred) =~= Seq::<RecordModel>::empty());
    }
    while i < records.len()
        invariant
            i <= records@.len(),
            all == log_record::record_models(records@),
            pred == (|r: RecordModel| is_contact(r)),
            book.wf(),
            book@ == sessions::book_of(all.take(i as int).filter(pred)),
        decreases records@.len() - i,
    {
        let ghost found = all.take(i as int).filter(pred);
        proof {
            assert(all[i as int] == records@[i as int]@);
            all.take(i as int).lemma_filter_push(all[i as int], pred);
            assert(all.take(i + 1) =~= all.take(i as int).push(all[i as int]));
        }
        if !text::eq_ignore_ascii_case(records[i].partner_call.as_str(), "CQ") {
            book.take(&records[i]);
            assert(found.push(all[i as int]).drop_last() =~= found);
            assert(found.push(all[i as int]).last() == all[i as int]);
        }
        i += 1;
    }
    assert(all.take(i as int) =~= all);
    book
}

/// Sorts the contacts of a log out for export.
pub fn report_on_records(
    records: &Vec<LogRecord>,
    station_callsign: &str,
    my_gridsquare: &str,
) -> (r: AdifExportReport)
    requires
        log_record::records_displayable(log_record::record_models(records@)),
    ensures
        reports(r, log_record::record_models(records@), station_callsign@, my_gridsquare@),
{
    let ghost all = log_record::record_models(records@);
    let ghost pred = |r: RecordModel| is_contact(r);
    let book = contact_book(records);
    proof {
        let contacts = all.filter(pred);
        assert forall|i: int| 0 <= i < contacts.len() implies clock::displayable(
            (#[trigger] contacts[i]).at,
        ) by {
            assert(contacts.contains(contacts[i]));
            all.lemma_filter_contains_rev(pred, contacts[i]);
            let k = all.index_of(contacts[i]);
            assert(all[k] == contacts[i]);
        }
        sessions::lemma_sessions_displayable(contacts);
        assert forall|i: int| 0 <= i < book.sessions@.len() implies sessions::session_displayable(
            (#[trigger] book.sessions@[i])@,
        ) by {
            assert(book@.sessions[i] == book.sessions@[i]@);
        }
    }
    report_on_sessions(&book.sessions, station_callsign, my_gridsquare)
}

/// Sorts the contacts of a log out for export.
pub fn build_adif_export_report(
    contents: &str,
    station_callsign: &str,
    my_gridsquare: &str,
) -> (r: AdifExportReport)
    ensures
        reports(r, log_record::records_of(contents@), station_callsign@, my_gridsquare@),
{
    let records = log_record::read_records(contents);
    report_on_records(&records, station_callsign, my_gridsquare)
}

/// The records of a log's contacts that can be exported.
pub fn collect_adif_records(
    contents: &str,
    station_callsign: &str,
    my_gridsquare: &str,
) -> (r: Vec<AdifRecord>)
    ensures
        adif_models(r@) == eligible_records(
            contacts_of(log_record::records_of(contents@)),
            station_callsign@,
            my_gridsquare@,
        ),
{
    build_adif_export_report(contents, station_callsign, my_gridsquare).eligible_records
}


proof fn lemma_places(all: Seq<SessionModel>, station: Seq<char>)
    ensures
        eligible_places(all, station).finite(),
        ineligible_places(all, station).finite(),
        eligible_places(all, station).len() + ineligible_places(all, station).len() == all.len(),
{
    let range = vstd::set_lib::set_int_range(0, all.len() as int);
    let yes = eligible_places(all, station);
    let no = ineligible_places(all, station);
    vstd::set_lib::lemma_int_range(0, all.len() as int);
    assert(yes.subset_of(range));
    assert(no.subset_of(range));
    vstd::set_lib::lemma_len_subset(yes, range);
    vstd::set_lib::lemma_len_subset(no, range);
    assert(yes.disjoint(no));
    vstd::set_lib::lemma_set_disjoint_lens(yes, no);
    assert(yes + no =~= range);
}

proof fn lemma_ranking_len(order: Seq<int>, members: Set<int>, precedes: spec_fn(int, int) -> bool)
    requires
        rank::is_ranking(order, members, precedes),
        forall|i: int| !#[trigger] precedes(i, i),
    ensures
        order.len() == members.len(),
{
    assert forall|a: int, b: int| 0 <= a < b < order.len() implies order[a] != order[b] by {
        assert(precedes(order[a], order[b]));
        assert(!precedes(order[a], order[a]));
    }
    assert(order.to_set() =~= members) by {
        assert forall|i: int| #[trigger] order.to_set().contains(i) <==> members.contains(i) by {}
    }
    order.unique_seq_to_set();
}

/// Every contact is either exported or listed with the reason why it is not, once.
pub proof fn law_each_contact_is_accounted_for(
    all: Seq<SessionModel>,
    station: Seq<char>,
    my_grid: Seq<char>,
)
    ensures
        rank::is_ranking(
            export_order(all, station),
            eligible_places(all, station),
            |i: int, j: int| exported_before(all, station, i, j),
        ),
        rank::is_ranking(
            refused_order(all, station),
            ineligible_places(all, station),
            |i: int, j: int| refused_before(all, station, i, j),
        ),
        eligible_records(all, station, my_grid).len() + ineligible_sessions(all, station).len()
            == all.len(),
{
    let export = |i: int, j: int| exported_before(all, station, i, j);
    let refuse = |i: int, j: int| refused_before(all, station, i, j);
    let places = Set::new(|i: int| 0 <= i < all.len());
    lemma_places(all, station);
    lemma_export_order_strict(all, station);
    lemma_refused_order_strict(all, station);
    assert(eligible_places(all, station).subset_of(places));
    assert(ineligible_places(all, station).subset_of(places));
    rank::lemma_ranking_exists(eligible_places(all, station), export);
    rank::lemma_ranking_exists(ineligible_places(all, station), refuse);
    assert forall|i: int| !#[trigger] export(i, i) by {
        let (date, time, call) = export_key(all[i], station);
        text::lemma_text_lt_irreflexive(date);
        text::lemma_text_lt_irreflexive(time);
        text::lemma_text_lt_irreflexive(call);
    }
    assert forall|i: int| !#[trigger] refuse(i, i) by {
        text::lemma_text_lt_irreflexive(refused_key(all[i], station).1);
    }
    lemma_ranking_len(export_order(all, station), eligible_places(all, station), export);
    lemma_ranking_len(refused_order(all, station), ineligible_places(all, station), refuse);
}

/// Only a contact that counts for an award is exported: it was logged under our call, the other
/// station replied and confirmed, both reports are known, we sent the closing message, and band and
/// mode are known. The mode is MFSK with FT8 or FT4 as its submode.
pub proof fn law_only_complete_contacts_are_exported(
    s: SessionModel,
    station: Seq<char>,
    my_grid: Seq<char>,
)
    ensures
        refusal(s, station) is None <==> {
            &&& start_of(s) is Some
            &&& s.station_calls.len() == 0 || s.station_calls.contains(
                text::uppercased(text::trimmed(station)),
            )
            &&& s.got_reply
            &&& s.received_report is Some
            &&& s.sent_report is Some
            &&& s.got_roger
            &&& s.reached_73
            &&& band_of(s) is Some
            &&& mode_of(s) is Some
        },
        refusal(s, station) is None ==> exported(s, station, my_grid).mode == "MFSK"@ && (exported(
            s,
            station,
            my_grid,
        ).submode == Some("FT8"@) || exported(s, station, my_grid).submode == Some("FT4"@)),
{
}

/// The exported records are sorted by date, then by time, then by call.
pub proof fn law_records_are_sorted(
    all: Seq<SessionModel>,
    station: Seq<char>,
    my_grid: Seq<char>,
    i: int,
    j: int,
)
    requires
        0 <= i < j < eligible_records(all, station, my_grid).len(),
    ensures
        ({
            let a = eligible_records(all, station, my_grid)[i];
            let b = eligible_records(all, station, my_grid)[j];
            text::text_lt(a.date, b.date) || (a.date == b.date && (text::text_lt(a.time, b.time) || (
            a.time == b.time && (text::text_lt(a.call, b.call) || a.call == b.call))))
        }),
{
    law_each_contact_is_accounted_for(all, station, my_grid);
    let order = export_order(all, station);
    assert(order.contains(order[i]) && order.contains(order[j]));
    assert(eligible_places(all, station).contains(order[i]));
    assert(eligible_places(all, station).contains(order[j]));
    let precedes = |i: int, j: int| exported_before(all, station, i, j);
    assert(precedes(order[i], order[j]));
}

proof fn lemma_eligible_is_exported(
    all: Seq<SessionModel>,
    station: Seq<char>,
    my_grid: Seq<char>,
    place: int,
)
    requires
        0 <= place < all.len(),
    ensures
        refusal(all[place], station) is None ==> eligible_records(all, station, my_grid).contains(
            exported(all[place], station, my_grid),
        ),
        refusal(all[place], station) matches Some(reason) ==> ineligible_sessions(
            all,
            station,
        ).contains(refused(all[place], reason)),
{
    law_each_contact_is_accounted_for(all, station, my_grid);
    if refusal(all[place], station) is None {
        let order = export_order(all, station);
        assert(eligible_places(all, station).contains(place));
        assert(order.contains(place));
        let k = order.index_of(place);
        assert(eligible_records(all, station, my_grid)[k] == exported(
            all[place],
            station,
            my_grid,
        ));
    } else {
        let order = refused_order(all, station);
        assert(ineligible_places(all, station).contains(place));
        assert(order.contains(place));
        let k = order.index_of(place);
        assert(ineligible_sessions(all, station)[k] == refused(
            all[place],
            refusal(all[place], station)->0,
        ));
    }
}

/// Of the contacts of a log, a contact goes into the export exactly when the partner confirmed (one
/// of its records has `to_us_ack`, `to_us_reply_rrr`, `to_us_reply_rr73` or `to_us_reply_73` as what
/// was received), we came to close it (one has `send_rr73`, `send_73` or `send_73_once` as its state
/// before or after), both reports are known, it was logged under our call, its band is not blank,
/// and its mode is FT8 or FT4. `log` are the records but those of calling CQ, and `i` is a record of
/// the contact.
pub proof fn law_confirmed_and_closed_contact_is_exported(
    records: Seq<RecordModel>,
    log: Seq<RecordModel>,
    station: Seq<char>,
    my_grid: Seq<char>,
    i: int,
)
    requires
        log == records.filter(|r: RecordModel| !text::same_ignoring_case(r.partner, "CQ"@)),
        0 <= i < log.len(),
    ensures
        0 <= sessions::contact_of(log, i) < contacts_of(records).len(),
        ({
            let s = contacts_of(records)[sessions::contact_of(log, i)];
            let confirmed = exists|j: int| #[trigger]
                sessions::one_contact(log, i, j) && (log[j].rx_event == "to_us_ack"@
                    || log[j].rx_event == "to_us_reply_rrr"@ || log[j].rx_event
                    == "to_us_reply_rr73"@ || log[j].rx_event == "to_us_reply_73"@);
            let closed = exists|j: int| #[trigger]
                sessions::one_contact(log, i, j) && (log[j].state_before == "send_rr73"@
                    || log[j].state_before == "send_73"@ || log[j].state_before == "send_73_once"@
                    || log[j].state_after == "send_rr73"@ || log[j].state_after == "send_73"@
                    || log[j].state_after == "send_73_once"@);
            let complete = {
                &&& s.station_calls.len() == 0 || s.station_calls.contains(
                    text::uppercased(text::trimmed(station)),
                )
                &&& s.received_report is Some
                &&& s.sent_report is Some
                &&& s.band matches Some(band) && text::trimmed(band).len() > 0
                &&& s.mode matches Some(mode) && (text::uppercased(text::trimmed(mode)) == "FT8"@
                    || text::uppercased(text::trimmed(mode)) == "FT4"@)
            };
            &&& confirmed && closed && complete ==> eligible_records(
                contacts_of(records),
                station,
                my_grid,
            ).contains(exported(s, station, my_grid))
            &&& confirmed && closed && complete ==> exported(s, station, my_grid).call == s.partner
                && Some(exported(s, station, my_grid).sent) == s.sent_report && Some(
                exported(s, station, my_grid).received,
            ) == s.received_report && exported(s, station, my_grid).mode == "MFSK"@ && exported(
                s,
                station,
                my_grid,
            ).submode == Some(text::uppercased(text::trimmed(s.mode->0)))
            &&& !(confirmed && closed && complete) ==> exists|reason: Seq<char>| #[trigger]
                ineligible_sessions(contacts_of(records), station).contains(refused(s, reason))
        }),
{
    assert((|r: RecordModel| !text::same_ignoring_case(r.partner, "CQ"@)) =~= (|r: RecordModel|
        is_contact(r)));
    let all = contacts_of(records);
    assert(all == sessions::book_of(log).sessions);
    sessions::law_how_far_a_contact_got(log, i);
    sessions::law_roger_is_a_reply(log, i);
    let place = sessions::contact_of(log, i);
    let s = all[place];
    lemma_eligible_is_exported(all, station, my_grid, place);
    law_only_complete_contacts_are_exported(s, station, my_grid);
    lemma_known_band_and_mode(s);
    if refusal(s, station) is Some {
        assert(ineligible_sessions(all, station).contains(refused(s, refusal(s, station)->0)));
    }
}

proof fn lemma_known_band_and_mode(s: SessionModel)
    ensures
        band_of(s) is Some <==> (s.band matches Some(band) && text::trimmed(band).len() > 0),
        mode_of(s) is Some <==> (s.mode matches Some(mode) && (text::uppercased(text::trimmed(mode))
            == "FT8"@ || text::uppercased(text::trimmed(mode)) == "FT4"@)),
        mode_of(s) matches Some((name, submode)) ==> name == "MFSK"@ && submode == Some(
            text::uppercased(text::trimmed(s.mode->0)),
        ),
{
}

/// What is exported of a contact: the partner, the date and time of its start and of its end, or
/// else of the last that was heard of it, the band in capitals, the reports, our station and locator
/// and the partner's locator.
pub proof fn law_what_is_exported(s: SessionModel, station: Seq<char>, my_grid: Seq<char>)
    requires
        refusal(s, station) is None,
    ensures
        ({
            let r = exported(s, station, my_grid);
            let start = if s.started is Some {
                s.started->0
            } else {
                s.last_seen->0
            };
            &&& r.session_id == s.id
            &&& r.call == s.partner
            &&& r.date == clock::written(start, clock::TimeStyle::Date)
            &&& r.time == clock::written(start, clock::TimeStyle::Digits)
            &&& s.ended matches Some(end) ==> r.date_off == Some(
                clock::written(end, clock::TimeStyle::Date),
            ) && r.time_off == Some(clock::written(end, clock::TimeStyle::Digits))
            &&& s.ended is None ==> (s.last_seen matches Some(end) ==> r.date_off == Some(
                clock::written(end, clock::TimeStyle::Date),
            ) && r.time_off == Some(clock::written(end, clock::TimeStyle::Digits)))
            &&& r.band == text::uppercased(text::trimmed(s.band->0))
            &&& s.frequency is None <==> r.freq is None
            &&& Some(r.sent) == s.sent_report
            &&& Some(r.received) == s.received_report
            &&& r.station == station
            &&& r.my_grid == my_grid
            &&& r.grid == s.grid
        }),
{
}

/// A frequency is written in megahertz with six digits behind the point, so that without the point
/// it stands for the frequency in hertz.
pub proof fn law_megahertz_stand_for_the_frequency(hz: nat)
    ensures
        ({
            let whole = text::decimal(hz / 1_000_000);
            let part = text::zero_padded(text::decimal(hz % 1_000_000), 6);
            &&& megahertz(hz) == whole + seq!['.'] + part
            &&& part.len() == 6
            &&& 1_000_000 * text::value_of(whole) + text::value_of(part) == hz
        }),
{
    reveal_strlit(".");
    assert("."@ =~= seq!['.']);
    text::law_decimal_stands_for_its_number(hz / 1_000_000);
    text::law_decimal_stands_for_its_number(hz % 1_000_000);
    text::law_padding_fills_up(text::decimal(hz % 1_000_000), 6);
    text::lemma_value_of_padded(text::decimal(hz % 1_000_000), 6);
    text::lemma_six_digits(hz % 1_000_000);
}

/// A field is its name and the number of bytes of its value in angle brackets, and then the value.
pub proof fn law_field_tells_its_length(name: Seq<char>, value: Seq<char>)
    ensures
        adif_field(name, value) == seq!['<'] + name + seq![':'] + text::decimal(
            lines::byte_len(value),
        ) + seq!['>'] + value,
        text::value_of(text::decimal(lines::byte_len(value))) == lines::byte_len(value),
        adif_field_opt(name, Some(value)) == adif_field(name, value),
        adif_field_opt(name, None).len() == 0,
{
    reveal_strlit("<");
    reveal_strlit(":");
    reveal_strlit(">");
    assert("<"@ =~= seq!['<']);
    assert(":"@ =~= seq![':']);
    assert(">"@ =~= seq!['>']);
    text::law_decimal_stands_for_its_number(lines::byte_len(value));
}

/// The text holds the piece.
pub open spec fn holds(all: Seq<char>, piece: Seq<char>) -> bool {
    exists|i: int| #[trigger] text::occurs_at(all, piece, i)
}

proof fn lemma_holds(before: Seq<char>, piece: Seq<char>, after: Seq<char>)
    ensures
        holds(before + piece + after, piece),
{
    let all = before + piece + after;
    assert(all.subrange(before.len() as int, (before.len() + piece.len()) as int) =~= piece);
    assert(text::occurs_at(all, piece, before.len() as int));
}

/// A file with one record more is the file without it and the line of the record; one without records
/// has no line.
pub proof fn law_lines_follow_the_records(records: Seq<AdifModel>, last: AdifModel)
    ensures
        adif_lines(records.push(last)) == adif_lines(records) + adif_line(last),
        adif_lines(Seq::empty()).len() == 0,
{
    assert(records.push(last).drop_last() =~= records);
    assert(records.push(last).last() == last);
}

/// The line of a record holds the call, the mode and the submode, the band, both reports, our call
/// and our locator, each as a field of its own.
pub proof fn law_line_holds_the_fields(r: AdifModel)
    ensures
        holds(adif_line(r), adif_field("CALL"@, r.call)),
        holds(adif_line(r), adif_field("QSO_DATE"@, r.date)),
        holds(adif_line(r), adif_field("TIME_ON"@, r.time)),
        holds(adif_line(r), adif_field("BAND"@, r.band)),
        holds(adif_line(r), adif_field("MODE"@, r.mode)),
        r.submode matches Some(submode) ==> holds(adif_line(r), adif_field("SUBMODE"@, submode)),
        holds(adif_line(r), adif_field("RST_SENT"@, r.sent)),
        holds(adif_line(r), adif_field("RST_RCVD"@, r.received)),
        holds(adif_line(r), adif_field("STATION_CALLSIGN"@, r.station)),
        holds(adif_line(r), adif_field("MY_GRIDSQUARE"@, r.my_grid)),
        r.grid matches Some(grid) ==> holds(adif_line(r), adif_field("GRIDSQUARE"@, grid)),
{
    let call = adif_field("CALL"@, r.call);
    let date = adif_field("QSO_DATE"@, r.date);
    let time = adif_field("TIME_ON"@, r.time);
    let date_off = adif_field_opt("QSO_DATE_OFF"@, r.date_off);
    let time_off = adif_field_opt("TIME_OFF"@, r.time_off);
    let band = adif_field("BAND"@, r.band);
    let freq = adif_field_opt("FREQ"@, r.freq);
    let mode = adif_field("MODE"@, r.mode);
    let submode = adif_field_opt("SUBMODE"@, r.submode);
    let sent = adif_field("RST_SENT"@, r.sent);
    let received = adif_field("RST_RCVD"@, r.received);
    let station = adif_field("STATION_CALLSIGN"@, r.station);
    let my_grid = adif_field("MY_GRIDSQUARE"@, r.my_grid);
    let grid = adif_field_opt("GRIDSQUARE"@, r.grid);
    let parts = seq![
        call,
        date,
        time,
        date_off,
        time_off,
        band,
        freq,
        mode,
        submode,
        sent,
        received,
        station,
        my_grid,
        grid,
        "<EOR>\n"@,
    ];
    lemma_in_a_row(parts);
    assert(parts.take(15) =~= parts);
    lemma_row_of(parts);
    assert(adif_line(r) == in_a_row(parts));
    assert(holds(in_a_row(parts), parts[0]) && holds(in_a_row(parts), parts[1]) && holds(
        in_a_row(parts),
        parts[2],
    ) && holds(in_a_row(parts), parts[5]) && holds(in_a_row(parts), parts[7]) && holds(
        in_a_row(parts),
        parts[8],
    ) && holds(in_a_row(parts), parts[9]) && holds(in_a_row(parts), parts[10]) && holds(
        in_a_row(parts),
        parts[11],
    ) && holds(in_a_row(parts), parts[12]) && holds(in_a_row(parts), parts[13]));
}

spec fn in_a_row(parts: Seq<Seq<char>>) -> Seq<char>
    decreases parts.len(),
{
    if parts.len() == 0 {
        Seq::empty()
    } else {
        in_a_row(parts.drop_last()) + parts.last()
    }
}

proof fn lemma_in_a_row(parts: Seq<Seq<char>>)
    ensures
        forall|k: int| 0 <= k < parts.len() ==> holds(in_a_row(parts), #[trigger] parts[k]),
    decreases parts.len(),
{
    if parts.len() > 0 {
        let rest = parts.drop_last();
        let before = in_a_row(rest);
        lemma_in_a_row(rest);
        assert forall|k: int| 0 <= k < parts.len() implies holds(
            in_a_row(parts),
            #[trigger] parts[k],
        ) by {
            if k < rest.len() {
                assert(rest[k] == parts[k]);
                let i = choose|i: int| #[trigger] text::occurs_at(before, parts[k], i);
                assert((before + parts.last()).subrange(i, i + parts[k].len())
                    =~= before.subrange(i, i + parts[k].len()));
                assert(text::occurs_at(in_a_row(parts), parts[k], i));
            } else {
                lemma_holds(before, parts.last(), Seq::empty());
                assert(before + parts.last() + Seq::<char>::empty() =~= in_a_row(parts));
            }
        }
    }
}

proof fn lemma_row_of(parts: Seq<Seq<char>>)
    requires
        parts.len() == 15,
    ensures
        in_a_row(parts) == parts[0] + parts[1] + parts[2] + parts[3] + parts[4] + parts[5] + parts[6]
            + parts[7] + parts[8] + parts[9] + parts[10] + parts[11] + parts[12] + parts[13]
            + parts[14],
{
    lemma_row_step(parts, 15);
    lemma_row_step(parts, 14);
    lemma_row_step(parts, 13);
    lemma_row_step(parts, 12);
    lemma_row_step(parts, 11);
    lemma_row_step(parts, 10);
    lemma_row_step(parts, 9);
    lemma_row_step(parts, 8);
    lemma_row_step(parts, 7);
    lemma_row_step(parts, 6);
    lemma_row_step(parts, 5);
    lemma_row_step(parts, 4);
    lemma_row_step(parts, 3);
    lemma_row_step(parts, 2);
    lemma_row_step(parts, 1);
    assert(parts.take(15) =~= parts);
    assert(in_a_row(parts.take(0)) =~= Seq::<char>::empty());
    assert(Seq::<char>::empty() + parts[0] =~= parts[0]);
}

proof fn lemma_row_step(parts: Seq<Seq<char>>, n: int)
    requires
        0 < n <= parts.len(),
    ensures
        in_a_row(parts.take(n)) == in_a_row(parts.take(n - 1)) + parts[n - 1],
{
    assert(parts.take(n).drop_last() =~= parts.take(n - 1));
}

/// The file begins with the version of the format and the name of the program, and its head ends
/// with the mark for that.
pub proof fn law_head_of_the_file()
    ensures
        holds(adif_header(), adif_field("ADIF_VER"@, "3.1.4"@)),
        holds(adif_header(), adif_field("PROGRAMID"@, "ft8rx"@)),
        holds(adif_header(), "<EOH>\n"@),
{
    let version = adif_field("ADIF_VER"@, "3.1.4"@);
    let program = adif_field("PROGRAMID"@, "ft8rx"@);
    let number = adif_field("PROGRAMVERSION"@, PROGRAM_VERSION@);
    let mark = "<EOH>\n"@;
    let parts = seq![version, program, number, mark];
    lemma_in_a_row(parts);
    lemma_row_step(parts, 4);
    lemma_row_step(parts, 3);
    lemma_row_step(parts, 2);
    lemma_row_step(parts, 1);
    assert(parts.take(4) =~= parts);
    lemma_nothing_added(parts[0]);
    assert(in_a_row(parts.take(0)) =~= Seq::<char>::empty());
    assert(adif_header() == in_a_row(parts));
    assert(holds(in_a_row(parts), parts[0]) && holds(in_a_row(parts), parts[1]) && holds(
        in_a_row(parts),
        parts[3],
    ));
}

proof fn lemma_nothing_added(s: Seq<char>)
    ensures
        Seq::<char>::empty() + s == s,
{
    assert(Seq::<char>::empty() + s =~= s);
}

/// The reason that is told for a contact that is not exported is the first that it lacks: a start,
/// our call, a reply, the report received, the report sent, the roger, our closing message, the band
/// and the mode.
pub proof fn law_why_a_contact_is_not_exported(s: SessionModel, station: Seq<char>)
    requires
        s.started is Some || s.last_seen is Some,
        s.station_calls.len() == 0 || s.station_calls.contains(
            text::uppercased(text::trimmed(station)),
        ),
    ensures
        !s.got_reply ==> refusal(s, station) == Some("no directed reply from peer"@),
        s.got_reply && s.received_report is None ==> refusal(s, station) == Some(
            "missing received report"@,
        ),
        s.got_reply && s.received_report is Some && s.sent_report is None ==> refusal(s, station)
            == Some("missing sent report"@),
        s.got_reply && s.received_report is Some && s.sent_report is Some && !s.got_roger ==> refusal(
            s,
            station,
        ) == Some("no roger/ack from peer"@),
        s.got_reply && s.received_report is Some && s.sent_report is Some && s.got_roger
            && !s.reached_73 ==> refusal(s, station) == Some("we never sent terminal 73/RR73"@),
        s.got_reply && s.received_report is Some && s.sent_report is Some && s.got_roger
            && s.reached_73 && s.band is None ==> refusal(s, station) == Some("missing rig band"@),
        s.got_reply && s.received_report is Some && s.sent_report is Some && s.got_roger
            && s.reached_73 && (s.band matches Some(band) && text::trimmed(band).len() > 0)
            && s.mode is None ==> refusal(s, station) == Some("missing or unsupported app mode"@),
{
}

/// The contacts that are not exported are listed by the time of their start, then by the call.
pub proof fn law_refused_are_sorted(
    all: Seq<SessionModel>,
    station: Seq<char>,
    my_grid: Seq<char>,
    i: int,
    j: int,
)
    requires
        0 <= i < j < ineligible_sessions(all, station).len(),
    ensures
        ({
            let a = ineligible_sessions(all, station)[i];
            let b = ineligible_sessions(all, station)[j];
            a.started is Some && b.started is Some ==> a.started->0 < b.started->0 || (a.started
                == b.started && (text::text_lt(a.call, b.call) || a.call == b.call))
        }),
{
    law_each_contact_is_accounted_for(all, station, my_grid);
    let order = refused_order(all, station);
    assert(order.contains(order[i]) && order.contains(order[j]));
    assert(ineligible_places(all, station).contains(order[i]));
    assert(ineligible_places(all, station).contains(order[j]));
    let precedes = |i: int, j: int| refused_before(all, station, i, j);
    assert(precedes(order[i], order[j]));
}

} // verus!
