//! The records of the contact log, one JSON object to a line.

use vstd::prelude::*;
use vstd::string::*;

use crate::clock;
use crate::clock::Timestamp;
use crate::lines;
use crate::text;

verus! {

/// A member of an inner JSON object, as text or as a whole number where it is one.
#[derive(Debug)]
pub struct JsonLeaf {
    pub key: String,
    pub text: Option<String>,
    pub number: Option<u64>,
}

/// A member of an outer JSON object: as text or by its own members, where it is a text or an object.
#[derive(Debug)]
pub struct JsonMember {
    pub key: String,
    pub text: Option<String>,
    pub members: Option<Vec<JsonLeaf>>,
}

pub struct LeafModel {
    pub key: Seq<char>,
    pub text: Option<Seq<char>>,
    pub number: Option<u64>,
}

#[verifier::ext_equal]
pub struct MemberModel {
    pub key: Seq<char>,
    pub text: Option<Seq<char>>,
    pub members: Option<Seq<LeafModel>>,
}

impl View for JsonLeaf {
    type V = LeafModel;

    open spec fn view(&self) -> LeafModel {
        LeafModel { key: self.key@, text: text::text_opt(self.text), number: self.number }
    }
}

pub open spec fn leaf_models(leaves: Seq<JsonLeaf>) -> Seq<LeafModel> {
    leaves.map_values(|l: JsonLeaf| l@)
}

impl View for JsonMember {
    type V = MemberModel;

    open spec fn view(&self) -> MemberModel {
        MemberModel {
            key: self.key@,
            text: text::text_opt(self.text),
            members: match self.members {
                Some(leaves) => Some(leaf_models(leaves@)),
                None => None,
            },
        }
    }
}

pub open spec fn member_models(members: Seq<JsonMember>) -> Seq<MemberModel> {
    members.map_values(|m: JsonMember| m@)
}

pub open spec fn members_opt(members: Option<Vec<JsonMember>>) -> Option<Seq<MemberModel>> {
    match members {
        Some(m) => Some(member_models(m@)),
        None => None,
    }
}

/// The members of the JSON object that a text is; nothing where it is no JSON or no object.
pub uninterp spec fn json_members(text: Seq<char>) -> Option<Seq<MemberModel>>;

/// `serde_json::from_str` to a `serde_json::Value`, and what `Value::as_object`, `Value::as_str` and
/// `Value::as_u64` give for it, its members and their members. The result is a function of the text
/// alone.
#[verifier::external_body]
pub(crate) fn parse_members(text: &str) -> (r: Option<Vec<JsonMember>>)
    ensures
        members_opt(r) == json_members(text@),
{
    let value: serde_json::Value = serde_json::from_str(text).ok()?;
    let leaves = |object: &serde_json::Map<String, serde_json::Value>| -> Vec<JsonLeaf> {
        object.iter().map(|(key, leaf)| JsonLeaf {
            key: key.clone(),
            text: leaf.as_str().map(str::to_owned),
            number: leaf.as_u64(),
        }).collect()
    };
    Some(value.as_object()?.iter().map(|(key, member)| JsonMember {
        key: key.clone(),
        text: member.as_str().map(str::to_owned),
        members: member.as_object().map(&leaves),
    }).collect())
}

/// The member of that name.
pub open spec fn member_named(members: Seq<MemberModel>, key: Seq<char>) -> Option<MemberModel>
    decreases members.len(),
{
    if members.len() == 0 {
        None
    } else if members[0].key == key {
        Some(members[0])
    } else {
        member_named(members.drop_first(), key)
    }
}

/// The inner member of that name.
pub open spec fn leaf_named(leaves: Seq<LeafModel>, key: Seq<char>) -> Option<LeafModel>
    decreases leaves.len(),
{
    if leaves.len() == 0 {
        None
    } else if leaves[0].key == key {
        Some(leaves[0])
    } else {
        leaf_named(leaves.drop_first(), key)
    }
}

pub open spec fn member_text(members: Seq<MemberModel>, key: Seq<char>) -> Option<Seq<char>> {
    match member_named(members, key) {
        Some(m) => m.text,
        None => None,
    }
}

pub open spec fn member_members(
    members: Seq<MemberModel>,
    key: Seq<char>,
) -> Option<Seq<LeafModel>> {
    match member_named(members, key) {
        Some(m) => m.members,
        None => None,
    }
}

pub open spec fn leaf_text(leaves: Seq<LeafModel>, key: Seq<char>) -> Option<Seq<char>> {
    match leaf_named(leaves, key) {
        Some(l) => l.text,
        None => None,
    }
}

pub open spec fn leaf_number(leaves: Seq<LeafModel>, key: Seq<char>) -> Option<u64> {
    match leaf_named(leaves, key) {
        Some(l) => l.number,
        None => None,
    }
}

/// The text of that name, or an empty one.
pub open spec fn text_or_empty(leaves: Seq<LeafModel>, key: Seq<char>) -> Seq<char> {
    match leaf_text(leaves, key) {
        Some(t) => t,
        None => Seq::empty(),
    }
}

pub(crate) fn find_member<'a>(
    members: &'a Vec<JsonMember>,
    key: &str,
) -> (r: Option<&'a JsonMember>)
    ensures
        (match r {
            Some(m) => Some(m@),
            None => None,
        }) == member_named(member_models(members@), key@),
{
    let ghost all = member_models(members@);
    let mut i: usize = 0;
    assert(all.skip(0) =~= all);
    while i < members.len()
        invariant
            i <= members@.len(),
            all == member_models(members@),
            member_named(all, key@) == member_named(all.skip(i as int), key@),
        decreases members@.len() - i,
    {
        assert(all.skip(i as int)[0] == members@[i as int]@);
        if text::str_eq(members[i].key.as_str(), key) {
            return Some(&members[i]);
        }
        assert(all.skip(i as int).drop_first() =~= all.skip(i + 1));
        i += 1;
    }
    None
}

pub(crate) fn find_leaf<'a>(leaves: &'a Vec<JsonLeaf>, key: &str) -> (r: Option<&'a JsonLeaf>)
    ensures
        (match r {
            Some(l) => Some(l@),
            None => None,
        }) == leaf_named(leaf_models(leaves@), key@),
{
    let ghost all = leaf_models(leaves@);
    let mut i: usize = 0;
    assert(all.skip(0) =~= all);
    while i < leaves.len()
        invariant
            i <= leaves@.len(),
            all == leaf_models(leaves@),
            leaf_named(all, key@) == leaf_named(all.skip(i as int), key@),
        decreases leaves@.len() - i,
    {
        assert(all.skip(i as int)[0] == leaves@[i as int]@);
        if text::str_eq(leaves[i].key.as_str(), key) {
            return Some(&leaves[i]);
        }
        assert(all.skip(i as int).drop_first() =~= all.skip(i + 1));
        i += 1;
    }
    None
}

pub(crate) fn find_text(leaves: &Vec<JsonLeaf>, key: &str) -> (r: Option<String>)
    ensures
        text::text_opt(r) == leaf_text(leaf_models(leaves@), key@),
{
    match find_leaf(leaves, key) {
        Some(leaf) => text::clone_opt(&leaf.text),
        None => None,
    }
}

pub(crate) fn find_number(leaves: &Vec<JsonLeaf>, key: &str) -> (r: Option<u64>)
    ensures
        r == leaf_number(leaf_models(leaves@), key@),
{
    match find_leaf(leaves, key) {
        Some(leaf) => leaf.number,
        None => None,
    }
}

fn find_text_or_empty(leaves: &Vec<JsonLeaf>, key: &str) -> (r: String)
    ensures
        r@ == text_or_empty(leaf_models(leaves@), key@),
{
    match find_text(leaves, key) {
        Some(text) => text,
        None => {
            let none = String::new();
            assert(none@ =~= Seq::<char>::empty());
            none
        },
    }
}

/// One step of a contact as it was logged.
#[derive(Debug)]
pub struct LogRecord {
    pub timestamp: Timestamp,
    pub session_id: u64,
    pub partner_call: String,
    pub event: String,
    pub state_before: String,
    pub state_after: String,
    pub last_rx_event: String,
    pub rx_text: String,
    pub tx_text: String,
    pub compound_next_call: String,
    pub rig_band: String,
    pub rig_frequency_hz: Option<u64>,
    pub app_mode: String,
}

#[verifier::ext_equal]
pub struct RecordModel {
    pub at: Timestamp,
    pub session_id: u64,
    pub partner: Seq<char>,
    pub event: Seq<char>,
    pub state_before: Seq<char>,
    pub state_after: Seq<char>,
    pub rx_event: Seq<char>,
    pub rx_text: Seq<char>,
    pub tx_text: Seq<char>,
    pub compound_next: Seq<char>,
    pub band: Seq<char>,
    pub frequency: Option<u64>,
    pub mode: Seq<char>,
}

impl View for LogRecord {
    type V = RecordModel;

    open spec fn view(&self) -> RecordModel {
        RecordModel {
            at: self.timestamp,
            session_id: self.session_id,
            partner: self.partner_call@,
            event: self.event@,
            state_before: self.state_before@,
            state_after: self.state_after@,
            rx_event: self.last_rx_event@,
            rx_text: self.rx_text@,
            tx_text: self.tx_text@,
            compound_next: self.compound_next_call@,
            band: self.rig_band@,
            frequency: self.rig_frequency_hz,
            mode: self.app_mode@,
        }
    }
}

pub open spec fn record_opt(record: Option<LogRecord>) -> Option<RecordModel> {
    match record {
        Some(r) => Some(r@),
        None => None,
    }
}

pub open spec fn record_models(records: Seq<LogRecord>) -> Seq<RecordModel> {
    records.map_values(|r: LogRecord| r@)
}

/// A frequency of nothing is none.
pub open spec fn positive(frequency: Option<u64>) -> Option<u64> {
    match frequency {
        Some(f) if f > 0 => Some(f),
        _ => None,
    }
}

/// The record that the members of a log line make: one of a contact, with its session, its partner
/// and a time.
pub open spec fn record_in(members: Seq<MemberModel>) -> Option<RecordModel> {
    match (member_members(members, "fields"@), member_text(members, "timestamp"@)) {
        (Some(fields), Some(time)) => match (
            leaf_number(fields, "session_id"@),
            leaf_text(fields, "partner_call"@),
            clock::rfc3339_time(time),
        ) {
            (Some(session_id), Some(partner), Some(at)) => if leaf_text(fields, "message"@) == Some(
                "qso_fsm"@,
            ) {
                Some(
                    RecordModel {
                        at,
                        session_id,
                        partner,
                        event: text_or_empty(fields, "event"@),
                        state_before: text_or_empty(fields, "state_before"@),
                        state_after: text_or_empty(fields, "state_after"@),
                        rx_event: text_or_empty(fields, "last_rx_event"@),
                        rx_text: text_or_empty(fields, "rx_text"@),
                        tx_text: text_or_empty(fields, "tx_text"@),
                        compound_next: text_or_empty(fields, "compound_next_call"@),
                        band: text_or_empty(fields, "rig_band"@),
                        frequency: positive(leaf_number(fields, "rig_frequency_hz"@)),
                        mode: text_or_empty(fields, "app_mode"@),
                    },
                )
            } else {
                None
            },
            _ => None,
        },
        _ => None,
    }
}

/// Reads a record out of the members of a log line.
pub fn record_from_members(members: &Vec<JsonMember>) -> (r: Option<LogRecord>)
    ensures
        record_opt(r) == record_in(member_models(members@)),
        r matches Some(record) ==> clock::displayable(record.timestamp),
{
    let fields = match find_member(members, "fields") {
        Some(member) => match &member.members {
            Some(leaves) => leaves,
            None => {
                return None;
            },
        },
        None => {
            return None;
        },
    };
    let time = match find_member(members, "timestamp") {
        Some(member) => match &member.text {
            Some(time) => time,
            None => {
                return None;
            },
        },
        None => {
            return None;
        },
    };
    let session_id: u64 = match find_number(fields, "session_id") {
        Some(id) => id,
        None => {
            return None;
        },
    };
    let partner_call = match find_text(fields, "partner_call") {
        Some(call) => call,
        None => {
            return None;
        },
    };
    let timestamp: i128 = match clock::parse_rfc3339(time.as_str()) {
        Some(at) => at,
        None => {
            return None;
        },
    };
    let message = find_text(fields, "message");
    if !text::opt_eq(text::borrow_opt(&message), Some("qso_fsm")) {
        return None;
    }
    let rig_frequency_hz = match find_number(fields, "rig_frequency_hz") {
        Some(f) => if f > 0 {
            Some(f)
        } else {
            None
        },
        None => None,
    };
    Some(
        LogRecord {
            timestamp,
            session_id,
            partner_call,
            event: find_text_or_empty(fields, "event"),
            state_before: find_text_or_empty(fields, "state_before"),
            state_after: find_text_or_empty(fields, "state_after"),
            last_rx_event: find_text_or_empty(fields, "last_rx_event"),
            rx_text: find_text_or_empty(fields, "rx_text"),
            tx_text: find_text_or_empty(fields, "tx_text"),
            compound_next_call: find_text_or_empty(fields, "compound_next_call"),
            rig_band: find_text_or_empty(fields, "rig_band"),
            rig_frequency_hz,
            app_mode: find_text_or_empty(fields, "app_mode"),
        },
    )
}

/// The record on a line of the log.
pub open spec fn record_on(line: Seq<char>) -> Option<RecordModel> {
    match json_members(line) {
        Some(members) => record_in(members),
        None => None,
    }
}

/// The records on the lines, in their order; lines without one are left out.
pub open spec fn records_on(lines: Seq<Seq<char>>) -> Seq<RecordModel>
    decreases lines.len(),
{
    if lines.len() == 0 {
        Seq::empty()
    } else {
        let earlier = records_on(lines.drop_last());
        match record_on(lines.last()) {
            Some(record) => earlier.push(record),
            None => earlier,
        }
    }
}

/// The records of a log.
pub open spec fn records_of(contents: Seq<char>) -> Seq<RecordModel> {
    records_on(lines::lines_of(contents))
}

/// The records all have times that can be shown.
pub open spec fn records_displayable(records: Seq<RecordModel>) -> bool {
    forall|i: int| 0 <= i < records.len() ==> clock::displayable((#[trigger] records[i]).at)
}

/// Reads the record on a line, where there is one.
pub fn read_record(line: &str) -> (r: Option<LogRecord>)
    ensures
        record_opt(r) == record_on(line@),
        r matches Some(record) ==> clock::displayable(record.timestamp),
{
    match parse_members(line) {
        Some(members) => record_from_members(&members),
        None => None,
    }
}

pub fn read_records(contents: &str) -> (r: Vec<LogRecord>)
    ensures
        record_models(r@) == records_of(contents@),
        records_displayable(record_models(r@)),
{
    let all = lines::split_lines(contents);
    let ghost texts = text::texts(all@);
    let mut r: Vec<LogRecord> = Vec::new();
    let mut i: usize = 0;
    assert(record_models(r@) =~= records_on(texts.take(0)));
    while i < all.len()
        invariant
            i <= all@.len(),
            texts == text::texts(all@),
            record_models(r@) == records_on(texts.take(i as int)),
            records_displayable(record_models(r@)),
        decreases all@.len() - i,
    {
        let ghost before = record_models(r@);
        assert(texts.take(i + 1).drop_last() =~= texts.take(i as int));
        assert(texts.take(i + 1).last() == all@[i as int]@);
        if let Some(record) = read_record(all[i].as_str()) {
            r.push(record);
            assert(record_models(r@) =~= before.push(record@));
        }
        i += 1;
    }
    assert(texts.take(i as int) =~= texts);
    r
}

/// A line of the log is a record of a contact exactly when it tells its time, the number of the
/// session and the partner, and its message is `qso_fsm`; a field that is not told is empty, and a
/// frequency of nothing is none.
pub proof fn law_what_a_record_is_read_from(members: Seq<MemberModel>)
    ensures
        record_in(members) is Some <==> {
            &&& member_members(members, "fields"@) is Some
            &&& member_text(members, "timestamp"@) matches Some(time) && clock::rfc3339_time(time)
                is Some
            &&& leaf_number(member_members(members, "fields"@)->0, "session_id"@) is Some
            &&& leaf_text(member_members(members, "fields"@)->0, "partner_call"@) is Some
            &&& leaf_text(member_members(members, "fields"@)->0, "message"@) == Some("qso_fsm"@)
        },
        record_in(members) matches Some(r) ==> {
            let fields = member_members(members, "fields"@)->0;
            let told = |key: Seq<char>, value: Seq<char>|
                match leaf_text(fields, key) {
                    Some(t) => value == t,
                    None => value.len() == 0,
                };
            &&& clock::rfc3339_time(member_text(members, "timestamp"@)->0) == Some(r.at)
            &&& leaf_number(fields, "session_id"@) == Some(r.session_id)
            &&& leaf_text(fields, "partner_call"@) == Some(r.partner)
            &&& told("event"@, r.event)
            &&& told("state_before"@, r.state_before)
            &&& told("state_after"@, r.state_after)
            &&& told("last_rx_event"@, r.rx_event)
            &&& told("rx_text"@, r.rx_text)
            &&& told("tx_text"@, r.tx_text)
            &&& told("compound_next_call"@, r.compound_next)
            &&& told("rig_band"@, r.band)
            &&& told("app_mode"@, r.mode)
            &&& match leaf_number(fields, "rig_frequency_hz"@) {
                Some(hz) => r.frequency == (if hz > 0 {
                    Some(hz)
                } else {
                    None
                }),
                None => r.frequency is None,
            }
        },
{
}

/// The member of a name is the first that has it.
pub proof fn law_first_member_of_a_name(members: Seq<MemberModel>, key: Seq<char>)
    ensures
        match member_named(members, key) {
            Some(m) => exists|i: int|
                0 <= i < members.len() && (#[trigger] members[i]) == m && m.key == key && forall|
                    j: int,
                |
                    0 <= j < i ==> (#[trigger] members[j]).key != key,
            None => forall|i: int| 0 <= i < members.len() ==> (#[trigger] members[i]).key != key,
        },
    decreases members.len(),
{
    if members.len() > 0 {
        if members[0].key != key {
            let rest = members.drop_first();
            law_first_member_of_a_name(rest, key);
            if let Some(m) = member_named(rest, key) {
                let i = choose|i: int|
                    0 <= i < rest.len() && (#[trigger] rest[i]) == m && m.key == key && forall|
                        j: int,
                    |
                        0 <= j < i ==> (#[trigger] rest[j]).key != key;
                assert(members[i + 1] == m);
                assert forall|j: int| 0 <= j < i + 1 implies (#[trigger] members[j]).key != key by {
                    if j > 0 {
                        assert(rest[j - 1] == members[j]);
                    }
                }
            } else {
                assert forall|i: int| 0 <= i < members.len() implies (#[trigger] members[i]).key
                    != key by {
                    if i > 0 {
                        assert(rest[i - 1] == members[i]);
                    }
                }
            }
        } else {
            assert(members[0] == member_named(members, key)->0);
        }
    }
}

/// A log has a record for each line that is one, in the order of the lines: reading on from where a
/// log ended adds its records to those before.
pub proof fn law_records_follow_the_lines(first: Seq<Seq<char>>, rest: Seq<Seq<char>>)
    ensures
        records_on(first + rest) == records_on(first) + records_on(rest),
        forall|line: Seq<char>| #[trigger]
            records_on(seq![line]) == (match record_on(line) {
                Some(r) => seq![r],
                None => Seq::empty(),
            }),
    decreases rest.len(),
{
    if rest.len() > 0 {
        law_records_follow_the_lines(first, rest.drop_last());
        assert((first + rest).drop_last() =~= first + rest.drop_last());
        assert((first + rest).last() == rest.last());
        assert(records_on(first + rest) =~= records_on(first) + records_on(rest));
    } else {
        assert(first + rest =~= first);
        assert(records_on(first + rest) =~= records_on(first) + records_on(rest));
    }
    assert forall|line: Seq<char>| #[trigger] records_on(seq![line]) == (match record_on(line) {
        Some(r) => seq![r],
        None => Seq::empty(),
    }) by {
        assert(seq![line].drop_last() =~= Seq::<Seq<char>>::empty());
        assert(records_on(Seq::<Seq<char>>::empty()) =~= Seq::<RecordModel>::empty());
        assert(records_on(seq![line]) =~= (match record_on(line) {
            Some(r) => seq![r],
            None => Seq::empty(),
        }));
    }
}

} // verus!
