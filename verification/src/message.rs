//! Decoded messages, and what can be read from one: who sent it, whom it names, how it is shown.

use vstd::prelude::*;
use vstd::string::*;

use crate::text;

verus! {

/// The bits of a 32-bit float. Such numbers are carried and ordered, never computed with.
pub type FloatBits = u32;

#[derive(Clone, Copy, Debug, PartialEq, Eq, Structural)]
pub enum ReplyWord {
    Blank,
    Rrr,
    Rr73,
    SeventyThree,
}

#[derive(Clone, Copy, Debug, PartialEq, Eq, Structural)]
pub enum CallModifier {
    R,
    P,
}

#[derive(Debug)]
pub enum StructuredCallValue {
    Token { token: String },
    StandardCall { callsign: String },
    Hash22 { hash: u32, resolved_callsign: Option<String> },
}

#[derive(Debug)]
pub struct StructuredCallField {
    pub value: StructuredCallValue,
    pub modifier: Option<CallModifier>,
}

#[derive(Debug)]
pub enum StructuredInfoValue {
    Blank,
    Grid { locator: String },
    SignalReport { db: i16 },
    Reply { word: ReplyWord },
}

#[derive(Debug)]
pub struct PlainCallField {
    pub callsign: String,
}

#[derive(Debug)]
pub struct HashedCallField10 {
    pub raw: u16,
    pub resolved_callsign: Option<String>,
}

#[derive(Debug)]
pub struct HashedCallField12 {
    pub raw: u16,
    pub resolved_callsign: Option<String>,
}

#[derive(Debug)]
pub struct HashedCallField22 {
    pub raw: u32,
    pub resolved_callsign: Option<String>,
}

#[allow(inconsistent_fields)]
#[derive(Debug)]
pub enum StructuredRttyExchange {
    Multiplier { value: String },
    Serial { value: u16 },
}

#[allow(inconsistent_fields)]
#[derive(Debug)]
pub enum StructuredMessage {
    Standard {
        first: StructuredCallField,
        second: StructuredCallField,
        acknowledge: bool,
        info: StructuredInfoValue,
    },
    Nonstandard {
        hashed_call: HashedCallField12,
        plain_call: PlainCallField,
        hashed_is_second: bool,
        reply: ReplyWord,
        cq: bool,
    },
    Dxpedition {
        completed_call: StructuredCallField,
        next_call: StructuredCallField,
        hashed_call10: HashedCallField10,
        report_db: i16,
    },
    FieldDay {
        first: StructuredCallField,
        second: StructuredCallField,
        acknowledge: bool,
        transmitter_count: u8,
        class: char,
        section: String,
    },
    RttyContest {
        tu: bool,
        first: StructuredCallField,
        second: StructuredCallField,
        acknowledge: bool,
        report: u16,
        exchange: StructuredRttyExchange,
    },
    EuVhf {
        hashed_call12: HashedCallField12,
        hashed_call22: HashedCallField22,
        acknowledge: bool,
        report: u8,
        serial: u16,
        grid6: String,
    },
    FreeText,
    Unsupported,
}

/// One decoded message. `structured_json` is the message as it is logged.
#[derive(Debug)]
pub struct DecodedMessage {
    pub utc: String,
    pub snr_db: i32,
    pub dt_seconds: FloatBits,
    pub freq_hz: FloatBits,
    pub text: String,
    pub structured_json: String,
    pub message: StructuredMessage,
}

#[derive(Clone, Copy, Debug, PartialEq, Eq, Structural)]
pub enum StationLastMessageKind {
    Cq,
    Rr73,
    SeventyThree,
    Other,
}

impl StationLastMessageKind {
    pub open spec fn name(self) -> Seq<char> {
        match self {
            StationLastMessageKind::Cq => "cq"@,
            StationLastMessageKind::Rr73 => "rr73"@,
            StationLastMessageKind::SeventyThree => "73"@,
            StationLastMessageKind::Other => "other"@,
        }
    }

    pub fn as_str(self) -> (r: &'static str)
        ensures
            r@ == self.name(),
    {
        match self {
            StationLastMessageKind::Cq => "cq",
            StationLastMessageKind::Rr73 => "rr73",
            StationLastMessageKind::SeventyThree => "73",
            StationLastMessageKind::Other => "other",
        }
    }

    /// Whether a station that was last heard with such a message can be called.
    pub fn is_ready_last_message(self) -> (r: bool)
        ensures
            r == (self != StationLastMessageKind::Other),
    {
        match self {
            StationLastMessageKind::Other => false,
            _ => true,
        }
    }
}

/// The callsign of a station in a call field, where it is known.
pub open spec fn call_name(field: StructuredCallField) -> Option<Seq<char>> {
    match field.value {
        StructuredCallValue::StandardCall { callsign } => Some(callsign@),
        StructuredCallValue::Hash22 { hash, resolved_callsign } => text::text_opt(resolved_callsign),
        StructuredCallValue::Token { token } => None,
    }
}

pub fn structured_call_station_name(field: &StructuredCallField) -> (r: Option<String>)
    ensures
        text::text_opt(r) == call_name(*field),
{
    match &field.value {
        StructuredCallValue::StandardCall { callsign } => Some(callsign.clone()),
        StructuredCallValue::Hash22 { resolved_callsign, .. } => text::clone_opt(resolved_callsign),
        StructuredCallValue::Token { .. } => None,
    }
}

/// The station that sent the message, where the message tells.
pub open spec fn sender_of(message: StructuredMessage) -> Option<Seq<char>> {
    match message {
        StructuredMessage::Standard { second, .. } => call_name(second),
        StructuredMessage::Nonstandard { hashed_call, plain_call, hashed_is_second, cq, .. } => {
            if cq || !hashed_is_second {
                Some(plain_call.callsign@)
            } else {
                text::text_opt(hashed_call.resolved_callsign)
            }
        },
        StructuredMessage::Dxpedition { hashed_call10, .. } => text::text_opt(
            hashed_call10.resolved_callsign,
        ),
        StructuredMessage::FieldDay { second, .. } => call_name(second),
        StructuredMessage::RttyContest { second, .. } => call_name(second),
        StructuredMessage::EuVhf { hashed_call22, .. } => text::text_opt(
            hashed_call22.resolved_callsign,
        ),
        StructuredMessage::FreeText => None,
        StructuredMessage::Unsupported => None,
    }
}

pub fn semantic_sender_call(message: &StructuredMessage) -> (r: Option<String>)
    ensures
        text::text_opt(r) == sender_of(*message),
{
    match message {
        StructuredMessage::Standard { second, .. } => structured_call_station_name(second),
        StructuredMessage::Nonstandard { hashed_call, plain_call, hashed_is_second, cq, .. } => {
            if *cq || !*hashed_is_second {
                Some(plain_call.callsign.clone())
            } else {
                text::clone_opt(&hashed_call.resolved_callsign)
            }
        },
        StructuredMessage::Dxpedition { hashed_call10, .. } => text::clone_opt(
            &hashed_call10.resolved_callsign,
        ),
        StructuredMessage::FieldDay { second, .. } => structured_call_station_name(second),
        StructuredMessage::RttyContest { second, .. } => structured_call_station_name(second),
        StructuredMessage::EuVhf { hashed_call22, .. } => text::clone_opt(
            &hashed_call22.resolved_callsign,
        ),
        StructuredMessage::FreeText => None,
        StructuredMessage::Unsupported => None,
    }
}

/// The station that the message names first, where it is known: the one it is sent to.
pub open spec fn first_call_of(message: StructuredMessage) -> Option<Seq<char>> {
    match message {
        StructuredMessage::Standard { first, .. } => call_name(first),
        StructuredMessage::Nonstandard { hashed_call, plain_call, hashed_is_second, cq, .. } => {
            if cq {
                None
            } else if hashed_is_second {
                Some(plain_call.callsign@)
            } else {
                text::text_opt(hashed_call.resolved_callsign)
            }
        },
        StructuredMessage::Dxpedition { completed_call, .. } => call_name(completed_call),
        StructuredMessage::FieldDay { first, .. } => call_name(first),
        StructuredMessage::RttyContest { first, .. } => call_name(first),
        StructuredMessage::EuVhf { hashed_call12, .. } => text::text_opt(
            hashed_call12.resolved_callsign,
        ),
        StructuredMessage::FreeText => None,
        StructuredMessage::Unsupported => None,
    }
}

pub fn semantic_first_call_display_call(message: &StructuredMessage) -> (r: Option<String>)
    ensures
        text::text_opt(r) == first_call_of(*message),
{
    match message {
        StructuredMessage::Standard { first, .. } => structured_call_station_name(first),
        StructuredMessage::Nonstandard { hashed_call, plain_call, hashed_is_second, cq, .. } => {
            if *cq {
                None
            } else if *hashed_is_second {
                Some(plain_call.callsign.clone())
            } else {
                text::clone_opt(&hashed_call.resolved_callsign)
            }
        },
        StructuredMessage::Dxpedition { completed_call, .. } => structured_call_station_name(
            completed_call,
        ),
        StructuredMessage::FieldDay { first, .. } => structured_call_station_name(first),
        StructuredMessage::RttyContest { first, .. } => structured_call_station_name(first),
        StructuredMessage::EuVhf { hashed_call12, .. } => text::clone_opt(
            &hashed_call12.resolved_callsign,
        ),
        StructuredMessage::FreeText => None,
        StructuredMessage::Unsupported => None,
    }
}

/// The station that a compound message turns to next.
pub open spec fn next_call_of(message: StructuredMessage) -> Option<Seq<char>> {
    match message {
        StructuredMessage::Dxpedition { next_call, .. } => call_name(next_call),
        _ => None,
    }
}

/// `calls` with `call` added, where there is one.
pub open spec fn with_call(calls: Seq<Seq<char>>, call: Option<Seq<char>>) -> Seq<Seq<char>> {
    match call {
        Some(c) => text::sorted_with(calls, c),
        None => calls,
    }
}

/// The stations that the message speaks of, each once, in ascending order.
pub open spec fn related_calls(message: StructuredMessage) -> Seq<Seq<char>> {
    let none = Seq::<Seq<char>>::empty();
    match message {
        StructuredMessage::Standard { first, second, .. } => with_call(
            with_call(none, call_name(first)),
            call_name(second),
        ),
        StructuredMessage::Nonstandard { hashed_call, plain_call, cq, .. } => {
            let plain = with_call(none, Some(plain_call.callsign@));
            if cq {
                plain
            } else {
                with_call(plain, text::text_opt(hashed_call.resolved_callsign))
            }
        },
        StructuredMessage::Dxpedition { completed_call, next_call, hashed_call10, .. } => with_call(
            with_call(with_call(none, call_name(completed_call)), call_name(next_call)),
            text::text_opt(hashed_call10.resolved_callsign),
        ),
        StructuredMessage::FieldDay { first, second, .. } => with_call(
            with_call(none, call_name(first)),
            call_name(second),
        ),
        StructuredMessage::RttyContest { first, second, .. } => with_call(
            with_call(none, call_name(first)),
            call_name(second),
        ),
        StructuredMessage::EuVhf { hashed_call12, hashed_call22, .. } => with_call(
            with_call(none, text::text_opt(hashed_call12.resolved_callsign)),
            text::text_opt(hashed_call22.resolved_callsign),
        ),
        StructuredMessage::FreeText => none,
        StructuredMessage::Unsupported => none,
    }
}

fn add_call(calls: &mut Vec<String>, call: Option<String>)
    ensures
        text::texts(final(calls)@) == with_call(text::texts(old(calls)@), text::text_opt(call)),
{
    if let Some(c) = call {
        text::insert_sorted(calls, c);
    }
}

pub fn message_related_calls(message: &StructuredMessage) -> (r: Vec<String>)
    ensures
        text::texts(r@) == related_calls(*message),
{
    let mut related: Vec<String> = Vec::new();
    assert(text::texts(related@) =~= Seq::<Seq<char>>::empty());
    match message {
        StructuredMessage::Standard { first, second, .. } => {
            add_call(&mut related, structured_call_station_name(first));
            add_call(&mut related, structured_call_station_name(second));
        },
        StructuredMessage::Nonstandard { hashed_call, plain_call, cq, .. } => {
            add_call(&mut related, Some(plain_call.callsign.clone()));
            if !*cq {
                add_call(&mut related, text::clone_opt(&hashed_call.resolved_callsign));
            }
        },
        StructuredMessage::Dxpedition { completed_call, next_call, hashed_call10, .. } => {
            add_call(&mut related, structured_call_station_name(completed_call));
            add_call(&mut related, structured_call_station_name(next_call));
            add_call(&mut related, text::clone_opt(&hashed_call10.resolved_callsign));
        },
        StructuredMessage::FieldDay { first, second, .. } => {
            add_call(&mut related, structured_call_station_name(first));
            add_call(&mut related, structured_call_station_name(second));
        },
        StructuredMessage::RttyContest { first, second, .. } => {
            add_call(&mut related, structured_call_station_name(first));
            add_call(&mut related, structured_call_station_name(second));
        },
        StructuredMessage::EuVhf { hashed_call12, hashed_call22, .. } => {
            add_call(&mut related, text::clone_opt(&hashed_call12.resolved_callsign));
            add_call(&mut related, text::clone_opt(&hashed_call22.resolved_callsign));
        },
        StructuredMessage::FreeText => {},
        StructuredMessage::Unsupported => {},
    }
    related
}

pub open spec fn reply_text(word: ReplyWord) -> Seq<char> {
    match word {
        ReplyWord::Blank => ""@,
        ReplyWord::Rrr => "RRR"@,
        ReplyWord::Rr73 => "RR73"@,
        ReplyWord::SeventyThree => "73"@,
    }
}

pub fn reply_word_text(word: ReplyWord) -> (r: &'static str)
    ensures
        r@ == reply_text(word),
{
    match word {
        ReplyWord::Blank => "",
        ReplyWord::Rrr => "RRR",
        ReplyWord::Rr73 => "RR73",
        ReplyWord::SeventyThree => "73",
    }
}

pub open spec fn info_text(acknowledge: bool, info: StructuredInfoValue) -> Seq<char> {
    match info {
        StructuredInfoValue::Blank => if acknowledge {
            "R"@
        } else {
            ""@
        },
        StructuredInfoValue::Grid { locator } => if acknowledge {
            "R "@ + locator@
        } else {
            locator@
        },
        StructuredInfoValue::SignalReport { db } => if acknowledge {
            "R"@ + text::signed_report(db as int)
        } else {
            text::signed_report(db as int)
        },
        StructuredInfoValue::Reply { word } => reply_text(word),
    }
}

pub fn structured_info_text(acknowledge: bool, info: &StructuredInfoValue) -> (r: String)
    ensures
        r@ == info_text(acknowledge, *info),
{
    match info {
        StructuredInfoValue::Blank => if acknowledge {
            "R".to_owned()
        } else {
            "".to_owned()
        },
        StructuredInfoValue::Grid { locator } => if acknowledge {
            text::cat2("R ", locator.as_str())
        } else {
            locator.clone()
        },
        StructuredInfoValue::SignalReport { db } => {
            let value = text::report_text(*db);
            if acknowledge {
                text::cat2("R", value.as_str())
            } else {
                value
            }
        },
        StructuredInfoValue::Reply { word } => reply_word_text(*word).to_owned(),
    }
}

/// A callsign in angle brackets, as one that came as a hash is shown.
pub open spec fn bracketed(call: Option<Seq<char>>) -> Seq<char> {
    match call {
        Some(c) => "<"@ + c + ">"@,
        None => "<...>"@,
    }
}

/// How a hashed call is shown.
pub fn hashed_call_text(resolved_callsign: &Option<String>) -> (r: String)
    ensures
        r@ == bracketed(text::text_opt(*resolved_callsign)),
{
    match resolved_callsign {
        Some(callsign) => text::cat3("<", callsign.as_str(), ">"),
        None => "<...>".to_owned(),
    }
}

pub open spec fn call_text(field: StructuredCallField) -> Seq<char> {
    let base = match field.value {
        StructuredCallValue::Token { token } => token@,
        StructuredCallValue::StandardCall { callsign } => callsign@,
        StructuredCallValue::Hash22 { hash, resolved_callsign } => match resolved_callsign {
            Some(callsign) => callsign@,
            None => "<...>"@,
        },
    };
    match field.modifier {
        Some(CallModifier::R) => base + "/R"@,
        Some(CallModifier::P) => base + "/P"@,
        None => base,
    }
}

pub fn structured_call_text(field: &StructuredCallField) -> (r: String)
    ensures
        r@ == call_text(*field),
{
    let base = match &field.value {
        StructuredCallValue::Token { token } => token.clone(),
        StructuredCallValue::StandardCall { callsign } => callsign.clone(),
        StructuredCallValue::Hash22 { resolved_callsign, .. } => match resolved_callsign {
            Some(callsign) => callsign.clone(),
            None => "<...>".to_owned(),
        },
    };
    match field.modifier {
        Some(CallModifier::R) => text::cat2(base.as_str(), "/R"),
        Some(CallModifier::P) => text::cat2(base.as_str(), "/P"),
        None => base,
    }
}

/// A leading `R ` where the report is acknowledged.
pub open spec fn roger(acknowledge: bool) -> Seq<char> {
    if acknowledge {
        "R "@
    } else {
        ""@
    }
}

fn roger_text(acknowledge: bool) -> (r: &'static str)
    ensures
        r@ == roger(acknowledge),
{
    if acknowledge {
        "R "
    } else {
        ""
    }
}

pub open spec fn field_day_text(
    acknowledge: bool,
    count: u8,
    class: char,
    section: Seq<char>,
) -> Seq<char> {
    roger(acknowledge) + text::decimal(count as nat) + (seq![class] + " "@ + section)
}

fn field_day_info(acknowledge: bool, count: u8, class: char, section: &String) -> (r: String)
    ensures
        r@ == field_day_text(acknowledge, count, class, section@),
{
    let mut letter = String::new();
    letter.push(class);
    assert(letter@ =~= seq![class]);
    let tail = text::cat3(letter.as_str(), " ", section.as_str());
    let number = text::decimal_text(count as u64);
    text::cat3(roger_text(acknowledge), number.as_str(), tail.as_str())
}

pub open spec fn exchange_text(exchange: StructuredRttyExchange) -> Seq<char> {
    match exchange {
        StructuredRttyExchange::Multiplier { value } => value@,
        StructuredRttyExchange::Serial { value } => text::zero_padded(text::decimal(value as nat), 4),
    }
}

pub open spec fn rtty_text(
    acknowledge: bool,
    report: u16,
    exchange: StructuredRttyExchange,
) -> Seq<char> {
    roger(acknowledge) + text::zero_padded(text::decimal(report as nat), 3) + (" "@ + exchange_text(
        exchange,
    ))
}

fn rtty_info(acknowledge: bool, report: u16, exchange: &StructuredRttyExchange) -> (r: String)
    ensures
        r@ == rtty_text(acknowledge, report, *exchange),
{
    let value = match exchange {
        StructuredRttyExchange::Multiplier { value } => value.clone(),
        StructuredRttyExchange::Serial { value } => text::padded_decimal(*value as u64, 4),
    };
    let tail = text::cat2(" ", value.as_str());
    let number = text::padded_decimal(report as u64, 3);
    text::cat3(roger_text(acknowledge), number.as_str(), tail.as_str())
}

pub open spec fn eu_vhf_text(
    acknowledge: bool,
    report: u8,
    serial: u16,
    grid6: Seq<char>,
) -> Seq<char> {
    roger(acknowledge) + text::zero_padded(text::decimal(report as nat), 2) + (text::zero_padded(
        text::decimal(serial as nat),
        4,
    ) + " "@ + grid6)
}

fn eu_vhf_info(acknowledge: bool, report: u8, serial: u16, grid6: &String) -> (r: String)
    ensures
        r@ == eu_vhf_text(acknowledge, report, serial, grid6@),
{
    let tail = text::cat3(text::padded_decimal(serial as u64, 4).as_str(), " ", grid6.as_str());
    let number = text::padded_decimal(report as u64, 2);
    text::cat3(roger_text(acknowledge), number.as_str(), tail.as_str())
}

/// The four columns in which a message is shown: kind, first call, second call, information.
pub open spec fn columns(
    message: StructuredMessage,
) -> (Seq<char>, Seq<char>, Seq<char>, Seq<char>) {
    match message {
        StructuredMessage::Standard { first, second, acknowledge, info } => (
            "std"@,
            call_text(first),
            call_text(second),
            info_text(acknowledge, info),
        ),
        StructuredMessage::Nonstandard { hashed_call, plain_call, hashed_is_second, reply, cq } => {
            let hashed = bracketed(text::text_opt(hashed_call.resolved_callsign));
            if cq {
                ("nonstd"@, "CQ"@, plain_call.callsign@, "CQ"@)
            } else if hashed_is_second {
                ("nonstd"@, plain_call.callsign@, hashed, reply_text(reply))
            } else {
                ("nonstd"@, hashed, plain_call.callsign@, reply_text(reply))
            }
        },
        StructuredMessage::Dxpedition { completed_call, next_call, hashed_call10, report_db } => (
            "dxped"@,
            call_text(completed_call),
            call_text(next_call),
            "RR73; "@ + bracketed(text::text_opt(hashed_call10.resolved_callsign)) + (" "@
                + text::signed_report(report_db as int)),
        ),
        StructuredMessage::FieldDay {
            first,
            second,
            acknowledge,
            transmitter_count,
            class,
            section,
        } => (
            "fday"@,
            call_text(first),
            call_text(second),
            field_day_text(acknowledge, transmitter_count, class, section@),
        ),
        StructuredMessage::RttyContest { tu, first, second, acknowledge, report, exchange } => (
            "rtty"@,
            if tu {
                "TU; "@ + call_text(first)
            } else {
                call_text(first)
            },
            call_text(second),
            rtty_text(acknowledge, report, exchange),
        ),
        StructuredMessage::EuVhf {
            hashed_call12,
            hashed_call22,
            acknowledge,
            report,
            serial,
            grid6,
        } => (
            "euvhf"@,
            bracketed(text::text_opt(hashed_call12.resolved_callsign)),
            bracketed(text::text_opt(hashed_call22.resolved_callsign)),
            eu_vhf_text(acknowledge, report, serial, grid6@),
        ),
        StructuredMessage::FreeText => ("free"@, ""@, ""@, ""@),
        StructuredMessage::Unsupported => ("unsup"@, ""@, ""@, ""@),
    }
}

pub fn decode_columns(message: &StructuredMessage) -> (r: (String, String, String, String))
    ensures
        (r.0@, r.1@, r.2@, r.3@) == columns(*message),
{
    match message {
        StructuredMessage::Standard { first, second, acknowledge, info } => (
            "std".to_owned(),
            structured_call_text(first),
            structured_call_text(second),
            structured_info_text(*acknowledge, info),
        ),
        StructuredMessage::Nonstandard { hashed_call, plain_call, hashed_is_second, reply, cq } => {
            let hashed = hashed_call_text(&hashed_call.resolved_callsign);
            let plain = plain_call.callsign.clone();
            if *cq {
                ("nonstd".to_owned(), "CQ".to_owned(), plain, "CQ".to_owned())
            } else if *hashed_is_second {
                ("nonstd".to_owned(), plain, hashed, reply_word_text(*reply).to_owned())
            } else {
                ("nonstd".to_owned(), hashed, plain, reply_word_text(*reply).to_owned())
            }
        },
        StructuredMessage::Dxpedition { completed_call, next_call, hashed_call10, report_db } => {
            let hashed = hashed_call_text(&hashed_call10.resolved_callsign);
            let report = text::cat2(" ", text::report_text(*report_db).as_str());
            (
                "dxped".to_owned(),
                structured_call_text(completed_call),
                structured_call_text(next_call),
                text::cat3("RR73; ", hashed.as_str(), report.as_str()),
            )
        },
        StructuredMessage::FieldDay {
            first,
            second,
            acknowledge,
            transmitter_count,
            class,
            section,
        } => (
            "fday".to_owned(),
            structured_call_text(first),
            structured_call_text(second),
            field_day_info(*acknowledge, *transmitter_count, *class, section),
        ),
        StructuredMessage::RttyContest { tu, first, second, acknowledge, report, exchange } => {
            let call = structured_call_text(first);
            (
                "rtty".to_owned(),
                if *tu {
                    text::cat2("TU; ", call.as_str())
                } else {
                    call
                },
                structured_call_text(second),
                rtty_info(*acknowledge, *report, exchange),
            )
        },
        StructuredMessage::EuVhf {
            hashed_call12,
            hashed_call22,
            acknowledge,
            report,
            serial,
            grid6,
        } => (
            "euvhf".to_owned(),
            hashed_call_text(&hashed_call12.resolved_callsign),
            hashed_call_text(&hashed_call22.resolved_callsign),
            eu_vhf_info(*acknowledge, *report, *serial, grid6),
        ),
        StructuredMessage::FreeText => (
            "free".to_owned(),
            "".to_owned(),
            "".to_owned(),
            "".to_owned(),
        ),
        StructuredMessage::Unsupported => (
            "unsup".to_owned(),
            "".to_owned(),
            "".to_owned(),
            "".to_owned(),
        ),
    }
}

/// The first word of a token, or all of it where it is only space.
pub open spec fn token_of(field: StructuredCallField) -> Option<Seq<char>> {
    match field.value {
        StructuredCallValue::Token { token } => if text::words(token@).len() > 0 {
            Some(text::words(token@)[0])
        } else if token@.len() > 0 {
            Some(token@)
        } else {
            None
        },
        _ => None,
    }
}

pub fn bandmap_token(field: &StructuredCallField) -> (r: Option<String>)
    ensures
        text::text_opt(r) == token_of(*field),
{
    match &field.value {
        StructuredCallValue::Token { token } => {
            let words = text::split_words(token.as_str());
            if words.len() > 0 {
                assert(text::texts(words@)[0] == words@[0]@);
                Some(words[0].clone())
            } else {
                assert(text::texts(words@).len() == 0);
                if text::is_empty_text(token.as_str()) {
                    None
                } else {
                    Some(token.clone())
                }
            }
        },
        _ => None,
    }
}

/// `parts` with `part` at the end, unless it is empty.
pub open spec fn with_part(parts: Seq<Seq<char>>, part: Seq<char>) -> Seq<Seq<char>> {
    if part.len() == 0 {
        parts
    } else {
        parts.push(part)
    }
}

/// The parts with a space between them, or nothing where there is none.
pub open spec fn spaced(parts: Seq<Seq<char>>) -> Option<Seq<char>> {
    if parts.len() == 0 {
        None
    } else {
        Some(text::joined(parts, " "@))
    }
}

fn push_part(parts: &mut Vec<String>, part: String)
    ensures
        text::texts(final(parts)@) == with_part(text::texts(old(parts)@), part@),
{
    if !text::is_empty_text(part.as_str()) {
        parts.push(part);
        assert(text::texts(parts@) =~= text::texts(old(parts)@).push(part@));
    }
}

fn join_parts(parts: &Vec<String>) -> (r: Option<String>)
    ensures
        text::text_opt(r) == spaced(text::texts(parts@)),
{
    if parts.len() == 0 {
        None
    } else {
        Some(text::join(parts, " "))
    }
}

/// What is shown under a call in the band map.
pub open spec fn detail_of(message: StructuredMessage) -> Option<Seq<char>> {
    let none = Seq::<Seq<char>>::empty();
    match message {
        StructuredMessage::Standard { first, second, acknowledge, info } => {
            let token = match token_of(first) {
                Some(t) => Some(t),
                None => token_of(second),
            };
            let parts = match token {
                Some(t) => none.push(t),
                None => none,
            };
            spaced(with_part(parts, info_text(acknowledge, info)))
        },
        StructuredMessage::Nonstandard { reply, cq, .. } => {
            let parts = if cq {
                none.push("CQ"@)
            } else {
                none
            };
            spaced(with_part(parts, reply_text(reply)))
        },
        StructuredMessage::Dxpedition { report_db, .. } => Some(
            "RR73 "@ + text::signed_report(report_db as int),
        ),
        StructuredMessage::FieldDay { acknowledge, transmitter_count, class, section, .. } => Some(
            field_day_text(acknowledge, transmitter_count, class, section@),
        ),
        StructuredMessage::RttyContest { tu, acknowledge, report, exchange, .. } => Some(
            (if tu {
                "TU; "@
            } else {
                ""@
            }) + rtty_text(acknowledge, report, exchange),
        ),
        StructuredMessage::EuVhf { acknowledge, report, serial, grid6, .. } => Some(
            eu_vhf_text(acknowledge, report, serial, grid6@),
        ),
        StructuredMessage::FreeText => None,
        StructuredMessage::Unsupported => None,
    }
}

pub fn bandmap_detail(message: &StructuredMessage) -> (r: Option<String>)
    ensures
        text::text_opt(r) == detail_of(*message),
{
    let mut parts: Vec<String> = Vec::new();
    let ghost none = Seq::<Seq<char>>::empty();
    assert(text::texts(parts@) =~= none);
    match message {
        StructuredMessage::Standard { first, second, acknowledge, info } => {
            let token = match bandmap_token(first) {
                Some(t) => Some(t),
                None => bandmap_token(second),
            };
            if let Some(t) = token {
                parts.push(t);
                assert(text::texts(parts@) =~= none.push(t@));
            }
            push_part(&mut parts, structured_info_text(*acknowledge, info));
            join_parts(&parts)
        },
        StructuredMessage::Nonstandard { reply, cq, .. } => {
            if *cq {
                parts.push("CQ".to_owned());
                assert(text::texts(parts@) =~= none.push("CQ"@));
            }
            push_part(&mut parts, reply_word_text(*reply).to_owned());
            join_parts(&parts)
        },
        StructuredMessage::Dxpedition { report_db, .. } => Some(
            text::cat2("RR73 ", text::report_text(*report_db).as_str()),
        ),
        StructuredMessage::FieldDay { acknowledge, transmitter_count, class, section, .. } => Some(
            field_day_info(*acknowledge, *transmitter_count, *class, section),
        ),
        StructuredMessage::RttyContest { tu, acknowledge, report, exchange, .. } => {
            let prefix = if *tu {
                "TU; "
            } else {
                ""
            };
            Some(text::cat2(prefix, rtty_info(*acknowledge, *report, exchange).as_str()))
        },
        StructuredMessage::EuVhf { acknowledge, report, serial, grid6, .. } => Some(
            eu_vhf_info(*acknowledge, *report, *serial, grid6),
        ),
        StructuredMessage::FreeText => None,
        StructuredMessage::Unsupported => None,
    }
}

/// The message calls any station.
pub open spec fn is_cq(message: StructuredMessage) -> bool {
    match message {
        StructuredMessage::Standard { first, .. } => match first.value {
            StructuredCallValue::Token { token } => token@ == "CQ"@ || text::has_prefix(
                token@,
                "CQ "@,
            ),
            _ => false,
        },
        StructuredMessage::Nonstandard { cq, .. } => cq,
        _ => false,
    }
}

pub fn message_is_cq(message: &StructuredMessage) -> (r: bool)
    ensures
        r == is_cq(*message),
{
    match message {
        StructuredMessage::Standard { first, .. } => match &first.value {
            StructuredCallValue::Token { token } => text::str_eq(token.as_str(), "CQ")
                || text::starts_with(token.as_str(), "CQ "),
            _ => false,
        },
        StructuredMessage::Nonstandard { cq, .. } => *cq,
        _ => false,
    }
}

pub open spec fn closes(word: ReplyWord) -> bool {
    word == ReplyWord::Rr73 || word == ReplyWord::SeventyThree
}

/// After this message its sender is in no contact any more.
pub open spec fn ends_qso(message: StructuredMessage) -> bool {
    is_cq(message) || match message {
        StructuredMessage::Standard { info, .. } => match info {
            StructuredInfoValue::Reply { word } => closes(word),
            _ => false,
        },
        StructuredMessage::Nonstandard { reply, .. } => closes(reply),
        StructuredMessage::Dxpedition { .. } => true,
        _ => false,
    }
}

fn is_closing(word: ReplyWord) -> (r: bool)
    ensures
        r == closes(word),
{
    match word {
        ReplyWord::Rr73 | ReplyWord::SeventyThree => true,
        _ => false,
    }
}

pub fn message_ends_qso(message: &StructuredMessage) -> (r: bool)
    ensures
        r == ends_qso(*message),
{
    if message_is_cq(message) {
        return true;
    }
    match message {
        StructuredMessage::Standard { info, .. } => match info {
            StructuredInfoValue::Reply { word } => is_closing(*word),
            _ => false,
        },
        StructuredMessage::Nonstandard { reply, .. } => is_closing(*reply),
        StructuredMessage::Dxpedition { .. } => true,
        _ => false,
    }
}

pub open spec fn kind_of_reply(word: ReplyWord) -> StationLastMessageKind {
    match word {
        ReplyWord::Rr73 => StationLastMessageKind::Rr73,
        ReplyWord::SeventyThree => StationLastMessageKind::SeventyThree,
        _ => StationLastMessageKind::Other,
    }
}

/// What kind of message it is, as far as calling its sender goes. A locator `RR73` is a sign-off,
/// no place.
pub open spec fn message_kind(message: StructuredMessage) -> StationLastMessageKind {
    if is_cq(message) {
        StationLastMessageKind::Cq
    } else {
        match message {
            StructuredMessage::Standard { info, .. } => match info {
                StructuredInfoValue::Grid { locator } => if text::same_ignoring_case(
                    locator@,
                    "RR73"@,
                ) {
                    StationLastMessageKind::Rr73
                } else {
                    StationLastMessageKind::Other
                },
                StructuredInfoValue::Reply { word } => kind_of_reply(word),
                _ => StationLastMessageKind::Other,
            },
            StructuredMessage::Nonstandard { reply, .. } => kind_of_reply(reply),
            _ => StationLastMessageKind::Other,
        }
    }
}

fn reply_kind(word: ReplyWord) -> (r: StationLastMessageKind)
    ensures
        r == kind_of_reply(word),
{
    match word {
        ReplyWord::Rr73 => StationLastMessageKind::Rr73,
        ReplyWord::SeventyThree => StationLastMessageKind::SeventyThree,
        _ => StationLastMessageKind::Other,
    }
}

pub fn station_message_kind(message: &StructuredMessage) -> (r: StationLastMessageKind)
    ensures
        r == message_kind(*message),
{
    if message_is_cq(message) {
        return StationLastMessageKind::Cq;
    }
    match message {
        StructuredMessage::Standard { info, .. } => match info {
            StructuredInfoValue::Grid { locator } => if text::eq_ignore_ascii_case(
                locator.as_str(),
                "RR73",
            ) {
                StationLastMessageKind::Rr73
            } else {
                StationLastMessageKind::Other
            },
            StructuredInfoValue::Reply { word } => reply_kind(*word),
            _ => StationLastMessageKind::Other,
        },
        StructuredMessage::Nonstandard { reply, .. } => reply_kind(*reply),
        _ => StationLastMessageKind::Other,
    }
}

/// A message calls any station when its first field is the token CQ, alone or with a word after it,
/// or when it is a CQ of a station with a nonstandard call.
pub proof fn law_what_a_cq_is(message: StructuredMessage)
    ensures
        is_cq(message) <==> match message {
            StructuredMessage::Standard { first, .. } => first.value matches StructuredCallValue::Token {
                token,
            } && token@.len() >= 2 && token@[0] == 'C' && token@[1] == 'Q' && (token@.len() == 2
                || token@[2] == ' '),
            StructuredMessage::Nonstandard { cq, .. } => cq,
            _ => false,
        },
{
    reveal_strlit("CQ");
    reveal_strlit("CQ ");
    if let StructuredMessage::Standard { first, .. } = message {
        if let StructuredCallValue::Token { token } = first.value {
            if token@.len() == 2 && token@[0] == 'C' && token@[1] == 'Q' {
                assert(token@ =~= "CQ"@);
            }
            if token@.len() >= 3 && token@[0] == 'C' && token@[1] == 'Q' && token@[2] == ' ' {
                assert(token@.take(3) =~= "CQ "@);
            }
            if text::has_prefix(token@, "CQ "@) {
                assert(token@.take(3)[0] == 'C' && token@.take(3)[1] == 'Q' && token@.take(3)[2]
                    == ' ');
            }
        }
    }
}

/// A contact is ended by a CQ, by RR73 or 73, and by a compound message, which closes one contact
/// and opens another; no other message ends it.
pub proof fn law_what_ends_a_contact(message: StructuredMessage)
    ensures
        ends_qso(message) <==> is_cq(message) || match message {
            StructuredMessage::Standard { info: StructuredInfoValue::Reply { word }, .. } => word
                == ReplyWord::Rr73 || word == ReplyWord::SeventyThree,
            StructuredMessage::Nonstandard { reply, .. } => reply == ReplyWord::Rr73 || reply
                == ReplyWord::SeventyThree,
            StructuredMessage::Dxpedition { .. } => true,
            _ => false,
        },
{
}

/// What a station was last heard with: a CQ counts as such before all else; RR73, also where it
/// stands as a locator, and 73 count as sign-offs; everything else keeps its sender busy.
pub proof fn law_what_a_station_was_heard_with(message: StructuredMessage)
    ensures
        ({
            let rr73 = match message {
                StructuredMessage::Standard { info, .. } => match info {
                    StructuredInfoValue::Reply { word } => word == ReplyWord::Rr73,
                    StructuredInfoValue::Grid { locator } => text::same_ignoring_case(
                        locator@,
                        "RR73"@,
                    ),
                    _ => false,
                },
                StructuredMessage::Nonstandard { reply, .. } => reply == ReplyWord::Rr73,
                _ => false,
            };
            let seventy_three = match message {
                StructuredMessage::Standard { info: StructuredInfoValue::Reply { word }, .. } => word
                    == ReplyWord::SeventyThree,
                StructuredMessage::Nonstandard { reply, .. } => reply == ReplyWord::SeventyThree,
                _ => false,
            };
            &&& message_kind(message) == StationLastMessageKind::Cq <==> is_cq(message)
            &&& message_kind(message) == StationLastMessageKind::Rr73 <==> rr73 && !is_cq(message)
            &&& message_kind(message) == StationLastMessageKind::SeventyThree <==> seventy_three
                && !is_cq(message)
        }),
{
}

/// Who sends and who is addressed: of two call fields the first names the addressee and the second
/// the sender; a nonstandard call stands where the hash beside it does not, and a CQ addresses
/// nobody.
pub proof fn law_sender_and_addressee(message: StructuredMessage)
    ensures
        message matches StructuredMessage::Standard { first, second, .. } ==> {
            &&& second.value matches StructuredCallValue::StandardCall { callsign } ==> sender_of(
                message,
            ) == Some(callsign@)
            &&& second.value is Token ==> sender_of(message) is None
            &&& second.value matches StructuredCallValue::Hash22 {
                resolved_callsign: Some(callsign),
                ..
            } ==> sender_of(message) == Some(callsign@)
            &&& first.value matches StructuredCallValue::StandardCall { callsign } ==> first_call_of(
                message,
            ) == Some(callsign@)
            &&& first.value is Token ==> first_call_of(message) is None
        },
        message matches StructuredMessage::Nonstandard {
            hashed_call,
            plain_call,
            hashed_is_second,
            cq,
            ..
        } ==> {
            &&& cq ==> sender_of(message) == Some(plain_call.callsign@) && first_call_of(message)
                is None
            &&& !cq && hashed_is_second ==> first_call_of(message) == Some(plain_call.callsign@)
                && sender_of(message) == text::text_opt(hashed_call.resolved_callsign)
            &&& !cq && !hashed_is_second ==> sender_of(message) == Some(plain_call.callsign@)
                && first_call_of(message) == text::text_opt(hashed_call.resolved_callsign)
        },
        message is FreeText || message is Unsupported ==> sender_of(message) is None && first_call_of(
            message,
        ) is None,
{
}

/// A station that calls CQ or signs off with a reply word ends what it was in; every such message
/// leaves its sender ready to be called.
pub proof fn law_sign_off_ends_and_readies(message: StructuredMessage)
    ensures
        is_cq(message) ==> ends_qso(message) && message_kind(message) == StationLastMessageKind::Cq,
        message_kind(message) == StationLastMessageKind::SeventyThree ==> ends_qso(message),
        ends_qso(message) && !(message is Dxpedition) ==> message_kind(message)
            != StationLastMessageKind::Other,
{
}

proof fn lemma_with_call(calls: Seq<Seq<char>>, call: Option<Seq<char>>)
    requires
        text::ascending(calls),
    ensures
        text::ascending(with_call(calls, call)),
        forall|c: Seq<char>| #[trigger]
            with_call(calls, call).to_set().contains(c) == (calls.to_set().contains(c) || call
                == Some(c)),
{
    if let Some(c) = call {
        text::lemma_sorted_with(calls, c);
    }
}

/// A message speaks of each station once, in ascending order, and of its sender among them.
pub proof fn law_sender_is_among_related_calls(message: StructuredMessage)
    ensures
        text::ascending(related_calls(message)),
        sender_of(message) matches Some(sender) ==> related_calls(message).contains(sender),
{
    let none = Seq::<Seq<char>>::empty();
    match message {
        StructuredMessage::Standard { first, second, .. } => {
            lemma_with_call(none, call_name(first));
            lemma_with_call(with_call(none, call_name(first)), call_name(second));
        },
        StructuredMessage::Nonstandard { hashed_call, plain_call, .. } => {
            lemma_with_call(none, Some(plain_call.callsign@));
            lemma_with_call(
                with_call(none, Some(plain_call.callsign@)),
                text::text_opt(hashed_call.resolved_callsign),
            );
        },
        StructuredMessage::Dxpedition { completed_call, next_call, hashed_call10, .. } => {
            let one = with_call(none, call_name(completed_call));
            lemma_with_call(none, call_name(completed_call));
            lemma_with_call(one, call_name(next_call));
            lemma_with_call(
                with_call(one, call_name(next_call)),
                text::text_opt(hashed_call10.resolved_callsign),
            );
        },
        StructuredMessage::FieldDay { first, second, .. } => {
            lemma_with_call(none, call_name(first));
            lemma_with_call(with_call(none, call_name(first)), call_name(second));
        },
        StructuredMessage::RttyContest { first, second, .. } => {
            lemma_with_call(none, call_name(first));
            lemma_with_call(with_call(none, call_name(first)), call_name(second));
        },
        StructuredMessage::EuVhf { hashed_call12, hashed_call22, .. } => {
            let one = with_call(none, text::text_opt(hashed_call12.resolved_callsign));
            lemma_with_call(none, text::text_opt(hashed_call12.resolved_callsign));
            lemma_with_call(one, text::text_opt(hashed_call22.resolved_callsign));
        },
        StructuredMessage::FreeText => {},
        StructuredMessage::Unsupported => {},
    }
    if let Some(sender) = sender_of(message) {
        assert(related_calls(message).to_set().contains(sender));
    }
}

/// What a message tells is shown so that it is read back: a report with its sign, behind an `R` where
/// it confirms; a locator as it is, or behind `R `; a reply as its word; and nothing, or `R`, where
/// it tells nothing.
pub proof fn law_information_is_shown(acknowledge: bool, info: StructuredInfoValue)
    ensures
        ({
            let shown = info_text(acknowledge, info);
            match info {
                StructuredInfoValue::SignalReport { db } => if acknowledge {
                    shown == seq!['R'] + text::signed_report(db as int)
                } else {
                    shown == text::signed_report(db as int)
                },
                StructuredInfoValue::Grid { locator } => if acknowledge {
                    shown == seq!['R', ' '] + locator@
                } else {
                    shown == locator@
                },
                StructuredInfoValue::Reply { word: ReplyWord::Rrr } => shown == seq!['R', 'R', 'R'],
                StructuredInfoValue::Reply { word: ReplyWord::Rr73 } => shown == seq![
                    'R',
                    'R',
                    '7',
                    '3',
                ],
                StructuredInfoValue::Reply { word: ReplyWord::SeventyThree } => shown == seq![
                    '7',
                    '3',
                ],
                StructuredInfoValue::Reply { word: ReplyWord::Blank } => shown.len() == 0,
                StructuredInfoValue::Blank => if acknowledge {
                    shown == seq!['R']
                } else {
                    shown.len() == 0
                },
            }
        }),
{
    reveal_strlit("R");
    reveal_strlit("R ");
    reveal_strlit("");
    reveal_strlit("RRR");
    reveal_strlit("RR73");
    reveal_strlit("73");
    assert("R"@ =~= seq!['R']);
    assert("R "@ =~= seq!['R', ' ']);
    assert("RRR"@ =~= seq!['R', 'R', 'R']);
    assert("RR73"@ =~= seq!['R', 'R', '7', '3']);
    assert("73"@ =~= seq!['7', '3']);
}

/// A message with two call fields is shown with its addressee in the first column of calls and its
/// sender in the second; a station with a nonstandard call that calls CQ is shown behind `CQ`.
pub proof fn law_calls_are_shown_in_order(message: StructuredMessage)
    ensures
        message matches StructuredMessage::Standard { first, second, acknowledge, info } ==> {
            let (kind, to, from, shown) = columns(message);
            &&& first.modifier is None && first_call_of(message) is Some ==> Some(to)
                == first_call_of(message)
            &&& second.modifier is None && sender_of(message) is Some ==> Some(from) == sender_of(
                message,
            )
            &&& shown == info_text(acknowledge, info)
        },
        message matches StructuredMessage::Nonstandard { plain_call, hashed_is_second, cq, .. } ==> {
            let (kind, to, from, shown) = columns(message);
            &&& cq ==> to == "CQ"@ && from == plain_call.callsign@
            &&& !cq && hashed_is_second ==> to == plain_call.callsign@
            &&& !cq && !hashed_is_second ==> from == plain_call.callsign@
        },
{
}

/// The stations that a message speaks of are its sender, its addressee and, of a compound message,
/// the one that it turns to next; nobody else.
pub proof fn law_whom_a_message_speaks_of(message: StructuredMessage, call: Seq<char>)
    requires
        message is Standard || message is Dxpedition || message is FieldDay || message is RttyContest
            || message is EuVhf || message is FreeText || message is Unsupported,
    ensures
        related_calls(message).contains(call) <==> sender_of(message) == Some(call)
            || first_call_of(message) == Some(call) || next_call_of(message) == Some(call),
{
    let none = Seq::<Seq<char>>::empty();
    assert(!none.to_set().contains(call));
    match message {
        StructuredMessage::Standard { first, second, .. } => {
            lemma_with_call(none, call_name(first));
            lemma_with_call(with_call(none, call_name(first)), call_name(second));
        },
        StructuredMessage::Dxpedition { completed_call, next_call, hashed_call10, .. } => {
            let one = with_call(none, call_name(completed_call));
            lemma_with_call(none, call_name(completed_call));
            lemma_with_call(one, call_name(next_call));
            lemma_with_call(
                with_call(one, call_name(next_call)),
                text::text_opt(hashed_call10.resolved_callsign),
            );
        },
        StructuredMessage::FieldDay { first, second, .. } => {
            lemma_with_call(none, call_name(first));
            lemma_with_call(with_call(none, call_name(first)), call_name(second));
        },
        StructuredMessage::RttyContest { first, second, .. } => {
            lemma_with_call(none, call_name(first));
            lemma_with_call(with_call(none, call_name(first)), call_name(second));
        },
        StructuredMessage::EuVhf { hashed_call12, hashed_call22, .. } => {
            let one = with_call(none, text::text_opt(hashed_call12.resolved_callsign));
            lemma_with_call(none, text::text_opt(hashed_call12.resolved_callsign));
            lemma_with_call(one, text::text_opt(hashed_call22.resolved_callsign));
        },
        _ => {},
    }
    assert(related_calls(message).to_set().contains(call) <==> related_calls(message).contains(call));
}

/// On the band map a message is shown with the first word of its token, that of the first field
/// before that of the second, and then with what it tells; a CQ of a nonstandard call with `CQ`.
pub proof fn law_what_the_band_map_shows(message: StructuredMessage)
    ensures
        message matches StructuredMessage::Standard { first, second, acknowledge, info } ==> {
            let told = info_text(acknowledge, info);
            let word = if token_of(first) is Some {
                token_of(first)
            } else {
                token_of(second)
            };
            match word {
                Some(w) => detail_of(message) == Some(
                    if told.len() == 0 {
                        w
                    } else {
                        w + seq![' '] + told
                    },
                ),
                None => detail_of(message) == (if told.len() == 0 {
                    None
                } else {
                    Some(told)
                }),
            }
        },
        message matches StructuredMessage::Nonstandard { reply: ReplyWord::Blank, cq: true, .. }
            ==> detail_of(message) == Some(seq!['C', 'Q']),
        message matches StructuredMessage::Nonstandard { reply: ReplyWord::Blank, cq: false, .. }
            ==> detail_of(message) is None,
        message is FreeText || message is Unsupported ==> detail_of(message) is None,
{
    reveal_strlit(" ");
    reveal_strlit("");
    reveal_strlit("CQ");
    assert(" "@ =~= seq![' ']);
    assert("CQ"@ =~= seq!['C', 'Q']);
    if let StructuredMessage::Standard { first, second, acknowledge, info } = message {
        let told = info_text(acknowledge, info);
        let word = if token_of(first) is Some {
            token_of(first)
        } else {
            token_of(second)
        };
        let none = Seq::<Seq<char>>::empty();
        if let Some(w) = word {
            let two = none.push(w).push(told);
            assert(two.drop_last() =~= none.push(w));
            assert(text::joined(none.push(w), " "@) == w);
            assert(text::joined(two, " "@) == w + " "@ + told);
        } else {
            assert(text::joined(none.push(told), " "@) == told);
        }
    }
    if message is Nonstandard {
        let none = Seq::<Seq<char>>::empty();
        assert(text::joined(none.push("CQ"@), " "@) == "CQ"@);
    }
}

/// A call that came as a hash is shown in angle brackets, with dots where the call is not known; one
/// in a call field is shown with its modifier behind a stroke.
pub proof fn law_how_calls_are_shown(call: Seq<char>, field: StructuredCallField)
    ensures
        bracketed(Some(call)) == seq!['<'] + call + seq!['>'],
        bracketed(None) == seq!['<', '.', '.', '.', '>'],
        call_name(field) matches Some(name) ==> {
            &&& field.modifier is None ==> call_text(field) == name
            &&& field.modifier == Some(CallModifier::R) ==> call_text(field) == name + seq!['/', 'R']
            &&& field.modifier == Some(CallModifier::P) ==> call_text(field) == name + seq!['/', 'P']
        },
{
    reveal_strlit("<");
    reveal_strlit(">");
    reveal_strlit("<...>");
    reveal_strlit("/R");
    reveal_strlit("/P");
    assert("<"@ =~= seq!['<']);
    assert(">"@ =~= seq!['>']);
    assert("<...>"@ =~= seq!['<', '.', '.', '.', '>']);
    assert("/R"@ =~= seq!['/', 'R']);
    assert("/P"@ =~= seq!['/', 'P']);
}

} // verus!
