//! What is read from the text of a message: whom it is from and to, and what was exchanged.

use vstd::prelude::*;
use vstd::string::*;

use crate::text;

verus! {

/// `s` without the characters `c` at its start.
pub open spec fn without_leading(s: Seq<char>, c: char) -> Seq<char>
    decreases s.len(),
{
    if s.len() > 0 && s[0] == c {
        without_leading(s.drop_first(), c)
    } else {
        s
    }
}

/// `s` without the characters `c` at its end.
pub open spec fn without_trailing(s: Seq<char>, c: char) -> Seq<char>
    decreases s.len(),
{
    if s.len() > 0 && s.last() == c {
        without_trailing(s.drop_last(), c)
    } else {
        s
    }
}

/// `s` without the angle brackets around it.
pub open spec fn unbracketed(s: Seq<char>) -> Seq<char> {
    without_trailing(without_leading(s, '<'), '>')
}

pub fn strip_brackets(token: &str) -> (r: String)
    ensures
        r@ == unbracketed(token@),
{
    let s = text::chars_of(token);
    let mut i: usize = 0;
    assert(s@.skip(0) =~= s@);
    while i < s.len() && s[i] == '<'
        invariant
            i <= s@.len(),
            without_leading(s@.skip(i as int), '<') == without_leading(s@, '<'),
        decreases s@.len() - i,
    {
        assert(s@.skip(i as int).drop_first() =~= s@.skip(i + 1));
        i += 1;
    }
    assert(without_leading(s@, '<') == s@.skip(i as int));
    let mut j: usize = s.len();
    assert(s@.subrange(i as int, j as int) =~= s@.skip(i as int));
    while i < j && s[j - 1] == '>'
        invariant
            i <= j <= s@.len(),
            without_trailing(s@.subrange(i as int, j as int), '>') == without_trailing(
                s@.skip(i as int),
                '>',
            ),
        decreases j,
    {
        assert(s@.subrange(i as int, j as int).drop_last() =~= s@.subrange(i as int, j - 1));
        assert(s@.subrange(i as int, j as int).last() == s@[j - 1]);
        j -= 1;
    }
    proof {
        if i < j {
            assert(s@.subrange(i as int, j as int).last() == s@[j - 1]);
        }
    }
    text::string_of(&s, i, j)
}

/// The word is one of those that close a contact.
pub open spec fn is_sign_off(word: Seq<char>) -> bool {
    word == "73"@ || word == "RR73"@ || word == "RRR"@
}

fn signs_off(word: &str) -> (r: bool)
    ensures
        r == is_sign_off(word@),
{
    text::str_eq(word, "73") || text::str_eq(word, "RR73") || text::str_eq(word, "RRR")
}

/// The third word of a message in capitals, unless it signs off.
pub open spec fn exchange_info(s: Seq<char>) -> Option<Seq<char>> {
    let words = text::words(s);
    if words.len() < 3 {
        None
    } else {
        let info = text::uppercased(text::trimmed(words[2]));
        if info.len() == 0 || is_sign_off(info) {
            None
        } else {
            Some(info)
        }
    }
}

pub fn extract_exchange_info(text: &str) -> (r: Option<String>)
    ensures
        text::text_opt(r) == exchange_info(text@),
{
    let words = text::split_words(text);
    assert(text::texts(words@).len() == words@.len());
    if words.len() < 3 {
        return None;
    }
    assert(text::texts(words@)[2] == words@[2]@);
    let trimmed = text::trim(words[2].as_str());
    let info = text::to_uppercase(trimmed.as_str());
    if text::is_empty_text(info.as_str()) || signs_off(info.as_str()) {
        None
    } else {
        Some(info)
    }
}

/// The text holds a compound message: `RR73;` to one station and a report to the next.
pub open spec fn is_compound(s: Seq<char>) -> bool {
    text::after_first(s, " RR73; "@) is Some
}

/// What we sent as our part of the exchange. The report of a compound message belongs to the next
/// station, so it counts only in the contact with that one.
pub open spec fn sent_info(
    s: Seq<char>,
    event: Seq<char>,
    partner: Seq<char>,
    compound_next: Seq<char>,
) -> Option<Seq<char>> {
    if is_compound(s) {
        if event == "compound_start"@ || (compound_next.len() > 0 && text::same_ignoring_case(
            compound_next,
            partner,
        )) {
            let words = text::words(s);
            if words.len() == 0 {
                None
            } else {
                let report = text::uppercased(text::trimmed(words.last()));
                if report.len() == 0 {
                    None
                } else {
                    Some(report)
                }
            }
        } else {
            None
        }
    } else {
        exchange_info(s)
    }
}

pub fn extract_tx_exchange_info(
    text: &str,
    event: &str,
    partner_call: &str,
    compound_next_call: &str,
) -> (r: Option<String>)
    ensures
        text::text_opt(r) == sent_info(text@, event@, partner_call@, compound_next_call@),
{
    if text::split_after(text, " RR73; ").is_some() {
        if text::str_eq(event, "compound_start") || (!text::is_empty_text(compound_next_call)
            && text::eq_ignore_ascii_case(compound_next_call, partner_call)) {
            let words = text::split_words(text);
            assert(text::texts(words@).len() == words@.len());
            if words.len() == 0 {
                return None;
            }
            let last: usize = words.len() - 1;
            assert(text::texts(words@).last() == words@[last as int]@);
            let trimmed = text::trim(words[last].as_str());
            let report = text::to_uppercase(trimmed.as_str());
            if text::is_empty_text(report.as_str()) {
                None
            } else {
                Some(report)
            }
        } else {
            None
        }
    } else {
        extract_exchange_info(text)
    }
}

/// The first two words of a message: to whom, and from whom.
pub open spec fn two_calls(s: Seq<char>) -> Option<(Seq<char>, Seq<char>)> {
    let words = text::words(s);
    if words.len() < 2 {
        None
    } else {
        let to = text::trimmed(words[0]);
        let from = text::trimmed(words[1]);
        if to.len() == 0 || from.len() == 0 {
            None
        } else {
            Some((to, from))
        }
    }
}

/// The two calls of the part of a compound message that is for the next station.
pub open spec fn compound_calls(rest: Seq<char>) -> Option<(Seq<char>, Seq<char>)> {
    let words = text::words(rest);
    if words.len() < 2 {
        None
    } else {
        Some((text::trimmed(words[0]), unbracketed(text::trimmed(words[1]))))
    }
}

/// To whom and from whom a message is. A compound message counts for the next station.
pub open spec fn direct_calls(s: Seq<char>) -> Option<(Seq<char>, Seq<char>)> {
    match text::after_first(s, " RR73; "@) {
        Some(rest) => match compound_calls(rest) {
            None => None,
            Some((to, from)) => if to.len() > 0 && from.len() > 0 {
                Some((to, from))
            } else {
                two_calls(s)
            },
        },
        None => two_calls(s),
    }
}

pub open spec fn pair_opt(pair: Option<(String, String)>) -> Option<(Seq<char>, Seq<char>)> {
    match pair {
        Some((a, b)) => Some((a@, b@)),
        None => None,
    }
}

fn first_two(text: &str) -> (r: Option<(String, String)>)
    ensures
        pair_opt(r) == two_calls(text@),
{
    let words = text::split_words(text);
    assert(text::texts(words@).len() == words@.len());
    if words.len() < 2 {
        return None;
    }
    assert(text::texts(words@)[0] == words@[0]@);
    assert(text::texts(words@)[1] == words@[1]@);
    let to_call = text::trim(words[0].as_str());
    let from_call = text::trim(words[1].as_str());
    if text::is_empty_text(to_call.as_str()) || text::is_empty_text(from_call.as_str()) {
        None
    } else {
        Some((to_call, from_call))
    }
}

pub fn parse_direct_message_calls(text: &str) -> (r: Option<(String, String)>)
    ensures
        pair_opt(r) == direct_calls(text@),
{
    if let Some(rest) = text::split_after(text, " RR73; ") {
        let words = text::split_words(rest.as_str());
        assert(text::texts(words@).len() == words@.len());
        if words.len() < 2 {
            return None;
        }
        assert(text::texts(words@)[0] == words@[0]@);
        assert(text::texts(words@)[1] == words@[1]@);
        let to_call = text::trim(words[0].as_str());
        let trimmed = text::trim(words[1].as_str());
        let from_call = strip_brackets(trimmed.as_str());
        if !text::is_empty_text(to_call.as_str()) && !text::is_empty_text(from_call.as_str()) {
            return Some((to_call, from_call));
        }
    }
    first_two(text)
}

/// `values` with `value` at the end, unless it is among them.
pub open spec fn with_unique(values: Seq<Seq<char>>, value: Seq<char>) -> Seq<Seq<char>> {
    if values.contains(value) {
        values
    } else {
        values.push(value)
    }
}

pub fn push_unique_info(values: &mut Vec<String>, value: String)
    ensures
        text::texts(final(values)@) == with_unique(text::texts(old(values)@), value@),
{
    let ghost all = text::texts(values@);
    let mut i: usize = 0;
    while i < values.len()
        invariant
            i <= values@.len(),
            values == old(values),
            all == text::texts(values@),
            forall|k: int| 0 <= k < i ==> #[trigger] all[k] != value@,
        decreases values@.len() - i,
    {
        assert(all[i as int] == values@[i as int]@);
        if text::str_eq(values[i].as_str(), value.as_str()) {
            assert(all.contains(value@));
            return ;
        }
        i += 1;
    }
    values.push(value);
    assert(text::texts(values@) =~= all.push(value@));
    assert(!all.contains(value@));
}

/// What one side of an exchange amounts to.
#[derive(Debug)]
pub enum ExchangeInfo {
    Grid(String),
    Report(String),
}

pub enum ExchangeModel {
    Grid(Seq<char>),
    Report(Seq<char>),
}

impl View for ExchangeInfo {
    type V = ExchangeModel;

    open spec fn view(&self) -> ExchangeModel {
        match self {
            ExchangeInfo::Grid(grid) => ExchangeModel::Grid(grid@),
            ExchangeInfo::Report(report) => ExchangeModel::Report(report@),
        }
    }
}

pub open spec fn exchange_opt(info: Option<ExchangeInfo>) -> Option<ExchangeModel> {
    match info {
        Some(i) => Some(i@),
        None => None,
    }
}

pub open spec fn is_digit(c: char) -> bool {
    '0' <= c <= '9'
}

/// The report in a word: a sign and two digits, with or without a leading `R`.
pub open spec fn report_of(token: Seq<char>) -> Option<Seq<char>> {
    let raw = if token.len() > 0 && token[0] == 'R' {
        token.drop_first()
    } else {
        token
    };
    if raw.len() == 3 && (raw[0] == '+' || raw[0] == '-') && is_digit(raw[1]) && is_digit(raw[2]) {
        Some(raw)
    } else {
        None
    }
}

pub fn normalize_signal_report(token: &str) -> (r: Option<String>)
    ensures
        text::text_opt(r) == report_of(token@),
{
    let s = text::chars_of(token);
    let from: usize = if s.len() > 0 && s[0] == 'R' {
        1
    } else {
        0
    };
    let ghost raw = s@.skip(from as int);
    assert(from == 1 ==> raw =~= s@.drop_first());
    assert(from == 0 ==> raw =~= s@);
    if s.len() - from != 3 {
        return None;
    }
    if s[from] != '+' && s[from] != '-' {
        return None;
    }
    if !('0' <= s[from + 1] && s[from + 1] <= '9') || !('0' <= s[from + 2] && s[from + 2] <= '9') {
        return None;
    }
    let report = text::string_of(&s, from, s.len());
    assert(report@ =~= raw);
    Some(report)
}

pub open spec fn between(c: char, low: char, high: char) -> bool {
    low <= c <= high
}

/// A locator: two letters up to R, two digits, and possibly two letters up to X.
pub open spec fn is_grid(token: Seq<char>) -> bool {
    &&& token.len() == 4 || token.len() == 6
    &&& between(token[0], 'A', 'R')
    &&& between(token[1], 'A', 'R')
    &&& is_digit(token[2])
    &&& is_digit(token[3])
    &&& token.len() == 6 ==> between(token[4], 'A', 'X') && between(token[5], 'A', 'X')
}

fn in_range(c: char, low: char, high: char) -> (r: bool)
    ensures
        r == between(c, low, high),
{
    low <= c && c <= high
}

pub fn is_gridsquare(token: &str) -> (r: bool)
    ensures
        r == is_grid(token@),
{
    let s = text::chars_of(token);
    if !(s.len() == 4 || s.len() == 6) {
        return false;
    }
    in_range(s[0], 'A', 'R') && in_range(s[1], 'A', 'R') && in_range(s[2], '0', '9') && in_range(
        s[3],
        '0',
        '9',
    ) && (s.len() == 4 || (in_range(s[4], 'A', 'X') && in_range(s[5], 'A', 'X')))
}

/// What a word of an exchange amounts to: a report, a locator, or nothing.
pub open spec fn classified(token: Seq<char>) -> Option<ExchangeModel> {
    let word = text::uppercased(text::trimmed(token));
    if word.len() == 0 || is_sign_off(word) {
        None
    } else {
        match report_of(word) {
            Some(report) => Some(ExchangeModel::Report(report)),
            None => if is_grid(word) {
                Some(ExchangeModel::Grid(word))
            } else {
                None
            },
        }
    }
}

pub fn classify_exchange_token(token: &str) -> (r: Option<ExchangeInfo>)
    ensures
        exchange_opt(r) == classified(token@),
{
    let trimmed = text::trim(token);
    let word = text::to_uppercase(trimmed.as_str());
    if text::is_empty_text(word.as_str()) || signs_off(word.as_str()) {
        return None;
    }
    match normalize_signal_report(word.as_str()) {
        Some(report) => Some(ExchangeInfo::Report(report)),
        None => if is_gridsquare(word.as_str()) {
            Some(ExchangeInfo::Grid(word))
        } else {
            None
        },
    }
}

/// What the third word of a message amounts to.
pub open spec fn third_word(s: Seq<char>) -> Option<ExchangeModel> {
    if text::words(s).len() < 3 {
        None
    } else {
        classified(text::words(s)[2])
    }
}

pub fn classify_exchange_info(text: &str) -> (r: Option<ExchangeInfo>)
    ensures
        exchange_opt(r) == third_word(text@),
{
    let words = text::split_words(text);
    assert(text::texts(words@).len() == words@.len());
    if words.len() < 3 {
        return None;
    }
    assert(text::texts(words@)[2] == words@[2]@);
    classify_exchange_token(words[2].as_str())
}

/// A call in capitals, without brackets and space around it.
pub open spec fn plain_call(token: Seq<char>) -> Option<Seq<char>> {
    let inner = text::trimmed(unbracketed(text::trimmed(token)));
    if inner.len() == 0 {
        None
    } else {
        Some(text::uppercased(inner))
    }
}

pub fn normalize_call_token(token: &str) -> (r: Option<String>)
    ensures
        text::text_opt(r) == plain_call(token@),
{
    let trimmed = text::trim(token);
    let bare = strip_brackets(trimmed.as_str());
    let inner = text::trim(bare.as_str());
    if text::is_empty_text(inner.as_str()) {
        None
    } else {
        Some(text::to_uppercase(inner.as_str()))
    }
}

/// Our own call as it stands in a text that we sent: the second word, of a compound message the
/// second of the part for the next station.
pub open spec fn sending_call(s: Seq<char>) -> Option<Seq<char>> {
    let part = match text::after_first(s, " RR73; "@) {
        Some(rest) => rest,
        None => s,
    };
    if s.len() == 0 || text::words(part).len() < 2 {
        None
    } else {
        plain_call(text::words(part)[1])
    }
}

fn second_call(part: &str) -> (r: Option<String>)
    ensures
        text::text_opt(r) == (if text::words(part@).len() < 2 {
            None
        } else {
            plain_call(text::words(part@)[1])
        }),
{
    let words = text::split_words(part);
    assert(text::texts(words@).len() == words@.len());
    if words.len() < 2 {
        return None;
    }
    assert(text::texts(words@)[1] == words@[1]@);
    normalize_call_token(words[1].as_str())
}

pub fn extract_station_call_from_tx_text(text: &str) -> (r: Option<String>)
    ensures
        text::text_opt(r) == sending_call(text@),
{
    if text::is_empty_text(text) {
        return None;
    }
    match text::split_after(text, " RR73; ") {
        Some(rest) => second_call(rest.as_str()),
        None => second_call(text),
    }
}

/// The call to which a received text is addressed, unless it is a CQ.
pub open spec fn addressed_call(s: Seq<char>) -> Option<Seq<char>> {
    if text::words(s).len() == 0 || text::same_ignoring_case(text::words(s)[0], "CQ"@) {
        None
    } else {
        plain_call(text::words(s)[0])
    }
}

pub fn extract_station_call_from_rx_text(text: &str) -> (r: Option<String>)
    ensures
        text::text_opt(r) == addressed_call(text@),
{
    let words = text::split_words(text);
    assert(text::texts(words@).len() == words@.len());
    if words.len() == 0 {
        return None;
    }
    assert(text::texts(words@)[0] == words@[0]@);
    if text::eq_ignore_ascii_case(words[0].as_str(), "CQ") {
        return None;
    }
    normalize_call_token(words[0].as_str())
}

/// A report is a sign and two digits, and a word holds it as it is or behind an `R`.
pub proof fn law_what_a_report_is(token: Seq<char>, report: Seq<char>)
    ensures
        report_of(token) == Some(report) <==> {
            &&& token == report || token == seq!['R'] + report
            &&& report.len() == 3
            &&& report[0] == '+' || report[0] == '-'
            &&& '0' <= report[1] <= '9'
            &&& '0' <= report[2] <= '9'
        },
{
    if token.len() > 0 && token[0] == 'R' {
        assert(token =~= seq!['R'] + token.drop_first());
    }
    if token == seq!['R'] + report {
        assert(token.drop_first() =~= report);
    }
}

/// A locator is two letters from A to R and two digits, and may go on with two letters from A to X.
pub proof fn law_what_a_locator_is(field: Seq<char>, a: char, b: char)
    requires
        field.len() == 4,
    ensures
        is_grid(field) <==> 'A' <= field[0] <= 'R' && 'A' <= field[1] <= 'R' && '0' <= field[2]
            <= '9' && '0' <= field[3] <= '9',
        is_grid(field + seq![a, b]) <==> is_grid(field) && 'A' <= a <= 'X' && 'A' <= b <= 'X',
        forall|other: Seq<char>| #[trigger]
            is_grid(other) ==> other.len() == 4 || other.len() == 6,
{
    let longer = field + seq![a, b];
    assert(longer[0] == field[0] && longer[1] == field[1] && longer[2] == field[2] && longer[3]
        == field[3] && longer[4] == a && longer[5] == b);
}

/// 73, RR73 and RRR are no part of the exchange, though RR73 has the shape of a locator; any other
/// third word is, whatever its case.
pub proof fn law_sign_off_is_no_exchange(message: Seq<char>)
    ensures
        ({
            let words = text::words(message);
            let word = text::uppercased(text::trimmed(words[2]));
            &&& exchange_info(message) is Some <==> words.len() >= 3 && word.len() > 0 && word
                != "73"@ && word != "RR73"@ && word != "RRR"@
            &&& exchange_info(message) matches Some(info) ==> info == word
            &&& third_word(message) is Some ==> exchange_info(message) == Some(word)
            &&& third_word(message) matches Some(ExchangeModel::Report(report)) ==> word == report
                || word == seq!['R'] + report
            &&& third_word(message) matches Some(ExchangeModel::Grid(grid)) ==> word == grid
                && is_grid(grid)
        }),
{
    let words = text::words(message);
    let word = text::uppercased(text::trimmed(words[2]));
    if let Some(ExchangeModel::Report(report)) = third_word(message) {
        law_what_a_report_is(word, report);
    }
}

/// The report in a compound message that we sent is the last word of it and belongs to the station
/// that it opens a contact with, not to the one whose contact it closes.
pub proof fn law_compound_report_is_for_the_next_station(
    message: Seq<char>,
    event: Seq<char>,
    partner: Seq<char>,
    next: Seq<char>,
)
    requires
        text::after_first(message, " RR73; "@) is Some,
        text::words(message).len() > 0,
        text::uppercased(text::trimmed(text::words(message).last())).len() > 0,
    ensures
        event == "compound_start"@ ==> sent_info(message, event, partner, next) == Some(
            text::uppercased(text::trimmed(text::words(message).last())),
        ),
        event != "compound_start"@ && next.len() > 0 && text::same_ignoring_case(next, partner)
            ==> sent_info(message, event, partner, next) == Some(
            text::uppercased(text::trimmed(text::words(message).last())),
        ),
        event != "compound_start"@ && !text::same_ignoring_case(next, partner) ==> sent_info(
            message,
            event,
            partner,
            next,
        ) is None,
{
}

/// A report that is written is read back, with or without the `R` that confirms.
pub proof fn law_written_report_is_read_back(db: int)
    requires
        -100 < db < 100,
    ensures
        report_of(text::signed_report(db)) == Some(text::signed_report(db)),
        report_of(seq!['R'] + text::signed_report(db)) == Some(text::signed_report(db)),
{
    text::law_report_stands_for_its_number(db);
    let report = text::signed_report(db);
    let digits = report.drop_first();
    assert(digits[0] == report[1] && digits[1] == report[2]);
    assert('0' <= digits[0] <= '9' && '0' <= digits[1] <= '9');
    law_what_a_report_is(report, report);
    law_what_a_report_is(seq!['R'] + report, report);
}

/// A message of plain words is to its first word and from its second.
pub proof fn law_message_is_to_its_first_word(message: Seq<char>)
    requires
        text::after_first(message, " RR73; "@) is None,
        text::words(message).len() >= 2,
        text::trimmed(text::words(message)[0]).len() > 0,
        text::trimmed(text::words(message)[1]).len() > 0,
    ensures
        direct_calls(message) == Some(
            (text::trimmed(text::words(message)[0]), text::trimmed(text::words(message)[1])),
        ),
{
}

/// A compound message is to the station that it opens a contact with: to the first word behind
/// `RR73;`, and from the second, without the brackets round it.
pub proof fn law_compound_message_is_to_the_next_station(
    message: Seq<char>,
    rest: Seq<char>,
    to: Seq<char>,
    from: Seq<char>,
)
    requires
        text::after_first(message, " RR73; "@) == Some(rest),
        text::words(rest).len() >= 2,
        to == text::trimmed(text::words(rest)[0]),
        from == unbracketed(text::trimmed(text::words(rest)[1])),
        to.len() > 0,
        from.len() > 0,
    ensures
        direct_calls(message) == Some((to, from)),
        sending_call(message) == plain_call(text::words(rest)[1]),
{
    reveal_strlit(" RR73; ");
}

/// A piece of an exchange is noted once, in the order in which the pieces first came.
pub proof fn law_infos_are_noted_once(values: Seq<Seq<char>>, value: Seq<char>)
    requires
        values.no_duplicates(),
    ensures
        with_unique(values, value).no_duplicates(),
        with_unique(values, value).contains(value),
        with_unique(values, value).take(values.len() as int) == values,
        with_unique(values, value).len() <= values.len() + 1,
{
    assert(with_unique(values, value).take(values.len() as int) =~= values);
    if !values.contains(value) {
        assert(with_unique(values, value).last() == value);
        assert(with_unique(values, value)[values.len() as int] == value);
    }
}

/// Brackets round a call are no part of it.
pub proof fn law_brackets_are_taken_off(call: Seq<char>)
    requires
        call.len() > 0,
        call[0] != '<',
        call.last() != '>',
    ensures
        unbracketed(call) == call,
        unbracketed(seq!['<'] + call + seq!['>']) == call,
{
    let whole = seq!['<'] + call + seq!['>'];
    let rest = call + seq!['>'];
    assert(whole.drop_first() =~= rest);
    assert(whole[0] == '<');
    assert(rest[0] == call[0]);
    assert(without_leading(whole, '<') == without_leading(rest, '<'));
    assert(without_leading(rest, '<') == rest);
    assert(rest.last() == '>');
    assert(rest.drop_last() =~= call);
    assert(without_trailing(rest, '>') == without_trailing(call, '>'));
    assert(without_trailing(call, '>') == call);
}

/// A text that was received is addressed to its first word; a CQ is addressed to nobody.
pub proof fn law_whom_a_text_is_addressed_to(message: Seq<char>)
    requires
        text::words(message).len() > 0,
    ensures
        text::same_ignoring_case(text::words(message)[0], "CQ"@) ==> addressed_call(message) is None,
        !text::same_ignoring_case(text::words(message)[0], "CQ"@) ==> addressed_call(message)
            == plain_call(text::words(message)[0]),
{
}

/// Where the part of a compound message for the next station has only brackets for a sender, the
/// message counts by its first two words.
pub proof fn law_compound_message_without_a_sender(message: Seq<char>, rest: Seq<char>)
    requires
        text::after_first(message, " RR73; "@) == Some(rest),
        text::words(rest).len() >= 2,
        unbracketed(text::trimmed(text::words(rest)[1])).len() == 0,
        text::words(message).len() >= 2,
        text::trimmed(text::words(message)[0]).len() > 0,
        text::trimmed(text::words(message)[1]).len() > 0,
    ensures
        direct_calls(message) == Some(
            (text::trimmed(text::words(message)[0]), text::trimmed(text::words(message)[1])),
        ),
{
}

} // verus!
