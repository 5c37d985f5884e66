//! What an export has to say of the contacts that it found.

use std::collections::BTreeSet;

use vstd::prelude::*;
use vstd::string::*;

use crate::adif;
use crate::adif::{AdifExportReport, AdifModel, AdifRecord, IneligibleModel, IneligibleQso};
use crate::clock;
use crate::lines;
use crate::log_record;
use crate::log_record::{JsonMember, MemberModel};
use crate::text;
use crate::text_map::TextMap;

verus! {

/// The country and the award entity of a call.
#[derive(Debug)]
pub struct CtyLookup {
    pub call: String,
    pub country: String,
    pub dxcc_adif: u32,
}

#[verifier::ext_equal]
pub struct CtyModel {
    pub call: Seq<char>,
    pub country: Seq<char>,
    pub dxcc: u32,
}

impl View for CtyLookup {
    type V = CtyModel;

    open spec fn view(&self) -> CtyModel {
        CtyModel { call: self.call@, country: self.country@, dxcc: self.dxcc_adif }
    }
}

pub open spec fn cty_models(lookups: Seq<CtyLookup>) -> Seq<CtyModel> {
    lookups.map_values(|l: CtyLookup| l@)
}

/// What one member of a lookup's answer tells: nothing, unless it has a country and an entity number
/// that fits.
pub open spec fn cty_in(member: MemberModel) -> Option<CtyModel> {
    match member.members {
        Some(leaves) => match (
            log_record::leaf_text(leaves, "country"@),
            log_record::leaf_number(leaves, "dxcc_adif"@),
        ) {
            (Some(country), Some(dxcc)) => if dxcc <= u32::MAX {
                Some(CtyModel { call: member.key, country, dxcc: dxcc as u32 })
            } else {
                None
            },
            _ => None,
        },
        None => None,
    }
}

pub open spec fn cty_among(members: Seq<MemberModel>) -> Seq<CtyModel>
    decreases members.len(),
{
    if members.len() == 0 {
        Seq::empty()
    } else {
        let earlier = cty_among(members.drop_last());
        match cty_in(members.last()) {
            Some(found) => earlier.push(found),
            None => earlier,
        }
    }
}

fn cty_from_member(member: &JsonMember) -> (r: Option<CtyLookup>)
    ensures
        (match r {
            Some(l) => Some(l@),
            None => None,
        }) == cty_in(member@),
{
    let leaves = match &member.members {
        Some(leaves) => leaves,
        None => {
            return None;
        },
    };
    match (
        log_record::find_text(leaves, "country"),
        log_record::find_number(leaves, "dxcc_adif"),
    ) {
        (Some(country), Some(dxcc)) => if dxcc <= u32::MAX as u64 {
            Some(CtyLookup { call: member.key.clone(), country, dxcc_adif: dxcc as u32 })
        } else {
            None
        },
        _ => None,
    }
}

/// Reads the answer of a lookup from its members.
pub fn cty_from_members(members: &Vec<JsonMember>) -> (r: Vec<CtyLookup>)
    ensures
        cty_models(r@) == cty_among(log_record::member_models(members@)),
{
    let ghost all = log_record::member_models(members@);
    let mut r: Vec<CtyLookup> = Vec::new();
    let mut i: usize = 0;
    assert(cty_models(r@) =~= cty_among(all.take(0)));
    while i < members.len()
        invariant
            i <= members@.len(),
            all == log_record::member_models(members@),
            cty_models(r@) == cty_among(all.take(i as int)),
        decreases members@.len() - i,
    {
        let ghost before = cty_models(r@);
        assert(all.take(i + 1).drop_last() =~= all.take(i as int));
        assert(all.take(i + 1).last() == members@[i as int]@);
        if let Some(found) = cty_from_member(&members[i]) {
            r.push(found);
            assert(cty_models(r@) =~= before.push(found@));
        }
        i += 1;
    }
    assert(all.take(i as int) =~= all);
    r
}

/// Reads the answer of a lookup; nothing where it is no JSON object.
pub fn parse_cty_lookups(output: &str) -> (r: Option<Vec<CtyLookup>>)
    ensures
        match (r, log_record::json_members(output@)) {
            (Some(lookups), Some(members)) => cty_models(lookups@) == cty_among(members),
            (None, None) => true,
            _ => false,
        },
{
    match log_record::parse_members(output) {
        Some(members) => Some(cty_from_members(&members)),
        None => None,
    }
}

/// The reasons that occur, each once, in ascending order.
pub open spec fn reasons(sessions: Seq<IneligibleModel>) -> Seq<Seq<char>>
    decreases sessions.len(),
{
    if sessions.len() == 0 {
        Seq::empty()
    } else {
        text::sorted_with(reasons(sessions.drop_last()), sessions.last().reason)
    }
}

/// How many contacts were refused for that reason.
pub open spec fn reason_count(sessions: Seq<IneligibleModel>, reason: Seq<char>) -> nat {
    sessions.filter(|s: IneligibleModel| s.reason == reason).len()
}

pub open spec fn reason_line(sessions: Seq<IneligibleModel>, reason: Seq<char>) -> Seq<char> {
    "  "@ + lines::right_aligned(text::decimal(reason_count(sessions, reason)), 3) + ("  "@ + reason)
}

/// When a refused contact was.
pub open spec fn when_text(s: IneligibleModel) -> Seq<char> {
    match adif::or_time(s.started, s.ended) {
        Some(t) => clock::written(t, clock::TimeStyle::DateTime),
        None => "-"@,
    }
}

pub open spec fn session_line(s: IneligibleModel) -> Seq<char> {
    "  "@ + when_text(s) + ("  #"@ + text::decimal(s.session_id as nat)) + ("  "@ + s.call) + ("  "@
        + s.reason)
}

pub open spec fn grids_of(records: Seq<AdifModel>) -> Set<Seq<char>> {
    Set::new(
        |g: Seq<char>|
            exists|i: int| 0 <= i < records.len() && (#[trigger] records[i]).grid == Some(g),
    )
}

pub open spec fn countries_of(lookups: Seq<CtyModel>) -> Set<Seq<char>> {
    Set::new(
        |c: Seq<char>|
            exists|i: int| 0 <= i < lookups.len() && (#[trigger] lookups[i]).country == c,
    )
}

pub open spec fn entities_of(lookups: Seq<CtyModel>) -> Set<u32> {
    Set::new(
        |d: u32| exists|i: int| 0 <= i < lookups.len() && (#[trigger] lookups[i]).dxcc == d,
    )
}

/// The lines on the contacts that were refused.
pub open spec fn refused_lines(sessions: Seq<IneligibleModel>) -> Seq<Seq<char>> {
    if sessions.len() == 0 {
        Seq::empty()
    } else {
        seq!["Ineligible summary:"@] + reasons(sessions).map_values(
            |r: Seq<char>| reason_line(sessions, r),
        ) + seq!["Ineligible QSOs:"@] + sessions.map_values(|s: IneligibleModel| session_line(s))
    }
}

pub open spec fn head_line(eligible: nat, ineligible: nat) -> Seq<char> {
    "ADIF export status: "@ + text::decimal(eligible) + (" eligible, "@ + text::decimal(ineligible)
        + " ineligible"@)
}

/// The line on what was found among the contacts to export. Where calls could not be looked up, it
/// tells why.
pub open spec fn found_line(
    records: Seq<AdifModel>,
    lookups: Result<Seq<CtyModel>, Seq<char>>,
) -> Seq<char> {
    let grids = "Eligible summary: "@ + text::decimal(grids_of(records).len());
    match lookups {
        Ok(found) => grids + (" unique grids, "@ + text::decimal(countries_of(found).len())
            + " unique countries, "@) + (text::decimal(entities_of(found).len())
            + " unique DXCC entities"@),
        Err(error) => grids + (" unique grids; country/DXCC summary unavailable ("@ + error + ")"@),
    }
}

fn reason_list(sessions: &Vec<IneligibleQso>) -> (r: Vec<String>)
    ensures
        text::texts(r@) == reasons(adif::ineligible_models(sessions@)),
{
    let ghost all = adif::ineligible_models(sessions@);
    let mut r: Vec<String> = Vec::new();
    let mut i: usize = 0;
    assert(text::texts(r@) =~= reasons(all.take(0)));
    while i < sessions.len()
        invariant
            i <= sessions@.len(),
            all == adif::ineligible_models(sessions@),
            text::texts(r@) == reasons(all.take(i as int)),
        decreases sessions@.len() - i,
    {
        assert(all.take(i + 1).drop_last() =~= all.take(i as int));
        assert(all.take(i + 1).last() == sessions@[i as int]@);
        text::insert_sorted(&mut r, sessions[i].reason.clone());
        i += 1;
    }
    assert(all.take(i as int) =~= all);
    r
}

fn count_reason(sessions: &Vec<IneligibleQso>, reason: &str) -> (r: usize)
    ensures
        r == reason_count(adif::ineligible_models(sessions@), reason@),
{
    let ghost all = adif::ineligible_models(sessions@);
    let ghost pred = |s: IneligibleModel| s.reason == reason@;
    let mut r: usize = 0;
    let mut i: usize = 0;
    proof {
        reveal(Seq::filter);
        assert(all.take(0).filter(pred).len() == 0);
    }
    while i < sessions.len()
        invariant
            i <= sessions@.len(),
            r <= i,
            all == adif::ineligible_models(sessions@),
            pred == (|s: IneligibleModel| s.reason == reason@),
            r == all.take(i as int).filter(pred).len(),
        decreases sessions@.len() - i,
    {
        proof {
            assert(all[i as int] == sessions@[i as int]@);
            all.take(i as int).lemma_filter_push(all[i as int], pred);
            assert(all.take(i + 1) =~= all.take(i as int).push(all[i as int]));
        }
        if text::str_eq(sessions[i].reason.as_str(), reason) {
            r += 1;
        }
        i += 1;
    }
    assert(all.take(i as int) =~= all);
    r
}

fn session_text(s: &IneligibleQso) -> (r: String)
    requires
        clock::displayable_opt(adif::or_time(s@.started, s@.ended)),
    ensures
        r@ == session_line(s@),
{
    let when = match (s.started_at, s.ended_at) {
        (Some(t), _) => clock::format_datetime(t),
        (None, Some(t)) => clock::format_datetime(t),
        (None, None) => "-".to_owned(),
    };
    let mut r = text::cat2("  ", when.as_str());
    r.append(text::cat2("  #", text::decimal_text(s.session_id).as_str()).as_str());
    r.append(text::cat2("  ", s.call.as_str()).as_str());
    r.append(text::cat2("  ", s.reason.as_str()).as_str());
    r
}

fn reason_text(sessions: &Vec<IneligibleQso>, reason: &str) -> (r: String)
    ensures
        r@ == reason_line(adif::ineligible_models(sessions@), reason@),
{
    let count: usize = count_reason(sessions, reason);
    let number = text::decimal_text(count as u64);
    let aligned = lines::align_right(number.as_str(), 3);
    text::cat3("  ", aligned.as_str(), text::cat2("  ", reason).as_str())
}

/// Every time in the report can be shown.
pub open spec fn report_displayable(report: AdifExportReport) -> bool {
    forall|i: int|
        0 <= i < report.ineligible_sessions@.len() ==> clock::displayable_opt(
            adif::or_time(
                (#[trigger] report.ineligible_sessions@[i]).started_at,
                report.ineligible_sessions@[i].ended_at,
            ),
        )
}

fn refused_texts(sessions: &Vec<IneligibleQso>) -> (r: Vec<String>)
    requires
        forall|i: int|
            0 <= i < sessions@.len() ==> clock::displayable_opt(
                adif::or_time(
                    (#[trigger] sessions@[i]).started_at,
                    sessions@[i].ended_at,
                ),
            ),
    ensures
        text::texts(r@) == refused_lines(adif::ineligible_models(sessions@)),
{
    let ghost all = adif::ineligible_models(sessions@);
    let mut r: Vec<String> = Vec::new();
    if sessions.len() == 0 {
        assert(text::texts(r@) =~= refused_lines(all));
        return r;
    }
    r.push("Ineligible summary:".to_owned());
    let ghost head = seq!["Ineligible summary:"@];
    assert(text::texts(r@) =~= head);
    let list = reason_list(sessions);
    let ghost found = text::texts(list@);
    let ghost line = |r: Seq<char>| reason_line(all, r);
    let mut i: usize = 0;
    assert(text::texts(r@) =~= head + found.map_values(line).take(0));
    while i < list.len()
        invariant
            i <= list@.len(),
            all == adif::ineligible_models(sessions@),
            found == text::texts(list@),
            line == (|r: Seq<char>| reason_line(all, r)),
            text::texts(r@) == head + found.map_values(line).take(i as int),
        decreases list@.len() - i,
    {
        let ghost before = text::texts(r@);
        let next = reason_text(sessions, list[i].as_str());
        r.push(next);
        assert(found.map_values(line)[i as int] == next@);
        assert(text::texts(r@) =~= before.push(next@));
        assert(found.map_values(line).take(i + 1) =~= found.map_values(line).take(i as int).push(next@));
        i += 1;
        assert(text::texts(r@) =~= head + found.map_values(line).take(i as int));
    }
    assert(found.map_values(line).take(i as int) =~= found.map_values(line));
    r.push("Ineligible QSOs:".to_owned());
    let ghost top = head + found.map_values(line) + seq!["Ineligible QSOs:"@];
    assert(text::texts(r@) =~= top);
    let ghost row = |s: IneligibleModel| session_line(s);
    let mut k: usize = 0;
    assert(text::texts(r@) =~= top + all.map_values(row).take(0));
    while k < sessions.len()
        invariant
            k <= sessions@.len(),
            all == adif::ineligible_models(sessions@),
            row == (|s: IneligibleModel| session_line(s)),
            forall|i: int|
                0 <= i < sessions@.len() ==> clock::displayable_opt(
                    adif::or_time(
                        (#[trigger] sessions@[i]).started_at,
                        sessions@[i].ended_at,
                    ),
                ),
            text::texts(r@) == top + all.map_values(row).take(k as int),
        decreases sessions@.len() - k,
    {
        let ghost before = text::texts(r@);
        let next = session_text(&sessions[k]);
        r.push(next);
        assert(all[k as int] == sessions@[k as int]@);
        assert(text::texts(r@) =~= before.push(next@));
        assert(all.map_values(row).take(k + 1) =~= all.map_values(row).take(k as int).push(next@));
        k += 1;
        assert(text::texts(r@) =~= top + all.map_values(row).take(k as int));
    }
    assert(all.map_values(row).take(k as int) =~= all.map_values(row));
    r
}

fn count_grids(records: &Vec<AdifRecord>) -> (r: usize)
    ensures
        r == grids_of(adif::adif_models(records@)).len(),
{
    let ghost all = adif::adif_models(records@);
    let mut grids: TextMap<()> = TextMap::new();
    let mut i: usize = 0;
    assert(grids@.dom() =~= grids_of(all.take(0)));
    while i < records.len()
        invariant
            i <= records@.len(),
            all == adif::adif_models(records@),
            grids.wf(),
            grids@.dom() == grids_of(all.take(i as int)),
        decreases records@.len() - i,
    {
        let ghost before = grids@.dom();
        assert(all[i as int] == records@[i as int]@);
        if let Some(grid) = &records[i].gridsquare {
            grids.insert(grid.clone(), ());
        }
        proof {
            let earlier = all.take(i as int);
            let next = all.take(i + 1);
            assert forall|g: Seq<char>| #[trigger] grids@.dom().contains(g) <==> grids_of(next).contains(g) by {
                if grids_of(earlier).contains(g) {
                    let k = choose|k: int| 0 <= k < earlier.len() && (#[trigger] earlier[k]).grid == Some(g);
                    assert(next[k].grid == Some(g));
                }
                if all[i as int].grid == Some(g) {
                    assert(next[i as int].grid == Some(g));
                }
                if grids_of(next).contains(g) {
                    let k = choose|k: int| 0 <= k < next.len() && (#[trigger] next[k]).grid == Some(g);
                    if k < i {
                        assert(earlier[k].grid == Some(g));
                    }
                }
            }
            assert(grids@.dom() =~= grids_of(next));
        }
        i += 1;
    }
    assert(all.take(i as int) =~= all);
    grids.len()
}

fn count_countries(lookups: &Vec<CtyLookup>) -> (r: usize)
    ensures
        r == countries_of(cty_models(lookups@)).len(),
{
    let ghost all = cty_models(lookups@);
    let mut names: TextMap<()> = TextMap::new();
    let mut i: usize = 0;
    assert(names@.dom() =~= countries_of(all.take(0)));
    while i < lookups.len()
        invariant
            i <= lookups@.len(),
            all == cty_models(lookups@),
            names.wf(),
            names@.dom() == countries_of(all.take(i as int)),
        decreases lookups@.len() - i,
    {
        assert(all[i as int] == lookups@[i as int]@);
        names.insert(lookups[i].country.clone(), ());
        proof {
            let earlier = all.take(i as int);
            let next = all.take(i + 1);
            assert forall|c: Seq<char>| #[trigger] names@.dom().contains(c) <==> countries_of(next).contains(c) by {
                if countries_of(earlier).contains(c) {
                    let k = choose|k: int| 0 <= k < earlier.len() && (#[trigger] earlier[k]).country == c;
                    assert(next[k].country == c);
                }
                assert(next[i as int].country == all[i as int].country);
                if countries_of(next).contains(c) {
                    let k = choose|k: int| 0 <= k < next.len() && (#[trigger] next[k]).country == c;
                    if k < i {
                        assert(earlier[k].country == c);
                    }
                }
            }
            assert(names@.dom() =~= countries_of(next));
        }
        i += 1;
    }
    assert(all.take(i as int) =~= all);
    names.len()
}

fn count_entities(lookups: &Vec<CtyLookup>) -> (r: usize)
    ensures
        r == entities_of(cty_models(lookups@)).len(),
{
    let ghost all = cty_models(lookups@);
    let mut numbers: BTreeSet<u32> = BTreeSet::new();
    let mut i: usize = 0;
    assert(numbers@ =~= entities_of(all.take(0)));
    while i < lookups.len()
        invariant
            i <= lookups@.len(),
            all == cty_models(lookups@),
            numbers@ == entities_of(all.take(i as int)),
        decreases lookups@.len() - i,
    {
        assert(all[i as int] == lookups@[i as int]@);
        numbers.insert(lookups[i].dxcc_adif);
        proof {
            let earlier = all.take(i as int);
            let next = all.take(i + 1);
            assert forall|d: u32| #[trigger] numbers@.contains(d) <==> entities_of(next).contains(d) by {
                if entities_of(earlier).contains(d) {
                    let k = choose|k: int| 0 <= k < earlier.len() && (#[trigger] earlier[k]).dxcc == d;
                    assert(next[k].dxcc == d);
                }
                assert(next[i as int].dxcc == all[i as int].dxcc);
                if entities_of(next).contains(d) {
                    let k = choose|k: int| 0 <= k < next.len() && (#[trigger] next[k]).dxcc == d;
                    if k < i {
                        assert(earlier[k].dxcc == d);
                    }
                }
            }
            assert(numbers@ =~= entities_of(next));
        }
        i += 1;
    }
    assert(all.take(i as int) =~= all);
    numbers.len()
}

pub open spec fn lookup_models(
    lookups: Result<Vec<CtyLookup>, String>,
) -> Result<Seq<CtyModel>, Seq<char>> {
    match lookups {
        Ok(found) => Ok(cty_models(found@)),
        Err(error) => Err(error@),
    }
}

fn found_text(records: &Vec<AdifRecord>, lookups: &Result<Vec<CtyLookup>, String>) -> (r: String)
    ensures
        r@ == found_line(adif::adif_models(records@), lookup_models(*lookups)),
{
    let grid_count: usize = count_grids(records);
    let mut r = text::cat2("Eligible summary: ", text::decimal_text(grid_count as u64).as_str());
    match lookups {
        Ok(found) => {
            let countries: usize = count_countries(found);
            let entities: usize = count_entities(found);
            r.append(
                text::cat3(
                    " unique grids, ",
                    text::decimal_text(countries as u64).as_str(),
                    " unique countries, ",
                ).as_str(),
            );
            r.append(
                text::cat2(
                    text::decimal_text(entities as u64).as_str(),
                    " unique DXCC entities",
                ).as_str(),
            );
        },
        Err(error) => {
            r.append(
                text::cat3(
                    " unique grids; country/DXCC summary unavailable (",
                    error.as_str(),
                    ")",
                ).as_str(),
            );
        },
    }
    r
}

/// The lines that tell how an export went.
pub fn adif_export_status(
    report: &AdifExportReport,
    lookups: &Result<Vec<CtyLookup>, String>,
) -> (r: Vec<String>)
    requires
        report_displayable(*report),
    ensures
        text::texts(r@) == seq![
            head_line(report.eligible_records@.len(), report.ineligible_sessions@.len()),
        ] + refused_lines(adif::ineligible_models(report.ineligible_sessions@)) + seq![
            found_line(adif::adif_models(report.eligible_records@), lookup_models(*lookups)),
        ],
{
    let counts = text::cat3(
        " eligible, ",
        text::decimal_text(report.ineligible_sessions.len() as u64).as_str(),
        " ineligible",
    );
    let head = text::cat3(
        "ADIF export status: ",
        text::decimal_text(report.eligible_records.len() as u64).as_str(),
        counts.as_str(),
    );
    let mut r: Vec<String> = Vec::new();
    r.push(head);
    let mut refused = refused_texts(&report.ineligible_sessions);
    let ghost middle = text::texts(refused@);
    r.append(&mut refused);
    assert(text::texts(r@) =~= seq![head@] + middle);
    let last = found_text(&report.eligible_records, lookups);
    r.push(last);
    assert(text::texts(r@) =~= seq![head@] + middle + seq![last@]);
    r
}

/// The summary names each reason that occurs once, and no other.
pub proof fn law_each_reason_is_named_once(sessions: Seq<IneligibleModel>)
    ensures
        text::ascending(reasons(sessions)),
        forall|r: Seq<char>| #[trigger]
            reasons(sessions).to_set().contains(r) <==> occurs(sessions, r),
    decreases sessions.len(),
{
    if sessions.len() > 0 {
        let rest = sessions.drop_last();
        law_each_reason_is_named_once(rest);
        text::lemma_sorted_with(reasons(rest), sessions.last().reason);
        assert forall|r: Seq<char>| occurs(sessions, r) == (occurs(rest, r)
            || sessions.last().reason == r) by {
            if occurs(sessions, r) {
                let i = choose|i: int|
                    0 <= i < sessions.len() && (#[trigger] sessions[i]).reason == r;
                if i < rest.len() {
                    assert(rest[i] == sessions[i]);
                }
            }
            if occurs(rest, r) {
                let i = choose|i: int| 0 <= i < rest.len() && (#[trigger] rest[i]).reason == r;
                assert(sessions[i] == rest[i]);
            }
            if sessions.last().reason == r {
                assert(sessions[sessions.len() - 1] == sessions.last());
            }
        }
    }
}

pub open spec fn occurs(sessions: Seq<IneligibleModel>, reason: Seq<char>) -> bool {
    exists|i: int| 0 <= i < sessions.len() && (#[trigger] sessions[i]).reason == reason
}

/// A contact more that was not exported for a reason counts for that reason and for no other.
pub proof fn law_reasons_are_counted(
    sessions: Seq<IneligibleModel>,
    last: IneligibleModel,
    reason: Seq<char>,
)
    ensures
        reason_count(sessions.push(last), reason) == reason_count(sessions, reason) + (if last.reason
            == reason {
            1int
        } else {
            0
        }),
        reason_count(Seq::empty(), reason) == 0,
{
    let same = |s: IneligibleModel| s.reason == reason;
    sessions.lemma_filter_push(last, same);
    reveal(Seq::filter);
}

/// A contact that was not exported is told with the date and time of its start, or else of its end,
/// or a dash.
pub proof fn law_when_a_contact_was(s: IneligibleModel)
    ensures
        s.started matches Some(t) ==> when_text(s) == clock::written(t, clock::TimeStyle::DateTime),
        s.started is None ==> (s.ended matches Some(t) ==> when_text(s) == clock::written(
            t,
            clock::TimeStyle::DateTime,
        )),
        s.started is None && s.ended is None ==> when_text(s) == seq!['-'],
{
    reveal_strlit("-");
    assert("-"@ =~= seq!['-']);
}

} // verus!
