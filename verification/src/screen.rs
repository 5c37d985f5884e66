//! The state of the receiver as it is shown on a terminal.

use vstd::prelude::*;
use vstd::string::*;

use crate::clock;
use crate::clock::Timestamp;
use crate::lines;
use crate::rig::{RigKind, RigPowerState};
use crate::slots;
use crate::slots::DecoderMode;
use crate::text;

verus! {

/// How often the terminal is drawn: every 250 milliseconds.
pub const RENDER_INTERVAL: u128 = 250_000_000;

pub fn render_due(now: Timestamp, last_render: Timestamp) -> (r: bool)
    ensures
        r == (clock::since(now, last_render) >= RENDER_INTERVAL),
{
    clock::elapsed(now, last_render) >= RENDER_INTERVAL
}

/// What is shown of the rig. The texts are numbers as they are shown.
#[derive(Debug)]
pub struct ScreenRig {
    pub frequency_text: String,
    pub kind: RigKind,
    pub kind_name: String,
    pub mode: String,
    pub band: String,
    pub transmitting: Option<bool>,
    pub power: RigPowerState,
    pub bar_graph: Option<u8>,
    pub s_meter_text: Option<String>,
    pub forward_text: Option<String>,
    pub swr_text: Option<String>,
}

/// One message; time offset and frequency are numbers as they are shown.
#[derive(Debug)]
pub struct ScreenRow {
    pub seen: String,
    pub utc: String,
    pub snr_db: i32,
    pub dt_text: String,
    pub freq_text: String,
    pub text: String,
}

/// Everything that is shown. What is called a text is a number as it is shown.
#[derive(Debug)]
pub struct Screen {
    pub local_time: String,
    pub rig: Option<ScreenRig>,
    pub app_mode: DecoderMode,
    pub audio_name: String,
    pub audio_spec: String,
    pub latest_sample_time: Option<Timestamp>,
    pub capture_channel: u64,
    pub left_text: String,
    pub right_text: String,
    pub decode_status: String,
    pub last_decode_text: Option<String>,
    pub early_text: String,
    pub mid_text: String,
    pub late_text: String,
    pub margin_text: String,
    pub current_slot: Timestamp,
    pub progress: String,
    pub last_slot_start: Option<Timestamp>,
    pub level_text: String,
    pub recoveries: u64,
    pub dt_mean_text: String,
    pub dt_median_text: String,
    pub dt_stddev_text: String,
    pub dt_count: u64,
    pub rows: Vec<ScreenRow>,
}

pub open spec fn or_text(value: Option<Seq<char>>, other: Seq<char>) -> Seq<char> {
    match value {
        Some(v) => v,
        None => other,
    }
}

pub open spec fn power_text(power: RigPowerState) -> Seq<char> {
    match power {
        RigPowerState::Continuous { current_text, .. } => match current_text {
            Some(t) => t@ + "W"@,
            None => "-"@,
        },
        RigPowerState::Discrete { current_label, .. } => or_text(text::text_opt(current_label), "-"@),
    }
}

pub open spec fn direction(transmitting: Option<bool>) -> Seq<char> {
    match transmitting {
        Some(true) => "TX"@,
        Some(false) => "RX"@,
        None => "?"@,
    }
}

/// The words in front of the rest of the line, with two spaces between each two.
pub open spec fn rig_line(screen: Screen) -> Seq<char> {
    let words = match screen.rig {
        Some(r) => seq![
            r.frequency_text@ + " MHz"@,
            r.kind_name@,
            r.mode@,
            screen.app_mode.upper_name(),
            r.band@,
            direction(r.transmitting),
            "P="@ + power_text(r.power),
        ],
        None => seq![
            "unavailable"@,
            "?"@,
            "unavailable"@,
            screen.app_mode.upper_name(),
            "unavailable"@,
            "?"@,
            "P=-"@,
        ],
    };
    "Rig      "@ + text::joined(words, "  "@)
}

pub open spec fn with_reading(
    words: Seq<Seq<char>>,
    name: Seq<char>,
    value: Option<Seq<char>>,
    unit: Seq<char>,
) -> Seq<Seq<char>> {
    match value {
        Some(v) => words.push(name + v + unit),
        None => words,
    }
}

/// The readings of the rig. An mcHF has no bar graph.
pub open spec fn readings(rig: Option<ScreenRig>) -> Seq<Seq<char>> {
    match rig {
        Some(r) => {
            let graph = if r.kind == RigKind::Mchf {
                Seq::<Seq<char>>::empty()
            } else {
                seq![
                    "BG="@ + (match r.bar_graph {
                        Some(n) => text::decimal(n as nat),
                        None => "-"@,
                    }),
                ]
            };
            with_reading(
                with_reading(
                    with_reading(graph, "S="@, text::text_opt(r.s_meter_text), ""@),
                    "FWD="@,
                    text::text_opt(r.forward_text),
                    "W"@,
                ),
                "SWR="@,
                text::text_opt(r.swr_text),
                ""@,
            )
        },
        None => seq!["BG=-"@],
    }
}

pub open spec fn telemetry_line(screen: Screen) -> Seq<char> {
    let words = readings(screen.rig);
    "RigTel   "@ + (if words.len() == 0 {
        "-"@
    } else {
        text::joined(words, "  "@)
    })
}

pub open spec fn audio_line(screen: Screen) -> Seq<char> {
    "Audio    "@ + screen.audio_name@ + (" ("@ + screen.audio_spec@ + ")"@)
}

pub open spec fn channel_line(screen: Screen) -> Seq<char> {
    let latest = match screen.latest_sample_time {
        Some(t) => slots::slot_label(screen.app_mode, t),
        None => "------"@,
    };
    "Chan     latest="@ + latest + (" selected="@ + text::decimal(screen.capture_channel as nat)) + (
    " left="@ + screen.left_text@ + " dBFS"@) + (" right="@ + screen.right_text@ + " dBFS"@)
}

pub open spec fn status_line(screen: Screen) -> Seq<char> {
    "Status   "@ + screen.decode_status@ + (match screen.last_decode_text {
        Some(t) => " last="@ + t@ + "s"@,
        None => Seq::empty(),
    })
}

pub open spec fn times_line(screen: Screen) -> Seq<char> {
    match screen.app_mode {
        DecoderMode::Ft8 => "DecodeT  early="@ + screen.early_text@ + (" mid="@ + screen.mid_text@)
            + (" late="@ + screen.late_text@) + (" tx_margin="@ + screen.margin_text@),
        DecoderMode::Ft4 => "DecodeT  mid="@ + screen.late_text@ + (" tx_margin="@
            + screen.margin_text@),
    }
}

pub open spec fn slot_line(screen: Screen) -> Seq<char> {
    "Slot     "@ + slots::slot_label(screen.app_mode, screen.current_slot) + (" "@
        + screen.progress@) + (match screen.last_slot_start {
        Some(t) => " last_done="@ + slots::slot_label(screen.app_mode, t),
        None => Seq::empty(),
    })
}

pub open spec fn level_line(screen: Screen) -> Seq<char> {
    "AudioLvl last="@ + screen.level_text@ + (" dBFS recoveries="@ + text::decimal(
        screen.recoveries as nat,
    ))
}

pub open spec fn offset_line(screen: Screen) -> Seq<char> {
    "dT stats avg="@ + screen.dt_mean_text@ + ("s med="@ + screen.dt_median_text@) + ("s stddev="@
        + screen.dt_stddev_text@) + ("s count="@ + text::decimal(screen.dt_count as nat))
}

pub open spec fn row_line(row: ScreenRow) -> Seq<char> {
    lines::left_aligned(row.seen@, 6) + ("  "@ + lines::left_aligned(row.utc@, 5)) + ("  "@
        + lines::right_aligned(lines::integer(row.snr_db as int), 4)) + ("  "@ + row.dt_text@) + (
    "  "@ + row.freq_text@) + ("  "@ + row.text@)
}

pub open spec fn row_lines(rows: Seq<ScreenRow>) -> Seq<Seq<char>> {
    if rows.len() == 0 {
        seq!["no decodes yet"@]
    } else {
        rows.map_values(|r: ScreenRow| row_line(r))
    }
}

/// All lines of the screen.
pub open spec fn screen_lines(screen: Screen) -> Seq<Seq<char>> {
    seq![
        "\x1b[2J\x1b[HFT8RX    "@ + screen.local_time@,
        rig_line(screen),
        telemetry_line(screen),
        audio_line(screen),
        channel_line(screen),
        status_line(screen),
        times_line(screen),
        slot_line(screen),
        level_line(screen),
        offset_line(screen),
        ""@,
        "Seen    UTC    SNR   dT(s)   Freq(Hz)  Message"@,
        "------  -----  ----  ------  --------  -------"@,
    ] + row_lines(screen.rows@)
}

/// Every time on the screen can be shown.
pub open spec fn screen_displayable(screen: Screen) -> bool {
    clock::displayable_opt(screen.latest_sample_time) && clock::displayable(screen.current_slot)
        && clock::displayable_opt(screen.last_slot_start)
}

fn power_words(power: &RigPowerState) -> (r: String)
    ensures
        r@ == power_text(*power),
{
    match power {
        RigPowerState::Continuous { current_text, .. } => match current_text {
            Some(t) => text::cat2(t.as_str(), "W"),
            None => "-".to_owned(),
        },
        RigPowerState::Discrete { current_label, .. } => match current_label {
            Some(label) => label.clone(),
            None => "-".to_owned(),
        },
    }
}

fn direction_text(transmitting: Option<bool>) -> (r: &'static str)
    ensures
        r@ == direction(transmitting),
{
    match transmitting {
        Some(true) => "TX",
        Some(false) => "RX",
        None => "?",
    }
}

fn render_rig(screen: &Screen) -> (r: String)
    ensures
        r@ == rig_line(*screen),
{
    let mut words: Vec<String> = Vec::new();
    match &screen.rig {
        Some(rig) => {
            words.push(text::cat2(rig.frequency_text.as_str(), " MHz"));
            words.push(rig.kind_name.clone());
            words.push(rig.mode.clone());
            words.push(screen.app_mode.label().to_owned());
            words.push(rig.band.clone());
            words.push(direction_text(rig.transmitting).to_owned());
            words.push(text::cat2("P=", power_words(&rig.power).as_str()));
            assert(text::texts(words@) =~= seq![
                rig.frequency_text@ + " MHz"@,
                rig.kind_name@,
                rig.mode@,
                screen.app_mode.upper_name(),
                rig.band@,
                direction(rig.transmitting),
                "P="@ + power_text(rig.power),
            ]);
        },
        None => {
            words.push("unavailable".to_owned());
            words.push("?".to_owned());
            words.push("unavailable".to_owned());
            words.push(screen.app_mode.label().to_owned());
            words.push("unavailable".to_owned());
            words.push("?".to_owned());
            words.push("P=-".to_owned());
            assert(text::texts(words@) =~= seq![
                "unavailable"@,
                "?"@,
                "unavailable"@,
                screen.app_mode.upper_name(),
                "unavailable"@,
                "?"@,
                "P=-"@,
            ]);
        },
    }
    text::cat2("Rig      ", text::join(&words, "  ").as_str())
}

fn push_reading(words: &mut Vec<String>, name: &str, value: &Option<String>, unit: &str)
    ensures
        text::texts(final(words)@) == with_reading(
            text::texts(old(words)@),
            name@,
            text::text_opt(*value),
            unit@,
        ),
{
    if let Some(v) = value {
        words.push(text::cat3(name, v.as_str(), unit));
        assert(text::texts(words@) =~= text::texts(old(words)@).push(name@ + v@ + unit@));
    }
}

fn render_telemetry(screen: &Screen) -> (r: String)
    ensures
        r@ == telemetry_line(*screen),
{
    let mut words: Vec<String> = Vec::new();
    match &screen.rig {
        Some(rig) => {
            assert(text::texts(words@) =~= Seq::<Seq<char>>::empty());
            if rig.kind != RigKind::Mchf {
                let graph = match rig.bar_graph {
                    Some(n) => text::decimal_text(n as u64),
                    None => "-".to_owned(),
                };
                words.push(text::cat2("BG=", graph.as_str()));
                assert(text::texts(words@) =~= seq!["BG="@ + graph@]);
            }
            push_reading(&mut words, "S=", &rig.s_meter_text, "");
            push_reading(&mut words, "FWD=", &rig.forward_text, "W");
            push_reading(&mut words, "SWR=", &rig.swr_text, "");
        },
        None => {
            words.push("BG=-".to_owned());
            assert(text::texts(words@) =~= seq!["BG=-"@]);
        },
    }
    assert(text::texts(words@) == readings(screen.rig));
    if words.len() == 0 {
        text::cat2("RigTel   ", "-")
    } else {
        text::cat2("RigTel   ", text::join(&words, "  ").as_str())
    }
}

fn render_channel(screen: &Screen) -> (r: String)
    requires
        screen_displayable(*screen),
    ensures
        r@ == channel_line(*screen),
{
    let latest = match screen.latest_sample_time {
        Some(t) => slots::format_slot_time_for_mode(screen.app_mode, t),
        None => "------".to_owned(),
    };
    let mut r = text::cat2("Chan     latest=", latest.as_str());
    r.append(
        text::cat2(" selected=", text::decimal_text(screen.capture_channel).as_str()).as_str(),
    );
    r.append(text::cat3(" left=", screen.left_text.as_str(), " dBFS").as_str());
    r.append(text::cat3(" right=", screen.right_text.as_str(), " dBFS").as_str());
    r
}

fn render_status(screen: &Screen) -> (r: String)
    ensures
        r@ == status_line(*screen),
{
    let mut r = text::cat2("Status   ", screen.decode_status.as_str());
    match &screen.last_decode_text {
        Some(t) => {
            r.append(text::cat3(" last=", t.as_str(), "s").as_str());
        },
        None => {
            assert(r@ =~= r@ + Seq::<char>::empty());
        },
    }
    r
}

fn render_times(screen: &Screen) -> (r: String)
    ensures
        r@ == times_line(*screen),
{
    let margin = text::cat2(" tx_margin=", screen.margin_text.as_str());
    match screen.app_mode {
        DecoderMode::Ft8 => {
            let mut r = text::cat2("DecodeT  early=", screen.early_text.as_str());
            r.append(text::cat2(" mid=", screen.mid_text.as_str()).as_str());
            r.append(text::cat2(" late=", screen.late_text.as_str()).as_str());
            r.append(margin.as_str());
            r
        },
        DecoderMode::Ft4 => {
            let mut r = text::cat2("DecodeT  mid=", screen.late_text.as_str());
            r.append(margin.as_str());
            r
        },
    }
}

fn render_slot(screen: &Screen) -> (r: String)
    requires
        screen_displayable(*screen),
    ensures
        r@ == slot_line(*screen),
{
    let mut r = text::cat2(
        "Slot     ",
        slots::format_slot_time_for_mode(screen.app_mode, screen.current_slot).as_str(),
    );
    r.append(text::cat2(" ", screen.progress.as_str()).as_str());
    match screen.last_slot_start {
        Some(t) => {
            let slot = slots::format_slot_time_for_mode(screen.app_mode, t);
            r.append(text::cat2(" last_done=", slot.as_str()).as_str());
        },
        None => {
            assert(r@ =~= r@ + Seq::<char>::empty());
        },
    }
    r
}

fn render_row(row: &ScreenRow) -> (r: String)
    ensures
        r@ == row_line(*row),
{
    let mut r = lines::align_left(row.seen.as_str(), 6);
    r.append(text::cat2("  ", lines::align_left(row.utc.as_str(), 5).as_str()).as_str());
    let snr = lines::integer_text(row.snr_db);
    r.append(text::cat2("  ", lines::align_right(snr.as_str(), 4).as_str()).as_str());
    r.append(text::cat2("  ", row.dt_text.as_str()).as_str());
    r.append(text::cat2("  ", row.freq_text.as_str()).as_str());
    r.append(text::cat2("  ", row.text.as_str()).as_str());
    r
}

fn render_rows(rows: &Vec<ScreenRow>) -> (r: Vec<String>)
    ensures
        text::texts(r@) == row_lines(rows@),
{
    let ghost line = |r: ScreenRow| row_line(r);
    let mut r: Vec<String> = Vec::new();
    if rows.len() == 0 {
        r.push("no decodes yet".to_owned());
        assert(text::texts(r@) =~= seq!["no decodes yet"@]);
        return r;
    }
    let mut i: usize = 0;
    assert(text::texts(r@) =~= rows@.map_values(line).take(0));
    while i < rows.len()
        invariant
            i <= rows@.len(),
            line == (|r: ScreenRow| row_line(r)),
            text::texts(r@) == rows@.map_values(line).take(i as int),
        decreases rows@.len() - i,
    {
        let ghost before = text::texts(r@);
        let next = render_row(&rows[i]);
        r.push(next);
        assert(text::texts(r@) =~= before.push(next@));
        assert(rows@.map_values(line).take(i + 1) =~= rows@.map_values(line).take(i as int).push(
            next@,
        ));
        i += 1;
    }
    assert(rows@.map_values(line).take(i as int) =~= rows@.map_values(line));
    r
}

/// The text that draws the screen afresh.
pub fn render(screen: &Screen) -> (r: String)
    requires
        screen_displayable(*screen),
    ensures
        r@ == lines::with_line_feeds(screen_lines(*screen)),
{
    let mut all: Vec<String> = Vec::new();
    all.push(text::cat2("\x1b[2J\x1b[HFT8RX    ", screen.local_time.as_str()));
    all.push(render_rig(screen));
    all.push(render_telemetry(screen));
    all.push(
        text::cat3(
            "Audio    ",
            screen.audio_name.as_str(),
            text::cat3(" (", screen.audio_spec.as_str(), ")").as_str(),
        ),
    );
    all.push(render_channel(screen));
    all.push(render_status(screen));
    all.push(render_times(screen));
    all.push(render_slot(screen));
    all.push(
        text::cat3(
            "AudioLvl last=",
            screen.level_text.as_str(),
            text::cat2(
                " dBFS recoveries=",
                text::decimal_text(screen.recoveries).as_str(),
            ).as_str(),
        ),
    );
    let mut offsets = text::cat2("dT stats avg=", screen.dt_mean_text.as_str());
    offsets.append(text::cat2("s med=", screen.dt_median_text.as_str()).as_str());
    offsets.append(text::cat2("s stddev=", screen.dt_stddev_text.as_str()).as_str());
    offsets.append(text::cat2("s count=", text::decimal_text(screen.dt_count).as_str()).as_str());
    all.push(offsets);
    all.push("".to_owned());
    all.push("Seen    UTC    SNR   dT(s)   Freq(Hz)  Message".to_owned());
    all.push("------  -----  ----  ------  --------  -------".to_owned());
    let ghost head = text::texts(all@);
    let mut rows = render_rows(&screen.rows);
    let ghost tail = text::texts(rows@);
    all.append(&mut rows);
    assert(text::texts(all@) =~= head + tail);
    assert(text::texts(all@) =~= screen_lines(*screen));
    lines::join_lines(&all)
}

/// The screen tells that the rig sends, that it receives, or that this is not known.
pub proof fn law_direction_is_told(transmitting: Option<bool>)
    ensures
        transmitting == Some(true) <==> direction(transmitting) == seq!['T', 'X'],
        transmitting == Some(false) <==> direction(transmitting) == seq!['R', 'X'],
        transmitting is None <==> direction(transmitting) == seq!['?'],
{
    reveal_strlit("TX");
    reveal_strlit("RX");
    reveal_strlit("?");
    assert("TX"@ =~= seq!['T', 'X']);
    assert("RX"@ =~= seq!['R', 'X']);
    assert("?"@ =~= seq!['?']);
    assert(seq!['T', 'X'][0] != seq!['R', 'X'][0]);
    assert(seq!['?'].len() != seq!['R', 'X'].len());
}

/// There is a line for each row of messages, and one that says so where there is none.
pub proof fn law_a_line_for_each_row(screen: Screen)
    ensures
        screen.rows@.len() == 0 ==> screen_lines(screen).last() == "no decodes yet"@,
        screen.rows@.len() > 0 ==> screen_lines(screen).len() == 13 + screen.rows@.len()
            && screen_lines(screen).last() == row_line(screen.rows@.last()),
        screen_lines(screen).len() >= 14,
{
}

} // verus!
