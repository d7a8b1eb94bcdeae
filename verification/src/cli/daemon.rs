//! What the user is told of the daemon's responses.

use crate::cli::report::{
    one_line, paint, Report, ReportView, Stream, BOLD, CYAN, DIM, GREEN, RED, YELLOW,
};
use crate::text::decimal_filled;
use vstd::prelude::*;

verus! {

/// What the daemon is doing.
#[derive(Debug, Clone, Copy, PartialEq, Eq, Structural)]
pub enum State {
    Idle,
    Recording,
    Transcribing,
    Synthesizing,
    Speaking,
}

/// The name of a state.
pub open spec fn state_name(state: State) -> Seq<char> {
    match state {
        State::Idle => "idle"@,
        State::Recording => "recording"@,
        State::Transcribing => "transcribing"@,
        State::Synthesizing => "synthesizing"@,
        State::Speaking => "speaking"@,
    }
}

/// The code that begins the style of a state: bold, and in the color of the state if it has one.
pub open spec fn state_style(state: State) -> Seq<char> {
    match state {
        State::Idle => BOLD@,
        State::Recording => BOLD@ + GREEN@,
        State::Transcribing => BOLD@ + YELLOW@,
        State::Synthesizing => BOLD@ + CYAN@,
        State::Speaking => BOLD@ + GREEN@,
    }
}

/// The name of a state, in its style where there is color.
pub open spec fn state_text(state: State, use_color: bool) -> Seq<char> {
    crate::cli::report::painted(state_style(state), state_name(state), use_color)
}

/// Format a state for display with optional color.
pub fn format_state(state: State, use_color: bool) -> (res: String)
    ensures
        res@ == state_text(state, use_color),
        !use_color ==> res@ == match state {
            State::Idle => "idle"@,
            State::Recording => "recording"@,
            State::Transcribing => "transcribing"@,
            State::Synthesizing => "synthesizing"@,
            State::Speaking => "speaking"@,
        },
        use_color ==> res@ == match state {
            State::Idle => "\x1b[1m"@ + "idle"@ + "\x1b[0m"@,
            State::Recording => "\x1b[1m"@ + "\x1b[32m"@ + "recording"@ + "\x1b[0m"@,
            State::Transcribing => "\x1b[1m"@ + "\x1b[33m"@ + "transcribing"@ + "\x1b[0m"@,
            State::Synthesizing => "\x1b[1m"@ + "\x1b[36m"@ + "synthesizing"@ + "\x1b[0m"@,
            State::Speaking => "\x1b[1m"@ + "\x1b[32m"@ + "speaking"@ + "\x1b[0m"@,
        },
{
    let name: &str = match state {
        State::Idle => "idle",
        State::Recording => "recording",
        State::Transcribing => "transcribing",
        State::Synthesizing => "synthesizing",
        State::Speaking => "speaking",
    };
    let mut style: String = BOLD.to_owned();
    match state {
        State::Idle => {},
        State::Recording => style.append(GREEN),
        State::Transcribing => style.append(YELLOW),
        State::Synthesizing => style.append(CYAN),
        State::Speaking => style.append(GREEN),
    }
    paint(style.as_str(), name, use_color)
}

/// A day of the Gregorian calendar, and a time of that day.
#[derive(Debug, Clone, Copy, PartialEq, Eq, Structural)]
pub struct Timestamp {
    pub year: i32,
    pub month: u32,
    pub day: u32,
    pub hour: u32,
    pub minute: u32,
    pub second: u32,
}

/// A year with at least four digits, and with a sign where it is before the year 0 or needs more.
pub open spec fn year_text(year: int) -> Seq<char> {
    if 0 <= year <= 9999 {
        crate::text::zero_filled(crate::text::decimal(year as nat), 4)
    } else if year > 9999 {
        "+"@ + crate::text::zero_filled(crate::text::decimal(year as nat), 4)
    } else {
        "-"@ + crate::text::zero_filled(crate::text::decimal((-year) as nat), 4)
    }
}

/// A number with at least two digits.
pub open spec fn two_digits(n: u32) -> Seq<char> {
    crate::text::zero_filled(crate::text::decimal(n as nat), 2)
}

/// Year, month and day, and hour, minute and second, as in `2026-01-02 03:04:05`.
pub open spec fn timestamp_text(t: Timestamp) -> Seq<char> {
    year_text(t.year as int) + "-"@ + two_digits(t.month) + "-"@ + two_digits(t.day) + " "@
        + two_digits(t.hour) + ":"@ + two_digits(t.minute) + ":"@ + two_digits(t.second)
}

fn format_year(year: i32) -> (res: String)
    ensures
        res@ == year_text(year as int),
{
    if 0 <= year && year <= 9999 {
        return decimal_filled(year as usize, 4);
    }
    let mut res: String = if year < 0 {
        "-".to_owned()
    } else {
        "+".to_owned()
    };
    let magnitude: i64 = if year < 0 {
        -(year as i64)
    } else {
        year as i64
    };
    res.append(decimal_filled(magnitude as usize, 4).as_str());
    res
}

/// Year, month and day, and hour, minute and second, as in `2026-01-02 03:04:05`.
pub fn format_timestamp(t: Timestamp) -> (res: String)
    ensures
        res@ == timestamp_text(t),
        res@ == year_text(t.year as int) + "-"@ + two_digits(t.month) + "-"@ + two_digits(t.day)
            + " "@ + two_digits(t.hour) + ":"@ + two_digits(t.minute) + ":"@ + two_digits(
            t.second,
        ),
{
    let mut res: String = format_year(t.year);
    res.append("-");
    res.append(decimal_filled(t.month as usize, 2).as_str());
    res.append("-");
    res.append(decimal_filled(t.day as usize, 2).as_str());
    res.append(" ");
    res.append(decimal_filled(t.hour as usize, 2).as_str());
    res.append(":");
    res.append(decimal_filled(t.minute as usize, 2).as_str());
    res.append(":");
    res.append(decimal_filled(t.second as usize, 2).as_str());
    res
}

/// One transcription of the history.
#[derive(Debug, Clone)]
pub struct HistoryEntry {
    /// When it was made.
    pub timestamp: Timestamp,
    /// What transcribed it.
    pub backend: String,
    pub language: String,
    /// How long the recording is, in seconds with one decimal.
    pub duration_secs: String,
    pub text: String,
}

pub struct HistoryView {
    pub timestamp: Timestamp,
    pub backend: Seq<char>,
    pub language: Seq<char>,
    pub duration_secs: Seq<char>,
    pub text: Seq<char>,
}

impl View for HistoryEntry {
    type V = HistoryView;

    open spec fn view(&self) -> HistoryView {
        HistoryView {
            timestamp: self.timestamp,
            backend: self.backend@,
            language: self.language@,
            duration_secs: self.duration_secs@,
            text: self.text@,
        }
    }
}

/// The line over a transcription: when it was made, and with what.
pub open spec fn history_heading(entry: HistoryView, use_color: bool) -> Seq<char> {
    crate::cli::report::painted(DIM@, timestamp_text(entry.timestamp), use_color) + "  "@
        + crate::cli::report::painted(
        DIM@,
        "["@ + entry.backend + " | "@ + entry.language + " | "@ + entry.duration_secs + "s]"@,
        use_color,
    )
}

/// The lines for a transcription: a heading, the text, and an empty line.
pub open spec fn history_block(entry: HistoryView, use_color: bool) -> Seq<Seq<char>> {
    seq![history_heading(entry, use_color), "  "@ + entry.text, ""@]
}

/// The lines for a history, transcription after transcription.
pub open spec fn history_lines(entries: Seq<HistoryView>, use_color: bool) -> Seq<Seq<char>>
    decreases entries.len(),
{
    if entries.len() == 0 {
        Seq::empty()
    } else {
        history_lines(entries.drop_last(), use_color) + history_block(entries.last(), use_color)
    }
}

/// Every transcription of a history gets its lines, at its place.
pub proof fn law_history_shows_every_entry(entries: Seq<HistoryView>, use_color: bool, k: int)
    requires
        0 <= k < entries.len(),
    ensures
        history_lines(entries, use_color).len() == 3 * entries.len(),
        history_lines(entries, use_color).subrange(3 * k, 3 * k + 3) == history_block(
            entries[k],
            use_color,
        ),
    decreases entries.len(),
{
    let rest = entries.drop_last();
    let before = history_lines(rest, use_color);
    let all = history_lines(entries, use_color);
    if rest.len() == 0 {
        assert(before.len() == 0);
    } else {
        law_history_shows_every_entry(rest, use_color, 0);
    }
    if k < rest.len() {
        law_history_shows_every_entry(rest, use_color, k);
        assert(all.subrange(3 * k, 3 * k + 3) == before.subrange(3 * k, 3 * k + 3));
    } else {
        assert(all.subrange(3 * k, 3 * k + 3) == history_block(entries[k], use_color));
    }
}

fn describe_entry(entry: &HistoryEntry, use_color: bool) -> (res: String)
    ensures
        res@ == history_heading(entry@, use_color),
{
    let mut made_with: String = "[".to_owned();
    made_with.append(entry.backend.as_str());
    made_with.append(" | ");
    made_with.append(entry.language.as_str());
    made_with.append(" | ");
    made_with.append(entry.duration_secs.as_str());
    made_with.append("s]");
    let mut res: String = paint(DIM, format_timestamp(entry.timestamp).as_str(), use_color);
    res.append("  ");
    res.append(paint(DIM, made_with.as_str(), use_color).as_str());
    res
}

/// The lines that display transcription history entries.
pub fn print_history(entries: &Vec<HistoryEntry>, use_color: bool) -> (res: Vec<String>)
    ensures
        res.deep_view() == history_lines(
            entries@.map_values(|e: HistoryEntry| e@),
            use_color,
        ),
        res.len() == 3 * entries.len(),
        forall|k: int|
            #![trigger entries[k]]
            0 <= k < entries.len() ==> {
                &&& !use_color ==> res[3 * k]@ == timestamp_text(entries[k].timestamp) + "  "@ + (
                "["@ + entries[k].backend@ + " | "@ + entries[k].language@ + " | "@
                    + entries[k].duration_secs@ + "s]"@)
                &&& use_color ==> res[3 * k]@ == "\x1b[2m"@ + timestamp_text(entries[k].timestamp)
                    + "\x1b[0m"@ + "  "@ + ("\x1b[2m"@ + ("["@ + entries[k].backend@ + " | "@
                    + entries[k].language@ + " | "@ + entries[k].duration_secs@ + "s]"@)
                    + "\x1b[0m"@)
                &&& res[3 * k + 1]@ == "  "@ + entries[k].text@
                &&& res[3 * k + 2]@ == ""@
            },
{
    let mut res: Vec<String> = Vec::new();
    let ghost all = entries@.map_values(|e: HistoryEntry| e@);
    for i in 0..entries.len()
        invariant
            all == entries@.map_values(|e: HistoryEntry| e@),
            res.deep_view() == history_lines(all.take(i as int), use_color),
    {
        let entry: &HistoryEntry = &entries[i];
        let ghost before = res.deep_view();
        let heading: String = describe_entry(entry, use_color);
        let mut text: String = "  ".to_owned();
        text.append(entry.text.as_str());
        res.push(heading);
        res.push(text);
        res.push("".to_owned());
        assert(all.take(i + 1).drop_last() == all.take(i as int));
        assert(all.take(i + 1).last() == entry@);
        assert(res.deep_view() == before + seq![heading@, text@, ""@]);
    }
    assert(all.take(all.len() as int) == all);
    proof {
        if entries.len() > 0 {
            law_history_shows_every_entry(all, use_color, 0);
        }
        assert forall|k: int|
            #![trigger entries[k]]
            0 <= k < entries.len() implies {
            &&& res[3 * k]@ == history_heading(entries[k]@, use_color)
            &&& res[3 * k + 1]@ == "  "@ + entries[k].text@
            &&& res[3 * k + 2]@ == ""@
        } by {
            law_history_shows_every_entry(all, use_color, k);
            let block = res.deep_view().subrange(3 * k, 3 * k + 3);
            assert(all[k] == entries[k]@);
            assert(block[0] == res[3 * k]@);
            assert(block[1] == res[3 * k + 1]@);
            assert(block[2] == res[3 * k + 2]@);
        }
    }
    res
}

/// What the daemon answers.
#[derive(Debug, Clone)]
pub enum Response {
    /// The command was carried out, and this is the state now.
    Done { state: State },
    /// The transcription history that was asked for.
    History { entries: Vec<HistoryEntry> },
    /// The command could not be carried out.
    Error { message: String },
}

/// What the user is told of a response.
pub open spec fn response_told(response: Response, use_color: bool) -> ReportView {
    match response {
        Response::Done { state } => crate::cli::report::success(seq![state_text(state, use_color)]),
        Response::History { entries } => crate::cli::report::success(
            if entries.len() == 0 {
                seq!["No transcription history."@]
            } else {
                history_lines(entries@.map_values(|e: HistoryEntry| e@), use_color)
            },
        ),
        Response::Error { message } => crate::cli::report::failure(
            crate::cli::report::painted(RED@, "error:"@, use_color) + " "@ + message@,
        ),
    }
}

/// What the user is told of the response to a command.
pub fn report_response(response: &Response, use_color: bool) -> (res: Report)
    ensures
        res@ == response_told(*response, use_color),
        match *response {
            Response::Done { state } => {
                &&& res.stream == Stream::Stdout
                &&& res.exit_code == 0
                &&& res.lines.len() == 1
                &&& res.lines[0]@ == state_text(state, use_color)
                &&& !use_color ==> res.lines[0]@ == match state {
                    State::Idle => "idle"@,
                    State::Recording => "recording"@,
                    State::Transcribing => "transcribing"@,
                    State::Synthesizing => "synthesizing"@,
                    State::Speaking => "speaking"@,
                }
            },
            Response::History { entries } => {
                &&& res.stream == Stream::Stdout
                &&& res.exit_code == 0
                &&& entries.len() == 0 ==> res.lines.len() == 1 && res.lines[0]@
                    == "No transcription history."@
                &&& entries.len() > 0 ==> res.lines.len() == 3 * entries.len() && forall|k: int|
                    #![trigger entries[k]]
                    0 <= k < entries.len() ==> {
                        &&& !use_color ==> res.lines[3 * k]@ == timestamp_text(
                            entries[k].timestamp,
                        ) + "  "@ + ("["@ + entries[k].backend@ + " | "@ + entries[k].language@
                            + " | "@ + entries[k].duration_secs@ + "s]"@)
                        &&& res.lines[3 * k + 1]@ == "  "@ + entries[k].text@
                        &&& res.lines[3 * k + 2]@ == ""@
                    }
            },
            Response::Error { message } => {
                &&& res.stream == Stream::Stderr
                &&& res.exit_code == 1
                &&& res.lines.len() == 1
                &&& !use_color ==> res.lines[0]@ == "error:"@ + " "@ + message@
                &&& use_color ==> res.lines[0]@ == "\x1b[31m"@ + "error:"@ + "\x1b[0m"@ + " "@
                    + message@
            },
        },
{
    match response {
        Response::Done { state } => Report::success(one_line(format_state(*state, use_color))),
        Response::History { entries } => {
            if entries.is_empty() {
                Report::success(one_line("No transcription history.".to_owned()))
            } else {
                Report::success(print_history(entries, use_color))
            }
        },
        Response::Error { message } => {
            let mut line: String = paint(RED, "error:", use_color);
            line.append(" ");
            line.append(message.as_str());
            Report::failure(line)
        },
    }
}

/// What the user is told where no daemon answers: how to start it, and how to enable its service
/// where there is a service manager.
pub open spec fn not_running_text(enable_hint: Option<Seq<char>>) -> Seq<char> {
    let start = "whisrsd is not running. Start it with:\n\n  whisrsd &"@;
    match enable_hint {
        Some(enable) => start + "\n\nOr enable the service:\n\n  "@ + enable,
        None => start,
    }
}

/// What the user is told where no daemon answers.
pub fn report_not_running(enable_hint: &Option<String>, use_color: bool) -> (res: Report)
    ensures
        res@ == crate::cli::report::failure(
            crate::cli::report::painted(
                RED@,
                not_running_text(crate::text::text_view(*enable_hint)),
                use_color,
            ),
        ),
        res.stream == Stream::Stderr,
        res.exit_code == 1,
        res.lines.len() == 1,
        !use_color ==> res.lines[0]@ == match *enable_hint {
            Some(enable) => "whisrsd is not running. Start it with:\n\n  whisrsd &"@
                + "\n\nOr enable the service:\n\n  "@ + enable@,
            None => "whisrsd is not running. Start it with:\n\n  whisrsd &"@,
        },
        use_color ==> res.lines[0]@ == match *enable_hint {
            Some(enable) => "\x1b[31m"@ + ("whisrsd is not running. Start it with:\n\n  whisrsd &"@
                + "\n\nOr enable the service:\n\n  "@ + enable@) + "\x1b[0m"@,
            None => "\x1b[31m"@ + "whisrsd is not running. Start it with:\n\n  whisrsd &"@
                + "\x1b[0m"@,
        },
{
    let mut message: String = "whisrsd is not running. Start it with:\n\n  whisrsd &".to_owned();
    match enable_hint {
        Some(enable) => {
            message.append("\n\nOr enable the service:\n\n  ");
            message.append(enable.as_str());
        },
        None => {},
    }
    Report::failure(paint(RED, message.as_str(), use_color))
}

/// The text of a state is its name, with codes around it where there is color; and the texts of
/// two different states differ.
pub proof fn law_state_texts_tell_states_apart(a: State, b: State, use_color: bool)
    ensures
        state_text(State::Idle, false) == "idle"@,
        state_text(State::Recording, false) == "recording"@,
        state_text(State::Transcribing, false) == "transcribing"@,
        state_text(State::Synthesizing, false) == "synthesizing"@,
        state_text(State::Speaking, false) == "speaking"@,
        state_text(a, true) == state_style(a) + state_text(a, false) + "\x1b[0m"@,
        state_text(a, use_color) == state_text(b, use_color) ==> a == b,
{
    reveal_strlit("idle");
    reveal_strlit("recording");
    reveal_strlit("transcribing");
    reveal_strlit("synthesizing");
    reveal_strlit("speaking");
    crate::cli::report::law_color_codes();
    let at = state_style(a).len() as int;
    if use_color && state_text(a, true) == state_text(b, true) {
        assert(state_text(a, true).len() == state_text(b, true).len());
        assert(state_text(a, true)[at] == state_name(a)[0]);
        if a != State::Idle && b != State::Idle {
            assert(state_text(b, true)[at] == state_name(b)[0]);
            assert(state_text(a, true)[at + 1] == state_name(a)[1]);
            assert(state_text(b, true)[at + 1] == state_name(b)[1]);
        }
    } else if !use_color && state_text(a, false) == state_text(b, false) {
        assert(state_name(a).len() == state_name(b).len());
        assert(state_name(a)[0] == state_name(b)[0]);
    }
}

/// The states are in bold, and recording and speaking are green, transcribing is yellow and
/// synthesizing is cyan.
pub proof fn law_state_styles()
    ensures
        state_style(State::Idle) == "\x1b[1m"@,
        state_style(State::Recording) == "\x1b[1m"@ + "\x1b[32m"@,
        state_style(State::Transcribing) == "\x1b[1m"@ + "\x1b[33m"@,
        state_style(State::Synthesizing) == "\x1b[1m"@ + "\x1b[36m"@,
        state_style(State::Speaking) == "\x1b[1m"@ + "\x1b[32m"@,
{
}

/// The report of a command that was carried out is one line with the text of the state, so it
/// tells the state; and no such report is that of an error.
pub proof fn law_reports_tell_the_state(a: State, b: State, message: String, use_color: bool)
    ensures
        response_told(Response::Done { state: a }, use_color).lines == seq![
            state_text(a, use_color),
        ],
        response_told(Response::Done { state: a }, use_color) == response_told(
            Response::Done { state: b },
            use_color,
        ) ==> a == b,
        response_told(Response::Done { state: a }, use_color).exit_code == 0,
        response_told(Response::Error { message }, use_color).exit_code != 0,
        response_told(Response::Done { state: a }, use_color).stream == Stream::Stdout,
        response_told(Response::Error { message }, use_color).stream == Stream::Stderr,
{
    law_state_texts_tell_states_apart(a, b, use_color);
    let told_a = response_told(Response::Done { state: a }, use_color);
    let told_b = response_told(Response::Done { state: b }, use_color);
    assert(told_a.lines[0] == state_text(a, use_color));
    assert(told_b.lines[0] == state_text(b, use_color));
}

/// The report of an error ends with the message as it came.
pub proof fn law_error_reports_carry_the_message(message: String, use_color: bool)
    ensures
        ({
            let told = response_told(Response::Error { message }, use_color);
            let heading = if use_color {
                "\x1b[31m"@ + "error:"@ + "\x1b[0m"@
            } else {
                "error:"@
            };
            told.lines == seq![heading + " "@ + message@]
        }),
{
}

/// The history shows, for each entry in order, when it was made and with what, its text character
/// for character behind two blanks, and an empty line; and nothing else.
pub proof fn law_history_shows_texts_as_they_are(
    entries: Seq<HistoryView>,
    use_color: bool,
    k: int,
)
    requires
        0 <= k < entries.len(),
    ensures
        history_lines(entries, use_color).len() == 3 * entries.len(),
        history_lines(entries, use_color)[3 * k + 1] == seq![' ', ' '] + entries[k].text,
        history_lines(entries, use_color)[3 * k + 2] == Seq::<char>::empty(),
        history_lines(entries, false)[3 * k] == timestamp_text(entries[k].timestamp) + "  "@ + ("["@
            + entries[k].backend + " | "@ + entries[k].language + " | "@ + entries[k].duration_secs
            + "s]"@),
        history_lines(entries, true)[3 * k] == "\x1b[2m"@ + timestamp_text(entries[k].timestamp)
            + "\x1b[0m"@ + "  "@ + ("\x1b[2m"@ + ("["@ + entries[k].backend + " | "@
            + entries[k].language + " | "@ + entries[k].duration_secs + "s]"@) + "\x1b[0m"@),
{
    reveal_strlit("  ");
    reveal_strlit("");
    assert("  "@ == seq![' ', ' ']);
    assert(""@ == Seq::<char>::empty());
    law_history_shows_every_entry(entries, use_color, k);
    law_history_shows_every_entry(entries, false, k);
    law_history_shows_every_entry(entries, true, k);
    let lines = history_lines(entries, use_color);
    assert(lines.subrange(3 * k, 3 * k + 3)[1] == lines[3 * k + 1]);
    assert(lines.subrange(3 * k, 3 * k + 3)[2] == lines[3 * k + 2]);
    assert(history_lines(entries, false).subrange(3 * k, 3 * k + 3)[0] == history_lines(
        entries,
        false,
    )[3 * k]);
    assert(history_lines(entries, true).subrange(3 * k, 3 * k + 3)[0] == history_lines(
        entries,
        true,
    )[3 * k]);
}

/// A history that is asked for is told by its lines, and one without entries by a sentence.
pub proof fn law_history_reports(entries: Vec<HistoryEntry>, use_color: bool)
    ensures
        ({
            let told = response_told(Response::History { entries }, use_color);
            &&& told.stream == Stream::Stdout
            &&& told.exit_code == 0
            &&& entries.len() == 0 ==> told.lines == seq!["No transcription history."@]
            &&& entries.len() > 0 ==> told.lines == history_lines(
                Seq::new(entries@.len(), |k: int| entries[k]@),
                use_color,
            )
        }),
{
    assert(entries@.map_values(|e: HistoryEntry| e@) == Seq::new(
        entries@.len(),
        |k: int| entries[k]@,
    ));
}

/// An entry of the history is seen with all that it holds.
pub proof fn law_history_entry_is_seen_as_it_is(entry: HistoryEntry)
    ensures
        entry@.timestamp == entry.timestamp,
        entry@.backend == entry.backend@,
        entry@.language == entry.language@,
        entry@.duration_secs == entry.duration_secs@,
        entry@.text == entry.text@,
{
}

proof fn lemma_two_digits(n: u32)
    requires
        n < 100,
    ensures
        two_digits(n).len() == 2,
        crate::text::number(two_digits(n)) == n,
{
    crate::text::law_filling_adds_zeros_in_front(n as nat, 2);
    crate::text::lemma_decimal_width(n as nat, 2);
}

proof fn lemma_six_parts(
    parts: Seq<Seq<char>>,
    hyphen: Seq<char>,
    blank: Seq<char>,
    colon: Seq<char>,
    s: Seq<char>,
)
    requires
        parts.len() == 6,
        parts[0].len() == 4,
        forall|i: int| 1 <= i < 6 ==> (#[trigger] parts[i]).len() == 2,
        hyphen.len() == 1,
        blank.len() == 1,
        colon.len() == 1,
        s == parts[0] + hyphen + parts[1] + hyphen + parts[2] + blank + parts[3] + colon + parts[4]
            + colon + parts[5],
    ensures
        s.len() == 19,
        s.subrange(0, 4) == parts[0],
        s[4] == hyphen[0],
        s.subrange(5, 7) == parts[1],
        s[7] == hyphen[0],
        s.subrange(8, 10) == parts[2],
        s[10] == blank[0],
        s.subrange(11, 13) == parts[3],
        s[13] == colon[0],
        s.subrange(14, 16) == parts[4],
        s[16] == colon[0],
        s.subrange(17, 19) == parts[5],
{
    let date = parts[0] + hyphen + parts[1] + hyphen + parts[2];
    let time = parts[3] + colon + parts[4] + colon + parts[5];
    assert(date.len() == 10 && time.len() == 8);
    assert(s == date + blank + time);
    assert(date.subrange(0, 4) == parts[0]);
    assert(date.subrange(5, 7) == parts[1]);
    assert(date.subrange(8, 10) == parts[2]);
    assert(time.subrange(0, 2) == parts[3]);
    assert(time.subrange(3, 5) == parts[4]);
    assert(time.subrange(6, 8) == parts[5]);
    assert(s.subrange(0, 4) == date.subrange(0, 4));
    assert(s.subrange(5, 7) == date.subrange(5, 7));
    assert(s.subrange(8, 10) == date.subrange(8, 10));
    assert(s.subrange(11, 13) == time.subrange(0, 2));
    assert(s.subrange(14, 16) == time.subrange(3, 5));
    assert(s.subrange(17, 19) == time.subrange(6, 8));
}

/// A timestamp of a year with four digits is told by 19 characters, from which each part of it can
/// be read: the year, the month and the day with hyphens between them, a blank, and the hour, the
/// minute and the second with colons between them.
pub proof fn law_timestamps_can_be_read_back(t: Timestamp)
    requires
        0 <= t.year <= 9999,
        t.month < 100,
        t.day < 100,
        t.hour < 100,
        t.minute < 100,
        t.second < 100,
    ensures
        ({
            let s = timestamp_text(t);
            &&& s.len() == 19
            &&& crate::text::number(s.subrange(0, 4)) == t.year
            &&& s[4] == '-'
            &&& crate::text::number(s.subrange(5, 7)) == t.month
            &&& s[7] == '-'
            &&& crate::text::number(s.subrange(8, 10)) == t.day
            &&& s[10] == ' '
            &&& crate::text::number(s.subrange(11, 13)) == t.hour
            &&& s[13] == ':'
            &&& crate::text::number(s.subrange(14, 16)) == t.minute
            &&& s[16] == ':'
            &&& crate::text::number(s.subrange(17, 19)) == t.second
        }),
{
    reveal_strlit("-");
    reveal_strlit(" ");
    reveal_strlit(":");
    crate::text::law_filling_adds_zeros_in_front(t.year as nat, 4);
    crate::text::lemma_decimal_width(t.year as nat, 4);
    lemma_two_digits(t.month);
    lemma_two_digits(t.day);
    lemma_two_digits(t.hour);
    lemma_two_digits(t.minute);
    lemma_two_digits(t.second);
    let parts = seq![
        year_text(t.year as int),
        two_digits(t.month),
        two_digits(t.day),
        two_digits(t.hour),
        two_digits(t.minute),
        two_digits(t.second),
    ];
    lemma_six_parts(parts, "-"@, " "@, ":"@, timestamp_text(t));
}

/// The year is told by its digits, at least four of them, behind a sign where, and only where, it
/// is below 0 or needs more than four; and the other parts by their digits, at least two of them.
pub proof fn law_parts_of_timestamps_stand_for_themselves(year: int, n: u32)
    ensures
        0 <= year <= 9999 ==> year_text(year).len() == 4 && crate::text::number(year_text(year))
            == year,
        year > 9999 ==> year_text(year).first() == '+' && crate::text::number(
            year_text(year).drop_first(),
        ) == year && year_text(year).drop_first() == crate::text::decimal(year as nat),
        year < 0 ==> year_text(year).first() == '-' && crate::text::number(
            year_text(year).drop_first(),
        ) == -year && year_text(year).len() >= 5,
        year < -9999 ==> year_text(year).drop_first() == crate::text::decimal((-year) as nat),
        -9999 <= year < 0 ==> year_text(year).len() == 5,
        crate::text::number(two_digits(n)) == n,
        n < 100 ==> two_digits(n).len() == 2,
        n >= 100 ==> two_digits(n) == crate::text::decimal(n as nat),
{
    reveal_strlit("+");
    reveal_strlit("-");
    crate::text::law_filling_adds_zeros_in_front(n as nat, 2);
    crate::text::lemma_decimal_width(n as nat, 2);
    if n >= 100 {
        assert(two_digits(n) == crate::text::decimal(n as nat));
    }
    let magnitude = if year < 0 {
        (-year) as nat
    } else {
        year as nat
    };
    crate::text::law_filling_adds_zeros_in_front(magnitude, 4);
    crate::text::lemma_decimal_width(magnitude, 4);
    let filled = crate::text::zero_filled(crate::text::decimal(magnitude), 4);
    if magnitude > 9999 {
        assert(filled == crate::text::decimal(magnitude));
    }
    if year < 0 || year > 9999 {
        assert(year_text(year).drop_first() == filled);
    }
}

/// Where no daemon answers, the user is told so, and how to start it, and how to enable its
/// service where there is a command for that.
pub proof fn law_missing_daemon_is_told_with_the_hint(enable: Seq<char>)
    ensures
        not_running_text(None) == "whisrsd is not running. Start it with:\n\n  whisrsd &"@,
        not_running_text(Some(enable)) == not_running_text(None)
            + "\n\nOr enable the service:\n\n  "@ + enable,
{
}

} // verus!
