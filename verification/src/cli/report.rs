//! Colored text, and what a command leaves behind: lines for one of the output streams, and an
//! exit code.

use vstd::prelude::*;

verus! {

// ANSI color codes.
pub const GREEN: &'static str = "\x1b[32m";

pub const YELLOW: &'static str = "\x1b[33m";

pub const RED: &'static str = "\x1b[31m";

pub const CYAN: &'static str = "\x1b[36m";

pub const BOLD: &'static str = "\x1b[1m";

pub const DIM: &'static str = "\x1b[2m";

pub const RESET: &'static str = "\x1b[0m";

/// `text` in the style that the code `style` begins, and back to normal after it; as it is where
/// there is no color.
pub open spec fn painted(style: Seq<char>, text: Seq<char>, use_color: bool) -> Seq<char> {
    if use_color {
        style + text + RESET@
    } else {
        text
    }
}

/// `text` in the style that the code `style` begins, and back to normal after it; as it is where
/// there is no color.
pub fn paint(style: &str, text: &str, use_color: bool) -> (res: String)
    ensures
        res@ == painted(style@, text@, use_color),
        !use_color ==> res@ == text@,
        use_color ==> res@ == style@ + text@ + "\x1b[0m"@,
{
    if use_color {
        let mut res: String = style.to_owned();
        res.append(text);
        res.append(RESET);
        res
    } else {
        text.to_owned()
    }
}

/// An output stream.
#[derive(Debug, Clone, Copy, PartialEq, Eq, Structural)]
pub enum Stream {
    Stdout,
    Stderr,
}

/// What a command leaves behind.
#[derive(Debug, Clone)]
pub struct Report {
    /// Where the lines go.
    pub stream: Stream,
    /// What is printed, each with a line break after it.
    pub lines: Vec<String>,
    /// The exit code of the process.
    pub exit_code: i32,
}

#[verifier::ext_equal]
pub struct ReportView {
    pub stream: Stream,
    pub lines: Seq<Seq<char>>,
    pub exit_code: int,
}

impl View for Report {
    type V = ReportView;

    open spec fn view(&self) -> ReportView {
        ReportView {
            stream: self.stream,
            lines: self.lines.deep_view(),
            exit_code: self.exit_code as int,
        }
    }
}

/// The report of a command that worked and prints `lines`.
pub open spec fn success(lines: Seq<Seq<char>>) -> ReportView {
    ReportView { stream: Stream::Stdout, lines, exit_code: 0 }
}

/// The report of a command that failed and says `line`.
pub open spec fn failure(line: Seq<char>) -> ReportView {
    ReportView { stream: Stream::Stderr, lines: seq![line], exit_code: 1 }
}

/// A list of one line.
pub(crate) fn one_line(line: String) -> (res: Vec<String>)
    ensures
        res.deep_view() == seq![line@],
        res.len() == 1,
        res[0]@ == line@,
{
    let mut res: Vec<String> = Vec::new();
    res.push(line);
    assert(res.deep_view() == seq![line@]);
    res
}

impl Report {
    /// The report of a command that worked and prints `lines`.
    pub fn success(lines: Vec<String>) -> (res: Self)
        ensures
            res@ == success(lines.deep_view()),
            res.stream == Stream::Stdout,
            res.lines == lines,
            res.exit_code == 0,
    {
        Report { stream: Stream::Stdout, lines, exit_code: 0 }
    }

    /// The report of a command that failed and says `line`.
    pub fn failure(line: String) -> (res: Self)
        ensures
            res@ == failure(line@),
            res.stream == Stream::Stderr,
            res.lines.len() == 1,
            res.lines[0]@ == line@,
            res.exit_code == 1,
    {
        Report { stream: Stream::Stderr, lines: one_line(line), exit_code: 1 }
    }
}

/// The report of a step of the program, such as `setup`, that gave up with `error`.
pub fn step_failed(step: &str, error: &str, use_color: bool) -> (res: Report)
    ensures
        res@ == failure(painted(RED@, step@ + " failed:"@, use_color) + " "@ + error@),
        res.stream == Stream::Stderr,
        res.exit_code == 1,
        res.lines.len() == 1,
        !use_color ==> res.lines[0]@ == step@ + " failed:"@ + " "@ + error@,
        use_color ==> res.lines[0]@ == "\x1b[31m"@ + (step@ + " failed:"@) + "\x1b[0m"@ + " "@
            + error@,
{
    let mut heading: String = step.to_owned();
    heading.append(" failed:");
    let mut line: String = paint(RED, heading.as_str(), use_color);
    line.append(" ");
    line.append(error);
    Report::failure(line)
}

/// The color codes are those of ANSI terminals.
pub proof fn law_color_codes()
    ensures
        GREEN@ == seq!['\u{1b}', '[', '3', '2', 'm'],
        YELLOW@ == seq!['\u{1b}', '[', '3', '3', 'm'],
        RED@ == seq!['\u{1b}', '[', '3', '1', 'm'],
        CYAN@ == seq!['\u{1b}', '[', '3', '6', 'm'],
        BOLD@ == seq!['\u{1b}', '[', '1', 'm'],
        DIM@ == seq!['\u{1b}', '[', '2', 'm'],
        RESET@ == seq!['\u{1b}', '[', '0', 'm'],
{
    reveal_strlit("\x1b[32m");
    reveal_strlit("\x1b[33m");
    reveal_strlit("\x1b[31m");
    reveal_strlit("\x1b[36m");
    reveal_strlit("\x1b[1m");
    reveal_strlit("\x1b[2m");
    reveal_strlit("\x1b[0m");
}

/// Color goes around a text and changes nothing in it: what stands between the code that begins
/// the style and the code that ends it is the text, and without color there is nothing else.
pub proof fn law_color_goes_around_the_text(style: Seq<char>, text: Seq<char>)
    ensures
        painted(style, text, false) == text,
        painted(style, text, true) == style + text + seq!['\u{1b}', '[', '0', 'm'],
{
    law_color_codes();
}

/// A success goes to the one stream with the code 0, a failure to the other with another code.
pub proof fn law_failures_are_told_from_successes(lines: Seq<Seq<char>>, line: Seq<char>)
    ensures
        success(lines).stream == Stream::Stdout,
        success(lines).exit_code == 0,
        success(lines).lines == lines,
        failure(line).stream == Stream::Stderr,
        failure(line).exit_code == 1,
        failure(line).lines == seq![line],
{
}

/// A report is seen with its stream, each of its lines, and its exit code.
pub proof fn law_report_is_seen_as_it_is(report: Report)
    ensures
        report@.stream == report.stream,
        report@.exit_code == report.exit_code,
        report@.lines.len() == report.lines.len(),
        forall|i: int|
            0 <= i < report.lines.len() ==> #[trigger] report@.lines[i] == report.lines[i]@,
{
}

} // verus!
