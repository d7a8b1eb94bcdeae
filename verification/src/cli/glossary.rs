//! `whisrs glossary`: add, list, edit and remove entries of the glossary.
//!
//! The command is a conversation. `begin` takes the subcommand and the glossary as it was loaded,
//! and says what comes first; while that is a question, the answer to it leads to the next step.
//! The conversation ends with a changed glossary that is to be saved, with lines to print, or
//! with a failure that leaves the glossary as it was.

use crate::cli::report::{one_line, paint, CYAN, GREEN, RED};
use crate::config::glossary::{
    add_entry, remove_entry, replace_entry, EntryView, Glossary, GlossaryEntry,
};
use crate::text::{align_left, decimal_text, is_blank, join, trim};
use vstd::prelude::*;

verus! {

/// Subcommands of `whisrs glossary`.
#[derive(Debug, Clone)]
pub enum GlossaryCmd {
    /// Add an entry: asks for the phrases, and for the text, that are not given.
    Add { say: Option<Vec<String>>, text: Option<String> },
    /// List all glossary entries, indexed.
    List,
    /// Edit the entry at `index`: asks for the new phrases and the new text.
    Edit { index: usize },
    /// Remove the entry at `index`.
    Remove { index: usize },
}

/// A subcommand as its contents.
pub enum CmdView {
    Add { say: Option<Seq<Seq<char>>>, text: Option<Seq<char>> },
    List,
    Edit { index: int },
    Remove { index: int },
}

impl View for GlossaryCmd {
    type V = CmdView;

    open spec fn view(&self) -> CmdView {
        match *self {
            GlossaryCmd::Add { say, text } => CmdView::Add {
                say: match say {
                    Some(says) => Some(says.deep_view()),
                    None => None,
                },
                text: crate::text::text_view(text),
            },
            GlossaryCmd::List => CmdView::List,
            GlossaryCmd::Edit { index } => CmdView::Edit { index: index as int },
            GlossaryCmd::Remove { index } => CmdView::Remove { index: index as int },
        }
    }
}

/// What is being asked for, and what has been given so far.
#[derive(Debug)]
enum Topic {
    /// A phrase of a new entry, whose text may be known.
    NewPhrase { says: Vec<String>, text: Option<String> },
    /// The text of a new entry.
    NewText { says: Vec<String> },
    /// A phrase that replaces those of the entry at `index`.
    OtherPhrase { index: usize, says: Vec<String> },
    /// A text that replaces that of the entry at `index`.
    OtherText { index: usize },
}

pub enum TopicView {
    NewPhrase { says: Seq<Seq<char>>, text: Option<Seq<char>> },
    NewText { says: Seq<Seq<char>> },
    OtherPhrase { index: int, says: Seq<Seq<char>> },
    OtherText { index: int },
}

impl Topic {
    spec fn contents(self) -> TopicView {
        match self {
            Topic::NewPhrase { says, text } => TopicView::NewPhrase {
                says: says.deep_view(),
                text: crate::text::text_view(text),
            },
            Topic::NewText { says } => TopicView::NewText { says: says.deep_view() },
            Topic::OtherPhrase { index, says } => TopicView::OtherPhrase {
                index: index as int,
                says: says.deep_view(),
            },
            Topic::OtherText { index } => TopicView::OtherText { index: index as int },
        }
    }
}

/// A question to the user.
#[derive(Debug)]
pub struct Question {
    notice: Option<String>,
    glossary: Glossary,
    topic: Topic,
    use_color: bool,
}

/// A question as its contents: the line to print before it, the glossary as it stands, and what
/// is asked for.
pub struct QuestionView {
    pub notice: Option<Seq<char>>,
    pub entries: Seq<EntryView>,
    pub topic: TopicView,
    pub use_color: bool,
}

impl View for Question {
    type V = QuestionView;

    closed spec fn view(&self) -> QuestionView {
        QuestionView {
            notice: crate::text::text_view(self.notice),
            entries: self.glossary@,
            topic: self.topic.contents(),
            use_color: self.use_color,
        }
    }
}

impl Question {
    /// What has been given so far makes sense: a new entry that lacks its text only has a phrase,
    /// and the entry that is edited exists.
    #[verifier::type_invariant]
    closed spec fn makes_sense(self) -> bool {
        match self.topic {
            Topic::NewPhrase { says, text } => true,
            Topic::NewText { says } => says.len() > 0,
            Topic::OtherPhrase { index, says } => index < self.glossary.entries.len(),
            Topic::OtherText { index } => index < self.glossary.entries.len(),
        }
    }
}

/// A glossary to save, and what to print once it is saved.
#[derive(Debug)]
pub struct Change {
    pub glossary: Glossary,
    pub lines: Vec<String>,
}

/// What comes next.
#[derive(Debug)]
pub enum Step {
    /// Ask the user.
    Ask(Question),
    /// Save the changed glossary, then print.
    Save(Change),
    /// Print; nothing was changed.
    Print(Vec<String>),
    /// Give up, with this message; nothing was changed.
    Fail(String),
}

/// A step as its contents.
pub enum StepView {
    Ask(QuestionView),
    Save { entries: Seq<EntryView>, lines: Seq<Seq<char>> },
    Print(Seq<Seq<char>>),
    Fail(Seq<char>),
}

impl View for Step {
    type V = StepView;

    open spec fn view(&self) -> StepView {
        match *self {
            Step::Ask(question) => StepView::Ask(question@),
            Step::Save(change) => StepView::Save {
                entries: change.glossary@,
                lines: change.lines.deep_view(),
            },
            Step::Print(lines) => StepView::Print(lines.deep_view()),
            Step::Fail(message) => StepView::Fail(message@),
        }
    }
}

/// What is said of the entry at `index`: what happens to it, its phrases, and its text.
pub open spec fn entry_line(verb: Seq<char>, index: int, entry: EntryView) -> Seq<char> {
    verb + " #"@ + crate::text::decimal(index as nat) + ": [\""@ + crate::text::joined(
        entry.says,
        "\", \""@,
    ) + "\"] -> \""@ + entry.text + "\""@
}

fn describe_entry(verb: &str, index: usize, entry: &GlossaryEntry) -> (res: String)
    ensures
        res@ == entry_line(verb@, index as int, entry@),
        res@ == verb@ + " #"@ + crate::text::decimal(index as nat) + ": [\""@
            + crate::text::joined(entry@.says, "\", \""@) + "\"] -> \""@ + entry.text@ + "\""@,
{
    let mut res: String = verb.to_owned();
    res.append(" #");
    res.append(decimal_text(index).as_str());
    res.append(": [\"");
    res.append(join(&entry.says(), "\", \"").as_str());
    res.append("\"] -> \"");
    res.append(entry.text.as_str());
    res.append("\"");
    res
}

/// The line of the list for the entry at `index`.
pub open spec fn list_line(index: int, entry: EntryView, use_color: bool) -> Seq<char> {
    crate::cli::report::painted(
        CYAN@,
        crate::text::left_aligned(crate::text::decimal(index as nat), 5),
        use_color,
    ) + " "@ + crate::text::joined(entry.says, ", "@) + "  ->  "@ + entry.text
}

/// The list of the entries: a heading and a line for each, or a hint where there is none.
pub open spec fn list_lines(entries: Seq<EntryView>, use_color: bool) -> Seq<Seq<char>> {
    if entries.len() == 0 {
        seq!["Glossary is empty. Add an entry with: whisrs glossary add"@]
    } else {
        seq!["Index  Say  ->  Type"@] + Seq::new(
            entries.len(),
            |i: int| list_line(i, entries[i], use_color),
        )
    }
}

fn list_entries(glossary: &Glossary, use_color: bool) -> (res: Vec<String>)
    ensures
        res.deep_view() == list_lines(glossary@, use_color),
        glossary.entries.len() == 0 ==> res.len() == 1 && res[0]@
            == "Glossary is empty. Add an entry with: whisrs glossary add"@,
        glossary.entries.len() > 0 ==> {
            &&& res.len() == 1 + glossary.entries.len()
            &&& res[0]@ == "Index  Say  ->  Type"@
            &&& forall|k: int|
                #![trigger glossary.entries[k]]
                0 <= k < glossary.entries.len() ==> {
                    &&& !use_color ==> res[k + 1]@ == crate::text::left_aligned(
                        crate::text::decimal(k as nat),
                        5,
                    ) + " "@ + crate::text::joined(glossary.entries[k]@.says, ", "@) + "  ->  "@
                        + glossary.entries[k].text@
                    &&& use_color ==> res[k + 1]@ == "\x1b[36m"@ + crate::text::left_aligned(
                        crate::text::decimal(k as nat),
                        5,
                    ) + "\x1b[0m"@ + " "@ + crate::text::joined(
                        glossary.entries[k]@.says,
                        ", "@,
                    ) + "  ->  "@ + glossary.entries[k].text@
                }
        },
{
    if glossary.entries.is_empty() {
        return one_line("Glossary is empty. Add an entry with: whisrs glossary add".to_owned());
    }
    let mut res: Vec<String> = one_line("Index  Say  ->  Type".to_owned());
    let ghost wanted = list_lines(glossary@, use_color);
    for i in 0..glossary.entries.len()
        invariant
            wanted == list_lines(glossary@, use_color),
            wanted.len() == 1 + glossary.entries.len(),
            res.deep_view() == wanted.take(1 + i),
            res.len() == 1 + i,
            res[0]@ == "Index  Say  ->  Type"@,
            forall|k: int|
                #![trigger glossary.entries[k]]
                0 <= k < i ==> {
                    &&& !use_color ==> res[k + 1]@ == crate::text::left_aligned(
                        crate::text::decimal(k as nat),
                        5,
                    ) + " "@ + crate::text::joined(glossary.entries[k]@.says, ", "@) + "  ->  "@
                        + glossary.entries[k].text@
                    &&& use_color ==> res[k + 1]@ == "\x1b[36m"@ + crate::text::left_aligned(
                        crate::text::decimal(k as nat),
                        5,
                    ) + "\x1b[0m"@ + " "@ + crate::text::joined(
                        glossary.entries[k]@.says,
                        ", "@,
                    ) + "  ->  "@ + glossary.entries[k].text@
                },
    {
        let entry: &GlossaryEntry = &glossary.entries[i];
        let index: String = align_left(decimal_text(i).as_str(), 5);
        let mut line: String = paint(CYAN, index.as_str(), use_color);
        line.append(" ");
        line.append(join(&entry.says(), ", ").as_str());
        line.append("  ->  ");
        line.append(entry.text.as_str());
        let ghost found = res.deep_view();
        assert(glossary@[i as int] == entry@);
        assert(line@ == wanted[1 + i]);
        res.push(line);
        assert(res.deep_view() == found.push(line@));
        assert(wanted.take(2 + i) == wanted.take(1 + i).push(wanted[1 + i]));
    }
    assert(wanted.take(wanted.len() as int) == wanted);
    res
}

/// The failure of a subcommand that is given the index of no entry.
pub open spec fn no_entry(index: int, entries: Seq<EntryView>) -> StepView {
    StepView::Fail(
        "no entry at index "@ + crate::text::decimal(index as nat) + " (have "@
            + crate::text::decimal(entries.len()) + ") \u{2014} run `whisrs glossary list`"@,
    )
}

fn refuse_index(index: usize, glossary: &Glossary) -> (res: Step)
    ensures
        res@ == no_entry(index as int, glossary@),
        res matches Step::Fail(message) && message@ == "no entry at index "@
            + crate::text::decimal(index as nat) + " (have "@ + crate::text::decimal(
            glossary.entries.len() as nat,
        ) + ") \u{2014} run `whisrs glossary list`"@,
{
    let mut message: String = "no entry at index ".to_owned();
    message.append(decimal_text(index).as_str());
    message.append(" (have ");
    message.append(decimal_text(glossary.entries.len()).as_str());
    message.append(") \u{2014} run `whisrs glossary list`");
    Step::Fail(message)
}

/// What the user is told after an entry was added.
pub open spec fn added_lines(index: int, entry: EntryView, use_color: bool) -> Seq<Seq<char>> {
    seq![
        crate::cli::report::painted(GREEN@, entry_line("Added"@, index, entry), use_color),
        "Restart the daemon to pick it up: systemctl --user restart whisrs"@,
    ]
}

/// The step that adds an entry whose phrases and text are known: a text of white space alone is
/// refused.
pub open spec fn adding(
    entries: Seq<EntryView>,
    says: Seq<Seq<char>>,
    text: Seq<char>,
    use_color: bool,
) -> StepView {
    let entry = EntryView { says, text };
    if crate::text::blank(text) {
        StepView::Fail("type must not be empty"@)
    } else {
        StepView::Save {
            entries: entries.push(entry),
            lines: added_lines(entries.len() as int, entry, use_color),
        }
    }
}

fn add_to(glossary: Glossary, says: Vec<String>, text: String, use_color: bool) -> (res: Step)
    requires
        says.len() > 0,
    ensures
        res@ == adding(glossary@, says.deep_view(), text@, use_color),
        crate::text::blank(text@) ==> (res matches Step::Fail(message) && message@
            == "type must not be empty"@),
        !crate::text::blank(text@) ==> {
            let n = glossary.entries.len() as int;
            &&& res matches Step::Save(change)
            &&& change.glossary.entries.len() == n + 1
            &&& forall|j: int| 0 <= j < n ==> change.glossary.entries[j] == glossary.entries[j]
            &&& change.glossary.entries[n].say == says[0]
            &&& change.glossary.entries[n].aliases@ == says@.skip(1)
            &&& change.glossary.entries[n].text == text
            &&& change.lines.len() == 2
            &&& change.lines[1]@ == "Restart the daemon to pick it up: systemctl --user restart whisrs"@
        },
{
    if is_blank(text.as_str()) {
        return Step::Fail("type must not be empty".to_owned());
    }
    let mut glossary: Glossary = glossary;
    let index: usize = add_entry(&mut glossary, says, text);
    assert(glossary@.len() == glossary.entries.len());
    let line: String = describe_entry("Added", index, &glossary.entries[index]);
    assert(glossary.entries[index as int]@ == glossary@[index as int]);
    let mut lines: Vec<String> = one_line(paint(GREEN, line.as_str(), use_color));
    let ghost first = lines.deep_view();
    lines.push("Restart the daemon to pick it up: systemctl --user restart whisrs".to_owned());
    assert(lines.deep_view() == first.push(lines[1]@));
    assert(lines.deep_view() == added_lines(index as int, glossary@[index as int], use_color));
    Step::Save(Change { glossary, lines })
}

/// The step once the phrases of a new entry are known: its text is asked for where it is not
/// given.
pub open spec fn phrases_known(
    entries: Seq<EntryView>,
    says: Seq<Seq<char>>,
    text: Option<Seq<char>>,
    use_color: bool,
) -> StepView {
    match text {
        Some(t) => adding(entries, says, t, use_color),
        None => StepView::Ask(
            QuestionView { notice: None, entries, topic: TopicView::NewText { says }, use_color },
        ),
    }
}

fn ask_for_text(
    glossary: Glossary,
    says: Vec<String>,
    text: Option<String>,
    use_color: bool,
) -> (res: Step)
    requires
        says.len() > 0,
    ensures
        res@ == phrases_known(glossary@, says.deep_view(), crate::text::text_view(text), use_color),
        text matches Some(t) ==> (crate::text::blank(t@) ==> res is Fail),
        text matches Some(t) ==> (!crate::text::blank(t@) ==> {
            let n = glossary.entries.len() as int;
            &&& res matches Step::Save(change)
            &&& change.glossary.entries.len() == n + 1
            &&& forall|j: int| 0 <= j < n ==> change.glossary.entries[j] == glossary.entries[j]
            &&& change.glossary.entries[n].say == says[0]
            &&& change.glossary.entries[n].aliases@ == says@.skip(1)
            &&& change.glossary.entries[n].text == t
        }),
        text is None ==> res is Ask,
{
    match text {
        Some(text) => add_to(glossary, says, text, use_color),
        None => Step::Ask(
            Question { notice: None, glossary, topic: Topic::NewText { says }, use_color },
        ),
    }
}

/// What the user is asked.
pub open spec fn prompt(topic: TopicView) -> Seq<char> {
    match topic {
        TopicView::NewPhrase { says, text } => if says.len() == 0 {
            "What phrase do you say? (e.g. \"la mia email\")"@
        } else {
            "Another phrase for the same text? (empty to finish)"@
        },
        TopicView::NewText { says } => "What text should be typed? (e.g. \"nome@example.com\")"@,
        TopicView::OtherPhrase { index, says } => if says.len() == 0 {
            "New phrase (empty keeps current / stops)"@
        } else {
            "Another phrase (empty to stop)"@
        },
        TopicView::OtherText { index } => "New text (empty keeps current)"@,
    }
}

/// The first step of a subcommand on a glossary with these entries.
pub open spec fn first_step(
    cmd: CmdView,
    entries: Seq<EntryView>,
    use_color: bool,
) -> StepView {
    match cmd {
        CmdView::Add { say, text } => match say {
            // The phrases were given: they are taken as they are.
            Some(says) if says.len() > 0 => phrases_known(entries, says, text, use_color),
            _ => StepView::Ask(
                QuestionView {
                    notice: None,
                    entries,
                    topic: TopicView::NewPhrase { says: Seq::empty(), text },
                    use_color,
                },
            ),
        },
        CmdView::List => StepView::Print(list_lines(entries, use_color)),
        CmdView::Edit { index } => if index >= entries.len() {
            no_entry(index, entries)
        } else {
            StepView::Ask(
                QuestionView {
                    notice: Some(entry_line("Editing"@, index, entries[index])),
                    entries,
                    topic: TopicView::OtherPhrase { index, says: Seq::empty() },
                    use_color,
                },
            )
        },
        CmdView::Remove { index } => if index >= entries.len() {
            no_entry(index, entries)
        } else {
            StepView::Save {
                entries: entries.remove(index),
                lines: seq![
                    crate::cli::report::painted(
                        RED@,
                        entry_line("Removed"@, index, entries[index]),
                        use_color,
                    ),
                ],
            }
        },
    }
}

/// The step after the answer `input`, of which the white space at its ends does not count.
pub open spec fn next_step(question: QuestionView, input: Seq<char>) -> StepView {
    let QuestionView { notice: _, entries, topic, use_color } = question;
    let answer = crate::text::trimmed(input);
    match topic {
        TopicView::NewPhrase { says, text } => if answer.len() > 0 {
            StepView::Ask(
                QuestionView {
                    notice: None,
                    entries,
                    topic: TopicView::NewPhrase { says: says.push(answer), text },
                    use_color,
                },
            )
        } else if says.len() == 0 {
            StepView::Fail("no phrase given \u{2014} nothing to add"@)
        } else {
            phrases_known(entries, says, text, use_color)
        },
        TopicView::NewText { says } => adding(entries, says, answer, use_color),
        TopicView::OtherPhrase { index, says } => if answer.len() > 0 {
            StepView::Ask(
                QuestionView {
                    notice: None,
                    entries,
                    topic: TopicView::OtherPhrase { index, says: says.push(answer) },
                    use_color,
                },
            )
        } else {
            StepView::Ask(
                QuestionView {
                    notice: None,
                    entries: if says.len() > 0 {
                        entries.update(index, EntryView { says, ..entries[index] })
                    } else {
                        entries
                    },
                    topic: TopicView::OtherText { index },
                    use_color,
                },
            )
        },
        TopicView::OtherText { index } => {
            let changed = if answer.len() > 0 {
                entries.update(index, EntryView { text: answer, ..entries[index] })
            } else {
                entries
            };
            StepView::Save {
                entries: changed,
                lines: seq![entry_line("Updated"@, index, changed[index])],
            }
        },
    }
}

/// The first step of a subcommand on a glossary.
pub fn begin(cmd: GlossaryCmd, glossary: Glossary, use_color: bool) -> (res: Step)
    ensures
        res@ == first_step(cmd@, glossary@, use_color),
        match cmd {
            GlossaryCmd::Add { say, text } => {
                &&& say is None ==> res is Ask
                &&& say matches Some(says) ==> (says.len() == 0 ==> res is Ask)
                &&& text is None ==> res is Ask
                &&& say matches Some(says) ==> (text matches Some(t) ==> (says.len() > 0
                    && crate::text::blank(t@) ==> res is Fail))
                &&& say matches Some(says) ==> (text matches Some(t) ==> (says.len() > 0
                    && !crate::text::blank(t@) ==> {
                    let n = glossary.entries.len() as int;
                    &&& res matches Step::Save(change)
                    &&& change.glossary.entries.len() == n + 1
                    &&& forall|j: int|
                        0 <= j < n ==> change.glossary.entries[j] == glossary.entries[j]
                    &&& change.glossary.entries[n].say == says[0]
                    &&& change.glossary.entries[n].aliases@ == says@.skip(1)
                    &&& change.glossary.entries[n].text == t
                }))
            },
            GlossaryCmd::List => {
                &&& res matches Step::Print(lines)
                &&& glossary.entries.len() == 0 ==> lines.len() == 1 && lines[0]@
                    == "Glossary is empty. Add an entry with: whisrs glossary add"@
                &&& glossary.entries.len() > 0 ==> lines.len() == 1 + glossary.entries.len()
                    && lines[0]@ == "Index  Say  ->  Type"@
                &&& forall|k: int|
                    #![trigger glossary.entries[k]]
                    0 <= k < glossary.entries.len() ==> (!use_color ==> lines[k + 1]@
                        == crate::text::left_aligned(crate::text::decimal(k as nat), 5) + " "@
                        + crate::text::joined(glossary.entries[k]@.says, ", "@) + "  ->  "@
                        + glossary.entries[k].text@)
            },
            GlossaryCmd::Edit { index } => {
                &&& res is Ask <==> index < glossary.entries.len()
                &&& res is Fail <==> index >= glossary.entries.len()
            },
            GlossaryCmd::Remove { index } => {
                &&& index >= glossary.entries.len() ==> res is Fail
                &&& index < glossary.entries.len() ==> {
                    &&& res matches Step::Save(change)
                    &&& change.glossary.entries@ == glossary.entries@.remove(index as int)
                    &&& change.lines.len() == 1
                    &&& !use_color ==> change.lines[0]@ == "Removed"@ + " #"@
                        + crate::text::decimal(index as nat) + ": [\""@ + crate::text::joined(
                        glossary.entries[index as int]@.says,
                        "\", \""@,
                    ) + "\"] -> \""@ + glossary.entries[index as int].text@ + "\""@
                }
            },
        },
{
    match cmd {
        GlossaryCmd::Add { say, text } => {
            let says: Vec<String> = match say {
                Some(says) => says,
                None => Vec::new(),
            };
            if says.is_empty() {
                let topic = Topic::NewPhrase { says: Vec::new(), text };
                assert(topic.contents() == TopicView::NewPhrase {
                    says: Seq::empty(),
                    text: crate::text::text_view(text),
                }) by {
                    assert(topic->NewPhrase_says.deep_view() == Seq::<Seq<char>>::empty());
                }
                Step::Ask(Question { notice: None, glossary, topic, use_color })
            } else {
                ask_for_text(glossary, says, text, use_color)
            }
        },
        GlossaryCmd::List => Step::Print(list_entries(&glossary, use_color)),
        GlossaryCmd::Edit { index } => {
            if index >= glossary.entries.len() {
                return refuse_index(index, &glossary);
            }
            let notice: String = describe_entry("Editing", index, &glossary.entries[index]);
            let topic = Topic::OtherPhrase { index, says: Vec::new() };
            assert(topic.contents() == TopicView::OtherPhrase {
                index: index as int,
                says: Seq::empty(),
            }) by {
                assert(topic->OtherPhrase_says.deep_view() == Seq::<Seq<char>>::empty());
            }
            Step::Ask(Question { notice: Some(notice), glossary, topic, use_color })
        },
        GlossaryCmd::Remove { index } => {
            let mut glossary: Glossary = glossary;
            match remove_entry(&mut glossary, index) {
                None => refuse_index(index, &glossary),
                Some(removed) => {
                    let line: String = describe_entry("Removed", index, &removed);
                    let lines: Vec<String> = one_line(paint(RED, line.as_str(), use_color));
                    Step::Save(Change { glossary, lines })
                },
            }
        },
    }
}

impl Question {
    /// The line to print before the question is asked.
    pub fn notice(&self) -> (res: Option<String>)
        ensures
            crate::text::text_view(res) == self@.notice,
    {
        match &self.notice {
            Some(notice) => Some(notice.clone()),
            None => None,
        }
    }

    /// What the user is asked.
    pub fn prompt(&self) -> (res: String)
        ensures
            res@ == prompt(self@.topic),
    {
        let text: &str = match &self.topic {
            Topic::NewPhrase { says, text } => if says.is_empty() {
                "What phrase do you say? (e.g. \"la mia email\")"
            } else {
                "Another phrase for the same text? (empty to finish)"
            },
            Topic::NewText { says } => "What text should be typed? (e.g. \"nome@example.com\")",
            Topic::OtherPhrase { index, says } => if says.is_empty() {
                "New phrase (empty keeps current / stops)"
            } else {
                "Another phrase (empty to stop)"
            },
            Topic::OtherText { index } => "New text (empty keeps current)",
        };
        text.to_owned()
    }

    /// The step after the answer `input`.
    pub fn answer(self, input: &str) -> (res: Step)
        ensures
            res@ == next_step(self@, input@),
    {
        proof {
            use_type_invariant(&self);
        }
        let answer: String = trim(input);
        let Question { notice: _, glossary, topic, use_color } = self;
        match topic {
            Topic::NewPhrase { says, text } => {
                if !answer.as_str().is_empty() {
                    let ghost before = says.deep_view();
                    let mut says: Vec<String> = says;
                    says.push(answer);
                    assert(says.deep_view() == before.push(answer@));
                    Step::Ask(
                        Question {
                            notice: None,
                            glossary,
                            topic: Topic::NewPhrase { says, text },
                            use_color,
                        },
                    )
                } else if says.is_empty() {
                    Step::Fail("no phrase given \u{2014} nothing to add".to_owned())
                } else {
                    ask_for_text(glossary, says, text, use_color)
                }
            },
            Topic::NewText { says } => add_to(glossary, says, answer, use_color),
            Topic::OtherPhrase { index, says } => {
                if !answer.as_str().is_empty() {
                    let ghost before = says.deep_view();
                    let mut says: Vec<String> = says;
                    says.push(answer);
                    assert(says.deep_view() == before.push(answer@));
                    return Step::Ask(
                        Question {
                            notice: None,
                            glossary,
                            topic: Topic::OtherPhrase { index, says },
                            use_color,
                        },
                    );
                }
                let mut glossary: Glossary = glossary;
                if !says.is_empty() {
                    let text: String = glossary.entries[index].text.clone();
                    replace_entry(&mut glossary, index, says, text);
                }
                assert(glossary@.len() == glossary.entries.len());
                Step::Ask(
                    Question { notice: None, glossary, topic: Topic::OtherText { index }, use_color },
                )
            },
            Topic::OtherText { index } => {
                let mut glossary: Glossary = glossary;
                if !answer.as_str().is_empty() {
                    let says: Vec<String> = glossary.entries[index].says();
                    assert(says.deep_view().len() > 0);
                    replace_entry(&mut glossary, index, says, answer);
                }
                assert(glossary@.len() == glossary.entries.len());
                let line: String = describe_entry("Updated", index, &glossary.entries[index]);
                Step::Save(Change { glossary, lines: one_line(line) })
            },
        }
    }
}

/// Where `answers`, given one after the other, lead from `step`. Those that nobody asks for are
/// left over.
pub open spec fn conversation(step: StepView, answers: Seq<Seq<char>>) -> StepView
    decreases answers.len(),
{
    match step {
        StepView::Ask(question) if answers.len() > 0 => conversation(
            next_step(question, answers.first()),
            answers.drop_first(),
        ),
        _ => step,
    }
}

/// Texts without the white space at their ends.
pub open spec fn all_trimmed(texts: Seq<Seq<char>>) -> Seq<Seq<char>> {
    texts.map_values(|text: Seq<char>| crate::text::trimmed(text))
}

/// None of the texts is empty or nothing but white space.
pub open spec fn none_blank(texts: Seq<Seq<char>>) -> bool {
    forall|i: int| 0 <= i < texts.len() ==> !crate::text::blank(#[trigger] texts[i])
}

/// Phrases that are given for a new entry are collected until an empty answer.
proof fn lemma_new_phrases_are_collected(
    question: QuestionView,
    phrases: Seq<Seq<char>>,
    stop: Seq<char>,
    rest: Seq<Seq<char>>,
)
    requires
        question.topic is NewPhrase,
        none_blank(phrases),
        crate::text::blank(stop),
        question.topic->NewPhrase_says.len() + phrases.len() > 0,
    ensures
        conversation(StepView::Ask(question), phrases + seq![stop] + rest) == conversation(
            phrases_known(
                question.entries,
                question.topic->NewPhrase_says + all_trimmed(phrases),
                question.topic->NewPhrase_text,
                question.use_color,
            ),
            rest,
        ),
    decreases phrases.len(),
{
    let says = question.topic->NewPhrase_says;
    let answers = phrases + seq![stop] + rest;
    if phrases.len() == 0 {
        crate::text::lemma_trimmed_is_empty(stop);
        assert(answers.first() == stop);
        assert(answers.drop_first() == rest);
        assert(says + all_trimmed(phrases) == says);
    } else {
        let phrase = phrases.first();
        assert(!crate::text::blank(phrases[0]));
        crate::text::lemma_trimmed_is_empty(phrase);
        let others = phrases.drop_first();
        assert(none_blank(others)) by {
            assert forall|i: int| 0 <= i < others.len() implies !crate::text::blank(
                #[trigger] others[i],
            ) by {
                assert(others[i] == phrases[i + 1]);
            }
        }
        assert(answers.first() == phrase);
        assert(answers.drop_first() == others + seq![stop] + rest);
        let next = next_step(question, phrase)->Ask_0;
        lemma_new_phrases_are_collected(next, others, stop, rest);
        assert(says.push(crate::text::trimmed(phrase)) + all_trimmed(others) == says + all_trimmed(
            phrases,
        ));
    }
}

/// Phrases that are given for an entry that is edited are collected until an empty answer.
proof fn lemma_other_phrases_are_collected(
    question: QuestionView,
    phrases: Seq<Seq<char>>,
    stop: Seq<char>,
    rest: Seq<Seq<char>>,
)
    requires
        question.topic is OtherPhrase,
        none_blank(phrases),
        crate::text::blank(stop),
    ensures
        ({
            let index = question.topic->OtherPhrase_index;
            let says = question.topic->OtherPhrase_says + all_trimmed(phrases);
            conversation(StepView::Ask(question), phrases + seq![stop] + rest) == conversation(
                StepView::Ask(
                    QuestionView {
                        notice: None,
                        entries: if says.len() > 0 {
                            question.entries.update(
                                index,
                                EntryView { says, ..question.entries[index] },
                            )
                        } else {
                            question.entries
                        },
                        topic: TopicView::OtherText { index },
                        use_color: question.use_color,
                    },
                ),
                rest,
            )
        }),
    decreases phrases.len(),
{
    let says = question.topic->OtherPhrase_says;
    let answers = phrases + seq![stop] + rest;
    if phrases.len() == 0 {
        crate::text::lemma_trimmed_is_empty(stop);
        assert(answers.first() == stop);
        assert(answers.drop_first() == rest);
        assert(says + all_trimmed(phrases) == says);
    } else {
        let phrase = phrases.first();
        assert(!crate::text::blank(phrases[0]));
        crate::text::lemma_trimmed_is_empty(phrase);
        let others = phrases.drop_first();
        assert(none_blank(others)) by {
            assert forall|i: int| 0 <= i < others.len() implies !crate::text::blank(
                #[trigger] others[i],
            ) by {
                assert(others[i] == phrases[i + 1]);
            }
        }
        assert(answers.first() == phrase);
        assert(answers.drop_first() == others + seq![stop] + rest);
        let next = next_step(question, phrase)->Ask_0;
        lemma_other_phrases_are_collected(next, others, stop, rest);
        assert(says.push(crate::text::trimmed(phrase)) + all_trimmed(others) == says + all_trimmed(
            phrases,
        ));
    }
}

/// `whisrs glossary add` without options asks for phrases until an empty answer, then for the
/// text, and saves the glossary with the entry made of them, trimmed, behind the others.
pub proof fn law_add_asks_for_phrases_and_text(
    entries: Seq<EntryView>,
    phrases: Seq<Seq<char>>,
    stop: Seq<char>,
    text: Seq<char>,
    use_color: bool,
)
    requires
        phrases.len() > 0,
        none_blank(phrases),
        crate::text::blank(stop),
        !crate::text::blank(text),
    ensures
        ({
            let entry = EntryView {
                says: all_trimmed(phrases),
                text: crate::text::trimmed(text),
            };
            conversation(
                first_step(CmdView::Add { say: None, text: None }, entries, use_color),
                phrases + seq![stop, text],
            ) == StepView::Save {
                entries: entries.push(entry),
                lines: added_lines(entries.len() as int, entry, use_color),
            }
        }),
{
    let question = first_step(CmdView::Add { say: None, text: None }, entries, use_color)->Ask_0;
    assert(phrases + seq![stop, text] == phrases + seq![stop] + seq![text]);
    lemma_new_phrases_are_collected(question, phrases, stop, seq![text]);
    let says = all_trimmed(phrases);
    assert(Seq::<Seq<char>>::empty() + says == says);
    crate::text::lemma_trimmed_is_empty(text);
    crate::text::lemma_trimmed_twice(text);
    crate::text::lemma_trimmed_is_empty(crate::text::trimmed(text));
    let asked = phrases_known(entries, says, None, use_color);
    assert(seq![text].drop_first().len() == 0);
    assert(conversation(asked, seq![text]) == conversation(
        next_step(asked->Ask_0, text),
        seq![text].drop_first(),
    ));
}

/// With the text given as an option, `whisrs glossary add` asks for the phrases alone; the text
/// is taken as it is.
pub proof fn law_add_takes_a_given_text_as_it_is(
    entries: Seq<EntryView>,
    phrases: Seq<Seq<char>>,
    stop: Seq<char>,
    text: Seq<char>,
    use_color: bool,
)
    requires
        phrases.len() > 0,
        none_blank(phrases),
        crate::text::blank(stop),
    ensures
        conversation(
            first_step(CmdView::Add { say: None, text: Some(text) }, entries, use_color),
            phrases + seq![stop],
        ) == adding(entries, all_trimmed(phrases), text, use_color),
{
    let question = first_step(
        CmdView::Add { say: None, text: Some(text) },
        entries,
        use_color,
    )->Ask_0;
    let none = Seq::<Seq<char>>::empty();
    assert(phrases + seq![stop] == phrases + seq![stop] + none);
    lemma_new_phrases_are_collected(question, phrases, stop, none);
    assert(none + all_trimmed(phrases) == all_trimmed(phrases));
}

/// `whisrs glossary edit` replaces the phrases of the entry, where any are given, and its text,
/// where one is given, and leaves every other entry as it is.
pub proof fn law_edit_replaces_what_is_given(
    entries: Seq<EntryView>,
    index: int,
    phrases: Seq<Seq<char>>,
    stop: Seq<char>,
    text: Seq<char>,
    use_color: bool,
)
    requires
        0 <= index < entries.len(),
        none_blank(phrases),
        crate::text::blank(stop),
    ensures
        ({
            let entry = EntryView {
                says: if phrases.len() > 0 {
                    all_trimmed(phrases)
                } else {
                    entries[index].says
                },
                text: if crate::text::blank(text) {
                    entries[index].text
                } else {
                    crate::text::trimmed(text)
                },
            };
            conversation(
                first_step(CmdView::Edit { index }, entries, use_color),
                phrases + seq![stop, text],
            ) == StepView::Save {
                entries: entries.update(index, entry),
                lines: seq![entry_line("Updated"@, index, entry)],
            }
        }),
{
    let question = first_step(CmdView::Edit { index }, entries, use_color)->Ask_0;
    assert(phrases + seq![stop, text] == phrases + seq![stop] + seq![text]);
    lemma_other_phrases_are_collected(question, phrases, stop, seq![text]);
    let says = all_trimmed(phrases);
    assert(Seq::<Seq<char>>::empty() + says == says);
    crate::text::lemma_trimmed_is_empty(text);
    let halfway = if says.len() > 0 {
        entries.update(index, EntryView { says, ..entries[index] })
    } else {
        entries
    };
    let asked = StepView::Ask(
        QuestionView {
            notice: None,
            entries: halfway,
            topic: TopicView::OtherText { index },
            use_color,
        },
    );
    assert(seq![text].drop_first().len() == 0);
    assert(conversation(asked, seq![text]) == conversation(
        next_step(asked->Ask_0, text),
        seq![text].drop_first(),
    ));
    let entry = EntryView {
        says: if phrases.len() > 0 {
            says
        } else {
            entries[index].says
        },
        text: if crate::text::blank(text) {
            entries[index].text
        } else {
            crate::text::trimmed(text)
        },
    };
    let changed = next_step(asked->Ask_0, text)->entries;
    assert(changed == entries.update(index, entry));
}

/// What a subcommand may have made of the entries when it saves them: `add` put an entry with a
/// phrase and with a text behind them, `edit` changed at most the entry at its index, `remove`
/// took out the entry at its index, and `list` saves nothing.
pub open spec fn may_become(cmd: CmdView, entries: Seq<EntryView>, saved: Seq<EntryView>) -> bool {
    match cmd {
        CmdView::Add { say, text } => {
            &&& saved.len() == entries.len() + 1
            &&& saved.drop_last() == entries
            &&& saved.last().says.len() > 0
            &&& !crate::text::blank(saved.last().text)
        },
        CmdView::List => false,
        CmdView::Edit { index } => {
            &&& 0 <= index < entries.len()
            &&& saved == entries.update(index, saved[index])
        },
        CmdView::Remove { index } => 0 <= index < entries.len() && saved == entries.remove(index),
    }
}

/// The questions that a subcommand may come to.
spec fn may_ask(cmd: CmdView, entries: Seq<EntryView>, question: QuestionView) -> bool {
    match question.topic {
        TopicView::NewPhrase { says, text } => cmd is Add && question.entries == entries,
        TopicView::NewText { says } => cmd is Add && question.entries == entries && says.len() > 0,
        TopicView::OtherPhrase { index, says } => {
            &&& cmd == CmdView::Edit { index }
            &&& 0 <= index < entries.len()
            &&& question.entries == entries
        },
        TopicView::OtherText { index } => {
            &&& cmd == CmdView::Edit { index }
            &&& may_become(cmd, entries, question.entries)
        },
    }
}

/// The steps that a subcommand may come to.
spec fn may_reach(cmd: CmdView, entries: Seq<EntryView>, step: StepView) -> bool {
    match step {
        StepView::Ask(question) => may_ask(cmd, entries, question),
        StepView::Save { entries: saved, lines } => may_become(cmd, entries, saved),
        _ => true,
    }
}

proof fn lemma_answers_keep_within_reach(
    cmd: CmdView,
    entries: Seq<EntryView>,
    step: StepView,
    answers: Seq<Seq<char>>,
)
    requires
        may_reach(cmd, entries, step),
    ensures
        may_reach(cmd, entries, conversation(step, answers)),
    decreases answers.len(),
{
    if step is Ask && answers.len() > 0 {
        let question = step->Ask_0;
        let next = next_step(question, answers.first());
        match question.topic {
            TopicView::OtherPhrase { index, says } => {
                assert(entries == entries.update(index, entries[index]));
            },
            TopicView::OtherText { index } => {
                let changed = next->entries;
                assert(changed == entries.update(index, changed[index]));
            },
            _ => {
                let saved = entries.push(next->Save_entries.last());
                assert(saved.drop_last() == entries);
            },
        }
        lemma_answers_keep_within_reach(cmd, entries, next, answers.drop_first());
    }
}

/// Whatever the user answers, a subcommand changes what it is for and nothing else.
pub proof fn law_only_what_was_asked_for_changes(
    cmd: CmdView,
    entries: Seq<EntryView>,
    use_color: bool,
    answers: Seq<Seq<char>>,
)
    requires
        match cmd {
            CmdView::Edit { index } => index >= 0,
            CmdView::Remove { index } => index >= 0,
            _ => true,
        },
    ensures
        match conversation(first_step(cmd, entries, use_color), answers) {
            StepView::Save { entries: saved, lines } => may_become(cmd, entries, saved),
            _ => true,
        },
{
    let first = first_step(cmd, entries, use_color);
    if first is Save && cmd is Add {
        assert(first->Save_entries.drop_last() == entries);
    }
    lemma_answers_keep_within_reach(cmd, entries, first, answers);
}

/// The index of no entry is refused at once, whatever would be answered, and nothing is saved.
pub proof fn law_unknown_index_is_refused(
    entries: Seq<EntryView>,
    index: int,
    use_color: bool,
    answers: Seq<Seq<char>>,
)
    requires
        index >= entries.len(),
    ensures
        conversation(first_step(CmdView::Edit { index }, entries, use_color), answers) == no_entry(
            index,
            entries,
        ),
        conversation(first_step(CmdView::Remove { index }, entries, use_color), answers)
            == no_entry(index, entries),
{
}

/// What is added is what is typed: once the entry for `phrases` and `text` is saved, a transcript
/// that is one of the phrases, up to normalization, is replaced by the text, unless an entry
/// before it answers to the transcript.
pub proof fn law_added_phrases_are_replaced(
    entries: Seq<EntryView>,
    phrases: Seq<Seq<char>>,
    stop: Seq<char>,
    text: Seq<char>,
    use_color: bool,
    k: int,
    transcript: Seq<char>,
)
    requires
        none_blank(phrases),
        crate::text::blank(stop),
        !crate::text::blank(text),
        0 <= k < phrases.len(),
        crate::config::glossary::normalized(transcript) == crate::config::glossary::normalized(
            phrases[k],
        ),
        crate::config::glossary::replacement(entries, transcript) is None,
    ensures
        ({
            let end = conversation(
                first_step(CmdView::Add { say: None, text: None }, entries, use_color),
                phrases + seq![stop, text],
            );
            &&& end is Save
            &&& crate::config::glossary::replacement(end->Save_entries, transcript) == Some(
                crate::text::trimmed(text),
            )
        }),
{
    law_add_asks_for_phrases_and_text(entries, phrases, stop, text, use_color);
    let entry = EntryView { says: all_trimmed(phrases), text: crate::text::trimmed(text) };
    crate::config::glossary::law_added_entry_is_found(entries, entry, transcript);
    assert(entry.says[k] == crate::text::trimmed(phrases[k]));
    crate::text::law_trimming_keeps_words(phrases[k]);
}

/// The same of phrases and a text that are given as options: the entry is saved with them as they
/// are, and a transcript that is one of the phrases, up to normalization, is replaced by the text,
/// unless an entry before it answers to the transcript.
pub proof fn law_phrases_added_by_options_are_replaced(
    entries: Seq<EntryView>,
    phrases: Seq<Seq<char>>,
    text: Seq<char>,
    use_color: bool,
    k: int,
    transcript: Seq<char>,
)
    requires
        !crate::text::blank(text),
        0 <= k < phrases.len(),
        crate::config::glossary::normalized(transcript) == crate::config::glossary::normalized(
            phrases[k],
        ),
        crate::config::glossary::replacement(entries, transcript) is None,
    ensures
        ({
            let entry = EntryView { says: phrases, text };
            let end = first_step(
                CmdView::Add { say: Some(phrases), text: Some(text) },
                entries,
                use_color,
            );
            &&& end == StepView::Save {
                entries: entries.push(entry),
                lines: added_lines(entries.len() as int, entry, use_color),
            }
            &&& crate::config::glossary::replacement(end->Save_entries, transcript) == Some(text)
        }),
{
    let entry = EntryView { says: phrases, text };
    crate::config::glossary::law_added_entry_is_found(entries, entry, transcript);
    assert(entry.says[k] == phrases[k]);
}

/// With the phrases given as options, `whisrs glossary add` asks for the text alone: the phrases
/// are taken as they are, and a transcript that is one of them is replaced by the answer, trimmed.
pub proof fn law_phrases_by_options_with_text_asked_for_are_replaced(
    entries: Seq<EntryView>,
    phrases: Seq<Seq<char>>,
    text: Seq<char>,
    use_color: bool,
    k: int,
    transcript: Seq<char>,
)
    requires
        !crate::text::blank(text),
        0 <= k < phrases.len(),
        crate::config::glossary::normalized(transcript) == crate::config::glossary::normalized(
            phrases[k],
        ),
        crate::config::glossary::replacement(entries, transcript) is None,
    ensures
        ({
            let entry = EntryView { says: phrases, text: crate::text::trimmed(text) };
            let end = conversation(
                first_step(CmdView::Add { say: Some(phrases), text: None }, entries, use_color),
                seq![text],
            );
            &&& end == StepView::Save {
                entries: entries.push(entry),
                lines: added_lines(entries.len() as int, entry, use_color),
            }
            &&& crate::config::glossary::replacement(end->Save_entries, transcript) == Some(
                crate::text::trimmed(text),
            )
        }),
{
    let typed = crate::text::trimmed(text);
    crate::text::lemma_trimmed_is_empty(text);
    crate::text::lemma_trimmed_twice(text);
    crate::text::lemma_trimmed_is_empty(typed);
    let asked = first_step(CmdView::Add { say: Some(phrases), text: None }, entries, use_color);
    assert(seq![text].drop_first().len() == 0);
    assert(conversation(asked, seq![text]) == conversation(
        next_step(asked->Ask_0, text),
        seq![text].drop_first(),
    ));
    law_phrases_added_by_options_are_replaced(entries, phrases, typed, use_color, k, transcript);
}

/// `whisrs glossary remove` with the index of an entry takes that entry out, and it alone, whatever
/// entry it is: those before it keep their places, those behind it move up by one, and the user is
/// told in one line what was removed.
pub proof fn law_remove_takes_out_the_entry_at_its_index(
    entries: Seq<EntryView>,
    index: int,
    use_color: bool,
)
    requires
        0 <= index < entries.len(),
    ensures
        ({
            let step = first_step(CmdView::Remove { index }, entries, use_color);
            let saved = step->Save_entries;
            let line = "Removed"@ + " #"@ + crate::text::decimal(index as nat) + ": [\""@
                + crate::text::joined(entries[index].says, "\", \""@) + "\"] -> \""@
                + entries[index].text + "\""@;
            &&& step is Save
            &&& saved == entries.remove(index)
            &&& saved.len() == entries.len() - 1
            &&& forall|j: int| 0 <= j < index ==> #[trigger] saved[j] == entries[j]
            &&& forall|j: int| index <= j < saved.len() ==> #[trigger] saved[j] == entries[j + 1]
            &&& step->lines.len() == 1
            &&& !use_color ==> step->lines[0] == line
            &&& use_color ==> step->lines[0] == "\x1b[31m"@ + line + "\x1b[0m"@
        }),
{
}

/// `whisrs glossary edit` with the index of an entry, whatever entry it is, shows that entry and
/// asks for its phrases, with the glossary as it was.
pub proof fn law_edit_asks_about_the_entry_at_its_index(
    entries: Seq<EntryView>,
    index: int,
    use_color: bool,
)
    requires
        0 <= index < entries.len(),
    ensures
        ({
            let step = first_step(CmdView::Edit { index }, entries, use_color);
            let question = step->Ask_0;
            &&& step is Ask
            &&& question.notice == Some(
                "Editing"@ + " #"@ + crate::text::decimal(index as nat) + ": [\""@
                    + crate::text::joined(entries[index].says, "\", \""@) + "\"] -> \""@
                    + entries[index].text + "\""@,
            )
            &&& question.entries == entries
            &&& question.topic is OtherPhrase
            &&& question.topic->OtherPhrase_index == index
            &&& question.topic->OtherPhrase_says.len() == 0
            &&& question.use_color == use_color
        }),
{
}

/// `whisrs glossary edit` and `whisrs glossary remove` with an index that no entry has fail with a
/// message that tells the index and how many entries there are.
pub proof fn law_refusal_tells_index_and_count(
    entries: Seq<EntryView>,
    index: int,
    use_color: bool,
)
    requires
        index >= entries.len(),
    ensures
        ({
            let message = "no entry at index "@ + crate::text::decimal(index as nat) + " (have "@
                + crate::text::decimal(entries.len()) + ") \u{2014} run `whisrs glossary list`"@;
            &&& first_step(CmdView::Edit { index }, entries, use_color) == StepView::Fail(message)
            &&& first_step(CmdView::Remove { index }, entries, use_color) == StepView::Fail(message)
        }),
{
}

/// `whisrs glossary list` prints a heading and, for each entry in its place, a line with its index,
/// its phrases and its text; and where there is no entry, how to add one.
pub proof fn law_list_shows_every_entry(entries: Seq<EntryView>, k: int)
    ensures
        first_step(CmdView::List, entries, false) is Print,
        first_step(CmdView::List, entries, true) is Print,
        entries.len() == 0 ==> {
            let hint = "Glossary is empty. Add an entry with: whisrs glossary add"@;
            &&& first_step(CmdView::List, entries, false) == StepView::Print(seq![hint])
            &&& first_step(CmdView::List, entries, true) == StepView::Print(seq![hint])
        },
        0 <= k < entries.len() ==> {
            let plain = first_step(CmdView::List, entries, false)->Print_0;
            let colored = first_step(CmdView::List, entries, true)->Print_0;
            let index = crate::text::left_aligned(crate::text::decimal(k as nat), 5);
            let rest = " "@ + crate::text::joined(entries[k].says, ", "@) + "  ->  "@
                + entries[k].text;
            &&& plain.len() == 1 + entries.len()
            &&& colored.len() == 1 + entries.len()
            &&& plain[0] == "Index  Say  ->  Type"@
            &&& colored[0] == plain[0]
            &&& plain[k + 1] == index + rest
            &&& colored[k + 1] == "\x1b[36m"@ + index + "\x1b[0m"@ + rest
        },
{
    if 0 <= k < entries.len() {
        let plain = list_lines(entries, false);
        let colored = list_lines(entries, true);
        let index = crate::text::left_aligned(crate::text::decimal(k as nat), 5);
        let rest = " "@ + crate::text::joined(entries[k].says, ", "@) + "  ->  "@ + entries[k].text;
        assert(plain[k + 1] == list_line(k, entries[k], false));
        assert(colored[k + 1] == list_line(k, entries[k], true));
        assert(plain[k + 1] == index + rest);
        assert(colored[k + 1] == "\x1b[36m"@ + index + "\x1b[0m"@ + rest);
    }
}

/// `whisrs glossary add` with phrases and a text adds the entry made of them, as they are, behind
/// the others, which stay as they are, and tells its index; a text of white space alone is refused.
pub proof fn law_add_by_options_adds_behind_the_others(
    entries: Seq<EntryView>,
    says: Seq<Seq<char>>,
    text: Seq<char>,
    use_color: bool,
)
    requires
        says.len() > 0,
    ensures
        ({
            let step = first_step(
                CmdView::Add { say: Some(says), text: Some(text) },
                entries,
                use_color,
            );
            let saved = step->Save_entries;
            let line = "Added"@ + " #"@ + crate::text::decimal(entries.len()) + ": [\""@
                + crate::text::joined(says, "\", \""@) + "\"] -> \""@ + text + "\""@;
            &&& crate::text::blank(text) ==> step == StepView::Fail("type must not be empty"@)
            &&& !crate::text::blank(text) ==> {
                &&& step is Save
                &&& saved.len() == entries.len() + 1
                &&& forall|j: int| 0 <= j < entries.len() ==> #[trigger] saved[j] == entries[j]
                &&& saved[entries.len() as int].says == says
                &&& saved[entries.len() as int].text == text
                &&& step->lines.len() == 2
                &&& !use_color ==> step->lines[0] == line
                &&& use_color ==> step->lines[0] == "\x1b[32m"@ + line + "\x1b[0m"@
                &&& step->lines[1]
                    == "Restart the daemon to pick it up: systemctl --user restart whisrs"@
            }
        }),
{
}

/// `whisrs glossary add` asks for phrases where none is given, and for the text where phrases are
/// given and it is not; what is given is kept, and the glossary is as it was.
pub proof fn law_add_asks_for_what_is_not_given(
    entries: Seq<EntryView>,
    says: Seq<Seq<char>>,
    text: Option<Seq<char>>,
    use_color: bool,
)
    ensures
        ({
            let none = first_step(CmdView::Add { say: None, text }, entries, use_color);
            let some = first_step(CmdView::Add { say: Some(says), text }, entries, use_color);
            &&& none is Ask
            &&& none->Ask_0.notice is None
            &&& none->Ask_0.entries == entries
            &&& none->Ask_0.topic is NewPhrase
            &&& none->Ask_0.topic->NewPhrase_says.len() == 0
            &&& none->Ask_0.topic->NewPhrase_text == text
            &&& none->Ask_0.use_color == use_color
            &&& says.len() == 0 ==> some == none
            &&& says.len() > 0 && text is None ==> {
                &&& some is Ask
                &&& some->Ask_0.notice is None
                &&& some->Ask_0.entries == entries
                &&& some->Ask_0.topic is NewText
                &&& some->Ask_0.topic->NewText_says == says
                &&& some->Ask_0.use_color == use_color
            }
        }),
{
}

/// An answer with something in it to the question for a phrase is a phrase, trimmed, behind those
/// given before, and another is asked for.
pub proof fn law_phrases_are_collected_one_by_one(question: QuestionView, input: Seq<char>)
    requires
        question.topic is NewPhrase || question.topic is OtherPhrase,
        !crate::text::blank(input),
    ensures
        ({
            let step = next_step(question, input);
            let next = step->Ask_0;
            &&& step is Ask
            &&& next.notice is None
            &&& next.entries == question.entries
            &&& next.use_color == question.use_color
            &&& question.topic matches TopicView::NewPhrase { says, text } ==> {
                &&& next.topic is NewPhrase
                &&& next.topic->NewPhrase_says == says + seq![crate::text::trimmed(input)]
                &&& next.topic->NewPhrase_text == text
            }
            &&& question.topic matches TopicView::OtherPhrase { index, says } ==> {
                &&& next.topic is OtherPhrase
                &&& next.topic->OtherPhrase_index == index
                &&& next.topic->OtherPhrase_says == says + seq![crate::text::trimmed(input)]
            }
        }),
{
    crate::text::lemma_trimmed_is_empty(input);
}

/// A blank answer to the question for a phrase of a new entry ends the phrases: without any there
/// is nothing to add, and otherwise what is asked for or done is what it would be with the phrases
/// given as options.
pub proof fn law_blank_answer_ends_new_phrases(question: QuestionView, input: Seq<char>)
    requires
        question.topic is NewPhrase,
        crate::text::blank(input),
    ensures
        question.topic->NewPhrase_says.len() == 0 ==> next_step(question, input) == StepView::Fail(
            "no phrase given \u{2014} nothing to add"@,
        ),
        question.topic->NewPhrase_says.len() > 0 ==> next_step(question, input) == first_step(
            CmdView::Add {
                say: Some(question.topic->NewPhrase_says),
                text: question.topic->NewPhrase_text,
            },
            question.entries,
            question.use_color,
        ),
{
    crate::text::lemma_trimmed_is_empty(input);
}

/// The answer to the question for the text of a new entry is its text, trimmed: what is done is
/// what it would be with the phrases and that text given as options. A blank answer is refused.
pub proof fn law_text_of_a_new_entry_completes_it(question: QuestionView, input: Seq<char>)
    requires
        question.topic is NewText,
        question.topic->NewText_says.len() > 0,
    ensures
        crate::text::blank(input) ==> next_step(question, input) == StepView::Fail(
            "type must not be empty"@,
        ),
        !crate::text::blank(input) ==> {
            let step = next_step(question, input);
            &&& step is Save
            &&& step == first_step(
                CmdView::Add {
                    say: Some(question.topic->NewText_says),
                    text: Some(crate::text::trimmed(input)),
                },
                question.entries,
                question.use_color,
            )
        },
{
    crate::text::lemma_trimmed_is_empty(input);
    crate::text::lemma_trimmed_twice(input);
    crate::text::lemma_trimmed_is_empty(crate::text::trimmed(input));
}

/// A blank answer to the question for a phrase of an entry that is edited ends the phrases: those
/// given, if any, take the place of the entry's, its text and all other entries stay, and the text
/// is asked for.
pub proof fn law_blank_answer_ends_other_phrases(question: QuestionView, input: Seq<char>, j: int)
    requires
        question.topic is OtherPhrase,
        0 <= question.topic->OtherPhrase_index < question.entries.len(),
        crate::text::blank(input),
    ensures
        ({
            let index = question.topic->OtherPhrase_index;
            let says = question.topic->OtherPhrase_says;
            let step = next_step(question, input);
            let next = step->Ask_0;
            &&& step is Ask
            &&& next.notice is None
            &&& next.use_color == question.use_color
            &&& next.topic is OtherText
            &&& next.topic->OtherText_index == index
            &&& next.entries.len() == question.entries.len()
            &&& 0 <= j < question.entries.len() && j != index ==> next.entries[j]
                == question.entries[j]
            &&& next.entries[index].text == question.entries[index].text
            &&& says.len() == 0 ==> next.entries[index].says == question.entries[index].says
            &&& says.len() > 0 ==> next.entries[index].says == says
        }),
{
    crate::text::lemma_trimmed_is_empty(input);
}

/// The answer to the question for the text of an entry that is edited ends the conversation: the
/// glossary is saved with the answer, trimmed, in the place of the entry's text, or with the text
/// that it had where the answer is blank; its phrases and all other entries stay.
pub proof fn law_other_text_completes_the_edit(question: QuestionView, input: Seq<char>, j: int)
    requires
        question.topic is OtherText,
        0 <= question.topic->OtherText_index < question.entries.len(),
    ensures
        ({
            let index = question.topic->OtherText_index;
            let step = next_step(question, input);
            let saved = step->Save_entries;
            &&& step is Save
            &&& saved.len() == question.entries.len()
            &&& 0 <= j < question.entries.len() && j != index ==> saved[j] == question.entries[j]
            &&& saved[index].says == question.entries[index].says
            &&& crate::text::blank(input) ==> saved[index].text == question.entries[index].text
            &&& !crate::text::blank(input) ==> saved[index].text == crate::text::trimmed(input)
            &&& step->lines.len() == 1
            &&& step->lines[0] == "Updated"@ + " #"@ + crate::text::decimal(index as nat)
                + ": [\""@ + crate::text::joined(saved[index].says, "\", \""@) + "\"] -> \""@
                + saved[index].text + "\""@
        }),
{
    crate::text::lemma_trimmed_is_empty(input);
}

/// What the user is asked for a phrase depends on whether one was given before, and on whether the
/// entry is new; and for a text, on whether the entry is new.
pub proof fn law_prompts(
    says: Seq<Seq<char>>,
    text: Option<Seq<char>>,
    index: int,
)
    ensures
        says.len() == 0 ==> {
            &&& prompt(TopicView::NewPhrase { says, text })
                == "What phrase do you say? (e.g. \"la mia email\")"@
            &&& prompt(TopicView::OtherPhrase { index, says })
                == "New phrase (empty keeps current / stops)"@
        },
        says.len() > 0 ==> {
            &&& prompt(TopicView::NewPhrase { says, text })
                == "Another phrase for the same text? (empty to finish)"@
            &&& prompt(TopicView::OtherPhrase { index, says }) == "Another phrase (empty to stop)"@
        },
        prompt(TopicView::NewText { says })
            == "What text should be typed? (e.g. \"nome@example.com\")"@,
        prompt(TopicView::OtherText { index }) == "New text (empty keeps current)"@,
{
}

/// A conversation goes on answer by answer while there is a question and an answer to it, and ends
/// where there is none.
pub proof fn law_conversation_goes_answer_by_answer(
    step: StepView,
    question: QuestionView,
    answer: Seq<char>,
    rest: Seq<Seq<char>>,
)
    ensures
        conversation(StepView::Ask(question), seq![answer] + rest) == conversation(
            next_step(question, answer),
            rest,
        ),
        conversation(step, Seq::empty()) == step,
        !(step is Ask) ==> conversation(step, rest) == step,
{
    let answers = seq![answer] + rest;
    assert(answers.first() == answer);
    assert(answers.drop_first() == rest);
}

/// Trimming texts trims each of them, in its place; and it is enough that each of them has
/// something in it for none to be blank.
pub proof fn law_texts_are_taken_one_by_one(texts: Seq<Seq<char>>)
    ensures
        all_trimmed(texts).len() == texts.len(),
        forall|k: int|
            0 <= k < texts.len() ==> all_trimmed(texts)[k] == crate::text::trimmed(
                #[trigger] texts[k],
            ),
        none_blank(texts) <==> forall|k: int|
            0 <= k < texts.len() ==> !crate::text::blank(#[trigger] texts[k]),
{
}

/// A subcommand is seen with all that it was given.
pub proof fn law_subcommand_is_seen_as_it_is(
    says: Vec<String>,
    text: String,
    index: usize,
    k: int,
)
    ensures
        (GlossaryCmd::List)@ == CmdView::List,
        (GlossaryCmd::Edit { index })@ == (CmdView::Edit { index: index as int }),
        (GlossaryCmd::Remove { index })@ == (CmdView::Remove { index: index as int }),
        (GlossaryCmd::Add { say: None, text: None })@ == (CmdView::Add { say: None, text: None }),
        (GlossaryCmd::Add { say: None, text: Some(text) })@ == (CmdView::Add {
            say: None,
            text: Some(text@),
        }),
        ({
            let seen = (GlossaryCmd::Add { say: Some(says), text: Some(text) })@;
            &&& seen is Add
            &&& seen->Add_say is Some
            &&& seen->Add_say->Some_0.len() == says.len()
            &&& 0 <= k < says.len() ==> seen->Add_say->Some_0[k] == says[k]@
            &&& seen->Add_text == Some(text@)
            &&& (GlossaryCmd::Add { say: Some(says), text: None })@ == (CmdView::Add {
                say: seen->Add_say,
                text: None,
            })
        }),
{
}

/// A step is seen with all that it holds.
pub proof fn law_step_is_seen_as_it_is(
    question: Question,
    change: Change,
    lines: Vec<String>,
    message: String,
    k: int,
)
    ensures
        Step::Ask(question)@ == StepView::Ask(question@),
        Step::Fail(message)@ == StepView::Fail(message@),
        Step::Print(lines)@ is Print,
        Step::Print(lines)@->Print_0.len() == lines.len(),
        0 <= k < lines.len() ==> Step::Print(lines)@->Print_0[k] == lines[k]@,
        Step::Save(change)@ is Save,
        Step::Save(change)@->Save_entries == change.glossary@,
        Step::Save(change)@->lines.len() == change.lines.len(),
        0 <= k < change.lines.len() ==> Step::Save(change)@->lines[k] == change.lines[k]@,
{
}

/// What the user is told where the glossary at `path` cannot be loaded.
pub fn load_failed(path: &str, error: &str) -> (res: String)
    ensures
        res@ == "failed to load glossary at "@ + path@ + ": "@ + error@,
{
    let mut res: String = "failed to load glossary at ".to_owned();
    res.append(path);
    res.append(": ");
    res.append(error);
    res
}

/// What the user is told where the glossary at `path` cannot be written.
pub fn write_failed(path: &str, error: &str) -> (res: String)
    ensures
        res@ == "failed to write glossary at "@ + path@ + ": "@ + error@,
{
    let mut res: String = "failed to write glossary at ".to_owned();
    res.append(path);
    res.append(": ");
    res.append(error);
    res
}

/// What the user is told where a question comes up and there is no terminal to ask it on.
pub fn no_terminal() -> (res: String)
    ensures
        res@
            == "interactive prompt requires a terminal \u{2014} pass --say/--type instead"@,
{
    "interactive prompt requires a terminal \u{2014} pass --say/--type instead".to_owned()
}

/// What the user is told where the answer to a question cannot be read.
pub fn read_failed(error: &str) -> (res: String)
    ensures
        res@ == "failed to read input: "@ + error@,
{
    let mut res: String = "failed to read input: ".to_owned();
    res.append(error);
    res
}

} // verus!
