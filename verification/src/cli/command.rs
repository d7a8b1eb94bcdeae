//! The subcommands of `whisrs`, and what each of them sets going.

use crate::cli::glossary::GlossaryCmd;
use crate::text::{chars_of, same_text};
use vstd::prelude::*;

verus! {

/// Subcommands of `whisrs`.
#[derive(Debug, Clone)]
pub enum SubCmd {
    /// Interactive onboarding: pick a backend, set API key, test microphone.
    Setup,
    /// Edit any part of `config.toml`; restarts the daemon on save.
    Config,
    /// Toggle recording on or off, with a transcription language for this session.
    Toggle { language: Option<String> },
    /// Cancel the current recording and discard audio.
    Cancel,
    /// Query the daemon state.
    Status,
    /// Show the last `limit` entries of the transcription history, or clear it.
    Log { limit: usize, clear: bool },
    /// Command mode: select text, speak an instruction, the text is rewritten in place.
    Command,
    /// Toggle a named custom LLM command.
    LlmCommand { name: String },
    /// Reprogram a named LLM command from the current selection.
    LlmCommandSet { name: String },
    /// Read the selected text aloud.
    Speak,
    /// Manage the personal glossary.
    Glossary(GlossaryCmd),
    /// Restart the daemon.
    Restart,
}

/// What the daemon can be told to do.
#[derive(Debug, Clone)]
pub enum Command {
    Toggle { language: Option<String> },
    Cancel,
    Status,
    Log { limit: usize },
    ClearHistory,
    CommandMode,
    LlmCommand { name: String },
    SetLlmInstruction { name: String },
    Speak,
}

/// What a subcommand sets going.
#[derive(Debug, Clone)]
pub enum Task {
    /// Run the onboarding.
    Setup,
    /// Run the configuration menu.
    Config,
    /// Send the daemon a command and print its response.
    Send(Command),
    /// Run a subcommand of `whisrs glossary`.
    Glossary(GlossaryCmd),
    /// Restart the daemon.
    Restart,
}

/// What a subcommand sets going.
pub open spec fn task_of(cmd: SubCmd) -> Task {
    match cmd {
        SubCmd::Setup => Task::Setup,
        SubCmd::Config => Task::Config,
        SubCmd::Toggle { language } => Task::Send(Command::Toggle { language }),
        SubCmd::Cancel => Task::Send(Command::Cancel),
        SubCmd::Status => Task::Send(Command::Status),
        SubCmd::Log { limit, clear } => if clear {
            Task::Send(Command::ClearHistory)
        } else {
            Task::Send(Command::Log { limit })
        },
        SubCmd::Command => Task::Send(Command::CommandMode),
        SubCmd::LlmCommand { name } => Task::Send(Command::LlmCommand { name }),
        SubCmd::LlmCommandSet { name } => Task::Send(Command::SetLlmInstruction { name }),
        SubCmd::Speak => Task::Send(Command::Speak),
        SubCmd::Glossary(cmd) => Task::Glossary(cmd),
        SubCmd::Restart => Task::Restart,
    }
}

/// What a subcommand sets going.
pub fn dispatch(cmd: SubCmd) -> (res: Task)
    ensures
        res == task_of(cmd),
        match cmd {
            SubCmd::Setup => res == Task::Setup,
            SubCmd::Config => res == Task::Config,
            SubCmd::Toggle { language } => res == Task::Send(Command::Toggle { language }),
            SubCmd::Cancel => res == Task::Send(Command::Cancel),
            SubCmd::Status => res == Task::Send(Command::Status),
            SubCmd::Log { limit, clear: false } => res == Task::Send(Command::Log { limit }),
            SubCmd::Log { limit, clear: true } => res == Task::Send(Command::ClearHistory),
            SubCmd::Command => res == Task::Send(Command::CommandMode),
            SubCmd::LlmCommand { name } => res == Task::Send(Command::LlmCommand { name }),
            SubCmd::LlmCommandSet { name } => res == Task::Send(
                Command::SetLlmInstruction { name },
            ),
            SubCmd::Speak => res == Task::Send(Command::Speak),
            SubCmd::Glossary(cmd) => res == Task::Glossary(cmd),
            SubCmd::Restart => res == Task::Restart,
        },
        res == Task::Send(Command::Cancel) <==> cmd == SubCmd::Cancel,
        res == Task::Send(Command::ClearHistory) <==> (cmd matches SubCmd::Log { limit, clear }
            && clear),
{
    match cmd {
        SubCmd::Setup => Task::Setup,
        SubCmd::Config => Task::Config,
        SubCmd::Toggle { language } => Task::Send(Command::Toggle { language }),
        SubCmd::Cancel => Task::Send(Command::Cancel),
        SubCmd::Status => Task::Send(Command::Status),
        SubCmd::Log { limit, clear } => {
            if clear {
                Task::Send(Command::ClearHistory)
            } else {
                Task::Send(Command::Log { limit })
            }
        },
        SubCmd::Command => Task::Send(Command::CommandMode),
        SubCmd::LlmCommand { name } => Task::Send(Command::LlmCommand { name }),
        SubCmd::LlmCommandSet { name } => Task::Send(Command::SetLlmInstruction { name }),
        SubCmd::Speak => Task::Send(Command::Speak),
        SubCmd::Glossary(cmd) => Task::Glossary(cmd),
        SubCmd::Restart => Task::Restart,
    }
}

pub open spec fn ascii_letter(c: char) -> bool {
    'a' <= c <= 'z' || 'A' <= c <= 'Z'
}

pub open spec fn ascii_digit(c: char) -> bool {
    '0' <= c <= '9'
}

/// A code of two letters, as ISO 639-1 has them for languages.
pub open spec fn language_code(s: Seq<char>) -> bool {
    s.len() == 2 && ascii_letter(s[0]) && ascii_letter(s[1])
}

/// A code of two letters or three digits, as they stand for regions.
pub open spec fn region_code(s: Seq<char>) -> bool {
    ||| s.len() == 2 && ascii_letter(s[0]) && ascii_letter(s[1])
    ||| s.len() == 3 && ascii_digit(s[0]) && ascii_digit(s[1]) && ascii_digit(s[2])
}

/// What can be given for the transcription language: a language, optionally with a region
/// (`en-US`), or `auto`.
pub open spec fn language_override(s: Seq<char>) -> bool {
    ||| s == "auto"@
    ||| language_code(s)
    ||| s.len() > 3 && language_code(s.take(2)) && s[2] == '-' && region_code(s.skip(3))
}

fn is_ascii_letter(c: char) -> (res: bool)
    ensures
        res == ascii_letter(c),
{
    ('a' <= c && c <= 'z') || ('A' <= c && c <= 'Z')
}

fn is_ascii_digit(c: char) -> (res: bool)
    ensures
        res == ascii_digit(c),
{
    '0' <= c && c <= '9'
}

/// Accepts what can be given for the transcription language, as it is, by its form.
pub fn validate_language_override(value: &str) -> (res: Result<String, String>)
    ensures
        match res {
            Ok(language) => language_override(value@) && language@ == value@,
            Err(message) => {
                &&& !language_override(value@)
                &&& message@ == "not a language code, optionally with a region, or `auto`: "@
                    + value@
            },
        },
{
    let chars: Vec<char> = chars_of(value);
    let len: usize = chars.len();
    let begins_with_language: bool = len >= 2 && is_ascii_letter(chars[0]) && is_ascii_letter(
        chars[1],
    );
    let ends_with_region: bool = (len == 5 && is_ascii_letter(chars[3]) && is_ascii_letter(
        chars[4],
    )) || (len == 6 && is_ascii_digit(chars[3]) && is_ascii_digit(chars[4]) && is_ascii_digit(
        chars[5],
    ));
    if same_text(value, "auto") || (begins_with_language && (len == 2 || (ends_with_region
        && chars[2] == '-'))) {
        return Ok(value.to_owned());
    }
    let mut message: String =
        "not a language code, optionally with a region, or `auto`: ".to_owned();
    message.append(value);
    Err(message)
}

/// `whisrs toggle` sends a toggle with the language that was given, or with none; and the
/// recording is canceled, the history cleared, the daemon restarted for the subcommand that says
/// so and for no other.
pub proof fn law_only_the_right_subcommand_does_it(
    cmd: SubCmd,
    language: Option<String>,
    limit: usize,
    name: String,
    glossary: GlossaryCmd,
)
    ensures
        task_of(cmd) == Task::Send(Command::Toggle { language }) <==> cmd == (SubCmd::Toggle {
            language,
        }),
        task_of(cmd) == Task::Send(Command::Cancel) <==> cmd == SubCmd::Cancel,
        task_of(cmd) == Task::Send(Command::Status) <==> cmd == SubCmd::Status,
        task_of(cmd) == Task::Send(Command::Log { limit }) <==> cmd == (SubCmd::Log {
            limit,
            clear: false,
        }),
        task_of(cmd) == Task::Send(Command::ClearHistory) <==> (cmd matches SubCmd::Log {
            limit: _,
            clear,
        } && clear),
        task_of(cmd) == Task::Send(Command::CommandMode) <==> cmd == SubCmd::Command,
        task_of(cmd) == Task::Send(Command::LlmCommand { name }) <==> cmd == (SubCmd::LlmCommand {
            name,
        }),
        task_of(cmd) == Task::Send(Command::SetLlmInstruction { name }) <==> cmd == (
        SubCmd::LlmCommandSet { name }),
        task_of(cmd) == Task::Send(Command::Speak) <==> cmd == SubCmd::Speak,
        task_of(cmd) == Task::Glossary(glossary) <==> cmd == SubCmd::Glossary(glossary),
        task_of(cmd) == Task::Setup <==> cmd == SubCmd::Setup,
        task_of(cmd) == Task::Config <==> cmd == SubCmd::Config,
        task_of(cmd) == Task::Restart <==> cmd == SubCmd::Restart,
{
}

/// Two subcommands that set the same going are the same, but for the number of entries given to
/// one that clears the history.
pub proof fn law_tasks_tell_subcommands_apart(a: SubCmd, b: SubCmd)
    requires
        task_of(a) == task_of(b),
    ensures
        a == b || (a matches SubCmd::Log { limit: _, clear: c } && c && (b matches SubCmd::Log {
            limit: _,
            clear: d,
        } && d)),
{
}

/// What can be given for the language, character by character: two letters, alone or followed by
/// a hyphen and two letters or three digits; or `auto`.
pub proof fn law_language_overrides_by_their_characters(s: Seq<char>)
    ensures
        language_override(s) ==> s == "auto"@ || s.len() == 2 || s.len() == 5 || s.len() == 6,
        language_override("auto"@),
        s != "auto"@ && language_override(s) ==> {
            &&& 'a' <= s[0] <= 'z' || 'A' <= s[0] <= 'Z'
            &&& 'a' <= s[1] <= 'z' || 'A' <= s[1] <= 'Z'
            &&& s.len() > 2 ==> s[2] == '-'
            &&& s.len() == 5 ==> ('a' <= s[3] <= 'z' || 'A' <= s[3] <= 'Z') && ('a' <= s[4] <= 'z'
                || 'A' <= s[4] <= 'Z')
            &&& s.len() == 6 ==> '0' <= s[3] <= '9' && '0' <= s[4] <= '9' && '0' <= s[5] <= '9'
        },
        ({
            &&& s.len() == 2 || s.len() == 5 || s.len() == 6
            &&& 'a' <= s[0] <= 'z' || 'A' <= s[0] <= 'Z'
            &&& 'a' <= s[1] <= 'z' || 'A' <= s[1] <= 'Z'
            &&& s.len() > 2 ==> s[2] == '-'
            &&& s.len() == 5 ==> ('a' <= s[3] <= 'z' || 'A' <= s[3] <= 'Z') && ('a' <= s[4] <= 'z'
                || 'A' <= s[4] <= 'Z')
            &&& s.len() == 6 ==> '0' <= s[3] <= '9' && '0' <= s[4] <= '9' && '0' <= s[5] <= '9'
        }) ==> language_override(s),
{
    if s.len() > 3 {
        assert(s.take(2).len() == 2);
        assert(s.skip(3).len() == s.len() - 3);
        assert(s.take(2)[0] == s[0] && s.take(2)[1] == s[1]);
    }
    if s.len() == 5 || s.len() == 6 {
        assert(s.skip(3)[0] == s[3] && s.skip(3)[1] == s[4]);
    }
    if s.len() == 6 {
        assert(s.skip(3)[2] == s[5]);
    }
}

} // verus!
