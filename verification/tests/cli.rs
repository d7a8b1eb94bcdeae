use whisrs::cli::command::{dispatch, validate_language_override, Command, SubCmd, Task};
use whisrs::cli::daemon::{
    format_state, format_timestamp, print_history, report_not_running, report_response,
    HistoryEntry, Response, State, Timestamp,
};
use whisrs::cli::glossary::{
    begin, load_failed, no_terminal, read_failed, write_failed, Change, GlossaryCmd, Question, Step,
};
use whisrs::cli::report::{step_failed, Stream};
use whisrs::cli::restart::{report_restart, restart_banner, RestartOutcome, ServiceManager};
use whisrs::config::glossary::{Glossary, GlossaryEntry};

fn entry(says: &[&str], text: &str) -> GlossaryEntry {
    GlossaryEntry {
        say: says[0].to_string(),
        aliases: says[1..].iter().map(|s| s.to_string()).collect(),
        text: text.to_string(),
    }
}

fn two_entries() -> Glossary {
    Glossary {
        entries: vec![
            entry(&["la mia email", "mia email"], "nome@example.com"),
            entry(&["il mio numero"], "+39 333 1234567"),
        ],
    }
}

fn question(step: Step) -> Question {
    match step {
        Step::Ask(question) => question,
        other => panic!("expected a question, got {other:?}"),
    }
}

fn change(step: Step) -> Change {
    match step {
        Step::Save(change) => change,
        other => panic!("expected a change, got {other:?}"),
    }
}

fn failure(step: Step) -> String {
    match step {
        Step::Fail(message) => message,
        other => panic!("expected a failure, got {other:?}"),
    }
}

fn say(phrases: &[&str]) -> Option<Vec<String>> {
    Some(phrases.iter().map(|p| p.to_string()).collect())
}

#[test]
fn add_with_options_asks_nothing() {
    let cmd = GlossaryCmd::Add {
        say: say(&["la mia email", " mia email "]),
        text: Some(" nome@example.com ".to_string()),
    };
    let change = change(begin(cmd, Glossary::default(), false));
    // Options are taken as they are.
    assert_eq!(change.glossary.entries[0].says(), vec!["la mia email", " mia email "]);
    assert_eq!(change.glossary.entries[0].text, " nome@example.com ");
    assert_eq!(
        change.lines,
        vec![
            "Added #0: [\"la mia email\", \" mia email \"] -> \" nome@example.com \"",
            "Restart the daemon to pick it up: systemctl --user restart whisrs",
        ]
    );
}

#[test]
fn add_without_options_asks_for_phrases_and_text() {
    let cmd = GlossaryCmd::Add { say: None, text: None };
    let q = question(begin(cmd, two_entries(), true));
    assert_eq!(q.notice(), None);
    assert_eq!(q.prompt(), "What phrase do you say? (e.g. \"la mia email\")");
    let q = question(q.answer("  casa "));
    assert_eq!(q.prompt(), "Another phrase for the same text? (empty to finish)");
    let q = question(q.answer("Casa mia"));
    assert_eq!(q.prompt(), "Another phrase for the same text? (empty to finish)");
    let q = question(q.answer("  "));
    assert_eq!(q.prompt(), "What text should be typed? (e.g. \"nome@example.com\")");
    let change = change(q.answer(" Via Roma 1 "));
    assert_eq!(change.glossary.entries.len(), 3);
    assert_eq!(change.glossary.entries[2].says(), vec!["casa", "Casa mia"]);
    assert_eq!(change.glossary.entries[2].text, "Via Roma 1");
    assert_eq!(
        change.lines[0],
        "\x1b[32mAdded #2: [\"casa\", \"Casa mia\"] -> \"Via Roma 1\"\x1b[0m"
    );
    // What is added is what is typed.
    assert_eq!(change.glossary.lookup("CASA  mia"), Some("Via Roma 1".to_string()));
    // The others stay.
    assert_eq!(change.glossary.lookup("mia email"), Some("nome@example.com".to_string()));
}

#[test]
fn add_with_given_text_asks_for_phrases_alone() {
    let cmd = GlossaryCmd::Add { say: None, text: Some(" x ".to_string()) };
    let q = question(begin(cmd, Glossary::default(), false));
    let q = question(q.answer("a"));
    let change = change(q.answer(""));
    assert_eq!(change.glossary.entries[0].says(), vec!["a"]);
    assert_eq!(change.glossary.entries[0].text, " x ");
}

#[test]
fn add_with_an_empty_list_of_phrases_asks() {
    let cmd = GlossaryCmd::Add { say: Some(vec![]), text: Some("x".to_string()) };
    let q = question(begin(cmd, Glossary::default(), false));
    assert_eq!(q.prompt(), "What phrase do you say? (e.g. \"la mia email\")");
}

#[test]
fn add_without_a_phrase_fails() {
    let cmd = GlossaryCmd::Add { say: None, text: None };
    let q = question(begin(cmd, Glossary::default(), false));
    assert_eq!(failure(q.answer(" \t ")), "no phrase given \u{2014} nothing to add");
}

#[test]
fn add_without_a_text_fails() {
    let cmd = GlossaryCmd::Add { say: say(&["a"]), text: Some(" \n".to_string()) };
    assert_eq!(failure(begin(cmd, Glossary::default(), false)), "type must not be empty");
    let cmd = GlossaryCmd::Add { say: say(&["a"]), text: None };
    let q = question(begin(cmd, Glossary::default(), false));
    assert_eq!(failure(q.answer("")), "type must not be empty");
}

#[test]
fn list_shows_every_entry_with_its_index() {
    match begin(GlossaryCmd::List, two_entries(), false) {
        Step::Print(lines) => assert_eq!(
            lines,
            vec![
                "Index  Say  ->  Type",
                "0     la mia email, mia email  ->  nome@example.com",
                "1     il mio numero  ->  +39 333 1234567",
            ]
        ),
        other => panic!("expected lines, got {other:?}"),
    }
    match begin(GlossaryCmd::List, two_entries(), true) {
        Step::Print(lines) => assert_eq!(
            lines[2],
            "\x1b[36m1    \x1b[0m il mio numero  ->  +39 333 1234567"
        ),
        other => panic!("expected lines, got {other:?}"),
    }
}

#[test]
fn list_of_an_empty_glossary_gives_a_hint() {
    match begin(GlossaryCmd::List, Glossary::default(), true) {
        Step::Print(lines) => assert_eq!(
            lines,
            vec!["Glossary is empty. Add an entry with: whisrs glossary add"]
        ),
        other => panic!("expected lines, got {other:?}"),
    }
}

#[test]
fn edit_replaces_what_is_given() {
    let q = question(begin(GlossaryCmd::Edit { index: 0 }, two_entries(), true));
    assert_eq!(
        q.notice(),
        Some("Editing #0: [\"la mia email\", \"mia email\"] -> \"nome@example.com\"".to_string())
    );
    assert_eq!(q.prompt(), "New phrase (empty keeps current / stops)");
    let q = question(q.answer(" posta "));
    assert_eq!(q.notice(), None);
    assert_eq!(q.prompt(), "Another phrase (empty to stop)");
    let q = question(q.answer(""));
    assert_eq!(q.prompt(), "New text (empty keeps current)");
    let change = change(q.answer(" altro@example.com "));
    assert_eq!(change.glossary.entries.len(), 2);
    assert_eq!(change.glossary.entries[0].says(), vec!["posta"]);
    assert_eq!(change.glossary.entries[0].text, "altro@example.com");
    assert_eq!(change.glossary.entries[1].say, "il mio numero");
    assert_eq!(change.lines, vec!["Updated #0: [\"posta\"] -> \"altro@example.com\""]);
}

#[test]
fn edit_keeps_what_is_not_given() {
    let q = question(begin(GlossaryCmd::Edit { index: 0 }, two_entries(), false));
    let q = question(q.answer(" "));
    let change = change(q.answer(""));
    assert_eq!(change.glossary.entries[0].says(), vec!["la mia email", "mia email"]);
    assert_eq!(change.glossary.entries[0].text, "nome@example.com");
    assert_eq!(
        change.lines,
        vec!["Updated #0: [\"la mia email\", \"mia email\"] -> \"nome@example.com\""]
    );
}

#[test]
fn remove_takes_out_the_entry_at_the_index() {
    let change = change(begin(GlossaryCmd::Remove { index: 0 }, two_entries(), true));
    assert_eq!(change.glossary.entries.len(), 1);
    assert_eq!(change.glossary.entries[0].say, "il mio numero");
    assert_eq!(
        change.lines,
        vec!["\x1b[31mRemoved #0: [\"la mia email\", \"mia email\"] -> \"nome@example.com\"\x1b[0m"]
    );
}

#[test]
fn unknown_index_is_refused() {
    let message = "no entry at index 2 (have 2) \u{2014} run `whisrs glossary list`";
    assert_eq!(failure(begin(GlossaryCmd::Edit { index: 2 }, two_entries(), true)), message);
    assert_eq!(failure(begin(GlossaryCmd::Remove { index: 2 }, two_entries(), true)), message);
}

#[test]
fn subcommands_become_commands_for_the_daemon() {
    let sent = |cmd| match dispatch(cmd) {
        Task::Send(command) => command,
        other => panic!("expected a command, got {other:?}"),
    };
    let language = Some("en-US".to_string());
    assert!(matches!(
        sent(SubCmd::Toggle { language }),
        Command::Toggle { language: Some(l) } if l == "en-US"
    ));
    assert!(matches!(sent(SubCmd::Cancel), Command::Cancel));
    assert!(matches!(sent(SubCmd::Status), Command::Status));
    assert!(matches!(
        sent(SubCmd::Log { limit: 20, clear: false }),
        Command::Log { limit: 20 }
    ));
    assert!(matches!(sent(SubCmd::Log { limit: 20, clear: true }), Command::ClearHistory));
    assert!(matches!(sent(SubCmd::Command), Command::CommandMode));
    assert!(matches!(
        sent(SubCmd::LlmCommand { name: "fix".to_string() }),
        Command::LlmCommand { name } if name == "fix"
    ));
    assert!(matches!(
        sent(SubCmd::LlmCommandSet { name: "fix".to_string() }),
        Command::SetLlmInstruction { name } if name == "fix"
    ));
    assert!(matches!(sent(SubCmd::Speak), Command::Speak));
}

#[test]
fn other_subcommands_run_here() {
    assert!(matches!(dispatch(SubCmd::Setup), Task::Setup));
    assert!(matches!(dispatch(SubCmd::Config), Task::Config));
    assert!(matches!(dispatch(SubCmd::Restart), Task::Restart));
    assert!(matches!(
        dispatch(SubCmd::Glossary(GlossaryCmd::List)),
        Task::Glossary(GlossaryCmd::List)
    ));
}

#[test]
fn states_are_named_and_colored() {
    assert_eq!(format_state(State::Idle, false), "idle");
    assert_eq!(format_state(State::Recording, false), "recording");
    assert_eq!(format_state(State::Transcribing, false), "transcribing");
    assert_eq!(format_state(State::Synthesizing, false), "synthesizing");
    assert_eq!(format_state(State::Speaking, false), "speaking");
    assert_eq!(format_state(State::Idle, true), "\x1b[1midle\x1b[0m");
    assert_eq!(format_state(State::Recording, true), "\x1b[1m\x1b[32mrecording\x1b[0m");
    assert_eq!(format_state(State::Transcribing, true), "\x1b[1m\x1b[33mtranscribing\x1b[0m");
    assert_eq!(format_state(State::Synthesizing, true), "\x1b[1m\x1b[36msynthesizing\x1b[0m");
    assert_eq!(format_state(State::Speaking, true), "\x1b[1m\x1b[32mspeaking\x1b[0m");
}

fn transcription(text: &str) -> HistoryEntry {
    HistoryEntry {
        timestamp: Timestamp { year: 2026, month: 1, day: 2, hour: 3, minute: 4, second: 5 },
        backend: "groq".to_string(),
        language: "it".to_string(),
        duration_secs: "3.2".to_string(),
        text: text.to_string(),
    }
}

#[test]
fn history_shows_every_entry() {
    let entries = vec![transcription("ciao"), transcription("mondo")];
    assert_eq!(
        print_history(&entries, false),
        vec![
            "2026-01-02 03:04:05  [groq | it | 3.2s]",
            "  ciao",
            "",
            "2026-01-02 03:04:05  [groq | it | 3.2s]",
            "  mondo",
            "",
        ]
    );
    assert_eq!(
        print_history(&entries, true)[0],
        "\x1b[2m2026-01-02 03:04:05\x1b[0m  \x1b[2m[groq | it | 3.2s]\x1b[0m"
    );
}

#[test]
fn responses_are_reported() {
    let report = report_response(&Response::Done { state: State::Idle }, false);
    assert_eq!(report.stream, Stream::Stdout);
    assert_eq!(report.lines, vec!["idle"]);
    assert_eq!(report.exit_code, 0);

    let report = report_response(&Response::History { entries: vec![] }, true);
    assert_eq!(report.lines, vec!["No transcription history."]);
    assert_eq!(report.exit_code, 0);

    let report = report_response(&Response::History { entries: vec![transcription("x")] }, false);
    assert_eq!(report.lines.len(), 3);
    assert_eq!(report.stream, Stream::Stdout);

    let response = Response::Error { message: "no microphone".to_string() };
    let report = report_response(&response, false);
    assert_eq!(report.stream, Stream::Stderr);
    assert_eq!(report.lines, vec!["error: no microphone"]);
    assert_eq!(report.exit_code, 1);
    let report = report_response(&response, true);
    assert_eq!(report.lines, vec!["\x1b[31merror:\x1b[0m no microphone"]);
}

#[test]
fn missing_daemon_is_reported_with_the_way_to_start_it() {
    let report = report_not_running(&None, false);
    assert_eq!(report.stream, Stream::Stderr);
    assert_eq!(report.exit_code, 1);
    assert_eq!(report.lines, vec!["whisrsd is not running. Start it with:\n\n  whisrsd &"]);
    let report = report_not_running(&Some("systemctl --user enable --now whisrs".to_string()), true);
    assert_eq!(
        report.lines,
        vec![
            "\x1b[31mwhisrsd is not running. Start it with:\n\n  whisrsd &\n\nOr enable the \
             service:\n\n  systemctl --user enable --now whisrs\x1b[0m"
        ]
    );
}

#[test]
fn failed_steps_are_reported() {
    let report = step_failed("setup", "no terminal", false);
    assert_eq!(report.stream, Stream::Stderr);
    assert_eq!(report.exit_code, 1);
    assert_eq!(report.lines, vec!["setup failed: no terminal"]);
    let report = step_failed("config", "no terminal", true);
    assert_eq!(report.lines, vec!["\x1b[31mconfig failed:\x1b[0m no terminal"]);
}

fn systemd() -> ServiceManager {
    ServiceManager {
        name: "systemd".to_string(),
        restart_hint: Some("systemctl --user restart whisrs".to_string()),
        enable_hint: Some("systemctl --user enable --now whisrs".to_string()),
    }
}

fn no_manager() -> ServiceManager {
    ServiceManager { name: "none".to_string(), restart_hint: None, enable_hint: None }
}

#[test]
fn restart_is_announced() {
    assert_eq!(restart_banner(&systemd(), false), "Restarting whisrs daemon (systemd)\u{2026}");
    assert_eq!(
        restart_banner(&systemd(), true),
        "\x1b[1mRestarting whisrs daemon (systemd)\u{2026}\x1b[0m"
    );
}

#[test]
fn restarts_are_reported() {
    let report = report_restart(RestartOutcome::Restarted, &systemd(), true);
    assert_eq!(report.stream, Stream::Stdout);
    assert_eq!(report.lines, vec!["\x1b[32mDaemon restarted.\x1b[0m"]);
    assert_eq!(report.exit_code, 0);

    let report = report_restart(RestartOutcome::Failed, &systemd(), false);
    assert_eq!(report.stream, Stream::Stderr);
    assert_eq!(report.lines, vec!["systemctl --user restart whisrs failed."]);
    assert_eq!(report.exit_code, 1);
    let report = report_restart(RestartOutcome::Failed, &no_manager(), true);
    assert_eq!(report.lines, vec!["\x1b[31mrestart failed.\x1b[0m"]);
}

#[test]
fn missing_service_is_reported_with_the_way_to_install_it() {
    let report = report_restart(RestartOutcome::NoService, &systemd(), false);
    assert_eq!(report.stream, Stream::Stderr);
    assert_eq!(report.exit_code, 1);
    assert_eq!(
        report.lines,
        vec![
            "No whisrs service installed for systemd.\n\
             \n\
             Install it (run `whisrs setup` and accept the service step), then:\n\
             \n\
             \x20 systemctl --user enable --now whisrs\n\
             \n\
             Or restart the daemon manually:\n\
             \n\
             \x20 pkill whisrsd; sleep 0.2; whisrsd &"
        ]
    );
    let report = report_restart(RestartOutcome::NoService, &no_manager(), true);
    assert_eq!(
        report.lines,
        vec![
            "\x1b[33mNo service manager detected (neither systemd nor OpenRC).\n\
             \n\
             Restart the daemon manually:\n\
             \n\
             \x20 pkill whisrsd; sleep 0.2; whisrsd &\x1b[0m"
        ]
    );
}

#[test]
fn timestamps_are_laid_out_with_leading_zeros() {
    let at = |year, month, day, hour, minute, second| {
        format_timestamp(Timestamp { year, month, day, hour, minute, second })
    };
    assert_eq!(at(2026, 1, 2, 3, 4, 5), "2026-01-02 03:04:05");
    assert_eq!(at(1999, 12, 31, 23, 59, 60), "1999-12-31 23:59:60");
    assert_eq!(at(7, 10, 20, 0, 0, 0), "0007-10-20 00:00:00");
    assert_eq!(at(-1, 1, 1, 0, 0, 0), "-0001-01-01 00:00:00");
    assert_eq!(at(10000, 1, 1, 0, 0, 0), "+10000-01-01 00:00:00");
    assert_eq!(at(i32::MIN, 1, 1, 0, 0, 0), "-2147483648-01-01 00:00:00");
}

#[test]
fn timestamps_are_laid_out_as_strftime_does() {
    for (year, month, day) in [(2026, 1, 2), (0, 2, 29), (-44, 3, 15), (9999, 12, 31), (12345, 6, 7)] {
        let time = chrono::NaiveDate::from_ymd_opt(year, month, day)
            .unwrap()
            .and_hms_opt(3, 45, 6)
            .unwrap();
        assert_eq!(
            format_timestamp(Timestamp { year, month, day, hour: 3, minute: 45, second: 6 }),
            time.format("%Y-%m-%d %H:%M:%S").to_string()
        );
    }
}

#[test]
fn phrases_added_by_options_are_replaced() {
    let cmd = GlossaryCmd::Add { say: say(&[" Casa  Mia "]), text: Some("Via Roma 1".to_string()) };
    let change = change(begin(cmd, two_entries(), false));
    assert_eq!(change.glossary.lookup("casa mia"), Some("Via Roma 1".to_string()));
}

#[test]
fn add_with_given_phrases_asks_for_the_text_alone() {
    let cmd = GlossaryCmd::Add { say: say(&[" casa"]), text: None };
    let q = question(begin(cmd, two_entries(), false));
    assert_eq!(q.prompt(), "What text should be typed? (e.g. \"nome@example.com\")");
    let change = change(q.answer(" Via Roma 1\n"));
    assert_eq!(change.glossary.entries[2].says(), vec![" casa"]);
    assert_eq!(change.glossary.lookup("CASA"), Some("Via Roma 1".to_string()));
}

#[test]
fn failures_around_the_glossary_are_told() {
    assert_eq!(
        load_failed("/c/glossary.toml", "permission denied"),
        "failed to load glossary at /c/glossary.toml: permission denied"
    );
    assert_eq!(
        write_failed("/c/glossary.toml", "no space left"),
        "failed to write glossary at /c/glossary.toml: no space left"
    );
    assert_eq!(
        no_terminal(),
        "interactive prompt requires a terminal \u{2014} pass --say/--type instead"
    );
    assert_eq!(read_failed("end of file"), "failed to read input: end of file");
}

#[test]
fn languages_are_codes_or_auto() {
    for language in ["en", "pl", "en-US", "auto", "EN", "es-419"] {
        assert_eq!(validate_language_override(language), Ok(language.to_string()));
    }
    for language in ["", "e", "eng", "en-", "en_US", "en-U", "en-USA", "1n", "automatic", "\u{e9}n"] {
        assert_eq!(
            validate_language_override(language),
            Err(format!("not a language code, optionally with a region, or `auto`: {language}"))
        );
    }
}
