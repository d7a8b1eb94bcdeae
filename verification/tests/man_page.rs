use whisrs::man_page::{entry_headers, subcommands_section, undocumented};

const PAGE: &str = "\
.TH WHISRS 1
.SH DESCRIPTION
Run
.B setup
first.
.SH SUBCOMMANDS
.TP
.B setup
Interactive onboarding.
.TP
.B config
Edit the configuration; see
.B cancel
and \\fBstatus\\fR.
.TP
.BR toggle \" [\" \\-l ]
Start or stop.
  .TP \r
\\fBllm\\-command\\fR \\fIname\\fR
Run a command.
.SH EXAMPLES
.TP
.B speak
";

fn strings(texts: &[&str]) -> Vec<String> {
    texts.iter().map(|t| t.to_string()).collect()
}

#[test]
fn section_ends_at_the_next_heading() {
    let section = subcommands_section(PAGE).unwrap();
    assert!(section.starts_with("\n.TP\n.B setup\n"));
    assert!(section.ends_with("Run a command."));
    assert_eq!(subcommands_section(".SH SUBCOMMANDS\nx"), Some("\nx".to_string()));
    assert_eq!(subcommands_section(".SH SUBCOMMANDS"), Some("".to_string()));
    assert_eq!(subcommands_section(".SH NAME\n"), None);
    assert_eq!(subcommands_section(""), None);
}

#[test]
fn headers_are_the_lines_under_a_tag() {
    let section = subcommands_section(PAGE).unwrap();
    assert_eq!(entry_headers(&section), vec!["setup", "config", "toggle", "llm-command"]);
}

#[test]
fn headers_come_in_three_forms() {
    assert_eq!(entry_headers(".TP\n.B  two words \n"), vec!["two words"]);
    assert_eq!(entry_headers(".TP\n.BR first second\n"), vec!["first"]);
    assert_eq!(entry_headers(".TP\n\\fBa\\fR b \\fBc\\fR\n"), vec!["a"]);
    assert_eq!(entry_headers(".TP\n\\fBunfinished\n"), Vec::<String>::new());
    assert_eq!(entry_headers(".TP\nplain\n"), Vec::<String>::new());
    assert_eq!(entry_headers(".TP"), Vec::<String>::new());
    assert_eq!(entry_headers(".TP\n.TP\n.B x"), vec!["x"]);
    assert_eq!(entry_headers(""), Vec::<String>::new());
}

#[test]
fn escaped_hyphens_are_hyphens() {
    assert_eq!(
        entry_headers(".TP\n.B llm\\-command\\-set\n.TP\n.B llm-command\n"),
        vec!["llm-command-set", "llm-command"]
    );
}

#[test]
fn mentions_in_text_do_not_count() {
    let names = strings(&["setup", "cancel", "status", "llm-command", "speak"]);
    assert_eq!(undocumented(PAGE, &names), Some(strings(&["cancel", "status", "speak"])));
    assert_eq!(undocumented(PAGE, &strings(&["setup", "toggle"])), Some(vec![]));
    assert_eq!(undocumented(".SH NAME\n", &names), None);
}
