//! `whisrs restart`: what the user is told of the daemon's restart.

use crate::cli::report::{one_line, paint, Report, ReportView, Stream, BOLD, GREEN, RED, YELLOW};
use vstd::prelude::*;

verus! {

/// The init system that manages the daemon.
#[derive(Debug, Clone)]
pub struct ServiceManager {
    /// What it is called.
    pub name: String,
    /// The command that restarts the daemon, where there is a service manager.
    pub restart_hint: Option<String>,
    /// The command that enables the daemon's service, where there is a service manager.
    pub enable_hint: Option<String>,
}

/// What came of a restart.
#[derive(Debug, Clone, Copy, PartialEq, Eq, Structural)]
pub enum RestartOutcome {
    Restarted,
    /// The service manager was asked to restart the daemon, and could not.
    Failed,
    /// There is no service for the daemon.
    NoService,
}

/// The line that announces a restart.
pub fn restart_banner(manager: &ServiceManager, use_color: bool) -> (res: String)
    ensures
        res@ == crate::cli::report::painted(
            BOLD@,
            "Restarting whisrs daemon ("@ + manager.name@ + ")\u{2026}"@,
            use_color,
        ),
        !use_color ==> res@ == "Restarting whisrs daemon ("@ + manager.name@ + ")\u{2026}"@,
        use_color ==> res@ == "\x1b[1m"@ + ("Restarting whisrs daemon ("@ + manager.name@
            + ")\u{2026}"@) + "\x1b[0m"@,
{
    let mut banner: String = "Restarting whisrs daemon (".to_owned();
    banner.append(manager.name.as_str());
    banner.append(")\u{2026}");
    paint(BOLD, banner.as_str(), use_color)
}

/// What the user is told where there is no service to restart.
pub open spec fn no_service_text(manager: ServiceManager) -> Seq<char> {
    match manager.enable_hint {
        Some(enable) => "No whisrs service installed for "@ + manager.name@
            + ".\n\nInstall it (run `whisrs setup` and accept the service step), then:\n\n  "@
            + enable@
            + "\n\nOr restart the daemon manually:\n\n  pkill whisrsd; sleep 0.2; whisrsd &"@,
        None =>
            "No service manager detected (neither systemd nor OpenRC).\n\nRestart the daemon manually:\n\n  pkill whisrsd; sleep 0.2; whisrsd &"@,
    }
}

/// What the user is told of a restart.
pub open spec fn restart_told(
    outcome: RestartOutcome,
    manager: ServiceManager,
    use_color: bool,
) -> ReportView {
    match outcome {
        RestartOutcome::Restarted => crate::cli::report::success(
            seq![crate::cli::report::painted(GREEN@, "Daemon restarted."@, use_color)],
        ),
        RestartOutcome::Failed => {
            let hint = match manager.restart_hint {
                Some(hint) => hint@,
                None => "restart"@,
            };
            crate::cli::report::failure(
                crate::cli::report::painted(RED@, hint + " failed."@, use_color),
            )
        },
        RestartOutcome::NoService => crate::cli::report::failure(
            crate::cli::report::painted(YELLOW@, no_service_text(manager), use_color),
        ),
    }
}

fn describe_no_service(manager: &ServiceManager) -> (res: String)
    ensures
        res@ == no_service_text(*manager),
{
    match &manager.enable_hint {
        Some(enable) => {
            let mut res: String = "No whisrs service installed for ".to_owned();
            res.append(manager.name.as_str());
            res.append(
                ".\n\nInstall it (run `whisrs setup` and accept the service step), then:\n\n  ",
            );
            res.append(enable.as_str());
            res.append(
                "\n\nOr restart the daemon manually:\n\n  pkill whisrsd; sleep 0.2; whisrsd &",
            );
            res
        },
        None => "No service manager detected (neither systemd nor OpenRC).\n\nRestart the daemon manually:\n\n  pkill whisrsd; sleep 0.2; whisrsd &".to_owned(),
    }
}

/// What the user is told of a restart.
pub fn report_restart(
    outcome: RestartOutcome,
    manager: &ServiceManager,
    use_color: bool,
) -> (res: Report)
    ensures
        res@ == restart_told(outcome, *manager, use_color),
        res.lines.len() == 1,
        outcome == RestartOutcome::Restarted ==> res.stream == Stream::Stdout && res.exit_code == 0,
        outcome != RestartOutcome::Restarted ==> res.stream == Stream::Stderr && res.exit_code == 1,
        !use_color ==> res.lines[0]@ == match outcome {
            RestartOutcome::Restarted => "Daemon restarted."@,
            RestartOutcome::Failed => match manager.restart_hint {
                Some(hint) => hint@ + " failed."@,
                None => "restart"@ + " failed."@,
            },
            RestartOutcome::NoService => match manager.enable_hint {
                Some(enable) => "No whisrs service installed for "@ + manager.name@
                    + ".\n\nInstall it (run `whisrs setup` and accept the service step), then:\n\n  "@
                    + enable@
                    + "\n\nOr restart the daemon manually:\n\n  pkill whisrsd; sleep 0.2; whisrsd &"@,
                None =>
                    "No service manager detected (neither systemd nor OpenRC).\n\nRestart the daemon manually:\n\n  pkill whisrsd; sleep 0.2; whisrsd &"@,
            },
        },
{
    match outcome {
        RestartOutcome::Restarted => Report::success(
            one_line(paint(GREEN, "Daemon restarted.", use_color)),
        ),
        RestartOutcome::Failed => {
            let mut line: String = match &manager.restart_hint {
                Some(hint) => hint.clone(),
                None => "restart".to_owned(),
            };
            line.append(" failed.");
            Report::failure(paint(RED, line.as_str(), use_color))
        },
        RestartOutcome::NoService => Report::failure(
            paint(YELLOW, describe_no_service(manager).as_str(), use_color),
        ),
    }
}

/// A restart is reported in one line, with the code 0 on the standard output where, and only where,
/// the daemon was restarted. Where there is color, the line is green for that, red for a restart
/// that failed and yellow where there is nothing to restart, and otherwise it is the same.
pub proof fn law_restart_reports(outcome: RestartOutcome, manager: ServiceManager)
    ensures
        ({
            let plain = restart_told(outcome, manager, false);
            let colored = restart_told(outcome, manager, true);
            let code = match outcome {
                RestartOutcome::Restarted => "\x1b[32m"@,
                RestartOutcome::Failed => "\x1b[31m"@,
                RestartOutcome::NoService => "\x1b[33m"@,
            };
            &&& plain.lines.len() == 1
            &&& colored.lines == seq![code + plain.lines[0] + "\x1b[0m"@]
            &&& plain.stream == colored.stream
            &&& plain.exit_code == colored.exit_code
            &&& plain.exit_code == 0 <==> outcome == RestartOutcome::Restarted
            &&& plain.stream == Stream::Stdout <==> outcome == RestartOutcome::Restarted
            &&& plain.exit_code == 0 || plain.exit_code == 1
        }),
        restart_told(RestartOutcome::Restarted, manager, false).lines[0] == "Daemon restarted."@,
        manager.restart_hint matches Some(hint) ==> restart_told(
            RestartOutcome::Failed,
            manager,
            false,
        ).lines[0] == hint@ + " failed."@,
        manager.restart_hint is None ==> restart_told(
            RestartOutcome::Failed,
            manager,
            false,
        ).lines[0] == "restart"@ + " failed."@,
        restart_told(RestartOutcome::NoService, manager, false).lines[0] == no_service_text(
            manager,
        ),
{
}

/// Where there is no service to restart, the user is told how to enable it where the service
/// manager is known, and how to restart the daemon without it in any case.
pub proof fn law_missing_service_is_told_with_the_hint(manager: ServiceManager)
    ensures
        manager.enable_hint matches Some(enable) ==> no_service_text(manager)
            == "No whisrs service installed for "@ + manager.name@
            + ".\n\nInstall it (run `whisrs setup` and accept the service step), then:\n\n  "@
            + enable@
            + "\n\nOr restart the daemon manually:\n\n  pkill whisrsd; sleep 0.2; whisrsd &"@,
        manager.enable_hint is None ==> no_service_text(manager)
            == "No service manager detected (neither systemd nor OpenRC).\n\nRestart the daemon manually:\n\n  pkill whisrsd; sleep 0.2; whisrsd &"@,
{
}

} // verus!
