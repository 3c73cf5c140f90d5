//! Start-up, installation and removal of the agent: which mode it runs in,
//! the steps of installing it as a service, the texts it registers the
//! service with, and when it stops waiting for the service to stop.
use vstd::prelude::*;
use vstd::string::StringExecFns;
use crate::text::{
    self, chars_of, contains_chars, decode_lossy, range_equals, trim_bounds,
};

verus! {

/// The family of system the agent runs on.
#[derive(Debug, Clone, Copy, PartialEq, Eq, Structural)]
pub enum Platform {
    /// Linux and other Unix systems (systemd, `sudo`).
    Unix,
    /// Windows (service control manager, UAC).
    Windows,
}

/// What the agent does when started.
#[derive(Debug, Clone, Copy, PartialEq, Eq, Structural)]
pub enum Mode {
    /// Serve the report over HTTP.
    Serve,
    /// Remove the installed service and files.
    Uninstall,
    /// Install itself as a service.
    Install,
}

/// The mode for the first command-line argument `first_arg`: `--run` serves,
/// `--uninstall` uninstalls; otherwise a process running as a service, or
/// one started from the installation directory, serves, and any other
/// installs.
pub open spec fn mode_for(first_arg: Option<Seq<char>>, running_as_service: bool, installed: bool) -> Mode {
    if first_arg == Some("--run"@) {
        Mode::Serve
    } else if first_arg == Some("--uninstall"@) {
        Mode::Uninstall
    } else if running_as_service || installed {
        Mode::Serve
    } else {
        Mode::Install
    }
}

fn str_equals(s: &str, lit: &str) -> (b: bool)
    ensures
        b == (s@ == lit@),
{
    let a = chars_of(s);
    let l = chars_of(lit);
    let r = range_equals(a.as_slice(), 0, a.len(), l.as_slice());
    assert(a@.subrange(0, a@.len() as int) =~= s@);
    r
}

/// Chooses the mode from the first command-line argument, whether the
/// process runs as a service (always `false` on Unix) and whether it was
/// started from the installation directory.
pub fn choose_mode(first_arg: Option<&str>, running_as_service: bool, installed: bool) -> (m: Mode)
    ensures
        m == mode_for(
            match first_arg {
                Some(a) => Some(a@),
                None => None,
            },
            running_as_service,
            installed,
        ),
{
    if let Some(a) = first_arg {
        if str_equals(a, "--run") {
            return Mode::Serve;
        }
        if str_equals(a, "--uninstall") {
            return Mode::Uninstall;
        }
    }
    if running_as_service || installed {
        Mode::Serve
    } else {
        Mode::Install
    }
}

// ---------------------------------------------------------------------------
//  Installation steps
// ---------------------------------------------------------------------------

/// How re-running the program with elevated rights (`sudo`, UAC) ended.
#[derive(Debug, Clone, Copy, PartialEq, Eq, Structural)]
pub enum ElevationOutcome {
    /// The elevated process could not be started.
    NotStarted,
    /// The elevated process ran; `code` is its exit code when it has one.
    Finished { success: bool, code: Option<i32> },
}

/// What the installer has just learned.
#[derive(Debug, Clone, Copy, PartialEq, Eq, Structural)]
pub enum SetupEvent {
    /// Whether the running executable already is the installed one.
    Located { in_place: bool },
    /// Whether creating the installation directory and copying the executable
    /// into it succeeded.
    Copied { ok: bool },
    /// How the elevated re-run ended.
    Elevated { outcome: ElevationOutcome },
}

/// What the installer does next.
#[derive(Debug, Clone, Copy, PartialEq, Eq, Structural)]
pub enum SetupAction {
    /// Register and start the service for the installed executable, and stop.
    RegisterService,
    /// Create the installation directory and copy the executable into it.
    CopyExecutable,
    /// Re-run the program with elevated rights.
    Elevate,
    /// Finish the installation of the copied executable and register the
    /// service.
    CompleteInstall,
    /// Exit with `code`, saying first that elevated rights are needed when
    /// `report_failure` holds.
    Exit { code: i32, report_failure: bool },
}

/// The exit code after an elevated re-run on Unix: that of the elevated
/// process (0 when it has none), or 1 when it could not be started.
pub open spec fn elevated_exit_code(outcome: ElevationOutcome) -> i32 {
    match outcome {
        ElevationOutcome::NotStarted => 1,
        ElevationOutcome::Finished { code, .. } => match code {
            Some(c) => c,
            None => 0,
        },
    }
}

/// The installer's next action after `event`. On Unix it copies first and
/// re-runs itself with `sudo` only when copying failed, exiting with the
/// code of that run; on Windows it first asks for elevation through UAC and
/// installs by itself only when the elevated run did not succeed.
pub open spec fn setup_action(platform: Platform, event: SetupEvent) -> SetupAction {
    match event {
        SetupEvent::Located { in_place } => if in_place {
            SetupAction::RegisterService
        } else {
            match platform {
                Platform::Unix => SetupAction::CopyExecutable,
                Platform::Windows => SetupAction::Elevate,
            }
        },
        SetupEvent::Copied { ok } => if ok {
            SetupAction::CompleteInstall
        } else {
            match platform {
                Platform::Unix => SetupAction::Elevate,
                Platform::Windows => SetupAction::Exit { code: 1, report_failure: true },
            }
        },
        SetupEvent::Elevated { outcome } => match platform {
            Platform::Unix => SetupAction::Exit {
                code: elevated_exit_code(outcome),
                report_failure: outcome is NotStarted,
            },
            Platform::Windows => match outcome {
                ElevationOutcome::Finished { success: true, .. } => SetupAction::Exit {
                    code: 0,
                    report_failure: false,
                },
                _ => SetupAction::CopyExecutable,
            },
        },
    }
}

/// The exit code after an elevated re-run on Unix.
pub fn exit_code_after_elevation(outcome: ElevationOutcome) -> (c: i32)
    ensures
        c == elevated_exit_code(outcome),
{
    match outcome {
        ElevationOutcome::NotStarted => 1,
        ElevationOutcome::Finished { code, .. } => match code {
            Some(c) => c,
            None => 0,
        },
    }
}

/// Decides the installer's next action after `event`.
pub fn next_setup_action(platform: Platform, event: SetupEvent) -> (a: SetupAction)
    ensures
        a == setup_action(platform, event),
{
    match event {
        SetupEvent::Located { in_place } => {
            if in_place {
                SetupAction::RegisterService
            } else {
                match platform {
                    Platform::Unix => SetupAction::CopyExecutable,
                    Platform::Windows => SetupAction::Elevate,
                }
            }
        },
        SetupEvent::Copied { ok } => {
            if ok {
                SetupAction::CompleteInstall
            } else {
                match platform {
                    Platform::Unix => SetupAction::Elevate,
                    Platform::Windows => SetupAction::Exit { code: 1, report_failure: true },
                }
            }
        },
        SetupEvent::Elevated { outcome } => match platform {
            Platform::Unix => {
                let not_started = match outcome {
                    ElevationOutcome::NotStarted => true,
                    ElevationOutcome::Finished { .. } => false,
                };
                SetupAction::Exit {
                    code: exit_code_after_elevation(outcome),
                    report_failure: not_started,
                }
            },
            Platform::Windows => match outcome {
                ElevationOutcome::Finished { success: true, .. } => SetupAction::Exit {
                    code: 0,
                    report_failure: false,
                },
                _ => SetupAction::CopyExecutable,
            },
        },
    }
}

// ---------------------------------------------------------------------------
//  Service registration texts
// ---------------------------------------------------------------------------

/// The systemd unit of the agent whose executable is at `exe_path`.
pub open spec fn unit_text(exe_path: Seq<char>) -> Seq<char> {
    "[Unit]\nDescription=Agente MAC/Hostname\nAfter=network.target\nStartLimitIntervalSec=0\n\n[Service]\nType=simple\nExecStart="@
        + exe_path
        + "\nRestart=always\nRestartSec=3\n\n[Install]\nWantedBy=multi-user.target\n"@
}

/// The systemd unit that runs the executable at `exe_path` as the agent.
pub fn systemd_unit(exe_path: &str) -> (r: String)
    ensures
        r@ == unit_text(exe_path@),
{
    let mut out = String::new();
    out.append(
        "[Unit]\nDescription=Agente MAC/Hostname\nAfter=network.target\nStartLimitIntervalSec=0\n\n[Service]\nType=simple\nExecStart=",
    );
    out.append(exe_path);
    out.append("\nRestart=always\nRestartSec=3\n\n[Install]\nWantedBy=multi-user.target\n");
    assert(out@ =~= unit_text(exe_path@));
    out
}

/// The command line that the Windows service runs: the quoted executable
/// path followed by `--run`.
pub open spec fn service_command(exe_path: Seq<char>) -> Seq<char> {
    "\""@ + exe_path + "\" --run"@
}

/// The command line that the Windows service registered for `exe_path` runs.
pub fn service_binary_path(exe_path: &str) -> (r: String)
    ensures
        r@ == service_command(exe_path@),
{
    let mut out = String::new();
    out.append("\"");
    out.append(exe_path);
    out.append("\" --run");
    assert(out@ =~= service_command(exe_path@));
    out
}

/// The PowerShell command that re-runs the executable at `exe` with
/// elevated rights and waits for it, passing `--uninstall` when asked.
pub open spec fn elevation_text(exe: Seq<char>, uninstall: bool) -> Seq<char> {
    "Start-Process -FilePath '"@ + exe + "'"@ + (if uninstall {
        " -ArgumentList '--uninstall'"@
    } else {
        seq![]
    }) + " -Verb RunAs -Wait"@
}

/// The PowerShell command that re-runs `exe` elevated.
pub fn elevation_script(exe: &str, uninstall: bool) -> (r: String)
    ensures
        r@ == elevation_text(exe@, uninstall),
{
    let mut out = String::new();
    out.append("Start-Process -FilePath '");
    out.append(exe);
    out.append("'");
    if uninstall {
        out.append(" -ArgumentList '--uninstall'");
    }
    out.append(" -Verb RunAs -Wait");
    assert(out@ =~= elevation_text(exe@, uninstall));
    out
}

// ---------------------------------------------------------------------------
//  Waiting for the service to stop
// ---------------------------------------------------------------------------

/// How many times the service's state is queried before giving up.
pub const STOP_POLL_LIMIT: u32 = 20;

/// Whether the service stopped, judging by the text of the state query: on
/// Unix `systemctl is-active` answers `inactive` or `failed` (trimmed); on
/// Windows `sc query` mentions `STOPPED`.
pub open spec fn reports_stopped(platform: Platform, answer: Seq<char>) -> bool {
    match platform {
        Platform::Unix => text::trim(answer) == "inactive"@ || text::trim(answer) == "failed"@,
        Platform::Windows => text::contains_piece(answer, "STOPPED"@),
    }
}

/// Whether the text of the service state query says that the service stopped.
pub fn reports_stopped_text(platform: Platform, answer: &str) -> (b: bool)
    ensures
        b == reports_stopped(platform, answer@),
{
    let chars = chars_of(answer);
    let s = chars.as_slice();
    match platform {
        Platform::Unix => {
            let (a, b) = trim_bounds(s, 0, s.len());
            assert(s@.subrange(0, s@.len() as int) =~= answer@);
            let inactive = chars_of("inactive");
            let failed = chars_of("failed");
            range_equals(s, a, b, inactive.as_slice()) || range_equals(s, a, b, failed.as_slice())
        },
        Platform::Windows => {
            let stopped = chars_of("STOPPED");
            contains_chars(s, stopped.as_slice())
        },
    }
}

/// Whether the raw output of the service state query, read as UTF-8 with
/// invalid sequences replaced, says that the service stopped.
pub fn service_reports_stopped(platform: Platform, stdout: &[u8]) -> (b: bool)
    ensures
        b == reports_stopped(platform, text::utf8_lossy(stdout@)),
{
    let out = decode_lossy(stdout);
    reports_stopped_text(platform, out.as_str())
}

/// What to do after a query of the service's state.
#[derive(Debug, Clone, Copy, PartialEq, Eq, Structural)]
pub enum PollDecision {
    /// The service stopped.
    Stopped,
    /// Wait and query again.
    PollAgain,
    /// The service may still be running; stop waiting.
    GiveUp,
}

/// The decision after `polls_done` queries, the last of which said whether
/// the service stopped.
pub open spec fn poll_decision(polls_done: u32, reported_stopped: bool) -> PollDecision {
    if reported_stopped {
        PollDecision::Stopped
    } else if polls_done >= STOP_POLL_LIMIT {
        PollDecision::GiveUp
    } else {
        PollDecision::PollAgain
    }
}

/// Decides whether to keep waiting for the service to stop.
pub fn next_poll(polls_done: u32, reported_stopped: bool) -> (d: PollDecision)
    ensures
        d == poll_decision(polls_done, reported_stopped),
{
    if reported_stopped {
        PollDecision::Stopped
    } else if polls_done >= STOP_POLL_LIMIT {
        PollDecision::GiveUp
    } else {
        PollDecision::PollAgain
    }
}

// ---------------------------------------------------------------------------
//  Laws
// ---------------------------------------------------------------------------

/// `--run` always serves and `--uninstall` always uninstalls, whatever else
/// holds.
pub proof fn lemma_explicit_arguments_win(running_as_service: bool, installed: bool)
    ensures
        mode_for(Some("--run"@), running_as_service, installed) == Mode::Serve,
        mode_for(Some("--uninstall"@), running_as_service, installed) == Mode::Uninstall,
{
    reveal_strlit("--run");
    reveal_strlit("--uninstall");
    assert("--run"@ != "--uninstall"@) by {
        assert("--run"@.len() != "--uninstall"@.len());
    }
}

/// An executable that already is the installed one is never copied or
/// elevated again: the installer only registers the service.
pub proof fn lemma_in_place_only_registers(platform: Platform)
    ensures
        setup_action(platform, SetupEvent::Located { in_place: true }) == SetupAction::RegisterService,
{
}

/// The wait for the service to stop ends after at most `STOP_POLL_LIMIT`
/// queries.
pub proof fn lemma_poll_bounded(polls_done: u32, reported_stopped: bool)
    ensures
        polls_done >= STOP_POLL_LIMIT ==> poll_decision(polls_done, reported_stopped)
            != PollDecision::PollAgain,
{
}

/// Without `--run` or `--uninstall`, the process serves exactly when it runs
/// as a service or from the installation directory, and installs otherwise.
pub proof fn lemma_mode_without_explicit_argument(
    first_arg: Option<Seq<char>>,
    running_as_service: bool,
    installed: bool,
)
    requires
        first_arg != Some("--run"@),
        first_arg != Some("--uninstall"@),
    ensures
        (running_as_service || installed) ==> mode_for(first_arg, running_as_service, installed)
            == Mode::Serve,
        !(running_as_service || installed) ==> mode_for(first_arg, running_as_service, installed)
            == Mode::Install,
{
}

/// On Unix a finished `sudo` re-run ends the installer with that run's own
/// exit code (0 when it has none) and no complaint, whether it succeeded or
/// not; only a re-run that could not start exits with 1 and the complaint.
pub proof fn lemma_unix_after_elevation(success: bool, code: Option<i32>)
    ensures
        setup_action(
            Platform::Unix,
            SetupEvent::Elevated { outcome: ElevationOutcome::Finished { success, code } },
        ) == (SetupAction::Exit {
            code: match code {
                Some(c) => c,
                None => 0,
            },
            report_failure: false,
        }),
        setup_action(Platform::Unix, SetupEvent::Elevated { outcome: ElevationOutcome::NotStarted })
            == (SetupAction::Exit { code: 1, report_failure: true }),
{
}

/// On Windows a successful elevated run ends the installer with 0; any other
/// outcome makes it install by itself, starting with the copy.
pub proof fn lemma_windows_after_elevation(success: bool, code: Option<i32>)
    ensures
        success ==> setup_action(
            Platform::Windows,
            SetupEvent::Elevated { outcome: ElevationOutcome::Finished { success, code } },
        ) == (SetupAction::Exit { code: 0, report_failure: false }),
        !success ==> setup_action(
            Platform::Windows,
            SetupEvent::Elevated { outcome: ElevationOutcome::Finished { success, code } },
        ) == SetupAction::CopyExecutable,
        setup_action(
            Platform::Windows,
            SetupEvent::Elevated { outcome: ElevationOutcome::NotStarted },
        ) == SetupAction::CopyExecutable,
{
}

/// An executable elsewhere than the installed one is copied first on Unix
/// and re-run elevated first on Windows; a successful copy completes the
/// installation; a failed copy asks for `sudo` on Unix and exits with 1 and
/// the complaint on Windows.
pub proof fn lemma_copy_steps()
    ensures
        setup_action(Platform::Unix, SetupEvent::Located { in_place: false })
            == SetupAction::CopyExecutable,
        setup_action(Platform::Windows, SetupEvent::Located { in_place: false })
            == SetupAction::Elevate,
        setup_action(Platform::Unix, SetupEvent::Copied { ok: true })
            == SetupAction::CompleteInstall,
        setup_action(Platform::Windows, SetupEvent::Copied { ok: true })
            == SetupAction::CompleteInstall,
        setup_action(Platform::Unix, SetupEvent::Copied { ok: false }) == SetupAction::Elevate,
        setup_action(Platform::Windows, SetupEvent::Copied { ok: false }) == (SetupAction::Exit {
            code: 1,
            report_failure: true,
        }),
{
}

/// On Windows the service counts as stopped exactly when `STOPPED` occurs
/// anywhere in the answer of `sc query`, on whatever line.
pub proof fn lemma_windows_stopped_anywhere(answer: Seq<char>, before: Seq<char>, after: Seq<char>)
    ensures
        reports_stopped(Platform::Windows, answer) <==> exists|i: int|
            0 <= i && i + 7 <= answer.len() && #[trigger] answer.subrange(i, i + 7) == "STOPPED"@,
        reports_stopped(Platform::Windows, before + "STOPPED"@ + after),
{
    reveal_strlit("STOPPED");
    assert("STOPPED"@.len() == 7);
    let t = before + "STOPPED"@ + after;
    assert(t.subrange(before.len() as int, before.len() + 7int) =~= "STOPPED"@);
}

/// On Unix the service counts as stopped exactly when `systemctl is-active`
/// answers `inactive` or `failed`, whatever whitespace surrounds it.
pub proof fn lemma_unix_stopped(answer: Seq<char>)
    ensures
        reports_stopped(Platform::Unix, answer) <==> (text::trim(answer) == "inactive"@
            || text::trim(answer) == "failed"@),
{
}

/// A query that says the service stopped ends the wait at once; otherwise the
/// wait goes on while fewer than `STOP_POLL_LIMIT` queries were made, and
/// gives up after that.
pub proof fn lemma_poll_steps(polls_done: u32, reported_stopped: bool)
    ensures
        reported_stopped ==> poll_decision(polls_done, reported_stopped) == PollDecision::Stopped,
        !reported_stopped && polls_done < 20 ==> poll_decision(polls_done, reported_stopped)
            == PollDecision::PollAgain,
        !reported_stopped && polls_done >= 20 ==> poll_decision(polls_done, reported_stopped)
            == PollDecision::GiveUp,
{
}

/// The Windows service runs the quoted executable path with the argument
/// `--run`, which makes the agent serve.
pub proof fn lemma_service_runs_server(exe_path: Seq<char>, running_as_service: bool, installed: bool)
    ensures
        service_command(exe_path)[0] == '"',
        service_command(exe_path).subrange(1, exe_path.len() + 1int) == exe_path,
        service_command(exe_path).subrange(exe_path.len() + 1int, exe_path.len() + 3int) == seq!['"', ' '],
        service_command(exe_path).skip(exe_path.len() + 3int) == "--run"@,
        mode_for(Some(service_command(exe_path).skip(exe_path.len() + 3int)), running_as_service, installed)
            == Mode::Serve,
{
    reveal_strlit("\"");
    reveal_strlit("\" --run");
    reveal_strlit("--run");
    let c = service_command(exe_path);
    assert("\" --run"@ =~= seq!['"', ' '] + "--run"@);
    assert(c.subrange(1, exe_path.len() + 1int) =~= exe_path);
    assert(c.subrange(exe_path.len() + 1int, exe_path.len() + 3int) =~= seq!['"', ' ']);
    assert(c.skip(exe_path.len() + 3int) =~= "--run"@);
}

/// The elevated re-run asks PowerShell to start the quoted executable; when
/// it is for uninstalling, it passes `--uninstall`, which makes the agent
/// uninstall.
pub proof fn lemma_elevation_passes_uninstall(exe: Seq<char>, running_as_service: bool, installed: bool)
    ensures
        text::starts_with(elevation_text(exe, false), "Start-Process -FilePath '"@ + exe + "'"@),
        text::starts_with(elevation_text(exe, true), "Start-Process -FilePath '"@ + exe + "'"@),
        text::contains_piece(elevation_text(exe, true), "'--uninstall'"@),
        mode_for(Some("--uninstall"@), running_as_service, installed) == Mode::Uninstall,
{
    reveal_strlit(" -ArgumentList '--uninstall'");
    reveal_strlit("'--uninstall'");
    reveal_strlit("--run");
    reveal_strlit("--uninstall");
    assert("--run"@.len() != "--uninstall"@.len());
    let p = "Start-Process -FilePath '"@ + exe + "'"@;
    assert(elevation_text(exe, false).take(p.len() as int) =~= p);
    assert(elevation_text(exe, true).take(p.len() as int) =~= p);
    let t = elevation_text(exe, true);
    let arg = " -ArgumentList '--uninstall'"@;
    assert(arg.subrange(15, 28) =~= "'--uninstall'"@);
    let i: int = p.len() + 15int;
    assert(t.subrange(i, i + 13) =~= "'--uninstall'"@);
    assert(t.subrange(i, i + "'--uninstall'"@.len()) =~= "'--uninstall'"@);
}

/// The systemd unit starts the agent from the given path, on a line of its
/// own: `ExecStart=PATH`.
pub proof fn lemma_unit_exec_start(exe_path: Seq<char>)
    ensures
        text::contains_piece(unit_text(exe_path), "\nExecStart="@ + exe_path + "\n"@),
{
    let first = "[Unit]\nDescription=Agente MAC/Hostname\nAfter=network.target\nStartLimitIntervalSec=0\n\n[Service]\nType=simple\nExecStart="@;
    let last = "\nRestart=always\nRestartSec=3\n\n[Install]\nWantedBy=multi-user.target\n"@;
    reveal_strlit("[Unit]\nDescription=Agente MAC/Hostname\nAfter=network.target\nStartLimitIntervalSec=0\n\n[Service]\nType=simple\nExecStart=");
    reveal_strlit("\nRestart=always\nRestartSec=3\n\n[Install]\nWantedBy=multi-user.target\n");
    reveal_strlit("\nExecStart=");
    reveal_strlit("\n");
    let e = "\nExecStart="@;
    let piece = e + exe_path + "\n"@;
    let start = first.len() - e.len();
    assert(first.subrange(start, first.len() as int) =~= e);
    assert(last.take(1) =~= "\n"@);
    let u = unit_text(exe_path);
    assert(u.subrange(start, start + piece.len()) =~= piece);
}

} // verus!
