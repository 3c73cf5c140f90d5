use agentemac::setup::{
    choose_mode, elevation_script, reports_stopped_text, exit_code_after_elevation, next_poll, next_setup_action,
    service_binary_path, service_reports_stopped, systemd_unit, ElevationOutcome, Mode, Platform,
    PollDecision, SetupAction, SetupEvent, STOP_POLL_LIMIT,
};

#[test]
fn explicit_arguments_choose_the_mode() {
    for svc in [false, true] {
        for installed in [false, true] {
            assert_eq!(choose_mode(Some("--run"), svc, installed), Mode::Serve);
            assert_eq!(choose_mode(Some("--uninstall"), svc, installed), Mode::Uninstall);
        }
    }
}

#[test]
fn without_arguments_installed_or_service_serves() {
    assert_eq!(choose_mode(None, false, true), Mode::Serve);
    assert_eq!(choose_mode(None, true, false), Mode::Serve);
    assert_eq!(choose_mode(None, false, false), Mode::Install);
    assert_eq!(choose_mode(Some("--other"), false, false), Mode::Install);
    assert_eq!(choose_mode(Some("--RUN"), false, true), Mode::Serve);
    assert_eq!(choose_mode(Some("--RUN"), false, false), Mode::Install);
}

#[test]
fn unix_install_steps() {
    let u = Platform::Unix;
    assert_eq!(next_setup_action(u, SetupEvent::Located { in_place: true }), SetupAction::RegisterService);
    assert_eq!(next_setup_action(u, SetupEvent::Located { in_place: false }), SetupAction::CopyExecutable);
    assert_eq!(next_setup_action(u, SetupEvent::Copied { ok: true }), SetupAction::CompleteInstall);
    assert_eq!(next_setup_action(u, SetupEvent::Copied { ok: false }), SetupAction::Elevate);
    assert_eq!(
        next_setup_action(u, SetupEvent::Elevated { outcome: ElevationOutcome::NotStarted }),
        SetupAction::Exit { code: 1, report_failure: true }
    );
    assert_eq!(
        next_setup_action(u, SetupEvent::Elevated {
            outcome: ElevationOutcome::Finished { success: false, code: Some(3) }
        }),
        SetupAction::Exit { code: 3, report_failure: false }
    );
    assert_eq!(
        next_setup_action(u, SetupEvent::Elevated {
            outcome: ElevationOutcome::Finished { success: false, code: None }
        }),
        SetupAction::Exit { code: 0, report_failure: false }
    );
}

#[test]
fn windows_install_steps() {
    let w = Platform::Windows;
    assert_eq!(next_setup_action(w, SetupEvent::Located { in_place: true }), SetupAction::RegisterService);
    assert_eq!(next_setup_action(w, SetupEvent::Located { in_place: false }), SetupAction::Elevate);
    assert_eq!(
        next_setup_action(w, SetupEvent::Elevated {
            outcome: ElevationOutcome::Finished { success: true, code: Some(0) }
        }),
        SetupAction::Exit { code: 0, report_failure: false }
    );
    assert_eq!(
        next_setup_action(w, SetupEvent::Elevated {
            outcome: ElevationOutcome::Finished { success: false, code: Some(1223) }
        }),
        SetupAction::CopyExecutable
    );
    assert_eq!(
        next_setup_action(w, SetupEvent::Elevated { outcome: ElevationOutcome::NotStarted }),
        SetupAction::CopyExecutable
    );
    assert_eq!(next_setup_action(w, SetupEvent::Copied { ok: false }), SetupAction::Exit { code: 1, report_failure: true });
    assert_eq!(next_setup_action(w, SetupEvent::Copied { ok: true }), SetupAction::CompleteInstall);
}

#[test]
fn elevated_exit_codes() {
    assert_eq!(exit_code_after_elevation(ElevationOutcome::NotStarted), 1);
    assert_eq!(exit_code_after_elevation(ElevationOutcome::Finished { success: true, code: Some(0) }), 0);
    assert_eq!(exit_code_after_elevation(ElevationOutcome::Finished { success: false, code: Some(2) }), 2);
    assert_eq!(exit_code_after_elevation(ElevationOutcome::Finished { success: false, code: None }), 0);
}

#[test]
fn systemd_unit_text() {
    assert_eq!(
        systemd_unit("/opt/agentemac/agent"),
        "[Unit]\nDescription=Agente MAC/Hostname\nAfter=network.target\nStartLimitIntervalSec=0\n\n[Service]\nType=simple\nExecStart=/opt/agentemac/agent\nRestart=always\nRestartSec=3\n\n[Install]\nWantedBy=multi-user.target\n"
    );
}

#[test]
fn windows_command_texts() {
    assert_eq!(service_binary_path("C:\\AgenteMac\\agent.exe"), "\"C:\\AgenteMac\\agent.exe\" --run");
    assert_eq!(
        elevation_script("C:\\x\\agent.exe", false),
        "Start-Process -FilePath 'C:\\x\\agent.exe' -Verb RunAs -Wait"
    );
    assert_eq!(
        elevation_script("C:\\x\\agent.exe", true),
        "Start-Process -FilePath 'C:\\x\\agent.exe' -ArgumentList '--uninstall' -Verb RunAs -Wait"
    );
}

#[test]
fn service_state_answers() {
    assert!(service_reports_stopped(Platform::Unix, b"inactive\n"));
    assert!(service_reports_stopped(Platform::Unix, b" failed \n"));
    assert!(!service_reports_stopped(Platform::Unix, b"active\n"));
    assert!(!service_reports_stopped(Platform::Unix, b"deactivating\n"));
    assert!(!service_reports_stopped(Platform::Unix, b"inactive failed\n"));
    assert!(service_reports_stopped(Platform::Windows, b"STATE              : 1  STOPPED\r\n"));
    assert!(!service_reports_stopped(Platform::Windows, b"STATE              : 3  STOP_PENDING\r\n"));
    assert!(!service_reports_stopped(Platform::Windows, b""));
}

#[test]
fn waiting_for_stop_is_bounded() {
    assert_eq!(STOP_POLL_LIMIT, 20);
    assert_eq!(next_poll(1, true), PollDecision::Stopped);
    assert_eq!(next_poll(1, false), PollDecision::PollAgain);
    assert_eq!(next_poll(19, false), PollDecision::PollAgain);
    assert_eq!(next_poll(20, false), PollDecision::GiveUp);
    assert_eq!(next_poll(20, true), PollDecision::Stopped);
    let mut polls = 0;
    loop {
        polls += 1;
        match next_poll(polls, false) {
            PollDecision::PollAgain => continue,
            d => {
                assert_eq!(d, PollDecision::GiveUp);
                break;
            }
        }
    }
    assert_eq!(polls, STOP_POLL_LIMIT);
}

#[test]
fn service_state_texts() {
    assert!(reports_stopped_text(Platform::Unix, "inactive"));
    assert!(reports_stopped_text(Platform::Unix, "\tfailed\r\n"));
    assert!(!reports_stopped_text(Platform::Unix, "Inactive"));
    assert!(reports_stopped_text(Platform::Windows, "x STOPPED y"));
    assert!(!reports_stopped_text(Platform::Windows, "stopped"));
}
