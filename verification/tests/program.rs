use cczuvpnproto::cli::credentials::CliArgs;
use cczuvpnproto::cli::run::{run, Run, RunEvent, RunStage};
use cczuvpnproto::failure::Failure;

fn args() -> CliArgs {
    CliArgs {
        user: None,
        password: None,
        log_level: String::from("info"),
        yes: false,
        no_keyring: false,
        forget_login: false,
    }
}

fn fault(message: &str) -> RunEvent {
    RunEvent::Failed(Failure::new(String::from(message)))
}

fn step(run: &mut Run, expected: RunStage, event: RunEvent) {
    assert_eq!(run.stage, expected);
    run.observe(event);
}

fn logged_in(args: &CliArgs, linux: bool, loaded: bool) -> Run {
    let mut course = run(args, linux);
    if linux {
        step(&mut course, RunStage::InstallBootstrap, RunEvent::Succeeded);
    }
    step(&mut course, RunStage::CheckPortal, RunEvent::Answered(true));
    step(&mut course, RunStage::ResolveCredentials, RunEvent::Resolved(loaded));
    step(&mut course, RunStage::StartService, RunEvent::Succeeded);
    course
}

#[test]
fn forgetting_is_all_that_is_done() {
    let mut args = args();
    args.forget_login = true;
    let mut course = run(&args, true);
    step(&mut course, RunStage::ForgetLogin, RunEvent::Succeeded);
    assert_eq!(course.stage, RunStage::Done);
    assert!(course.finish().is_ok());
    let mut course = run(&args, false);
    step(&mut course, RunStage::ForgetLogin, fault("no keyring"));
    assert_eq!(course.finish().unwrap_err().messages, ["no keyring"]);
}

#[test]
fn typed_login_is_offered_to_be_saved() {
    let mut course = logged_in(&args(), true, false);
    step(&mut course, RunStage::OfferSave, RunEvent::Answered(true));
    step(&mut course, RunStage::SaveCredentials, fault("no keyring"));
    step(&mut course, RunStage::CreateDevice, RunEvent::Succeeded);
    step(&mut course, RunStage::ReleaseBootstrap, RunEvent::Succeeded);
    assert_eq!(course.stage, RunStage::Done);
    assert!(course.finish().is_ok());
}

#[test]
fn saving_needs_consent() {
    let mut course = logged_in(&args(), true, false);
    step(&mut course, RunStage::OfferSave, RunEvent::Answered(false));
    assert_eq!(course.stage, RunStage::CreateDevice);
}

#[test]
fn nothing_is_saved_without_a_keyring() {
    assert_eq!(logged_in(&args(), true, true).stage, RunStage::CreateDevice);
    assert_eq!(logged_in(&args(), false, false).stage, RunStage::CreateDevice);
    let mut args = args();
    args.no_keyring = true;
    assert_eq!(logged_in(&args, true, false).stage, RunStage::CreateDevice);
}

#[test]
fn unavailable_portal_needs_a_confirmation() {
    let mut course = run(&args(), false);
    step(&mut course, RunStage::CheckPortal, RunEvent::Answered(false));
    step(&mut course, RunStage::ConfirmPortal, RunEvent::Answered(false));
    assert!(course.finish().is_ok());
    let mut course = run(&args(), false);
    step(&mut course, RunStage::CheckPortal, RunEvent::Answered(false));
    step(&mut course, RunStage::ConfirmPortal, RunEvent::Answered(true));
    assert_eq!(course.stage, RunStage::ResolveCredentials);
    let mut args = args();
    args.yes = true;
    let mut course = run(&args, false);
    step(&mut course, RunStage::CheckPortal, RunEvent::Answered(false));
    assert_eq!(course.stage, RunStage::ResolveCredentials);
}

#[test]
fn service_is_stopped_after_a_failing_device() {
    let mut course = logged_in(&args(), true, true);
    step(&mut course, RunStage::CreateDevice, fault("device"));
    step(&mut course, RunStage::CheckService, RunEvent::Answered(true));
    step(&mut course, RunStage::StopService, fault("stop"));
    step(&mut course, RunStage::ReleaseBootstrap, fault("rules"));
    assert_eq!(course.finish().unwrap_err().messages, ["device"]);
    let mut course = logged_in(&args(), true, true);
    step(&mut course, RunStage::CreateDevice, fault("device"));
    step(&mut course, RunStage::CheckService, RunEvent::Answered(false));
    step(&mut course, RunStage::ReleaseBootstrap, RunEvent::Succeeded);
    assert_eq!(course.finish().unwrap_err().messages, ["device"]);
}

#[test]
fn failures_end_the_run() {
    let mut course = run(&args(), true);
    step(&mut course, RunStage::InstallBootstrap, fault("rules"));
    assert_eq!(course.finish().unwrap_err().messages, ["rules"]);
    let mut course = run(&args(), false);
    step(&mut course, RunStage::CheckPortal, RunEvent::Answered(true));
    step(&mut course, RunStage::ResolveCredentials, fault("input"));
    assert_eq!(course.finish().unwrap_err().messages, ["input"]);
    let mut course = run(&args(), false);
    step(&mut course, RunStage::CheckPortal, RunEvent::Answered(true));
    step(&mut course, RunStage::ResolveCredentials, RunEvent::Resolved(true));
    step(&mut course, RunStage::StartService, fault("login"));
    assert_eq!(course.finish().unwrap_err().messages, ["login"]);
}

#[test]
fn rules_are_released_however_the_run_ends() {
    let mut course = run(&args(), true);
    step(&mut course, RunStage::InstallBootstrap, RunEvent::Succeeded);
    step(&mut course, RunStage::CheckPortal, RunEvent::Answered(false));
    step(&mut course, RunStage::ConfirmPortal, RunEvent::Answered(false));
    step(&mut course, RunStage::ReleaseBootstrap, RunEvent::Succeeded);
    assert_eq!(course.stage, RunStage::Done);
    assert!(course.finish().is_ok());
    let mut course = run(&args(), true);
    step(&mut course, RunStage::InstallBootstrap, RunEvent::Succeeded);
    step(&mut course, RunStage::CheckPortal, RunEvent::Answered(true));
    step(&mut course, RunStage::ResolveCredentials, fault("input"));
    step(&mut course, RunStage::ReleaseBootstrap, RunEvent::Succeeded);
    assert_eq!(course.finish().unwrap_err().messages, ["input"]);
}
