use cczuvpnproto::cli::commands::{CommandEvent, CommandOutput};
use cczuvpnproto::cli::keyring::{
    forget_saved_credentials, id_command, keyring_refusal, keyring_user, keyring_user_from_id,
    load_saved_credentials, require_keyring_user, save_credentials, secret_tool_command,
    KeyringLookup, KeyringUser, SecretUse, StoreOutcome,
};

fn text(value: &str) -> Option<String> {
    Some(String::from(value))
}

fn finished(success: bool, stdout: &[u8]) -> CommandEvent {
    CommandEvent::Finished(CommandOutput {
        success,
        stdout: stdout.to_vec(),
        stderr: Vec::new(),
    })
}

fn not_run() -> CommandEvent {
    CommandEvent::NotRun(String::from("no such program"))
}

fn user() -> KeyringUser {
    KeyringUser {
        name: String::from("student"),
        runtime_dir: String::from("/run/user/1000"),
    }
}

#[test]
fn caller_of_sudo_comes_first() {
    match keyring_user(text("student"), text("other"), text("1000")) {
        KeyringLookup::Known(user) => {
            assert_eq!(user.name, "student");
            assert_eq!(user.runtime_dir, "/run/user/1000");
        }
        _ => panic!("the user should be known"),
    }
}

#[test]
fn superuser_has_no_keyring() {
    assert!(matches!(
        keyring_user(text("root"), text("root"), text("0")),
        KeyringLookup::Absent
    ));
    assert!(matches!(
        keyring_user(text(""), None, text("1000")),
        KeyringLookup::Absent
    ));
    assert!(matches!(
        keyring_user(text("root"), text("student"), None),
        KeyringLookup::AskUid(name) if name == "student"
    ));
}

#[test]
fn number_of_the_user_has_only_digits() {
    assert!(matches!(
        keyring_user(text("student"), None, text("10x0")),
        KeyringLookup::AskUid(name) if name == "student"
    ));
    let command = id_command("student");
    assert_eq!(command.program, "id");
    assert_eq!(command.args, ["-u", "student"]);
}

#[test]
fn answer_of_id_is_trimmed() {
    let found = keyring_user_from_id(String::from("student"), &finished(true, b"1000\n"));
    assert_eq!(found.unwrap().runtime_dir, "/run/user/1000");
    assert!(keyring_user_from_id(String::from("student"), &finished(false, b"1000")).is_none());
    assert!(keyring_user_from_id(String::from("student"), &not_run()).is_none());
}

#[test]
fn malformed_answer_of_id_is_replaced() {
    let found = keyring_user_from_id(String::from("student"), &finished(true, b"1\xff0"));
    assert_eq!(found.unwrap().runtime_dir, "/run/user/1\u{fffd}0");
}

#[test]
fn secret_tool_runs_in_the_session_of_the_user() {
    let command = secret_tool_command(&user(), SecretUse::Store);
    assert_eq!(command.program, "runuser");
    assert_eq!(
        command.args,
        [
            "-u",
            "student",
            "--",
            "env",
            "XDG_RUNTIME_DIR=/run/user/1000",
            "DBUS_SESSION_BUS_ADDRESS=unix:path=/run/user/1000/bus",
            "secret-tool",
            "store",
            "--label=CCZU VPN login",
            "service",
            "cczu-vpn-proto",
        ]
    );
    let lookup = secret_tool_command(&user(), SecretUse::Lookup);
    assert_eq!(lookup.args[7..], ["lookup", "service", "cczu-vpn-proto"]);
    let clear = secret_tool_command(&user(), SecretUse::Clear);
    assert_eq!(clear.args[7..], ["clear", "service", "cczu-vpn-proto"]);
}

#[test]
fn secret_is_decoded_and_trimmed() {
    let secret = load_saved_credentials(finished(true, " {\"user\":\"\u{5b66}\"}\n".as_bytes()));
    assert_eq!(secret.unwrap(), Some(String::from("{\"user\":\"\u{5b66}\"}")));
}

#[test]
fn missing_secret_is_no_failure() {
    assert_eq!(load_saved_credentials(finished(true, b"")).unwrap(), None);
    assert_eq!(load_saved_credentials(finished(false, b"x")).unwrap(), None);
}

#[test]
fn unreadable_secret_is_a_failure() {
    let failure = load_saved_credentials(finished(true, b"\xc3\x28")).unwrap_err();
    assert_eq!(
        failure.messages,
        [
            "keyring secret is not valid UTF-8",
            "invalid utf-8 sequence of 1 bytes from index 0",
        ]
    );
    let failure = load_saved_credentials(not_run()).unwrap_err();
    assert_eq!(
        failure.messages,
        ["failed to run secret-tool lookup", "no such program"]
    );
}

#[test]
fn keyring_needs_a_user() {
    assert_eq!(require_keyring_user(Some(user())).unwrap().name, "student");
    let failure = require_keyring_user(None).unwrap_err();
    assert_eq!(
        failure.messages,
        ["could not determine desktop user for keyring"]
    );
}

#[test]
fn saving_can_fail_at_every_step() {
    let cause = || String::from("cause");
    assert!(save_credentials(StoreOutcome::Ended(true)).is_ok());
    let failures = [
        (StoreOutcome::NotRun(cause()), vec!["failed to run secret-tool store", "cause"]),
        (StoreOutcome::NotEncoded(cause()), vec!["failed to encode saved credentials", "cause"]),
        (StoreOutcome::NoInput, vec!["secret-tool stdin was not available"]),
        (StoreOutcome::NotSent(cause()), vec!["failed to send credentials to secret-tool", "cause"]),
        (StoreOutcome::NotAwaited(cause()), vec!["failed to wait for secret-tool store", "cause"]),
        (StoreOutcome::Ended(false), vec!["secret-tool failed to save credentials"]),
    ];
    for (outcome, messages) in failures {
        assert_eq!(save_credentials(outcome).unwrap_err().messages, messages);
    }
}

#[test]
fn forgetting_can_fail() {
    assert!(forget_saved_credentials(finished(true, b"")).is_ok());
    assert_eq!(
        forget_saved_credentials(finished(false, b"")).unwrap_err().messages,
        ["secret-tool failed to clear credentials"]
    );
    assert_eq!(
        forget_saved_credentials(not_run()).unwrap_err().messages,
        ["failed to run secret-tool clear", "no such program"]
    );
}

#[test]
fn stored_secret_is_found_again() {
    let secret = "{\"user\":\" a \\\"b\",\"password\":\"\u{5bc6} \"}";
    let loaded = load_saved_credentials(finished(true, secret.as_bytes())).unwrap();
    assert_eq!(loaded, Some(String::from(secret)));
}

#[test]
fn there_is_a_keyring_under_linux_only() {
    assert!(keyring_refusal(true).is_none());
    assert_eq!(
        keyring_refusal(false).unwrap().messages,
        ["system keyring login is currently supported only on Linux"]
    );
}
