use cczuvpnproto::cli::credentials::{
    confirm_continue, confirm_explicitly, read_prompt, read_required_password_prompt,
    read_required_prompt, resolve_credentials, resolve_further, CliArgs, Resolution, ResolveEvent,
    SavedCredentials,
};

fn args(user: Option<&str>, password: Option<&str>, no_keyring: bool) -> CliArgs {
    CliArgs {
        user: user.map(String::from),
        password: password.map(String::from),
        log_level: String::from("info"),
        yes: false,
        no_keyring,
        forget_login: false,
    }
}

fn typed(line: &str) -> ResolveEvent {
    ResolveEvent::Typed(String::from(line))
}

fn account(state: Resolution) -> (String, String, bool) {
    match state {
        Resolution::Resolved(credentials, loaded) => {
            (credentials.user, credentials.password, loaded)
        }
        _ => panic!("the account should be known"),
    }
}

fn account_of(user: &str, password: &str, loaded: bool) -> (String, String, bool) {
    (String::from(user), String::from(password), loaded)
}

#[test]
fn saved_credentials_debug_redacts_password() {
    let credentials = SavedCredentials {
        user: String::from("student"),
        password: String::from("secret-password"),
    };
    let debug = credentials.debug_text();
    assert!(debug.contains("student"));
    assert!(debug.contains("[REDACTED]"));
    assert!(!debug.contains("secret-password"));
}

#[test]
fn debug_text_quotes_the_user() {
    let credentials = SavedCredentials {
        user: String::from("a\"b\n"),
        password: String::from("x"),
    };
    assert_eq!(
        credentials.debug_text(),
        "SavedCredentials { user: \"a\\\"b\\n\", password: \"[REDACTED]\" }"
    );
}

#[test]
fn prompts_are_trimmed() {
    assert_eq!(read_prompt(" student\r\n"), "student");
    assert_eq!(read_prompt("\u{3000}a b\u{a0}\n"), "a b");
    assert_eq!(read_required_prompt(" \n"), None);
    assert_eq!(read_required_prompt("x\n"), Some(String::from("x")));
}

#[test]
fn passwords_are_not_trimmed() {
    assert_eq!(read_required_password_prompt(String::new()), None);
    assert_eq!(
        read_required_password_prompt(String::from(" p ")),
        Some(String::from(" p "))
    );
}

#[test]
fn only_a_refusal_stops() {
    assert!(confirm_continue("\n"));
    assert!(confirm_continue("yes\n"));
    assert!(confirm_continue("no\n"));
    assert!(!confirm_continue(" n\n"));
    assert!(!confirm_continue("N\n"));
}

#[test]
fn only_an_express_consent_counts() {
    assert!(!confirm_explicitly("\n"));
    assert!(!confirm_explicitly("yes\n"));
    assert!(confirm_explicitly(" y\n"));
    assert!(confirm_explicitly("Y\n"));
}

#[test]
fn given_account_needs_no_question() {
    let args = args(Some(" student "), Some(" secret "), false);
    assert_eq!(
        account(resolve_credentials(&args)),
        account_of("student", "secret", false)
    );
}

#[test]
fn keyring_is_asked_first() {
    let args = args(None, None, false);
    let state = resolve_credentials(&args);
    assert!(matches!(state, Resolution::LoadKeyring));
    let saved = SavedCredentials {
        user: String::from("student"),
        password: String::from("secret"),
    };
    let state = resolve_further(&args, state, ResolveEvent::Keyring(Some(saved)));
    assert_eq!(account(state), account_of("student", "secret", true));
}

#[test]
fn empty_keyring_leads_to_questions() {
    let args = args(None, None, false);
    let state = resolve_further(&args, resolve_credentials(&args), ResolveEvent::Keyring(None));
    assert!(matches!(state, Resolution::AskUser));
    let state = resolve_further(&args, state, typed(" \n"));
    assert!(matches!(state, Resolution::AskUser));
    let state = resolve_further(&args, state, typed("student\n"));
    assert!(matches!(&state, Resolution::AskPassword(user) if user == "student"));
    let state = resolve_further(&args, state, typed(""));
    assert!(matches!(&state, Resolution::AskPassword(user) if user == "student"));
    let state = resolve_further(&args, state, typed(" secret"));
    assert_eq!(account(state), account_of("student", " secret", false));
}

#[test]
fn keyring_is_bypassed() {
    assert!(matches!(
        resolve_credentials(&args(None, None, true)),
        Resolution::AskUser
    ));
    assert!(matches!(
        resolve_credentials(&args(None, Some("secret"), false)),
        Resolution::AskUser
    ));
    assert!(matches!(
        resolve_credentials(&args(Some("student"), Some(" "), false)),
        Resolution::AskPassword(_)
    ));
}

#[test]
fn given_password_is_used_with_a_typed_name() {
    let args = args(Some(""), Some("secret"), false);
    let state = resolve_credentials(&args);
    let state = resolve_further(&args, state, typed("student"));
    assert_eq!(account(state), account_of("student", "secret", false));
}
