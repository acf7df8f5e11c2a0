use cczuvpnproto::auth::{
    authorize, client_info, client_info_cookie, login_form_with, login_request, webvpn_login_form,
    AuthError, AuthorizeEvent, AuthorizeStage, Pair, AUTHORIZATION_TIMEOUT_SECS,
};
use cczuvpnproto::failure::Failure;

const NONCE: &str = "abcdefghijklmnop";

fn encrypted(password: &str) -> String {
    login_form_with(String::from("student"), password, &NONCE.as_bytes().to_vec())
        .expect("the password should be encrypted")
        .password
}

fn cookie(name: &str, value: &str) -> Pair {
    Pair { name: String::from(name), value: String::from(value) }
}

#[test]
fn password_is_encrypted_with_the_reversed_nonce() {
    assert_eq!(encrypted("secret"), "e4d2XSIuhDWj7zDlGhpVyw==");
    assert_eq!(encrypted(""), "CSdfePd44lKXkgNf3NgdKQ==");
    assert_eq!(
        encrypted("0123456789abcdef"),
        "rYW0WcfgwWAf4MSCl+wjcAoAV2WqtPApQTIfhKoMSNk="
    );
    assert_eq!(encrypted("\u{5bc6}\u{7801}"), "7wqRyjrEE6P6SfmU/0d8gA==");
}

#[test]
fn form_has_four_fields() {
    let form = login_form_with(
        String::from("student"),
        "secret",
        &NONCE.as_bytes().to_vec(),
    )
    .unwrap();
    let fields: Vec<(String, String)> =
        form.fields().into_iter().map(|field| (field.name, field.value)).collect();
    let expected = [
        ("username", "student"),
        ("password", "e4d2XSIuhDWj7zDlGhpVyw=="),
        ("token", "ponmlkjihgfedcba"),
        ("language", "zh-CN,zh;q=0.9,en;q=0.8"),
    ];
    assert_eq!(fields.len(), 4);
    for (field, (name, value)) in fields.iter().zip(expected) {
        assert_eq!(field.0, name);
        assert_eq!(field.1, value);
    }
}

#[test]
fn random_form_can_be_made_again_from_its_token() {
    let form = webvpn_login_form(String::from("student"), "secret").unwrap();
    assert_eq!(form.token.len(), 16);
    assert!(form.token.bytes().all(|letter| letter.is_ascii_alphabetic()));
    let nonce: Vec<u8> = form.token.bytes().rev().collect();
    let again = login_form_with(String::from("student"), "secret", &nonce).unwrap();
    assert_eq!(again.password, form.password);
}

#[test]
fn two_random_forms_differ() {
    let one = webvpn_login_form(String::from("student"), "secret").unwrap();
    let other = webvpn_login_form(String::from("student"), "secret").unwrap();
    assert_ne!(one.token, other.token);
}

#[test]
fn login_goes_to_the_portal() {
    let request = login_request();
    assert_eq!(request.url, "https://zmvpn.cczu.edu.cn/enlink/sso/login/submit");
    assert_eq!(request.referer, "https://zmvpn.cczu.edu.cn/enlink/sso/login");
    assert_eq!(request.origin, "https://zmvpn.cczu.edu.cn");
    assert_eq!(AUTHORIZATION_TIMEOUT_SECS, 30);
}

#[test]
fn client_info_is_decoded() {
    let cookies = vec![
        cookie("other", "!"),
        cookie("clientInfo", "eyJ1c2VyaWQiOiIxIn0="),
        cookie("clientInfo", "!"),
    ];
    assert_eq!(
        client_info(302, "302 Found", &cookies).unwrap(),
        b"{\"userid\":\"1\"}"
    );
    assert_eq!(
        client_info_cookie(302, "302 Found", &cookies).unwrap(),
        "eyJ1c2VyaWQiOiIxIn0="
    );
}

#[test]
fn only_a_redirection_is_a_login() {
    let cookies = vec![cookie("clientInfo", "")];
    assert!(client_info(300, "", &cookies).is_ok());
    assert!(client_info(399, "", &cookies).is_ok());
    let refused = client_info(200, "200 OK", &cookies).unwrap_err();
    assert!(matches!(refused, AuthError::LoginRefused(_)));
    assert_eq!(refused.message(), "WebVPN login failed with status: 200 OK");
    assert!(client_info(400, "400 Bad Request", &cookies).is_err());
}

#[test]
fn answer_without_client_info_is_refused() {
    let missing = client_info(302, "302 Found", &vec![cookie("clientinfo", "")]).unwrap_err();
    assert_eq!(
        missing.message(),
        "WebVPN login response did not contain clientInfo"
    );
    let malformed = client_info(302, "302 Found", &vec![cookie("clientInfo", "%")]).unwrap_err();
    assert_eq!(malformed.message(), "failed to decode WebVPN clientInfo");
    assert_eq!(
        malformed.failure().messages,
        ["failed to decode WebVPN clientInfo", "Invalid symbol 37, offset 0."]
    );
    assert_eq!(
        missing.failure().messages,
        ["WebVPN login response did not contain clientInfo"]
    );
    assert_eq!(
        AuthError::PasswordEncryption.message(),
        "password encryption failed"
    );
}

#[test]
fn authorization_asks_for_the_user_who_logged_in() {
    let stage: AuthorizeStage<u32> = AuthorizeStage::Login;
    let stage = authorize(stage, AuthorizeEvent::Granted(7));
    assert!(matches!(stage, AuthorizeStage::Login));
    let stage = authorize(stage, AuthorizeEvent::LoggedIn(String::from("1")));
    assert!(matches!(&stage, AuthorizeStage::Fetch(userid) if userid == "1"));
    let stage = authorize(stage, AuthorizeEvent::Granted(7));
    assert!(matches!(stage, AuthorizeStage::Authorized(7)));
    let stage = authorize(stage, AuthorizeEvent::TimedOut(String::from("late")));
    assert!(matches!(stage, AuthorizeStage::Authorized(7)));
}

#[test]
fn authorization_times_out() {
    let stage: AuthorizeStage<u32> = authorize(
        AuthorizeStage::Login,
        AuthorizeEvent::TimedOut(String::from("deadline has elapsed")),
    );
    let stage = authorize(stage, AuthorizeEvent::LoggedIn(String::from("1")));
    match stage {
        AuthorizeStage::Failed(failure) => {
            assert_eq!(failure.messages, ["authorization timed out", "deadline has elapsed"]);
        }
        _ => panic!("the authorization should have failed"),
    }
}

#[test]
fn broken_login_ends_the_authorization() {
    let failure = Failure::new(String::from("no network"));
    let stage: AuthorizeStage<u32> =
        authorize(AuthorizeStage::Login, AuthorizeEvent::Broken(failure));
    assert!(matches!(stage, AuthorizeStage::Failed(failure) if failure.messages == ["no network"]));
}
