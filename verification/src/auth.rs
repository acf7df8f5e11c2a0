//! The login at the portal: what is sent, and what is made of the answer.

use vstd::prelude::*;
use vstd::utf8::encode_utf8;
use aes::cipher::{BlockEncryptMut, KeyIvInit};
use base64::Engine;
use rand::Rng;
use crate::failure::{caused, Failure};
use crate::text::{copy_text, same_text};
use crate::vpn::start::PROXY_NAME;

verus! {

/// The error of an encryption that found no room for its output.
#[verifier::external_type_specification]
#[verifier::external_body]
pub struct ExPadError(aes::cipher::inout::PadError);

/// What AES-128 in CBC mode with PKCS#7 padding makes of a message.
pub uninterp spec fn aes128_cbc_pkcs7(key: Seq<u8>, iv: Seq<u8>, message: Seq<u8>) -> Seq<u8>;

/// Some bytes in base64, with the standard alphabet and padding.
pub uninterp spec fn base64_text(bytes: Seq<u8>) -> Seq<char>;

/// The bytes that a text in base64 stands for, with the standard alphabet and padding, or what
/// is said of it if it is malformed.
pub uninterp spec fn base64_bytes(text: Seq<char>) -> Result<Seq<u8>, Seq<char>>;

/// The length of a message of `n` bytes once it is padded to whole blocks of 16 bytes: at
/// least one byte is added.
pub open spec fn padded_length(n: int) -> int {
    n / 16 * 16 + 16
}

/// The length of `n` bytes in base64.
pub open spec fn base64_length(n: int) -> int {
    (n + 2) / 3 * 4
}

/// `rand::Rng::random_range`, called on the generator of the thread, gives a number in the
/// range: here one below `n`. Which one is left to chance.
#[verifier::external_body]
fn random_below(n: usize) -> (r: usize)
    requires
        n > 0,
    ensures
        r < n,
{
    rand::rng().random_range(0..n)
}

/// `encrypt_padded_mut` of the cipher crate, for `cbc::Encryptor` over `aes::Aes128Enc`,
/// pads and encrypts the first `len` bytes of `buffer`. It fails exactly if `buffer` has no
/// room for the padded message. Key and initialization vector have to be of one block each.
#[verifier::external_body]
fn encrypt_padded(key: &[u8], iv: &[u8], buffer: Vec<u8>, len: usize) -> (r: Result<
    Vec<u8>,
    aes::cipher::inout::PadError,
>)
    requires
        key@.len() == 16,
        iv@.len() == 16,
        len <= buffer@.len(),
    ensures
        r is Ok <==> padded_length(len as int) <= buffer@.len(),
        r matches Ok(v) ==> v@ == aes128_cbc_pkcs7(key@, iv@, buffer@.take(len as int)) && v@.len()
            == padded_length(len as int),
{
    let mut buffer = buffer;
    let encryptor = cbc::Encryptor::<aes::Aes128Enc>::new(key.into(), iv.into());
    let out = encryptor.encrypt_padded_mut::<aes::cipher::block_padding::Pkcs7>(&mut buffer, len)?;
    Ok(out.to_vec())
}

/// `encode` of the standard engine of the base64 crate. The text is not spelled out here: it
/// is a function of the bytes alone.
#[verifier::external_body]
fn encode_base64(bytes: &[u8]) -> (r: String)
    requires
        base64_length(bytes@.len() as int) <= isize::MAX,
    ensures
        r@ == base64_text(bytes@),
{
    base64::prelude::BASE64_STANDARD.encode(bytes)
}

/// `decode` of the standard engine of the base64 crate. Which texts are well-formed, what they
/// stand for, and what its error says of the others, is not spelled out here: it is a function
/// of the text alone.
#[verifier::external_body]
fn decode_base64(text: &str) -> (r: Result<Vec<u8>, String>)
    ensures
        match r {
            Ok(v) => base64_bytes(text@) == Ok::<Seq<u8>, Seq<char>>(v@),
            Err(fault) => base64_bytes(text@) == Err::<Seq<u8>, Seq<char>>(fault@),
        },
{
    base64::prelude::BASE64_STANDARD.decode(text).map_err(|fault| fault.to_string())
}

/// Where the portal is.
pub const WEBVPN_ROOT: &'static str = "https://zmvpn.cczu.edu.cn";

/// How long an authorization may take, in seconds.
pub const AUTHORIZATION_TIMEOUT_SECS: u64 = 30;

/// Why there is no authorization.
#[derive(Debug)]
pub enum AuthError {
    /// The password could not be encrypted.
    PasswordEncryption,
    /// The portal did not redirect; the text is its status.
    LoginRefused(String),
    /// The answer has no cookie with the client's information.
    NoClientInfo,
    /// The client's information is no base64; the text says why.
    InvalidClientInfo(String),
}

/// An [`AuthError`] as characters.
pub enum AuthErrorView {
    PasswordEncryption,
    LoginRefused(Seq<char>),
    NoClientInfo,
    InvalidClientInfo(Seq<char>),
}

impl View for AuthError {
    type V = AuthErrorView;

    open spec fn view(&self) -> AuthErrorView {
        match *self {
            AuthError::PasswordEncryption => AuthErrorView::PasswordEncryption,
            AuthError::LoginRefused(s) => AuthErrorView::LoginRefused(s@),
            AuthError::NoClientInfo => AuthErrorView::NoClientInfo,
            AuthError::InvalidClientInfo(s) => AuthErrorView::InvalidClientInfo(s@),
        }
    }
}

impl AuthErrorView {
    /// What the user is told.
    pub open spec fn message(self) -> Seq<char> {
        match self {
            AuthErrorView::PasswordEncryption => "password encryption failed"@,
            AuthErrorView::LoginRefused(status) => "WebVPN login failed with status: "@ + status,
            AuthErrorView::NoClientInfo => "WebVPN login response did not contain clientInfo"@,
            AuthErrorView::InvalidClientInfo(_) => "failed to decode WebVPN clientInfo"@,
        }
    }

    /// What the user is told, and the cause behind it, if there is one.
    pub open spec fn messages(self) -> Seq<Seq<char>> {
        match self {
            AuthErrorView::InvalidClientInfo(cause) => seq![self.message(), cause],
            _ => seq![self.message()],
        }
    }
}

impl AuthError {
    /// What the user is told.
    pub fn message(&self) -> (r: String)
        ensures
            r@ == self@.message(),
    {
        match self {
            AuthError::PasswordEncryption => String::from_str("password encryption failed"),
            AuthError::LoginRefused(status) => {
                let mut out = String::from_str("WebVPN login failed with status: ");
                out.append(status);
                out
            },
            AuthError::NoClientInfo => String::from_str(
                "WebVPN login response did not contain clientInfo",
            ),
            AuthError::InvalidClientInfo(_) => String::from_str(
                "failed to decode WebVPN clientInfo",
            ),
        }
    }

    /// What the user is told, and the cause behind it, if there is one.
    pub fn failure(&self) -> (r: Failure)
        ensures
            r@ == self@.messages(),
    {
        let message = self.message();
        match self {
            AuthError::InvalidClientInfo(cause) => caused(copy_text(cause), &message),
            _ => Failure::new(message),
        }
    }
}

/// What is sent to the portal for a login.
#[derive(Debug)]
pub struct LoginForm {
    pub username: String,
    pub password: String,
    pub token: String,
    pub language: String,
}

/// A [`LoginForm`] as characters.
#[verifier::ext_equal]
pub struct LoginFormView {
    pub username: Seq<char>,
    pub password: Seq<char>,
    pub token: Seq<char>,
    pub language: Seq<char>,
}

impl View for LoginForm {
    type V = LoginFormView;

    open spec fn view(&self) -> LoginFormView {
        LoginFormView {
            username: self.username@,
            password: self.password@,
            token: self.token@,
            language: self.language@,
        }
    }
}

/// A field of a form, or a cookie: a name and a value.
#[derive(Debug)]
pub struct Pair {
    pub name: String,
    pub value: String,
}

impl View for Pair {
    type V = (Seq<char>, Seq<char>);

    open spec fn view(&self) -> (Seq<char>, Seq<char>) {
        (self.name@, self.value@)
    }
}

/// The names and values of some pairs.
pub open spec fn pairs(v: Seq<Pair>) -> Seq<(Seq<char>, Seq<char>)> {
    v.map_values(|p: Pair| p@)
}

/// `b` is a letter of the English alphabet.
pub open spec fn is_letter(b: u8) -> bool {
    'a' as u8 <= b <= 'z' as u8 || 'A' as u8 <= b <= 'Z' as u8
}

/// `t` is a random text such as a login is made with: sixteen letters.
pub open spec fn is_nonce(t: Seq<u8>) -> bool {
    t.len() == 16 && forall|i: int| 0 <= i < t.len() ==> #[trigger] is_letter(t[i])
}

/// Bytes as the characters that they encode in ASCII.
pub open spec fn ascii_text(t: Seq<u8>) -> Seq<char> {
    t.map_values(|b: u8| b as char)
}

/// The form for an account. The initialization vector, read backwards, is both the key of the
/// encryption and the token in the form.
pub open spec fn login_form(user: Seq<char>, password: Seq<char>, iv: Seq<u8>) -> LoginFormView {
    LoginFormView {
        username: user,
        password: base64_text(aes128_cbc_pkcs7(iv.reverse(), iv, encode_utf8(password))),
        token: ascii_text(iv.reverse()),
        language: "zh-CN,zh;q=0.9,en;q=0.8"@,
    }
}

/// A password of `n` bytes can be held in memory once it is encrypted and in base64.
pub open spec fn password_fits(n: int) -> bool {
    base64_length(padded_length(n)) <= isize::MAX
}

fn random_letter() -> (r: u8)
    ensures
        is_letter(r),
{
    let i: usize = random_below(52);
    if i < 26 {
        'a' as u8 + i as u8
    } else {
        'A' as u8 + (i - 26) as u8
    }
}

fn random_nonce() -> (r: Vec<u8>)
    ensures
        is_nonce(r@),
{
    let mut out: Vec<u8> = Vec::new();
    while out.len() < 16
        invariant
            out@.len() <= 16,
            forall|i: int| 0 <= i < out@.len() ==> #[trigger] is_letter(out@[i]),
        decreases 16 - out.len(),
    {
        out.push(random_letter());
    }
    out
}

fn reversed(v: &Vec<u8>) -> (r: Vec<u8>)
    ensures
        r@ == v@.reverse(),
{
    let mut out: Vec<u8> = Vec::new();
    let mut i: usize = v.len();
    while i > 0
        invariant
            i <= v@.len(),
            out@.len() == v@.len() - i,
            forall|j: int| 0 <= j < out@.len() ==> out@[j] == v@[v@.len() - 1 - j],
        decreases i,
    {
        i -= 1;
        out.push(v[i]);
    }
    proof {
        assert(out@ =~= v@.reverse());
    }
    out
}

fn letters_text(t: &Vec<u8>) -> (r: String)
    requires
        is_nonce(t@),
    ensures
        r@ == ascii_text(t@),
{
    let mut out = String::new();
    let mut i: usize = 0;
    while i < t.len()
        invariant
            i <= t@.len(),
            out@ == ascii_text(t@).take(i as int),
        decreases t.len() - i,
    {
        out.push(t[i] as char);
        i += 1;
    }
    proof {
        assert(ascii_text(t@).take(t@.len() as int) =~= ascii_text(t@));
    }
    out
}

/// The form for an account, made with the given random letters.
pub fn login_form_with(user: String, password: &str, iv: &Vec<u8>) -> (r: Result<
    LoginForm,
    AuthError,
>)
    requires
        is_nonce(iv@),
        password_fits(encode_utf8(password@).len() as int),
    ensures
        r matches Ok(form) && form@ == login_form(user@, password@, iv@),
{
    let token = reversed(iv);
    let bytes = password.as_bytes();
    let len: usize = bytes.len();
    let mut buffer: Vec<u8> = Vec::new();
    let mut i: usize = 0;
    while i < len
        invariant
            i <= len,
            len == bytes@.len(),
            buffer@ == bytes@.take(i as int),
        decreases len - i,
    {
        buffer.push(bytes[i]);
        i += 1;
    }
    let mut k: usize = 0;
    while k < 16
        invariant
            k <= 16,
            len == bytes@.len(),
            buffer@.len() == len + k,
            buffer@.take(len as int) == bytes@,
        decreases 16 - k,
    {
        let ghost before = buffer@;
        buffer.push(0);
        proof {
            assert(buffer@.take(len as int) =~= before.take(len as int));
        }
        k += 1;
    }
    proof {
        assert(token@.len() == 16);
        assert forall|j: int| 0 <= j < token@.len() implies #[trigger] is_letter(token@[j]) by {
            assert(is_letter(iv@[15 - j]));
        }
    }
    match encrypt_padded(&token, iv, buffer, len) {
        Ok(encrypted) => Ok(
            LoginForm {
                username: user,
                password: encode_base64(&encrypted),
                token: letters_text(&token),
                language: String::from_str("zh-CN,zh;q=0.9,en;q=0.8"),
            },
        ),
        Err(_) => Err(AuthError::PasswordEncryption),
    }
}

/// The form for an account, made with letters that are left to chance.
pub fn webvpn_login_form(user: String, password: &str) -> (r: Result<LoginForm, AuthError>)
    requires
        password_fits(encode_utf8(password@).len() as int),
    ensures
        r matches Ok(form) && exists|iv: Seq<u8>| #[trigger]
            is_nonce(iv) && form@ == login_form(user@, password@, iv),
{
    let iv = random_nonce();
    login_form_with(user, password, &iv)
}

/// The fields of a form, each with its name.
pub open spec fn form_fields(form: LoginFormView) -> Seq<(Seq<char>, Seq<char>)> {
    seq![
        ("username"@, form.username),
        ("password"@, form.password),
        ("token"@, form.token),
        ("language"@, form.language),
    ]
}

impl LoginForm {
    /// The fields of the form, each with its name.
    pub fn fields(&self) -> (r: Vec<Pair>)
        ensures
            pairs(r@) == seq![
                ("username"@, self@.username),
                ("password"@, self@.password),
                ("token"@, self@.token),
                ("language"@, self@.language),
            ],
            pairs(r@) == form_fields(self@),
    {
        let mut out: Vec<Pair> = Vec::new();
        out.push(
            Pair { name: String::from_str("username"), value: copy_text(&self.username) },
        );
        out.push(
            Pair { name: String::from_str("password"), value: copy_text(&self.password) },
        );
        out.push(Pair { name: String::from_str("token"), value: copy_text(&self.token) });
        out.push(
            Pair { name: String::from_str("language"), value: copy_text(&self.language) },
        );
        proof {
            assert(pairs(out@) =~= seq![
                ("username"@, self@.username),
                ("password"@, self@.password),
                ("token"@, self@.token),
                ("language"@, self@.language),
            ]);
        }
        out
    }
}

/// Where a login is sent, and where it is said to come from.
#[derive(Debug)]
pub struct LoginRequest {
    pub url: String,
    pub referer: String,
    pub origin: String,
}

/// Where a login is sent.
pub open spec fn login_url() -> Seq<char> {
    WEBVPN_ROOT@ + "/enlink/sso/login/submit"@
}

/// The page that a login is said to come from.
pub open spec fn login_page() -> Seq<char> {
    WEBVPN_ROOT@ + "/enlink/sso/login"@
}

/// Where a login is sent, and where it is said to come from.
pub fn login_request() -> (r: LoginRequest)
    ensures
        r.url@ == login_url(),
        r.referer@ == login_page(),
        r.url@ == WEBVPN_ROOT@ + "/enlink/sso/login/submit"@,
        r.referer@ == WEBVPN_ROOT@ + "/enlink/sso/login"@,
        r.origin@ == WEBVPN_ROOT@,
{
    let mut url = String::from_str(WEBVPN_ROOT);
    url.append("/enlink/sso/login/submit");
    let mut referer = String::from_str(WEBVPN_ROOT);
    referer.append("/enlink/sso/login");
    LoginRequest { url, referer, origin: String::from_str(WEBVPN_ROOT) }
}

/// The value of the first pair with this name.
pub open spec fn first_value(v: Seq<(Seq<char>, Seq<char>)>, name: Seq<char>) -> Option<Seq<char>>
    decreases v.len(),
{
    if v.len() == 0 {
        None
    } else if v[0].0 == name {
        Some(v[0].1)
    } else {
        first_value(v.drop_first(), name)
    }
}

/// What the answer to a login says: the value of the cookie with the client's information, if
/// the portal redirects.
pub open spec fn answered(
    status: u16,
    status_text: Seq<char>,
    cookies: Seq<(Seq<char>, Seq<char>)>,
) -> Result<Seq<char>, AuthErrorView> {
    if !(300 <= status < 400) {
        Err(AuthErrorView::LoginRefused(status_text))
    } else {
        match first_value(cookies, "clientInfo"@) {
            Some(value) => Ok(value),
            None => Err(AuthErrorView::NoClientInfo),
        }
    }
}

/// The value of the cookie with the client's information. The portal accepts a login by
/// redirecting.
pub fn client_info_cookie(status: u16, status_text: &str, cookies: &Vec<Pair>) -> (r: Result<
    String,
    AuthError,
>)
    ensures
        match answered(status, status_text@, pairs(cookies@)) {
            Ok(value) => r matches Ok(s) && s@ == value,
            Err(e) => r matches Err(x) && x@ == e,
        },
{
    if !(300 <= status && status < 400) {
        return Err(AuthError::LoginRefused(String::from_str(status_text)));
    }
    let ghost all = pairs(cookies@);
    let mut i: usize = 0;
    proof {
        assert(all.skip(0) =~= all);
    }
    while i < cookies.len()
        invariant
            i <= cookies@.len(),
            all == pairs(cookies@),
            300 <= status < 400,
            first_value(all.skip(i as int), "clientInfo"@) == first_value(all, "clientInfo"@),
        decreases cookies.len() - i,
    {
        proof {
            assert(all.skip(i as int)[0] == cookies@[i as int]@);
            assert(all.skip(i as int).drop_first() =~= all.skip(i + 1));
        }
        if same_text(&cookies[i].name, "clientInfo") {
            return Ok(copy_text(&cookies[i].value));
        }
        i += 1;
    }
    Err(AuthError::NoClientInfo)
}

/// The client's information that the portal answered a login with, as bytes.
pub open spec fn decoded_info(
    status: u16,
    status_text: Seq<char>,
    cookies: Seq<(Seq<char>, Seq<char>)>,
) -> Result<Seq<u8>, AuthErrorView> {
    match answered(status, status_text, cookies) {
        Ok(value) => match base64_bytes(value) {
            Ok(bytes) => Ok(bytes),
            Err(fault) => Err(AuthErrorView::InvalidClientInfo(fault)),
        },
        Err(e) => Err(e),
    }
}

/// The client's information that the portal answered a login with.
pub fn client_info(status: u16, status_text: &str, cookies: &Vec<Pair>) -> (r: Result<
    Vec<u8>,
    AuthError,
>)
    ensures
        match answered(status, status_text@, pairs(cookies@)) {
            Ok(value) => match base64_bytes(value) {
                Ok(bytes) => r matches Ok(v) && v@ == bytes,
                Err(fault) => r matches Err(e) && e@ == AuthErrorView::InvalidClientInfo(fault),
            },
            Err(e) => r matches Err(x) && x@ == e,
        },
        match decoded_info(status, status_text@, pairs(cookies@)) {
            Ok(bytes) => r matches Ok(v) && v@ == bytes,
            Err(e) => r matches Err(x) && x@ == e,
        },
{
    let value = match client_info_cookie(status, status_text, cookies) {
        Ok(value) => value,
        Err(e) => {
            return Err(e);
        },
    };
    match decode_base64(&value) {
        Ok(bytes) => Ok(bytes),
        Err(fault) => Err(AuthError::InvalidClientInfo(fault)),
    }
}

/// How far an authorization has come. `T` is what the portal grants.
pub enum AuthorizeStage<T> {
    /// Log in at the portal.
    Login,
    /// Ask what the user with this number is granted.
    Fetch(String),
    Authorized(T),
    Failed(Failure),
}

/// What has become of a step of an authorization.
pub enum AuthorizeEvent<T> {
    /// The login was accepted; the text is the number of the user.
    LoggedIn(String),
    Granted(T),
    Broken(Failure),
    /// The time for the whole authorization has passed; the text is what the timer says.
    TimedOut(String),
}

impl<T> AuthorizeStage<T> {
    /// The authorization has come to its end.
    pub open spec fn ended(self) -> bool {
        self is Authorized || self is Failed
    }
}

/// `next` follows `stage` when the step has come to `event`.
pub open spec fn authorize_follows<T>(
    next: AuthorizeStage<T>,
    stage: AuthorizeStage<T>,
    event: AuthorizeEvent<T>,
) -> bool {
    if stage.ended() {
        next == stage
    } else {
        match (stage, event) {
            (_, AuthorizeEvent::TimedOut(cause)) => next matches AuthorizeStage::Failed(f) && f@
                == seq!["authorization timed out"@, cause@],
            (_, AuthorizeEvent::Broken(failure)) => next == AuthorizeStage::<T>::Failed(failure),
            (AuthorizeStage::Login, AuthorizeEvent::LoggedIn(userid)) => next
                == AuthorizeStage::<T>::Fetch(userid),
            (AuthorizeStage::Fetch(_), AuthorizeEvent::Granted(grant)) => next
                == AuthorizeStage::Authorized(grant),
            _ => next == stage,
        }
    }
}

/// Goes on with an authorization. The login comes first; then the portal is asked what the
/// user who logged in is granted. There is a limit to the time that both may take.
pub fn authorize<T>(stage: AuthorizeStage<T>, event: AuthorizeEvent<T>) -> (r: AuthorizeStage<T>)
    ensures
        authorize_follows(r, stage, event),
{
    match (stage, event) {
        (AuthorizeStage::Authorized(grant), _) => AuthorizeStage::Authorized(grant),
        (AuthorizeStage::Failed(failure), _) => AuthorizeStage::Failed(failure),
        (_, AuthorizeEvent::TimedOut(cause)) => AuthorizeStage::Failed(
            caused(cause, "authorization timed out"),
        ),
        (_, AuthorizeEvent::Broken(failure)) => AuthorizeStage::Failed(failure),
        (AuthorizeStage::Login, AuthorizeEvent::LoggedIn(userid)) => AuthorizeStage::Fetch(userid),
        (AuthorizeStage::Fetch(_), AuthorizeEvent::Granted(grant)) => AuthorizeStage::Authorized(
            grant,
        ),
        (stage, _) => stage,
    }
}

/// An authorization does not outlast its time: once that has passed, it has ended, and later
/// answers do not change how.
pub proof fn authorization_does_not_outlast_its_time<T>(
    stage: AuthorizeStage<T>,
    cause: String,
    next: AuthorizeStage<T>,
    event: AuthorizeEvent<T>,
    after: AuthorizeStage<T>,
)
    requires
        authorize_follows(next, stage, AuthorizeEvent::TimedOut(cause)),
        authorize_follows(after, next, event),
    ensures
        next.ended(),
        after == next,
        next is Authorized ==> stage == next,
{
}

/// The form for a login has the name of the account as it is. Its token is made of sixteen letters;
/// they are the key that the password was encrypted with, and read backwards they are the
/// initialization vector.
pub proof fn token_tells_how_to_decrypt(user: Seq<char>, password: Seq<char>, iv: Seq<u8>)
    requires
        is_nonce(iv),
    ensures
        ({
            let form = login_form(user, password, iv);
            let key = Seq::new(16, |i: int| form.token[i] as u8);
            &&& form.username == user
            &&& form.language == "zh-CN,zh;q=0.9,en;q=0.8"@
            &&& form.token.len() == 16
            &&& forall|i: int| 0 <= i < 16 ==> form.token[i] == #[trigger] iv[15 - i] as char
            &&& forall|i: int| 0 <= i < 16 ==> is_letter(#[trigger] key[i])
            &&& form.password == base64_text(
                aes128_cbc_pkcs7(key, key.reverse(), encode_utf8(password)),
            )
        }),
{
    let form = login_form(user, password, iv);
    let key = Seq::new(16, |i: int| form.token[i] as u8);
    assert forall|i: int| 0 <= i < 16 implies key[i] == iv[15 - i] by {
        let b = iv[15 - i];
        assert(is_letter(b));
        assert(form.token[i] == b as char);
        assert((b as char) as u8 == b);
    }
    assert forall|i: int| 0 <= i < 16 implies form.token[i] == #[trigger] iv[15 - i] as char by {
        assert(form.token[i] == iv.reverse()[i] as char);
    }
    assert forall|i: int| 0 <= i < 16 implies is_letter(#[trigger] key[i]) by {
        assert(is_letter(iv[15 - i]));
    }
    assert(key =~= iv.reverse());
    assert(key.reverse() =~= iv);
}

/// Letters are those of ASCII, in both cases: 52 of them.
pub proof fn letters_are_ascii(b: u8)
    ensures
        is_letter(b) <==> 65 <= b <= 90 || 97 <= b <= 122,
{
}

/// The first pair with a name counts: its value is taken, whatever comes behind it. There is none
/// only if no pair has the name.
pub proof fn first_pair_counts(v: Seq<(Seq<char>, Seq<char>)>, name: Seq<char>, i: int)
    requires
        0 <= i <= v.len(),
        forall|j: int| 0 <= j < i ==> (#[trigger] v[j]).0 != name,
        i < v.len() ==> v[i].0 == name,
    ensures
        first_value(v, name) == (if i < v.len() {
            Some(v[i].1)
        } else {
            None
        }),
    decreases v.len(),
{
    if i > 0 {
        let rest = v.drop_first();
        assert(v[0].0 != name);
        assert forall|j: int| 0 <= j < i - 1 implies (#[trigger] rest[j]).0 != name by {
            assert(rest[j] == v[j + 1]);
        }
        if i < v.len() {
            assert(rest[i - 1] == v[i]);
        }
        first_pair_counts(rest, name, i - 1);
    }
}

/// The portal accepts a login by a redirection, and by nothing else; then the value of the first
/// cookie with the client's information is taken as it is, and without such a cookie there is no
/// login. What the portal says instead of a redirection is passed on.
pub proof fn login_is_accepted_by_redirection(
    status: u16,
    status_text: Seq<char>,
    cookies: Seq<(Seq<char>, Seq<char>)>,
    i: int,
)
    requires
        0 <= i <= cookies.len(),
        forall|j: int| 0 <= j < i ==> (#[trigger] cookies[j]).0 != "clientInfo"@,
        i < cookies.len() ==> cookies[i].0 == "clientInfo"@,
    ensures
        status < 300 || status > 399 ==> answered(status, status_text, cookies) == Err::<
            Seq<char>,
            AuthErrorView,
        >(AuthErrorView::LoginRefused(status_text)),
        300 <= status <= 399 && i < cookies.len() ==> answered(status, status_text, cookies)
            == Ok::<Seq<char>, AuthErrorView>(cookies[i].1),
        300 <= status <= 399 && i == cookies.len() ==> answered(status, status_text, cookies)
            == Err::<Seq<char>, AuthErrorView>(AuthErrorView::NoClientInfo),
{
    first_pair_counts(cookies, "clientInfo"@, i);
}

/// An authorization in which nothing fails asks for what the user who logged in is granted, and
/// comes to what the portal grants; what it does not wait for leaves it as it is. A failure is
/// what it comes to, as it is.
pub proof fn authorization_comes_to_the_grant<T>(
    next: AuthorizeStage<T>,
    stage: AuthorizeStage<T>,
    event: AuthorizeEvent<T>,
)
    requires
        authorize_follows(next, stage, event),
    ensures
        stage is Login && event is LoggedIn ==> next is Fetch && next->Fetch_0@
            == event->LoggedIn_0@,
        stage is Fetch && event is Granted ==> next is Authorized && next->Authorized_0
            == event->Granted_0,
        next is Authorized ==> stage == next || stage is Fetch && event is Granted,
        next is Fetch ==> stage == next || stage is Login && event is LoggedIn,
        next is Failed ==> stage == next || event is Broken || event is TimedOut,
        (stage is Login || stage is Fetch) && event is Broken ==> next is Failed && next->Failed_0@
            == event->Broken_0@,
        (stage is Login || stage is Fetch) && event is TimedOut ==> next is Failed && (
        next->Failed_0@.len() == 2 && next->Failed_0@[1] == event->TimedOut_0@),
        next is Login ==> stage is Login,
{
}

/// What the user is told ends with what the portal said, and with why its answer cannot be read.
pub proof fn login_failures_name_their_cause(text: Seq<char>)
    ensures
        AuthErrorView::LoginRefused(text).messages().len() == 1,
        ({
            let m = AuthErrorView::LoginRefused(text).messages()[0];
            m.len() >= text.len() && m.skip(m.len() - text.len()) == text
        }),
        AuthErrorView::InvalidClientInfo(text).messages().len() == 2,
        AuthErrorView::InvalidClientInfo(text).messages()[1] == text,
        AuthErrorView::NoClientInfo.messages().len() == 1,
        AuthErrorView::PasswordEncryption.messages().len() == 1,
{
    let m = AuthErrorView::LoginRefused(text).message();
    assert(m.skip(m.len() - text.len()) =~= text);
}

/// Each part of a form is found under its own name.
pub proof fn form_fields_are_found_by_name(form: LoginFormView)
    ensures
        form_fields(form).len() == 4,
        first_value(form_fields(form), "username"@) == Some(form.username),
        first_value(form_fields(form), "password"@) == Some(form.password),
        first_value(form_fields(form), "token"@) == Some(form.token),
        first_value(form_fields(form), "language"@) == Some(form.language),
{
    reveal_strlit("username");
    reveal_strlit("password");
    reveal_strlit("token");
    reveal_strlit("language");
    assert("username"@[0] == 'u');
    assert("password"@[0] == 'p');
    assert("token"@[0] == 't');
    assert("language"@[0] == 'l');
    let fields = form_fields(form);
    first_pair_counts(fields, "username"@, 0);
    first_pair_counts(fields, "password"@, 1);
    first_pair_counts(fields, "token"@, 2);
    first_pair_counts(fields, "language"@, 3);
}

/// What an accepted login comes to is what the value of the first cookie with the client's
/// information stands for, if it stands for something; else the login has failed, and the reason
/// is that of the decoder.
pub proof fn client_info_is_decoded(
    status: u16,
    status_text: Seq<char>,
    cookies: Seq<(Seq<char>, Seq<char>)>,
    i: int,
)
    requires
        300 <= status <= 399,
        0 <= i < cookies.len(),
        forall|j: int| 0 <= j < i ==> (#[trigger] cookies[j]).0 != "clientInfo"@,
        cookies[i].0 == "clientInfo"@,
    ensures
        match base64_bytes(cookies[i].1) {
            Ok(bytes) => decoded_info(status, status_text, cookies) == Ok::<
                Seq<u8>,
                AuthErrorView,
            >(bytes),
            Err(fault) => decoded_info(status, status_text, cookies) == Err::<
                Seq<u8>,
                AuthErrorView,
            >(AuthErrorView::InvalidClientInfo(fault)),
        },
{
    login_is_accepted_by_redirection(status, status_text, cookies, i);
}

/// A login is submitted below the page that it comes from, which is a page of the portal; and the
/// portal is where the proxy is.
pub proof fn login_is_submitted_below_its_page()
    ensures
        login_url() == login_page() + "/submit"@,
        login_page().take(WEBVPN_ROOT@.len() as int) == WEBVPN_ROOT@,
        WEBVPN_ROOT@ == "https://"@ + PROXY_NAME@,
{
    reveal_strlit("/enlink/sso/login/submit");
    reveal_strlit("/enlink/sso/login");
    reveal_strlit("/submit");
    reveal_strlit("https://zmvpn.cczu.edu.cn");
    reveal_strlit("https://");
    reveal_strlit("zmvpn.cczu.edu.cn");
    assert("/enlink/sso/login/submit"@ =~= "/enlink/sso/login"@ + "/submit"@);
    assert(login_url() =~= login_page() + "/submit"@);
    assert(login_page().take(WEBVPN_ROOT@.len() as int) =~= WEBVPN_ROOT@);
    assert(WEBVPN_ROOT@ =~= "https://"@ + PROXY_NAME@);
}

} // verus!
