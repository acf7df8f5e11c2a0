//! The keyring of the desktop user: whose it is, how it is reached, and what it answers.

use vstd::prelude::*;
use vstd::utf8::{
    decode_utf8, encode_utf8, encode_utf8_decode_utf8, encode_utf8_valid_utf8, valid_utf8,
};
use crate::cli::commands::{
    decode_lossy, join, lossy_text, no_args, push_arg, CommandEvent, CommandLine, CommandOutput,
    CommandView,
};
use crate::cli::credentials::CredentialsView;
use crate::failure::{caused, maybe_failure, Failure};
use crate::numeral::{all_digits, digit, is_digit};
use crate::text::{is_white_space, maybe_text, same_text, to_chars, trim_text, trimmed};
use crate::text_laws::trimmed_text_stays;

verus! {

/// What `String::from_utf8` says of bytes that are not well-formed UTF-8.
pub uninterp spec fn utf8_fault_text(bytes: Seq<u8>) -> Seq<char>;

/// `String::from_utf8` takes well-formed UTF-8, and nothing else, for the text that it encodes.
/// What its error says is not spelled out here: it is a function of the bytes alone.
#[verifier::external_body]
fn decode_text(bytes: Vec<u8>) -> (r: Result<String, String>)
    ensures
        r is Ok <==> valid_utf8(bytes@),
        match r {
            Ok(s) => s@ == decode_utf8(bytes@),
            Err(fault) => fault@ == utf8_fault_text(bytes@),
        },
{
    String::from_utf8(bytes).map_err(|fault| fault.to_string())
}

/// The user whose keyring is used, and where the session of that user has its sockets.
#[derive(Debug)]
pub struct KeyringUser {
    pub name: String,
    pub runtime_dir: String,
}

/// A [`KeyringUser`] as characters.
pub struct KeyringUserView {
    pub name: Seq<char>,
    pub runtime_dir: Seq<char>,
}

impl View for KeyringUser {
    type V = KeyringUserView;

    open spec fn view(&self) -> KeyringUserView {
        KeyringUserView { name: self.name@, runtime_dir: self.runtime_dir@ }
    }
}

/// What is known of the user whose keyring is used.
pub enum KeyringLookup {
    /// There is no such user.
    Absent,
    /// The number of this user is to be asked of the system.
    AskUid(String),
    Known(KeyringUser),
}

/// A [`KeyringLookup`] as characters.
pub enum KeyringLookupView {
    Absent,
    AskUid(Seq<char>),
    Known(KeyringUserView),
}

impl View for KeyringLookup {
    type V = KeyringLookupView;

    open spec fn view(&self) -> KeyringLookupView {
        match *self {
            KeyringLookup::Absent => KeyringLookupView::Absent,
            KeyringLookup::AskUid(name) => KeyringLookupView::AskUid(name@),
            KeyringLookup::Known(user) => KeyringLookupView::Known(user@),
        }
    }
}

/// A name that stands for a desktop user: not empty, and not that of the superuser.
pub open spec fn is_desktop_name(name: Seq<char>) -> bool {
    name.len() > 0 && name != "root"@
}

/// The desktop user: the one who called `sudo`, or else the one who is logged in.
pub open spec fn desktop_name(
    sudo_user: Option<Seq<char>>,
    user: Option<Seq<char>>,
) -> Option<Seq<char>> {
    if sudo_user is Some && is_desktop_name(sudo_user->0) {
        sudo_user
    } else if user is Some && is_desktop_name(user->0) {
        user
    } else {
        None
    }
}

/// The user with this name and number.
pub open spec fn user_with(name: Seq<char>, uid: Seq<char>) -> KeyringUserView {
    KeyringUserView { name, runtime_dir: "/run/user/"@ + uid }
}

/// What the environment tells of the user whose keyring is used.
pub open spec fn looked_up(
    sudo_user: Option<Seq<char>>,
    user: Option<Seq<char>>,
    sudo_uid: Option<Seq<char>>,
) -> KeyringLookupView {
    match desktop_name(sudo_user, user) {
        None => KeyringLookupView::Absent,
        Some(name) => if sudo_uid is Some && all_digits(sudo_uid->0, 10) {
            KeyringLookupView::Known(user_with(name, sudo_uid->0))
        } else {
            KeyringLookupView::AskUid(name)
        },
    }
}

fn only_digits(s: &str) -> (r: bool)
    ensures
        r == all_digits(s@, 10),
{
    let chars = to_chars(s);
    let mut i: usize = 0;
    while i < chars.len()
        invariant
            i <= chars@.len(),
            chars@ == s@,
            forall|j: int| 0 <= j < i ==> #[trigger] is_digit(s@[j], 10),
        decreases chars.len() - i,
    {
        if digit(chars[i], 10).is_none() {
            proof {
                assert(!is_digit(s@[i as int], 10));
            }
            return false;
        }
        i += 1;
    }
    true
}

fn desktop_candidate(name: Option<String>) -> (r: Option<String>)
    ensures
        maybe_text(r) == (if name is Some && is_desktop_name(name->0@) {
            Some(name->0@)
        } else {
            None
        }),
{
    match name {
        Some(name) => if !name.as_str().is_empty() && !same_text(&name, "root") {
            Some(name)
        } else {
            None
        },
        None => None,
    }
}

fn with_uid(name: String, uid: &str) -> (r: KeyringUser)
    ensures
        r@ == user_with(name@, uid@),
{
    KeyringUser { name, runtime_dir: join("/run/user/", uid) }
}

/// The user whose keyring is used, as far as the variables `SUDO_USER`, `USER` and `SUDO_UID`
/// tell.
pub fn keyring_user(
    sudo_user: Option<String>,
    user: Option<String>,
    sudo_uid: Option<String>,
) -> (r: KeyringLookup)
    ensures
        r@ == looked_up(maybe_text(sudo_user), maybe_text(user), maybe_text(sudo_uid)),
{
    let name = match desktop_candidate(sudo_user) {
        Some(name) => name,
        None => match desktop_candidate(user) {
            Some(name) => name,
            None => {
                return KeyringLookup::Absent;
            },
        },
    };
    if let Some(uid) = sudo_uid {
        if only_digits(&uid) {
            return KeyringLookup::Known(with_uid(name, &uid));
        }
    }
    KeyringLookup::AskUid(name)
}

/// `id` tells the number of a user.
pub open spec fn id_view(name: Seq<char>) -> CommandView {
    CommandView { program: "id"@, args: seq!["-u"@, name] }
}

/// The command that asks for the number of a user.
pub fn id_command(name: &str) -> (r: CommandLine)
    ensures
        r@ == id_view(name@),
        r@ == (CommandView { program: "id"@, args: seq!["-u"@, name@] }),
{
    let mut args = no_args();
    push_arg(&mut args, "-u");
    push_arg(&mut args, name);
    let command = CommandLine { program: String::from_str("id"), args };
    proof {
        assert(command@.args =~= seq!["-u"@, name@]);
    }
    command
}

/// The user whose number was asked for, if there was an answer.
pub open spec fn identified(name: Seq<char>, event: CommandEvent) -> Option<KeyringUserView> {
    match event {
        CommandEvent::Finished(output) if output.success => Some(
            user_with(name, trimmed(lossy_text(output.stdout@))),
        ),
        _ => None,
    }
}

/// The user whose number was asked for, if there was an answer.
pub fn keyring_user_from_id(name: String, event: &CommandEvent) -> (r: Option<KeyringUser>)
    ensures
        match *event {
            CommandEvent::Finished(output) if output.success => r matches Some(user) && user@
                == user_with(name@, trimmed(lossy_text(output.stdout@))),
            _ => r is None,
        },
        match identified(name@, *event) {
            Some(view) => r matches Some(user) && user@ == view,
            None => r is None,
        },
{
    match event {
        CommandEvent::Finished(output) => {
            if !output.success {
                return None;
            }
            let answer = decode_lossy(&output.stdout);
            let uid = trim_text(&answer);
            Some(with_uid(name, &uid))
        },
        CommandEvent::NotRun(_) => None,
    }
}

/// What is done with the secret in the keyring.
#[derive(Debug, Clone, Copy, PartialEq, Eq, Structural)]
pub enum SecretUse {
    Lookup,
    Store,
    Clear,
}

/// The arguments of `secret-tool`.
pub open spec fn secret_args(what: SecretUse) -> Seq<Seq<char>> {
    match what {
        SecretUse::Lookup => seq!["lookup"@, "service"@, "cczu-vpn-proto"@],
        SecretUse::Store => seq![
            "store"@,
            "--label=CCZU VPN login"@,
            "service"@,
            "cczu-vpn-proto"@,
        ],
        SecretUse::Clear => seq!["clear"@, "service"@, "cczu-vpn-proto"@],
    }
}

/// `secret-tool`, run as the desktop user and within the session of that user.
pub open spec fn secret_tool_view(user: KeyringUserView, what: SecretUse) -> CommandView {
    CommandView {
        program: "runuser"@,
        args: seq![
            "-u"@,
            user.name,
            "--"@,
            "env"@,
            "XDG_RUNTIME_DIR="@ + user.runtime_dir,
            "DBUS_SESSION_BUS_ADDRESS=unix:path="@ + user.runtime_dir + "/bus"@,
            "secret-tool"@,
        ] + secret_args(what),
    }
}

/// The command that uses the secret in the keyring of `user`.
pub fn secret_tool_command(user: &KeyringUser, what: SecretUse) -> (r: CommandLine)
    ensures
        r@ == secret_tool_view(user@, what),
{
    let runtime = join("XDG_RUNTIME_DIR=", &user.runtime_dir);
    let mut bus = join("DBUS_SESSION_BUS_ADDRESS=unix:path=", &user.runtime_dir);
    bus.append("/bus");
    let mut args = no_args();
    push_arg(&mut args, "-u");
    push_arg(&mut args, &user.name);
    push_arg(&mut args, "--");
    push_arg(&mut args, "env");
    push_arg(&mut args, &runtime);
    push_arg(&mut args, &bus);
    push_arg(&mut args, "secret-tool");
    match what {
        SecretUse::Lookup => {
            push_arg(&mut args, "lookup");
        },
        SecretUse::Store => {
            push_arg(&mut args, "store");
            push_arg(&mut args, "--label=CCZU VPN login");
        },
        SecretUse::Clear => {
            push_arg(&mut args, "clear");
        },
    }
    push_arg(&mut args, "service");
    push_arg(&mut args, "cczu-vpn-proto");
    let command = CommandLine { program: String::from_str("runuser"), args };
    proof {
        assert(command@.args =~= secret_tool_view(user@, what).args);
    }
    command
}

/// The secret that the keyring answered with, if it has one, or why it cannot be told.
pub open spec fn loaded_secret(event: CommandEvent) -> Result<Option<Seq<char>>, Seq<Seq<char>>> {
    match event {
        CommandEvent::NotRun(cause) => Err(seq!["failed to run secret-tool lookup"@, cause@]),
        CommandEvent::Finished(output) => if !output.success || output.stdout@.len() == 0 {
            Ok(None)
        } else if !valid_utf8(output.stdout@) {
            Err(
                seq!["keyring secret is not valid UTF-8"@, utf8_fault_text(output.stdout@)],
            )
        } else {
            Ok(Some(trimmed(decode_utf8(output.stdout@))))
        },
    }
}

/// A secret that was stored is found again: if it neither starts nor ends with white space, as
/// no JSON object does, and the keyring answers with its bytes, it is what is loaded, with all
/// that stands inside it.
pub proof fn stored_secret_is_loaded(secret: Seq<char>, output: CommandOutput)
    requires
        secret.len() > 0,
        !is_white_space(secret[0]),
        !is_white_space(secret.last()),
        output.success,
        output.stdout@ == encode_utf8(secret),
    ensures
        loaded_secret(CommandEvent::Finished(output)) == Ok::<
            Option<Seq<char>>,
            Seq<Seq<char>>,
        >(Some(secret)),
{
    encode_utf8_valid_utf8(secret);
    encode_utf8_decode_utf8(secret);
    assert(output.stdout@.len() > 0) by {
        if output.stdout@.len() == 0 {
            assert(decode_utf8(output.stdout@) =~= Seq::<char>::empty());
        }
    }
}

/// Credentials that were saved are loaded again, in whatever form they are stored: if that form
/// neither starts nor ends with white space and can be read back, and the keyring answers with
/// its bytes, what is loaded reads as the same user and password.
pub proof fn saved_credentials_are_loaded(
    saved: CredentialsView,
    encode: spec_fn(CredentialsView) -> Seq<char>,
    decode: spec_fn(Seq<char>) -> Option<CredentialsView>,
    output: CommandOutput,
)
    requires
        decode(encode(saved)) == Some(saved),
        encode(saved).len() > 0,
        !is_white_space(encode(saved)[0]),
        !is_white_space(encode(saved).last()),
        output.success,
        output.stdout@ == encode_utf8(encode(saved)),
    ensures
        loaded_secret(CommandEvent::Finished(output)) matches Ok(Some(secret)) && decode(secret)
            == Some(saved),
{
    stored_secret_is_loaded(encode(saved), output);
}

/// What is said where there is no keyring: under every system but Linux.
pub open spec fn keyring_fault(linux: bool) -> Option<Seq<Seq<char>>> {
    if linux {
        None
    } else {
        Some(seq!["system keyring login is currently supported only on Linux"@])
    }
}

/// What is said where there is no keyring: under every system but Linux.
pub fn keyring_refusal(linux: bool) -> (r: Option<Failure>)
    ensures
        maybe_failure(r) == keyring_fault(linux),
        linux ==> r is None,
        !linux ==> (r matches Some(f) && f@ == seq![
            "system keyring login is currently supported only on Linux"@,
        ]),
{
    if linux {
        None
    } else {
        Some(
            Failure::new(
                String::from_str("system keyring login is currently supported only on Linux"),
            ),
        )
    }
}

/// The secret that the keyring answered with, if it has one.
pub fn load_saved_credentials(event: CommandEvent) -> (r: Result<Option<String>, Failure>)
    ensures
        match loaded_secret(event) {
            Ok(secret) => r matches Ok(s) && maybe_text(s) == secret,
            Err(messages) => r matches Err(f) && f@ == messages,
        },
{
    match event {
        CommandEvent::NotRun(cause) => {
            Err(caused(cause, "failed to run secret-tool lookup"))
        },
        CommandEvent::Finished(output) => {
            if !output.success || output.stdout.len() == 0 {
                return Ok(None);
            }
            match decode_text(output.stdout) {
                Ok(secret) => Ok(Some(trim_text(&secret))),
                Err(fault) => Err(caused(fault, "keyring secret is not valid UTF-8")),
            }
        },
    }
}

/// The user whose keyring something is to be written to.
pub fn require_keyring_user(user: Option<KeyringUser>) -> (r: Result<KeyringUser, Failure>)
    ensures
        match user {
            Some(user) => r == Ok::<KeyringUser, Failure>(user),
            None => r matches Err(f) && f@ == seq![
                "could not determine desktop user for keyring"@,
            ],
        },
{
    match user {
        Some(user) => Ok(user),
        None => Err(
            Failure::new(String::from_str("could not determine desktop user for keyring")),
        ),
    }
}

/// What became of the attempt to hand a secret to `secret-tool`.
#[derive(Debug)]
pub enum StoreOutcome {
    /// It could not be started.
    NotRun(String),
    /// The credentials could not be encoded.
    NotEncoded(String),
    /// It takes no input.
    NoInput,
    /// It did not take the secret.
    NotSent(String),
    /// It could not be waited for.
    NotAwaited(String),
    /// It has ended, with or without success.
    Ended(bool),
}

/// Why a secret is held not to be saved, if it is.
pub open spec fn store_fault(outcome: StoreOutcome) -> Option<Seq<Seq<char>>> {
    match outcome {
        StoreOutcome::NotRun(cause) => Some(seq!["failed to run secret-tool store"@, cause@]),
        StoreOutcome::NotEncoded(cause) => Some(
            seq!["failed to encode saved credentials"@, cause@],
        ),
        StoreOutcome::NoInput => Some(seq!["secret-tool stdin was not available"@]),
        StoreOutcome::NotSent(cause) => Some(
            seq!["failed to send credentials to secret-tool"@, cause@],
        ),
        StoreOutcome::NotAwaited(cause) => Some(
            seq!["failed to wait for secret-tool store"@, cause@],
        ),
        StoreOutcome::Ended(success) => if success {
            None
        } else {
            Some(seq!["secret-tool failed to save credentials"@])
        },
    }
}

/// Whether the credentials were saved.
pub fn save_credentials(outcome: StoreOutcome) -> (r: Result<(), Failure>)
    ensures
        match store_fault(outcome) {
            None => r is Ok,
            Some(messages) => r matches Err(f) && f@ == messages,
        },
{
    match outcome {
        StoreOutcome::NotRun(cause) => Err(caused(cause, "failed to run secret-tool store")),
        StoreOutcome::NotEncoded(cause) => Err(caused(cause, "failed to encode saved credentials")),
        StoreOutcome::NoInput => Err(
            Failure::new(String::from_str("secret-tool stdin was not available")),
        ),
        StoreOutcome::NotSent(cause) => Err(
            caused(cause, "failed to send credentials to secret-tool"),
        ),
        StoreOutcome::NotAwaited(cause) => Err(
            caused(cause, "failed to wait for secret-tool store"),
        ),
        StoreOutcome::Ended(success) => if success {
            Ok(())
        } else {
            Err(Failure::new(String::from_str("secret-tool failed to save credentials")))
        },
    }
}

/// Why the saved credentials are held not to be deleted, if they are.
pub open spec fn forget_fault(event: CommandEvent) -> Option<Seq<Seq<char>>> {
    match event {
        CommandEvent::NotRun(cause) => Some(seq!["failed to run secret-tool clear"@, cause@]),
        CommandEvent::Finished(output) => if output.success {
            None
        } else {
            Some(seq!["secret-tool failed to clear credentials"@])
        },
    }
}

/// Whether the saved credentials were deleted.
pub fn forget_saved_credentials(event: CommandEvent) -> (r: Result<(), Failure>)
    ensures
        match event {
            CommandEvent::NotRun(cause) => r matches Err(f) && f@ == seq![
                "failed to run secret-tool clear"@,
                cause@,
            ],
            CommandEvent::Finished(output) => if output.success {
                r is Ok
            } else {
                r matches Err(f) && f@ == seq!["secret-tool failed to clear credentials"@]
            },
        },
        match forget_fault(event) {
            None => r is Ok,
            Some(messages) => r matches Err(f) && f@ == messages,
        },
{
    match event {
        CommandEvent::NotRun(cause) => Err(caused(cause, "failed to run secret-tool clear")),
        CommandEvent::Finished(output) => if output.success {
            Ok(())
        } else {
            Err(Failure::new(String::from_str("secret-tool failed to clear credentials")))
        },
    }
}

/// The superuser's keyring is never used, and a user is only found if one is logged in or
/// called `sudo`.
pub proof fn keyring_user_is_no_superuser(
    sudo_user: Option<Seq<char>>,
    user: Option<Seq<char>>,
    sudo_uid: Option<Seq<char>>,
)
    ensures
        match looked_up(sudo_user, user, sudo_uid) {
            KeyringLookupView::Absent => true,
            KeyringLookupView::AskUid(name) => name != "root"@ && (Some(name) == sudo_user || Some(
                name,
            ) == user),
            KeyringLookupView::Known(u) => u.name != "root"@ && (Some(u.name) == sudo_user || Some(
                u.name,
            ) == user),
        },
{
}

/// The keyring is that of the one who called `sudo`, whoever else is logged in, and else that of
/// the one who is logged in, as long as these have a name and are not the superuser. A number that
/// consists of digits is taken as it is; else the system is asked for it, and its answer is taken
/// without the white space around it.
pub proof fn keyring_is_that_of_the_desktop_user(
    name: Seq<char>,
    other: Option<Seq<char>>,
    uid: Option<Seq<char>>,
    nobody: Option<Seq<char>>,
    event: CommandEvent,
)
    requires
        name.len() > 0,
        name != "root"@,
        nobody matches Some(s) ==> s.len() == 0 || s == "root"@,
    ensures
        looked_up(Some(name), other, uid) == looked_up(nobody, Some(name), uid),
        looked_up(nobody, nobody, uid) == KeyringLookupView::Absent,
        uid matches Some(digits) && all_digits(digits, 10) ==> (looked_up(Some(name), other, uid)
            matches KeyringLookupView::Known(user) && user.name == name && user.runtime_dir
            == "/run/user/"@ + uid->0),
        !(uid matches Some(digits) && all_digits(digits, 10)) ==> looked_up(Some(name), other, uid)
            == KeyringLookupView::AskUid(name),
        match event {
            CommandEvent::Finished(output) => if output.success {
                identified(name, event) matches Some(user) && user.name == name && user.runtime_dir
                    == "/run/user/"@ + trimmed(lossy_text(output.stdout@))
            } else {
                identified(name, event) is None
            },
            CommandEvent::NotRun(_) => identified(name, event) is None,
        },
{
}

/// Looking up, storing and clearing are about the same secret, of the same user, within the same
/// session: the commands differ in one word, and in the label that a stored secret is given.
pub proof fn secret_commands_agree(user: KeyringUserView, what: SecretUse)
    ensures
        ({
            let command = secret_tool_view(user, what);
            let n = command.args.len() as int;
            &&& command.program == "runuser"@
            &&& n == (if what == SecretUse::Store {
                11int
            } else {
                10int
            })
            &&& command.args.take(7) == secret_tool_view(user, SecretUse::Lookup).args.take(7)
            &&& command.args[0] == "-u"@
            &&& command.args[1] == user.name
            &&& command.args[2] == "--"@
            &&& command.args[3] == "env"@
            &&& command.args[4] == "XDG_RUNTIME_DIR="@ + user.runtime_dir
            &&& command.args[5] == "DBUS_SESSION_BUS_ADDRESS=unix:path="@ + user.runtime_dir
                + "/bus"@
            &&& command.args[6] == "secret-tool"@
            &&& command.args[7] == (match what {
                SecretUse::Lookup => "lookup"@,
                SecretUse::Store => "store"@,
                SecretUse::Clear => "clear"@,
            })
            &&& what == SecretUse::Store ==> command.args[8] == "--label=CCZU VPN login"@
            &&& command.args[n - 2] == "service"@
            &&& command.args[n - 1] == "cczu-vpn-proto"@
        }),
{
    let command = secret_tool_view(user, what);
    assert(command.args.take(7) =~= secret_tool_view(user, SecretUse::Lookup).args.take(7));
}

/// Credentials are saved, and deleted, exactly if the command ended with success. What could not
/// be done is said with its cause, where there is one.
pub proof fn keyring_failures_are_reported(outcome: StoreOutcome, event: CommandEvent)
    ensures
        store_fault(outcome) is None <==> outcome == StoreOutcome::Ended(true),
        store_fault(outcome) matches Some(messages) ==> match outcome {
            StoreOutcome::NotRun(cause) => messages.len() == 2 && messages[1] == cause@,
            StoreOutcome::NotEncoded(cause) => messages.len() == 2 && messages[1] == cause@,
            StoreOutcome::NotSent(cause) => messages.len() == 2 && messages[1] == cause@,
            StoreOutcome::NotAwaited(cause) => messages.len() == 2 && messages[1] == cause@,
            _ => messages.len() == 1,
        },
        forget_fault(event) is None <==> (event matches CommandEvent::Finished(output)
            && output.success),
        forget_fault(event) matches Some(messages) ==> match event {
            CommandEvent::NotRun(cause) => messages.len() == 2 && messages[1] == cause@,
            CommandEvent::Finished(_) => messages.len() == 1,
        },
{
}

/// That the keyring has no secret is no failure: it answers without success, or with nothing. A
/// failure is that it cannot be asked, and that its answer is no text; the cause is named.
pub proof fn missing_secret_is_no_failure(event: CommandEvent)
    ensures
        loaded_secret(event) == Ok::<Option<Seq<char>>, Seq<Seq<char>>>(None) <==> (event matches
            CommandEvent::Finished(output) && (!output.success || output.stdout@.len() == 0)),
        event matches CommandEvent::NotRun(cause) ==> (loaded_secret(event) matches Err(messages)
            && messages.len() == 2 && messages[1] == cause@),
        event matches CommandEvent::Finished(output) && output.success && output.stdout@.len() > 0
            ==> (loaded_secret(event) is Ok <==> valid_utf8(event->Finished_0.stdout@)),
        event is Finished && loaded_secret(event) is Err ==> loaded_secret(event)->Err_0.len() == 2
            && loaded_secret(event)->Err_0[1] == utf8_fault_text(event->Finished_0.stdout@),
        loaded_secret(event) matches Ok(Some(secret)) ==> trimmed(secret) == secret && secret
            == trimmed(decode_utf8(event->Finished_0.stdout@)),
{
    if let CommandEvent::Finished(output) = event {
        trimmed_text_stays(decode_utf8(output.stdout@));
    }
}

/// The number that is asked for is that of the user whose keyring is used; there is a keyring under
/// Linux, and nowhere else.
pub proof fn number_is_asked_for_by_name(
    sudo_user: Option<Seq<char>>,
    user: Option<Seq<char>>,
    sudo_uid: Option<Seq<char>>,
    linux: bool,
)
    ensures
        looked_up(sudo_user, user, sudo_uid) matches KeyringLookupView::AskUid(name) ==> {
            let command = id_view(name);
            &&& command.program == "id"@
            &&& command.args.len() == 2
            &&& command.args[0] == "-u"@
            &&& Some(command.args[1]) == sudo_user || Some(command.args[1]) == user
        },
        keyring_fault(linux) is None <==> linux,
{
}

} // verus!
