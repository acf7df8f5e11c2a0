//! Which account a session is started with, and what the user is asked for that.

use vstd::prelude::*;
use crate::cli::commands::{in_quotes, is_plain, quote, quoted_text};
use crate::text::{is_white_space, maybe_text, same_text, trim_text, trimmed};
use crate::text_laws::{blank_text_is_trimmed_away, trimmed_text_stays};

verus! {

/// The arguments of the program.
#[derive(Debug)]
pub struct CliArgs {
    pub user: Option<String>,
    pub password: Option<String>,
    pub log_level: String,
    /// Go on without asking where the portal seems to be unavailable.
    pub yes: bool,
    /// Neither read nor save credentials in the keyring.
    pub no_keyring: bool,
    /// Delete the credentials in the keyring, and do nothing else.
    pub forget_login: bool,
}

/// An account: what is saved in the keyring.
pub struct SavedCredentials {
    pub user: String,
    pub password: String,
}

/// A [`SavedCredentials`] as characters.
pub struct CredentialsView {
    pub user: Seq<char>,
    pub password: Seq<char>,
}

impl View for SavedCredentials {
    type V = CredentialsView;

    open spec fn view(&self) -> CredentialsView {
        CredentialsView { user: self.user@, password: self.password@ }
    }
}

/// What diagnostics show of credentials.
pub open spec fn shown_credentials(c: CredentialsView) -> Seq<char> {
    "SavedCredentials { user: "@ + quoted_text(c.user) + ", password: "@ + quoted_text(
        "[REDACTED]"@,
    ) + " }"@
}

/// Diagnostics do not depend on the password.
pub proof fn shown_credentials_hide_password(a: CredentialsView, b: CredentialsView)
    requires
        a.user == b.user,
    ensures
        shown_credentials(a) == shown_credentials(b),
{
}

impl SavedCredentials {
    /// What diagnostics show: the user, and not the password.
    pub fn debug_text(&self) -> (r: String)
        ensures
            r@ == shown_credentials(self@),
            is_plain(self@.user) ==> r@ == "SavedCredentials { user: "@ + in_quotes(self@.user)
                + ", password: "@ + in_quotes("[REDACTED]"@) + " }"@,
    {
        proof {
            reveal_strlit("[REDACTED]");
        }
        let user = quote(&self.user);
        let password = quote("[REDACTED]");
        let mut out = String::from_str("SavedCredentials { user: ");
        out.append(&user);
        out.append(", password: ");
        out.append(&password);
        out.append(" }");
        out
    }
}

/// What the user typed on a line, without the white space around it.
pub fn read_prompt(line: &str) -> (r: String)
    ensures
        r@ == trimmed(line@),
{
    trim_text(line)
}

/// What the user typed on a line that may not be blank; none if it is, and the user is to be
/// asked again.
pub fn read_required_prompt(line: &str) -> (r: Option<String>)
    ensures
        maybe_text(r) == (if trimmed(line@).len() == 0 {
            None
        } else {
            Some(trimmed(line@))
        }),
{
    let value = read_prompt(line);
    if value.as_str().is_empty() {
        None
    } else {
        Some(value)
    }
}

/// The password that the user typed; none if it is empty, and the user is to be asked again.
pub fn read_required_password_prompt(value: String) -> (r: Option<String>)
    ensures
        maybe_text(r) == (if value@.len() == 0 {
            None
        } else {
            Some(value@)
        }),
{
    if value.as_str().is_empty() {
        None
    } else {
        Some(value)
    }
}

/// The answer is no refusal.
pub open spec fn is_no_refusal(line: Seq<char>) -> bool {
    !(trimmed(line) == "n"@ || trimmed(line) == "N"@)
}

/// The answer is an express consent.
pub open spec fn is_express_consent(line: Seq<char>) -> bool {
    trimmed(line) == "y"@ || trimmed(line) == "Y"@
}

/// Everything but a refusal is consent.
pub fn confirm_continue(line: &str) -> (r: bool)
    ensures
        r <==> !(trimmed(line@) == "n"@ || trimmed(line@) == "N"@),
        r == is_no_refusal(line@),
{
    let choice = read_prompt(line);
    !(same_text(&choice, "n") || same_text(&choice, "N"))
}

/// Only an express consent is one.
pub fn confirm_explicitly(line: &str) -> (r: bool)
    ensures
        r <==> trimmed(line@) == "y"@ || trimmed(line@) == "Y"@,
        r == is_express_consent(line@),
{
    let choice = read_prompt(line);
    same_text(&choice, "y") || same_text(&choice, "Y")
}

/// How far it is known which account is to be used.
pub enum Resolution {
    /// The keyring is to be looked into.
    LoadKeyring,
    /// The user is to be asked for the name of the account.
    AskUser,
    /// The user is to be asked for the password of this account.
    AskPassword(String),
    /// The account, and whether it came from the keyring.
    Resolved(SavedCredentials, bool),
}

/// A [`Resolution`] as characters.
pub enum ResolutionView {
    LoadKeyring,
    AskUser,
    AskPassword(Seq<char>),
    Resolved(CredentialsView, bool),
}

impl View for Resolution {
    type V = ResolutionView;

    open spec fn view(&self) -> ResolutionView {
        match *self {
            Resolution::LoadKeyring => ResolutionView::LoadKeyring,
            Resolution::AskUser => ResolutionView::AskUser,
            Resolution::AskPassword(user) => ResolutionView::AskPassword(user@),
            Resolution::Resolved(c, loaded) => ResolutionView::Resolved(c@, loaded),
        }
    }
}

/// What an argument gives, if it is there and not blank.
pub open spec fn given(arg: Option<String>) -> Option<Seq<char>> {
    match arg {
        Some(s) => if trimmed(s@).len() == 0 {
            None
        } else {
            Some(trimmed(s@))
        },
        None => None,
    }
}

fn given_text(arg: &Option<String>) -> (r: Option<String>)
    ensures
        maybe_text(r) == given(*arg),
{
    match arg {
        Some(s) => read_required_prompt(s),
        None => None,
    }
}

/// The name is known: the password is given, or asked for.
pub open spec fn with_user(args: CliArgs, user: Seq<char>) -> ResolutionView {
    match given(args.password) {
        Some(password) => ResolutionView::Resolved(CredentialsView { user, password }, false),
        None => ResolutionView::AskPassword(user),
    }
}

/// The keyring has nothing: the name is given, or asked for.
pub open spec fn without_keyring(args: CliArgs) -> ResolutionView {
    match given(args.user) {
        Some(user) => with_user(args, user),
        None => ResolutionView::AskUser,
    }
}

/// Where to begin: in the keyring, unless that is ruled out or part of an account is given.
pub open spec fn resolution_start(args: CliArgs) -> ResolutionView {
    if !args.no_keyring && args.user is None && args.password is None {
        ResolutionView::LoadKeyring
    } else {
        without_keyring(args)
    }
}

/// What the keyring or the user gave.
pub enum ResolveEvent {
    /// What is in the keyring; nothing if it could not be read.
    Keyring(Option<SavedCredentials>),
    /// What was typed.
    Typed(String),
}

/// Where to go on. A blank name and an empty password are asked for again.
pub open spec fn resolution_after(
    args: CliArgs,
    state: ResolutionView,
    event: ResolveEvent,
) -> ResolutionView {
    match (state, event) {
        (ResolutionView::LoadKeyring, ResolveEvent::Keyring(Some(c))) => ResolutionView::Resolved(
            c@,
            true,
        ),
        (ResolutionView::LoadKeyring, ResolveEvent::Keyring(None)) => without_keyring(args),
        (ResolutionView::AskUser, ResolveEvent::Typed(line)) => if trimmed(line@).len() == 0 {
            state
        } else {
            with_user(args, trimmed(line@))
        },
        (ResolutionView::AskPassword(user), ResolveEvent::Typed(password)) => if password@.len()
            == 0 {
            state
        } else {
            ResolutionView::Resolved(CredentialsView { user, password: password@ }, false)
        },
        _ => state,
    }
}

fn go_on_with_user(args: &CliArgs, user: String) -> (r: Resolution)
    ensures
        r@ == with_user(*args, user@),
{
    match given_text(&args.password) {
        Some(password) => Resolution::Resolved(SavedCredentials { user, password }, false),
        None => Resolution::AskPassword(user),
    }
}

fn go_on_without_keyring(args: &CliArgs) -> (r: Resolution)
    ensures
        r@ == without_keyring(*args),
{
    match given_text(&args.user) {
        Some(user) => go_on_with_user(args, user),
        None => Resolution::AskUser,
    }
}

/// Where to begin.
pub fn resolve_credentials(args: &CliArgs) -> (r: Resolution)
    ensures
        r@ == resolution_start(*args),
{
    if !args.no_keyring && args.user.is_none() && args.password.is_none() {
        Resolution::LoadKeyring
    } else {
        go_on_without_keyring(args)
    }
}

/// Where to go on.
pub fn resolve_further(args: &CliArgs, state: Resolution, event: ResolveEvent) -> (r: Resolution)
    ensures
        r@ == resolution_after(*args, state@, event),
{
    match (state, event) {
        (Resolution::LoadKeyring, ResolveEvent::Keyring(Some(c))) => Resolution::Resolved(c, true),
        (Resolution::LoadKeyring, ResolveEvent::Keyring(None)) => go_on_without_keyring(args),
        (Resolution::AskUser, ResolveEvent::Typed(line)) => match read_required_prompt(&line) {
            Some(user) => go_on_with_user(args, user),
            None => Resolution::AskUser,
        },
        (
            Resolution::AskPassword(user),
            ResolveEvent::Typed(value),
        ) => match read_required_password_prompt(value) {
            Some(password) => Resolution::Resolved(SavedCredentials { user, password }, false),
            None => Resolution::AskPassword(user),
        },
        (state, _) => state,
    }
}

/// Where some events lead.
pub open spec fn resolution_run(args: CliArgs, events: Seq<ResolveEvent>) -> ResolutionView
    decreases events.len(),
{
    if events.len() == 0 {
        resolution_start(args)
    } else {
        resolution_after(args, resolution_run(args, events.drop_last()), events.last())
    }
}

/// The keyring is out of the question: it is ruled out, or part of an account is given.
pub open spec fn bypasses_keyring(args: CliArgs) -> bool {
    args.no_keyring || args.user is Some || args.password is Some
}

/// Whatever is typed, where the keyring is out of the question it is never looked into, and
/// the account does not come from it.
pub proof fn bypassed_keyring_is_not_used(args: CliArgs, events: Seq<ResolveEvent>)
    requires
        bypasses_keyring(args),
    ensures
        resolution_run(args, events) != ResolutionView::LoadKeyring,
        resolution_run(args, events) matches ResolutionView::Resolved(_, loaded) ==> !loaded,
    decreases events.len(),
{
    if events.len() > 0 {
        bypassed_keyring_is_not_used(args, events.drop_last());
    }
}

/// An account that does not come from the keyring has a name and a password.
pub proof fn typed_account_is_complete(args: CliArgs, events: Seq<ResolveEvent>)
    ensures
        resolution_run(args, events) matches ResolutionView::Resolved(c, false) ==> c.user.len() > 0
            && c.password.len() > 0,
        resolution_run(args, events) matches ResolutionView::AskPassword(user) ==> user.len() > 0,
    decreases events.len(),
{
    if events.len() > 0 {
        typed_account_is_complete(args, events.drop_last());
    }
}

/// What is given on the command line is what is used, whatever else happens.
pub proof fn given_account_is_used(args: CliArgs, events: Seq<ResolveEvent>)
    requires
        given(args.user) is Some,
        given(args.password) is Some,
    ensures
        resolution_run(args, events) == ResolutionView::Resolved(
            CredentialsView { user: given(args.user)->0, password: given(args.password)->0 },
            false,
        ),
    decreases events.len(),
{
    if events.len() > 0 {
        given_account_is_used(args, events.drop_last());
    }
}

/// Where silence counts as consent, only the letter n is a refusal; where it does not, only the
/// letter y is consent. Case and the white space around the letter do not matter. So an express
/// consent is never a refusal, and a blank line is neither.
pub proof fn consent_is_a_letter(line: Seq<char>)
    ensures
        is_no_refusal(line) <==> trimmed(line) != seq!['n'] && trimmed(line) != seq!['N'],
        is_express_consent(line) <==> trimmed(line) == seq!['y'] || trimmed(line) == seq!['Y'],
        is_express_consent(line) ==> is_no_refusal(line),
        trimmed(line).len() == 0 ==> is_no_refusal(line) && !is_express_consent(line),
        is_no_refusal(trimmed(line)) == is_no_refusal(line),
        is_express_consent(trimmed(line)) == is_express_consent(line),
{
    reveal_strlit("n");
    reveal_strlit("N");
    reveal_strlit("y");
    reveal_strlit("Y");
    assert("n"@ =~= seq!['n']);
    assert("N"@ =~= seq!['N']);
    assert("y"@ =~= seq!['y']);
    assert("Y"@ =~= seq!['Y']);
    assert(seq!['y'][0] != seq!['n'][0]);
    assert(seq!['y'][0] != seq!['N'][0]);
    assert(seq!['Y'][0] != seq!['n'][0]);
    assert(seq!['Y'][0] != seq!['N'][0]);
    trimmed_text_stays(line);
}

/// What the keyring has is used as it is, where the keyring is not out of the question, whatever
/// is typed afterwards.
pub proof fn saved_account_is_used(
    args: CliArgs,
    saved: SavedCredentials,
    later: Seq<ResolveEvent>,
)
    requires
        !args.no_keyring,
        args.user is None,
        args.password is None,
    ensures
        resolution_run(args, seq![ResolveEvent::Keyring(Some(saved))] + later)
            == ResolutionView::Resolved(saved@, true),
    decreases later.len(),
{
    let first = seq![ResolveEvent::Keyring(Some(saved))];
    let events = first + later;
    if later.len() == 0 {
        assert(events =~= first);
        assert(first.drop_last() =~= Seq::<ResolveEvent>::empty());
        assert(resolution_run(args, first.drop_last()) == ResolutionView::LoadKeyring);
    } else {
        saved_account_is_used(args, saved, later.drop_last());
        assert(events.drop_last() =~= first + later.drop_last());
        assert(events.last() == later.last());
    }
}

/// Where an account comes from when nothing is in the keyring, or it is out of the question: a
/// name and a password that are given and not blank are used without the white space around
/// them, and what is not given is asked for. What is typed as a name is used without the white
/// space around it, and what is typed as a password is used as it is.
pub proof fn account_is_given_or_typed(args: CliArgs, name: String, password: String)
    requires
        trimmed(name@).len() > 0,
        password@.len() > 0,
    ensures
        ({
            let user_given = args.user matches Some(s) && trimmed(s@).len() > 0;
            let password_given = args.password matches Some(s) && trimmed(s@).len() > 0;
            let user = if user_given {
                trimmed(args.user->0@)
            } else {
                trimmed(name@)
            };
            let secret = if password_given {
                trimmed(args.password->0@)
            } else {
                password@
            };
            let start = without_keyring(args);
            let named = if user_given {
                start
            } else {
                resolution_after(args, start, ResolveEvent::Typed(name))
            };
            let known = if password_given {
                named
            } else {
                resolution_after(args, named, ResolveEvent::Typed(password))
            };
            &&& !user_given ==> start == ResolutionView::AskUser
            &&& !password_given ==> named == ResolutionView::AskPassword(user)
            &&& known == ResolutionView::Resolved(CredentialsView { user, password: secret }, false)
        }),
{
}

/// The keyring is looked into first, and only where it is not ruled out and no part of an account
/// is given; if it has nothing, it is as if it were out of the question. A blank name and an empty
/// password are asked for again.
pub proof fn keyring_comes_first(args: CliArgs, line: String, user: Seq<char>)
    ensures
        resolution_start(args) == ResolutionView::LoadKeyring <==> !args.no_keyring && args.user
            is None && args.password is None,
        bypasses_keyring(args) ==> resolution_start(args) == without_keyring(args),
        resolution_after(args, ResolutionView::LoadKeyring, ResolveEvent::Keyring(None))
            == without_keyring(args),
        (forall|i: int| 0 <= i < line@.len() ==> is_white_space(#[trigger] line@[i]))
            ==> resolution_after(args, ResolutionView::AskUser, ResolveEvent::Typed(line))
            == ResolutionView::AskUser,
        line@.len() == 0 ==> resolution_after(
            args,
            ResolutionView::AskPassword(user),
            ResolveEvent::Typed(line),
        ) == ResolutionView::AskPassword(user),
        line@.len() > 0 ==> resolution_after(
            args,
            ResolutionView::AskPassword(user),
            ResolveEvent::Typed(line),
        ) == ResolutionView::Resolved(CredentialsView { user, password: line@ }, false),
{
    blank_text_is_trimmed_away(line@);
    if args.user is Some {
        assert(resolution_start(args) == without_keyring(args));
    }
}

/// What was not asked for changes nothing, and an account that is known stays.
pub proof fn known_account_stays(
    args: CliArgs,
    state: ResolutionView,
    event: ResolveEvent,
)
    ensures
        state is Resolved ==> resolution_after(args, state, event) == state,
        state is LoadKeyring && event is Typed ==> resolution_after(args, state, event) == state,
        state is AskUser && event is Keyring ==> resolution_after(args, state, event) == state,
        state is AskPassword && event is Keyring ==> resolution_after(args, state, event) == state,
{
}

} // verus!
