//! The course of the program, from its arguments to its end.

use vstd::prelude::*;
use crate::cli::commands::is_outcome;
use crate::cli::credentials::CliArgs;
use crate::failure::{maybe_failure, Failure};

verus! {

/// What is to be done next.
#[derive(Debug, Clone, Copy, PartialEq, Eq, Structural)]
pub enum RunStage {
    /// Delete the saved credentials.
    ForgetLogin,
    /// Put the rules for the endpoints in place.
    InstallBootstrap,
    /// See whether the portal is available.
    CheckPortal,
    /// Ask whether to go on though it is not.
    ConfirmPortal,
    ResolveCredentials,
    StartService,
    /// Ask whether to save the credentials.
    OfferSave,
    SaveCredentials,
    CreateDevice,
    /// The device failed: see whether the service still runs.
    CheckService,
    StopService,
    /// Remove the rules for the endpoints.
    ReleaseBootstrap,
    Done,
}

/// What has become of the stage.
#[derive(Debug)]
pub enum RunEvent {
    Succeeded,
    Failed(Failure),
    /// It is so, or it is not.
    Answered(bool),
    /// The credentials are known; and whether they came from the keyring.
    Resolved(bool),
}

/// The course of the program.
#[derive(Debug)]
pub struct Run {
    /// The system has a keyring and rules for endpoints.
    pub linux: bool,
    pub yes: bool,
    pub no_keyring: bool,
    pub loaded_from_keyring: bool,
    /// The rules for the endpoints are in place.
    pub bootstrapped: bool,
    pub stage: RunStage,
    pub failure: Option<Failure>,
}

/// A [`Run`] in terms of sequences.
#[verifier::ext_equal]
pub struct RunView {
    pub linux: bool,
    pub yes: bool,
    pub no_keyring: bool,
    pub loaded_from_keyring: bool,
    /// The rules for the endpoints are in place.
    pub bootstrapped: bool,
    pub stage: RunStage,
    pub failure: Option<Seq<Seq<char>>>,
}

impl View for Run {
    type V = RunView;

    open spec fn view(&self) -> RunView {
        RunView {
            linux: self.linux,
            yes: self.yes,
            no_keyring: self.no_keyring,
            loaded_from_keyring: self.loaded_from_keyring,
            bootstrapped: self.bootstrapped,
            stage: self.stage,
            failure: maybe_failure(self.failure),
        }
    }
}

/// The first stage for some arguments.
pub open spec fn run_start(args: CliArgs, linux: bool) -> RunView {
    RunView {
        linux,
        yes: args.yes,
        no_keyring: args.no_keyring,
        loaded_from_keyring: false,
        bootstrapped: false,
        stage: if args.forget_login {
            RunStage::ForgetLogin
        } else if linux {
            RunStage::InstallBootstrap
        } else {
            RunStage::CheckPortal
        },
        failure: None,
    }
}

impl RunView {
    /// Goes on to a stage.
    pub open spec fn at(self, stage: RunStage) -> RunView {
        RunView { stage, ..self }
    }

    /// Comes to its end, once the rules are removed, if there are any.
    pub open spec fn ended(self) -> RunView {
        self.at(
            if self.bootstrapped {
                RunStage::ReleaseBootstrap
            } else {
                RunStage::Done
            },
        )
    }

    /// Ends with a failure.
    pub open spec fn failed(self, messages: Seq<Seq<char>>) -> RunView {
        (RunView { failure: Some(messages), ..self }).ended()
    }

    /// Credentials that can be saved, and are not yet.
    pub open spec fn can_save(self) -> bool {
        self.linux && !self.no_keyring && !self.loaded_from_keyring
    }

    /// The state when the stage has come to `event`.
    pub open spec fn after(self, event: RunEvent) -> RunView {
        match (self.stage, event) {
            (RunStage::ForgetLogin, RunEvent::Succeeded) => self.ended(),
            (RunStage::ForgetLogin, RunEvent::Failed(f)) => self.failed(f@),
            (RunStage::InstallBootstrap, RunEvent::Succeeded) => (RunView {
                bootstrapped: true,
                ..self
            }).at(RunStage::CheckPortal),
            (RunStage::InstallBootstrap, RunEvent::Failed(f)) => self.failed(f@),
            (RunStage::CheckPortal, RunEvent::Answered(available)) => if available || self.yes {
                self.at(RunStage::ResolveCredentials)
            } else {
                self.at(RunStage::ConfirmPortal)
            },
            (RunStage::ConfirmPortal, RunEvent::Answered(go_on)) => if go_on {
                self.at(RunStage::ResolveCredentials)
            } else {
                self.ended()
            },
            (RunStage::ConfirmPortal, RunEvent::Failed(f)) => self.failed(f@),
            (RunStage::ResolveCredentials, RunEvent::Resolved(loaded)) => (RunView {
                loaded_from_keyring: loaded,
                ..self
            }).at(RunStage::StartService),
            (RunStage::ResolveCredentials, RunEvent::Failed(f)) => self.failed(f@),
            (RunStage::StartService, RunEvent::Succeeded) => if self.can_save() {
                self.at(RunStage::OfferSave)
            } else {
                self.at(RunStage::CreateDevice)
            },
            (RunStage::StartService, RunEvent::Failed(f)) => self.failed(f@),
            (RunStage::OfferSave, RunEvent::Answered(save)) => if save {
                self.at(RunStage::SaveCredentials)
            } else {
                self.at(RunStage::CreateDevice)
            },
            (RunStage::OfferSave, RunEvent::Failed(f)) => self.failed(f@),
            (RunStage::SaveCredentials, RunEvent::Succeeded) => self.at(RunStage::CreateDevice),
            (RunStage::SaveCredentials, RunEvent::Failed(_)) => self.at(RunStage::CreateDevice),
            (RunStage::CreateDevice, RunEvent::Succeeded) => self.ended(),
            (RunStage::CreateDevice, RunEvent::Failed(f)) => self.failed(f@).at(
                RunStage::CheckService,
            ),
            (RunStage::CheckService, RunEvent::Answered(runs)) => if runs {
                self.at(RunStage::StopService)
            } else {
                self.ended()
            },
            (RunStage::StopService, RunEvent::Succeeded) => self.ended(),
            (RunStage::StopService, RunEvent::Failed(_)) => self.ended(),
            (RunStage::ReleaseBootstrap, RunEvent::Succeeded) => (RunView {
                bootstrapped: false,
                ..self
            }).ended(),
            (RunStage::ReleaseBootstrap, RunEvent::Failed(_)) => (RunView {
                bootstrapped: false,
                ..self
            }).ended(),
            _ => self,
        }
    }
}

/// The course of the program for some arguments.
pub fn run(args: &CliArgs, linux: bool) -> (r: Run)
    ensures
        r@ == run_start(*args, linux),
{
    Run {
        linux,
        yes: args.yes,
        no_keyring: args.no_keyring,
        loaded_from_keyring: false,
        bootstrapped: false,
        stage: if args.forget_login {
            RunStage::ForgetLogin
        } else if linux {
            RunStage::InstallBootstrap
        } else {
            RunStage::CheckPortal
        },
        failure: None,
    }
}

impl Run {
    fn end(&mut self)
        ensures
            final(self)@ == old(self)@.ended(),
    {
        self.stage = if self.bootstrapped {
            RunStage::ReleaseBootstrap
        } else {
            RunStage::Done
        };
    }

    fn fail(&mut self, failure: Failure)
        ensures
            final(self)@ == old(self)@.failed(failure@),
    {
        self.failure = Some(failure);
        self.end();
    }

    /// Takes note of what became of the stage.
    pub fn observe(&mut self, event: RunEvent)
        ensures
            final(self)@ == old(self)@.after(event),
    {
        match (self.stage, event) {
            (RunStage::ForgetLogin, RunEvent::Succeeded) => {
                self.end();
            },
            (RunStage::ForgetLogin, RunEvent::Failed(f)) => {
                self.fail(f);
            },
            (RunStage::InstallBootstrap, RunEvent::Succeeded) => {
                self.bootstrapped = true;
                self.stage = RunStage::CheckPortal;
            },
            (RunStage::InstallBootstrap, RunEvent::Failed(f)) => {
                self.fail(f);
            },
            (RunStage::CheckPortal, RunEvent::Answered(available)) => {
                self.stage = if available || self.yes {
                    RunStage::ResolveCredentials
                } else {
                    RunStage::ConfirmPortal
                };
            },
            (RunStage::ConfirmPortal, RunEvent::Answered(go_on)) => {
                if go_on {
                    self.stage = RunStage::ResolveCredentials;
                } else {
                    self.end();
                }
            },
            (RunStage::ConfirmPortal, RunEvent::Failed(f)) => {
                self.fail(f);
            },
            (RunStage::ResolveCredentials, RunEvent::Resolved(loaded)) => {
                self.loaded_from_keyring = loaded;
                self.stage = RunStage::StartService;
            },
            (RunStage::ResolveCredentials, RunEvent::Failed(f)) => {
                self.fail(f);
            },
            (RunStage::StartService, RunEvent::Succeeded) => {
                self.stage = if self.linux && !self.no_keyring && !self.loaded_from_keyring {
                    RunStage::OfferSave
                } else {
                    RunStage::CreateDevice
                };
            },
            (RunStage::StartService, RunEvent::Failed(f)) => {
                self.fail(f);
            },
            (RunStage::OfferSave, RunEvent::Answered(save)) => {
                self.stage = if save {
                    RunStage::SaveCredentials
                } else {
                    RunStage::CreateDevice
                };
            },
            (RunStage::OfferSave, RunEvent::Failed(f)) => {
                self.fail(f);
            },
            (RunStage::SaveCredentials, RunEvent::Succeeded) => {
                self.stage = RunStage::CreateDevice;
            },
            (RunStage::SaveCredentials, RunEvent::Failed(_)) => {
                self.stage = RunStage::CreateDevice;
            },
            (RunStage::CreateDevice, RunEvent::Succeeded) => {
                self.end();
            },
            (RunStage::CreateDevice, RunEvent::Failed(f)) => {
                self.fail(f);
                self.stage = RunStage::CheckService;
            },
            (RunStage::CheckService, RunEvent::Answered(runs)) => {
                if runs {
                    self.stage = RunStage::StopService;
                } else {
                    self.end();
                }
            },
            (RunStage::StopService, RunEvent::Succeeded) => {
                self.end();
            },
            (RunStage::StopService, RunEvent::Failed(_)) => {
                self.end();
            },
            (RunStage::ReleaseBootstrap, RunEvent::Succeeded) => {
                self.bootstrapped = false;
                self.end();
            },
            (RunStage::ReleaseBootstrap, RunEvent::Failed(_)) => {
                self.bootstrapped = false;
                self.end();
            },
            _ => {},
        }
    }

    /// How it went.
    pub fn finish(self) -> (r: Result<(), Failure>)
        requires
            self.stage == RunStage::Done,
        ensures
            match self@.failure {
                Some(messages) => r matches Err(f) && f@ == messages,
                None => r is Ok,
            },
            is_outcome(r, self@.failure),
    {
        match self.failure {
            Some(f) => Err(f),
            None => Ok(()),
        }
    }
}

/// The state when the stages have come to `events`, one after the other.
pub open spec fn run_after(args: CliArgs, linux: bool, events: Seq<RunEvent>) -> RunView
    decreases events.len(),
{
    if events.len() == 0 {
        run_start(args, linux)
    } else {
        run_after(args, linux, events.drop_last()).after(events.last())
    }
}

/// The stages that a run went through, the present one last.
pub open spec fn visited(args: CliArgs, linux: bool, events: Seq<RunEvent>) -> Seq<RunStage>
    decreases events.len(),
{
    if events.len() == 0 {
        seq![run_start(args, linux).stage]
    } else {
        visited(args, linux, events.drop_last()).push(run_after(args, linux, events).stage)
    }
}

proof fn lemma_run_keeps_arguments(args: CliArgs, linux: bool, events: Seq<RunEvent>)
    ensures
        run_after(args, linux, events).linux == linux,
        run_after(args, linux, events).yes == args.yes,
        run_after(args, linux, events).no_keyring == args.no_keyring,
        visited(args, linux, events).len() == events.len() + 1,
        visited(args, linux, events).last() == run_after(args, linux, events).stage,
    decreases events.len(),
{
    if events.len() > 0 {
        lemma_run_keeps_arguments(args, linux, events.drop_last());
    }
}

/// Who asks to forget the login gets that and nothing else: no session is started.
pub proof fn forgetting_does_nothing_else(args: CliArgs, linux: bool, events: Seq<RunEvent>)
    requires
        args.forget_login,
    ensures
        !run_after(args, linux, events).bootstrapped,
        forall|i: int|
            0 <= i < visited(args, linux, events).len() ==> ({
                let stage = #[trigger] visited(args, linux, events)[i];
                stage == RunStage::ForgetLogin || stage == RunStage::Done
            }),
    decreases events.len(),
{
    lemma_run_keeps_arguments(args, linux, events);
    if events.len() > 0 {
        forgetting_does_nothing_else(args, linux, events.drop_last());
        lemma_run_keeps_arguments(args, linux, events.drop_last());
        let before = visited(args, linux, events.drop_last());
        assert(before[before.len() - 1] == run_after(args, linux, events.drop_last()).stage);
    }
}

/// Credentials are saved only where there is a keyring and it is not ruled out, not if they
/// come from it, and only after a successful login and with express consent: the stages
/// before are the start of the service, and the offer.
pub proof fn saving_needs_login_and_consent(args: CliArgs, linux: bool, events: Seq<RunEvent>)
    requires
        run_after(args, linux, events).stage == RunStage::SaveCredentials,
        events.len() > 0,
        run_after(args, linux, events.drop_last()).stage != RunStage::SaveCredentials,
    ensures
        linux,
        !args.no_keyring,
        !run_after(args, linux, events).loaded_from_keyring,
        run_after(args, linux, events.drop_last()).stage == RunStage::OfferSave,
        events.last() == RunEvent::Answered(true),
        visited(args, linux, events).contains(RunStage::StartService),
{
    lemma_offer_follows_login(args, linux, events.drop_last());
    lemma_run_keeps_arguments(args, linux, events);
    let before = visited(args, linux, events.drop_last());
    let i = choose|i: int| 0 <= i < before.len() && before[i] == RunStage::StartService;
    assert(visited(args, linux, events)[i] == RunStage::StartService);
}

proof fn lemma_offer_follows_login(args: CliArgs, linux: bool, events: Seq<RunEvent>)
    requires
        run_after(args, linux, events).stage == RunStage::OfferSave,
    ensures
        run_after(args, linux, events).can_save(),
        linux && !args.no_keyring,
        visited(args, linux, events).contains(RunStage::StartService),
    decreases events.len(),
{
    lemma_run_keeps_arguments(args, linux, events);
    if events.len() > 0 {
        let front = events.drop_last();
        lemma_run_keeps_arguments(args, linux, front);
        let before = visited(args, linux, front);
        let now = visited(args, linux, events);
        if run_after(args, linux, front).stage == RunStage::OfferSave {
            lemma_offer_follows_login(args, linux, front);
            let i = choose|i: int| 0 <= i < before.len() && before[i] == RunStage::StartService;
            assert(now[i] == RunStage::StartService);
        } else {
            assert(run_after(args, linux, front).stage == RunStage::StartService);
            assert(now[before.len() - 1] == RunStage::StartService);
        }
    }
}

/// If the device fails, that is what the run comes to, whatever becomes of the service then.
pub proof fn device_failure_is_reported(
    args: CliArgs,
    linux: bool,
    events: Seq<RunEvent>,
    failure: Failure,
    later: Seq<RunEvent>,
)
    requires
        run_after(args, linux, events).stage == RunStage::CreateDevice,
    ensures
        ({
            let end = run_after(args, linux, events.push(RunEvent::Failed(failure)) + later);
            &&& end.failure == Some(failure@)
            &&& end.stage == RunStage::CheckService || end.stage == RunStage::StopService
                || end.stage == RunStage::ReleaseBootstrap || end.stage == RunStage::Done
        }),
    decreases later.len(),
{
    let broken = events.push(RunEvent::Failed(failure));
    if later.len() == 0 {
        assert(broken + later =~= broken);
        assert(broken.drop_last() =~= events);
    } else {
        device_failure_is_reported(args, linux, events, failure, later.drop_last());
        assert((broken + later).drop_last() =~= broken + later.drop_last());
        assert((broken + later).last() == later.last());
    }
}

/// The rules for the endpoints are in place after some events: they were put in place, and it
/// was not attempted since to remove them.
pub open spec fn rules_in_place(args: CliArgs, linux: bool, events: Seq<RunEvent>) -> bool
    decreases events.len(),
{
    if events.len() == 0 {
        false
    } else {
        let before = rules_in_place(args, linux, events.drop_last());
        let stage = run_after(args, linux, events.drop_last()).stage;
        let event = events.last();
        if stage == RunStage::InstallBootstrap && event is Succeeded {
            true
        } else if stage == RunStage::ReleaseBootstrap && (event is Succeeded || event is Failed) {
            false
        } else {
            before
        }
    }
}

proof fn lemma_run_knows_its_rules(args: CliArgs, linux: bool, events: Seq<RunEvent>)
    ensures
        rules_in_place(args, linux, events) == run_after(args, linux, events).bootstrapped,
        run_after(args, linux, events).stage == RunStage::Done ==> !run_after(
            args,
            linux,
            events,
        ).bootstrapped,
        run_after(args, linux, events).stage == RunStage::InstallBootstrap ==> !run_after(
            args,
            linux,
            events,
        ).bootstrapped,
    decreases events.len(),
{
    if events.len() > 0 {
        lemma_run_knows_its_rules(args, linux, events.drop_last());
    }
}

/// However a run ends, it leaves no rule for an endpoint behind.
pub proof fn finished_run_leaves_no_rules(args: CliArgs, linux: bool, events: Seq<RunEvent>)
    requires
        run_after(args, linux, events).stage == RunStage::Done,
    ensures
        !rules_in_place(args, linux, events),
{
    lemma_run_knows_its_rules(args, linux, events);
}

/// The service was started in the course of the run.
pub open spec fn service_started(args: CliArgs, linux: bool, events: Seq<RunEvent>) -> bool
    decreases events.len(),
{
    events.len() > 0 && (service_started(args, linux, events.drop_last()) || (run_after(
        args,
        linux,
        events.drop_last(),
    ).stage == RunStage::StartService && events.last() is Succeeded))
}

/// The portal is available, or the user goes on though it is not.
pub open spec fn portal_accepted(args: CliArgs, linux: bool, events: Seq<RunEvent>) -> bool
    decreases events.len(),
{
    events.len() > 0 && (portal_accepted(args, linux, events.drop_last()) || {
        let stage = run_after(args, linux, events.drop_last()).stage;
        let answer = events.last();
        (stage == RunStage::CheckPortal || stage == RunStage::ConfirmPortal) && answer
            == RunEvent::Answered(true)
    })
}

/// The credentials became known in the course of the run.
pub open spec fn credentials_known(args: CliArgs, linux: bool, events: Seq<RunEvent>) -> bool
    decreases events.len(),
{
    events.len() > 0 && (credentials_known(args, linux, events.drop_last()) || (run_after(
        args,
        linux,
        events.drop_last(),
    ).stage == RunStage::ResolveCredentials && events.last() is Resolved))
}

/// The device was created in the course of the run, or is to be created next.
pub open spec fn device_reached(args: CliArgs, linux: bool, events: Seq<RunEvent>) -> bool {
    visited(args, linux, events).contains(RunStage::CreateDevice)
}

proof fn lemma_device_stays_reached(args: CliArgs, linux: bool, events: Seq<RunEvent>)
    requires
        events.len() > 0,
    ensures
        device_reached(args, linux, events) <==> device_reached(args, linux, events.drop_last())
            || run_after(args, linux, events).stage == RunStage::CreateDevice,
{
    let before = visited(args, linux, events.drop_last());
    let now = visited(args, linux, events);
    assert(now == before.push(run_after(args, linux, events).stage));
    if before.contains(RunStage::CreateDevice) {
        let i = choose|i: int| 0 <= i < before.len() && before[i] == RunStage::CreateDevice;
        assert(now[i] == RunStage::CreateDevice);
    }
    if run_after(args, linux, events).stage == RunStage::CreateDevice {
        assert(now[before.len() as int] == RunStage::CreateDevice);
    }
    if now.contains(RunStage::CreateDevice) {
        let i = choose|i: int| 0 <= i < now.len() && now[i] == RunStage::CreateDevice;
        if i < before.len() {
            assert(before[i] == RunStage::CreateDevice);
        }
    }
}

/// Once the service was started, the device is created: until then the run is busy with the
/// offer to save the credentials, or it has failed. So a run with a session does not come to an
/// end without a failure unless there was a device.
pub proof fn started_service_leads_to_the_device(
    args: CliArgs,
    linux: bool,
    events: Seq<RunEvent>,
)
    requires
        service_started(args, linux, events),
    ensures
        device_reached(args, linux, events) || run_after(args, linux, events).failure is Some
            || run_after(args, linux, events).stage == RunStage::OfferSave || run_after(
            args,
            linux,
            events,
        ).stage == RunStage::SaveCredentials,
        run_after(args, linux, events).stage == RunStage::Done && run_after(
            args,
            linux,
            events,
        ).failure is None ==> device_reached(args, linux, events),
    decreases events.len(),
{
    let front = events.drop_last();
    lemma_device_stays_reached(args, linux, events);
    if service_started(args, linux, front) {
        started_service_leads_to_the_device(args, linux, front);
    }
}

/// After the login the device comes next. The credentials are offered to be saved before that
/// exactly where there is a keyring, it is not ruled out and they do not come from it; neither
/// the answer nor what becomes of saving them changes anything else about the run.
pub proof fn saving_does_not_change_the_course(
    start: RunView,
    save: bool,
    failure: Failure,
)
    requires
        start.stage == RunStage::StartService,
    ensures
        ({
            let device = RunView { stage: RunStage::CreateDevice, ..start };
            let login = start.after(RunEvent::Succeeded);
            if start.linux && !start.no_keyring && !start.loaded_from_keyring {
                &&& login == (RunView { stage: RunStage::OfferSave, ..start })
                &&& login.after(RunEvent::Answered(false)) == device
                &&& login.after(RunEvent::Answered(true)) == (RunView {
                    stage: RunStage::SaveCredentials,
                    ..start
                })
                &&& login.after(RunEvent::Answered(true)).after(RunEvent::Succeeded) == device
                &&& login.after(RunEvent::Answered(true)).after(RunEvent::Failed(failure)) == device
            } else {
                login == device
            }
        }),
{
}

/// Nothing is done before its time: the credentials are asked for when the portal is available,
/// or the user goes on all the same; the service starts when the credentials are known; and the
/// device is created when the service was started.
pub proof fn stages_wait_for_one_another(args: CliArgs, linux: bool, events: Seq<RunEvent>)
    ensures
        ({
            let stage = run_after(args, linux, events).stage;
            &&& stage == RunStage::ResolveCredentials || credentials_known(args, linux, events)
                ==> args.yes || portal_accepted(args, linux, events)
            &&& stage == RunStage::StartService || service_started(args, linux, events)
                ==> credentials_known(args, linux, events)
            &&& stage == RunStage::OfferSave || stage == RunStage::SaveCredentials
                || device_reached(args, linux, events) ==> service_started(args, linux, events)
            &&& stage == RunStage::CheckService || stage == RunStage::StopService
                ==> device_reached(args, linux, events) && run_after(args, linux, events).failure
                is Some
            &&& linux && !args.forget_login ==> stage == RunStage::InstallBootstrap
                || rules_in_place(args, linux, events) || stage == RunStage::Done
        }),
    decreases events.len(),
{
    lemma_run_keeps_arguments(args, linux, events);
    lemma_run_knows_its_rules(args, linux, events);
    if events.len() > 0 {
        stages_wait_for_one_another(args, linux, events.drop_last());
        lemma_run_keeps_arguments(args, linux, events.drop_last());
        lemma_run_knows_its_rules(args, linux, events.drop_last());
        lemma_device_stays_reached(args, linux, events);
    } else {
        assert(visited(args, linux, events)[0] == run_start(args, linux).stage);
        if device_reached(args, linux, events) {
            let v = visited(args, linux, events);
            let i = choose|i: int| 0 <= i < v.len() && v[i] == RunStage::CreateDevice;
            assert(i == 0);
        }
    }
}

/// The stages whose failure is the failure of the run.
pub open spec fn is_decisive(stage: RunStage) -> bool {
    stage != RunStage::CheckPortal && stage != RunStage::SaveCredentials && stage
        != RunStage::CheckService && stage != RunStage::StopService && stage
        != RunStage::ReleaseBootstrap && stage != RunStage::Done
}

/// A stage that fails decides what the run comes to: it goes on with nothing but to stop the
/// service and to remove the rules, and whatever these come to, the failure stays.
pub proof fn failure_ends_the_run(
    args: CliArgs,
    linux: bool,
    events: Seq<RunEvent>,
    failure: Failure,
    later: Seq<RunEvent>,
)
    requires
        is_decisive(run_after(args, linux, events).stage),
    ensures
        ({
            let broken = events.push(RunEvent::Failed(failure));
            let end = run_after(args, linux, broken + later);
            &&& end.failure == Some(failure@)
            &&& end.stage == RunStage::CheckService || end.stage == RunStage::StopService
                || end.stage == RunStage::ReleaseBootstrap || end.stage == RunStage::Done
            &&& run_after(args, linux, events).stage == RunStage::CreateDevice <==> run_after(
                args,
                linux,
                broken,
            ).stage == RunStage::CheckService
        }),
    decreases later.len(),
{
    let broken = events.push(RunEvent::Failed(failure));
    assert(broken.drop_last() =~= events);
    if later.len() == 0 {
        assert(broken + later =~= broken);
    } else {
        failure_ends_the_run(args, linux, events, failure, later.drop_last());
        assert((broken + later).drop_last() =~= broken + later.drop_last());
        assert((broken + later).last() == later.last());
    }
}

/// Whether the credentials could be saved, the service stopped or the rules removed makes no
/// difference to the run.
pub proof fn failure_to_tidy_up_does_not_matter(run: RunView, failure: Failure)
    requires
        run.stage == RunStage::SaveCredentials || run.stage == RunStage::StopService || run.stage
            == RunStage::ReleaseBootstrap,
    ensures
        run.after(RunEvent::Failed(failure)) == run.after(RunEvent::Succeeded),
        run.after(RunEvent::Succeeded).failure == run.failure,
        run.after(RunEvent::Succeeded).stage != run.stage,
{
}

/// A run has no failure unless one of its stages failed.
pub proof fn run_fails_for_a_reason(args: CliArgs, linux: bool, events: Seq<RunEvent>)
    requires
        run_after(args, linux, events).failure is Some,
    ensures
        exists|i: int|
            0 <= i < events.len() && (#[trigger] events[i] matches RunEvent::Failed(f) && run_after(
                args,
                linux,
                events,
            ).failure == Some(f@)),
    decreases events.len(),
{
    if events.len() > 0 {
        let front = events.drop_last();
        let n = events.len() - 1;
        if run_after(args, linux, events).failure == run_after(args, linux, front).failure {
            run_fails_for_a_reason(args, linux, front);
            let i = choose|i: int|
                0 <= i < front.len() && (#[trigger] front[i] matches RunEvent::Failed(f)
                    && run_after(args, linux, front).failure == Some(f@));
            assert(events[i] == front[i]);
        } else {
            assert(events[n] is Failed);
        }
    }
}

proof fn lemma_run_step(args: CliArgs, linux: bool, events: Seq<RunEvent>, event: RunEvent)
    ensures
        run_after(args, linux, events.push(event)) == run_after(args, linux, events).after(event),
        visited(args, linux, events.push(event)) == visited(args, linux, events).push(
            run_after(args, linux, events).after(event).stage,
        ),
{
    assert(events.push(event).drop_last() =~= events);
}

/// Up to the portal, and the question whether to go on without it.
pub open spec fn smooth_opening(args: CliArgs, linux: bool, available: bool) -> (
    Seq<RunStage>,
    Seq<RunEvent>,
) {
    let (stages, events) = if linux {
        (seq![RunStage::InstallBootstrap, RunStage::CheckPortal], seq![RunEvent::Succeeded])
    } else {
        (seq![RunStage::CheckPortal], Seq::empty())
    };
    if available || args.yes {
        (stages, events.push(RunEvent::Answered(available)))
    } else {
        (
            stages.push(RunStage::ConfirmPortal),
            events.push(RunEvent::Answered(available)).push(RunEvent::Answered(true)),
        )
    }
}

/// The login, and the question whether to save the credentials.
pub open spec fn smooth_login(args: CliArgs, linux: bool, loaded: bool, save: bool) -> (
    Seq<RunStage>,
    Seq<RunEvent>,
) {
    let stages = seq![RunStage::ResolveCredentials, RunStage::StartService];
    let events = seq![RunEvent::Resolved(loaded), RunEvent::Succeeded];
    if !linux || args.no_keyring || loaded {
        (stages, events)
    } else if save {
        (
            stages.push(RunStage::OfferSave).push(RunStage::SaveCredentials),
            events.push(RunEvent::Answered(true)).push(RunEvent::Succeeded),
        )
    } else {
        (stages.push(RunStage::OfferSave), events.push(RunEvent::Answered(false)))
    }
}

/// The device, and the end.
pub open spec fn smooth_ending(linux: bool) -> (Seq<RunStage>, Seq<RunEvent>) {
    if linux {
        (
            seq![RunStage::CreateDevice, RunStage::ReleaseBootstrap, RunStage::Done],
            seq![RunEvent::Succeeded, RunEvent::Succeeded],
        )
    } else {
        (seq![RunStage::CreateDevice, RunStage::Done], seq![RunEvent::Succeeded])
    }
}

proof fn lemma_smooth_opening(args: CliArgs, linux: bool, available: bool)
    requires
        !args.forget_login,
    ensures
        ({
            let (stages, events) = smooth_opening(args, linux, available);
            &&& run_after(args, linux, events) == (RunView {
                bootstrapped: linux,
                stage: RunStage::ResolveCredentials,
                ..run_start(args, linux)
            })
            &&& visited(args, linux, events) == stages.push(RunStage::ResolveCredentials)
        }),
{
    let (stages, events) = smooth_opening(args, linux, available);
    let nothing = Seq::<RunEvent>::empty();
    let mut e = nothing;
    if linux {
        lemma_run_step(args, linux, nothing, RunEvent::Succeeded);
        e = nothing.push(RunEvent::Succeeded);
        assert(e =~= seq![RunEvent::Succeeded]);
    }
    lemma_run_step(args, linux, e, RunEvent::Answered(available));
    lemma_run_step(args, linux, e.push(RunEvent::Answered(available)), RunEvent::Answered(true));
    assert(visited(args, linux, events) =~= stages.push(RunStage::ResolveCredentials));
}

proof fn lemma_smooth_login(
    args: CliArgs,
    linux: bool,
    loaded: bool,
    save: bool,
    before: Seq<RunEvent>,
)
    requires
        run_after(args, linux, before) == (RunView {
            bootstrapped: linux,
            stage: RunStage::ResolveCredentials,
            ..run_start(args, linux)
        }),
    ensures
        ({
            let (stages, events) = smooth_login(args, linux, loaded, save);
            &&& run_after(args, linux, before + events) == (RunView {
                bootstrapped: linux,
                loaded_from_keyring: loaded,
                stage: RunStage::CreateDevice,
                ..run_start(args, linux)
            })
            &&& visited(args, linux, before + events) == visited(args, linux, before)
                + stages.drop_first() + seq![RunStage::CreateDevice]
        }),
{
    let (stages, events) = smooth_login(args, linux, loaded, save);
    let a = before.push(RunEvent::Resolved(loaded));
    let b = a.push(RunEvent::Succeeded);
    lemma_run_step(args, linux, before, RunEvent::Resolved(loaded));
    lemma_run_step(args, linux, a, RunEvent::Succeeded);
    lemma_run_step(args, linux, b, RunEvent::Answered(save));
    lemma_run_step(args, linux, b.push(RunEvent::Answered(save)), RunEvent::Succeeded);
    if !linux || args.no_keyring || loaded {
        assert(before + events =~= b);
    } else if save {
        assert(before + events =~= b.push(RunEvent::Answered(save)).push(RunEvent::Succeeded));
    } else {
        assert(before + events =~= b.push(RunEvent::Answered(save)));
    }
    assert(visited(args, linux, before + events) =~= visited(args, linux, before)
        + stages.drop_first() + seq![RunStage::CreateDevice]);
}

proof fn lemma_smooth_ending(args: CliArgs, linux: bool, loaded: bool, before: Seq<RunEvent>)
    requires
        run_after(args, linux, before) == (RunView {
            bootstrapped: linux,
            loaded_from_keyring: loaded,
            stage: RunStage::CreateDevice,
            ..run_start(args, linux)
        }),
    ensures
        ({
            let (stages, events) = smooth_ending(linux);
            &&& run_after(args, linux, before + events).failure is None
            &&& visited(args, linux, before + events) == visited(args, linux, before)
                + stages.drop_first()
        }),
{
    let (stages, events) = smooth_ending(linux);
    let a = before.push(RunEvent::Succeeded);
    lemma_run_step(args, linux, before, RunEvent::Succeeded);
    lemma_run_step(args, linux, a, RunEvent::Succeeded);
    if linux {
        assert(before + events =~= a.push(RunEvent::Succeeded));
    } else {
        assert(before + events =~= a);
    }
    assert(visited(args, linux, before + events) =~= visited(args, linux, before)
        + stages.drop_first());
}

proof fn lemma_overlap(a: Seq<RunStage>, b: Seq<RunStage>, stage: RunStage)
    requires
        b.len() > 0,
        b[0] == stage,
    ensures
        a + seq![stage] + b.drop_first() == a + b,
        a.push(stage) == a + seq![stage],
{
    assert(a + seq![stage] + b.drop_first() =~= a + b);
    assert(a.push(stage) =~= a + seq![stage]);
}

/// A run in which all goes well goes through all of its stages, in order, and ends without a
/// failure: the rules for the endpoints come first and go last, and between them come the
/// portal, the credentials, the service, the offer to save and the device. That is so whether or
/// not the portal is available, the credentials come from the keyring, or they are to be saved.
pub proof fn smooth_run_goes_through_its_stages(
    args: CliArgs,
    linux: bool,
    available: bool,
    loaded: bool,
    save: bool,
)
    requires
        !args.forget_login,
    ensures
        ({
            let opening = smooth_opening(args, linux, available);
            let login = smooth_login(args, linux, loaded, save);
            let ending = smooth_ending(linux);
            let events = opening.1 + login.1 + ending.1;
            &&& visited(args, linux, events) == opening.0 + login.0 + ending.0
            &&& run_after(args, linux, events).failure is None
        }),
{
    let opening = smooth_opening(args, linux, available);
    let login = smooth_login(args, linux, loaded, save);
    let ending = smooth_ending(linux);
    lemma_smooth_opening(args, linux, available);
    lemma_smooth_login(args, linux, loaded, save, opening.1);
    lemma_smooth_ending(args, linux, loaded, opening.1 + login.1);
    lemma_overlap(opening.0, login.0, RunStage::ResolveCredentials);
    lemma_overlap(opening.0 + login.0, ending.0, RunStage::CreateDevice);
}

/// Who does not want to go on without the portal is done, without a failure and without a
/// session; who asked to go on in any case is not asked.
pub proof fn refusal_ends_the_run(run: RunView)
    requires
        run.stage == RunStage::CheckPortal,
    ensures
        run.after(RunEvent::Answered(true)).stage == RunStage::ResolveCredentials,
        run.yes ==> run.after(RunEvent::Answered(false)).stage == RunStage::ResolveCredentials,
        !run.yes ==> ({
            let asked = run.after(RunEvent::Answered(false));
            let refused = asked.after(RunEvent::Answered(false));
            &&& asked.stage == RunStage::ConfirmPortal
            &&& asked.after(RunEvent::Answered(true)).stage == RunStage::ResolveCredentials
            &&& refused.failure == run.failure
            &&& refused.stage == (if run.bootstrapped {
                RunStage::ReleaseBootstrap
            } else {
                RunStage::Done
            })
        }),
{
}

/// When the device has failed, a service that still runs is stopped before the run ends, and no
/// other is.
pub proof fn running_service_is_stopped(run: RunView, failure: Failure, runs: bool)
    requires
        run.stage == RunStage::CreateDevice,
    ensures
        ({
            let broken = run.after(RunEvent::Failed(failure));
            let asked = broken.after(RunEvent::Answered(runs));
            &&& broken.stage == RunStage::CheckService
            &&& runs <==> asked.stage == RunStage::StopService
            &&& !runs ==> asked.stage == RunStage::ReleaseBootstrap || asked.stage == RunStage::Done
            &&& asked.failure == Some(failure@)
        }),
{
}

/// Who asks to forget the login has it forgotten, whatever the system and the other arguments are,
/// and the run comes to what becomes of that.
pub proof fn forgetting_is_done(args: CliArgs, linux: bool, failure: Failure)
    requires
        args.forget_login,
    ensures
        run_start(args, linux).stage == RunStage::ForgetLogin,
        run_start(args, linux).failure is None,
        ({
            let end = run_start(args, linux).after(RunEvent::Succeeded);
            end.stage == RunStage::Done && end.failure is None
        }),
        ({
            let end = run_start(args, linux).after(RunEvent::Failed(failure));
            end.stage == RunStage::Done && end.failure == Some(failure@)
        }),
{
}

/// What a stage waits for: whether it is so, the credentials, or how it went. That it failed is no
/// answer to whether the portal is available, or whether the service still runs.
pub open spec fn is_awaited(stage: RunStage, event: RunEvent) -> bool {
    match stage {
        RunStage::CheckPortal | RunStage::CheckService => event is Answered,
        RunStage::ConfirmPortal | RunStage::OfferSave => event is Answered || event is Failed,
        RunStage::ResolveCredentials => event is Resolved || event is Failed,
        RunStage::Done => false,
        _ => event is Succeeded || event is Failed,
    }
}

/// What a stage does not wait for leaves the run as it is, and what it waits for leads to another
/// stage: so a run that has come to its end stays there.
pub proof fn run_goes_on_by_what_it_waits_for(run: RunView, event: RunEvent)
    ensures
        !is_awaited(run.stage, event) ==> run.after(event) == run,
        is_awaited(run.stage, event) && !(run.stage == RunStage::ReleaseBootstrap)
            ==> run.after(event).stage != run.stage,
        run.stage == RunStage::ReleaseBootstrap && is_awaited(run.stage, event) ==> run.after(
            event,
        ).stage == RunStage::Done,
{
}

} // verus!
