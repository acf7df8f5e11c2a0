//! The steps from an account to a running session.

use vstd::prelude::*;
use crate::failure::Failure;
use crate::net::IpAddr;
use crate::text::{copy_text, texts};
use crate::types::{ProxyServer, ProxyServerView};
use crate::vpn::service::{
    collect_split_tunnel_routes, is_collection, offered, GatewayRoutes, ServiceError,
};

verus! {

/// Where the proxy is.
pub const PROXY_ADDRESS: &'static str = "zmvpn.cczu.edu.cn:443";

/// The name that the certificate of the proxy is for.
pub const PROXY_NAME: &'static str = "zmvpn.cczu.edu.cn";

/// What the portal grants: a token for the proxy, and the gateways behind it.
#[derive(Debug)]
pub struct Authorization {
    pub token: String,
    pub gateways: Vec<GatewayRoutes>,
}

/// What of the authorization goes into the session.
#[derive(Debug)]
pub struct Grant {
    pub token: String,
    pub dns: String,
    pub routes: Vec<String>,
}

/// A [`Grant`] as characters.
#[verifier::ext_equal]
pub struct GrantView {
    pub token: Seq<char>,
    pub dns: Seq<char>,
    pub routes: Seq<Seq<char>>,
}

impl View for Grant {
    type V = GrantView;

    open spec fn view(&self) -> GrantView {
        GrantView { token: self.token@, dns: self.dns@, routes: texts(self.routes@) }
    }
}

/// What is to be done next to start a session.
#[derive(Debug)]
pub enum StartStage {
    /// Authorize the account at the portal.
    Authorize,
    /// Connect to the proxy.
    Connect(Grant),
    /// Establish TLS with the proxy at this address.
    Handshake(Grant, IpAddr),
    /// Send the authorization to the proxy.
    SendAuthorization(Grant, IpAddr),
    /// Read what the proxy answers.
    ReadAuthorization(Grant, IpAddr),
    /// The session can run.
    Established(ProxyServer, IpAddr),
    Failed(Failure),
}

/// A [`StartStage`] in terms of sequences.
pub enum StartView {
    Authorize,
    Connect(GrantView),
    Handshake(GrantView, IpAddr),
    SendAuthorization(GrantView, IpAddr),
    ReadAuthorization(GrantView, IpAddr),
    Established(ProxyServerView, IpAddr),
    Failed(Seq<Seq<char>>),
}

impl View for StartStage {
    type V = StartView;

    open spec fn view(&self) -> StartView {
        match *self {
            StartStage::Authorize => StartView::Authorize,
            StartStage::Connect(grant) => StartView::Connect(grant@),
            StartStage::Handshake(grant, peer) => StartView::Handshake(grant@, peer),
            StartStage::SendAuthorization(grant, peer) => StartView::SendAuthorization(
                grant@,
                peer,
            ),
            StartStage::ReadAuthorization(grant, peer) => StartView::ReadAuthorization(
                grant@,
                peer,
            ),
            StartStage::Established(server, peer) => StartView::Established(server@, peer),
            StartStage::Failed(failure) => StartView::Failed(failure@),
        }
    }
}

/// What a start can founder on.
#[derive(Debug, Clone, Copy, PartialEq, Eq, Structural)]
pub enum Trouble {
    Authorization,
    Connection,
    PeerAddress,
    LocalAddress,
    ServerName,
    Tls,
    Packet,
    Sending,
    Answer,
}

/// What has become of a step.
#[derive(Debug)]
pub enum StartEvent {
    Authorized(Authorization),
    Connected(IpAddr),
    Secured,
    Sent,
    Answered(ProxyServer),
    /// It failed, for this reason.
    Broken(Trouble, Failure),
}

/// What the user is told about some trouble with a cause.
pub open spec fn trouble_messages(trouble: Trouble, cause: Seq<Seq<char>>) -> Seq<Seq<char>> {
    match trouble {
        Trouble::Authorization => seq!["failed to authorize against webvpn"@] + cause,
        Trouble::Connection => seq![
            "failed to connect to proxy server at zmvpn.cczu.edu.cn:443"@,
        ] + cause,
        Trouble::PeerAddress => seq!["failed to query proxy peer address"@] + cause,
        Trouble::LocalAddress => seq!["failed to query proxy local address"@] + cause,
        Trouble::ServerName => seq![
            "invalid proxy server name zmvpn.cczu.edu.cn: "@ + (if cause.len() > 0 {
                cause[0]
            } else {
                Seq::empty()
            }),
        ],
        Trouble::Tls => seq!["failed to establish TLS with proxy server"@] + cause,
        Trouble::Packet => seq!["failed to build authorization packet"@] + cause,
        Trouble::Sending => seq!["failed to send authorization packet"@] + cause,
        Trouble::Answer => cause,
    }
}

fn troubled(trouble: Trouble, cause: Failure) -> (r: Failure)
    ensures
        r@ == trouble_messages(trouble, cause@),
{
    let context = match trouble {
        Trouble::Authorization => "failed to authorize against webvpn",
        Trouble::Connection => "failed to connect to proxy server at zmvpn.cczu.edu.cn:443",
        Trouble::PeerAddress => "failed to query proxy peer address",
        Trouble::LocalAddress => "failed to query proxy local address",
        Trouble::ServerName => {
            let mut out = String::from_str("invalid proxy server name zmvpn.cczu.edu.cn: ");
            if cause.messages.len() > 0 {
                out.append(&cause.messages[0]);
            }
            let failure = Failure::new(out);
            proof {
                assert(failure@ =~= trouble_messages(trouble, cause@));
            }
            return failure;
        },
        Trouble::Tls => "failed to establish TLS with proxy server",
        Trouble::Packet => "failed to build authorization packet",
        Trouble::Sending => "failed to send authorization packet",
        Trouble::Answer => {
            return cause;
        },
    };
    cause.context(String::from_str(context))
}

/// The start was cancelled.
pub open spec fn cancelled_start() -> StartView {
    StartView::Failed(seq![ServiceError::StartCancelled.text()])
}

/// What the portal granted has no gateway.
pub open spec fn no_gateway() -> StartView {
    StartView::Failed(seq!["authorization response does not contain gateway dns"@])
}

/// `grant` is what goes into the session of this authorization: its token, the DNS server of
/// the first gateway, and the rules of all gateways.
pub open spec fn is_grant(grant: GrantView, authorization: Authorization) -> bool {
    &&& grant.token == authorization.token@
    &&& authorization.gateways@.len() > 0
    &&& grant.dns == authorization.gateways@[0].dns@
    &&& is_collection(grant.routes, offered(authorization.gateways@))
}

/// The parameters of the tunnel: what the proxy answered, but with the DNS server and the
/// routes of the authorization.
pub open spec fn granted_server(answer: ProxyServerView, grant: GrantView) -> ProxyServerView {
    ProxyServerView { dns: grant.dns, split_tunnel_routes: grant.routes, ..answer }
}

/// `next` follows `stage` when the step has come to `event`, and the start was or was not
/// cancelled meanwhile. That the authorization was sent is no occasion to look for a
/// cancellation.
pub open spec fn follows(
    next: StartView,
    stage: StartView,
    cancelled: bool,
    event: StartEvent,
) -> bool {
    match (stage, event) {
        (StartView::Established(_, _), _) => next == stage,
        (StartView::Failed(_), _) => next == stage,
        (_, StartEvent::Broken(trouble, cause)) => next == StartView::Failed(
            trouble_messages(trouble, cause@),
        ),
        (StartView::Authorize, StartEvent::Authorized(authorization)) => if cancelled {
            next == cancelled_start()
        } else if authorization.gateways@.len() == 0 {
            next == no_gateway()
        } else {
            next matches StartView::Connect(grant) && is_grant(grant, authorization)
        },
        (StartView::Connect(grant), StartEvent::Connected(peer)) => next == (if cancelled {
            cancelled_start()
        } else {
            StartView::Handshake(grant, peer)
        }),
        (StartView::Handshake(grant, peer), StartEvent::Secured) => next == (if cancelled {
            cancelled_start()
        } else {
            StartView::SendAuthorization(grant, peer)
        }),
        (StartView::SendAuthorization(grant, peer), StartEvent::Sent) => next
            == StartView::ReadAuthorization(grant, peer),
        (StartView::ReadAuthorization(grant, peer), StartEvent::Answered(answer)) => next == (
        if cancelled {
            cancelled_start()
        } else {
            StartView::Established(granted_server(answer@, grant), peer)
        }),
        _ => next == stage,
    }
}

/// The first step, unless the start was cancelled already.
pub open spec fn first_stage(cancelled: bool) -> StartView {
    if cancelled {
        cancelled_start()
    } else {
        StartView::Authorize
    }
}

/// The first step, unless the start was cancelled already.
pub fn start_stage(cancelled: bool) -> (r: StartStage)
    ensures
        r@ == first_stage(cancelled),
        r@ == (if cancelled {
            cancelled_start()
        } else {
            StartView::Authorize
        }),
{
    if cancelled {
        give_up()
    } else {
        StartStage::Authorize
    }
}

fn give_up() -> (r: StartStage)
    ensures
        r@ == cancelled_start(),
{
    StartStage::Failed(Failure::new(String::from_str(ServiceError::StartCancelled.message())))
}

fn grant_of(authorization: Authorization) -> (r: Option<Grant>)
    ensures
        r is Some <==> authorization.gateways@.len() > 0,
        r matches Some(grant) ==> is_grant(grant@, authorization),
        r matches Some(grant) ==> grant.token@ == authorization.token@ && grant.dns@
            == authorization.gateways@[0].dns@,
{
    if authorization.gateways.len() == 0 {
        return None;
    }
    let dns = copy_text(&authorization.gateways[0].dns);
    let routes = collect_split_tunnel_routes(&authorization.gateways);
    Some(Grant { token: authorization.token, dns, routes })
}

/// The step that follows.
pub fn advance_start(stage: StartStage, cancelled: bool, event: StartEvent) -> (r: StartStage)
    ensures
        follows(r@, stage@, cancelled, event),
{
    match (stage, event) {
        (StartStage::Established(server, peer), _) => StartStage::Established(server, peer),
        (StartStage::Failed(failure), _) => StartStage::Failed(failure),
        (_, StartEvent::Broken(trouble, cause)) => StartStage::Failed(troubled(trouble, cause)),
        (StartStage::Authorize, StartEvent::Authorized(authorization)) => {
            if cancelled {
                return give_up();
            }
            match grant_of(authorization) {
                Some(grant) => StartStage::Connect(grant),
                None => StartStage::Failed(
                    Failure::new(
                        String::from_str("authorization response does not contain gateway dns"),
                    ),
                ),
            }
        },
        (StartStage::Connect(grant), StartEvent::Connected(peer)) => if cancelled {
            give_up()
        } else {
            StartStage::Handshake(grant, peer)
        },
        (StartStage::Handshake(grant, peer), StartEvent::Secured) => if cancelled {
            give_up()
        } else {
            StartStage::SendAuthorization(grant, peer)
        },
        (
            StartStage::SendAuthorization(grant, peer),
            StartEvent::Sent,
        ) => StartStage::ReadAuthorization(grant, peer),
        (StartStage::ReadAuthorization(grant, peer), StartEvent::Answered(answer)) => {
            if cancelled {
                return give_up();
            }
            let server = ProxyServer {
                dns: grant.dns,
                split_tunnel_routes: grant.routes,
                ..answer
            };
            StartStage::Established(server, peer)
        },
        (stage, _) => stage,
    }
}

/// `stages` are the stages that a start goes through when its steps come to `events`, each
/// with whether the start was cancelled by then.
pub open spec fn is_start_run(stages: Seq<StartView>, events: Seq<(bool, StartEvent)>) -> bool {
    &&& stages.len() == events.len() + 1
    &&& forall|i: int|
        0 <= i < events.len() ==> follows(
            stages[i + 1],
            #[trigger] stages[i],
            events[i].0,
            events[i].1,
        )
}

/// A start that is cancelled before it has led to a session does not lead to one, whatever
/// its steps come to.
pub proof fn cancelled_start_is_not_established(
    stages: Seq<StartView>,
    events: Seq<(bool, StartEvent)>,
)
    requires
        is_start_run(stages, events),
        !(stages[0] is Established),
        forall|i: int| 0 <= i < events.len() ==> (#[trigger] events[i]).0,
    ensures
        !(stages.last() is Established),
    decreases events.len(),
{
    if events.len() > 0 {
        let front = stages.drop_last();
        let before = events.drop_last();
        assert forall|i: int| 0 <= i < before.len() implies follows(
            front[i + 1],
            #[trigger] front[i],
            before[i].0,
            before[i].1,
        ) by {
            assert(front[i] == stages[i]);
            assert(front[i + 1] == stages[i + 1]);
        }
        cancelled_start_is_not_established(front, before);
        let n = events.len() as int;
        assert(front.last() == stages[n - 1]);
        assert(events[n - 1].0);
        assert(follows(stages[n - 1 + 1], stages[n - 1], events[n - 1].0, events[n - 1].1));
    }
}

/// Among the events is an authorization with this DNS server and these routes.
pub open spec fn was_granted(
    dns: Seq<char>,
    routes: Seq<Seq<char>>,
    events: Seq<(bool, StartEvent)>,
) -> bool {
    exists|j: int|
        0 <= j < events.len() && grants(dns, routes, (#[trigger] events[j]).1)
}

/// The event is an authorization with this DNS server and these routes.
pub open spec fn grants(dns: Seq<char>, routes: Seq<Seq<char>>, event: StartEvent) -> bool {
    event matches StartEvent::Authorized(authorization) && authorization.gateways@.len() > 0 && dns
        == authorization.gateways@[0].dns@ && is_collection(
        routes,
        offered(authorization.gateways@),
    )
}

/// What the stage holds of an authorization was granted.
spec fn is_grounded(stage: StartView, events: Seq<(bool, StartEvent)>) -> bool {
    match stage {
        StartView::Connect(grant) => was_granted(grant.dns, grant.routes, events),
        StartView::Handshake(grant, _) => was_granted(grant.dns, grant.routes, events),
        StartView::SendAuthorization(grant, _) => was_granted(grant.dns, grant.routes, events),
        StartView::ReadAuthorization(grant, _) => was_granted(grant.dns, grant.routes, events),
        StartView::Established(server, _) => was_granted(
            server.dns,
            server.split_tunnel_routes,
            events,
        ),
        _ => true,
    }
}

proof fn lemma_grant_stays(
    dns: Seq<char>,
    routes: Seq<Seq<char>>,
    events: Seq<(bool, StartEvent)>,
)
    requires
        events.len() > 0,
        was_granted(dns, routes, events.drop_last()),
    ensures
        was_granted(dns, routes, events),
{
    let before = events.drop_last();
    let j = choose|j: int| 0 <= j < before.len() && grants(dns, routes, (#[trigger] before[j]).1);
    assert(events[j] == before[j]);
}

proof fn lemma_start_is_grounded(stages: Seq<StartView>, events: Seq<(bool, StartEvent)>)
    requires
        is_start_run(stages, events),
        stages[0] == StartView::Authorize,
    ensures
        is_grounded(stages.last(), events),
    decreases events.len(),
{
    if events.len() > 0 {
        let front = stages.drop_last();
        let before = events.drop_last();
        assert forall|i: int| 0 <= i < before.len() implies follows(
            front[i + 1],
            #[trigger] front[i],
            before[i].0,
            before[i].1,
        ) by {
            assert(front[i] == stages[i]);
            assert(front[i + 1] == stages[i + 1]);
        }
        lemma_start_is_grounded(front, before);
        let n = events.len() as int;
        let stage = stages[n - 1];
        let next = stages[n];
        assert(front.last() == stage);
        assert(follows(stages[n - 1 + 1], stages[n - 1], events[n - 1].0, events[n - 1].1));
        match stage {
            StartView::Authorize => {
                if next is Connect {
                    let grant = next->Connect_0;
                    assert(grants(grant.dns, grant.routes, events[n - 1].1));
                }
            },
            StartView::Connect(grant) => {
                lemma_grant_stays(grant.dns, grant.routes, events);
            },
            StartView::Handshake(grant, _) => {
                lemma_grant_stays(grant.dns, grant.routes, events);
            },
            StartView::SendAuthorization(grant, _) => {
                lemma_grant_stays(grant.dns, grant.routes, events);
            },
            StartView::ReadAuthorization(grant, _) => {
                lemma_grant_stays(grant.dns, grant.routes, events);
            },
            StartView::Established(server, _) => {
                lemma_grant_stays(server.dns, server.split_tunnel_routes, events);
            },
            StartView::Failed(_) => {},
        }
    }
}

/// The DNS server and the routes of a session are those that the portal granted, not what the
/// proxy answered.
pub proof fn session_uses_what_was_granted(
    stages: Seq<StartView>,
    events: Seq<(bool, StartEvent)>,
)
    requires
        is_start_run(stages, events),
        stages[0] == StartView::Authorize,
    ensures
        stages.last() matches StartView::Established(server, _) ==> was_granted(
            server.dns,
            server.split_tunnel_routes,
            events,
        ),
{
    lemma_start_is_grounded(stages, events);
}

/// A start that has failed, or that has led to a session, stays as it is.
pub proof fn ended_start_stays(
    next: StartView,
    stage: StartView,
    cancelled: bool,
    event: StartEvent,
)
    requires
        follows(next, stage, cancelled, event),
        stage is Established || stage is Failed,
    ensures
        next == stage,
{
}

/// A start that nobody cancels, and whose steps all succeed, leads to a session: with the
/// addresses that the proxy answered, and the DNS server and the routes that were granted.
pub proof fn undisturbed_start_is_established(
    stages: Seq<StartView>,
    authorization: Authorization,
    peer: IpAddr,
    answer: ProxyServer,
)
    requires
        stages[0] == StartView::Authorize,
        authorization.gateways@.len() > 0,
        is_start_run(
            stages,
            seq![
                (false, StartEvent::Authorized(authorization)),
                (false, StartEvent::Connected(peer)),
                (false, StartEvent::Secured),
                (false, StartEvent::Sent),
                (false, StartEvent::Answered(answer)),
            ],
        ),
    ensures
        stages.last() matches StartView::Established(server, p) && p == peer && server == (
        ProxyServerView {
            dns: authorization.gateways@[0].dns@,
            split_tunnel_routes: server.split_tunnel_routes,
            ..answer@
        }) && is_collection(server.split_tunnel_routes, offered(authorization.gateways@)),
{
    let events = seq![
        (false, StartEvent::Authorized(authorization)),
        (false, StartEvent::Connected(peer)),
        (false, StartEvent::Secured),
        (false, StartEvent::Sent),
        (false, StartEvent::Answered(answer)),
    ];
    assert(follows(stages[1], stages[0], events[0].0, events[0].1));
    assert(follows(stages[2], stages[1], events[1].0, events[1].1));
    assert(follows(stages[3], stages[2], events[2].0, events[2].1));
    assert(follows(stages[4], stages[3], events[3].0, events[3].1));
    assert(follows(stages[5], stages[4], events[4].0, events[4].1));
}

/// The event is an authorization with this token, whose first gateway has this DNS server, and
/// whose gateways offer these routes.
pub open spec fn authorizes(event: StartEvent, grant: GrantView) -> bool {
    event matches StartEvent::Authorized(authorization) && {
        &&& grant.token == authorization.token@
        &&& authorization.gateways@.len() > 0
        &&& grant.dns == authorization.gateways@[0].dns@
        &&& is_collection(grant.routes, offered(authorization.gateways@))
    }
}

/// Among the first `n` events is an authorization for this grant.
pub open spec fn authorized_by(grant: GrantView, events: Seq<(bool, StartEvent)>, n: int) -> bool {
    exists|j: int| 0 <= j < n && authorizes((#[trigger] events[j]).1, grant)
}

/// Among the first `n` events is a connection to this address.
pub open spec fn connected_by(peer: IpAddr, events: Seq<(bool, StartEvent)>, n: int) -> bool {
    exists|j: int| 0 <= j < n && (#[trigger] events[j]).1 == StartEvent::Connected(peer)
}

/// Among the first `n` events is an answer of the proxy with all of this server but its DNS
/// server and its routes.
pub open spec fn answered_by(
    server: ProxyServerView,
    events: Seq<(bool, StartEvent)>,
    n: int,
) -> bool {
    exists|j: int|
        0 <= j < n && answers((#[trigger] events[j]).1, server)
}

/// The event is an answer of the proxy with all of this server but its DNS server and its routes.
pub open spec fn answers(event: StartEvent, server: ProxyServerView) -> bool {
    event matches StartEvent::Answered(answer) && {
        &&& server.gateway == answer.gateway@
        &&& server.address == answer.address@
        &&& server.mask == answer.mask@
        &&& server.wins == answer.wins@
    }
}

/// What a start holds at any stage comes from the events before it. The token, the DNS server
/// and the routes are those of one authorization, and the token is what that authorization says
/// it is; the proxy is the one that was connected to. The session itself has the addresses that
/// the proxy answered, and of what was granted the DNS server and the routes.
pub proof fn stages_hold_what_came_before(
    stages: Seq<StartView>,
    events: Seq<(bool, StartEvent)>,
    i: int,
)
    requires
        is_start_run(stages, events),
        stages[0] == StartView::Authorize,
        0 <= i < stages.len(),
    ensures
        match stages[i] {
            StartView::Connect(grant) => authorized_by(grant, events, i),
            StartView::Handshake(grant, peer) => authorized_by(grant, events, i) && connected_by(
                peer,
                events,
                i,
            ),
            StartView::SendAuthorization(grant, peer) => authorized_by(grant, events, i)
                && connected_by(peer, events, i),
            StartView::ReadAuthorization(grant, peer) => authorized_by(grant, events, i)
                && connected_by(peer, events, i),
            StartView::Established(server, peer) => connected_by(peer, events, i) && answered_by(
                server,
                events,
                i,
            ) && was_granted(server.dns, server.split_tunnel_routes, events),
            _ => true,
        },
    decreases i,
{
    if i > 0 {
        let n = i - 1;
        stages_hold_what_came_before(stages, events, n);
        assert(follows(stages[n + 1], stages[n], events[n].0, events[n].1));
        let event = events[n].1;
        match stages[n] {
            StartView::Authorize => {
                if let StartView::Connect(grant) = stages[i] {
                    assert(authorizes(events[n].1, grant));
                }
            },
            StartView::ReadAuthorization(grant, peer) => {
                if let StartView::Established(server, _) = stages[i] {
                    assert(answers(events[n].1, server));
                    let j = choose|j: int|
                        0 <= j < n && authorizes((#[trigger] events[j]).1, grant);
                    assert(grants(server.dns, server.split_tunnel_routes, events[j].1));
                }
            },
            _ => {},
        }
    }
}

/// Only what a stage waits for leads on from it, and only to the stage behind it; a failure
/// leads to the end, with its cause.
pub proof fn steps_come_in_order(
    next: StartView,
    stage: StartView,
    cancelled: bool,
    event: StartEvent,
)
    requires
        follows(next, stage, cancelled, event),
    ensures
        next == stage || next is Failed || match (stage, next) {
            (StartView::Authorize, StartView::Connect(_)) => event is Authorized,
            (StartView::Connect(g), StartView::Handshake(h, peer)) => g == h && event
                == StartEvent::Connected(peer),
            (StartView::Handshake(g, p), StartView::SendAuthorization(h, q)) => g == h && p == q
                && event is Secured,
            (StartView::SendAuthorization(g, p), StartView::ReadAuthorization(h, q)) => g == h && p
                == q && event is Sent,
            (StartView::ReadAuthorization(g, p), StartView::Established(server, q)) => p == q
                && answers(event, server) && server.dns == g.dns && server.split_tunnel_routes
                == g.routes,
            _ => false,
        },
        next is Failed && !(stage is Failed) ==> event is Broken || cancelled || (event matches
            StartEvent::Authorized(authorization) && authorization.gateways@.len() == 0),
        event is Broken && !(stage is Failed) && !(stage is Established) ==> (next matches
            StartView::Failed(messages) && ends_with_cause(
            messages,
            event->Broken_0,
            event->Broken_1@,
        )),
{
    if let StartEvent::Broken(trouble, cause) = event {
        if !(stage is Failed) && !(stage is Established) {
            let messages = next->Failed_0;
            match trouble {
                Trouble::ServerName => {
                    if cause@.len() > 0 {
                        let whole = messages[0];
                        assert(whole.skip(whole.len() - cause@[0].len()) =~= cause@[0]);
                    }
                },
                Trouble::Answer => {
                    assert(messages.skip(0) =~= cause@);
                },
                _ => {
                    assert(messages.skip(1) =~= cause@);
                },
            }
        }
    }
}

/// The last of the messages are the cause; of a name that is no server name, the one message
/// there is ends with the cause.
pub open spec fn ends_with_cause(
    messages: Seq<Seq<char>>,
    trouble: Trouble,
    cause: Seq<Seq<char>>,
) -> bool {
    if trouble == Trouble::ServerName {
        messages.len() == 1 && (cause.len() > 0 ==> messages[0].len() >= cause[0].len()
            && messages[0].skip(messages[0].len() - cause[0].len()) == cause[0])
    } else {
        messages.len() >= cause.len() && messages.skip(messages.len() - cause.len()) == cause
    }
}

/// A cancellation is seen whenever a step has succeeded, but not when the authorization was
/// sent: from then on it is seen when the proxy has answered. Who is told that a start was
/// cancelled had it cancelled.
pub proof fn cancellation_is_seen(
    next: StartView,
    stage: StartView,
    cancelled: bool,
    event: StartEvent,
)
    requires
        follows(next, stage, cancelled, event),
        !(event is Broken),
    ensures
        cancelled ==> next == stage || stage is SendAuthorization || next == StartView::Failed(
            seq!["service start cancelled before initialization completed"@],
        ),
        stage is SendAuthorization && event is Sent ==> next is ReadAuthorization,
        cancelled && stage is Authorize && event is Authorized ==> next is Failed,
        cancelled && stage is Connect && event is Connected ==> next is Failed,
        cancelled && stage is Handshake && event is Secured ==> next is Failed,
        cancelled && stage is ReadAuthorization && event is Answered ==> next is Failed,
        !cancelled && stage is Authorize && event is Authorized
            && event->Authorized_0.gateways@.len() > 0 ==> next is Connect,
        !cancelled && stage is Connect && event is Connected ==> next is Handshake,
        !cancelled && stage is Handshake && event is Secured ==> next is SendAuthorization,
        !cancelled && stage is ReadAuthorization && event is Answered ==> next is Established,
{
}

/// A start that was cancelled before its first step does not take it, and stays as it is; any other
/// start begins with the authorization.
pub proof fn start_begins_with_the_authorization(
    stages: Seq<StartView>,
    events: Seq<(bool, StartEvent)>,
    i: int,
)
    requires
        is_start_run(stages, events),
        stages[0] == first_stage(true),
        0 <= i < stages.len(),
    ensures
        stages[i] == StartView::Failed(
            seq!["service start cancelled before initialization completed"@],
        ),
        first_stage(false) == StartView::Authorize,
    decreases i,
{
    if i > 0 {
        start_begins_with_the_authorization(stages, events, i - 1);
        assert(follows(stages[i - 1 + 1], stages[i - 1], events[i - 1].0, events[i - 1].1));
    }
}

} // verus!
