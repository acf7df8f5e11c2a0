//! The system commands that the client runs, what they print, and what that means.

use vstd::prelude::*;
use vstd::utf8::{decode_utf8, valid_utf8};
use crate::cli::routes::{mask_prefix, netmask_to_prefix, RouteError, RouteErrorView, WindowsRoute};
use crate::failure::Failure;
use crate::net::{ipv4_text, Ipv4Addr};
use crate::numeral::{decimal, numeral, push_number};
use crate::text::{copy_text, find, occurs, texts, to_chars};

verus! {

/// What `str` has as its `Debug` form: the text in quotes, with escapes.
pub uninterp spec fn quoted_text(s: Seq<char>) -> Seq<char>;

/// What is left of some bytes when every malformed part is replaced.
pub uninterp spec fn lossy_text(bytes: Seq<u8>) -> Seq<char>;

/// `c` is a printable character of ASCII, and neither a quotation mark nor a backslash.
pub open spec fn is_plain_char(c: char) -> bool {
    ' ' <= c <= '~' && c != '"' && c != '\'' && c != '\\'
}

/// A text without anything that would be escaped.
pub open spec fn is_plain(s: Seq<char>) -> bool {
    forall|i: int| 0 <= i < s.len() ==> is_plain_char(#[trigger] s[i])
}

/// A text in quotes.
pub open spec fn in_quotes(s: Seq<char>) -> Seq<char> {
    seq!['"'] + s + seq!['"']
}

/// The `Debug` form of `str`, as `format!` writes it for `{:?}`. Plain text comes out as it is,
/// in quotes. The escapes in other texts are not spelled out here: the form is a function of
/// the text alone.
#[verifier::external_body]
pub(crate) fn quote(s: &str) -> (r: String)
    ensures
        r@ == quoted_text(s@),
        is_plain(s@) ==> r@ == in_quotes(s@),
{
    format!("{:?}", s)
}

/// `String::from_utf8_lossy` decodes well-formed UTF-8, and puts replacement characters where
/// the bytes are malformed. Which parts these are is not spelled out here.
#[verifier::external_body]
pub(crate) fn decode_lossy(bytes: &[u8]) -> (r: String)
    ensures
        r@ == lossy_text(bytes@),
        valid_utf8(bytes@) ==> r@ == decode_utf8(bytes@),
{
    String::from_utf8_lossy(bytes).into_owned()
}

/// A program and its arguments.
#[derive(Debug)]
pub struct CommandLine {
    pub program: String,
    pub args: Vec<String>,
}

/// A [`CommandLine`] as characters.
#[verifier::ext_equal]
pub struct CommandView {
    pub program: Seq<char>,
    pub args: Seq<Seq<char>>,
}

impl View for CommandLine {
    type V = CommandView;

    open spec fn view(&self) -> CommandView {
        CommandView { program: self.program@, args: texts(self.args@) }
    }
}

/// What a command that has ended left behind.
#[derive(Debug)]
pub struct CommandOutput {
    pub success: bool,
    pub stdout: Vec<u8>,
    pub stderr: Vec<u8>,
}

/// What became of a command: it could not be started, or it has ended.
#[derive(Debug)]
pub enum CommandEvent {
    NotRun(String),
    Finished(CommandOutput),
}

/// Appends an argument.
pub fn push_arg(args: &mut Vec<String>, arg: &str)
    ensures
        texts(final(args)@) == texts(old(args)@).push(arg@),
{
    args.push(String::from_str(arg));
    proof {
        assert(texts(args@) =~= texts(old(args)@).push(arg@));
    }
}

/// An empty list of arguments.
pub fn no_args() -> (r: Vec<String>)
    ensures
        texts(r@) == Seq::<Seq<char>>::empty(),
{
    let args: Vec<String> = Vec::new();
    proof {
        assert(texts(args@) =~= Seq::<Seq<char>>::empty());
    }
    args
}

/// Two texts, one behind the other.
pub fn join(a: &str, b: &str) -> (r: String)
    ensures
        r@ == a@ + b@,
{
    let mut out = String::from_str(a);
    out.append(b);
    out
}

/// The quoted arguments with commas between them.
pub open spec fn quoted_list(args: Seq<Seq<char>>) -> Seq<char>
    decreases args.len(),
{
    if args.len() == 0 {
        Seq::empty()
    } else if args.len() == 1 {
        quoted_text(args[0])
    } else {
        quoted_list(args.drop_last()) + ", "@ + quoted_text(args.last())
    }
}

/// A list of arguments as messages show it.
pub open spec fn shown_args(args: Seq<Seq<char>>) -> Seq<char> {
    "["@ + quoted_list(args) + "]"@
}

/// Every one of the arguments is plain text.
pub open spec fn all_plain(args: Seq<Seq<char>>) -> bool {
    forall|i: int| 0 <= i < args.len() ==> is_plain(#[trigger] args[i])
}

/// Plain arguments in quotes, with commas between them.
pub open spec fn plain_list(args: Seq<Seq<char>>) -> Seq<char>
    decreases args.len(),
{
    if args.len() == 0 {
        Seq::empty()
    } else if args.len() == 1 {
        in_quotes(args[0])
    } else {
        plain_list(args.drop_last()) + ", "@ + in_quotes(args.last())
    }
}

/// A list of plain arguments as messages show it.
pub open spec fn plain_args(args: Seq<Seq<char>>) -> Seq<char> {
    "["@ + plain_list(args) + "]"@
}

proof fn lemma_plain_list(args: Seq<Seq<char>>)
    requires
        forall|i: int| 0 <= i < args.len() ==> #[trigger] quoted_text(args[i]) == in_quotes(args[i]),
    ensures
        quoted_list(args) == plain_list(args),
    decreases args.len(),
{
    if args.len() > 1 {
        let front = args.drop_last();
        assert forall|i: int| 0 <= i < front.len() implies #[trigger] quoted_text(front[i])
            == in_quotes(front[i]) by {
            assert(quoted_text(args[i]) == in_quotes(args[i]));
        }
        lemma_plain_list(front);
        assert(quoted_text(args[args.len() - 1]) == in_quotes(args[args.len() - 1]));
    } else if args.len() == 1 {
        assert(quoted_text(args[0]) == in_quotes(args[0]));
    }
}

/// A list of arguments as messages show it.
pub fn show_args(args: &Vec<String>) -> (r: String)
    ensures
        r@ == shown_args(texts(args@)),
        all_plain(texts(args@)) ==> r@ == plain_args(texts(args@)),
{
    let ghost all = texts(args@);
    let mut out = String::from_str("[");
    let mut i: usize = 0;
    proof {
        assert(all.take(0) =~= Seq::<Seq<char>>::empty());
        assert(out@ =~= "["@ + quoted_list(all.take(0)));
    }
    while i < args.len()
        invariant
            i <= args@.len(),
            all == texts(args@),
            out@ == "["@ + quoted_list(all.take(i as int)),
            forall|j: int|
                0 <= j < i && is_plain(all[j]) ==> #[trigger] quoted_text(all[j]) == in_quotes(
                    all[j],
                ),
        decreases args.len() - i,
    {
        if i > 0 {
            out.append(", ");
        }
        let item = quote(&args[i]);
        out.append(&item);
        proof {
            let longer = all.take(i + 1);
            assert(longer.drop_last() =~= all.take(i as int));
            assert(longer.last() == args@[i as int]@);
            assert(out@ =~= "["@ + quoted_list(longer));
        }
        i += 1;
    }
    out.append("]");
    proof {
        assert(all.take(all.len() as int) =~= all);
        if all_plain(all) {
            lemma_plain_list(all);
        }
    }
    out
}

/// What is said of a command that has ended without success.
pub open spec fn failed_message(
    command: CommandView,
    stdout: Seq<u8>,
    stderr: Seq<u8>,
) -> Seq<char> {
    command.program + " failed: args="@ + shown_args(command.args) + ", stdout="@ + lossy_text(
        stdout,
    ) + ", stderr="@ + lossy_text(stderr)
}

/// What is said of a command that could not be started.
pub open spec fn not_run_message(command: CommandView) -> Seq<char> {
    "failed to run "@ + command.program + ": "@ + shown_args(command.args)
}

/// Why `command` is held to have failed, if it is.
pub open spec fn command_fault(
    command: CommandView,
    event: CommandEvent,
) -> Option<Seq<Seq<char>>> {
    match event {
        CommandEvent::NotRun(cause) => Some(seq![not_run_message(command), cause@]),
        CommandEvent::Finished(output) => if output.success {
            None
        } else {
            Some(seq![failed_message(command, output.stdout@, output.stderr@)])
        },
    }
}

/// Whether `r` is a success exactly if there is no fault, and else that fault.
pub open spec fn is_outcome(r: Result<(), Failure>, fault: Option<Seq<Seq<char>>>) -> bool {
    match fault {
        None => r is Ok,
        Some(messages) => r matches Err(f) && f@ == messages,
    }
}

/// What became of a command, as a result.
pub fn run_linux_command(command: &CommandLine, event: &CommandEvent) -> (r: Result<(), Failure>)
    ensures
        is_outcome(r, command_fault(command@, *event)),
        r is Err && all_plain(command@.args) ==> shown_args(command@.args) == plain_args(
            command@.args,
        ),
{
    match event {
        CommandEvent::NotRun(cause) => {
            let mut out = String::from_str("failed to run ");
            out.append(&command.program);
            out.append(": ");
            let args = show_args(&command.args);
            out.append(&args);
            let failure = Failure::new(copy_text(cause)).context(out);
            proof {
                assert(failure@ =~= seq![not_run_message(command@), cause@]);
            }
            Err(failure)
        },
        CommandEvent::Finished(output) => {
            if output.success {
                return Ok(());
            }
            let mut out = copy_text(&command.program);
            out.append(" failed: args=");
            let args = show_args(&command.args);
            out.append(&args);
            out.append(", stdout=");
            let stdout = decode_lossy(&output.stdout);
            out.append(&stdout);
            out.append(", stderr=");
            let stderr = decode_lossy(&output.stderr);
            out.append(&stderr);
            Err(Failure::new(out))
        },
    }
}

/// What became of the removal of a policy rule.
pub enum Removal {
    /// There was such a rule, and it is gone.
    Removed,
    /// There is no such rule.
    Absent,
    Failed(Failure),
}

/// The rule that was to be removed is not there.
pub open spec fn says_absent(output: CommandOutput) -> bool {
    !output.success && occurs("No such file"@, lossy_text(output.stderr@))
}

/// Why the removal of a rule is held to have failed, if it is. `not_run` and `failed` are
/// what is said where the command could not be started, and where it failed.
pub open spec fn removal_fault(
    event: CommandEvent,
    not_run: Seq<char>,
    failed: Seq<char>,
) -> Option<Seq<Seq<char>>> {
    match event {
        CommandEvent::NotRun(cause) => Some(seq![not_run, cause@]),
        CommandEvent::Finished(output) => if output.success || says_absent(output) {
            None
        } else {
            Some(seq![failed + lossy_text(output.stderr@)])
        },
    }
}

/// The removal found a rule and removed it.
pub open spec fn did_remove(event: CommandEvent) -> bool {
    event matches CommandEvent::Finished(output) && output.success
}

/// What became of the removal of a policy rule, judged by what the command left behind.
pub fn judge_removal(event: &CommandEvent, not_run: &str, failed: &str) -> (r: Removal)
    ensures
        match removal_fault(*event, not_run@, failed@) {
            Some(messages) => r matches Removal::Failed(f) && f@ == messages,
            None => if did_remove(*event) {
                r is Removed
            } else {
                r is Absent
            },
        },
{
    match event {
        CommandEvent::NotRun(cause) => {
            let failure = Failure::new(copy_text(cause)).context(String::from_str(not_run));
            proof {
                assert(failure@ =~= seq![not_run@, cause@]);
            }
            Removal::Failed(failure)
        },
        CommandEvent::Finished(output) => {
            if output.success {
                return Removal::Removed;
            }
            let stderr = decode_lossy(&output.stderr);
            let haystack = to_chars(&stderr);
            let needle = to_chars("No such file");
            if find(&needle, &haystack) {
                return Removal::Absent;
            }
            Removal::Failed(Failure::new(join(failed, &stderr)))
        },
    }
}

/// The network of a route with its prefix length, if the mask has one.
pub open spec fn cidr_text(route: WindowsRoute) -> Option<Seq<char>> {
    match mask_prefix(route.netmask) {
        Some(prefix) => Some(ipv4_text(route.destination) + "/"@ + numeral(prefix as nat, 10)),
        None => None,
    }
}

/// The network of a route with its prefix length.
pub fn route_cidr(route: WindowsRoute) -> (r: Result<String, RouteError>)
    ensures
        match cidr_text(route) {
            Some(text) => r matches Ok(s) && s@ == text,
            None => r matches Err(e) && e@ == RouteErrorView::NonContiguousNetmask(route.netmask),
        },
{
    match netmask_to_prefix(route.netmask) {
        Ok(prefix) => {
            let mut out = route.destination.text();
            out.append("/");
            push_number(&mut out, prefix as u32, 10);
            Ok(out)
        },
        Err(e) => Err(e),
    }
}

/// What is done to a route or to a rule.
#[derive(Debug, Clone, Copy, PartialEq, Eq, Structural)]
pub enum Change {
    Add,
    Delete,
}

/// The word that `ip` has for a change.
pub open spec fn change_word(change: Change) -> Seq<char> {
    match change {
        Change::Add => "add"@,
        Change::Delete => "del"@,
    }
}

fn ip_word(change: Change) -> (r: &'static str)
    ensures
        r@ == change_word(change),
{
    match change {
        Change::Add => "add",
        Change::Delete => "del",
    }
}

/// `ip` changes a route to the network `destination`.
pub open spec fn linux_route_view(
    change: Change,
    destination: Seq<char>,
    gateway: Ipv4Addr,
    interface: Seq<char>,
) -> CommandView {
    CommandView {
        program: "ip"@,
        args: seq![
            "-4"@,
            "route"@,
            change_word(change),
            destination,
            "via"@,
            ipv4_text(gateway),
            "dev"@,
            interface,
        ],
    }
}

/// The command that changes a route under Linux.
pub fn linux_route_command(
    change: Change,
    destination: &str,
    gateway: Ipv4Addr,
    interface: &str,
) -> (r: CommandLine)
    ensures
        r@ == linux_route_view(change, destination@, gateway, interface@),
{
    let via = gateway.text();
    let mut args = no_args();
    push_arg(&mut args, "-4");
    push_arg(&mut args, "route");
    push_arg(&mut args, ip_word(change));
    push_arg(&mut args, destination);
    push_arg(&mut args, "via");
    push_arg(&mut args, &via);
    push_arg(&mut args, "dev");
    push_arg(&mut args, interface);
    let command = CommandLine { program: String::from_str("ip"), args };
    proof {
        assert(command@ =~= linux_route_view(change, destination@, gateway, interface@));
    }
    command
}

/// The rule that lets the main table decide on all but its default route, ahead of others.
pub open spec fn policy_rule_view(change: Change) -> CommandView {
    CommandView {
        program: "ip"@,
        args: seq![
            "-4"@,
            "rule"@,
            change_word(change),
            "priority"@,
            "8000"@,
            "lookup"@,
            "main"@,
            "suppress_prefixlength"@,
            "0"@,
        ],
    }
}

/// The command that changes the policy rule.
pub fn policy_rule_command(change: Change) -> (r: CommandLine)
    ensures
        r@ == policy_rule_view(change),
{
    let mut args = no_args();
    push_arg(&mut args, "-4");
    push_arg(&mut args, "rule");
    push_arg(&mut args, ip_word(change));
    push_arg(&mut args, "priority");
    push_arg(&mut args, "8000");
    push_arg(&mut args, "lookup");
    push_arg(&mut args, "main");
    push_arg(&mut args, "suppress_prefixlength");
    push_arg(&mut args, "0");
    let command = CommandLine { program: String::from_str("ip"), args };
    proof {
        assert(command@ =~= policy_rule_view(change));
    }
    command
}

/// The rule that lets the main table decide on the traffic to one endpoint.
pub open spec fn bootstrap_rule_args(action: Seq<char>, endpoint: Ipv4Addr) -> Seq<Seq<char>> {
    seq![
        "-4"@,
        "rule"@,
        action,
        "priority"@,
        "7999"@,
        "to"@,
        ipv4_text(endpoint) + "/32"@,
        "lookup"@,
        "main"@,
    ]
}

/// The arguments that change the rule for one endpoint.
pub fn bootstrap_policy_rule_args(action: &str, endpoint: Ipv4Addr) -> (r: Vec<String>)
    ensures
        texts(r@) == bootstrap_rule_args(action@, endpoint),
{
    let mut target = endpoint.text();
    target.append("/32");
    let mut args = no_args();
    push_arg(&mut args, "-4");
    push_arg(&mut args, "rule");
    push_arg(&mut args, action);
    push_arg(&mut args, "priority");
    push_arg(&mut args, "7999");
    push_arg(&mut args, "to");
    push_arg(&mut args, &target);
    push_arg(&mut args, "lookup");
    push_arg(&mut args, "main");
    proof {
        assert(texts(args@) =~= bootstrap_rule_args(action@, endpoint));
    }
    args
}

/// `ip` changes the rule for one endpoint.
pub open spec fn bootstrap_rule_view(change: Change, endpoint: Ipv4Addr) -> CommandView {
    CommandView { program: "ip"@, args: bootstrap_rule_args(change_word(change), endpoint) }
}

/// The command that changes the rule for one endpoint.
pub fn bootstrap_rule_command(change: Change, endpoint: Ipv4Addr) -> (r: CommandLine)
    ensures
        r@ == bootstrap_rule_view(change, endpoint),
{
    let args = bootstrap_policy_rule_args(ip_word(change), endpoint);
    CommandLine { program: String::from_str("ip"), args }
}

/// `resolvectl` gives the interface a DNS server.
pub open spec fn set_dns_view(interface: Seq<char>, dns: Seq<char>) -> CommandView {
    CommandView { program: "resolvectl"@, args: seq!["dns"@, interface, dns] }
}

/// The command that gives the interface a DNS server.
pub fn set_dns_command(interface: &str, dns: &str) -> (r: CommandLine)
    ensures
        r@ == set_dns_view(interface@, dns@),
{
    let mut args = no_args();
    push_arg(&mut args, "dns");
    push_arg(&mut args, interface);
    push_arg(&mut args, dns);
    let command = CommandLine { program: String::from_str("resolvectl"), args };
    proof {
        assert(command@ =~= set_dns_view(interface@, dns@));
    }
    command
}

/// `resolvectl` sends the queries for the campus domain, and no others, to the interface.
pub open spec fn set_domain_view(interface: Seq<char>) -> CommandView {
    CommandView { program: "resolvectl"@, args: seq!["domain"@, interface, "~cczu.edu.cn"@] }
}

/// The command that sends the queries for the campus domain to the interface.
pub fn set_domain_command(interface: &str) -> (r: CommandLine)
    ensures
        r@ == set_domain_view(interface@),
{
    let mut args = no_args();
    push_arg(&mut args, "domain");
    push_arg(&mut args, interface);
    push_arg(&mut args, "~cczu.edu.cn");
    let command = CommandLine { program: String::from_str("resolvectl"), args };
    proof {
        assert(command@ =~= set_domain_view(interface@));
    }
    command
}

/// `resolvectl` takes back what it was told about the interface.
pub open spec fn revert_dns_view(interface: Seq<char>) -> CommandView {
    CommandView { program: "resolvectl"@, args: seq!["revert"@, interface] }
}

/// The command that takes back the DNS configuration of the interface.
pub fn revert_dns_command(interface: &str) -> (r: CommandLine)
    ensures
        r@ == revert_dns_view(interface@),
{
    let mut args = no_args();
    push_arg(&mut args, "revert");
    push_arg(&mut args, interface);
    let command = CommandLine { program: String::from_str("resolvectl"), args };
    proof {
        assert(command@ =~= revert_dns_view(interface@));
    }
    command
}

/// `route` changes a route under Windows.
pub open spec fn windows_route_view(
    change: Change,
    route: WindowsRoute,
    gateway: Ipv4Addr,
    if_index: u32,
) -> CommandView {
    CommandView {
        program: "route"@,
        args: seq![
            if change == Change::Add {
                "ADD"@
            } else {
                "DELETE"@
            },
            ipv4_text(route.destination),
            "MASK"@,
            ipv4_text(route.netmask),
            ipv4_text(gateway),
            "IF"@,
            numeral(if_index as nat, 10),
        ],
    }
}

/// The command that changes a route under Windows.
pub fn windows_route_command(
    change: Change,
    route: WindowsRoute,
    gateway: Ipv4Addr,
    if_index: u32,
) -> (r: CommandLine)
    ensures
        r@ == windows_route_view(change, route, gateway, if_index),
{
    let destination = route.destination.text();
    let mask = route.netmask.text();
    let via = gateway.text();
    let index = decimal(if_index);
    let mut args = no_args();
    match change {
        Change::Add => {
            push_arg(&mut args, "ADD");
        },
        Change::Delete => {
            push_arg(&mut args, "DELETE");
        },
    }
    push_arg(&mut args, &destination);
    push_arg(&mut args, "MASK");
    push_arg(&mut args, &mask);
    push_arg(&mut args, &via);
    push_arg(&mut args, "IF");
    push_arg(&mut args, &index);
    let command = CommandLine { program: String::from_str("route"), args };
    proof {
        assert(command@ =~= windows_route_view(change, route, gateway, if_index));
    }
    command
}

/// Why a command that changes a route under Windows is held to have failed, if it is.
pub open spec fn route_command_fault(
    args: Seq<Seq<char>>,
    event: CommandEvent,
) -> Option<Seq<Seq<char>>> {
    match event {
        CommandEvent::NotRun(cause) => Some(
            seq!["failed to run route command: "@ + shown_args(args), cause@],
        ),
        CommandEvent::Finished(output) => if output.success {
            None
        } else {
            Some(
                seq![
                    "route command failed: args="@ + shown_args(args) + ", stdout="@ + lossy_text(
                        output.stdout@,
                    ) + ", stderr="@ + lossy_text(output.stderr@),
                ],
            )
        },
    }
}

/// What became of a command that changes a route under Windows, as a result.
pub fn run_route_command(args: &Vec<String>, event: &CommandEvent) -> (r: Result<(), Failure>)
    ensures
        is_outcome(r, route_command_fault(texts(args@), *event)),
        all_plain(texts(args@)) ==> shown_args(texts(args@)) == plain_args(texts(args@)),
{
    let shown = show_args(args);
    match event {
        CommandEvent::NotRun(cause) => {
            let failure = Failure::new(copy_text(cause)).context(
                join("failed to run route command: ", &shown),
            );
            proof {
                assert(failure@ =~= seq![
                    "failed to run route command: "@ + shown_args(texts(args@)),
                    cause@,
                ]);
            }
            Err(failure)
        },
        CommandEvent::Finished(output) => {
            if output.success {
                return Ok(());
            }
            let mut out = join("route command failed: args=", &shown);
            out.append(", stdout=");
            let stdout = decode_lossy(&output.stdout);
            out.append(&stdout);
            out.append(", stderr=");
            let stderr = decode_lossy(&output.stderr);
            out.append(&stderr);
            Err(Failure::new(out))
        },
    }
}

} // verus!
