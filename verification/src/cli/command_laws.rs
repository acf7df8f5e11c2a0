//! What can be read off the commands that the client runs, and off what is said of them.

use vstd::prelude::*;
use crate::address_laws::ip_text_reads_back;
use crate::cli::commands::{
    all_plain, bootstrap_rule_args, bootstrap_rule_view, cidr_text, command_fault, did_remove,
    failed_message, is_outcome, is_plain, linux_route_view, lossy_text, not_run_message, plain_args,
    plain_list, policy_rule_view, quoted_list, quoted_text, removal_fault, revert_dns_view,
    route_command_fault, set_dns_view, set_domain_view, shown_args, windows_route_view, Change,
    CommandEvent, CommandView,
};
use crate::cli::route_laws::{address_with_prefix_stands_for_its_network, route_text_reads_back};
use crate::cli::routes::{network, prefix_reads_back, rule_route, RouteErrorView, WindowsRoute};
use crate::failure::Failure;
use crate::net::{
    ip_text, ip_value, ipv4_text, ipv4_text_reads_back, ipv4_value, IpAddrView, Ipv4Addr,
};
use crate::numeral::{lemma_numeral, number, numeral};
use crate::text::{occurs, occurs_at};

verus! {

/// The command for a route under Linux names the route, the gateway and the interface, so that
/// they can be read back from it. To add a route and to remove it takes the same command but for
/// one word.
pub proof fn linux_route_command_reads_back(
    route: WindowsRoute,
    gateway: Ipv4Addr,
    interface: Seq<char>,
)
    requires
        cidr_text(route) is Some,
        network(route.destination, route.netmask) == route.destination,
    ensures
        ({
            let adding = linux_route_view(Change::Add, cidr_text(route)->0, gateway, interface);
            let removing = linux_route_view(
                Change::Delete,
                cidr_text(route)->0,
                gateway,
                interface,
            );
            &&& adding.program == "ip"@
            &&& adding.args.len() == 8
            &&& adding.args.take(3) == seq!["-4"@, "route"@, "add"@]
            &&& rule_route(adding.args[3]) == Ok::<Option<WindowsRoute>, RouteErrorView>(
                Some(route),
            )
            &&& adding.args[4] == "via"@
            &&& ipv4_value(adding.args[5]) == Some(gateway)
            &&& adding.args[6] == "dev"@
            &&& adding.args[7] == interface
            &&& removing.program == adding.program
            &&& removing.args == adding.args.update(2, "del"@)
        }),
{
    let adding = linux_route_view(Change::Add, cidr_text(route)->0, gateway, interface);
    let removing = linux_route_view(Change::Delete, cidr_text(route)->0, gateway, interface);
    route_text_reads_back(route);
    ipv4_text_reads_back(gateway);
    assert(adding.args.take(3) =~= seq!["-4"@, "route"@, "add"@]);
    assert(removing.args =~= adding.args.update(2, "del"@));
}

/// The command for a route under Windows names destination, mask, gateway and interface, so that
/// they can be read back from it. To add a route and to remove it takes the same command but for
/// one word.
pub proof fn windows_route_command_reads_back(
    route: WindowsRoute,
    gateway: Ipv4Addr,
    if_index: u32,
)
    ensures
        ({
            let adding = windows_route_view(Change::Add, route, gateway, if_index);
            let removing = windows_route_view(Change::Delete, route, gateway, if_index);
            &&& adding.program == "route"@
            &&& adding.args.len() == 7
            &&& adding.args[0] == "ADD"@
            &&& ipv4_value(adding.args[1]) == Some(route.destination)
            &&& adding.args[2] == "MASK"@
            &&& ipv4_value(adding.args[3]) == Some(route.netmask)
            &&& ipv4_value(adding.args[4]) == Some(gateway)
            &&& adding.args[5] == "IF"@
            &&& number(adding.args[6], 10) == if_index
            &&& removing.program == adding.program
            &&& removing.args == adding.args.update(0, "DELETE"@)
        }),
{
    let adding = windows_route_view(Change::Add, route, gateway, if_index);
    let removing = windows_route_view(Change::Delete, route, gateway, if_index);
    ipv4_text_reads_back(route.destination);
    ipv4_text_reads_back(route.netmask);
    ipv4_text_reads_back(gateway);
    lemma_numeral(if_index as nat, 10);
    assert(removing.args =~= adding.args.update(0, "DELETE"@));
}

/// The rule for an endpoint is about that host and no other, and its priority is one ahead of that
/// of the policy rule. To put either in place and to remove it takes the same command but for one
/// word.
pub proof fn policy_commands_agree(endpoint: Ipv4Addr)
    ensures
        ({
            let adding = bootstrap_rule_view(Change::Add, endpoint);
            let removing = bootstrap_rule_view(Change::Delete, endpoint);
            &&& adding.program == "ip"@
            &&& adding.args.len() == 9
            &&& adding.args.take(4) == seq!["-4"@, "rule"@, "add"@, "priority"@]
            &&& number(adding.args[4], 10) == 7999
            &&& adding.args[5] == "to"@
            &&& rule_route(adding.args[6]) == Ok::<Option<WindowsRoute>, RouteErrorView>(
                Some(
                    WindowsRoute {
                        destination: endpoint,
                        netmask: Ipv4Addr { bits: 0xffff_ffff },
                    },
                ),
            )
            &&& adding.args.skip(7) == seq!["lookup"@, "main"@]
            &&& removing.program == adding.program
            &&& removing.args == adding.args.update(2, "del"@)
            &&& bootstrap_rule_args("add"@, endpoint) == adding.args
        }),
        policy_rule_view(Change::Add).program == "ip"@,
        policy_rule_view(Change::Add).args.take(4) == seq!["-4"@, "rule"@, "add"@, "priority"@],
        number(policy_rule_view(Change::Add).args[4], 10) == 8000,
        policy_rule_view(Change::Add).args.skip(5) == seq![
            "lookup"@,
            "main"@,
            "suppress_prefixlength"@,
            "0"@,
        ],
        policy_rule_view(Change::Delete).program == "ip"@,
        policy_rule_view(Change::Delete).args == policy_rule_view(Change::Add).args.update(
            2,
            "del"@,
        ),
{
    let adding = bootstrap_rule_view(Change::Add, endpoint);
    let removing = bootstrap_rule_view(Change::Delete, endpoint);
    let policy = policy_rule_view(Change::Add);
    lemma_priorities();
    lemma_host_text(endpoint);
    assert(adding.args.take(4) =~= seq!["-4"@, "rule"@, "add"@, "priority"@]);
    assert(adding.args.skip(7) =~= seq!["lookup"@, "main"@]);
    assert(removing.args =~= adding.args.update(2, "del"@));
    assert(policy.args.take(4) =~= seq!["-4"@, "rule"@, "add"@, "priority"@]);
    assert(policy.args.skip(5) =~= seq!["lookup"@, "main"@, "suppress_prefixlength"@, "0"@]);
    assert(policy_rule_view(Change::Delete).args =~= policy.args.update(2, "del"@));
}

proof fn lemma_priorities()
    ensures
        number("7999"@, 10) == 7999,
        number("8000"@, 10) == 8000,
{
    reveal_strlit("7999");
    reveal_strlit("8000");
    reveal_with_fuel(number, 5);
    let a = "7999"@;
    let b = "8000"@;
    assert(a.drop_last().last() == '9');
    assert(a.drop_last().drop_last().last() == '9');
    assert(a.drop_last().drop_last().drop_last().last() == '7');
    assert(b.drop_last().last() == '0');
    assert(b.drop_last().drop_last().last() == '0');
    assert(b.drop_last().drop_last().drop_last().last() == '8');
}

proof fn lemma_host_text(endpoint: Ipv4Addr)
    ensures
        rule_route(bootstrap_rule_args("add"@, endpoint)[6]) == Ok::<
            Option<WindowsRoute>,
            RouteErrorView,
        >(Some(WindowsRoute { destination: endpoint, netmask: Ipv4Addr { bits: 0xffff_ffff } })),
{
    address_with_prefix_stands_for_its_network(endpoint, 32);
    prefix_reads_back(Ipv4Addr { bits: 0xffff_ffff }, 32);
    assert(0xffff_ffffu32 << 0u32 == 0xffff_ffffu32) by (bit_vector);
    let bits = endpoint.bits;
    assert(bits & 0xffff_ffffu32 == bits) by (bit_vector);
    reveal_strlit("/32");
    lemma_numeral_32();
    assert(ipv4_text(endpoint) + "/32"@ =~= ipv4_text(endpoint) + seq!['/'] + numeral(32, 10));
}

proof fn lemma_numeral_32()
    ensures
        numeral(32, 10) == seq!['3', '2'],
{
    reveal_with_fuel(numeral, 3);
    assert(numeral(32, 10) =~= seq!['3', '2']);
}

/// The commands about DNS name the interface; the server that is set can be read back.
pub proof fn dns_commands_read_back(interface: Seq<char>, dns: IpAddrView)
    requires
        dns matches IpAddrView::V6(g) ==> g.len() == 8,
    ensures
        set_dns_view(interface, ip_text(dns)).program == "resolvectl"@,
        set_dns_view(interface, ip_text(dns)).args.take(2) == seq!["dns"@, interface],
        set_dns_view(interface, ip_text(dns)).args.len() == 3,
        ip_value(set_dns_view(interface, ip_text(dns)).args[2]) == Some(dns),
        set_domain_view(interface) == (CommandView {
            program: "resolvectl"@,
            args: seq!["domain"@, interface, "~cczu.edu.cn"@],
        }),
        revert_dns_view(interface) == (CommandView {
            program: "resolvectl"@,
            args: seq!["revert"@, interface],
        }),
{
    ip_text_reads_back(dns);
    assert(set_dns_view(interface, ip_text(dns)).args.take(2) =~= seq!["dns"@, interface]);
}

/// What stands inside a text occurs in it.
pub proof fn lemma_occurs(a: Seq<char>, b: Seq<char>, c: Seq<char>)
    ensures
        occurs(b, a + b + c),
{
    let s = a + b + c;
    assert(s.subrange(a.len() as int, a.len() as int + b.len()) =~= b);
    assert(occurs_at(b, s, a.len() as int));
}

/// A command is held to have failed exactly if it could not be started or has ended without
/// success. What is said of it names the program and its arguments, and then the cause, or what
/// the command wrote.
pub proof fn failed_commands_are_reported(command: CommandView, event: CommandEvent)
    ensures
        command_fault(command, event) is None <==> (event matches CommandEvent::Finished(output)
            && output.success),
        command_fault(command, event) matches Some(messages) ==> {
            &&& messages.len() >= 1
            &&& occurs(command.program, messages[0])
            &&& occurs(shown_args(command.args), messages[0])
            &&& match event {
                CommandEvent::NotRun(cause) => messages.len() == 2 && messages[1] == cause@,
                CommandEvent::Finished(output) => {
                    &&& messages.len() == 1
                    &&& occurs(" failed: args="@ + shown_args(command.args), messages[0])
                    &&& occurs(", stdout="@ + lossy_text(output.stdout@), messages[0])
                    &&& occurs(", stderr="@ + lossy_text(output.stderr@), messages[0])
                    &&& occurs(lossy_text(output.stderr@), messages[0])
                },
            }
        },
{
    let nothing = Seq::<char>::empty();
    let shown = shown_args(command.args);
    match event {
        CommandEvent::NotRun(cause) => {
            let m = not_run_message(command);
            lemma_occurs("failed to run "@, command.program, ": "@ + shown);
            assert(m =~= "failed to run "@ + command.program + (": "@ + shown));
            lemma_occurs("failed to run "@ + command.program + ": "@, shown, nothing);
            assert(m =~= "failed to run "@ + command.program + ": "@ + shown + nothing);
        },
        CommandEvent::Finished(output) => {
            if !output.success {
                let out = lossy_text(output.stdout@);
                let err = lossy_text(output.stderr@);
                let m = failed_message(command, output.stdout@, output.stderr@);
                let a = command.program + " failed: args="@;
                let b = a + shown + ", stdout="@;
                let c = b + out + ", stderr="@;
                let rest = " failed: args="@ + shown + ", stdout="@ + out + ", stderr="@ + err;
                lemma_occurs(nothing, command.program, rest);
                assert(m =~= nothing + command.program + rest);
                lemma_occurs(a, shown, ", stdout="@ + out + ", stderr="@ + err);
                assert(m =~= a + shown + (", stdout="@ + out + ", stderr="@ + err));
                let d = " failed: args="@ + shown;
                lemma_occurs(command.program, d, ", stdout="@ + out + ", stderr="@ + err);
                assert(m =~= command.program + d + (", stdout="@ + out + ", stderr="@ + err));
                let e = ", stdout="@ + out;
                lemma_occurs(a + shown, e, ", stderr="@ + err);
                assert(m =~= a + shown + e + (", stderr="@ + err));
                let f = ", stderr="@ + err;
                lemma_occurs(b + out, f, nothing);
                assert(m =~= b + out + f + nothing);
                lemma_occurs(c, err, nothing);
                assert(m =~= c + err + nothing);
            }
        },
    }
}

/// A command for a route under Windows is held to have failed exactly if it could not be started
/// or has ended without success. What is said of it names its arguments, and then the cause, or
/// what the command wrote.
pub proof fn failed_route_commands_are_reported(args: Seq<Seq<char>>, event: CommandEvent)
    ensures
        route_command_fault(args, event) is None <==> (event matches CommandEvent::Finished(output)
            && output.success),
        route_command_fault(args, event) matches Some(messages) ==> {
            &&& messages.len() >= 1
            &&& occurs(shown_args(args), messages[0])
            &&& match event {
                CommandEvent::NotRun(cause) => messages.len() == 2 && messages[1] == cause@,
                CommandEvent::Finished(output) => {
                    &&& messages.len() == 1
                    &&& occurs(" failed: args="@ + shown_args(args), messages[0])
                    &&& occurs(", stdout="@ + lossy_text(output.stdout@), messages[0])
                    &&& occurs(", stderr="@ + lossy_text(output.stderr@), messages[0])
                    &&& occurs(lossy_text(output.stderr@), messages[0])
                },
            }
        },
{
    let nothing = Seq::<char>::empty();
    let shown = shown_args(args);
    match event {
        CommandEvent::NotRun(_) => {
            let a = "failed to run route command: "@;
            lemma_occurs(a, shown, nothing);
            assert(a + shown =~= a + shown + nothing);
        },
        CommandEvent::Finished(output) => {
            if !output.success {
                let out = lossy_text(output.stdout@);
                let err = lossy_text(output.stderr@);
                let a = "route command failed: args="@;
                let b = a + shown + ", stdout="@;
                let c = b + out + ", stderr="@;
                let m = c + err;
                lemma_occurs(a, shown, ", stdout="@ + out + ", stderr="@ + err);
                assert(m =~= a + shown + (", stdout="@ + out + ", stderr="@ + err));
                reveal_strlit("route command failed: args=");
                reveal_strlit("route command");
                reveal_strlit(" failed: args=");
                assert(a =~= "route command"@ + " failed: args="@);
                let d = " failed: args="@ + shown;
                lemma_occurs("route command"@, d, ", stdout="@ + out + ", stderr="@ + err);
                assert(m =~= "route command"@ + d + (", stdout="@ + out + ", stderr="@ + err));
                let e = ", stdout="@ + out;
                lemma_occurs(a + shown, e, ", stderr="@ + err);
                assert(m =~= a + shown + e + (", stderr="@ + err));
                let f = ", stderr="@ + err;
                lemma_occurs(b + out, f, nothing);
                assert(m =~= b + out + f + nothing);
                lemma_occurs(c, err, nothing);
                assert(m =~= c + err + nothing);
            }
        },
    }
}

/// The removal of a rule has failed exactly if the command could not be started, or has ended
/// without success and did not say that there is no such rule. It has removed something exactly
/// if it has ended with success.
pub proof fn missing_rule_is_no_failure(
    event: CommandEvent,
    not_run: Seq<char>,
    failed: Seq<char>,
)
    ensures
        removal_fault(event, not_run, failed) is None <==> (event matches CommandEvent::Finished(
            output,
        ) && (output.success || occurs("No such file"@, lossy_text(output.stderr@)))),
        did_remove(event) <==> (event matches CommandEvent::Finished(output) && output.success),
        did_remove(event) ==> removal_fault(event, not_run, failed) is None,
        removal_fault(event, not_run, failed) matches Some(messages) ==> match event {
            CommandEvent::NotRun(cause) => messages == seq![not_run, cause@],
            CommandEvent::Finished(output) => messages == seq![
                failed + lossy_text(output.stderr@),
            ],
        },
{
}

/// A list of arguments is shown in square brackets, each argument in quotes, and a comma and a
/// space between each and the next. A list of one argument is shown as that argument.
pub proof fn arguments_are_listed(args: Seq<Seq<char>>, others: Seq<Seq<char>>, arg: Seq<char>)
    ensures
        quoted_list(Seq::empty()) == Seq::<char>::empty(),
        quoted_list(seq![arg]) == quoted_text(arg),
        args.len() > 0 && others.len() > 0 ==> quoted_list(args + others) == quoted_list(args)
            + seq![',', ' '] + quoted_list(others),
        shown_args(args) == seq!['['] + quoted_list(args) + seq![']'],
    decreases others.len(),
{
    reveal_strlit(", ");
    reveal_strlit("[");
    reveal_strlit("]");
    assert(", "@ =~= seq![',', ' ']);
    assert("["@ =~= seq!['[']);
    assert("]"@ =~= seq![']']);
    if args.len() > 0 && others.len() > 0 {
        let front = others.drop_last();
        assert((args + others).drop_last() =~= args + front);
        assert((args + others).last() == others.last());
        if others.len() == 1 {
            assert(args + front =~= args);
            assert(others[0] == others.last());
        } else {
            arguments_are_listed(args, front, arg);
            assert(quoted_list(args + others) =~= quoted_list(args) + seq![',', ' ']
                + quoted_list(others));
        }
    }
}

/// As [`arguments_are_listed`], of plain arguments: their quotes have nothing in them but the
/// argument itself.
pub proof fn plain_arguments_are_listed(
    args: Seq<Seq<char>>,
    others: Seq<Seq<char>>,
    arg: Seq<char>,
)
    requires
        all_plain(args),
        all_plain(others),
    ensures
        plain_list(seq![arg]) == seq!['"'] + arg + seq!['"'],
        args.len() > 0 && others.len() > 0 ==> plain_list(args + others) == plain_list(args)
            + seq![',', ' '] + plain_list(others),
        plain_args(args) == seq!['['] + plain_list(args) + seq![']'],
    decreases others.len(),
{
    reveal_strlit(", ");
    reveal_strlit("[");
    reveal_strlit("]");
    assert(", "@ =~= seq![',', ' ']);
    assert("["@ =~= seq!['[']);
    assert("]"@ =~= seq![']']);
    if args.len() > 0 && others.len() > 0 {
        let front = others.drop_last();
        assert((args + others).drop_last() =~= args + front);
        assert((args + others).last() == others.last());
        if others.len() == 1 {
            assert(args + front =~= args);
            assert(others[0] == others.last());
        } else {
            assert forall|i: int| 0 <= i < front.len() implies is_plain(
                #[trigger] front[i],
            ) by {
                assert(front[i] == others[i]);
            }
            plain_arguments_are_listed(args, front, arg);
            assert(plain_list(args + others) =~= plain_list(args) + seq![',', ' '] + plain_list(
                others,
            ));
        }
    }
}

/// What stands at the end of a text occurs in it.
pub proof fn lemma_ends_with(a: Seq<char>, b: Seq<char>)
    ensures
        occurs(b, a + b),
{
    lemma_occurs(a, b, Seq::empty());
    assert(a + b + Seq::<char>::empty() =~= a + b);
}

/// What something came to is a success exactly if there is no fault, and else it is that fault.
pub proof fn outcome_tells_the_fault(r: Result<(), Failure>, fault: Option<Seq<Seq<char>>>)
    requires
        is_outcome(r, fault),
    ensures
        r is Ok <==> fault is None,
        r matches Err(failure) ==> fault == Some(failure@),
{
}

} // verus!
