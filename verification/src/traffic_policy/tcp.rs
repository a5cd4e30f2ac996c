//! Evaluation of policies on TCP connections.

use crate::net::{IpAddress, Network};
use crate::proto::Protocol;
use crate::rbac::{
    decision_view, AuthorizationRejectionError, Connection, Denial, Direction, RbacAction,
    RbacDecision,
};
use crate::text::{decimal, decimal_text, joined};
use crate::traffic_policy::{
    named_view, policies_view, NamedPolicy, NamedView, PolicyView, PortMatch, Rule, RuleSet,
    RuleView,
};
use vstd::prelude::*;

verus! {

/// Whether a list of networks lets an address through; an empty list lets all through.
pub open spec fn networks_match(networks: Seq<Network>, ip: IpAddress) -> bool {
    networks.len() == 0 || exists|i: int|
        0 <= i < networks.len() && (#[trigger] networks[i]).holds(ip)
}

/// Whether a port match is about TCP and holds a port.
pub open spec fn port_match_tcp(m: PortMatch, port: u16) -> bool {
    (m.protocol == Protocol::All || m.protocol == Protocol::Tcp) && (m.range matches Some(range)
        ==> range.holds(port))
}

/// Whether a list of port matches lets a TCP port through; an empty list lets all through.
pub open spec fn ports_match(ports: Seq<PortMatch>, port: u16) -> bool {
    ports.len() == 0 || exists|i: int|
        0 <= i < ports.len() && port_match_tcp(#[trigger] ports[i], port)
}

/// Whether a rule is for a connection.
pub open spec fn rule_matches(rule: RuleView, conn: Connection) -> bool {
    &&& networks_match(rule.source_ips, conn.src.ip)
    &&& networks_match(rule.destination_ips, conn.dst.ip)
    &&& ports_match(rule.ports, conn.dst.port)
}

/// The index of the first rule that is for a connection.
pub open spec fn first_match(rules: Seq<RuleView>, conn: Connection) -> Option<nat>
    decreases rules.len(),
{
    if rules.len() == 0 {
        None
    } else {
        match first_match(rules.drop_last(), conn) {
            Some(i) => Some(i),
            None => if rule_matches(rules.last(), conn) {
                Some((rules.len() - 1) as nat)
            } else {
                None
            },
        }
    }
}

/// What a rule decides on a connection that it is for.
pub open spec fn rule_decision(name: Seq<char>, index: nat, action: RbacAction) -> Result<
    RbacDecision,
    Denial,
> {
    match action {
        RbacAction::Allow => Ok(RbacDecision::Allow),
        RbacAction::Deny => Err((name, "rule-"@ + decimal(index))),
    }
}

/// What one entry of a policy list decides, if it ends the evaluation: a missing body denies,
/// and a body decides by its first rule for the connection.
pub open spec fn policy_decision(entry: NamedView, conn: Connection) -> Option<
    Result<RbacDecision, Denial>,
> {
    match entry.1 {
        None => Some(Err((entry.0, "policy-unavailable"@))),
        Some(policy) => match policy.rules(conn.direction) {
            None => None,
            Some(rules) => match first_match(rules, conn) {
                None => None,
                Some(i) => Some(rule_decision(entry.0, i, rules[i as int].action)),
            },
        },
    }
}

/// What the first entry that ends the evaluation decides.
pub open spec fn first_decision(policies: Seq<NamedView>, conn: Connection) -> Option<
    Result<RbacDecision, Denial>,
>
    decreases policies.len(),
{
    if policies.len() == 0 {
        None
    } else {
        match first_decision(policies.drop_last(), conn) {
            Some(decision) => Some(decision),
            None => policy_decision(policies.last(), conn),
        }
    }
}

/// Whether an entry has rules for a direction, be it none at all.
pub open spec fn entry_configures(entry: NamedView, direction: Direction) -> bool {
    entry.1 matches Some(policy) && policy.rules(direction) is Some
}

/// Whether some policy has rules for a direction.
pub open spec fn configures(policies: Seq<NamedView>, direction: Direction) -> bool {
    exists|i: int| 0 <= i < policies.len() && entry_configures(#[trigger] policies[i], direction)
}

/// The outcome of evaluating policies in order. Where no entry ends the evaluation, a direction
/// that is configured denies.
pub open spec fn tcp_decision(policies: Seq<NamedView>, conn: Connection) -> Result<
    RbacDecision,
    Denial,
> {
    match first_decision(policies, conn) {
        Some(decision) => decision,
        None => if configures(policies, conn.direction) {
            Err((Seq::empty(), "DEFAULT-DENY"@))
        } else {
            Ok(RbacDecision::NoMatch)
        },
    }
}

/// Whether a list of networks lets an address through.
fn any_network(networks: &Vec<Network>, ip: IpAddress) -> (r: bool)
    ensures
        r == networks_match(networks@, ip),
{
    if networks.len() == 0 {
        return true;
    }
    let mut i: usize = 0;
    while i < networks.len()
        invariant
            i <= networks@.len(),
            networks@.len() > 0,
            forall|j: int| 0 <= j < i ==> !(#[trigger] networks@[j]).holds(ip),
        decreases networks.len() - i,
    {
        if networks[i].contains(ip) {
            assert(networks@[i as int].holds(ip));
            return true;
        }
        i = i + 1;
    }
    false
}

/// Whether a list of port matches lets a TCP port through.
fn any_port(ports: &Vec<PortMatch>, port: u16) -> (r: bool)
    ensures
        r == ports_match(ports@, port),
{
    if ports.len() == 0 {
        return true;
    }
    let mut i: usize = 0;
    while i < ports.len()
        invariant
            i <= ports@.len(),
            ports@.len() > 0,
            forall|j: int| 0 <= j < i ==> !port_match_tcp(#[trigger] ports@[j], port),
        decreases ports.len() - i,
    {
        let tcp: bool = ports[i].protocol == Protocol::All || ports[i].protocol == Protocol::Tcp;
        let inside: bool = match ports[i].range {
            None => true,
            Some(range) => range.contains(port),
        };
        if tcp && inside {
            assert(port_match_tcp(ports@[i as int], port));
            return true;
        }
        i = i + 1;
    }
    false
}

impl Rule {
    /// Whether the rule is for a TCP connection.
    pub fn matches_tcp(&self, conn: &Connection) -> (r: bool)
        ensures
            r == rule_matches(self@, *conn),
    {
        any_network(&self.source_ips, conn.src.ip) && any_network(
            &self.destination_ips,
            conn.dst.ip,
        ) && any_port(&self.ports, conn.dst.port)
    }
}

/// A decision of the first `n` entries is the decision of all of them.
pub proof fn first_decision_stands(policies: Seq<NamedView>, conn: Connection, n: int)
    requires
        0 <= n <= policies.len(),
        first_decision(policies.take(n), conn) is Some,
    ensures
        first_decision(policies, conn) == first_decision(policies.take(n), conn),
    decreases policies.len() - n,
{
    if n == policies.len() {
        assert(policies.take(n) =~= policies);
    } else {
        assert(policies.take(n + 1).drop_last() =~= policies.take(n));
        first_decision_stands(policies, conn, n + 1);
    }
}

/// A match within the first `n` rules is the first match of all of them.
proof fn first_match_stands(rules: Seq<RuleView>, conn: Connection, n: int)
    requires
        0 <= n <= rules.len(),
        first_match(rules.take(n), conn) is Some,
    ensures
        first_match(rules, conn) == first_match(rules.take(n), conn),
    decreases rules.len() - n,
{
    if n == rules.len() {
        assert(rules.take(n) =~= rules);
    } else {
        assert(rules.take(n + 1).drop_last() =~= rules.take(n));
        first_match_stands(rules, conn, n + 1);
    }
}

/// The index of the first rule that is for a connection.
fn find_match(rules: &RuleSet, conn: &Connection) -> (r: Option<usize>)
    ensures
        first_match(rules@, *conn) == (match r {
            Some(i) => Some(i as nat),
            None => None,
        }),
        r matches Some(i) ==> i < rules.rules@.len(),
{
    let mut i: usize = 0;
    assert(rules@.len() == rules.rules@.len());
    assert(rules@.take(0) =~= Seq::<RuleView>::empty());
    while i < rules.rules.len()
        invariant
            i <= rules@.len(),
            rules@.len() == rules.rules@.len(),
            first_match(rules@.take(i as int), *conn) is None,
        decreases rules.rules.len() - i,
    {
        proof {
            assert(rules@.take(i + 1).drop_last() =~= rules@.take(i as int));
            assert(rules@.take(i + 1).last() == rules.rules@[i as int]@);
        }
        if rules.rules[i].matches_tcp(conn) {
            proof {
                first_match_stands(rules@, *conn, i + 1);
            }
            return Some(i);
        }
        i = i + 1;
    }
    assert(rules@.take(i as int) =~= rules@);
    None
}

/// Evaluate inline rules followed by ordered shared policies. A missing body is
/// a deny barrier; preceding explicit decisions remain terminal.
/// NoMatch means no policy configures this direction.
pub fn assert_tcp_policies(policies: &[NamedPolicy<'_>], conn: &Connection) -> (r: Result<
    RbacDecision,
    AuthorizationRejectionError,
>)
    ensures
        decision_view(r) == tcp_decision(policies_view(policies@), *conn),
{
    let ghost view = policies_view(policies@);
    let mut configured: bool = false;
    let mut i: usize = 0;
    assert(view.take(0) =~= Seq::<NamedView>::empty());
    while i < policies.len()
        invariant
            i <= policies@.len(),
            view == policies_view(policies@),
            first_decision(view.take(i as int), *conn) is None,
            configured == exists|j: int|
                0 <= j < i && entry_configures(#[trigger] view[j], conn.direction),
        decreases policies.len() - i,
    {
        let ghost decided = policy_decision(view[i as int], *conn);
        proof {
            assert(view.take(i + 1).drop_last() =~= view.take(i as int));
            assert(view[i as int] == named_view(policies@[i as int]));
            if decided is Some {
                first_decision_stands(view, *conn, i + 1);
            }
        }
        let (name, policy) = policies[i];
        match policy {
            None => {
                return Err(
                    AuthorizationRejectionError::ExplicitlyDenied(
                        name.to_owned(),
                        "policy-unavailable".to_owned(),
                    ),
                );
            },
            Some(policy) => {
                let rules: &Option<RuleSet> = match conn.direction {
                    Direction::Inbound => &policy.ingress,
                    Direction::Outbound => &policy.egress,
                };
                if let Some(rules) = rules {
                    configured = true;
                    assert(entry_configures(view[i as int], conn.direction));
                    if let Some(index) = find_match(rules, conn) {
                        return match rules.rules[index].action {
                            RbacAction::Allow => Ok(RbacDecision::Allow),
                            RbacAction::Deny => Err(
                                AuthorizationRejectionError::ExplicitlyDenied(
                                    name.to_owned(),
                                    joined("rule-", decimal_text(index).as_str()),
                                ),
                            ),
                        };
                    }
                }
            },
        }
        i = i + 1;
    }
    assert(view.take(i as int) =~= view);
    if configured {
        assert(configures(view, conn.direction));
        Err(
            AuthorizationRejectionError::ExplicitlyDenied(
                String::new(),
                "DEFAULT-DENY".to_owned(),
            ),
        )
    } else {
        Ok(RbacDecision::NoMatch)
    }
}

/// The first match is a rule for the connection with none before it, and there is one where any
/// rule is for the connection.
pub proof fn first_match_is_the_first(rules: Seq<RuleView>, conn: Connection)
    ensures
        match first_match(rules, conn) {
            Some(i) => {
                &&& i < rules.len()
                &&& rule_matches(rules[i as int], conn)
                &&& forall|j: int| 0 <= j < i ==> !rule_matches(#[trigger] rules[j], conn)
            },
            None => forall|j: int| 0 <= j < rules.len() ==> !rule_matches(#[trigger] rules[j], conn),
        },
    decreases rules.len(),
{
    if rules.len() > 0 {
        let front = rules.drop_last();
        first_match_is_the_first(front, conn);
        assert(forall|j: int| 0 <= j < front.len() ==> front[j] == rules[j]);
        if first_match(front, conn) is None {
            assert forall|j: int| 0 <= j < front.len() implies !rule_matches(
                #[trigger] rules[j],
                conn,
            ) by {
                assert(!rule_matches(front[j], conn));
            }
        } else {
            let i = first_match(front, conn)->0;
            assert forall|j: int| 0 <= j < i implies !rule_matches(#[trigger] rules[j], conn) by {
                assert(!rule_matches(front[j], conn));
            }
        }
    }
}

/// The evaluation ends at the first entry that decides: none before it decides, and it does.
pub proof fn first_decision_is_the_first(policies: Seq<NamedView>, conn: Connection)
    ensures
        first_decision(policies, conn) is None ==> forall|j: int|
            0 <= j < policies.len() ==> policy_decision(#[trigger] policies[j], conn) is None,
        first_decision(policies, conn) is Some ==> exists|i: int|
            {
                &&& 0 <= i < policies.len()
                &&& first_decision(policies, conn) == policy_decision(#[trigger] policies[i], conn)
                &&& first_decision(policies.take(i), conn) is None
            },
    decreases policies.len(),
{
    if policies.len() > 0 {
        let front = policies.drop_last();
        first_decision_is_the_first(front, conn);
        assert(forall|j: int| 0 <= j < front.len() ==> front[j] == policies[j]);
        if first_decision(front, conn) is None {
            assert forall|j: int| 0 <= j < front.len() implies policy_decision(
                #[trigger] policies[j],
                conn,
            ) is None by {
                assert(policy_decision(front[j], conn) is None);
            }
            let last = policies.len() - 1;
            assert(policies.take(last) =~= front);
            assert(policies[last] == policies.last());
        } else {
            let i = choose|i: int|
                {
                    &&& 0 <= i < front.len()
                    &&& first_decision(front, conn) == policy_decision(#[trigger] front[i], conn)
                    &&& first_decision(front.take(i), conn) is None
                };
            assert(front[i] == policies[i]);
            assert(front.take(i) =~= policies.take(i));
        }
    }
}

/// A decision that policies reach on their own stays when more policies follow.
pub proof fn decisions_are_terminal(
    policies: Seq<NamedView>,
    more: Seq<NamedView>,
    conn: Connection,
)
    requires
        first_decision(policies, conn) is Some,
    ensures
        tcp_decision(policies + more, conn) == tcp_decision(policies, conn),
{
    let all = policies + more;
    assert(all.take(policies.len() as int) =~= policies);
    first_decision_stands(all, conn, policies.len() as int);
}

/// A missing body is a deny barrier: unless an entry before it decides, the evaluation ends there
/// with a denial under its name, whatever follows.
pub proof fn missing_policy_denies(policies: Seq<NamedView>, i: int, conn: Connection)
    requires
        0 <= i < policies.len(),
        policies[i].1 is None,
        first_decision(policies.take(i), conn) is None,
    ensures
        tcp_decision(policies, conn) == Err::<RbacDecision, Denial>(
            (policies[i].0, "policy-unavailable"@),
        ),
{
    let upto = policies.take(i + 1);
    assert(upto.drop_last() =~= policies.take(i));
    assert(upto.last() == policies[i]);
    first_decision_stands(policies, conn, i + 1);
}

/// `NoMatch` comes back exactly where every body is known and none configures the direction.
pub proof fn no_match_means_unconfigured(policies: Seq<NamedView>, conn: Connection)
    ensures
        tcp_decision(policies, conn) == Ok::<RbacDecision, Denial>(RbacDecision::NoMatch) <==> {
            &&& !configures(policies, conn.direction)
            &&& forall|i: int| 0 <= i < policies.len() ==> (#[trigger] policies[i]).1 is Some
        },
{
    first_decision_is_the_first(policies, conn);
    if !configures(policies, conn.direction) && forall|i: int|
        0 <= i < policies.len() ==> (#[trigger] policies[i]).1 is Some {
        if first_decision(policies, conn) is Some {
            let i = choose|i: int|
                {
                    &&& 0 <= i < policies.len()
                    &&& first_decision(policies, conn) == policy_decision(
                        #[trigger] policies[i],
                        conn,
                    )
                    &&& first_decision(policies.take(i), conn) is None
                };
            assert(policies[i].1 is Some);
            assert(!entry_configures(policies[i], conn.direction));
        }
    }
    if first_decision(policies, conn) is None {
        assert forall|i: int| 0 <= i < policies.len() implies (#[trigger] policies[i]).1 is Some by {
            assert(policy_decision(policies[i], conn) is None);
        }
    }
}

/// A connection is allowed only by a rule for it that allows, with nothing decided before it.
pub proof fn allowed_only_by_a_rule(policies: Seq<NamedView>, conn: Connection)
    requires
        tcp_decision(policies, conn) == Ok::<RbacDecision, Denial>(RbacDecision::Allow),
    ensures
        exists|i: int, j: int|
            {
                &&& 0 <= i < policies.len()
                &&& first_decision(policies.take(i), conn) is None
                &&& entry_configures(policies[i], conn.direction)
                &&& 0 <= j < policies[i].1->0.rules(conn.direction)->0.len()
                &&& first_match(policies[i].1->0.rules(conn.direction)->0, conn) == Some(j as nat)
                &&& rule_matches(#[trigger] policies[i].1->0.rules(conn.direction)->0[j], conn)
                &&& policies[i].1->0.rules(conn.direction)->0[j].action == RbacAction::Allow
            },
{
    first_decision_is_the_first(policies, conn);
    let i = choose|i: int|
        {
            &&& 0 <= i < policies.len()
            &&& first_decision(policies, conn) == policy_decision(#[trigger] policies[i], conn)
            &&& first_decision(policies.take(i), conn) is None
        };
    let rules = policies[i].1->0.rules(conn.direction)->0;
    first_match_is_the_first(rules, conn);
    let j = first_match(rules, conn)->0 as int;
    assert(rule_matches(policies[i].1->0.rules(conn.direction)->0[j], conn));
}

/// A policy that is silent on a direction does not change what the others decide there.
pub proof fn silent_policy_changes_nothing(policies: Seq<NamedView>, i: int, conn: Connection)
    requires
        0 <= i < policies.len(),
        policies[i].1 is Some,
        !entry_configures(policies[i], conn.direction),
    ensures
        tcp_decision(policies.remove(i), conn) == tcp_decision(policies, conn),
{
    silent_policy_decides_nothing(policies, i, conn);
    let rest = policies.remove(i);
    if configures(policies, conn.direction) {
        let k = choose|k: int|
            0 <= k < policies.len() && entry_configures(#[trigger] policies[k], conn.direction);
        if k < i {
            assert(rest[k] == policies[k]);
        } else {
            assert(rest[k - 1] == policies[k]);
        }
    }
    if configures(rest, conn.direction) {
        let k = choose|k: int|
            0 <= k < rest.len() && entry_configures(#[trigger] rest[k], conn.direction);
        if k < i {
            assert(rest[k] == policies[k]);
        } else {
            assert(rest[k] == policies[k + 1]);
        }
    }
}

/// Without an entry that is silent on a direction the first decision is the same.
proof fn silent_policy_decides_nothing(policies: Seq<NamedView>, i: int, conn: Connection)
    requires
        0 <= i < policies.len(),
        policies[i].1 is Some,
        !entry_configures(policies[i], conn.direction),
    ensures
        first_decision(policies.remove(i), conn) == first_decision(policies, conn),
    decreases policies.len(),
{
    if i == policies.len() - 1 {
        assert(policies.remove(i) =~= policies.drop_last());
    } else {
        let front = policies.drop_last();
        silent_policy_decides_nothing(front, i, conn);
        assert(policies.remove(i).drop_last() =~= front.remove(i));
        assert(policies.remove(i).last() == policies.last());
    }
}

/// Which connections a rule is for: those whose source lies in one of the source networks, whose
/// destination lies in one of the destination networks, and whose destination port is in one of
/// the ranges given for TCP or for all protocols. A list that is empty asks for nothing.
pub proof fn rules_match_by_their_constraints(rule: RuleView, conn: Connection)
    ensures
        rule_matches(rule, conn) <==> {
            &&& rule.source_ips.len() == 0 || exists|i: int|
                0 <= i < rule.source_ips.len() && (#[trigger] rule.source_ips[i]).holds(conn.src.ip)
            &&& rule.destination_ips.len() == 0 || exists|i: int|
                0 <= i < rule.destination_ips.len() && (#[trigger] rule.destination_ips[i]).holds(
                    conn.dst.ip,
                )
            &&& rule.ports.len() == 0 || exists|i: int|
                {
                    &&& 0 <= i < rule.ports.len()
                    &&& (#[trigger] rule.ports[i]).protocol == Protocol::Tcp
                        || rule.ports[i].protocol == Protocol::All
                    &&& rule.ports[i].range is None || rule.ports[i].range->0.start
                        <= conn.dst.port <= rule.ports[i].range->0.end
                }
        },
{
    if rule.ports.len() > 0 && ports_match(rule.ports, conn.dst.port) {
        let i = choose|i: int|
            0 <= i < rule.ports.len() && port_match_tcp(#[trigger] rule.ports[i], conn.dst.port);
        assert(rule.ports[i].range matches Some(range) ==> range.holds(conn.dst.port));
    }
    if exists|i: int|
        {
            &&& 0 <= i < rule.ports.len()
            &&& (#[trigger] rule.ports[i]).protocol == Protocol::Tcp || rule.ports[i].protocol
                == Protocol::All
            &&& rule.ports[i].range is None || rule.ports[i].range->0.start <= conn.dst.port
                <= rule.ports[i].range->0.end
        } {
        let i = choose|i: int|
            {
                &&& 0 <= i < rule.ports.len()
                &&& (#[trigger] rule.ports[i]).protocol == Protocol::Tcp || rule.ports[i].protocol
                    == Protocol::All
                &&& rule.ports[i].range is None || rule.ports[i].range->0.start <= conn.dst.port
                    <= rule.ports[i].range->0.end
            };
        assert(port_match_tcp(rule.ports[i], conn.dst.port));
    }
}

/// A rule with sources alone is for every connection whose source lies in one of them, whatever
/// its destination, and for no other.
pub proof fn sources_alone_look_at_the_source(rule: RuleView, conn: Connection)
    requires
        rule.source_ips.len() > 0,
        rule.destination_ips.len() == 0,
        rule.ports.len() == 0,
    ensures
        rule_matches(rule, conn) <==> exists|i: int|
            0 <= i < rule.source_ips.len() && (#[trigger] rule.source_ips[i]).holds(conn.src.ip),
        forall|other: Connection|
            #![trigger rule_matches(rule, other)]
            other.src.ip == conn.src.ip ==> rule_matches(rule, other) == rule_matches(rule, conn),
{
}

/// A rule with destinations alone is for every connection whose destination lies in one of them,
/// whatever its source, and for no other.
pub proof fn destinations_alone_look_at_the_destination(rule: RuleView, conn: Connection)
    requires
        rule.source_ips.len() == 0,
        rule.destination_ips.len() > 0,
        rule.ports.len() == 0,
    ensures
        rule_matches(rule, conn) <==> exists|i: int|
            0 <= i < rule.destination_ips.len() && (#[trigger] rule.destination_ips[i]).holds(
                conn.dst.ip,
            ),
        forall|other: Connection|
            #![trigger rule_matches(rule, other)]
            other.dst.ip == conn.dst.ip ==> rule_matches(rule, other) == rule_matches(rule, conn),
{
}

/// Neither the direction of a connection nor the port that it comes from matters to a rule.
pub proof fn rules_do_not_look_at_direction_or_source_port(
    rule: RuleView,
    conn: Connection,
    other: Connection,
)
    requires
        conn.src.ip == other.src.ip,
        conn.dst == other.dst,
    ensures
        rule_matches(rule, conn) == rule_matches(rule, other),
{
}

/// More networks or ports in a list that is not empty let more connections through, never fewer.
pub proof fn longer_lists_match_more(rule: RuleView, longer: RuleView, conn: Connection)
    requires
        rule_matches(rule, conn),
        rule.source_ips.len() > 0 || longer.source_ips.len() == 0,
        rule.destination_ips.len() > 0 || longer.destination_ips.len() == 0,
        rule.ports.len() > 0 || longer.ports.len() == 0,
        rule.source_ips.is_prefix_of(longer.source_ips),
        rule.destination_ips.is_prefix_of(longer.destination_ips),
        rule.ports.is_prefix_of(longer.ports),
    ensures
        rule_matches(longer, conn),
{
    if rule.source_ips.len() > 0 {
        let i = choose|i: int|
            0 <= i < rule.source_ips.len() && (#[trigger] rule.source_ips[i]).holds(conn.src.ip);
        assert(longer.source_ips[i] == rule.source_ips[i]);
    }
    if rule.destination_ips.len() > 0 {
        let i = choose|i: int|
            0 <= i < rule.destination_ips.len() && (#[trigger] rule.destination_ips[i]).holds(
                conn.dst.ip,
            );
        assert(longer.destination_ips[i] == rule.destination_ips[i]);
    }
    if rule.ports.len() > 0 {
        let i = choose|i: int|
            0 <= i < rule.ports.len() && port_match_tcp(#[trigger] rule.ports[i], conn.dst.port);
        assert(longer.ports[i] == rule.ports[i]);
    }
}

/// The rules that count for a connection: the ingress where it comes in, the egress where it goes
/// out.
pub open spec fn rules_for(policy: PolicyView, conn: Connection) -> Option<Seq<RuleView>> {
    if conn.direction == Direction::Inbound {
        policy.ingress
    } else {
        policy.egress
    }
}

/// Whether an entry leaves a connection to those behind it: its body is known, and no rule for
/// the connection's direction is for the connection.
pub open spec fn leaves_open(entry: NamedView, conn: Connection) -> bool {
    &&& entry.1 is Some
    &&& rules_for(entry.1->0, conn) matches Some(rules) ==> forall|j: int|
        0 <= j < rules.len() ==> !rule_matches(#[trigger] rules[j], conn)
}

/// An entry that leaves a connection open decides nothing, and any other does.
proof fn open_entries_decide_nothing(entry: NamedView, conn: Connection)
    ensures
        policy_decision(entry, conn) is None <==> leaves_open(entry, conn),
{
    if let Some(policy) = entry.1 {
        if let Some(rules) = rules_for(policy, conn) {
            first_match_is_the_first(rules, conn);
        }
    }
}

/// Entries that all leave a connection open decide nothing.
proof fn open_lists_decide_nothing(policies: Seq<NamedView>, conn: Connection)
    requires
        forall|k: int| 0 <= k < policies.len() ==> leaves_open(#[trigger] policies[k], conn),
    ensures
        first_decision(policies, conn) is None,
    decreases policies.len(),
{
    if policies.len() > 0 {
        let front = policies.drop_last();
        assert forall|k: int| 0 <= k < front.len() implies leaves_open(#[trigger] front[k], conn) by {
            assert(front[k] == policies[k]);
        }
        open_lists_decide_nothing(front, conn);
        assert(leaves_open(policies[policies.len() - 1], conn));
        open_entries_decide_nothing(policies.last(), conn);
    }
}

/// The first rule for a connection decides: where all policies before it leave the connection
/// open, and so do the rules before it in its own policy, it allows the connection, or denies it
/// under the policy's name and the rule's number.
pub proof fn the_first_rule_for_a_connection_decides(
    policies: Seq<NamedView>,
    i: int,
    j: int,
    conn: Connection,
)
    requires
        0 <= i < policies.len(),
        forall|k: int| 0 <= k < i ==> leaves_open(#[trigger] policies[k], conn),
        policies[i].1 is Some,
        rules_for(policies[i].1->0, conn) matches Some(rules) && {
            &&& 0 <= j < rules.len()
            &&& rule_matches(rules[j], conn)
            &&& forall|k: int| 0 <= k < j ==> !rule_matches(#[trigger] rules[k], conn)
        },
    ensures
        ({
            let rule = rules_for(policies[i].1->0, conn)->0[j];
            &&& rule.action == RbacAction::Allow ==> tcp_decision(policies, conn) == Ok::<
                RbacDecision,
                Denial,
            >(RbacDecision::Allow)
            &&& rule.action == RbacAction::Deny ==> tcp_decision(policies, conn) == Err::<
                RbacDecision,
                Denial,
            >((policies[i].0, "rule-"@ + decimal(j as nat)))
        }),
{
    let front = policies.take(i);
    assert forall|k: int| 0 <= k < front.len() implies leaves_open(#[trigger] front[k], conn) by {
        assert(front[k] == policies[k]);
    }
    open_lists_decide_nothing(front, conn);
    let rules = rules_for(policies[i].1->0, conn)->0;
    first_match_is_the_first(rules, conn);
    let m = first_match(rules, conn)->0 as int;
    assert(rule_matches(rules[j], conn));
    if m < j {
        assert(!rule_matches(rules[m], conn));
    }
    let upto = policies.take(i + 1);
    assert(upto.drop_last() =~= front);
    assert(upto.last() == policies[i]);
    first_decision_stands(policies, conn, i + 1);
}

/// A missing policy denies under its name, unless something before it decides.
pub proof fn missing_policies_deny_what_reaches_them(
    policies: Seq<NamedView>,
    i: int,
    conn: Connection,
)
    requires
        0 <= i < policies.len(),
        forall|k: int| 0 <= k < i ==> leaves_open(#[trigger] policies[k], conn),
        policies[i].1 is None,
    ensures
        tcp_decision(policies, conn) == Err::<RbacDecision, Denial>(
            (policies[i].0, "policy-unavailable"@),
        ),
{
    let front = policies.take(i);
    assert forall|k: int| 0 <= k < front.len() implies leaves_open(#[trigger] front[k], conn) by {
        assert(front[k] == policies[k]);
    }
    open_lists_decide_nothing(front, conn);
    missing_policy_denies(policies, i, conn);
}

/// A connection that all policies leave open is denied by default where one of them has rules for
/// its direction, and else matches nothing.
pub proof fn open_connections_are_denied_where_configured(
    policies: Seq<NamedView>,
    conn: Connection,
)
    requires
        forall|k: int| 0 <= k < policies.len() ==> leaves_open(#[trigger] policies[k], conn),
    ensures
        tcp_decision(policies, conn) == (if exists|k: int|
            0 <= k < policies.len() && rules_for((#[trigger] policies[k]).1->0, conn) is Some {
            Err::<RbacDecision, Denial>((Seq::empty(), "DEFAULT-DENY"@))
        } else {
            Ok::<RbacDecision, Denial>(RbacDecision::NoMatch)
        }),
{
    open_lists_decide_nothing(policies, conn);
    if configures(policies, conn.direction) {
        let k = choose|k: int|
            0 <= k < policies.len() && entry_configures(#[trigger] policies[k], conn.direction);
        assert(rules_for(policies[k].1->0, conn) is Some);
    }
    if exists|k: int|
        0 <= k < policies.len() && rules_for((#[trigger] policies[k]).1->0, conn) is Some {
        let k = choose|k: int|
            0 <= k < policies.len() && rules_for((#[trigger] policies[k]).1->0, conn) is Some;
        assert(leaves_open(policies[k], conn));
        assert(entry_configures(policies[k], conn.direction));
    }
}

/// The three ways in which an evaluation ends are all there are: a rule decides, a missing policy
/// does, or every policy leaves the connection open.
pub proof fn evaluations_end_in_three_ways(policies: Seq<NamedView>, conn: Connection)
    ensures
        (forall|k: int| 0 <= k < policies.len() ==> leaves_open(#[trigger] policies[k], conn))
            || exists|i: int|
            {
                &&& 0 <= i < policies.len()
                &&& !leaves_open(#[trigger] policies[i], conn)
                &&& forall|k: int| 0 <= k < i ==> leaves_open(#[trigger] policies[k], conn)
            },
    decreases policies.len(),
{
    if policies.len() > 0 {
        let front = policies.drop_last();
        let last = policies.len() - 1;
        evaluations_end_in_three_ways(front, conn);
        assert(forall|k: int| 0 <= k < front.len() ==> front[k] == policies[k]);
        if forall|k: int| 0 <= k < front.len() ==> leaves_open(#[trigger] front[k], conn) {
            assert forall|k: int| 0 <= k < last implies leaves_open(#[trigger] policies[k], conn) by {
                assert(leaves_open(front[k], conn));
            }
            assert(policies[last] == policies.last());
        } else {
            let i = choose|i: int|
                {
                    &&& 0 <= i < front.len()
                    &&& !leaves_open(#[trigger] front[i], conn)
                    &&& forall|k: int| 0 <= k < i ==> leaves_open(#[trigger] front[k], conn)
                };
            assert forall|k: int| 0 <= k < i implies leaves_open(#[trigger] policies[k], conn) by {
                assert(leaves_open(front[k], conn));
            }
            assert(!leaves_open(policies[i], conn));
        }
    }
}

} // verus!
