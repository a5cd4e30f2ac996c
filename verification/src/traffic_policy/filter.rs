//! Conversion of policies into packet filter rules.

use crate::firewall;
use crate::firewall::{
    FirewallMatch, FirewallMatchView, FirewallProtocol, FirewallRule, FirewallRuleView, PortGroup,
    PortGroupView, PortRange, RuleAction, RuleSetView,
};
use crate::net::Network;
use crate::proto::Protocol;
use crate::rbac::{Connection, Denial, Direction, RbacAction, RbacDecision};
use crate::text::{decimal, decimal_text, joined};
use crate::traffic_policy::tcp::{
    configures, entry_configures, no_match_means_unconfigured, tcp_decision,
};
use crate::traffic_policy::{
    named_view, policies_view, NamedPolicy, NamedView, PortMatch, Rule, RuleSet, RuleView,
};
use vstd::prelude::*;

verus! {

/// The filter's name for a protocol; TCP is not the filter's business.
pub open spec fn filter_protocol(protocol: Protocol) -> Option<FirewallProtocol> {
    match protocol {
        Protocol::All => Some(FirewallProtocol::NonTcp),
        Protocol::Udp => Some(FirewallProtocol::Udp),
        Protocol::Icmp => Some(FirewallProtocol::Icmp),
        Protocol::Sctp => Some(FirewallProtocol::Sctp),
        Protocol::Tcp => None,
    }
}

/// An optional range as a list.
pub open spec fn range_list(range: Option<PortRange>) -> Seq<PortRange> {
    match range {
        Some(range) => seq![range],
        None => Seq::empty(),
    }
}

/// The port groups of all port matches but those for TCP, in order.
pub open spec fn filter_groups(ports: Seq<PortMatch>) -> Seq<PortGroupView>
    decreases ports.len(),
{
    if ports.len() == 0 {
        Seq::empty()
    } else {
        let front = filter_groups(ports.drop_last());
        match filter_protocol(ports.last().protocol) {
            None => front,
            Some(protocol) => front.push(
                PortGroupView { protocol, ports: range_list(ports.last().range) },
            ),
        }
    }
}

/// What a filter rule does for a rule's action.
pub open spec fn filter_action(action: RbacAction) -> RuleAction {
    match action {
        RbacAction::Allow => RuleAction::Allow,
        RbacAction::Deny => RuleAction::Deny,
    }
}

/// The priority of the rule with `position` rules of its direction before it: the position, as
/// far as an `i32` can number it, and what is left of it in 32 bits beyond that.
pub open spec fn priority_of(position: nat) -> i32 {
    let low = position % 0x1_0000_0000;
    if low < 0x8000_0000 {
        low as i32
    } else {
        (low - 0x1_0000_0000) as i32
    }
}

/// The filter rule for the rule at `index` of a policy, with `position` rules of its direction
/// before it. A rule on TCP ports alone has none.
pub open spec fn filter_rule(
    name: Seq<char>,
    index: nat,
    position: nat,
    direction: Direction,
    rule: RuleView,
) -> Option<FirewallRuleView> {
    let port_groups = filter_groups(rule.ports);
    if rule.ports.len() > 0 && port_groups.len() == 0 {
        None
    } else {
        Some(
            FirewallRuleView {
                name: name + "/rule-"@ + decimal(index),
                action: filter_action(rule.action),
                direction,
                priority: priority_of(position),
                clauses: seq![
                    seq![
                        FirewallMatchView {
                            source_ips: rule.source_ips,
                            dest_ips: rule.destination_ips,
                            port_groups,
                        },
                    ],
                ],
            },
        )
    }
}

/// The filter rules for the rules of one policy, with `offset` rules of its direction before it.
pub open spec fn policy_filter_rules(
    name: Seq<char>,
    offset: nat,
    direction: Direction,
    rules: Seq<RuleView>,
) -> Seq<FirewallRuleView>
    decreases rules.len(),
{
    if rules.len() == 0 {
        Seq::empty()
    } else {
        let front = policy_filter_rules(name, offset, direction, rules.drop_last());
        let index = (rules.len() - 1) as nat;
        match filter_rule(name, index, offset + index, direction, rules.last()) {
            None => front,
            Some(rule) => front.push(rule),
        }
    }
}

/// How many policies come before the first whose body is missing.
pub open spec fn known_count(policies: Seq<NamedView>) -> nat
    decreases policies.len(),
{
    if policies.len() == 0 {
        0
    } else {
        let n = known_count(policies.drop_last());
        if n == policies.len() - 1 && policies.last().1 is Some {
            n + 1
        } else {
            n
        }
    }
}

/// The policies before the first whose body is missing.
pub open spec fn known(policies: Seq<NamedView>) -> Seq<NamedView> {
    policies.take(known_count(policies) as int)
}

/// The number of rules that an entry has for a direction.
pub open spec fn entry_rule_count(entry: NamedView, direction: Direction) -> nat {
    match entry.1 {
        Some(policy) => match policy.rules(direction) {
            Some(rules) => rules.len(),
            None => 0,
        },
        None => 0,
    }
}

/// The number of rules that policies have for a direction.
pub open spec fn rule_count(policies: Seq<NamedView>, direction: Direction) -> nat
    decreases policies.len(),
{
    if policies.len() == 0 {
        0
    } else {
        rule_count(policies.drop_last(), direction) + entry_rule_count(policies.last(), direction)
    }
}

/// The filter rules of all policies for a direction, in order.
pub open spec fn chain_filter_rules(policies: Seq<NamedView>, direction: Direction) -> Seq<
    FirewallRuleView,
>
    decreases policies.len(),
{
    if policies.len() == 0 {
        Seq::empty()
    } else {
        let front = policies.drop_last();
        let rules = chain_filter_rules(front, direction);
        match policies.last().1 {
            None => rules,
            Some(policy) => match policy.rules(direction) {
                None => rules,
                Some(body) => rules + policy_filter_rules(
                    policies.last().0,
                    rule_count(front, direction),
                    direction,
                    body,
                ),
            },
        }
    }
}

/// The rule behind all others of a direction: deny what is not TCP.
pub open spec fn default_rule(name: Seq<char>, direction: Direction) -> FirewallRuleView {
    FirewallRuleView {
        name,
        action: RuleAction::Deny,
        direction,
        priority: i32::MAX,
        clauses: seq![
            seq![
                FirewallMatchView {
                    source_ips: Seq::empty(),
                    dest_ips: Seq::empty(),
                    port_groups: seq![
                        PortGroupView { protocol: FirewallProtocol::NonTcp, ports: Seq::empty() },
                    ],
                },
            ],
        ],
    }
}

/// Whether a direction gets filter rules: a policy configures it, or one is missing that might.
pub open spec fn direction_filtered(policies: Seq<NamedView>, direction: Direction) -> bool {
    known_count(policies) < policies.len() || configures(known(policies), direction)
}

/// The name of a direction's default rule: that of the missing policy that hides the later ones,
/// where there is one.
pub open spec fn default_rule_name(policies: Seq<NamedView>) -> Seq<char> {
    if known_count(policies) < policies.len() {
        policies[known_count(policies) as int].0 + "/policy-unavailable"@
    } else {
        "DEFAULT-DENY"@
    }
}

/// All filter rules for a direction. A direction that no policy speaks of has none; any other
/// ends in its default rule.
pub open spec fn direction_filter_rules(policies: Seq<NamedView>, direction: Direction) -> Seq<
    FirewallRuleView,
> {
    if direction_filtered(policies, direction) {
        chain_filter_rules(known(policies), direction).push(
            default_rule(default_rule_name(policies), direction),
        )
    } else {
        Seq::empty()
    }
}

/// The filter rules of both directions, inbound first. Defaults are explicit rules, so none is
/// attached to the whole.
pub open spec fn filter_rule_set(policies: Seq<NamedView>) -> RuleSetView {
    RuleSetView {
        rules: direction_filter_rules(policies, Direction::Inbound) + direction_filter_rules(
            policies,
            Direction::Outbound,
        ),
        policy_attached: false,
    }
}

/// What a list of filter rules holds.
pub open spec fn rules_seen(rules: Seq<FirewallRule>) -> Seq<FirewallRuleView> {
    rules.map_values(|r: FirewallRule| r@)
}

/// The filter's name for a protocol.
fn convert_protocol(protocol: Protocol) -> (r: Option<FirewallProtocol>)
    ensures
        r == filter_protocol(protocol),
{
    match protocol {
        Protocol::All => Some(FirewallProtocol::NonTcp),
        Protocol::Udp => Some(FirewallProtocol::Udp),
        Protocol::Icmp => Some(FirewallProtocol::Icmp),
        Protocol::Sctp => Some(FirewallProtocol::Sctp),
        Protocol::Tcp => None,
    }
}

/// The list of an optional range.
fn range_vec(range: Option<PortRange>) -> (r: Vec<PortRange>)
    ensures
        r@ == range_list(range),
{
    let mut ports: Vec<PortRange> = Vec::new();
    if let Some(range) = range {
        ports.push(range);
    }
    assert(ports@ =~= range_list(range));
    ports
}

/// The port groups of all port matches but those for TCP.
fn port_groups(ports: &Vec<PortMatch>) -> (r: Vec<PortGroup>)
    ensures
        r@.map_values(|g: PortGroup| g@) == filter_groups(ports@),
{
    let mut groups: Vec<PortGroup> = Vec::new();
    let mut i: usize = 0;
    assert(groups@.map_values(|g: PortGroup| g@) =~= Seq::<PortGroupView>::empty());
    while i < ports.len()
        invariant
            i <= ports@.len(),
            groups@.map_values(|g: PortGroup| g@) == filter_groups(ports@.take(i as int)),
        decreases ports.len() - i,
    {
        assert(ports@.take(i + 1).drop_last() =~= ports@.take(i as int));
        if let Some(protocol) = convert_protocol(ports[i].protocol) {
            let ghost before = groups@;
            let group: PortGroup = PortGroup { protocol, ports: range_vec(ports[i].range) };
            groups.push(group);
            assert(groups@.map_values(|g: PortGroup| g@) =~= before.map_values(
                |g: PortGroup| g@,
            ).push(group@));
        }
        i = i + 1;
    }
    assert(ports@.take(i as int) =~= ports@);
    groups
}

/// A list with one clause of one alternative.
fn single_clause(alternative: FirewallMatch) -> (r: Vec<Vec<FirewallMatch>>)
    ensures
        r@.map_values(
            |c: Vec<FirewallMatch>| c@.map_values(|m: FirewallMatch| m@),
        ) == seq![seq![alternative@]],
{
    let mut clause: Vec<FirewallMatch> = Vec::new();
    clause.push(alternative);
    let mut clauses: Vec<Vec<FirewallMatch>> = Vec::new();
    clauses.push(clause);
    assert(clause@.map_values(|m: FirewallMatch| m@) =~= seq![alternative@]);
    assert(clauses@.map_values(
        |c: Vec<FirewallMatch>| c@.map_values(|m: FirewallMatch| m@),
    ) =~= seq![seq![alternative@]]);
    clauses
}

/// The number that counting up to `exact` in a `usize` ends at.
spec fn wrapped(exact: nat) -> nat {
    exact % (usize::MAX as nat + 1)
}

/// Counting may wrap around without changing priorities.
proof fn wrapping_keeps_priorities(exact: nat)
    ensures
        priority_of(wrapped(exact)) == priority_of(exact),
{
    let m = usize::MAX as nat + 1;
    assert(m == 0x1_0000_0000 || m == 0x1_0000_0000_0000_0000);
    assert(exact % 0x1_0000_0000_0000_0000 % 0x1_0000_0000 == exact % 0x1_0000_0000);
}

/// Counts on, wrapping around where a `usize` ends.
fn count_on(count: usize, more: usize, Ghost(exact): Ghost<nat>) -> (r: usize)
    requires
        count == wrapped(exact),
    ensures
        r == wrapped(exact + more as nat),
{
    proof {
        let m = usize::MAX as int + 1;
        vstd::arithmetic::div_mod::lemma_add_mod_noop(exact as int, more as int, m);
        vstd::arithmetic::div_mod::lemma_small_mod(more as nat, m as nat);
        if count + more < m {
            vstd::arithmetic::div_mod::lemma_small_mod((count + more) as nat, m as nat);
        } else {
            vstd::arithmetic::div_mod::lemma_small_mod((count + more - m) as nat, m as nat);
            vstd::arithmetic::div_mod::lemma_mod_sub_multiples_vanish(count + more, m);
        }
    }
    count.wrapping_add(more)
}

/// The priority of the rule at a position.
fn convert_position(position: usize) -> (r: i32)
    ensures
        r == priority_of(position as nat),
{
    let wide: u64 = position as u64;
    let low: u32 = wide as u32;
    assert(wide as u32 == wide % 0x1_0000_0000) by (bit_vector);
    assert(low < 0x8000_0000 ==> low as i32 == low) by (bit_vector);
    assert(low >= 0x8000_0000 ==> low as i32 == low - 0x1_0000_0000) by (bit_vector);
    low as i32
}

/// The filter rule for one rule of a policy.
fn convert_rule(
    name: &str,
    index: usize,
    position: usize,
    direction: Direction,
    rule: &Rule,
) -> (r: Option<FirewallRule>)
    ensures
        filter_rule(name@, index as nat, position as nat, direction, rule@) == (match r {
            Some(rule) => Some(rule@),
            None => None,
        }),
{
    let groups: Vec<PortGroup> = port_groups(&rule.ports);
    assert(groups@.map_values(|g: PortGroup| g@).len() == groups@.len());
    if rule.ports.len() > 0 && groups.len() == 0 {
        return None;
    }
    let source_ips: Vec<Network> = rule.source_ips.clone();
    let dest_ips: Vec<Network> = rule.destination_ips.clone();
    assert(source_ips@ =~= rule.source_ips@);
    assert(dest_ips@ =~= rule.destination_ips@);
    let action: RuleAction = match rule.action {
        RbacAction::Allow => RuleAction::Allow,
        RbacAction::Deny => RuleAction::Deny,
    };
    Some(
        FirewallRule {
            name: joined(
                joined(name, "/rule-").as_str(),
                decimal_text(index).as_str(),
            ),
            action,
            direction,
            priority: convert_position(position),
            clauses: single_clause(FirewallMatch { source_ips, dest_ips, port_groups: groups }),
        },
    )
}

/// Appends the filter rules for the rules of one policy.
fn push_policy_rules(
    rules: &mut Vec<FirewallRule>,
    name: &str,
    offset: usize,
    Ghost(exact): Ghost<nat>,
    direction: Direction,
    body: &RuleSet,
)
    requires
        offset == wrapped(exact),
    ensures
        rules_seen(final(rules)@) == rules_seen(old(rules)@) + policy_filter_rules(
            name@,
            exact,
            direction,
            body@,
        ),
{
    let ghost before = rules_seen(rules@);
    let mut i: usize = 0;
    assert(body@.take(0) =~= Seq::<RuleView>::empty());
    assert(rules_seen(rules@) =~= before + policy_filter_rules(
        name@,
        exact,
        direction,
        body@.take(0),
    ));
    while i < body.rules.len()
        invariant
            i <= body.rules@.len(),
            body@.len() == body.rules@.len(),
            offset == wrapped(exact),
            rules_seen(rules@) == before + policy_filter_rules(
                name@,
                exact,
                direction,
                body@.take(i as int),
            ),
        decreases body.rules.len() - i,
    {
        proof {
            assert(body@.take(i + 1).drop_last() =~= body@.take(i as int));
            assert(body@.take(i + 1).last() == body.rules@[i as int]@);
            wrapping_keeps_priorities(exact + i as nat);
        }
        let position: usize = count_on(offset, i, Ghost(exact));
        if let Some(rule) = convert_rule(name, i, position, direction, &body.rules[i]) {
            let ghost seen = rules@;
            rules.push(rule);
            assert(rules_seen(rules@) =~= rules_seen(seen).push(rule@));
            assert(rules_seen(rules@) =~= before + policy_filter_rules(
                name@,
                exact,
                direction,
                body@.take(i + 1),
            ));
        }
        i = i + 1;
    }
    assert(body@.take(i as int) =~= body@);
}

/// The rule behind all others of a direction.
fn make_default_rule(name: String, direction: Direction) -> (r: FirewallRule)
    ensures
        r@ == default_rule(name@, direction),
{
    let mut groups: Vec<PortGroup> = Vec::new();
    let group: PortGroup = PortGroup { protocol: FirewallProtocol::NonTcp, ports: Vec::new() };
    groups.push(group);
    let alternative: FirewallMatch = FirewallMatch {
        source_ips: Vec::new(),
        dest_ips: Vec::new(),
        port_groups: groups,
    };
    proof {
        assert(group@.ports =~= Seq::<PortRange>::empty());
        assert(groups@.map_values(|g: PortGroup| g@) =~= seq![group@]);
        assert(alternative@.source_ips =~= Seq::<Network>::empty());
        assert(alternative@.dest_ips =~= Seq::<Network>::empty());
    }
    FirewallRule {
        name,
        action: RuleAction::Deny,
        direction,
        priority: i32::MAX,
        clauses: single_clause(alternative),
    }
}

/// The policies before the first missing one are those up to a missing one, or all of them.
proof fn known_count_found(policies: Seq<NamedView>, n: int)
    requires
        0 <= n <= policies.len(),
        forall|i: int| 0 <= i < n ==> (#[trigger] policies[i]).1 is Some,
        n < policies.len() ==> policies[n].1 is None,
    ensures
        known_count(policies) == n,
    decreases policies.len(),
{
    if policies.len() > 0 {
        let front = policies.drop_last();
        assert(forall|i: int| 0 <= i < front.len() ==> front[i] == policies[i]);
        if n == policies.len() {
            known_count_found(front, n - 1);
            assert(policies[n - 1].1 is Some);
        } else {
            known_count_found(front, n);
        }
    }
}

/// The known policies are those before the first missing body: all of them are known, and the
/// next one, if there is one, is not.
pub proof fn known_count_bounds(policies: Seq<NamedView>)
    ensures
        known_count(policies) <= policies.len(),
        forall|i: int| 0 <= i < known_count(policies) ==> (#[trigger] policies[i]).1 is Some,
        known_count(policies) < policies.len() ==> policies[known_count(policies) as int].1 is None,
    decreases policies.len(),
{
    if policies.len() > 0 {
        let front = policies.drop_last();
        known_count_bounds(front);
        assert(forall|i: int| 0 <= i < front.len() ==> front[i] == policies[i]);
    }
}

/// Appends all filter rules for a direction.
fn push_direction_rules(
    rules: &mut Vec<FirewallRule>,
    policies: &[NamedPolicy<'_>],
    direction: Direction,
)
    ensures
        rules_seen(final(rules)@) == rules_seen(old(rules)@) + direction_filter_rules(
            policies_view(policies@),
            direction,
        ),
{
    let ghost view = policies_view(policies@);
    let ghost before = rules_seen(rules@);
    let mut configured: bool = false;
    let mut default_deny_name: String = "DEFAULT-DENY".to_owned();
    let mut missing: bool = false;
    let mut offset: usize = 0;
    let mut i: usize = 0;
    proof {
        assert(view.take(0) =~= Seq::<NamedView>::empty());
        assert(rules_seen(rules@) =~= before + chain_filter_rules(view.take(0), direction));
    }
    while i < policies.len() && !missing
        invariant
            i <= policies@.len(),
            view == policies_view(policies@),
            forall|j: int| 0 <= j < i ==> (#[trigger] view[j]).1 is Some,
            missing ==> i < policies@.len() && view[i as int].1 is None && configured
                && default_deny_name@ == view[i as int].0 + "/policy-unavailable"@,
            !missing ==> default_deny_name@ == "DEFAULT-DENY"@,
            !missing ==> configured == exists|j: int|
                0 <= j < i && entry_configures(#[trigger] view[j], direction),
            offset == wrapped(rule_count(view.take(i as int), direction)),
            rules_seen(rules@) == before + chain_filter_rules(view.take(i as int), direction),
        decreases
            policies.len() - i,
            (if missing {
                0int
            } else {
                1int
            }),
    {
        assert(view[i as int] == named_view(policies@[i as int]));
        let (name, policy) = policies[i];
        match policy {
            None => {
                // Unknown directions cannot safely fall through to later policies.
                configured = true;
                default_deny_name = joined(name, "/policy-unavailable");
                missing = true;
            },
            Some(policy) => {
                proof {
                    assert(view.take(i + 1).drop_last() =~= view.take(i as int));
                }
                let body: &Option<RuleSet> = match direction {
                    Direction::Inbound => &policy.ingress,
                    Direction::Outbound => &policy.egress,
                };
                if let Some(body) = body {
                    configured = true;
                    assert(entry_configures(view[i as int], direction));
                    assert(body@.len() == body.rules@.len());
                    let ghost exact = rule_count(view.take(i as int), direction);
                    push_policy_rules(rules, name, offset, Ghost(exact), direction, body);
                    offset = count_on(offset, body.rules.len(), Ghost(exact));
                    assert(rules_seen(rules@) =~= before + chain_filter_rules(
                        view.take(i + 1),
                        direction,
                    ));
                }
                i = i + 1;
            },
        }
    }
    proof {
        known_count_found(view, i as int);
        if !missing {
            if configured {
                let j = choose|j: int|
                    0 <= j < i && entry_configures(#[trigger] view[j], direction);
                assert(known(view)[j] == view[j]);
            }
            if configures(known(view), direction) {
                let j = choose|j: int|
                    0 <= j < known(view).len() && entry_configures(
                        #[trigger] known(view)[j],
                        direction,
                    );
                assert(known(view)[j] == view[j]);
            }
        }
    }
    if configured {
        let ghost seen = rules@;
        let rule: FirewallRule = make_default_rule(default_deny_name, direction);
        rules.push(rule);
        assert(rules_seen(rules@) =~= rules_seen(seen).push(rule@));
        assert(rules_seen(rules@) =~= before + direction_filter_rules(view, direction));
    } else {
        proof {
            no_rules_unconfigured(known(view), direction);
            assert(rules_seen(rules@) =~= before + direction_filter_rules(view, direction));
        }
    }
}

/// Policies that do not configure a direction have no filter rules for it.
proof fn no_rules_unconfigured(policies: Seq<NamedView>, direction: Direction)
    requires
        !configures(policies, direction),
    ensures
        chain_filter_rules(policies, direction).len() == 0,
    decreases policies.len(),
{
    if policies.len() > 0 {
        let front = policies.drop_last();
        if configures(front, direction) {
            let j = choose|j: int|
                0 <= j < front.len() && entry_configures(#[trigger] front[j], direction);
            assert(entry_configures(policies[j], direction));
        }
        no_rules_unconfigured(front, direction);
        assert(!entry_configures(policies[policies.len() - 1], direction));
    }
}

/// Feed native policies into the same netfilter backends used by Workload policies.
pub fn firewall_rulesets(policies: &[NamedPolicy<'_>]) -> (r: firewall::RuleSet)
    ensures
        r@ == filter_rule_set(policies_view(policies@)),
{
    let mut rules: Vec<FirewallRule> = Vec::new();
    push_direction_rules(&mut rules, policies, Direction::Inbound);
    push_direction_rules(&mut rules, policies, Direction::Outbound);
    proof {
        assert(rules_seen(rules@) =~= filter_rule_set(policies_view(policies@)).rules);
    }
    firewall::RuleSet { rules, policy_attached: false }
}

/// The filter and the TCP evaluation agree on which directions are restricted: a direction has
/// filter rules exactly where no TCP connection in it goes unmatched.
pub proof fn filter_agrees_with_tcp(policies: Seq<NamedView>, conn: Connection)
    ensures
        direction_filtered(policies, conn.direction) <==> tcp_decision(policies, conn) != Ok::<
            RbacDecision,
            Denial,
        >(RbacDecision::NoMatch),
        direction_filter_rules(policies, conn.direction).len() > 0 <==> tcp_decision(policies, conn)
            != Ok::<RbacDecision, Denial>(RbacDecision::NoMatch),
{
    no_match_means_unconfigured(policies, conn);
    known_count_bounds(policies);
    if known_count(policies) == policies.len() {
        assert(known(policies) =~= policies);
    }
}

/// A direction that is filtered ends in a rule that denies all but TCP, behind every other
/// priority; one that is not has no rule at all.
pub proof fn filtered_directions_deny_by_default(policies: Seq<NamedView>, direction: Direction)
    ensures
        direction_filtered(policies, direction) ==> {
            let rules = direction_filter_rules(policies, direction);
            &&& rules.len() > 0
            &&& rules.last() == default_rule(default_rule_name(policies), direction)
            &&& rules.last().action == RuleAction::Deny
            &&& rules.last().priority == i32::MAX
        },
        !direction_filtered(policies, direction) ==> direction_filter_rules(
            policies,
            direction,
        ).len() == 0,
{
}

/// Policies behind a missing one have no say: the result is that of the list cut off after it.
pub proof fn policies_behind_a_missing_one_are_ignored(policies: Seq<NamedView>, n: int)
    requires
        0 <= n < policies.len(),
        policies[n].1 is None,
    ensures
        filter_rule_set(policies) == filter_rule_set(policies.take(n + 1)),
{
    let cut = policies.take(n + 1);
    known_count_bounds(policies);
    known_count_bounds(cut);
    let k = known_count(policies) as int;
    assert(k <= n) by {
        if n < k {
            assert(policies[n].1 is Some);
        }
    }
    assert(forall|i: int| 0 <= i < cut.len() ==> cut[i] == policies[i]);
    known_count_found(cut, k);
    assert(known(cut) =~= known(policies));
}

/// The groups of a list of port matches are missing exactly where every match is for TCP.
pub proof fn no_groups_means_all_tcp(ports: Seq<PortMatch>)
    ensures
        filter_groups(ports).len() == 0 <==> forall|i: int|
            0 <= i < ports.len() ==> (#[trigger] ports[i]).protocol == Protocol::Tcp,
    decreases ports.len(),
{
    if ports.len() > 0 {
        let front = ports.drop_last();
        no_groups_means_all_tcp(front);
        assert(forall|i: int| 0 <= i < front.len() ==> front[i] == ports[i]);
        assert(ports[ports.len() - 1] == ports.last());
        if forall|i: int| 0 <= i < front.len() ==> (#[trigger] front[i]).protocol == Protocol::Tcp {
            assert forall|i: int| 0 <= i < front.len() implies (#[trigger] ports[i]).protocol
                == Protocol::Tcp by {
                assert(front[i].protocol == Protocol::Tcp);
            }
        } else {
            let i = choose|i: int|
                0 <= i < front.len() && (#[trigger] front[i]).protocol != Protocol::Tcp;
            assert(ports[i].protocol != Protocol::Tcp);
        }
    }
}

/// Exactly the rules on TCP ports alone have no filter rule.
pub proof fn tcp_rules_are_not_filtered(
    name: Seq<char>,
    index: nat,
    position: nat,
    direction: Direction,
    rule: RuleView,
)
    ensures
        filter_rule(name, index, position, direction, rule) is None <==> rule.ports.len() > 0
            && forall|i: int|
            0 <= i < rule.ports.len() ==> (#[trigger] rule.ports[i]).protocol == Protocol::Tcp,
{
    no_groups_means_all_tcp(rule.ports);
}

/// Whether rules are of one direction, and their priorities rise from `low` on and stay
/// below `high`.
pub open spec fn in_order(
    rules: Seq<FirewallRuleView>,
    direction: Direction,
    low: int,
    high: int,
) -> bool {
    &&& forall|i: int|
        0 <= i < rules.len() ==> (#[trigger] rules[i]).direction == direction && low
            <= rules[i].priority < high
    &&& forall|i: int, j: int|
        0 <= i < j < rules.len() ==> (#[trigger] rules[i]).priority < (
        #[trigger] rules[j]).priority
}

/// The filter rules of one policy stand in the order of its rules.
proof fn policy_rules_in_order(
    name: Seq<char>,
    offset: nat,
    direction: Direction,
    rules: Seq<RuleView>,
)
    requires
        offset + rules.len() <= i32::MAX,
    ensures
        in_order(
            policy_filter_rules(name, offset, direction, rules),
            direction,
            offset as int,
            (offset + rules.len()) as int,
        ),
    decreases rules.len(),
{
    if rules.len() > 0 {
        policy_rules_in_order(name, offset, direction, rules.drop_last());
    }
}

/// The filter rules of several policies stand in the order of the policies.
proof fn chain_rules_in_order(policies: Seq<NamedView>, direction: Direction)
    requires
        rule_count(policies, direction) <= i32::MAX,
    ensures
        in_order(
            chain_filter_rules(policies, direction),
            direction,
            0,
            rule_count(policies, direction) as int,
        ),
    decreases policies.len(),
{
    if policies.len() > 0 {
        let front = policies.drop_last();
        chain_rules_in_order(front, direction);
        if entry_configures(policies.last(), direction) {
            let rules = policies.last().1->0.rules(direction)->0;
            policy_rules_in_order(
                policies.last().0,
                rule_count(front, direction),
                direction,
                rules,
            );
        }
    }
}

/// Sorting a direction's filter rules by priority keeps the control plane's order: priorities
/// rise strictly from rule to rule, the default rule last. This holds while there are no more
/// rules than an `i32` can number.
pub proof fn priorities_keep_the_order(policies: Seq<NamedView>, direction: Direction)
    requires
        rule_count(known(policies), direction) <= i32::MAX,
    ensures
        in_order(direction_filter_rules(policies, direction), direction, 0, i32::MAX + 1),
{
    if direction_filtered(policies, direction) {
        chain_rules_in_order(known(policies), direction);
    }
}

} // verus!
