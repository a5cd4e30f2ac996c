//! What policies and filter rules say of packets that are not TCP, and that they say the same.

use crate::firewall::{FirewallMatchView, FirewallProtocol, FirewallRuleView, RuleAction};
use crate::net::{IpAddress, Network};
use crate::proto::Protocol;
use crate::rbac::{Direction, RbacAction};
use crate::text::decimal;
use crate::traffic_policy::filter::{
    chain_filter_rules, direction_filter_rules, filter_groups, filter_rule, filter_rule_set, known,
    known_count, known_count_bounds, policy_filter_rules, priority_of, rule_count,
};
use crate::traffic_policy::{NamedView, PolicyView, PortMatch, RuleView};
use vstd::prelude::*;

verus! {

/// What a packet that is not TCP carries.
pub enum Carried {
    Udp,
    Icmp,
    Sctp,
    /// Anything else.
    Other,
}

/// What policies and filter rules look at in a packet.
pub struct Packet {
    pub src: IpAddress,
    pub dst: IpAddress,
    pub carried: Carried,
    pub port: u16,
}

/// Whether an address is let through by networks: all are where there are none.
pub open spec fn let_through(networks: Seq<Network>, ip: IpAddress) -> bool {
    networks.len() > 0 ==> exists|i: int|
        0 <= i < networks.len() && (#[trigger] networks[i]).holds(ip)
}

/// Whether a port match is about a packet: its protocol is the packet's or stands for all, and its
/// range, if it has one, holds the packet's port.
pub open spec fn port_match_is_about(m: PortMatch, packet: Packet) -> bool {
    &&& match m.protocol {
        Protocol::All => true,
        Protocol::Tcp => false,
        Protocol::Udp => packet.carried is Udp,
        Protocol::Icmp => packet.carried is Icmp,
        Protocol::Sctp => packet.carried is Sctp,
    }
    &&& m.range matches Some(range) ==> range.start <= packet.port <= range.end
}

/// Whether a rule of a policy is about a packet.
pub open spec fn rule_is_about(rule: RuleView, packet: Packet) -> bool {
    &&& let_through(rule.source_ips, packet.src)
    &&& let_through(rule.destination_ips, packet.dst)
    &&& rule.ports.len() > 0 ==> exists|i: int|
        0 <= i < rule.ports.len() && port_match_is_about(#[trigger] rule.ports[i], packet)
}

/// Whether a port group of a filter rule is about a packet.
pub open spec fn group_is_about(
    group: crate::firewall::PortGroupView,
    packet: Packet,
) -> bool {
    &&& match group.protocol {
        FirewallProtocol::NonTcp => true,
        FirewallProtocol::Udp => packet.carried is Udp,
        FirewallProtocol::Icmp => packet.carried is Icmp,
        FirewallProtocol::Sctp => packet.carried is Sctp,
    }
    &&& group.ports.len() > 0 ==> exists|i: int|
        0 <= i < group.ports.len() && (#[trigger] group.ports[i]).start <= packet.port
            <= group.ports[i].end
}

/// Whether one alternative of a filter rule is about a packet.
pub open spec fn alternative_is_about(m: FirewallMatchView, packet: Packet) -> bool {
    &&& let_through(m.source_ips, packet.src)
    &&& let_through(m.dest_ips, packet.dst)
    &&& m.port_groups.len() > 0 ==> exists|i: int|
        0 <= i < m.port_groups.len() && group_is_about(#[trigger] m.port_groups[i], packet)
}

/// Whether a filter rule is about a packet: every clause has an alternative that is.
pub open spec fn filter_is_about(rule: FirewallRuleView, packet: Packet) -> bool {
    forall|c: int|
        0 <= c < rule.clauses.len() ==> exists|a: int|
            0 <= a < (#[trigger] rule.clauses[c]).len() && alternative_is_about(
                #[trigger] rule.clauses[c][a],
                packet,
            )
}

/// The first of several filter rules that is about a packet.
pub open spec fn first_about(rules: Seq<FirewallRuleView>, packet: Packet) -> Option<
    FirewallRuleView,
>
    decreases rules.len(),
{
    if rules.len() == 0 {
        None
    } else {
        match first_about(rules.drop_last(), packet) {
            Some(rule) => Some(rule),
            None => if filter_is_about(rules.last(), packet) {
                Some(rules.last())
            } else {
                None
            },
        }
    }
}

/// The rules that a policy has for a direction.
pub open spec fn body_for(policy: PolicyView, direction: Direction) -> Option<Seq<RuleView>> {
    if direction == Direction::Inbound {
        policy.ingress
    } else {
        policy.egress
    }
}

/// Whether an entry leaves a packet to those behind it: its body is known, and none of its rules
/// for the direction is about the packet.
pub open spec fn leaves_packet(entry: NamedView, direction: Direction, packet: Packet) -> bool {
    &&& entry.1 is Some
    &&& body_for(entry.1->0, direction) matches Some(rules) ==> forall|j: int|
        0 <= j < rules.len() ==> !rule_is_about(#[trigger] rules[j], packet)
}

/// The groups of port matches are about the packets that the matches are about.
proof fn groups_are_about_the_same(ports: Seq<PortMatch>, packet: Packet)
    ensures
        (exists|g: int|
            0 <= g < filter_groups(ports).len() && group_is_about(
                #[trigger] filter_groups(ports)[g],
                packet,
            )) <==> exists|i: int|
            0 <= i < ports.len() && port_match_is_about(#[trigger] ports[i], packet),
    decreases ports.len(),
{
    if ports.len() > 0 {
        let front = ports.drop_last();
        let last = ports.last();
        let groups = filter_groups(ports);
        let before = filter_groups(front);
        groups_are_about_the_same(front, packet);
        assert(ports[ports.len() - 1] == last);
        assert(forall|i: int| 0 <= i < front.len() ==> front[i] == ports[i]);
        assert(forall|g: int| 0 <= g < before.len() ==> before[g] == groups[g]);
        if last.protocol != Protocol::Tcp {
            let added = groups[before.len() as int];
            if let Some(range) = last.range {
                assert(added.ports[0] == range);
            }
            assert(group_is_about(added, packet) <==> port_match_is_about(last, packet));
        }
        if exists|g: int| 0 <= g < groups.len() && group_is_about(#[trigger] groups[g], packet) {
            let g = choose|g: int|
                0 <= g < groups.len() && group_is_about(#[trigger] groups[g], packet);
            if g < before.len() {
                assert(group_is_about(before[g], packet));
                let i = choose|i: int|
                    0 <= i < front.len() && port_match_is_about(#[trigger] front[i], packet);
                assert(port_match_is_about(ports[i], packet));
            } else {
                assert(port_match_is_about(ports[ports.len() - 1], packet));
            }
        }
        if exists|i: int| 0 <= i < ports.len() && port_match_is_about(#[trigger] ports[i], packet) {
            let i = choose|i: int|
                0 <= i < ports.len() && port_match_is_about(#[trigger] ports[i], packet);
            if i < front.len() {
                assert(port_match_is_about(front[i], packet));
                let g = choose|g: int|
                    0 <= g < before.len() && group_is_about(#[trigger] before[g], packet);
                assert(group_is_about(groups[g], packet));
            } else {
                assert(group_is_about(groups[before.len() as int], packet));
            }
        }
    }
}

/// The filter rule of a policy's rule is about exactly the packets that the rule is about; where
/// there is none, the rule is about no packet that is not TCP.
pub proof fn filter_rules_are_about_the_same_packets(
    name: Seq<char>,
    index: nat,
    position: nat,
    direction: Direction,
    rule: RuleView,
    packet: Packet,
)
    ensures
        match filter_rule(name, index, position, direction, rule) {
            Some(f) => filter_is_about(f, packet) <==> rule_is_about(rule, packet),
            None => !rule_is_about(rule, packet),
        },
{
    groups_are_about_the_same(rule.ports, packet);
    let groups = filter_groups(rule.ports);
    if let Some(f) = filter_rule(name, index, position, direction, rule) {
        let m = f.clauses[0][0];
        assert(f.clauses.len() == 1 && f.clauses[0].len() == 1);
        assert(m.port_groups == groups);
        if rule_is_about(rule, packet) {
            assert(alternative_is_about(m, packet));
            assert forall|c: int| 0 <= c < f.clauses.len() implies exists|a: int|
                0 <= a < (#[trigger] f.clauses[c]).len() && alternative_is_about(
                    #[trigger] f.clauses[c][a],
                    packet,
                ) by {
                assert(alternative_is_about(f.clauses[c][0], packet));
            }
        }
        if filter_is_about(f, packet) {
            let a = choose|a: int|
                0 <= a < f.clauses[0].len() && alternative_is_about(
                    #[trigger] f.clauses[0][a],
                    packet,
                );
            assert(a == 0);
            if rule.ports.len() > 0 {
                assert(groups.len() > 0);
            }
        }
    }
}

/// A filter rule carries its rule's networks, sources as sources and destinations as destinations
/// in either direction, its action, its number under its policy's name, and its place as its
/// priority, as far as an `i32` can number it.
pub proof fn filter_rules_carry_their_rule(
    name: Seq<char>,
    index: nat,
    position: nat,
    direction: Direction,
    rule: RuleView,
)
    ensures
        filter_rule(name, index, position, direction, rule) matches Some(f) ==> {
            &&& f.clauses.len() == 1
            &&& f.clauses[0].len() == 1
            &&& f.clauses[0][0].source_ips == rule.source_ips
            &&& f.clauses[0][0].dest_ips == rule.destination_ips
            &&& f.clauses[0][0].port_groups.len() <= rule.ports.len()
            &&& f.action == RuleAction::Allow <==> rule.action == RbacAction::Allow
            &&& f.direction == direction
            &&& f.name == name + "/rule-"@ + decimal(index)
            &&& position <= i32::MAX ==> f.priority == position
        },
{
    groups_are_no_more_than_matches(rule.ports);
}

/// There are no more groups than port matches.
proof fn groups_are_no_more_than_matches(ports: Seq<PortMatch>)
    ensures
        filter_groups(ports).len() <= ports.len(),
    decreases ports.len(),
{
    if ports.len() > 0 {
        groups_are_no_more_than_matches(ports.drop_last());
    }
}

/// A priority is its rule's place, but for multiples of what 32 bits can count.
pub proof fn priorities_are_places(position: nat)
    ensures
        (position - priority_of(position)) % 0x1_0000_0000 == 0,
        position <= i32::MAX ==> priority_of(position) == position,
{
    let low = position % 0x1_0000_0000;
    assert(position == 0x1_0000_0000 * (position / 0x1_0000_0000) + low);
}

/// A rule that has no filter rule is one on TCP ports alone.
pub proof fn only_tcp_rules_are_left_out(
    name: Seq<char>,
    index: nat,
    position: nat,
    direction: Direction,
    rule: RuleView,
)
    ensures
        filter_rule(name, index, position, direction, rule) is None <==> {
            &&& rule.ports.len() > 0
            &&& forall|i: int|
                0 <= i < rule.ports.len() ==> (#[trigger] rule.ports[i]).protocol == Protocol::Tcp
        },
{
    crate::traffic_policy::filter::no_groups_means_all_tcp(rule.ports);
}

/// Of two lists behind each other, the first decides where it has a rule about the packet.
proof fn first_about_of_both(
    a: Seq<FirewallRuleView>,
    b: Seq<FirewallRuleView>,
    packet: Packet,
)
    ensures
        first_about(a + b, packet) == (match first_about(a, packet) {
            Some(rule) => Some(rule),
            None => first_about(b, packet),
        }),
    decreases b.len(),
{
    if b.len() == 0 {
        assert(a + b =~= a);
    } else {
        first_about_of_both(a, b.drop_last(), packet);
        assert((a + b).drop_last() =~= a + b.drop_last());
        assert((a + b).last() == b.last());
    }
}

/// The filter rules of rules that are not about a packet are not about it either.
proof fn silent_rules_have_silent_filters(
    name: Seq<char>,
    offset: nat,
    direction: Direction,
    rules: Seq<RuleView>,
    packet: Packet,
)
    requires
        forall|j: int| 0 <= j < rules.len() ==> !rule_is_about(#[trigger] rules[j], packet),
    ensures
        first_about(policy_filter_rules(name, offset, direction, rules), packet) is None,
    decreases rules.len(),
{
    if rules.len() > 0 {
        let front = rules.drop_last();
        assert forall|j: int| 0 <= j < front.len() implies !rule_is_about(#[trigger] front[j], packet) by {
            assert(front[j] == rules[j]);
        }
        silent_rules_have_silent_filters(name, offset, direction, front, packet);
        let index = (rules.len() - 1) as nat;
        assert(!rule_is_about(rules[index as int], packet));
        filter_rules_are_about_the_same_packets(
            name,
            index,
            offset + index,
            direction,
            rules.last(),
            packet,
        );
        if let Some(f) = filter_rule(name, index, offset + index, direction, rules.last()) {
            let before = policy_filter_rules(name, offset, direction, front);
            assert(before.push(f).drop_last() =~= before);
        }
    }
}

/// The filter rule of the first rule that is about a packet is the first that is about it.
proof fn first_rules_have_first_filters(
    name: Seq<char>,
    offset: nat,
    direction: Direction,
    rules: Seq<RuleView>,
    j: int,
    packet: Packet,
)
    requires
        0 <= j < rules.len(),
        rule_is_about(rules[j], packet),
        forall|k: int| 0 <= k < j ==> !rule_is_about(#[trigger] rules[k], packet),
    ensures
        filter_rule(name, j as nat, offset + j as nat, direction, rules[j]) is Some,
        first_about(policy_filter_rules(name, offset, direction, rules), packet) == filter_rule(
            name,
            j as nat,
            offset + j as nat,
            direction,
            rules[j],
        ),
    decreases rules.len(),
{
    let front = rules.drop_last();
    let index = (rules.len() - 1) as nat;
    let before = policy_filter_rules(name, offset, direction, front);
    filter_rules_are_about_the_same_packets(
        name,
        j as nat,
        offset + j as nat,
        direction,
        rules[j],
        packet,
    );
    assert forall|k: int| 0 <= k < j && k < front.len() implies !rule_is_about(
        #[trigger] front[k],
        packet,
    ) by {
        assert(front[k] == rules[k]);
    }
    if j == index {
        silent_rules_have_silent_filters(name, offset, direction, front, packet);
    } else {
        assert(front[j] == rules[j]);
        first_rules_have_first_filters(name, offset, direction, front, j, packet);
    }
    if let Some(f) = filter_rule(name, index, offset + index, direction, rules.last()) {
        assert(before.push(f).drop_last() =~= before);
    }
}

/// The filter rules of policies that all leave a packet are not about it.
proof fn silent_policies_have_silent_filters(
    policies: Seq<NamedView>,
    direction: Direction,
    packet: Packet,
)
    requires
        forall|k: int|
            0 <= k < policies.len() ==> leaves_packet(#[trigger] policies[k], direction, packet),
    ensures
        first_about(chain_filter_rules(policies, direction), packet) is None,
    decreases policies.len(),
{
    if policies.len() > 0 {
        let front = policies.drop_last();
        assert forall|k: int| 0 <= k < front.len() implies leaves_packet(
            #[trigger] front[k],
            direction,
            packet,
        ) by {
            assert(front[k] == policies[k]);
        }
        silent_policies_have_silent_filters(front, direction, packet);
        let last = policies[policies.len() - 1];
        assert(leaves_packet(last, direction, packet));
        if let Some(body) = body_for(last.1->0, direction) {
            let offset = rule_count(front, direction);
            silent_rules_have_silent_filters(last.0, offset, direction, body, packet);
            first_about_of_both(
                chain_filter_rules(front, direction),
                policy_filter_rules(last.0, offset, direction, body),
                packet,
            );
        }
    }
}

/// The filter rule of the first rule about a packet comes before every other about it.
proof fn first_policies_have_first_filters(
    policies: Seq<NamedView>,
    i: int,
    j: int,
    direction: Direction,
    packet: Packet,
)
    requires
        0 <= i < policies.len(),
        forall|k: int| 0 <= k < i ==> leaves_packet(#[trigger] policies[k], direction, packet),
        policies[i].1 is Some,
        body_for(policies[i].1->0, direction) matches Some(rules) && {
            &&& 0 <= j < rules.len()
            &&& rule_is_about(rules[j], packet)
            &&& forall|k: int| 0 <= k < j ==> !rule_is_about(#[trigger] rules[k], packet)
        },
    ensures
        ({
            let rules = body_for(policies[i].1->0, direction)->0;
            let position = rule_count(policies.take(i), direction) + j as nat;
            let f = filter_rule(policies[i].0, j as nat, position, direction, rules[j]);
            &&& f is Some
            &&& first_about(chain_filter_rules(policies, direction), packet) == f
        }),
    decreases policies.len(),
{
    let front = policies.drop_last();
    let last = policies[policies.len() - 1];
    let offset = rule_count(front, direction);
    let before = chain_filter_rules(front, direction);
    assert forall|k: int| 0 <= k < i && k < front.len() implies leaves_packet(
        #[trigger] front[k],
        direction,
        packet,
    ) by {
        assert(front[k] == policies[k]);
    }
    if i == policies.len() - 1 {
        assert(policies.take(i) =~= front);
        silent_policies_have_silent_filters(front, direction, packet);
        let body = body_for(last.1->0, direction)->0;
        first_rules_have_first_filters(last.0, offset, direction, body, j, packet);
        first_about_of_both(
            before,
            policy_filter_rules(last.0, offset, direction, body),
            packet,
        );
    } else {
        assert(front[i] == policies[i]);
        assert(front.take(i) =~= policies.take(i));
        first_policies_have_first_filters(front, i, j, direction, packet);
        if last.1 is Some {
            if let Some(body) = body_for(last.1->0, direction) {
                first_about_of_both(
                    before,
                    policy_filter_rules(last.0, offset, direction, body),
                    packet,
                );
            }
        }
    }
}

/// Whether the first `n` of several policies are the known ones.
proof fn known_policies_come_first(policies: Seq<NamedView>, n: int)
    requires
        0 <= n <= policies.len(),
        forall|k: int| 0 <= k < n ==> (#[trigger] policies[k]).1 is Some,
    ensures
        known_count(policies) >= n,
        known(policies).len() == known_count(policies),
        forall|k: int| 0 <= k < known_count(policies) ==> #[trigger] known(policies)[k] == policies[k],
{
    known_count_bounds(policies);
    if known_count(policies) < n {
        assert(policies[known_count(policies) as int].1 is Some);
    }
}

/// The packet filter does with a packet what the first rule about it says: where all policies
/// before leave the packet, and so do the rules before in its own policy, the first filter rule
/// about the packet has that rule's action, number and place.
pub proof fn the_first_rule_about_a_packet_is_filtered_first(
    policies: Seq<NamedView>,
    i: int,
    j: int,
    direction: Direction,
    packet: Packet,
)
    requires
        0 <= i < policies.len(),
        forall|k: int| 0 <= k < i ==> leaves_packet(#[trigger] policies[k], direction, packet),
        policies[i].1 is Some,
        body_for(policies[i].1->0, direction) matches Some(rules) && {
            &&& 0 <= j < rules.len()
            &&& rule_is_about(rules[j], packet)
            &&& forall|k: int| 0 <= k < j ==> !rule_is_about(#[trigger] rules[k], packet)
        },
    ensures
        first_about(direction_filter_rules(policies, direction), packet) matches Some(f) && {
            let rule = body_for(policies[i].1->0, direction)->0[j];
            let position = rule_count(policies.take(i), direction) + j;
            &&& f.action == RuleAction::Allow <==> rule.action == RbacAction::Allow
            &&& f.direction == direction
            &&& f.name == policies[i].0 + "/rule-"@ + decimal(j as nat)
            &&& position <= i32::MAX ==> f.priority == position
        },
{
    let all = known(policies);
    assert forall|k: int| 0 <= k < i + 1 implies (#[trigger] policies[k]).1 is Some by {
        if k < i {
            assert(leaves_packet(policies[k], direction, packet));
        }
    }
    known_policies_come_first(policies, i + 1);
    assert(all[i] == policies[i]);
    assert(all.take(i) =~= policies.take(i));
    assert forall|k: int| 0 <= k < i implies leaves_packet(#[trigger] all[k], direction, packet) by {
        assert(all[k] == policies[k]);
    }
    first_policies_have_first_filters(all, i, j, direction, packet);
    let rules = body_for(policies[i].1->0, direction)->0;
    let position = rule_count(policies.take(i), direction) + j as nat;
    filter_rules_carry_their_rule(policies[i].0, j as nat, position, direction, rules[j]);
    assert(crate::traffic_policy::tcp::entry_configures(all[i], direction));
    let chain = chain_filter_rules(all, direction);
    let last = direction_filter_rules(policies, direction).last();
    assert(direction_filter_rules(policies, direction).drop_last() =~= chain);
}

/// The packet filter denies what reaches a missing policy, under its name.
pub proof fn missing_policies_deny_packets(
    policies: Seq<NamedView>,
    i: int,
    direction: Direction,
    packet: Packet,
)
    requires
        0 <= i < policies.len(),
        forall|k: int| 0 <= k < i ==> leaves_packet(#[trigger] policies[k], direction, packet),
        policies[i].1 is None,
    ensures
        first_about(direction_filter_rules(policies, direction), packet) matches Some(f) && {
            &&& f.action == RuleAction::Deny
            &&& f.direction == direction
            &&& f.name == policies[i].0 + "/policy-unavailable"@
            &&& f.priority == i32::MAX
        },
{
    let all = known(policies);
    assert forall|k: int| 0 <= k < i implies (#[trigger] policies[k]).1 is Some by {
        assert(leaves_packet(policies[k], direction, packet));
    }
    known_policies_come_first(policies, i);
    known_count_bounds(policies);
    assert(known_count(policies) == i) by {
        if known_count(policies) > i {
            assert(policies[i].1 is Some);
        }
    }
    assert forall|k: int| 0 <= k < all.len() implies leaves_packet(
        #[trigger] all[k],
        direction,
        packet,
    ) by {
        assert(all[k] == policies[k]);
    }
    silent_policies_have_silent_filters(all, direction, packet);
    default_ends_the_filter(policies, direction, packet);
}

/// A packet that all policies leave is denied by default where one of them has rules for the
/// direction; else nothing is filtered in it.
pub proof fn unmatched_packets_are_denied_where_configured(
    policies: Seq<NamedView>,
    direction: Direction,
    packet: Packet,
)
    requires
        forall|k: int|
            0 <= k < policies.len() ==> leaves_packet(#[trigger] policies[k], direction, packet),
    ensures
        if exists|k: int|
            0 <= k < policies.len() && body_for((#[trigger] policies[k]).1->0, direction) is Some {
            first_about(direction_filter_rules(policies, direction), packet) matches Some(f) && {
                &&& f.action == RuleAction::Deny
                &&& f.direction == direction
                &&& f.name == "DEFAULT-DENY"@
                &&& f.priority == i32::MAX
            }
        } else {
            direction_filter_rules(policies, direction).len() == 0
        },
{
    let all = known(policies);
    assert forall|k: int| 0 <= k < policies.len() implies (#[trigger] policies[k]).1 is Some by {
        assert(leaves_packet(policies[k], direction, packet));
    }
    known_policies_come_first(policies, policies.len() as int);
    known_count_bounds(policies);
    assert(all =~= policies);
    silent_policies_have_silent_filters(all, direction, packet);
    if exists|k: int|
        0 <= k < policies.len() && body_for((#[trigger] policies[k]).1->0, direction) is Some {
        let k = choose|k: int|
            0 <= k < policies.len() && body_for((#[trigger] policies[k]).1->0, direction) is Some;
        assert(crate::traffic_policy::tcp::entry_configures(policies[k], direction));
        default_ends_the_filter(policies, direction, packet);
    } else if crate::traffic_policy::tcp::configures(policies, direction) {
        let k = choose|k: int|
            0 <= k < policies.len() && crate::traffic_policy::tcp::entry_configures(
                #[trigger] policies[k],
                direction,
            );
        assert(body_for(policies[k].1->0, direction) is Some);
    }
}

/// The rule at the end of a filtered direction is about every packet.
proof fn default_ends_the_filter(policies: Seq<NamedView>, direction: Direction, packet: Packet)
    requires
        crate::traffic_policy::filter::direction_filtered(policies, direction),
        first_about(chain_filter_rules(known(policies), direction), packet) is None,
    ensures
        first_about(direction_filter_rules(policies, direction), packet) == Some(
            crate::traffic_policy::filter::default_rule(
                crate::traffic_policy::filter::default_rule_name(policies),
                direction,
            ),
        ),
{
    let rules = direction_filter_rules(policies, direction);
    let last = rules.last();
    assert(rules.drop_last() =~= chain_filter_rules(known(policies), direction));
    let m = last.clauses[0][0];
    assert(m.port_groups.len() == 1);
    assert(group_is_about(m.port_groups[0], packet));
    assert(alternative_is_about(m, packet));
    assert forall|c: int| 0 <= c < last.clauses.len() implies exists|a: int|
        0 <= a < (#[trigger] last.clauses[c]).len() && alternative_is_about(
            #[trigger] last.clauses[c][a],
            packet,
        ) by {
        assert(alternative_is_about(last.clauses[c][0], packet));
    }
}

/// The number of rules that policies have for a direction grows with each policy by as many as it
/// has.
pub proof fn rules_are_counted(policies: Seq<NamedView>, entry: NamedView, direction: Direction)
    ensures
        rule_count(Seq::empty(), direction) == 0,
        rule_count(policies.push(entry), direction) == rule_count(policies, direction) + (
        match entry.1 {
            Some(policy) => match body_for(policy, direction) {
                Some(rules) => rules.len(),
                None => 0,
            },
            None => 0,
        }),
{
    assert(policies.push(entry).drop_last() =~= policies);
}

/// Every filter rule of one direction is of that direction.
proof fn policy_filters_are_of_their_direction(
    name: Seq<char>,
    offset: nat,
    direction: Direction,
    rules: Seq<RuleView>,
)
    ensures
        forall|r: int|
            0 <= r < policy_filter_rules(name, offset, direction, rules).len() ==> (
            #[trigger] policy_filter_rules(name, offset, direction, rules)[r]).direction
                == direction,
    decreases rules.len(),
{
    if rules.len() > 0 {
        policy_filters_are_of_their_direction(name, offset, direction, rules.drop_last());
    }
}

/// Every filter rule of policies for one direction is of that direction.
proof fn chain_filters_are_of_their_direction(policies: Seq<NamedView>, direction: Direction)
    ensures
        forall|r: int|
            0 <= r < chain_filter_rules(policies, direction).len() ==> (
            #[trigger] chain_filter_rules(policies, direction)[r]).direction == direction,
    decreases policies.len(),
{
    if policies.len() > 0 {
        let front = policies.drop_last();
        chain_filters_are_of_their_direction(front, direction);
        let last = policies.last();
        if last.1 is Some {
            if let Some(body) = body_for(last.1->0, direction) {
                policy_filters_are_of_their_direction(
                    last.0,
                    rule_count(front, direction),
                    direction,
                    body,
                );
            }
        }
    }
}

/// The filter rules of a list of policies are those for inbound and, behind them, those for
/// outbound, each of its direction, and nothing is attached to the whole.
pub proof fn both_directions_are_filtered(policies: Seq<NamedView>)
    ensures
        !filter_rule_set(policies).policy_attached,
        ({
            let rules = filter_rule_set(policies).rules;
            let n = direction_filter_rules(policies, Direction::Inbound).len() as int;
            &&& n <= rules.len()
            &&& rules.take(n) == direction_filter_rules(policies, Direction::Inbound)
            &&& rules.skip(n) == direction_filter_rules(policies, Direction::Outbound)
            &&& forall|r: int|
                0 <= r < rules.len() ==> (#[trigger] rules[r]).direction == (if r < n {
                    Direction::Inbound
                } else {
                    Direction::Outbound
                })
        }),
{
    let rules = filter_rule_set(policies).rules;
    let inbound = direction_filter_rules(policies, Direction::Inbound);
    let outbound = direction_filter_rules(policies, Direction::Outbound);
    chain_filters_are_of_their_direction(known(policies), Direction::Inbound);
    chain_filters_are_of_their_direction(known(policies), Direction::Outbound);
    assert(rules.take(inbound.len() as int) =~= inbound);
    assert(rules.skip(inbound.len() as int) =~= outbound);
    assert forall|r: int| 0 <= r < rules.len() implies (#[trigger] rules[r]).direction == (if r
        < inbound.len() {
        Direction::Inbound
    } else {
        Direction::Outbound
    }) by {
        if r < inbound.len() {
            assert(rules[r] == inbound[r]);
        } else {
            assert(rules[r] == outbound[r - inbound.len()]);
        }
    }
}

/// Whether a filter rule is that of rule `j` of policy `i`.
pub open spec fn stems_from(
    f: FirewallRuleView,
    policies: Seq<NamedView>,
    i: int,
    j: int,
    direction: Direction,
) -> bool {
    &&& 0 <= i < policies.len()
    &&& policies[i].1 is Some
    &&& body_for(policies[i].1->0, direction) matches Some(rules) && 0 <= j < rules.len() && {
        let position = rule_count(policies.take(i), direction) + j as nat;
        filter_rule(policies[i].0, j as nat, position, direction, rules[j]) == Some(f)
    }
}

/// Each filter rule of a policy is that of one of its rules.
proof fn policy_filters_stem_from_rules(
    name: Seq<char>,
    offset: nat,
    direction: Direction,
    rules: Seq<RuleView>,
    r: int,
) -> (j: int)
    requires
        0 <= r < policy_filter_rules(name, offset, direction, rules).len(),
    ensures
        0 <= j < rules.len(),
        filter_rule(name, j as nat, offset + j as nat, direction, rules[j]) == Some(
            policy_filter_rules(name, offset, direction, rules)[r],
        ),
    decreases rules.len(),
{
    let front = rules.drop_last();
    let before = policy_filter_rules(name, offset, direction, front);
    if r < before.len() {
        let j = policy_filters_stem_from_rules(name, offset, direction, front, r);
        assert(front[j] == rules[j]);
        j
    } else {
        rules.len() - 1
    }
}

/// Each filter rule of several policies is that of a rule of one of them.
proof fn chain_filters_stem_from_rules(
    policies: Seq<NamedView>,
    direction: Direction,
    r: int,
) -> (at: (int, int))
    requires
        0 <= r < chain_filter_rules(policies, direction).len(),
    ensures
        stems_from(chain_filter_rules(policies, direction)[r], policies, at.0, at.1, direction),
    decreases policies.len(),
{
    let front = policies.drop_last();
    let before = chain_filter_rules(front, direction);
    let last = policies.len() - 1;
    if r < before.len() {
        let at = chain_filters_stem_from_rules(front, direction, r);
        assert(front[at.0] == policies[at.0]);
        assert(front.take(at.0) =~= policies.take(at.0));
        at
    } else {
        let offset = rule_count(front, direction);
        let body = body_for(policies[last].1->0, direction)->0;
        let j = policy_filters_stem_from_rules(
            policies[last].0,
            offset,
            direction,
            body,
            r - before.len(),
        );
        assert(policies.take(last) =~= front);
        (last, j)
    }
}

/// Nothing is filtered but what policies say: each filter rule of a direction, but for the one at
/// the end, is that of a rule of a policy.
pub proof fn filter_rules_stem_from_rules(
    policies: Seq<NamedView>,
    direction: Direction,
    r: int,
)
    requires
        0 <= r < direction_filter_rules(policies, direction).len() - 1,
    ensures
        exists|i: int, j: int| #[trigger]
            stems_from(
                direction_filter_rules(policies, direction)[r],
                policies,
                i,
                j,
                direction,
            ),
{
    let all = known(policies);
    known_count_bounds(policies);
    let at = chain_filters_stem_from_rules(all, direction, r);
    assert(all[at.0] == policies[at.0]);
    assert(all.take(at.0) =~= policies.take(at.0));
    assert(stems_from(
        direction_filter_rules(policies, direction)[r],
        policies,
        at.0,
        at.1,
        direction,
    ));
}

} // verus!
