//! Rules for the packet filter, which handles all traffic but TCP.

use crate::net::Network;
use crate::rbac::Direction;
use vstd::prelude::*;

verus! {

/// The protocols that the packet filter tells apart.
#[derive(Clone, Copy, Debug, PartialEq, Eq, Structural)]
pub enum FirewallProtocol {
    /// Everything but TCP.
    NonTcp,
    Udp,
    Icmp,
    Sctp,
}

/// What a filter rule does with a packet.
#[derive(Clone, Copy, Debug, PartialEq, Eq, Structural)]
pub enum RuleAction {
    Allow,
    Deny,
}

/// Ports from `start` to `end`, both included.
#[derive(Clone, Copy, Debug, PartialEq, Eq, Hash, Structural)]
pub struct PortRange {
    pub start: u16,
    pub end: u16,
}

impl PortRange {
    /// Whether a port is in the range.
    pub open spec fn holds(self, port: u16) -> bool {
        self.start <= port <= self.end
    }

    /// Whether a port is in the range.
    pub fn contains(&self, port: u16) -> (r: bool)
        ensures
            r == self.holds(port),
    {
        self.start <= port && port <= self.end
    }
}

/// A protocol and the ports in it; no port stands for all of them.
#[derive(Clone, Debug, PartialEq, Eq)]
pub struct PortGroup {
    pub protocol: FirewallProtocol,
    pub ports: Vec<PortRange>,
}

/// One alternative of a filter rule; an empty list puts no constraint.
#[derive(Clone, Debug, PartialEq, Eq)]
pub struct FirewallMatch {
    pub source_ips: Vec<Network>,
    pub dest_ips: Vec<Network>,
    pub port_groups: Vec<PortGroup>,
}

/// A named filter rule. Rules are tried by rising priority.
#[derive(Clone, Debug, PartialEq, Eq)]
pub struct FirewallRule {
    pub name: String,
    pub action: RuleAction,
    pub direction: Direction,
    pub priority: i32,
    pub clauses: Vec<Vec<FirewallMatch>>,
}

/// All filter rules of a sandbox.
#[derive(Clone, Debug, PartialEq, Eq)]
pub struct RuleSet {
    pub rules: Vec<FirewallRule>,
    /// Whether both directions deny by default without a rule that says so.
    pub policy_attached: bool,
}

/// What a [`PortGroup`] holds.
#[verifier::ext_equal]
pub struct PortGroupView {
    pub protocol: FirewallProtocol,
    pub ports: Seq<PortRange>,
}

/// What a [`FirewallMatch`] holds.
#[verifier::ext_equal]
pub struct FirewallMatchView {
    pub source_ips: Seq<Network>,
    pub dest_ips: Seq<Network>,
    pub port_groups: Seq<PortGroupView>,
}

/// What a [`FirewallRule`] holds.
#[verifier::ext_equal]
pub struct FirewallRuleView {
    pub name: Seq<char>,
    pub action: RuleAction,
    pub direction: Direction,
    pub priority: i32,
    pub clauses: Seq<Seq<FirewallMatchView>>,
}

/// What a [`RuleSet`] holds.
#[verifier::ext_equal]
pub struct RuleSetView {
    pub rules: Seq<FirewallRuleView>,
    pub policy_attached: bool,
}

impl View for PortGroup {
    type V = PortGroupView;

    open spec fn view(&self) -> PortGroupView {
        PortGroupView { protocol: self.protocol, ports: self.ports@ }
    }
}

impl View for FirewallMatch {
    type V = FirewallMatchView;

    open spec fn view(&self) -> FirewallMatchView {
        FirewallMatchView {
            source_ips: self.source_ips@,
            dest_ips: self.dest_ips@,
            port_groups: self.port_groups@.map_values(|g: PortGroup| g@),
        }
    }
}

impl View for FirewallRule {
    type V = FirewallRuleView;

    open spec fn view(&self) -> FirewallRuleView {
        FirewallRuleView {
            name: self.name@,
            action: self.action,
            direction: self.direction,
            priority: self.priority,
            clauses: self.clauses@.map_values(
                |c: Vec<FirewallMatch>| c@.map_values(|m: FirewallMatch| m@),
            ),
        }
    }
}

impl View for RuleSet {
    type V = RuleSetView;

    open spec fn view(&self) -> RuleSetView {
        RuleSetView {
            rules: self.rules@.map_values(|r: FirewallRule| r@),
            policy_attached: self.policy_attached,
        }
    }
}

/// Filter rules are seen in full: as many, in the same order, each with its name, its action, its
/// direction, its priority and its clauses.
pub proof fn rule_sets_are_seen_in_full(set: RuleSet)
    ensures
        set@.policy_attached == set.policy_attached,
        set@.rules.len() == set.rules@.len(),
        forall|i: int|
            #![trigger set@.rules[i]]
            #![trigger set.rules@[i]]
            0 <= i < set.rules@.len() ==> {
                &&& set@.rules[i].name == set.rules@[i].name@
                &&& set@.rules[i].action == set.rules@[i].action
                &&& set@.rules[i].direction == set.rules@[i].direction
                &&& set@.rules[i].priority == set.rules@[i].priority
                &&& set@.rules[i].clauses.len() == set.rules@[i].clauses@.len()
            },
        forall|i: int, c: int|
            #![trigger set@.rules[i].clauses[c]]
            #![trigger set.rules@[i].clauses@[c]]
            0 <= i < set.rules@.len() && 0 <= c < set.rules@[i].clauses@.len()
                ==> set@.rules[i].clauses[c].len() == set.rules@[i].clauses@[c]@.len(),
        forall|i: int, c: int, a: int|
            #![trigger set@.rules[i].clauses[c][a]]
            #![trigger set.rules@[i].clauses@[c]@[a]]
            0 <= i < set.rules@.len() && 0 <= c < set.rules@[i].clauses@.len() && 0 <= a
                < set.rules@[i].clauses@[c]@.len() ==> alternative_seen(
                set.rules@[i].clauses@[c]@[a],
                set@.rules[i].clauses[c][a],
            ),
{
}

/// Whether an alternative is seen with its sources, its destinations and its port groups, each
/// group with its protocol and its ports.
pub open spec fn alternative_seen(m: FirewallMatch, view: FirewallMatchView) -> bool {
    &&& view.source_ips == m.source_ips@
    &&& view.dest_ips == m.dest_ips@
    &&& view.port_groups.len() == m.port_groups@.len()
    &&& forall|g: int|
        #![trigger view.port_groups[g]]
        #![trigger m.port_groups@[g]]
        0 <= g < m.port_groups@.len() ==> {
            &&& view.port_groups[g].protocol == m.port_groups@[g].protocol
            &&& view.port_groups[g].ports == m.port_groups@[g].ports@
        }
}

} // verus!
