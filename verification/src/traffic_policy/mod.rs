//! Native TrafficPolicy evaluation and conversion to non-TCP firewall rules.

use crate::firewall::PortRange;
use crate::net::Network;
use crate::proto::Protocol;
use crate::rbac::{Direction, RbacAction};
use vstd::prelude::*;

pub mod convert;
pub mod filter;
pub mod packets;
pub mod store;
pub mod tcp;

pub use self::filter::firewall_rulesets;
pub use self::store::TrafficPolicyStore;
pub use self::tcp::assert_tcp_policies;

verus! {

/// A protocol, and the ports that count; `None` stands for all of them.
#[derive(Clone, Copy, Debug, PartialEq, Eq, Hash, Structural)]
pub struct PortMatch {
    pub protocol: Protocol,
    pub range: Option<PortRange>,
}

/// An action with its constraints; an empty list puts none.
#[derive(Clone, Debug, PartialEq, Eq, Hash)]
pub struct Rule {
    pub action: RbacAction,
    pub source_ips: Vec<Network>,
    pub destination_ips: Vec<Network>,
    pub ports: Vec<PortMatch>,
}

/// Rules in the order of evaluation.
#[derive(Clone, Debug, PartialEq, Eq, Hash)]
pub struct RuleSet {
    pub rules: Vec<Rule>,
}

/// A compiled policy; a direction that is `None` is not configured by it.
#[derive(Clone, Debug, PartialEq, Eq, Hash)]
pub struct TrafficPolicy {
    pub ingress: Option<RuleSet>,
    pub egress: Option<RuleSet>,
}

/// What a [`Rule`] holds.
#[verifier::ext_equal]
pub struct RuleView {
    pub action: RbacAction,
    pub source_ips: Seq<Network>,
    pub destination_ips: Seq<Network>,
    pub ports: Seq<PortMatch>,
}

/// What a [`TrafficPolicy`] holds.
#[verifier::ext_equal]
pub struct PolicyView {
    pub ingress: Option<Seq<RuleView>>,
    pub egress: Option<Seq<RuleView>>,
}

impl View for Rule {
    type V = RuleView;

    open spec fn view(&self) -> RuleView {
        RuleView {
            action: self.action,
            source_ips: self.source_ips@,
            destination_ips: self.destination_ips@,
            ports: self.ports@,
        }
    }
}

impl View for RuleSet {
    type V = Seq<RuleView>;

    open spec fn view(&self) -> Seq<RuleView> {
        self.rules@.map_values(|r: Rule| r@)
    }
}

/// What an optional rule set holds.
pub open spec fn rules_view(rules: Option<RuleSet>) -> Option<Seq<RuleView>> {
    match rules {
        Some(rules) => Some(rules@),
        None => None,
    }
}

impl View for TrafficPolicy {
    type V = PolicyView;

    open spec fn view(&self) -> PolicyView {
        PolicyView { ingress: rules_view(self.ingress), egress: rules_view(self.egress) }
    }
}

impl PolicyView {
    /// The rules for one direction, where the policy configures it.
    pub open spec fn rules(self, direction: Direction) -> Option<Seq<RuleView>> {
        match direction {
            Direction::Inbound => self.ingress,
            Direction::Outbound => self.egress,
        }
    }
}

impl Default for TrafficPolicy {
    /// The policy that configures neither direction.
    fn default() -> (r: TrafficPolicy)
        ensures
            r@ == (PolicyView { ingress: None, egress: None }),
    {
        TrafficPolicy { ingress: None, egress: None }
    }
}

/// A policy under its name; the body is missing while it is not known.
pub type NamedPolicy<'a> = (&'a str, Option<&'a TrafficPolicy>);

/// A name and the policy that goes by it, if it is known.
pub type NamedView = (Seq<char>, Option<PolicyView>);

/// What an entry of a policy list stands for.
pub open spec fn named_view(entry: NamedPolicy<'_>) -> NamedView {
    (
        entry.0@,
        match entry.1 {
            Some(policy) => Some(policy@),
            None => None,
        },
    )
}

/// What a list of policies stands for.
pub open spec fn policies_view(policies: Seq<NamedPolicy<'_>>) -> Seq<NamedView> {
    policies.map_values(|entry: NamedPolicy<'_>| named_view(entry))
}

/// Whether rules are seen as what they are: as many, in the same order, each with its action, its
/// networks and its ports.
pub open spec fn seen_as(rules: Seq<Rule>, views: Seq<RuleView>) -> bool {
    &&& rules.len() == views.len()
    &&& forall|i: int|
        #![trigger rules[i]]
        #![trigger views[i]]
        0 <= i < rules.len() ==> {
            &&& rules[i].action == views[i].action
            &&& rules[i].source_ips@ == views[i].source_ips
            &&& rules[i].destination_ips@ == views[i].destination_ips
            &&& rules[i].ports@ == views[i].ports
        }
}

/// The rules of a policy are seen in full: those of the ingress for inbound, those of the egress
/// for outbound, and none where there are none.
pub proof fn policies_are_seen_in_full(policy: TrafficPolicy)
    ensures
        match (policy.ingress, policy@.rules(Direction::Inbound)) {
            (Some(set), Some(views)) => seen_as(set.rules@, views),
            (None, None) => true,
            _ => false,
        },
        match (policy.egress, policy@.rules(Direction::Outbound)) {
            (Some(set), Some(views)) => seen_as(set.rules@, views),
            (None, None) => true,
            _ => false,
        },
        policy@.ingress == policy@.rules(Direction::Inbound),
        policy@.egress == policy@.rules(Direction::Outbound),
{
}

/// A list of policies is seen entry by entry, each under its name and with its body if it is
/// known.
pub proof fn lists_are_seen_entry_by_entry(policies: Seq<NamedPolicy<'_>>)
    ensures
        policies_view(policies).len() == policies.len(),
        forall|i: int|
            #![trigger policies[i]]
            #![trigger policies_view(policies)[i]]
            0 <= i < policies.len() ==> {
                &&& policies_view(policies)[i].0 == policies[i].0@
                &&& match (policies[i].1, policies_view(policies)[i].1) {
                    (Some(policy), Some(view)) => policy@ == view,
                    (None, None) => true,
                    _ => false,
                }
            },
{
}

} // verus!
