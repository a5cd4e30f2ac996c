//! Validation of wire messages into compiled policies.

use crate::firewall::PortRange;
use crate::net::{
    address_of, be_value, byte_to_ip, host_bits_clear, truncated, IpAddress, Network,
};
use crate::proto;
use crate::proto::{Action, EnumField, Protocol};
use crate::rbac::RbacAction;
use crate::traffic_policy::{PolicyView, PortMatch, Rule, RuleSet, RuleView, TrafficPolicy};
use vstd::arithmetic::power2::pow2;
use vstd::prelude::*;

verus! {

/// Why a number is no port.
#[derive(Clone, Copy, Debug, PartialEq, Eq, Structural)]
pub enum PortError {
    Zero,
    TooLarge,
}

/// Why a rule is refused.
#[derive(Clone, Copy, Debug, PartialEq, Eq, Structural)]
pub enum RuleError {
    /// The action is none that the schema names.
    UnknownAction(i32),
    /// The rule has no match.
    MatchMissing,
    /// An address has neither four nor sixteen bytes, but this many.
    AddressLength(usize),
    /// A prefix length does not fit in a byte.
    PrefixOutOfRange(u32),
    /// A prefix is longer than its address.
    PrefixTooLong(u8),
    /// The protocol is none that the schema names.
    UnknownProtocol(i32),
    /// A port is no port.
    Port(PortError),
    /// A port is given for ICMP.
    IcmpWithPort,
    /// A port range ends before it starts.
    ReversedRange,
}

/// The first rule of a set that is refused, and why.
#[derive(Clone, Copy, Debug, PartialEq, Eq, Structural)]
pub struct RuleSetError {
    pub rule: usize,
    pub cause: RuleError,
}

/// The direction whose rules are refused, and why.
#[derive(Clone, Copy, Debug, PartialEq, Eq, Structural)]
pub enum PolicyError {
    Ingress(RuleSetError),
    Egress(RuleSetError),
}

/// The results of `f` on all items, or the first failure.
pub open spec fn all_results<A, B, E>(
    items: Seq<A>,
    f: spec_fn(A) -> Result<B, E>,
) -> Result<Seq<B>, E>
    decreases items.len(),
{
    if items.len() == 0 {
        Ok(Seq::empty())
    } else {
        match all_results(items.drop_last(), f) {
            Err(e) => Err(e),
            Ok(front) => match f(items.last()) {
                Err(e) => Err(e),
                Ok(b) => Ok(front.push(b)),
            },
        }
    }
}

/// A failure within the first `n` items is the failure of all of them.
pub proof fn first_failure_stands<A, B, E>(
    items: Seq<A>,
    f: spec_fn(A) -> Result<B, E>,
    n: int,
)
    requires
        0 <= n <= items.len(),
        all_results(items.take(n), f) is Err,
    ensures
        all_results(items, f) == all_results(items.take(n), f),
    decreases items.len() - n,
{
    if n == items.len() {
        assert(items.take(n) =~= items);
    } else {
        assert(items.take(n + 1).drop_last() =~= items.take(n));
        first_failure_stands(items, f, n + 1);
    }
}

/// All items give a result where each does, one for one and in order.
pub proof fn all_results_elementwise<A, B, E>(items: Seq<A>, f: spec_fn(A) -> Result<B, E>)
    ensures
        all_results(items, f) is Ok <==> forall|i: int|
            0 <= i < items.len() ==> f(#[trigger] items[i]) is Ok,
        all_results(items, f) matches Ok(r) ==> r.len() == items.len() && forall|i: int|
            0 <= i < items.len() ==> f(items[i]) == Ok::<B, E>(#[trigger] r[i]),
    decreases items.len(),
{
    if items.len() > 0 {
        let front = items.drop_last();
        all_results_elementwise(front, f);
        assert(forall|i: int| 0 <= i < front.len() ==> front[i] == items[i]);
        if forall|i: int| 0 <= i < items.len() ==> f(#[trigger] items[i]) is Ok {
            assert(f(items[items.len() - 1]) is Ok);
            assert(forall|i: int| 0 <= i < front.len() ==> f(#[trigger] front[i]) is Ok);
        }
        if all_results(items, f) is Ok {
            assert forall|i: int| 0 <= i < items.len() implies f(#[trigger] items[i]) is Ok by {
                if i < front.len() {
                    assert(f(front[i]) is Ok);
                }
            }
        }
    }
}

/// The port that a number stands for.
pub open spec fn port_result(port: u32) -> Result<u16, PortError> {
    if port == 0 {
        Err(PortError::Zero)
    } else if port > 65535 {
        Err(PortError::TooLarge)
    } else {
        Ok(port as u16)
    }
}

/// The port that an optional number stands for.
pub open spec fn optional_port_result(port: Option<u32>) -> Result<Option<u16>, PortError> {
    match port {
        None => Ok(None),
        Some(port) => match port_result(port) {
            Ok(port) => Ok(Some(port)),
            Err(e) => Err(e),
        },
    }
}

/// The range from an optional first to an optional last port. One port alone is a first port
/// that is also the last, and without a first port the range starts at port 1.
pub open spec fn range_result(
    port: Option<u16>,
    end_port: Option<u16>,
) -> Result<Option<PortRange>, RuleError> {
    match (port, end_port) {
        (None, None) => Ok(None),
        (Some(start), None) => Ok(Some(PortRange { start, end: start })),
        (None, Some(end)) => Ok(Some(PortRange { start: 1, end })),
        (Some(start), Some(end)) => if start <= end {
            Ok(Some(PortRange { start, end }))
        } else {
            Err(RuleError::ReversedRange)
        },
    }
}

/// The port match that a message stands for.
pub open spec fn port_match_result(value: proto::PortMatch) -> Result<PortMatch, RuleError> {
    match value.protocol {
        EnumField::Unknown(n) => Err(RuleError::UnknownProtocol(n)),
        EnumField::Known(protocol) => match optional_port_result(value.port) {
            Err(e) => Err(RuleError::Port(e)),
            Ok(port) => match optional_port_result(value.end_port) {
                Err(e) => Err(RuleError::Port(e)),
                Ok(end_port) => if protocol == Protocol::Icmp && (port is Some || end_port is Some) {
                    Err(RuleError::IcmpWithPort)
                } else {
                    match range_result(port, end_port) {
                        Err(e) => Err(e),
                        Ok(range) => Ok(PortMatch { protocol, range }),
                    }
                },
            },
        },
    }
}

/// The network that an address message stands for, with all bits behind the prefix cleared.
pub open spec fn address_result(value: proto::Address) -> Result<Network, RuleError> {
    match address_of(value.address@) {
        None => Err(RuleError::AddressLength(value.address@.len() as usize)),
        Some(ip) => if value.length > 255 {
            Err(RuleError::PrefixOutOfRange(value.length))
        } else if value.length > ip.width() {
            Err(RuleError::PrefixTooLong(value.length as u8))
        } else {
            Ok(Network::of(truncated(ip, value.length as nat), value.length as u8))
        },
    }
}

/// The action that a message asks for.
pub open spec fn action_of(action: Action) -> RbacAction {
    match action {
        Action::Allow => RbacAction::Allow,
        Action::Deny => RbacAction::Deny,
    }
}

/// The networks that address messages stand for.
pub open spec fn addresses_result(values: Seq<proto::Address>) -> Result<Seq<Network>, RuleError> {
    all_results(values, |value: proto::Address| address_result(value))
}

/// The port matches that messages stand for.
pub open spec fn port_matches_result(values: Seq<proto::PortMatch>) -> Result<
    Seq<PortMatch>,
    RuleError,
> {
    all_results(values, |value: proto::PortMatch| port_match_result(value))
}

/// The rule that a message stands for. The action is looked at first, then the presence of a
/// match, then sources, destinations and ports, each list in its order.
pub open spec fn rule_result(value: proto::Rule) -> Result<RuleView, RuleError> {
    match value.action {
        EnumField::Unknown(n) => Err(RuleError::UnknownAction(n)),
        EnumField::Known(action) => match value.matches {
            None => Err(RuleError::MatchMissing),
            Some(matches) => match addresses_result(matches.source_ips@) {
                Err(e) => Err(e),
                Ok(source_ips) => match addresses_result(matches.destination_ips@) {
                    Err(e) => Err(e),
                    Ok(destination_ips) => match port_matches_result(matches.ports@) {
                        Err(e) => Err(e),
                        Ok(ports) => Ok(
                            RuleView {
                                action: action_of(action),
                                source_ips,
                                destination_ips,
                                ports,
                            },
                        ),
                    },
                },
            },
        },
    }
}

/// The rules that messages stand for, or the first that is refused, with its index.
pub open spec fn rules_result(values: Seq<proto::Rule>) -> Result<Seq<RuleView>, RuleSetError>
    decreases values.len(),
{
    if values.len() == 0 {
        Ok(Seq::empty())
    } else {
        match rules_result(values.drop_last()) {
            Err(e) => Err(e),
            Ok(front) => match rule_result(values.last()) {
                Err(cause) => Err(RuleSetError { rule: (values.len() - 1) as usize, cause }),
                Ok(rule) => Ok(front.push(rule)),
            },
        }
    }
}

/// The rules that an optional message stands for.
pub open spec fn optional_rules_result(value: Option<proto::RuleSet>) -> Result<
    Option<Seq<RuleView>>,
    RuleSetError,
> {
    match value {
        None => Ok(None),
        Some(value) => match rules_result(value.rules@) {
            Ok(rules) => Ok(Some(rules)),
            Err(e) => Err(e),
        },
    }
}

/// The policy that a message stands for; ingress is looked at first.
pub open spec fn policy_result(value: proto::TrafficPolicy) -> Result<PolicyView, PolicyError> {
    match optional_rules_result(value.ingress) {
        Err(e) => Err(PolicyError::Ingress(e)),
        Ok(ingress) => match optional_rules_result(value.egress) {
            Err(e) => Err(PolicyError::Egress(e)),
            Ok(egress) => Ok(PolicyView { ingress, egress }),
        },
    }
}

/// The port that a number stands for.
pub fn parse_port(port: u32) -> (r: Result<u16, PortError>)
    ensures
        r == port_result(port),
{
    if port == 0 {
        Err(PortError::Zero)
    } else if port > 65535 {
        Err(PortError::TooLarge)
    } else {
        Ok(port as u16)
    }
}

/// The port that an optional number stands for.
fn parse_optional_port(port: Option<u32>) -> (r: Result<Option<u16>, PortError>)
    ensures
        r == optional_port_result(port),
{
    match port {
        None => Ok(None),
        Some(port) => match parse_port(port) {
            Ok(port) => Ok(Some(port)),
            Err(e) => Err(e),
        },
    }
}

/// The network that an address message stands for.
pub fn parse_address(address: &proto::Address) -> (r: Result<Network, RuleError>)
    ensures
        r == address_result(*address),
{
    broadcast use Network::of_parts;
    match byte_to_ip(address.address.as_slice()) {
        None => Err(RuleError::AddressLength(address.address.len())),
        Some(ip) => {
            if address.length > 255 {
                return Err(RuleError::PrefixOutOfRange(address.length));
            }
            let length: u8 = address.length as u8;
            match Network::new(ip, length) {
                None => Err(RuleError::PrefixTooLong(length)),
                Some(network) => Ok(network.trunc()),
            }
        },
    }
}

/// The networks that address messages stand for.
fn parse_addresses(values: &Vec<proto::Address>) -> (r: Result<Vec<Network>, RuleError>)
    ensures
        addresses_result(values@) == (match r {
            Ok(networks) => Ok(networks@),
            Err(e) => Err(e),
        }),
{
    let ghost f = |value: proto::Address| address_result(value);
    let mut networks: Vec<Network> = Vec::new();
    let mut i: usize = 0;
    while i < values.len()
        invariant
            i <= values@.len(),
            f == (|value: proto::Address| address_result(value)),
            all_results(values@.take(i as int), f) == Ok::<Seq<Network>, RuleError>(networks@),
        decreases values.len() - i,
    {
        assert(values@.take(i + 1).drop_last() =~= values@.take(i as int));
        match parse_address(&values[i]) {
            Ok(network) => {
                networks.push(network);
            },
            Err(e) => {
                proof {
                    first_failure_stands(values@, f, i + 1);
                }
                return Err(e);
            },
        }
        i = i + 1;
    }
    assert(values@.take(i as int) =~= values@);
    Ok(networks)
}

impl PortMatch {
    /// The port match that a message stands for.
    pub fn try_from(value: &proto::PortMatch) -> (r: Result<PortMatch, RuleError>)
        ensures
            r == port_match_result(*value),
    {
        let protocol: Protocol = match value.protocol {
            EnumField::Unknown(n) => {
                return Err(RuleError::UnknownProtocol(n));
            },
            EnumField::Known(protocol) => protocol,
        };
        let port: Option<u16> = match parse_optional_port(value.port) {
            Err(e) => {
                return Err(RuleError::Port(e));
            },
            Ok(port) => port,
        };
        let end_port: Option<u16> = match parse_optional_port(value.end_port) {
            Err(e) => {
                return Err(RuleError::Port(e));
            },
            Ok(end_port) => end_port,
        };
        if protocol == Protocol::Icmp && (port.is_some() || end_port.is_some()) {
            return Err(RuleError::IcmpWithPort);
        }
        let range: Option<PortRange> = match (port, end_port) {
            (None, None) => None,
            (Some(start), None) => Some(PortRange { start, end: start }),
            (None, Some(end)) => Some(PortRange { start: 1, end }),
            (Some(start), Some(end)) => {
                if start > end {
                    return Err(RuleError::ReversedRange);
                }
                Some(PortRange { start, end })
            },
        };
        Ok(PortMatch { protocol, range })
    }
}

/// The port matches that messages stand for.
fn parse_port_matches(values: &Vec<proto::PortMatch>) -> (r: Result<Vec<PortMatch>, RuleError>)
    ensures
        port_matches_result(values@) == (match r {
            Ok(ports) => Ok(ports@),
            Err(e) => Err(e),
        }),
{
    let ghost f = |value: proto::PortMatch| port_match_result(value);
    let mut ports: Vec<PortMatch> = Vec::new();
    let mut i: usize = 0;
    while i < values.len()
        invariant
            i <= values@.len(),
            f == (|value: proto::PortMatch| port_match_result(value)),
            all_results(values@.take(i as int), f) == Ok::<Seq<PortMatch>, RuleError>(ports@),
        decreases values.len() - i,
    {
        assert(values@.take(i + 1).drop_last() =~= values@.take(i as int));
        match PortMatch::try_from(&values[i]) {
            Ok(port) => {
                ports.push(port);
            },
            Err(e) => {
                proof {
                    first_failure_stands(values@, f, i + 1);
                }
                return Err(e);
            },
        }
        i = i + 1;
    }
    assert(values@.take(i as int) =~= values@);
    Ok(ports)
}

impl Rule {
    /// The rule that a message stands for.
    pub fn try_from(value: &proto::Rule) -> (r: Result<Rule, RuleError>)
        ensures
            rule_result(*value) == (match r {
                Ok(rule) => Ok(rule@),
                Err(e) => Err(e),
            }),
    {
        let action: RbacAction = match value.action {
            EnumField::Unknown(n) => {
                return Err(RuleError::UnknownAction(n));
            },
            EnumField::Known(Action::Allow) => RbacAction::Allow,
            EnumField::Known(Action::Deny) => RbacAction::Deny,
        };
        match &value.matches {
            None => Err(RuleError::MatchMissing),
            Some(matches) => {
                let source_ips: Vec<Network> = match parse_addresses(&matches.source_ips) {
                    Err(e) => {
                        return Err(e);
                    },
                    Ok(networks) => networks,
                };
                let destination_ips: Vec<Network> = match parse_addresses(&matches.destination_ips) {
                    Err(e) => {
                        return Err(e);
                    },
                    Ok(networks) => networks,
                };
                let ports: Vec<PortMatch> = match parse_port_matches(&matches.ports) {
                    Err(e) => {
                        return Err(e);
                    },
                    Ok(ports) => ports,
                };
                Ok(Rule { action, source_ips, destination_ips, ports })
            },
        }
    }
}

/// A refused rule within the first `n` is what the whole set is refused for.
pub proof fn first_refused_rule_stands(values: Seq<proto::Rule>, n: int)
    requires
        0 <= n <= values.len(),
        rules_result(values.take(n)) is Err,
    ensures
        rules_result(values) == rules_result(values.take(n)),
    decreases values.len() - n,
{
    if n == values.len() {
        assert(values.take(n) =~= values);
    } else {
        assert(values.take(n + 1).drop_last() =~= values.take(n));
        first_refused_rule_stands(values, n + 1);
    }
}

impl RuleSet {
    /// The rules that a message stands for.
    pub fn try_from(value: &proto::RuleSet) -> (r: Result<RuleSet, RuleSetError>)
        ensures
            rules_result(value.rules@) == (match r {
                Ok(rules) => Ok(rules@),
                Err(e) => Err(e),
            }),
    {
        let mut rules: Vec<Rule> = Vec::new();
        let mut i: usize = 0;
        assert(rules@.map_values(|r: Rule| r@) =~= Seq::<RuleView>::empty());
        while i < value.rules.len()
            invariant
                i <= value.rules@.len(),
                rules_result(value.rules@.take(i as int)) == Ok::<Seq<RuleView>, RuleSetError>(
                    rules@.map_values(|r: Rule| r@),
                ),
            decreases value.rules.len() - i,
        {
            assert(value.rules@.take(i + 1).drop_last() =~= value.rules@.take(i as int));
            match Rule::try_from(&value.rules[i]) {
                Ok(rule) => {
                    let ghost before = rules@;
                    rules.push(rule);
                    assert(rules@.map_values(|r: Rule| r@) =~= before.map_values(
                        |r: Rule| r@,
                    ).push(rule@));
                },
                Err(cause) => {
                    proof {
                        first_refused_rule_stands(value.rules@, i + 1);
                    }
                    return Err(RuleSetError { rule: i, cause });
                },
            }
            i = i + 1;
        }
        assert(value.rules@.take(i as int) =~= value.rules@);
        Ok(RuleSet { rules })
    }
}

/// The rules that an optional message stands for.
fn convert_optional_rules(value: &Option<proto::RuleSet>) -> (r: Result<
    Option<RuleSet>,
    RuleSetError,
>)
    ensures
        optional_rules_result(*value) == (match r {
            Ok(rules) => Ok(crate::traffic_policy::rules_view(rules)),
            Err(e) => Err(e),
        }),
{
    match value {
        None => Ok(None),
        Some(rules) => match RuleSet::try_from(rules) {
            Ok(rules) => Ok(Some(rules)),
            Err(e) => Err(e),
        },
    }
}

impl TrafficPolicy {
    /// The policy that a message stands for.
    pub fn try_from(resource: &proto::TrafficPolicy) -> (r: Result<TrafficPolicy, PolicyError>)
        ensures
            policy_result(*resource) == (match r {
                Ok(policy) => Ok(policy@),
                Err(e) => Err(e),
            }),
    {
        let ingress: Option<RuleSet> = match convert_optional_rules(&resource.ingress) {
            Err(e) => {
                return Err(PolicyError::Ingress(e));
            },
            Ok(ingress) => ingress,
        };
        let egress: Option<RuleSet> = match convert_optional_rules(&resource.egress) {
            Err(e) => {
                return Err(PolicyError::Egress(e));
            },
            Ok(egress) => egress,
        };
        Ok(TrafficPolicy { ingress, egress })
    }
}

/// A port match that can stand in a policy: ports start at 1, ranges are not reversed, and ICMP
/// has no ports.
pub open spec fn port_match_valid(m: PortMatch) -> bool {
    &&& m.range matches Some(range) ==> 1 <= range.start <= range.end
    &&& m.protocol == Protocol::Icmp ==> m.range is None
}

/// A network that can stand in a policy: nothing is set behind the prefix.
pub open spec fn network_valid(n: Network) -> bool {
    &&& n.prefix_spec() <= n.addr_spec().width()
    &&& host_bits_clear(n.addr_spec(), n.prefix_spec() as nat)
}

/// A rule made of valid networks and port matches.
pub open spec fn rule_valid(rule: RuleView) -> bool {
    &&& forall|i: int| 0 <= i < rule.source_ips.len() ==> network_valid(#[trigger] rule.source_ips[i])
    &&& forall|i: int|
        0 <= i < rule.destination_ips.len() ==> network_valid(#[trigger] rule.destination_ips[i])
    &&& forall|i: int| 0 <= i < rule.ports.len() ==> port_match_valid(#[trigger] rule.ports[i])
}

/// A policy made of valid rules.
pub open spec fn policy_valid(policy: PolicyView) -> bool {
    &&& policy.ingress matches Some(rules) ==> forall|i: int|
        0 <= i < rules.len() ==> rule_valid(#[trigger] rules[i])
    &&& policy.egress matches Some(rules) ==> forall|i: int|
        0 <= i < rules.len() ==> rule_valid(#[trigger] rules[i])
}

/// Accepted address messages give valid networks.
proof fn converted_addresses_are_valid(values: Seq<proto::Address>)
    ensures
        addresses_result(values) matches Ok(networks) ==> forall|i: int|
            0 <= i < networks.len() ==> network_valid(#[trigger] networks[i]),
{
    broadcast use Network::of_parts;
    let f = |value: proto::Address| address_result(value);
    all_results_elementwise(values, f);
    if let Ok(networks) = addresses_result(values) {
        assert forall|i: int| 0 <= i < networks.len() implies network_valid(#[trigger] networks[i]) by {
            assert(f(values[i]) == Ok::<Network, RuleError>(networks[i]));
            let ip = address_of(values[i].address@)->0;
            crate::net::truncated_holds_the_same(ip, values[i].length as nat);
        }
    }
}

/// An accepted rule message gives a valid rule.
pub proof fn converted_rule_is_valid(value: proto::Rule)
    ensures
        rule_result(value) matches Ok(rule) ==> rule_valid(rule),
{
    if let Some(matches) = value.matches {
        converted_addresses_are_valid(matches.source_ips@);
        converted_addresses_are_valid(matches.destination_ips@);
        let f = |value: proto::PortMatch| port_match_result(value);
        all_results_elementwise(matches.ports@, f);
        if let Ok(ports) = port_matches_result(matches.ports@) {
            assert forall|i: int| 0 <= i < ports.len() implies port_match_valid(
                #[trigger] ports[i],
            ) by {
                assert(f(matches.ports@[i]) == Ok::<PortMatch, RuleError>(ports[i]));
            }
        }
    }
}

/// A set of rules is accepted where each rule is, and then keeps their number and order.
pub proof fn converted_rules_elementwise(values: Seq<proto::Rule>)
    ensures
        rules_result(values) is Ok <==> forall|i: int|
            0 <= i < values.len() ==> rule_result(#[trigger] values[i]) is Ok,
        rules_result(values) matches Ok(rules) ==> rules.len() == values.len() && forall|i: int|
            0 <= i < values.len() ==> rule_result(values[i]) == Ok::<RuleView, RuleError>(
                #[trigger] rules[i],
            ),
    decreases values.len(),
{
    if values.len() > 0 {
        let front = values.drop_last();
        converted_rules_elementwise(front);
        assert(forall|i: int| 0 <= i < front.len() ==> front[i] == values[i]);
        if forall|i: int| 0 <= i < values.len() ==> rule_result(#[trigger] values[i]) is Ok {
            assert(rule_result(values[values.len() - 1]) is Ok);
            assert(forall|i: int| 0 <= i < front.len() ==> rule_result(#[trigger] front[i]) is Ok);
        }
        if rules_result(values) is Ok {
            assert forall|i: int| 0 <= i < values.len() implies rule_result(
                #[trigger] values[i],
            ) is Ok by {
                if i < front.len() {
                    assert(rule_result(front[i]) is Ok);
                }
            }
        }
    }
}

/// A rejected set of rules names the first rule that is refused, and why it is.
pub proof fn refused_rule_is_the_first(values: Seq<proto::Rule>)
    requires
        values.len() <= usize::MAX,
    ensures
        rules_result(values) matches Err(e) ==> {
            &&& e.rule < values.len()
            &&& rule_result(values[e.rule as int]) == Err::<RuleView, RuleError>(e.cause)
            &&& forall|i: int| 0 <= i < e.rule ==> rule_result(#[trigger] values[i]) is Ok
        },
    decreases values.len(),
{
    if values.len() > 0 {
        let front = values.drop_last();
        refused_rule_is_the_first(front);
        converted_rules_elementwise(front);
        assert(forall|i: int| 0 <= i < front.len() ==> front[i] == values[i]);
        if rules_result(front) is Ok {
            assert forall|i: int| 0 <= i < front.len() implies rule_result(
                #[trigger] values[i],
            ) is Ok by {
                assert(rule_result(front[i]) is Ok);
            }
        }
    }
}

/// Whatever policy comes out of the control plane's messages is valid.
pub proof fn converted_policy_is_valid(value: proto::TrafficPolicy)
    ensures
        policy_result(value) matches Ok(policy) ==> policy_valid(policy),
{
    if let Ok(policy) = policy_result(value) {
        if let Some(set) = value.ingress {
            converted_rules_are_valid(set.rules@);
        }
        if let Some(set) = value.egress {
            converted_rules_are_valid(set.rules@);
        }
    }
}

/// Accepted rule messages give valid rules.
proof fn converted_rules_are_valid(values: Seq<proto::Rule>)
    ensures
        rules_result(values) matches Ok(rules) ==> forall|i: int|
            0 <= i < rules.len() ==> rule_valid(#[trigger] rules[i]),
{
    converted_rules_elementwise(values);
    if let Ok(rules) = rules_result(values) {
        assert forall|i: int| 0 <= i < rules.len() implies rule_valid(#[trigger] rules[i]) by {
            converted_rule_is_valid(values[i]);
        }
    }
}

/// A number is a port exactly where it lies between 1 and 65535, and then it is that port.
pub proof fn ports_keep_their_number(number: u32)
    ensures
        match port_result(number) {
            Ok(port) => 1 <= number <= 65535 && port == number,
            Err(PortError::Zero) => number == 0,
            Err(PortError::TooLarge) => number > 65535,
        },
{
}

/// An accepted port match keeps its protocol, and counts exactly the ports from its first to its
/// last: one port alone counts itself, a last port alone counts all up to it, and without either
/// all ports count.
pub proof fn port_matches_count_their_ports(value: proto::PortMatch)
    ensures
        port_match_result(value) matches Ok(m) ==> {
            &&& value.protocol == EnumField::Known(m.protocol)
            &&& m.range is None <==> value.port is None && value.end_port is None
            &&& m.range matches Some(range) ==> forall|port: u16|
                #![trigger range.holds(port)]
                range.holds(port) <==> {
                    &&& port >= 1
                    &&& value.port matches Some(first) ==> first <= port
                    &&& value.end_port matches Some(last) ==> port <= last
                    &&& value.end_port is None ==> value.port == Some(port as u32)
                }
        },
{
}

/// What a port range holds are the ports from its start to its end.
pub proof fn ranges_hold_what_lies_between(range: PortRange, port: u16)
    ensures
        range.holds(port) <==> range.start <= port && port <= range.end,
{
}

/// A port match is accepted exactly where its protocol is known, its ports are ports in order,
/// and ICMP has none.
pub proof fn port_matches_are_accepted(value: proto::PortMatch)
    ensures
        port_match_result(value) is Ok <==> {
            &&& value.protocol is Known
            &&& value.port matches Some(first) ==> 1 <= first <= 65535
            &&& value.end_port matches Some(last) ==> 1 <= last <= 65535
            &&& value.protocol == EnumField::Known(Protocol::Icmp) ==> value.port is None
                && value.end_port is None
            &&& value.port matches Some(first) ==> (value.end_port matches Some(last) ==> first
                <= last)
        },
{
}

/// Each reason to refuse a port match, in the order in which they are looked for.
pub proof fn refused_port_matches_name_the_reason(value: proto::PortMatch)
    ensures
        port_match_result(value) matches Err(e) ==> match value.protocol {
            EnumField::Unknown(n) => e == RuleError::UnknownProtocol(n),
            EnumField::Known(protocol) => match (value.port, value.end_port) {
                (Some(0), _) => e == RuleError::Port(PortError::Zero),
                (Some(first), end_port) => if first > 65535 {
                    e == RuleError::Port(PortError::TooLarge)
                } else if end_port == Some(0u32) {
                    e == RuleError::Port(PortError::Zero)
                } else if end_port matches Some(last) && last > 65535 {
                    e == RuleError::Port(PortError::TooLarge)
                } else if protocol == Protocol::Icmp {
                    e == RuleError::IcmpWithPort
                } else {
                    e == RuleError::ReversedRange
                },
                (None, Some(0)) => e == RuleError::Port(PortError::Zero),
                (None, Some(last)) => if last > 65535 {
                    e == RuleError::Port(PortError::TooLarge)
                } else {
                    e == RuleError::IcmpWithPort
                },
                (None, None) => false,
            },
        },
{
}

/// An accepted address gives a network whose prefix is as long as the message says, and which
/// holds exactly the addresses of the same family that agree with the message's bytes in that
/// many leading bits.
pub proof fn accepted_addresses_hold_their_prefix(value: proto::Address, ip: IpAddress)
    ensures
        address_result(value) matches Ok(network) ==> {
            &&& network.prefix_spec() == value.length
            &&& match ip {
                IpAddress::V4(bits) => network.holds(ip) <==> value.address@.len() == 4 && be_value(
                    value.address@,
                ) / pow2((32 - value.length) as nat) == bits as nat / pow2(
                    (32 - value.length) as nat,
                ),
                IpAddress::V6(bits) => network.holds(ip) <==> value.address@.len() == 16
                    && be_value(value.address@) / pow2((128 - value.length) as nat) == bits as nat
                    / pow2((128 - value.length) as nat),
            }
        },
{
    broadcast use Network::of_parts;

    if let Ok(network) = address_result(value) {
        let spelled = address_of(value.address@)->0;
        crate::net::bytes_spell_addresses(value.address@);
        crate::net::be_value_bound(value.address@);
        vstd::arithmetic::power2::lemma2_to64();
        vstd::arithmetic::power2::lemma2_to64_rest();
        vstd::arithmetic::power2::lemma_pow2_adds(64, 64);
        assert(spelled.bits() == be_value(value.address@));
        crate::net::truncated_holds_the_same(spelled, value.length as nat);
        crate::net::networks_hold_their_prefix(network, ip);
        crate::net::networks_hold_their_prefix(Network::of(spelled, value.length as u8), ip);
        assert(network.holds(ip) == Network::of(spelled, value.length as u8).holds(ip));
    }
}

/// The network of an accepted address is written with the message's address, but for the bits
/// behind the prefix, which are clear.
pub proof fn accepted_addresses_are_truncated(value: proto::Address)
    ensures
        address_result(value) matches Ok(network) ==> match network.addr_spec() {
            IpAddress::V4(bits) => {
                &&& value.address@.len() == 4
                &&& bits <= be_value(value.address@)
                &&& be_value(value.address@) - bits < pow2((32 - value.length) as nat)
                &&& bits as nat % pow2((32 - value.length) as nat) == 0
            },
            IpAddress::V6(bits) => {
                &&& value.address@.len() == 16
                &&& bits <= be_value(value.address@)
                &&& be_value(value.address@) - bits < pow2((128 - value.length) as nat)
                &&& bits as nat % pow2((128 - value.length) as nat) == 0
            },
        },
{
    broadcast use Network::of_parts;

    if let Ok(network) = address_result(value) {
        let spelled = address_of(value.address@)->0;
        crate::net::be_value_bound(value.address@);
        vstd::arithmetic::power2::lemma2_to64();
        vstd::arithmetic::power2::lemma2_to64_rest();
        vstd::arithmetic::power2::lemma_pow2_adds(64, 64);
        assert(spelled.bits() == be_value(value.address@));
        crate::net::truncation_clears_low_bits(spelled, value.length as nat);
    }
}

/// An address is accepted exactly where it has four bytes and a prefix of at most 32 bits, or
/// sixteen bytes and one of at most 128, and else the refusal tells what is wrong.
pub proof fn addresses_are_accepted(value: proto::Address)
    requires
        value.address@.len() <= usize::MAX,
    ensures
        match address_result(value) {
            Ok(_) => value.address@.len() == 4 && value.length <= 32 || value.address@.len() == 16
                && value.length <= 128,
            Err(RuleError::AddressLength(n)) => n == value.address@.len() && n != 4 && n != 16,
            Err(RuleError::PrefixOutOfRange(n)) => {
                &&& n == value.length
                &&& n > 255
                &&& value.address@.len() == 4 || value.address@.len() == 16
            },
            Err(RuleError::PrefixTooLong(n)) => {
                &&& n == value.length
                &&& value.address@.len() == 4 && n > 32 || value.address@.len() == 16 && n > 128
            },
            Err(_) => false,
        },
{
}

/// The items fail exactly with the failure of the first item that fails.
pub proof fn the_first_failure_is_named<A, B, E>(items: Seq<A>, f: spec_fn(A) -> Result<B, E>)
    ensures
        all_results(items, f) matches Err(e) ==> exists|i: int|
            {
                &&& 0 <= i < items.len()
                &&& f(#[trigger] items[i]) == Err::<B, E>(e)
                &&& forall|j: int| 0 <= j < i ==> f(#[trigger] items[j]) is Ok
            },
    decreases items.len(),
{
    if items.len() > 0 {
        let front = items.drop_last();
        the_first_failure_is_named(front, f);
        all_results_elementwise(front, f);
        assert(forall|i: int| 0 <= i < front.len() ==> front[i] == items[i]);
        if let Err(e) = all_results(front, f) {
            let i = choose|i: int|
                {
                    &&& 0 <= i < front.len()
                    &&& f(#[trigger] front[i]) == Err::<B, E>(e)
                    &&& forall|j: int| 0 <= j < i ==> f(#[trigger] front[j]) is Ok
                };
            assert forall|j: int| 0 <= j < i implies f(#[trigger] items[j]) is Ok by {
                assert(f(front[j]) is Ok);
            }
            assert(f(items[i]) == Err::<B, E>(e));
        } else if let Err(e) = all_results(items, f) {
            let last = items.len() - 1;
            assert forall|j: int| 0 <= j < last implies f(#[trigger] items[j]) is Ok by {
                assert(f(front[j]) is Ok);
            }
            assert(f(items[last]) == Err::<B, E>(e));
        }
    }
}

/// An accepted rule does what its message asks for, with the networks and ports of the message's
/// sources, destinations and ports, each one for one and in order.
pub proof fn accepted_rules_keep_their_message(value: proto::Rule)
    ensures
        rule_result(value) matches Ok(rule) ==> {
            &&& rule.action == RbacAction::Allow <==> value.action == EnumField::Known(
                Action::Allow,
            )
            &&& rule.action == RbacAction::Deny <==> value.action == EnumField::Known(Action::Deny)
            &&& value.matches matches Some(m) && {
                &&& rule.source_ips.len() == m.source_ips@.len()
                &&& rule.destination_ips.len() == m.destination_ips@.len()
                &&& rule.ports.len() == m.ports@.len()
                &&& forall|i: int|
                    0 <= i < m.source_ips@.len() ==> address_result(m.source_ips@[i]) == Ok::<
                        Network,
                        RuleError,
                    >(#[trigger] rule.source_ips[i])
                &&& forall|i: int|
                    0 <= i < m.destination_ips@.len() ==> address_result(m.destination_ips@[i])
                        == Ok::<Network, RuleError>(#[trigger] rule.destination_ips[i])
                &&& forall|i: int|
                    0 <= i < m.ports@.len() ==> port_match_result(m.ports@[i]) == Ok::<
                        PortMatch,
                        RuleError,
                    >(#[trigger] rule.ports[i])
            }
        },
{
    if let Some(m) = value.matches {
        let f = |value: proto::Address| address_result(value);
        let g = |value: proto::PortMatch| port_match_result(value);
        all_results_elementwise(m.source_ips@, f);
        all_results_elementwise(m.destination_ips@, f);
        all_results_elementwise(m.ports@, g);
        if let Ok(rule) = rule_result(value) {
            assert forall|i: int| 0 <= i < m.source_ips@.len() implies address_result(
                m.source_ips@[i],
            ) == Ok::<Network, RuleError>(#[trigger] rule.source_ips[i]) by {
                assert(f(m.source_ips@[i]) == Ok::<Network, RuleError>(rule.source_ips[i]));
            }
            assert forall|i: int| 0 <= i < m.destination_ips@.len() implies address_result(
                m.destination_ips@[i],
            ) == Ok::<Network, RuleError>(#[trigger] rule.destination_ips[i]) by {
                assert(f(m.destination_ips@[i]) == Ok::<Network, RuleError>(
                    rule.destination_ips[i],
                ));
            }
            assert forall|i: int| 0 <= i < m.ports@.len() implies port_match_result(m.ports@[i])
                == Ok::<PortMatch, RuleError>(#[trigger] rule.ports[i]) by {
                assert(g(m.ports@[i]) == Ok::<PortMatch, RuleError>(rule.ports[i]));
            }
        }
    }
}

/// A rule is accepted exactly where its action is known, a match is there, and every source,
/// destination and port in it is accepted.
pub proof fn rules_are_accepted(value: proto::Rule)
    ensures
        rule_result(value) is Ok <==> {
            &&& value.action is Known
            &&& value.matches matches Some(m) && {
                &&& forall|i: int|
                    0 <= i < m.source_ips@.len() ==> address_result(
                        #[trigger] m.source_ips@[i],
                    ) is Ok
                &&& forall|i: int|
                    0 <= i < m.destination_ips@.len() ==> address_result(
                        #[trigger] m.destination_ips@[i],
                    ) is Ok
                &&& forall|i: int|
                    0 <= i < m.ports@.len() ==> port_match_result(#[trigger] m.ports@[i]) is Ok
            }
        },
{
    if let Some(m) = value.matches {
        let f = |value: proto::Address| address_result(value);
        let g = |value: proto::PortMatch| port_match_result(value);
        all_results_elementwise(m.source_ips@, f);
        all_results_elementwise(m.destination_ips@, f);
        all_results_elementwise(m.ports@, g);
        assert(forall|i: int| f(#[trigger] m.source_ips@[i]) == address_result(m.source_ips@[i]));
        assert(forall|i: int|
            f(#[trigger] m.destination_ips@[i]) == address_result(m.destination_ips@[i]));
        assert(forall|i: int| g(#[trigger] m.ports@[i]) == port_match_result(m.ports@[i]));
        if value.action is Known {
            assert(rule_result(value) is Ok <==> addresses_result(m.source_ips@) is Ok
                && addresses_result(m.destination_ips@) is Ok && port_matches_result(m.ports@) is Ok);
        }
    }
}

/// A refused rule names its action where that is unknown, a missing match next, and then the first
/// source, destination or port that is refused, in this order.
pub proof fn refused_rules_name_the_reason(value: proto::Rule)
    ensures
        rule_result(value) matches Err(e) ==> match (value.action, value.matches) {
            (EnumField::Unknown(n), _) => e == RuleError::UnknownAction(n),
            (EnumField::Known(_), None) => e == RuleError::MatchMissing,
            (EnumField::Known(_), Some(m)) => {
                ||| exists|i: int|
                    {
                        &&& 0 <= i < m.source_ips@.len()
                        &&& address_result(#[trigger] m.source_ips@[i]) == Err::<Network, RuleError>(e)
                        &&& forall|j: int|
                            0 <= j < i ==> address_result(#[trigger] m.source_ips@[j]) is Ok
                    }
                ||| (forall|j: int|
                    0 <= j < m.source_ips@.len() ==> address_result(
                        #[trigger] m.source_ips@[j],
                    ) is Ok) && exists|i: int|
                    {
                        &&& 0 <= i < m.destination_ips@.len()
                        &&& address_result(#[trigger] m.destination_ips@[i]) == Err::<
                            Network,
                            RuleError,
                        >(e)
                        &&& forall|j: int|
                            0 <= j < i ==> address_result(#[trigger] m.destination_ips@[j]) is Ok
                    }
                ||| (forall|j: int|
                    0 <= j < m.source_ips@.len() ==> address_result(
                        #[trigger] m.source_ips@[j],
                    ) is Ok) && (forall|j: int|
                    0 <= j < m.destination_ips@.len() ==> address_result(
                        #[trigger] m.destination_ips@[j],
                    ) is Ok) && exists|i: int|
                    {
                        &&& 0 <= i < m.ports@.len()
                        &&& port_match_result(#[trigger] m.ports@[i]) == Err::<
                            PortMatch,
                            RuleError,
                        >(e)
                        &&& forall|j: int|
                            0 <= j < i ==> port_match_result(#[trigger] m.ports@[j]) is Ok
                    }
            },
        },
{
    if let Some(m) = value.matches {
        let f = |value: proto::Address| address_result(value);
        let g = |value: proto::PortMatch| port_match_result(value);
        all_results_elementwise(m.source_ips@, f);
        all_results_elementwise(m.destination_ips@, f);
        the_first_failure_is_named(m.source_ips@, f);
        the_first_failure_is_named(m.destination_ips@, f);
        the_first_failure_is_named(m.ports@, g);
        assert(forall|i: int| f(#[trigger] m.source_ips@[i]) == address_result(m.source_ips@[i]));
        assert(forall|i: int|
            f(#[trigger] m.destination_ips@[i]) == address_result(m.destination_ips@[i]));
        assert(forall|i: int| g(#[trigger] m.ports@[i]) == port_match_result(m.ports@[i]));
    }
}

/// An accepted policy has rules for a direction exactly where its message has, those of the
/// message's ingress for inbound and those of its egress for outbound, one for one and in order.
pub proof fn accepted_policies_keep_their_message(value: proto::TrafficPolicy)
    ensures
        policy_result(value) matches Ok(policy) ==> {
            &&& match (value.ingress, policy.rules(crate::rbac::Direction::Inbound)) {
                (Some(message), Some(rules)) => rules.len() == message.rules@.len() && forall|i: int|
                    0 <= i < rules.len() ==> rule_result(message.rules@[i]) == Ok::<
                        RuleView,
                        RuleError,
                    >(#[trigger] rules[i]),
                (None, None) => true,
                _ => false,
            }
            &&& match (value.egress, policy.rules(crate::rbac::Direction::Outbound)) {
                (Some(message), Some(rules)) => rules.len() == message.rules@.len() && forall|i: int|
                    0 <= i < rules.len() ==> rule_result(message.rules@[i]) == Ok::<
                        RuleView,
                        RuleError,
                    >(#[trigger] rules[i]),
                (None, None) => true,
                _ => false,
            }
        },
{
    if let Some(message) = value.ingress {
        converted_rules_elementwise(message.rules@);
    }
    if let Some(message) = value.egress {
        converted_rules_elementwise(message.rules@);
    }
}

/// A policy is accepted exactly where every rule in its message is; a refused one names the
/// first refused rule of the ingress, or of the egress where the ingress is accepted.
pub proof fn refused_policies_name_the_rule(value: proto::TrafficPolicy)
    requires
        value.ingress matches Some(message) ==> message.rules@.len() <= usize::MAX,
        value.egress matches Some(message) ==> message.rules@.len() <= usize::MAX,
    ensures
        match policy_result(value) {
            Ok(_) => {
                &&& value.ingress matches Some(message) ==> forall|i: int|
                    0 <= i < message.rules@.len() ==> rule_result(#[trigger] message.rules@[i]) is Ok
                &&& value.egress matches Some(message) ==> forall|i: int|
                    0 <= i < message.rules@.len() ==> rule_result(#[trigger] message.rules@[i]) is Ok
            },
            Err(PolicyError::Ingress(e)) => value.ingress matches Some(message) && {
                &&& e.rule < message.rules@.len()
                &&& rule_result(message.rules@[e.rule as int]) == Err::<RuleView, RuleError>(
                    e.cause,
                )
                &&& forall|i: int|
                    0 <= i < e.rule ==> rule_result(#[trigger] message.rules@[i]) is Ok
            },
            Err(PolicyError::Egress(e)) => value.egress matches Some(message) && {
                &&& e.rule < message.rules@.len()
                &&& rule_result(message.rules@[e.rule as int]) == Err::<RuleView, RuleError>(
                    e.cause,
                )
                &&& forall|i: int|
                    0 <= i < e.rule ==> rule_result(#[trigger] message.rules@[i]) is Ok
                &&& value.ingress matches Some(first) ==> forall|i: int|
                    0 <= i < first.rules@.len() ==> rule_result(#[trigger] first.rules@[i]) is Ok
            },
        },
{
    if let Some(message) = value.ingress {
        converted_rules_elementwise(message.rules@);
        refused_rule_is_the_first(message.rules@);
    }
    if let Some(message) = value.egress {
        converted_rules_elementwise(message.rules@);
        refused_rule_is_the_first(message.rules@);
    }
}

} // verus!
