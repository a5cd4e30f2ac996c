use ztunnel::firewall::{
    FirewallMatch, FirewallProtocol, FirewallRule, PortGroup, PortRange, RuleAction,
};
use ztunnel::net::{IpAddress, Network};
use ztunnel::proto;
use ztunnel::proto::{Action, EnumField, Protocol};
use ztunnel::rbac::{
    AuthorizationRejectionError, Connection, Direction, Endpoint, RbacAction, RbacDecision,
};
use ztunnel::traffic_policy::convert::{
    parse_address, parse_port, PolicyError, PortError, RuleError, RuleSetError,
};
use ztunnel::traffic_policy::store::UpdateError;
use ztunnel::traffic_policy::{
    assert_tcp_policies, firewall_rulesets, PortMatch, Rule, RuleSet, TrafficPolicy,
    TrafficPolicyStore,
};

fn address(bytes: &[u8], length: u32) -> proto::Address {
    proto::Address { address: bytes.to_vec(), length }
}

fn port(protocol: Protocol, port: Option<u32>, end_port: Option<u32>) -> proto::PortMatch {
    proto::PortMatch { protocol: EnumField::Known(protocol), port, end_port }
}

fn any() -> proto::Match {
    proto::Match { source_ips: vec![], destination_ips: vec![], ports: vec![] }
}

fn rule(action: Action, matches: proto::Match) -> proto::Rule {
    proto::Rule { action: EnumField::Known(action), matches: Some(matches) }
}

fn egress(rules: Vec<proto::Rule>) -> proto::TrafficPolicy {
    proto::TrafficPolicy { ingress: None, egress: Some(proto::RuleSet { rules }) }
}

fn compiled(policy: proto::TrafficPolicy) -> TrafficPolicy {
    TrafficPolicy::try_from(&policy).unwrap()
}

fn v4(a: u8, b: u8, c: u8, d: u8) -> IpAddress {
    IpAddress::V4(u32::from_be_bytes([a, b, c, d]))
}

fn outbound(ip: IpAddress, port: u16) -> Connection {
    Connection {
        src: Endpoint { ip: v4(10, 0, 0, 1), port: 40000 },
        dst: Endpoint { ip, port },
        direction: Direction::Outbound,
    }
}

fn denied(policy: &str, rule: &str) -> Result<RbacDecision, AuthorizationRejectionError> {
    Err(AuthorizationRejectionError::ExplicitlyDenied(policy.to_string(), rule.to_string()))
}

#[test]
fn ports_are_between_one_and_the_largest() {
    assert_eq!(parse_port(0), Err(PortError::Zero));
    assert_eq!(parse_port(1), Ok(1));
    assert_eq!(parse_port(65535), Ok(65535));
    assert_eq!(parse_port(65536), Err(PortError::TooLarge));
    assert_eq!(parse_port(u32::MAX), Err(PortError::TooLarge));
}

#[test]
fn addresses_lose_their_host_bits() {
    let network = parse_address(&address(&[198, 51, 100, 77], 24)).unwrap();
    assert_eq!(network.addr(), v4(198, 51, 100, 0));
    assert_eq!(network.prefix_len(), 24);
    assert_eq!(network.trunc(), network);

    let mut bytes = [0u8; 16];
    bytes[0] = 0x20;
    bytes[1] = 0x01;
    bytes[15] = 1;
    let network = parse_address(&address(&bytes, 16)).unwrap();
    assert_eq!(network.addr(), IpAddress::V6(0x2001 << 112));
    assert_eq!(network.prefix_len(), 16);

    let host = parse_address(&address(&[1, 2, 3, 4], 32)).unwrap();
    assert_eq!(host.addr(), v4(1, 2, 3, 4));
    let all = parse_address(&address(&[1, 2, 3, 4], 0)).unwrap();
    assert_eq!(all.addr(), v4(0, 0, 0, 0));
}

#[test]
fn malformed_addresses_are_refused() {
    assert_eq!(parse_address(&address(&[1, 2, 3], 8)), Err(RuleError::AddressLength(3)));
    assert_eq!(parse_address(&address(&[], 0)), Err(RuleError::AddressLength(0)));
    assert_eq!(parse_address(&address(&[1, 2, 3, 4], 256)), Err(RuleError::PrefixOutOfRange(256)));
    assert_eq!(parse_address(&address(&[1, 2, 3, 4], 33)), Err(RuleError::PrefixTooLong(33)));
    assert_eq!(parse_address(&address(&[0; 16], 129)), Err(RuleError::PrefixTooLong(129)));
    assert!(parse_address(&address(&[0; 16], 128)).is_ok());
}

#[test]
fn port_matches_become_ranges() {
    let range = |p, e| PortMatch::try_from(&port(Protocol::Udp, p, e)).unwrap().range;
    assert_eq!(range(None, None), None);
    assert_eq!(range(Some(53), None), Some(PortRange { start: 53, end: 53 }));
    assert_eq!(range(None, Some(1023)), Some(PortRange { start: 1, end: 1023 }));
    assert_eq!(range(Some(80), Some(90)), Some(PortRange { start: 80, end: 90 }));
    assert_eq!(range(Some(80), Some(80)), Some(PortRange { start: 80, end: 80 }));
}

#[test]
fn malformed_port_matches_are_refused() {
    let refused = |m: proto::PortMatch| PortMatch::try_from(&m).unwrap_err();
    assert_eq!(
        refused(proto::PortMatch { protocol: EnumField::Unknown(9), port: None, end_port: None }),
        RuleError::UnknownProtocol(9)
    );
    assert_eq!(refused(port(Protocol::Tcp, Some(0), None)), RuleError::Port(PortError::Zero));
    assert_eq!(
        refused(port(Protocol::Tcp, Some(1), Some(70000))),
        RuleError::Port(PortError::TooLarge)
    );
    assert_eq!(refused(port(Protocol::Icmp, Some(8), None)), RuleError::IcmpWithPort);
    assert_eq!(refused(port(Protocol::Icmp, None, Some(8))), RuleError::IcmpWithPort);
    assert_eq!(refused(port(Protocol::Tcp, Some(90), Some(80))), RuleError::ReversedRange);
    // A port is looked at before the protocol that rules it out.
    assert_eq!(
        refused(port(Protocol::Icmp, Some(0), None)),
        RuleError::Port(PortError::Zero)
    );
    assert!(PortMatch::try_from(&port(Protocol::Icmp, None, None)).is_ok());
}

#[test]
fn malformed_rules_are_refused() {
    assert_eq!(
        Rule::try_from(&proto::Rule { action: EnumField::Unknown(7), matches: None }),
        Err(RuleError::UnknownAction(7))
    );
    assert_eq!(
        Rule::try_from(&proto::Rule { action: EnumField::Known(Action::Allow), matches: None }),
        Err(RuleError::MatchMissing)
    );
    // Sources are looked at before destinations, and those before ports.
    let mut matches = any();
    matches.ports.push(port(Protocol::Tcp, Some(0), None));
    matches.destination_ips.push(address(&[1], 1));
    assert_eq!(
        Rule::try_from(&rule(Action::Deny, matches.clone())),
        Err(RuleError::AddressLength(1))
    );
    matches.source_ips.push(address(&[1, 2, 3, 4], 99));
    assert_eq!(Rule::try_from(&rule(Action::Deny, matches)), Err(RuleError::PrefixTooLong(99)));
}

#[test]
fn the_first_refused_rule_is_named() {
    let bad = proto::Rule { action: EnumField::Known(Action::Deny), matches: None };
    let rules = proto::RuleSet { rules: vec![rule(Action::Allow, any()), bad.clone(), bad] };
    let error = RuleSetError { rule: 1, cause: RuleError::MatchMissing };
    assert_eq!(RuleSet::try_from(&rules).unwrap_err(), error);
    let policy = proto::TrafficPolicy { ingress: Some(rules.clone()), egress: Some(rules.clone()) };
    assert_eq!(TrafficPolicy::try_from(&policy).unwrap_err(), PolicyError::Ingress(error));
    let policy = proto::TrafficPolicy { ingress: None, egress: Some(rules) };
    assert_eq!(TrafficPolicy::try_from(&policy).unwrap_err(), PolicyError::Egress(error));
}

#[test]
fn policies_compile() {
    let mut matches = any();
    matches.source_ips.push(address(&[198, 51, 100, 9], 24));
    matches.ports.push(port(Protocol::Sctp, Some(5), Some(6)));
    let policy = compiled(egress(vec![rule(Action::Deny, matches)]));
    assert!(policy.ingress.is_none());
    let rules = policy.egress.unwrap().rules;
    assert_eq!(rules.len(), 1);
    assert_eq!(rules[0].action, RbacAction::Deny);
    assert_eq!(rules[0].source_ips, vec![Network::new(v4(198, 51, 100, 0), 24).unwrap()]);
    assert!(rules[0].destination_ips.is_empty());
    assert_eq!(
        rules[0].ports,
        vec![PortMatch { protocol: Protocol::Sctp, range: Some(PortRange { start: 5, end: 6 }) }]
    );
}

#[test]
fn rules_match_on_addresses_and_tcp_ports() {
    let mut matches = any();
    matches.destination_ips.push(address(&[192, 0, 2, 0], 24));
    matches.destination_ips.push(address(&[203, 0, 113, 8], 32));
    matches.ports.push(port(Protocol::Udp, Some(443), None));
    matches.ports.push(port(Protocol::Tcp, Some(80), Some(90)));
    let rule = Rule::try_from(&rule(Action::Allow, matches)).unwrap();
    assert!(rule.matches_tcp(&outbound(v4(192, 0, 2, 200), 80)));
    assert!(rule.matches_tcp(&outbound(v4(203, 0, 113, 8), 90)));
    assert!(!rule.matches_tcp(&outbound(v4(203, 0, 113, 9), 90)));
    assert!(!rule.matches_tcp(&outbound(v4(192, 0, 2, 200), 79)));
    assert!(!rule.matches_tcp(&outbound(v4(192, 0, 2, 200), 91)));
    // The port is given for UDP only.
    assert!(!rule.matches_tcp(&outbound(v4(192, 0, 2, 200), 443)));
    // The families do not mix.
    assert!(!rule.matches_tcp(&outbound(IpAddress::V6(0xc0000201), 80)));
}

#[test]
fn rules_without_constraints_match_all() {
    let all = Rule::try_from(&rule(Action::Allow, any())).unwrap();
    assert!(all.matches_tcp(&outbound(v4(1, 2, 3, 4), 1)));
    assert!(all.matches_tcp(&outbound(IpAddress::V6(7), 65535)));
    let mut matches = any();
    matches.ports.push(port(Protocol::All, None, None));
    let all_protocols = Rule::try_from(&rule(Action::Allow, matches)).unwrap();
    assert!(all_protocols.matches_tcp(&outbound(v4(1, 2, 3, 4), 1)));
    let mut matches = any();
    matches.source_ips.push(address(&[10, 0, 0, 2], 32));
    let other_source = Rule::try_from(&rule(Action::Allow, matches)).unwrap();
    assert!(!other_source.matches_tcp(&outbound(v4(1, 2, 3, 4), 1)));
}

#[test]
fn the_first_matching_rule_decides() {
    let mut web = any();
    web.ports.push(port(Protocol::Tcp, Some(443), None));
    let policy = compiled(egress(vec![
        rule(Action::Allow, web),
        rule(Action::Deny, any()),
        rule(Action::Allow, any()),
    ]));
    let policies = [("inline", Some(&policy))];
    assert_eq!(
        assert_tcp_policies(&policies, &outbound(v4(1, 1, 1, 1), 443)),
        Ok(RbacDecision::Allow)
    );
    assert_eq!(
        assert_tcp_policies(&policies, &outbound(v4(1, 1, 1, 1), 80)),
        denied("inline", "rule-1")
    );
}

#[test]
fn rule_names_are_decimal() {
    let mut never = any();
    never.ports.push(port(Protocol::Udp, None, None));
    let mut rules = vec![rule(Action::Allow, never); 120];
    rules.push(rule(Action::Deny, any()));
    let policy = compiled(egress(rules));
    assert_eq!(
        assert_tcp_policies(&[("p", Some(&policy))], &outbound(v4(1, 1, 1, 1), 80)),
        denied("p", "rule-120")
    );
}

#[test]
fn configured_directions_deny_by_default() {
    let empty = compiled(egress(vec![]));
    let conn = outbound(v4(1, 1, 1, 1), 80);
    assert_eq!(assert_tcp_policies(&[("p", Some(&empty))], &conn), denied("", "DEFAULT-DENY"));
    let inbound = Connection { direction: Direction::Inbound, ..conn };
    assert_eq!(
        assert_tcp_policies(&[("p", Some(&empty))], &inbound),
        Ok(RbacDecision::NoMatch)
    );
    assert_eq!(assert_tcp_policies(&[], &conn), Ok(RbacDecision::NoMatch));
    let silent = TrafficPolicy::default();
    assert_eq!(
        assert_tcp_policies(&[("p", Some(&silent))], &conn),
        Ok(RbacDecision::NoMatch)
    );
}

#[test]
fn missing_policies_deny_but_decisions_before_them_stand() {
    let conn = outbound(v4(1, 1, 1, 1), 80);
    let allow = compiled(egress(vec![rule(Action::Allow, any())]));
    let empty = compiled(egress(vec![]));
    let silent = TrafficPolicy::default();
    assert_eq!(
        assert_tcp_policies(&[("a", Some(&allow)), ("gone", None)], &conn),
        Ok(RbacDecision::Allow)
    );
    assert_eq!(
        assert_tcp_policies(&[("gone", None), ("a", Some(&allow))], &conn),
        denied("gone", "policy-unavailable")
    );
    assert_eq!(
        assert_tcp_policies(&[("e", Some(&empty)), ("gone", None)], &conn),
        denied("gone", "policy-unavailable")
    );
    // Evaluation goes on behind a policy without a matching rule, and behind a silent one.
    assert_eq!(
        assert_tcp_policies(
            &[("e", Some(&empty)), ("s", Some(&silent)), ("a", Some(&allow))],
            &conn
        ),
        Ok(RbacDecision::Allow)
    );
}

fn default_rule(name: &str, direction: Direction) -> FirewallRule {
    FirewallRule {
        name: name.to_string(),
        action: RuleAction::Deny,
        direction,
        priority: i32::MAX,
        clauses: vec![vec![FirewallMatch {
            source_ips: vec![],
            dest_ips: vec![],
            port_groups: vec![PortGroup { protocol: FirewallProtocol::NonTcp, ports: vec![] }],
        }]],
    }
}

#[test]
fn filter_rules_leave_tcp_out_and_keep_the_order() {
    let mut tcp = any();
    tcp.ports.push(port(Protocol::Tcp, Some(443), None));
    let mut mixed = any();
    mixed.source_ips.push(address(&[10, 0, 0, 0], 8));
    mixed.destination_ips.push(address(&[192, 0, 2, 1], 32));
    mixed.ports.push(port(Protocol::Udp, Some(53), None));
    mixed.ports.push(port(Protocol::Tcp, Some(53), None));
    mixed.ports.push(port(Protocol::Icmp, None, None));
    mixed.ports.push(port(Protocol::All, None, Some(7)));
    mixed.ports.push(port(Protocol::Sctp, Some(5), Some(6)));
    let first =
        compiled(egress(vec![rule(Action::Allow, tcp), rule(Action::Allow, mixed)]));
    let second = compiled(egress(vec![rule(Action::Deny, any())]));
    let set = firewall_rulesets(&[("first", Some(&first)), ("second", Some(&second))]);
    assert!(!set.policy_attached);
    let range = |start, end| vec![PortRange { start, end }];
    assert_eq!(
        set.rules,
        vec![
            FirewallRule {
                name: "first/rule-1".to_string(),
                action: RuleAction::Allow,
                direction: Direction::Outbound,
                priority: 1,
                clauses: vec![vec![FirewallMatch {
                    source_ips: vec![Network::new(v4(10, 0, 0, 0), 8).unwrap()],
                    dest_ips: vec![Network::new(v4(192, 0, 2, 1), 32).unwrap()],
                    port_groups: vec![
                        PortGroup { protocol: FirewallProtocol::Udp, ports: range(53, 53) },
                        PortGroup { protocol: FirewallProtocol::Icmp, ports: vec![] },
                        PortGroup { protocol: FirewallProtocol::NonTcp, ports: range(1, 7) },
                        PortGroup { protocol: FirewallProtocol::Sctp, ports: range(5, 6) },
                    ],
                }]],
            },
            FirewallRule {
                name: "second/rule-0".to_string(),
                action: RuleAction::Deny,
                direction: Direction::Outbound,
                priority: 2,
                clauses: vec![vec![FirewallMatch {
                    source_ips: vec![],
                    dest_ips: vec![],
                    port_groups: vec![],
                }]],
            },
            default_rule("DEFAULT-DENY", Direction::Outbound),
        ]
    );
}

#[test]
fn filter_rules_follow_the_configured_directions() {
    assert!(firewall_rulesets(&[]).rules.is_empty());
    let silent = TrafficPolicy::default();
    assert!(firewall_rulesets(&[("s", Some(&silent))]).rules.is_empty());
    let both = compiled(proto::TrafficPolicy {
        ingress: Some(proto::RuleSet { rules: vec![] }),
        egress: Some(proto::RuleSet { rules: vec![] }),
    });
    assert_eq!(
        firewall_rulesets(&[("b", Some(&both))]).rules,
        vec![
            default_rule("DEFAULT-DENY", Direction::Inbound),
            default_rule("DEFAULT-DENY", Direction::Outbound),
        ]
    );
}

#[test]
fn filter_rules_end_at_a_missing_policy() {
    let later = compiled(egress(vec![rule(Action::Allow, any())]));
    let cut = firewall_rulesets(&[("gone", None)]);
    let set = firewall_rulesets(&[("gone", None), ("later", Some(&later))]);
    assert_eq!(set, cut);
    assert_eq!(
        set.rules,
        vec![
            default_rule("gone/policy-unavailable", Direction::Inbound),
            default_rule("gone/policy-unavailable", Direction::Outbound),
        ]
    );
}

fn update(name: &str, resource: proto::TrafficPolicy) -> proto::XdsResource<proto::TrafficPolicy> {
    proto::XdsResource { name: name.to_string(), resource }
}

#[test]
fn the_store_keeps_the_last_accepted_policy() {
    let mut store = TrafficPolicyStore::default();
    assert!(store.get("p").is_none());
    let good = egress(vec![rule(Action::Allow, any())]);
    assert_eq!(store.update(update("p", good.clone())), Ok(true));
    assert_eq!(store.update(update("p", good.clone())), Ok(false));
    assert_eq!(store.get("p"), Some(&compiled(good.clone())));

    let bad = egress(vec![proto::Rule { action: EnumField::Unknown(2), matches: None }]);
    let error = UpdateError::Policy(PolicyError::Egress(RuleSetError {
        rule: 0,
        cause: RuleError::UnknownAction(2),
    }));
    assert_eq!(store.update(update("p", bad)), Err(error));
    assert_eq!(store.get("p"), Some(&compiled(good)));

    let other = egress(vec![rule(Action::Deny, any())]);
    assert_eq!(store.update(update("p", other.clone())), Ok(true));
    assert_eq!(store.get("p"), Some(&compiled(other)));
    assert_eq!(store.iter().len(), 1);
    assert!(store.remove("p"));
    assert!(!store.remove("p"));
    assert!(store.get("p").is_none());
    assert!(store.iter().is_empty());
}

#[test]
fn the_store_refuses_empty_and_wildcard_names() {
    let mut store = TrafficPolicyStore::default();
    assert_eq!(store.update(update("", egress(vec![]))), Err(UpdateError::Name));
    assert_eq!(store.update(update("*", egress(vec![]))), Err(UpdateError::Name));
    assert_eq!(store.update(update("**", egress(vec![]))), Ok(true));
    let names: Vec<&str> = store.iter().into_iter().map(|(name, _)| name).collect();
    assert_eq!(names, vec!["**"]);
}

#[test]
fn the_store_holds_many_policies() {
    let mut store = TrafficPolicyStore::default();
    for i in 0..50u32 {
        let mut matches = any();
        matches.ports.push(port(Protocol::Tcp, Some(i + 1), None));
        let resource = egress(vec![rule(Action::Deny, matches)]);
        assert_eq!(store.update(update(&format!("policy-{i}"), resource)), Ok(true));
    }
    assert!(store.remove("policy-7"));
    assert_eq!(store.iter().len(), 49);
    for i in 0..50u16 {
        let found = store.get(&format!("policy-{i}"));
        if i == 7 {
            assert!(found.is_none());
        } else {
            let ports = &found.unwrap().egress.as_ref().unwrap().rules[0].ports;
            assert_eq!(ports[0].range, Some(PortRange { start: i + 1, end: i + 1 }));
        }
    }
}

#[test]
fn policies_are_compared_by_content() {
    let allow = compiled(egress(vec![rule(Action::Allow, any())]));
    let deny = compiled(egress(vec![rule(Action::Deny, any())]));
    assert!(allow.same_as(&allow.clone()));
    assert!(!allow.same_as(&deny));
    assert!(!allow.same_as(&TrafficPolicy::default()));
    let swapped = TrafficPolicy { ingress: allow.egress.clone(), egress: None };
    assert!(!allow.same_as(&swapped));
}
