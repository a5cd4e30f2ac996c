//! The TrafficPolicy messages of the control plane, as they come off the wire.

use vstd::prelude::*;

verus! {

/// An enumeration field: one of the values the schema names, or another number.
#[derive(Clone, Copy, Debug, PartialEq, Eq, Structural)]
pub enum EnumField<T> {
    Known(T),
    Unknown(i32),
}

/// What a rule asks for.
#[derive(Clone, Copy, Debug, PartialEq, Eq, Structural)]
pub enum Action {
    Allow,
    Deny,
}

/// The transport protocols that a port match can name.
#[derive(Clone, Copy, Debug, PartialEq, Eq, Hash, Structural)]
pub enum Protocol {
    All,
    Tcp,
    Udp,
    Icmp,
    Sctp,
}

/// An address in network order and the length of its prefix.
#[derive(Clone, Debug, PartialEq, Eq)]
pub struct Address {
    pub address: Vec<u8>,
    pub length: u32,
}

/// A protocol with an optional port range.
#[derive(Clone, Debug, PartialEq, Eq)]
pub struct PortMatch {
    pub protocol: EnumField<Protocol>,
    pub port: Option<u32>,
    pub end_port: Option<u32>,
}

/// What a rule matches; an empty list puts no constraint.
#[derive(Clone, Debug, PartialEq, Eq)]
pub struct Match {
    pub source_ips: Vec<Address>,
    pub destination_ips: Vec<Address>,
    pub ports: Vec<PortMatch>,
}

/// An action and the connections that it is for.
#[derive(Clone, Debug, PartialEq, Eq)]
pub struct Rule {
    pub action: EnumField<Action>,
    pub matches: Option<Match>,
}

/// The rules of one direction, in the order of evaluation.
#[derive(Clone, Debug, PartialEq, Eq)]
pub struct RuleSet {
    pub rules: Vec<Rule>,
}

/// A policy; a direction that is absent is not configured by it.
#[derive(Clone, Debug, PartialEq, Eq)]
pub struct TrafficPolicy {
    pub ingress: Option<RuleSet>,
    pub egress: Option<RuleSet>,
}

/// A resource with the name that it was published under.
#[derive(Clone, Debug, PartialEq, Eq)]
pub struct XdsResource<T> {
    pub name: String,
    pub resource: T,
}

} // verus!
