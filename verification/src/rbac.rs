//! Connections and the decisions that are taken on them.

use crate::net::IpAddress;
use vstd::prelude::*;

verus! {

/// Which way a connection goes, seen from the sandbox.
#[derive(Clone, Copy, Debug, PartialEq, Eq, Structural)]
pub enum Direction {
    Inbound,
    Outbound,
}

/// What a rule does with a connection that it matches.
#[derive(Clone, Copy, Debug, PartialEq, Eq, Hash, Structural)]
pub enum RbacAction {
    Allow,
    Deny,
}

/// The outcome of an evaluation that rejects nothing.
#[derive(Clone, Copy, Debug, PartialEq, Eq, Structural)]
pub enum RbacDecision {
    /// A rule allows the connection.
    Allow,
    /// No policy has a say in this direction.
    NoMatch,
}

/// Why a connection is rejected.
#[derive(Clone, Debug, PartialEq, Eq)]
pub enum AuthorizationRejectionError {
    /// The policy that denies, and the rule in it.
    ExplicitlyDenied(String, String),
}

/// A policy's name and the name of the rule in it that denies.
pub type Denial = (Seq<char>, Seq<char>);

impl View for AuthorizationRejectionError {
    type V = Denial;

    open spec fn view(&self) -> Denial {
        match self {
            AuthorizationRejectionError::ExplicitlyDenied(policy, rule) => (policy@, rule@),
        }
    }
}

/// One end of a connection.
#[derive(Clone, Copy, Debug, PartialEq, Eq, Structural)]
pub struct Endpoint {
    pub ip: IpAddress,
    pub port: u16,
}

/// What policies read of a TCP connection.
#[derive(Clone, Copy, Debug, PartialEq, Eq, Structural)]
pub struct Connection {
    pub src: Endpoint,
    pub dst: Endpoint,
    pub direction: Direction,
}

/// An evaluation's result, with names as texts.
pub open spec fn decision_view(
    r: Result<RbacDecision, AuthorizationRejectionError>,
) -> Result<RbacDecision, Denial> {
    match r {
        Ok(decision) => Ok(decision),
        Err(e) => Err(e@),
    }
}

/// A decision is seen as it is, and a denial with the policy and the rule that it names.
pub proof fn decisions_are_seen_in_full(decision: RbacDecision, policy: String, rule: String)
    ensures
        decision_view(Ok(decision)) == Ok::<RbacDecision, Denial>(decision),
        decision_view(Err(AuthorizationRejectionError::ExplicitlyDenied(policy, rule))) == Err::<
            RbacDecision,
            Denial,
        >((policy@, rule@)),
{
}

} // verus!
