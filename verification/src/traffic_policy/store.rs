//! Shared policies by name.

use crate::net::Network;
use crate::proto;
use crate::proto::XdsResource;
use crate::text::text_equal;
use crate::traffic_policy::convert::{
    converted_policy_is_valid, policy_result, policy_valid, PolicyError,
};
use crate::traffic_policy::{rules_view, PolicyView, PortMatch, Rule, RuleSet, TrafficPolicy};
use std::sync::Arc;
use vstd::prelude::*;

verus! {

/// Why an update is refused.
#[derive(Clone, Copy, Debug, PartialEq, Eq, Structural)]
pub enum UpdateError {
    /// The name is empty or the wildcard.
    Name,
    /// The policy itself is refused.
    Policy(PolicyError),
}

/// Whether a resource can go by a name: it is neither empty nor the wildcard.
pub open spec fn name_allowed(name: Seq<char>) -> bool {
    name.len() > 0 && name != "*"@
}

/// The policy that an update brings.
pub open spec fn update_result(name: Seq<char>, resource: proto::TrafficPolicy) -> Result<
    PolicyView,
    UpdateError,
> {
    if !name_allowed(name) {
        Err(UpdateError::Name)
    } else {
        match policy_result(resource) {
            Ok(policy) => Ok(policy),
            Err(e) => Err(UpdateError::Policy(e)),
        }
    }
}

/// The policies after an update: one that is refused leaves them as they are.
pub open spec fn updated(
    store: Map<Seq<char>, PolicyView>,
    name: Seq<char>,
    result: Result<PolicyView, UpdateError>,
) -> Map<Seq<char>, PolicyView> {
    match result {
        Ok(policy) => store.insert(name, policy),
        Err(_) => store,
    }
}

/// What an update is answered: whether it changed anything, or why it is refused.
pub open spec fn update_reply(
    store: Map<Seq<char>, PolicyView>,
    name: Seq<char>,
    result: Result<PolicyView, UpdateError>,
) -> Result<bool, UpdateError> {
    match result {
        Ok(policy) => Ok(!(store.contains_key(name) && store[name] == policy)),
        Err(e) => Err(e),
    }
}

/// Whether two lists of networks are equal.
fn same_networks(a: &Vec<Network>, b: &Vec<Network>) -> (r: bool)
    ensures
        r == (a@ == b@),
{
    if a.len() != b.len() {
        return false;
    }
    let mut i: usize = 0;
    while i < a.len()
        invariant
            i <= a@.len(),
            a@.len() == b@.len(),
            forall|j: int| 0 <= j < i ==> a@[j] == b@[j],
        decreases a.len() - i,
    {
        if a[i] != b[i] {
            return false;
        }
        i = i + 1;
    }
    assert(a@ =~= b@);
    true
}

/// Whether two lists of port matches are equal.
fn same_ports(a: &Vec<PortMatch>, b: &Vec<PortMatch>) -> (r: bool)
    ensures
        r == (a@ == b@),
{
    if a.len() != b.len() {
        return false;
    }
    let mut i: usize = 0;
    while i < a.len()
        invariant
            i <= a@.len(),
            a@.len() == b@.len(),
            forall|j: int| 0 <= j < i ==> a@[j] == b@[j],
        decreases a.len() - i,
    {
        let same_range: bool = match (a[i].range, b[i].range) {
            (None, None) => true,
            (Some(x), Some(y)) => x == y,
            _ => false,
        };
        if a[i].protocol != b[i].protocol || !same_range {
            return false;
        }
        i = i + 1;
    }
    assert(a@ =~= b@);
    true
}

/// Whether two rules are equal.
fn same_rule(a: &Rule, b: &Rule) -> (r: bool)
    ensures
        r == (a@ == b@),
{
    a.action == b.action && same_networks(&a.source_ips, &b.source_ips) && same_networks(
        &a.destination_ips,
        &b.destination_ips,
    ) && same_ports(&a.ports, &b.ports)
}

/// Whether two sets of rules are equal.
fn same_rules(a: &RuleSet, b: &RuleSet) -> (r: bool)
    ensures
        r == (a@ == b@),
{
    assert(a@.len() == a.rules@.len() && b@.len() == b.rules@.len());
    if a.rules.len() != b.rules.len() {
        return false;
    }
    let mut i: usize = 0;
    while i < a.rules.len()
        invariant
            i <= a.rules@.len(),
            a.rules@.len() == b.rules@.len(),
            a@.len() == a.rules@.len(),
            b@.len() == b.rules@.len(),
            forall|j: int| 0 <= j < i ==> a@[j] == b@[j],
        decreases a.rules.len() - i,
    {
        assert(a@[i as int] == a.rules@[i as int]@ && b@[i as int] == b.rules@[i as int]@);
        if !same_rule(&a.rules[i], &b.rules[i]) {
            return false;
        }
        i = i + 1;
    }
    assert(a@ =~= b@);
    true
}

/// Whether two optional sets of rules are equal.
fn same_optional_rules(a: &Option<RuleSet>, b: &Option<RuleSet>) -> (r: bool)
    ensures
        r == (rules_view(*a) == rules_view(*b)),
{
    match (a, b) {
        (None, None) => true,
        (Some(x), Some(y)) => same_rules(x, y),
        _ => false,
    }
}

impl TrafficPolicy {
    /// Whether two policies are equal.
    pub fn same_as(&self, other: &TrafficPolicy) -> (r: bool)
        ensures
            r == (self@ == other@),
    {
        same_optional_rules(&self.ingress, &other.ingress) && same_optional_rules(
            &self.egress,
            &other.egress,
        )
    }
}

/// A stored policy with its name.
type Entry = (String, Arc<TrafficPolicy>);

/// The place of a name among entries.
spec fn place(entries: Seq<Entry>, name: Seq<char>) -> int {
    choose|i: int| 0 <= i < entries.len() && (#[trigger] entries[i]).0@ == name
}

/// Whether an entry goes by a name.
spec fn named(entries: Seq<Entry>, name: Seq<char>) -> bool {
    exists|i: int| 0 <= i < entries.len() && (#[trigger] entries[i]).0@ == name
}

/// Whether no two entries go by one name.
spec fn distinct(entries: Seq<Entry>) -> bool {
    forall|i: int, j: int|
        0 <= i < j < entries.len() ==> (#[trigger] entries[i]).0@ != (#[trigger] entries[j]).0@
}

/// The policies that entries hold by name.
spec fn entries_view(entries: Seq<Entry>) -> Map<Seq<char>, PolicyView> {
    Map::new(
        |name: Seq<char>| named(entries, name),
        |name: Seq<char>| entries[place(entries, name)].1@,
    )
}

/// Among distinct entries, the one at `i` is found under its name.
proof fn entry_found(entries: Seq<Entry>, i: int)
    requires
        distinct(entries),
        0 <= i < entries.len(),
    ensures
        place(entries, entries[i].0@) == i,
        entries_view(entries).contains_key(entries[i].0@),
        entries_view(entries)[entries[i].0@] == entries[i].1@,
{
    let name = entries[i].0@;
    assert(named(entries, name));
    let p = place(entries, name);
    assert(0 <= p < entries.len() && entries[p].0@ == name);
}

/// Where the entry of a name stands, if there is one.
fn find(entries: &Vec<Entry>, name: &str) -> (r: Option<usize>)
    ensures
        match r {
            Some(i) => i < entries@.len() && entries@[i as int].0@ == name@,
            None => !named(entries@, name@),
        },
{
    let mut i: usize = 0;
    while i < entries.len()
        invariant
            i <= entries@.len(),
            forall|j: int| 0 <= j < i ==> (#[trigger] entries@[j]).0@ != name@,
        decreases entries.len() - i,
    {
        if text_equal(entries[i].0.as_str(), name) {
            return Some(i);
        }
        i = i + 1;
    }
    None
}

/// Shared compiled bodies, replaced atomically after validation.
#[derive(Debug)]
pub struct TrafficPolicyStore {
    resources: Vec<Entry>,
}

impl View for TrafficPolicyStore {
    type V = Map<Seq<char>, PolicyView>;

    closed spec fn view(&self) -> Map<Seq<char>, PolicyView> {
        entries_view(self.resources@)
    }
}

impl Default for TrafficPolicyStore {
    /// A store without policies.
    fn default() -> (r: TrafficPolicyStore)
        ensures
            r@ == Map::<Seq<char>, PolicyView>::empty(),
    {
        let r: TrafficPolicyStore = TrafficPolicyStore { resources: Vec::new() };
        assert(r@ =~= Map::<Seq<char>, PolicyView>::empty());
        r
    }
}

impl TrafficPolicyStore {
    /// Every policy goes by a name of its own.
    #[verifier::type_invariant]
    spec fn valid(self) -> bool {
        distinct(self.resources@)
    }

    /// All policies with their names, each once, in no particular order.
    pub fn iter(&self) -> (r: Vec<(&str, &TrafficPolicy)>)
        ensures
            forall|i: int|
                0 <= i < r@.len() ==> self@.contains_key((#[trigger] r@[i]).0@)
                    && self@[r@[i].0@] == r@[i].1@,
            forall|name: Seq<char>| #[trigger]
                self@.contains_key(name) ==> exists|i: int|
                    0 <= i < r@.len() && (#[trigger] r@[i]).0@ == name,
            forall|i: int, j: int|
                0 <= i < j < r@.len() ==> (#[trigger] r@[i]).0@ != (#[trigger] r@[j]).0@,
    {
        proof {
            use_type_invariant(self);
        }
        let mut all: Vec<(&str, &TrafficPolicy)> = Vec::new();
        let mut i: usize = 0;
        while i < self.resources.len()
            invariant
                i <= self.resources@.len(),
                all@.len() == i,
                forall|j: int|
                    0 <= j < i ==> (#[trigger] all@[j]).0@ == self.resources@[j].0@ && *all@[j].1
                        == *self.resources@[j].1,
            decreases self.resources.len() - i,
        {
            all.push((self.resources[i].0.as_str(), &*self.resources[i].1));
            i = i + 1;
        }
        proof {
            assert forall|j: int| 0 <= j < all@.len() implies self@.contains_key(
                (#[trigger] all@[j]).0@,
            ) && self@[all@[j].0@] == all@[j].1@ by {
                entry_found(self.resources@, j);
            }
            assert forall|name: Seq<char>| #[trigger] self@.contains_key(name) implies exists|j: int|
                0 <= j < all@.len() && (#[trigger] all@[j]).0@ == name by {
                let p = place(self.resources@, name);
                assert(named(self.resources@, name));
                assert(all@[p].0@ == name);
            }
        }
        all
    }

    /// The policy that goes by a name.
    pub fn get(&self, name: &str) -> (r: Option<&TrafficPolicy>)
        ensures
            match r {
                Some(policy) => self@.contains_key(name@) && self@[name@] == policy@,
                None => !self@.contains_key(name@),
            },
    {
        proof {
            use_type_invariant(self);
        }
        match find(&self.resources, name) {
            Some(i) => {
                proof {
                    entry_found(self.resources@, i as int);
                }
                Some(&*self.resources[i].1)
            },
            None => None,
        }
    }

    /// Takes in an update. One that is refused retains the last accepted policy.
    pub fn update(&mut self, update: XdsResource<proto::TrafficPolicy>) -> (r: Result<
        bool,
        UpdateError,
    >)
        ensures
            r == update_reply(
                old(self)@,
                update.name@,
                update_result(update.name@, update.resource),
            ),
            final(self)@ == updated(
                old(self)@,
                update.name@,
                update_result(update.name@, update.resource),
            ),
    {
        proof {
            use_type_invariant(&*self);
            reveal_strlit("*");
        }
        let name: String = update.name;
        if name.as_str().is_empty() || text_equal(name.as_str(), "*") {
            return Err(UpdateError::Name);
        }
        let policy: TrafficPolicy = match TrafficPolicy::try_from(&update.resource) {
            Err(e) => {
                return Err(UpdateError::Policy(e));
            },
            Ok(policy) => policy,
        };
        if let Some(current) = self.get(name.as_str()) {
            if current.same_as(&policy) {
                assert(old(self)@.insert(name@, policy@) =~= old(self)@);
                return Ok(false);
            }
        }
        let ghost before = self.resources@;
        let mut entries: Vec<Entry> = Vec::new();
        std::mem::swap(&mut entries, &mut self.resources);
        let found: Option<usize> = find(&entries, name.as_str());
        let ghost key = name@;
        let ghost value = policy@;
        match found {
            Some(i) => {
                entries.set(i, (name, Arc::new(policy)));
            },
            None => {
                entries.push((name, Arc::new(policy)));
            },
        }
        proof {
            let at = match found {
                Some(i) => i as int,
                None => before.len() as int,
            };
            assert(distinct(entries@));
            entry_found(entries@, at);
            assert forall|n: Seq<char>| named(entries@, n) == (n == key || named(before, n)) by {
                if named(before, n) && n != key {
                    let p = place(before, n);
                    assert(entries@[p].0@ == n);
                }
                if named(entries@, n) && n != key {
                    let p = place(entries@, n);
                    assert(before[p].0@ == n);
                }
            }
            assert forall|n: Seq<char>| n != key && #[trigger] named(before, n) implies entries_view(
                entries@,
            )[n] == entries_view(before)[n] by {
                let p = place(before, n);
                assert(before[p].0@ == n);
                entry_found(before, p);
                entry_found(entries@, p);
            }
            assert(entries_view(entries@) =~= entries_view(before).insert(key, value));
        }
        self.resources = entries;
        Ok(true)
    }

    /// Drops the policy that goes by a name, and says whether there was one.
    pub fn remove(&mut self, name: &str) -> (r: bool)
        ensures
            r == old(self)@.contains_key(name@),
            final(self)@ == old(self)@.remove(name@),
    {
        proof {
            use_type_invariant(&*self);
        }
        let ghost before = self.resources@;
        let mut entries: Vec<Entry> = Vec::new();
        std::mem::swap(&mut entries, &mut self.resources);
        let found: Option<usize> = find(&entries, name);
        let removed: bool = match found {
            Some(i) => {
                entries.remove(i);
                true
            },
            None => false,
        };
        proof {
            match found {
                Some(at) => {
                    let at = at as int;
                    entry_found(before, at);
                    assert(distinct(entries@));
                    assert forall|n: Seq<char>| named(entries@, n) == (n != name@ && named(before, n)) by {
                        if named(before, n) && n != name@ {
                            let p = place(before, n);
                            assert(before[p].0@ == n);
                            if p < at {
                                assert(entries@[p].0@ == n);
                            } else {
                                assert(entries@[p - 1].0@ == n);
                            }
                        }
                        if named(entries@, n) {
                            let p = place(entries@, n);
                            let q = if p < at {
                                p
                            } else {
                                p + 1
                            };
                            assert(before[q].0@ == n);
                        }
                    }
                    assert forall|n: Seq<char>| #[trigger] named(entries@, n) implies entries_view(
                        entries@,
                    )[n] == entries_view(before)[n] by {
                        let p = place(entries@, n);
                        let q = if p < at {
                            p
                        } else {
                            p + 1
                        };
                        assert(before[q].0@ == n);
                        entry_found(before, q);
                        entry_found(entries@, p);
                    }
                    assert(entries_view(entries@) =~= entries_view(before).remove(name@));
                },
                None => {
                    assert(entries_view(entries@) =~= entries_view(before).remove(name@));
                },
            }
        }
        self.resources = entries;
        removed
    }
}

/// A refused update leaves the store as it is, with the last accepted policy.
pub proof fn refused_update_retains(
    store: Map<Seq<char>, PolicyView>,
    name: Seq<char>,
    resource: proto::TrafficPolicy,
)
    ensures
        update_reply(store, name, update_result(name, resource)) is Err <==> !name_allowed(name)
            || policy_result(resource) is Err,
        update_reply(store, name, update_result(name, resource)) is Err ==> updated(
            store,
            name,
            update_result(name, resource),
        ) == store,
{
}

/// An accepted update is what a lookup finds, and no other name is touched.
pub proof fn accepted_update_is_found(
    store: Map<Seq<char>, PolicyView>,
    name: Seq<char>,
    resource: proto::TrafficPolicy,
)
    requires
        name_allowed(name),
        policy_result(resource) is Ok,
    ensures
        updated(store, name, update_result(name, resource)).contains_key(name),
        policy_result(resource) == Ok::<PolicyView, PolicyError>(
            updated(store, name, update_result(name, resource))[name],
        ),
        forall|other: Seq<char>|
            other != name ==> {
                &&& updated(store, name, update_result(name, resource)).contains_key(other)
                    == store.contains_key(other)
                &&& store.contains_key(other) ==> updated(
                    store,
                    name,
                    update_result(name, resource),
                )[other] == store[other]
            },
{
}

/// An update is answered "unchanged" exactly where it leaves the store as it is; taking in the
/// same update once more always is.
pub proof fn repeated_update_changes_nothing(
    store: Map<Seq<char>, PolicyView>,
    name: Seq<char>,
    result: Result<PolicyView, UpdateError>,
)
    requires
        result is Ok,
    ensures
        update_reply(store, name, result) == Ok::<bool, UpdateError>(false) <==> updated(
            store,
            name,
            result,
        ) == store,
        update_reply(updated(store, name, result), name, result) == Ok::<bool, UpdateError>(false),
        updated(updated(store, name, result), name, result) == updated(store, name, result),
{
    let policy = result->Ok_0;
    if store.contains_key(name) && store[name] == policy {
        assert(store.insert(name, policy) =~= store);
    } else if store.insert(name, policy) == store {
        assert(store.insert(name, policy).contains_key(name));
        assert(store.insert(name, policy)[name] == policy);
    }
    assert(store.insert(name, policy).insert(name, policy) =~= store.insert(name, policy));
}

/// No name that updates refuse ever gets into a store that lacks them.
pub proof fn refused_names_stay_out(
    store: Map<Seq<char>, PolicyView>,
    name: Seq<char>,
    resource: proto::TrafficPolicy,
)
    requires
        forall|n: Seq<char>| #[trigger] store.contains_key(n) ==> name_allowed(n),
    ensures
        forall|n: Seq<char>| #[trigger]
            updated(store, name, update_result(name, resource)).contains_key(n) ==> name_allowed(n),
{
}

/// Updates keep every policy in a store valid.
pub proof fn updates_keep_policies_valid(
    store: Map<Seq<char>, PolicyView>,
    name: Seq<char>,
    resource: proto::TrafficPolicy,
)
    requires
        forall|n: Seq<char>| #[trigger] store.contains_key(n) ==> policy_valid(store[n]),
    ensures
        forall|n: Seq<char>| #[trigger]
            updated(store, name, update_result(name, resource)).contains_key(n) ==> policy_valid(
                updated(store, name, update_result(name, resource))[n],
            ),
{
    converted_policy_is_valid(resource);
}

/// Only two names are refused, the empty one and the wildcard: under any other name an update
/// whose policy converts is accepted, and is what the store then holds under that name.
pub proof fn all_names_but_two_are_accepted(
    store: Map<Seq<char>, PolicyView>,
    name: Seq<char>,
    resource: proto::TrafficPolicy,
)
    ensures
        name != ""@ && name != "*"@ ==> match policy_result(resource) {
            Ok(policy) => {
                &&& update_reply(store, name, update_result(name, resource)) is Ok
                &&& updated(store, name, update_result(name, resource)) == store.insert(
                    name,
                    policy,
                )
            },
            Err(e) => {
                &&& update_reply(store, name, update_result(name, resource)) == Err::<
                    bool,
                    UpdateError,
                >(UpdateError::Policy(e))
                &&& updated(store, name, update_result(name, resource)) == store
            },
        },
        name == ""@ || name == "*"@ ==> {
            &&& update_reply(store, name, update_result(name, resource)) == Err::<
                bool,
                UpdateError,
            >(UpdateError::Name)
            &&& updated(store, name, update_result(name, resource)) == store
        },
{
    reveal_strlit("");
    reveal_strlit("*");
    if name.len() == 0 {
        assert(name =~= ""@);
    }
}

/// An accepted update is answered "changed" exactly where the store did not hold that very policy
/// under its name before.
pub proof fn changes_are_told(
    store: Map<Seq<char>, PolicyView>,
    name: Seq<char>,
    resource: proto::TrafficPolicy,
)
    ensures
        update_reply(store, name, update_result(name, resource)) matches Ok(changed) ==> {
            &&& policy_result(resource) is Ok
            &&& changed <==> !store.contains_key(name) || store[name] != policy_result(
                resource,
            )->Ok_0
        },
{
}

} // verus!
