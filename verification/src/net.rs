//! IP addresses and networks as plain values, computed on by `ipnet`.

use vstd::arithmetic::power2::pow2;
use vstd::prelude::*;

verus! {

/// An IP address, as the number that its bytes spell in network order.
#[derive(Clone, Copy, Debug, PartialEq, Eq, Hash, Structural)]
pub enum IpAddress {
    V4(u32),
    V6(u128),
}

impl IpAddress {
    /// How many bits an address of this family has.
    pub open spec fn width(self) -> nat {
        match self {
            IpAddress::V4(_) => 32,
            IpAddress::V6(_) => 128,
        }
    }

    /// The address as a number.
    pub open spec fn bits(self) -> nat {
        match self {
            IpAddress::V4(bits) => bits as nat,
            IpAddress::V6(bits) => bits as nat,
        }
    }
}

/// How many addresses share one prefix of `prefix` bits, out of `width`.
pub open spec fn block_size(width: nat, prefix: nat) -> nat {
    pow2((width - prefix) as nat)
}

/// Whether two addresses are of one family and agree in their first `prefix` bits.
pub open spec fn same_prefix(a: IpAddress, b: IpAddress, prefix: nat) -> bool {
    a.width() == b.width() && a.bits() / block_size(a.width(), prefix) == b.bits() / block_size(
        a.width(),
        prefix,
    )
}

/// Whether all bits of an address behind its first `prefix` bits are zero.
pub open spec fn host_bits_clear(a: IpAddress, prefix: nat) -> bool {
    a.bits() % block_size(a.width(), prefix) == 0
}

/// The address with all bits behind its first `prefix` bits cleared.
pub open spec fn truncated(a: IpAddress, prefix: nat) -> IpAddress {
    let cleared = a.bits() - a.bits() % block_size(a.width(), prefix);
    match a {
        IpAddress::V4(_) => IpAddress::V4(cleared as u32),
        IpAddress::V6(_) => IpAddress::V6(cleared as u128),
    }
}

/// Truncating keeps the prefix, clears the rest, and so holds the same addresses as before.
pub proof fn truncated_holds_the_same(a: IpAddress, prefix: nat)
    ensures
        same_prefix(truncated(a, prefix), a, prefix),
        host_bits_clear(truncated(a, prefix), prefix),
        forall|other: IpAddress|
            same_prefix(truncated(a, prefix), other, prefix) == same_prefix(a, other, prefix),
{
    let block = block_size(a.width(), prefix);
    vstd::arithmetic::power2::lemma_pow2_pos((a.width() - prefix) as nat);
    let bits = a.bits() as int;
    let quotient = bits / (block as int);
    vstd::arithmetic::div_mod::lemma_fundamental_div_mod(bits, block as int);
    vstd::arithmetic::div_mod::lemma_mod_bound(bits, block as int);
    assert(0 <= bits - bits % (block as int)) by {
        vstd::arithmetic::div_mod::lemma_mod_decreases(a.bits(), block);
    }
    let cleared = bits - bits % (block as int);
    assert(truncated(a, prefix).bits() == cleared);
    assert(cleared == quotient * (block as int)) by (nonlinear_arith)
        requires
            bits == block * quotient + bits % (block as int),
            cleared == bits - bits % (block as int),
    ;
    vstd::arithmetic::div_mod::lemma_div_multiples_vanish(quotient, block as int);
    vstd::arithmetic::div_mod::lemma_mod_multiples_basic(quotient, block as int);
    assert(quotient * (block as int) == (block as int) * quotient) by (nonlinear_arith);
}

/// Truncating twice is truncating once.
pub proof fn truncated_twice(a: IpAddress, prefix: nat)
    ensures
        truncated(truncated(a, prefix), prefix) == truncated(a, prefix),
{
    truncated_holds_the_same(a, prefix);
}

/// The number that bytes spell in network order.
pub open spec fn be_value(bytes: Seq<u8>) -> nat
    decreases bytes.len(),
{
    if bytes.len() == 0 {
        0
    } else {
        be_value(bytes.drop_last()) * 256 + bytes.last() as nat
    }
}

/// The address that four or sixteen bytes spell; no other length is an address.
pub open spec fn address_of(bytes: Seq<u8>) -> Option<IpAddress> {
    if bytes.len() == 4 {
        Some(IpAddress::V4(be_value(bytes) as u32))
    } else if bytes.len() == 16 {
        Some(IpAddress::V6(be_value(bytes) as u128))
    } else {
        None
    }
}

/// `be_value` of `n` bytes is below 256 to the `n`.
pub proof fn be_value_bound(bytes: Seq<u8>)
    ensures
        be_value(bytes) < pow2(8 * bytes.len()),
    decreases bytes.len(),
{
    if bytes.len() == 0 {
        vstd::arithmetic::power2::lemma2_to64();
    } else {
        let front = bytes.drop_last();
        be_value_bound(front);
        vstd::arithmetic::power2::lemma_pow2_adds(8 * front.len(), 8);
        vstd::arithmetic::power2::lemma2_to64();
        let high = be_value(front);
        let limit = pow2(8 * front.len());
        assert(high * 256 + 255 < limit * 256) by (nonlinear_arith)
            requires
                high < limit,
        ;
    }
}

/// Reads an address from its bytes.
pub fn byte_to_ip(bytes: &[u8]) -> (r: Option<IpAddress>)
    ensures
        r == address_of(bytes@),
{
    if bytes.len() != 4 && bytes.len() != 16 {
        return None;
    }
    let mut value: u128 = 0;
    let mut i: usize = 0;
    proof {
        be_value_bound(bytes@);
        vstd::arithmetic::power2::lemma2_to64();
        vstd::arithmetic::power2::lemma2_to64_rest();
        vstd::arithmetic::power2::lemma_pow2_adds(64, 64);
    }
    while i < bytes.len()
        invariant
            i <= bytes@.len(),
            bytes@.len() <= 16,
            value == be_value(bytes@.take(i as int)),
        decreases bytes.len() - i,
    {
        proof {
            let next = bytes@.take(i + 1);
            assert(next.drop_last() =~= bytes@.take(i as int));
            be_value_bound(next);
            vstd::arithmetic::power2::lemma2_to64();
            vstd::arithmetic::power2::lemma2_to64_rest();
            vstd::arithmetic::power2::lemma_pow2_adds(64, 64);
            if i < 15 {
                vstd::arithmetic::power2::lemma_pow2_strictly_increases(8 * (i + 1) as nat, 128);
            }
        }
        value = value * 256 + bytes[i] as u128;
        i = i + 1;
    }
    assert(bytes@.take(i as int) =~= bytes@);
    if bytes.len() == 4 {
        Some(IpAddress::V4(value as u32))
    } else {
        Some(IpAddress::V6(value))
    }
}

/// `ipnet`'s complaint about a prefix that is longer than the address.
#[verifier::external_type_specification]
#[verifier::external_body]
pub struct ExPrefixLenError(ipnet::PrefixLenError);

/// `ipnet::IpNet::new`: refuses a prefix that is longer than the address, and else keeps both
/// as they are.
#[verifier::external_body]
fn ipnet_new(address: IpAddress, prefix: u8) -> (r: Result<
    (IpAddress, u8),
    ipnet::PrefixLenError,
>)
    ensures
        r is Ok <==> prefix <= address.width(),
        r matches Ok(net) ==> net == (address, prefix),
{
    let net = match address {
        IpAddress::V4(bits) => ipnet::IpNet::new(bits.to_be_bytes().into(), prefix)?,
        IpAddress::V6(bits) => ipnet::IpNet::new(bits.to_be_bytes().into(), prefix)?,
    };
    Ok(match net {
        ipnet::IpNet::V4(v4) => (IpAddress::V4(v4.addr().into()), v4.prefix_len()),
        ipnet::IpNet::V6(v6) => (IpAddress::V6(v6.addr().into()), v6.prefix_len()),
    })
}

/// `ipnet::IpNet::trunc`: the address keeps its first `prefix` bits and loses all others.
#[verifier::external_body]
fn ipnet_trunc(address: IpAddress, prefix: u8) -> (r: IpAddress)
    requires
        prefix <= address.width(),
    ensures
        r == truncated(address, prefix as nat),
{
    let net = match address {
        IpAddress::V4(bits) => ipnet::IpNet::new_assert(bits.to_be_bytes().into(), prefix),
        IpAddress::V6(bits) => ipnet::IpNet::new_assert(bits.to_be_bytes().into(), prefix),
    };
    match net.trunc() {
        ipnet::IpNet::V4(v4) => IpAddress::V4(v4.addr().into()),
        ipnet::IpNet::V6(v6) => IpAddress::V6(v6.addr().into()),
    }
}

/// `ipnet::IpNet::contains` on a single address: true of the addresses of the network's family
/// that agree with it in the first `prefix` bits.
#[verifier::external_body]
fn ipnet_contains(address: IpAddress, prefix: u8, other: IpAddress) -> (r: bool)
    requires
        prefix <= address.width(),
    ensures
        r == same_prefix(address, other, prefix as nat),
{
    let net = match address {
        IpAddress::V4(bits) => ipnet::IpNet::new_assert(bits.to_be_bytes().into(), prefix),
        IpAddress::V6(bits) => ipnet::IpNet::new_assert(bits.to_be_bytes().into(), prefix),
    };
    let host = match other {
        IpAddress::V4(bits) => ipnet::IpNet::new_assert(bits.to_be_bytes().into(), 32),
        IpAddress::V6(bits) => ipnet::IpNet::new_assert(bits.to_be_bytes().into(), 128),
    };
    net.contains(&host.addr())
}

/// An address with the length of the prefix that counts.
#[derive(Clone, Copy, Debug, PartialEq, Eq, Hash, Structural)]
pub struct Network {
    address: IpAddress,
    prefix: u8,
}

impl Network {
    /// The prefix is no longer than the address.
    #[verifier::type_invariant]
    spec fn valid(self) -> bool {
        self.prefix <= self.address.width()
    }

    /// The network of an address and a prefix length.
    pub closed spec fn of(address: IpAddress, prefix: u8) -> Network {
        Network { address, prefix }
    }

    /// The address that the network was written with.
    pub closed spec fn addr_spec(self) -> IpAddress {
        self.address
    }

    /// How many leading bits count.
    pub closed spec fn prefix_spec(self) -> u8 {
        self.prefix
    }

    /// Whether an address lies in the network.
    pub open spec fn holds(self, other: IpAddress) -> bool {
        same_prefix(self.addr_spec(), other, self.prefix_spec() as nat)
    }

    /// Address and prefix length are all there is to a network.
    pub broadcast proof fn of_parts(address: IpAddress, prefix: u8)
        ensures
            (#[trigger] Network::of(address, prefix)).addr_spec() == address,
            Network::of(address, prefix).prefix_spec() == prefix,
    {
    }

    /// The network of an address and a prefix length, unless the prefix is too long.
    pub fn new(address: IpAddress, prefix: u8) -> (r: Option<Network>)
        ensures
            r == (if prefix <= address.width() {
                Some(Network::of(address, prefix))
            } else {
                None
            }),
    {
        match ipnet_new(address, prefix) {
            Ok((address, prefix)) => Some(Network { address, prefix }),
            Err(_) => None,
        }
    }

    /// The address part.
    pub fn addr(&self) -> (r: IpAddress)
        ensures
            r == self.addr_spec(),
    {
        self.address
    }

    /// The prefix length.
    pub fn prefix_len(&self) -> (r: u8)
        ensures
            r == self.prefix_spec(),
            r <= self.addr_spec().width(),
    {
        proof {
            use_type_invariant(self);
        }
        self.prefix
    }

    /// The same network with all bits behind the prefix cleared.
    pub fn trunc(&self) -> (r: Network)
        ensures
            r == Network::of(
                truncated(self.addr_spec(), self.prefix_spec() as nat),
                self.prefix_spec(),
            ),
    {
        proof {
            use_type_invariant(self);
        }
        Network { address: ipnet_trunc(self.address, self.prefix), prefix: self.prefix }
    }

    /// Whether an address lies in the network.
    pub fn contains(&self, other: IpAddress) -> (r: bool)
        ensures
            r == self.holds(other),
    {
        proof {
            use_type_invariant(self);
        }
        ipnet_contains(self.address, self.prefix, other)
    }
}

/// An address lies in a network exactly where it is of the network's family and agrees with the
/// network's address in as many leading bits as the prefix is long.
pub proof fn networks_hold_their_prefix(network: Network, ip: IpAddress)
    ensures
        match (network.addr_spec(), ip) {
            (IpAddress::V4(a), IpAddress::V4(b)) => network.holds(ip) <==> a as nat / pow2(
                (32 - network.prefix_spec()) as nat,
            ) == b as nat / pow2((32 - network.prefix_spec()) as nat),
            (IpAddress::V6(a), IpAddress::V6(b)) => network.holds(ip) <==> a as nat / pow2(
                (128 - network.prefix_spec()) as nat,
            ) == b as nat / pow2((128 - network.prefix_spec()) as nat),
            _ => !network.holds(ip),
        },
{
}

/// A network without a prefix holds every address of its family.
pub proof fn empty_prefixes_hold_all(network: Network, ip: IpAddress)
    requires
        network.prefix_spec() == 0,
        network.addr_spec() is V4 <==> ip is V4,
    ensures
        network.holds(ip),
{
    vstd::arithmetic::power2::lemma2_to64();
    vstd::arithmetic::power2::lemma2_to64_rest();
    vstd::arithmetic::power2::lemma_pow2_adds(64, 64);
    vstd::arithmetic::div_mod::lemma_basic_div(
        network.addr_spec().bits() as int,
        pow2(network.addr_spec().width()) as int,
    );
    vstd::arithmetic::div_mod::lemma_basic_div(
        ip.bits() as int,
        pow2(network.addr_spec().width()) as int,
    );
}

/// A network whose prefix is the whole address holds that address alone.
pub proof fn full_prefixes_hold_one(network: Network, ip: IpAddress)
    requires
        match network.addr_spec() {
            IpAddress::V4(_) => network.prefix_spec() == 32,
            IpAddress::V6(_) => network.prefix_spec() == 128,
        },
    ensures
        network.holds(ip) <==> ip == network.addr_spec(),
{
    vstd::arithmetic::power2::lemma2_to64();
    assert(network.addr_spec().bits() / 1 == network.addr_spec().bits());
    assert(ip.bits() / 1 == ip.bits());
}

/// A shorter prefix holds at least what a longer one does.
pub proof fn shorter_prefixes_hold_more(address: IpAddress, ip: IpAddress, short: u8, long: u8)
    requires
        short <= long,
        match address {
            IpAddress::V4(_) => long <= 32,
            IpAddress::V6(_) => long <= 128,
        },
        Network::of(address, long).holds(ip),
    ensures
        Network::of(address, short).holds(ip),
{
    let w = address.width();
    let low = (w - long) as nat;
    let more = (long - short) as nat;
    vstd::arithmetic::power2::lemma_pow2_adds(low, more);
    vstd::arithmetic::power2::lemma_pow2_pos(low);
    vstd::arithmetic::power2::lemma_pow2_pos(more);
    assert(low + more == w - short);
    vstd::arithmetic::div_mod::lemma_div_denominator(
        address.bits() as int,
        pow2(low) as int,
        pow2(more) as int,
    );
    vstd::arithmetic::div_mod::lemma_div_denominator(
        ip.bits() as int,
        pow2(low) as int,
        pow2(more) as int,
    );
}

/// Truncating clears the bits behind the prefix and nothing else: what is lost is less than one
/// step of the last bit that is kept, and what is left is a multiple of that step.
pub proof fn truncation_clears_low_bits(address: IpAddress, prefix: nat)
    requires
        match address {
            IpAddress::V4(_) => prefix <= 32,
            IpAddress::V6(_) => prefix <= 128,
        },
    ensures
        match (address, truncated(address, prefix)) {
            (IpAddress::V4(a), IpAddress::V4(c)) => {
                &&& c <= a
                &&& a - c < pow2((32 - prefix) as nat)
                &&& c as nat % pow2((32 - prefix) as nat) == 0
            },
            (IpAddress::V6(a), IpAddress::V6(c)) => {
                &&& c <= a
                &&& a - c < pow2((128 - prefix) as nat)
                &&& c as nat % pow2((128 - prefix) as nat) == 0
            },
            _ => false,
        },
{
    truncated_holds_the_same(address, prefix);
    let block = pow2((address.width() - prefix) as nat);
    vstd::arithmetic::power2::lemma_pow2_pos((address.width() - prefix) as nat);
    vstd::arithmetic::div_mod::lemma_mod_bound(address.bits() as int, block as int);
    vstd::arithmetic::div_mod::lemma_mod_decreases(address.bits(), block);
}

/// Each byte comes back from the number that bytes spell, the first from its highest bits.
pub proof fn spelled_bytes_come_back(bytes: Seq<u8>, i: int)
    requires
        0 <= i < bytes.len(),
    ensures
        be_value(bytes) / pow2((8 * (bytes.len() - 1 - i)) as nat) % 256 == bytes[i],
    decreases bytes.len(),
{
    vstd::arithmetic::power2::lemma2_to64();
    let front = bytes.drop_last();
    let high = be_value(front);
    let last = bytes.last() as nat;
    if i == bytes.len() - 1 {
        assert(be_value(bytes) / 1 == be_value(bytes));
        assert((high * 256 + last) % 256 == last);
    } else {
        spelled_bytes_come_back(front, i);
        let k = (8 * (front.len() - 1 - i)) as nat;
        assert(8 * (bytes.len() - 1 - i) == 8 + k);
        vstd::arithmetic::power2::lemma_pow2_adds(8, k);
        vstd::arithmetic::power2::lemma_pow2_pos(k);
        vstd::arithmetic::div_mod::lemma_div_denominator(
            be_value(bytes) as int,
            256,
            pow2(k) as int,
        );
        assert((high * 256 + last) / 256 == high);
        assert(front[i] == bytes[i]);
    }
}

/// Four bytes spell an address of 32 bits, sixteen one of 128, the first byte highest, and no
/// other number of bytes spells one.
pub proof fn bytes_spell_addresses(bytes: Seq<u8>)
    ensures
        match address_of(bytes) {
            Some(IpAddress::V4(bits)) => bytes.len() == 4 && bits == ((bytes[0] * 256 + bytes[1])
                * 256 + bytes[2]) * 256 + bytes[3],
            Some(IpAddress::V6(bits)) => bytes.len() == 16 && forall|i: int|
                0 <= i < 16 ==> bits as nat / pow2((8 * (15 - i)) as nat) % 256
                    == #[trigger] bytes[i],
            None => bytes.len() != 4 && bytes.len() != 16,
        },
{
    be_value_bound(bytes);
    vstd::arithmetic::power2::lemma2_to64();
    vstd::arithmetic::power2::lemma2_to64_rest();
    vstd::arithmetic::power2::lemma_pow2_adds(64, 64);
    if bytes.len() == 4 {
        reveal_with_fuel(be_value, 5);
        assert(bytes.drop_last().drop_last().drop_last().drop_last().len() == 0);
    }
    if bytes.len() == 16 {
        assert forall|i: int| 0 <= i < 16 implies be_value(bytes) / pow2((8 * (15 - i)) as nat)
            % 256 == #[trigger] bytes[i] by {
            spelled_bytes_come_back(bytes, i);
        }
    }
}

/// Bytes that spell the same address are the same.
pub proof fn addresses_are_spelled_in_one_way(a: Seq<u8>, b: Seq<u8>)
    requires
        address_of(a) is Some,
        address_of(a) == address_of(b),
    ensures
        a == b,
{
    bytes_spell_addresses(a);
    bytes_spell_addresses(b);
    be_value_bound(a);
    be_value_bound(b);
    vstd::arithmetic::power2::lemma2_to64();
    vstd::arithmetic::power2::lemma2_to64_rest();
    vstd::arithmetic::power2::lemma_pow2_adds(64, 64);
    assert(be_value(a) == be_value(b));
    assert forall|i: int| 0 <= i < a.len() implies a[i] == b[i] by {
        spelled_bytes_come_back(a, i);
        spelled_bytes_come_back(b, i);
    }
    assert(a =~= b);
}

} // verus!
