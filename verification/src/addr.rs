//! Internet addresses as the reflector reads them.

use vstd::prelude::*;

verus! {

/// The port of multicast DNS.
pub const MDNS_PORT: u16 = 5353;

/// An IPv4 address, its first octet in the most significant byte.
#[derive(Clone, Copy, Debug, PartialEq, Eq, Structural)]
pub struct Ipv4Addr {
    pub bits: u32,
}

/// An IPv4 address and a port.
#[derive(Clone, Copy, Debug, PartialEq, Eq, Structural)]
pub struct SocketAddrV4 {
    pub ip: Ipv4Addr,
    pub port: u16,
}

/// Where a packet came from. Of an IPv6 sender nothing but its family is read.
#[derive(Clone, Copy, Debug, PartialEq, Eq, Structural)]
pub enum SocketAddr {
    V4(SocketAddrV4),
    V6,
}

/// The number whose base-256 digits, most significant first, are the octets.
pub open spec fn octets_value(octets: Seq<u8>) -> int
    decreases octets.len(),
{
    if octets.len() == 0 {
        0
    } else {
        octets_value(octets.drop_last()) * 256 + octets.last()
    }
}

impl Ipv4Addr {
    /// The address `a.b.c.d`.
    pub open spec fn of(a: u8, b: u8, c: u8, d: u8) -> Ipv4Addr {
        Ipv4Addr { bits: octets_value(seq![a, b, c, d]) as u32 }
    }

    /// The bitwise conjunction of the two addresses.
    pub open spec fn masked(self, mask: Ipv4Addr) -> Ipv4Addr {
        Ipv4Addr { bits: self.bits & mask.bits }
    }

    /// The address `a.b.c.d`.
    pub fn new(a: u8, b: u8, c: u8, d: u8) -> (addr: Ipv4Addr)
        ensures
            addr == Ipv4Addr::of(a, b, c, d),
            addr.bits == octets_value(seq![a, b, c, d]),
    {
        proof {
            lemma_octets_value(a, b, c, d);
        }
        let high: u32 = a as u32 * 256 + b as u32;
        let low: u32 = c as u32 * 256 + d as u32;
        Ipv4Addr { bits: high * 65536 + low }
    }

    /// The four octets, first one first.
    pub fn octets(&self) -> (octets: [u8; 4])
        ensures
            octets_value(octets@) == self.bits,
    {
        let a: u8 = (self.bits / 16777216) as u8;
        let b: u8 = (self.bits / 65536 % 256) as u8;
        let c: u8 = (self.bits / 256 % 256) as u8;
        let d: u8 = (self.bits % 256) as u8;
        proof {
            lemma_octets_value(a, b, c, d);
        }
        let octets: [u8; 4] = [a, b, c, d];
        assert(octets@ =~= seq![a, b, c, d]);
        octets
    }

    /// The bitwise conjunction of the two addresses: the network of `self`
    /// under `mask`.
    pub fn and(self, mask: Ipv4Addr) -> (network: Ipv4Addr)
        ensures
            network == self.masked(mask),
    {
        Ipv4Addr { bits: self.bits & mask.bits }
    }
}

/// 224.0.0.251, the group of multicast DNS.
#[verifier::allow_in_spec]
pub fn mdns_addr() -> Ipv4Addr
    returns
        Ipv4Addr::of(224, 0, 0, 251),
{
    Ipv4Addr::new(224, 0, 0, 251)
}

/// 0.0.0.0, the address that stands for any or for none.
#[verifier::allow_in_spec]
pub fn unspecified() -> Ipv4Addr
    returns
        (Ipv4Addr { bits: 0 }),
{
    Ipv4Addr { bits: 0 }
}

/// Where multicast DNS packets are sent.
#[verifier::allow_in_spec]
pub fn broadcast_mdns() -> SocketAddrV4
    returns
        (SocketAddrV4 { ip: mdns_addr(), port: MDNS_PORT }),
{
    SocketAddrV4 { ip: mdns_addr(), port: MDNS_PORT }
}

/// The value of four octets, written out.
pub proof fn lemma_octets_value(a: u8, b: u8, c: u8, d: u8)
    ensures
        octets_value(seq![a, b, c, d]) == a * 16777216 + b * 65536 + c * 256 + d,
{
    let abcd: Seq<u8> = seq![a, b, c, d];
    assert(abcd.drop_last() =~= seq![a, b, c]);
    assert(seq![a, b, c].drop_last() =~= seq![a, b]);
    assert(seq![a, b].drop_last() =~= seq![a]);
    assert(seq![a].drop_last() =~= Seq::<u8>::empty());
    reveal_with_fuel(octets_value, 5);
}

/// Four octets are known from their value: no address has two lists of them.
pub proof fn law_octets_are_unique(one: Seq<u8>, other: Seq<u8>)
    requires
        one.len() == 4,
        other.len() == 4,
        octets_value(one) == octets_value(other),
    ensures
        one == other,
{
    assert(one =~= seq![one[0], one[1], one[2], one[3]]);
    assert(other =~= seq![other[0], other[1], other[2], other[3]]);
    lemma_octets_value(one[0], one[1], one[2], one[3]);
    lemma_octets_value(other[0], other[1], other[2], other[3]);
}

/// The octets stand in the address in order, the first one in the most significant byte,
/// and are read from it again as they were.
pub proof fn law_octets_in_order(
    a: u8,
    b: u8,
    c: u8,
    d: u8,
    addr: Ipv4Addr,
    octets: [u8; 4],
)
    requires
        call_ensures(Ipv4Addr::new, (a, b, c, d), addr),
        call_ensures(Ipv4Addr::octets, (&addr,), octets),
    ensures
        addr.bits == a * 0x100_0000 + b * 0x1_0000 + c * 0x100 + d,
        octets@[0] == a,
        octets@[1] == b,
        octets@[2] == c,
        octets@[3] == d,
{
    lemma_octets_value(a, b, c, d);
    law_octets_are_unique(octets@, seq![a, b, c, d]);
}

/// Every address is made of its octets.
pub proof fn law_address_of_its_octets(addr: Ipv4Addr, octets: [u8; 4], again: Ipv4Addr)
    requires
        call_ensures(Ipv4Addr::octets, (&addr,), octets),
        call_ensures(Ipv4Addr::new, (octets@[0], octets@[1], octets@[2], octets@[3]), again),
    ensures
        addr.bits == octets@[0] * 0x100_0000 + octets@[1] * 0x1_0000 + octets@[2] * 0x100
            + octets@[3],
        again.bits == addr.bits,
{
    assert(octets@ =~= seq![octets@[0], octets@[1], octets@[2], octets@[3]]);
    lemma_octets_value(octets@[0], octets@[1], octets@[2], octets@[3]);
}

/// A network has each bit that both the address and the mask have, and no other.
pub proof fn law_network_bit_by_bit(addr: Ipv4Addr, mask: Ipv4Addr, network: Ipv4Addr, i: u32)
    requires
        i < 32,
        call_ensures(Ipv4Addr::and, (addr, mask), network),
    ensures
        network.bits >> i & 1 == 1 <==> addr.bits >> i & 1 == 1 && mask.bits >> i & 1 == 1,
{
    let a: u32 = addr.bits;
    let m: u32 = mask.bits;
    assert((a & m) >> i & 1 == 1 <==> a >> i & 1 == 1 && m >> i & 1 == 1) by (bit_vector)
        requires
            i < 32,
    ;
}

/// The addresses that the reflector knows: the group of multicast DNS, where its packets
/// go, and the one that stands for any.
pub proof fn law_known_addresses(group: Ipv4Addr, any: Ipv4Addr, to: SocketAddrV4)
    requires
        call_ensures(mdns_addr, (), group),
        call_ensures(unspecified, (), any),
        call_ensures(broadcast_mdns, (), to),
    ensures
        group.bits == 224 * 0x100_0000 + 251,
        any.bits == 0,
        to.ip.bits == 224 * 0x100_0000 + 251,
        to.port == 5353,
{
    lemma_octets_value(224, 0, 0, 251);
}

} // verus!
