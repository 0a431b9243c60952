//! Internet addresses and networks as plain integers.

use vstd::prelude::*;

verus! {

/// An internet address: the 32 bits of an IPv4 address or the 128 bits of an
/// IPv6 address, most significant octet first.
#[derive(Clone, Copy, Debug, PartialEq, Eq, Hash, Structural)]
pub enum Ip {
    V4(u32),
    V6(u128),
}

/// The IPv4 mask whose first `length` bits are set.
pub open spec fn mask_v4(length: u8) -> u32 {
    if length == 0 {
        0u32
    } else if length >= 32 {
        0xffff_ffffu32
    } else {
        0xffff_ffffu32 << ((32 - length) as u32)
    }
}

/// The IPv6 mask whose first `length` bits are set.
pub open spec fn mask_v6(length: u8) -> u128 {
    if length == 0 {
        0u128
    } else if length >= 128 {
        0xffff_ffff_ffff_ffff_ffff_ffff_ffff_ffffu128
    } else {
        0xffff_ffff_ffff_ffff_ffff_ffff_ffff_ffffu128 << ((128 - length) as u128)
    }
}

/// Whether `address` with `length` names a network: the length fits the
/// address family and every bit after the first `length` bits is zero.
pub open spec fn is_network(address: Ip, length: u8) -> bool {
    match address {
        Ip::V4(bits) => length <= 32 && bits & !mask_v4(length) == 0,
        Ip::V6(bits) => length <= 128 && bits & !mask_v6(length) == 0,
    }
}

/// Whether `address` lies in the network `network`/`length`: both are of the
/// same family and agree on the first `length` bits.
pub open spec fn network_contains(network: Ip, length: u8, address: Ip) -> bool {
    match (network, address) {
        (Ip::V4(n), Ip::V4(a)) => n & mask_v4(length) == a & mask_v4(length),
        (Ip::V6(n), Ip::V6(a)) => n & mask_v6(length) == a & mask_v6(length),
        _ => false,
    }
}

fn compute_mask_v4(length: u8) -> (mask: u32)
    ensures
        mask == mask_v4(length),
{
    if length == 0 {
        0u32
    } else if length >= 32 {
        0xffff_ffffu32
    } else {
        0xffff_ffffu32 << ((32 - length) as u32)
    }
}

fn compute_mask_v6(length: u8) -> (mask: u128)
    ensures
        mask == mask_v6(length),
{
    if length == 0 {
        0u128
    } else if length >= 128 {
        0xffff_ffff_ffff_ffff_ffff_ffff_ffff_ffffu128
    } else {
        0xffff_ffff_ffff_ffff_ffff_ffff_ffff_ffffu128 << ((128 - length) as u128)
    }
}

impl Ip {
    /// The IPv4 address `a.b.c.d`.
    pub fn v4(a: u8, b: u8, c: u8, d: u8) -> (ip: Ip)
        ensures
            ip == Ip::V4(quad(a, b, c, d)),
    {
        let bits: u32 = ((a as u32) << 24) | ((b as u32) << 16) | ((c as u32) << 8) | (d as u32);
        Ip::V4(bits)
    }
}

/// The 32 bits of the IPv4 address `a.b.c.d`.
pub open spec fn quad(a: u8, b: u8, c: u8, d: u8) -> u32 {
    ((a as u32) << 24) | ((b as u32) << 16) | ((c as u32) << 8) | (d as u32)
}

/// `cidr::errors::NetworkParseError`: why the `cidr` crate reads a text as
/// no network. Nothing of its inside is known here.
#[verifier::external_type_specification]
#[verifier::external_body]
pub struct ExNetworkParseError(cidr::errors::NetworkParseError);

/// The network that the `cidr` crate reads `text` as, if it reads it as one.
pub uninterp spec fn network_spelled(text: Seq<char>) -> Option<Cidr>;

/// `<cidr::IpCidr as FromStr>::from_str`. Trusted: whether the text is read
/// as a network, and as which, depends on the text alone. A network that the
/// crate hands out has no bit set after its length, so what comes back is a
/// `Cidr` as this library holds it.
#[verifier::external_body]
pub(crate) fn cidr_from_str(text: &str) -> (made: Result<Cidr, cidr::errors::NetworkParseError>)
    ensures
        match made {
            Ok(network) => network_spelled(text@) == Some(network),
            Err(_) => network_spelled(text@) is None,
        },
{
    Ok(match text.parse::<cidr::IpCidr>()? {
        cidr::IpCidr::V4(found) => {
            Cidr { address: Ip::V4(found.first_address().into()), length: found.network_length() }
        },
        cidr::IpCidr::V6(found) => {
            Cidr { address: Ip::V6(found.first_address().into()), length: found.network_length() }
        },
    })
}

/// A network: its first address and the number of leading bits that every
/// address in it shares.
#[derive(Clone, Copy, Debug, PartialEq, Eq, Hash)]
pub struct Cidr {
    address: Ip,
    length: u8,
}

impl Cidr {
    #[verifier::type_invariant]
    spec fn well_formed(self) -> bool {
        is_network(self.address, self.length)
    }

    /// The network `address`/`length`.
    pub closed spec fn of(address: Ip, length: u8) -> Cidr {
        Cidr { address, length }
    }

    /// A network is made of its first address and its length.
    pub proof fn lemma_of(address: Ip, length: u8)
        ensures
            Cidr::of(address, length).network() == address,
            Cidr::of(address, length).prefix() == length,
    {
    }

    /// The first address of the network.
    pub closed spec fn network(self) -> Ip {
        self.address
    }

    /// The number of leading bits that the network fixes.
    pub closed spec fn prefix(self) -> u8 {
        self.length
    }

    /// Whether the network holds `address`.
    pub open spec fn holds(self, address: Ip) -> bool {
        network_contains(self.network(), self.prefix(), address)
    }

    /// The network `address`/`length`, or `None` where the length is longer
    /// than the address or a bit after the first `length` bits is set.
    pub fn new(address: Ip, length: u8) -> (made: Option<Cidr>)
        ensures
            made == if is_network(address, length) {
                Some(Cidr::of(address, length))
            } else {
                None
            },
    {
        let fits = match address {
            Ip::V4(bits) => length <= 32 && bits & !compute_mask_v4(length) == 0,
            Ip::V6(bits) => length <= 128 && bits & !compute_mask_v6(length) == 0,
        };
        if fits {
            Some(Cidr { address, length })
        } else {
            None
        }
    }

    /// The network that holds `address` alone.
    pub fn new_host(address: Ip) -> (cidr: Cidr)
        ensures
            cidr == Cidr::of(
                address,
                match address {
                    Ip::V4(_) => 32u8,
                    Ip::V6(_) => 128u8,
                },
            ),
    {
        match address {
            Ip::V4(bits) => {
                assert(bits & !0xffff_ffffu32 == 0) by (bit_vector);
                Cidr { address, length: 32 }
            },
            Ip::V6(bits) => {
                assert(bits & !0xffff_ffff_ffff_ffff_ffff_ffff_ffff_ffffu128 == 0) by (bit_vector);
                Cidr { address, length: 128 }
            },
        }
    }

    /// The first address of the network.
    pub fn first_address(&self) -> (address: Ip)
        ensures
            address == self.network(),
    {
        self.address
    }

    /// The number of leading bits that the network fixes.
    pub fn network_length(&self) -> (length: u8)
        ensures
            length == self.prefix(),
    {
        self.length
    }

    /// Whether `address` lies in the network. An address of the other family
    /// never does.
    pub fn contains(&self, address: &Ip) -> (inside: bool)
        ensures
            inside == self.holds(*address),
    {
        match (self.address, *address) {
            (Ip::V4(n), Ip::V4(a)) => {
                let mask = compute_mask_v4(self.length);
                n & mask == a & mask
            },
            (Ip::V6(n), Ip::V6(a)) => {
                let mask = compute_mask_v6(self.length);
                n & mask == a & mask
            },
            _ => false,
        }
    }
}

} // verus!
