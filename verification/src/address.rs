//! Host addresses, scan targets and the order in which both are presented.

use crate::segments::{lemma_segments_value_injective, segments_le, segments_value};
use vstd::prelude::*;

verus! {

/// A single host address: an IPv4 address as its 32-bit number, or an IPv6
/// address as its eight 16-bit segments, most significant first.
#[derive(Clone, Copy, Debug, PartialEq, Eq, PartialOrd, Ord, Hash)]
pub enum Address {
    V4(u32),
    V6([u16; 8]),
}

/// What an address stands for: its family and its number within the family.
pub struct AddressModel {
    pub v6: bool,
    pub value: nat,
}

impl View for Address {
    type V = AddressModel;

    open spec fn view(&self) -> AddressModel {
        match *self {
            Address::V4(number) => AddressModel { v6: false, value: number as nat },
            Address::V6(segments) => AddressModel { v6: true, value: segments_value(segments@) },
        }
    }
}

/// One unit of scan work: an address and a TCP port on it.
pub type Target = (Address, u16);

/// The 32-bit number that four octets spell, most significant octet first.
pub open spec fn octets_value(octets: Seq<u8>) -> nat {
    (octets[0] as nat) * 16777216 + (octets[1] as nat) * 65536 + (octets[2] as nat) * 256
        + octets[3] as nat
}

/// Whether an address is kept as a live host: an IPv4 address whose last
/// octet is 0 or 255 names a network or a broadcast address and is not; an
/// IPv6 address always is.
pub open spec fn is_host(a: AddressModel) -> bool {
    a.v6 || (a.value % 256 != 0 && a.value % 256 != 255)
}

/// The order of addresses: every IPv4 address before every IPv6 address, and
/// within a family by number.
pub open spec fn address_le(a: AddressModel, b: AddressModel) -> bool {
    if a.v6 == b.v6 {
        a.value <= b.value
    } else {
        !a.v6
    }
}

/// The order of targets: by address, then by port.
pub open spec fn target_le(a: (AddressModel, u16), b: (AddressModel, u16)) -> bool {
    if a.0 == b.0 {
        a.1 <= b.1
    } else {
        address_le(a.0, b.0)
    }
}

/// Two addresses that stand for the same thing are the same address.
pub proof fn lemma_view_injective(a: Address, b: Address)
    requires
        a@ == b@,
    ensures
        a == b,
{
    match (a, b) {
        (Address::V6(x), Address::V6(y)) => {
            lemma_segments_value_injective(x@, y@);
            assert(x =~= y);
        },
        _ => {},
    }
}

impl Address {
    /// The IPv4 address that four octets spell, most significant first.
    pub fn from_octets(octets: [u8; 4]) -> (address: Address)
        ensures
            address@ == (AddressModel { v6: false, value: octets_value(octets@) }),
    {
        let number: u32 = octets[0] as u32 * 16777216 + octets[1] as u32 * 65536 + octets[2] as u32
            * 256 + octets[3] as u32;
        Address::V4(number)
    }

    /// The four octets of an IPv4 address, most significant first; `None`
    /// for an IPv6 address. The last octet is the one that decides whether
    /// the address is a live host.
    pub fn octets(&self) -> (octets: Option<[u8; 4]>)
        ensures
            self@.v6 ==> octets.is_none(),
            !self@.v6 ==> octets.is_some() && octets_value(octets.unwrap()@) == self@.value
                && octets.unwrap()@[3] == self@.value % 256,
    {
        match self {
            Address::V4(number) => {
                let number: u32 = *number;
                Some(
                    [
                        (number / 16777216) as u8,
                        ((number / 65536) % 256) as u8,
                        ((number / 256) % 256) as u8,
                        (number % 256) as u8,
                    ],
                )
            },
            Address::V6(_) => None,
        }
    }

    /// Whether this is an IPv4 address.
    pub fn is_ipv4(&self) -> (result: bool)
        ensures
            result == !self@.v6,
    {
        match self {
            Address::V4(_) => true,
            Address::V6(_) => false,
        }
    }

    /// Whether both addresses belong to one family.
    pub fn same_family(&self, other: &Address) -> (result: bool)
        ensures
            result == (self@.v6 == other@.v6),
    {
        self.is_ipv4() == other.is_ipv4()
    }

    /// Whether the address is kept as a live host.
    pub fn is_host(&self) -> (result: bool)
        ensures
            result == is_host(self@),
    {
        match self {
            Address::V4(number) => {
                let last: u32 = *number % 256;
                last != 0 && last != 255
            },
            Address::V6(_) => true,
        }
    }

    /// Whether this address comes at or before `other`.
    pub fn precedes(&self, other: &Address) -> (result: bool)
        ensures
            result == address_le(self@, other@),
    {
        match (self, other) {
            (Address::V4(a), Address::V4(b)) => *a <= *b,
            (Address::V6(a), Address::V6(b)) => segments_le(*a, *b),
            (Address::V4(_), Address::V6(_)) => true,
            (Address::V6(_), Address::V4(_)) => false,
        }
    }
}

/// Whether target `a` comes at or before target `b`.
pub fn target_precedes(a: &Target, b: &Target) -> (result: bool)
    ensures
        result == target_le(a@, b@),
{
    let forward = a.0.precedes(&b.0);
    let backward = b.0.precedes(&a.0);
    if forward && backward {
        a.1 <= b.1
    } else {
        forward
    }
}

} // verus!
