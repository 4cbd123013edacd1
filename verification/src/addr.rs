//! Network addresses as plain values.

use vstd::prelude::*;

verus! {

/// An IP address, as its octets in network order.
#[derive(Clone, Copy, Debug, PartialEq, Eq)]
pub enum IpAddr {
    V4([u8; 4]),
    V6([u8; 16]),
}

/// A UDP endpoint. `flowinfo` and `scope_id` are zero for IPv4.
#[derive(Clone, Copy, Debug, PartialEq, Eq)]
pub struct SocketAddr {
    pub ip: IpAddr,
    pub port: u16,
    pub flowinfo: u32,
    pub scope_id: u32,
}

impl IpAddr {
    /// The octets of the address, in network order.
    pub open spec fn octets_spec(self) -> Seq<u8> {
        match self {
            IpAddr::V4(a) => a@,
            IpAddr::V6(a) => a@,
        }
    }

    /// The octets of the address, in network order.
    pub fn octets(&self) -> (octets: Vec<u8>)
        ensures
            octets@ == self.octets_spec(),
            self matches IpAddr::V4(a) ==> octets@ == a@,
            self matches IpAddr::V6(a) ==> octets@ == a@,
    {
        let mut octets: Vec<u8> = Vec::new();
        match self {
            IpAddr::V4(a) => {
                octets.extend_from_slice(a.as_slice());
            },
            IpAddr::V6(a) => {
                octets.extend_from_slice(a.as_slice());
            },
        }
        assert(octets@ =~= self.octets_spec());
        octets
    }
}

/// Two addresses of one family are equal exactly when their octets are.
pub proof fn lemma_octets_injective(a: IpAddr, b: IpAddr)
    requires
        (a is V4) == (b is V4),
        a.octets_spec() == b.octets_spec(),
    ensures
        a == b,
{
    match (a, b) {
        (IpAddr::V4(x), IpAddr::V4(y)) => {
            assert(x == y) by {
                assert(x@ =~= y@);
            }
        },
        (IpAddr::V6(x), IpAddr::V6(y)) => {
            assert(x == y) by {
                assert(x@ =~= y@);
            }
        },
        _ => {},
    }
}

/// The octets of an address are the ones that it is made of: four or sixteen.
pub proof fn law_octets(ip: IpAddr)
    ensures
        ip matches IpAddr::V4(a) ==> ip.octets_spec() == a@ && ip.octets_spec().len() == 4,
        ip matches IpAddr::V6(a) ==> ip.octets_spec() == a@ && ip.octets_spec().len() == 16,
{
}

} // verus!
