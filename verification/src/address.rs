//! Socket addresses as plain values.

use vstd::prelude::*;
use vstd::std_specs::cmp::PartialEqSpecImpl;

verus! {

/// A socket address: the host in the textual form of its IP address, and the port.
#[derive(Debug, Eq)]
pub struct SocketAddress {
    /// The IP address as text.
    pub host: String,
    /// The port.
    pub port: u16,
}

/// A socket address as a mathematical value.
pub struct SocketAddressView {
    pub host: Seq<char>,
    pub port: u16,
}

impl View for SocketAddress {
    type V = SocketAddressView;

    open spec fn view(&self) -> SocketAddressView {
        SocketAddressView { host: self.host@, port: self.port }
    }
}

impl Clone for SocketAddress {
    fn clone(&self) -> (copy: Self)
        ensures
            copy@ == self@,
    {
        SocketAddress { host: self.host.clone(), port: self.port }
    }
}

impl PartialEq for SocketAddress {
    fn eq(&self, other: &Self) -> (equal: bool) {
        self.port == other.port && self.host == other.host
    }
}

impl PartialEqSpecImpl for SocketAddress {
    open spec fn obeys_eq_spec() -> bool {
        true
    }

    open spec fn eq_spec(&self, other: &Self) -> bool {
        self@ == other@
    }
}

impl SocketAddress {
    /// An address from its parts.
    pub fn new(host: String, port: u16) -> (address: Self)
        ensures
            address@ == (SocketAddressView { host: host@, port }),
    {
        SocketAddress { host, port }
    }
}

/// The addresses of a list as mathematical values.
pub open spec fn address_views(addresses: Seq<SocketAddress>) -> Seq<SocketAddressView> {
    Seq::new(addresses.len(), |i: int| addresses[i]@)
}

/// A copy of a list of addresses.
pub fn clone_addresses(addresses: &Vec<SocketAddress>) -> (copy: Vec<SocketAddress>)
    ensures
        address_views(copy@) == address_views(addresses@),
{
    let mut copy: Vec<SocketAddress> = Vec::with_capacity(addresses.len());
    let mut i: usize = 0;
    while i < addresses.len()
        invariant
            i <= addresses@.len(),
            copy@.len() == i,
            forall|j: int| 0 <= j < i ==> copy@[j]@ == addresses@[j]@,
        decreases addresses@.len() - i,
    {
        copy.push(addresses[i].clone());
        i = i + 1;
    }
    assert(address_views(copy@) =~= address_views(addresses@));
    copy
}

} // verus!
