//! Building the list of scan targets from addresses and ports.

use crate::address::{Address, Target};
use vstd::prelude::*;

verus! {

/// The targets on one address: one for each port, in the order of the ports.
pub open spec fn targets_of(address: Address, ports: Seq<u16>) -> Seq<Target> {
    Seq::new(ports.len(), |j: int| (address, ports[j]))
}

/// The function that gives each address its targets on `ports`.
pub open spec fn on_ports(ports: Seq<u16>) -> spec_fn(Address) -> Seq<Target> {
    |address: Address| targets_of(address, ports)
}

/// Every address paired with every port, address by address: all targets of
/// the first address, then all of the second, and so on.
pub open spec fn cross_product(addresses: Seq<Address>, ports: Seq<u16>) -> Seq<Target> {
    addresses.flat_map(on_ports(ports))
}

/// Laying the targets of one more address behind a cross product gives the
/// cross product with that address added.
proof fn lemma_cross_product_push(front: Seq<Address>, last: Address, ports: Seq<u16>)
    ensures
        cross_product(front.push(last), ports) == cross_product(front, ports) + targets_of(
            last,
            ports,
        ),
{
    front.lemma_flat_map_push(on_ports(ports), last);
}

/// The cross product holds one target for each pair of an address and a
/// port.
pub proof fn lemma_cross_product_len(addresses: Seq<Address>, ports: Seq<u16>)
    ensures
        cross_product(addresses, ports).len() == addresses.len() * ports.len(),
    decreases addresses.len(),
{
    let width = ports.len() as int;
    if addresses.len() == 0 {
        assert(addresses.map_values(on_ports(ports)) =~= Seq::<Seq<Target>>::empty());
        assert(0 * width == 0);
    } else {
        let front = addresses.drop_last();
        let count = front.len() as int;
        lemma_cross_product_len(front, ports);
        assert(addresses =~= front.push(addresses.last()));
        lemma_cross_product_push(front, addresses.last(), ports);
        assert((count + 1) * width == count * width + width) by (nonlinear_arith);
    }
}

/// In the cross product the target of address `i` and port `j` stands at
/// index `i * ports.len() + j`.
pub proof fn lemma_cross_product_index(addresses: Seq<Address>, ports: Seq<u16>, i: int, j: int)
    requires
        0 <= i < addresses.len(),
        0 <= j < ports.len(),
    ensures
        0 <= i * ports.len() + j < cross_product(addresses, ports).len(),
        cross_product(addresses, ports)[i * ports.len() + j] == (addresses[i], ports[j]),
    decreases addresses.len(),
{
    let width = ports.len() as int;
    let front = addresses.drop_last();
    let count = front.len() as int;
    assert(addresses =~= front.push(addresses.last()));
    lemma_cross_product_push(front, addresses.last(), ports);
    lemma_cross_product_len(front, ports);
    lemma_cross_product_len(addresses, ports);
    if i < count {
        lemma_cross_product_index(front, ports, i, j);
        assert(count * width <= (count + 1) * width) by (nonlinear_arith)
            requires
                width >= 0,
        ;
    } else {
        assert(i * width == count * width);
        assert((count + 1) * width == count * width + width) by (nonlinear_arith);
    }
}

/// The full list of targets: every address paired with every port, address
/// by address, with the ports in their given order.
pub fn create_ip_list_with_ports(ip_range: Vec<Address>, ports: Vec<u16>) -> (result: Vec<Target>)
    ensures
        result@ == cross_product(ip_range@, ports@),
{
    let mut out: Vec<Target> = Vec::new();
    let mut i: usize = 0;
    proof {
        assert(ip_range@.take(0).map_values(on_ports(ports@)) =~= Seq::<Seq<Target>>::empty());
    }
    while i < ip_range.len()
        invariant
            i <= ip_range.len(),
            out@ == cross_product(ip_range@.take(i as int), ports@),
        decreases ip_range.len() - i,
    {
        let ip = ip_range[i];
        let ghost done = out@;
        let mut j: usize = 0;
        while j < ports.len()
            invariant
                j <= ports.len(),
                out@ == done + targets_of(ip, ports@.take(j as int)),
            decreases ports.len() - j,
        {
            out.push((ip, ports[j]));
            j = j + 1;
        }
        proof {
            assert(ports@.take(j as int) =~= ports@);
            assert(ip_range@.take(i + 1) =~= ip_range@.take(i as int).push(ip));
            lemma_cross_product_push(ip_range@.take(i as int), ip, ports@);
        }
        i = i + 1;
    }
    assert(ip_range@.take(i as int) =~= ip_range@);
    out
}

} // verus!
