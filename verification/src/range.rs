//! Enumeration of the addresses between two endpoints.

use crate::address::{is_host, lemma_view_injective, Address, AddressModel};
use crate::error::ConfigurationError;
use crate::segments::{
    address_space, increment_ipv6_segments, lemma_radix_pow_eight, lemma_suffix_value_bound,
    segments_le, segments_value,
};
use vstd::prelude::*;

verus! {

/// What each address of a sequence stands for, in order.
pub open spec fn models(s: Seq<Address>) -> Seq<AddressModel> {
    Seq::new(s.len(), |i: int| s[i]@)
}

/// The `n` consecutive addresses that begin at `start`.
pub open spec fn address_run(start: AddressModel, n: nat) -> Seq<AddressModel> {
    Seq::new(n, |i: int| AddressModel { v6: start.v6, value: (start.value + i) as nat })
}

/// Every address from `start` to `end`, both included, in increasing order;
/// empty where `end` comes before `start` or the families differ.
pub open spec fn address_span(start: AddressModel, end: AddressModel) -> Seq<AddressModel> {
    if start.v6 == end.v6 && start.value <= end.value {
        address_run(start, (end.value - start.value + 1) as nat)
    } else {
        Seq::empty()
    }
}

/// The test that keeps live hosts, on addresses.
pub open spec fn keeps_host() -> spec_fn(Address) -> bool {
    |a: Address| is_host(a@)
}

/// The test that keeps live hosts, on what addresses stand for.
pub open spec fn keeps_host_model() -> spec_fn(AddressModel) -> bool {
    |m: AddressModel| is_host(m)
}

/// Two lists of addresses that stand for the same things are the same list.
pub proof fn lemma_models_injective(a: Seq<Address>, b: Seq<Address>)
    requires
        models(a) == models(b),
    ensures
        a == b,
{
    assert(a.len() == models(a).len());
    assert(b.len() == models(b).len());
    assert forall|i: int| 0 <= i < a.len() implies a[i] == b[i] by {
        assert(models(a)[i] == a[i]@);
        assert(models(b)[i] == b[i]@);
        lemma_view_injective(a[i], b[i]);
    }
    assert(a =~= b);
}

/// The live hosts from `start` to `end`, both included, in increasing
/// order: the one list of addresses that stands for the range with the
/// network and broadcast addresses left out.
pub open spec fn host_range(start: Address, end: Address) -> Seq<Address> {
    choose|hosts: Seq<Address>|
        models(hosts) == address_span(start@, end@).filter(keeps_host_model())
}

/// A range with `start` at or before `end` holds one address for each value
/// from `start` to `end`: it begins at `start`, ends at `end`, and its
/// addresses are strictly increasing, so none occurs twice.
pub proof fn lemma_span_counts_up(start: AddressModel, end: AddressModel)
    requires
        start.v6 == end.v6,
        start.value <= end.value,
    ensures
        address_span(start, end).len() == end.value - start.value + 1,
        address_span(start, end).first() == start,
        address_span(start, end).last() == end,
        forall|i: int, j: int|
            0 <= i < j < address_span(start, end).len() ==> address_span(start, end)[i].value
                < address_span(start, end)[j].value,
        address_span(start, end).no_duplicates(),
{
}

/// Filtering keeps an address exactly if it is a live host: what is left
/// out has a last octet of 0 or 255, and nothing else is left out.
pub proof fn lemma_filter_keeps_exactly_hosts(s: Seq<AddressModel>, m: AddressModel)
    ensures
        s.filter(keeps_host_model()).contains(m) <==> s.contains(m) && is_host(m),
        s.filter(keeps_host_model()).len() <= s.len(),
{
    let kept = s.filter(keeps_host_model());
    s.lemma_filter_len(keeps_host_model());
    if kept.contains(m) {
        let i = choose|i: int| 0 <= i < kept.len() && kept[i] == m;
        s.lemma_filter_pred(keeps_host_model(), i);
        s.lemma_filter_contains_rev(keeps_host_model(), m);
    }
    if s.contains(m) && is_host(m) {
        let i = choose|i: int| 0 <= i < s.len() && s[i] == m;
        s.lemma_filter_contains(keeps_host_model(), i);
    }
}

/// Every IPv4 address from `start` to `end`, both included. The walk ends at
/// `end` itself, so a range that ends at the highest address is finite.
pub fn enumerate_ipv4(start: u32, end: u32) -> (result: Vec<Address>)
    ensures
        models(result@) == address_span(Address::V4(start)@, Address::V4(end)@),
{
    let mut out: Vec<Address> = Vec::new();
    if start > end {
        assert(models(out@) =~= Seq::empty());
        return out;
    }
    let mut current: u32 = start;
    while current < end
        invariant
            start <= current <= end,
            models(out@) == address_run(Address::V4(start)@, (current - start) as nat),
        decreases end - current,
    {
        let ghost before = models(out@);
        out.push(Address::V4(current));
        assert(models(out@) =~= before.push(Address::V4(current)@));
        current = current + 1;
        assert(models(out@) =~= address_run(Address::V4(start)@, (current - start) as nat));
    }
    let ghost before = models(out@);
    out.push(Address::V4(current));
    assert(models(out@) =~= before.push(Address::V4(current)@));
    assert(models(out@) =~= address_run(Address::V4(start)@, (end - start + 1) as nat));
    out
}

/// Every IPv6 address from `start` to `end`, both included, reached by
/// repeated increment. The walk ends at `end` itself, so a range that ends
/// at the highest address is finite.
pub fn enumerate_ipv6(start: [u16; 8], end: [u16; 8]) -> (result: Vec<Address>)
    ensures
        models(result@) == address_span(Address::V6(start)@, Address::V6(end)@),
{
    let mut out: Vec<Address> = Vec::new();
    if !segments_le(start, end) {
        assert(models(out@) =~= Seq::empty());
        return out;
    }
    let ghost first = Address::V6(start)@;
    let mut current: [u16; 8] = start;
    proof {
        lemma_suffix_value_bound(end@, 0);
        lemma_radix_pow_eight();
        assert(models(out@) =~= address_run(first, 0));
    }
    while !segments_le(end, current)
        invariant
            first == Address::V6(start)@,
            segments_value(start@) <= segments_value(current@) <= segments_value(end@),
            segments_value(end@) < address_space(),
            models(out@) == address_run(
                first,
                (segments_value(current@) - segments_value(start@)) as nat,
            ),
        decreases segments_value(end@) - segments_value(current@),
    {
        let ghost before = models(out@);
        out.push(Address::V6(current));
        let next = increment_ipv6_segments(current);
        assert(models(out@) =~= before.push(Address::V6(current)@));
        assert(models(out@) =~= address_run(
            first,
            (segments_value(next@) - segments_value(start@)) as nat,
        ));
        current = next;
    }
    let ghost before = models(out@);
    out.push(Address::V6(current));
    assert(models(out@) =~= before.push(Address::V6(current)@));
    assert(models(out@) =~= address_run(
        first,
        (segments_value(end@) - segments_value(start@) + 1) as nat,
    ));
    out
}

/// Keeps the live hosts of a list, in their order: every IPv6 address, and
/// every IPv4 address whose last octet is neither 0 nor 255.
pub fn filter_host_addresses(addresses: Vec<Address>) -> (result: Vec<Address>)
    ensures
        result@ == addresses@.filter(keeps_host()),
        models(result@) == models(addresses@).filter(keeps_host_model()),
{
    let mut out: Vec<Address> = Vec::new();
    let mut i: usize = 0;
    proof {
        assert(addresses@.take(0) =~= Seq::empty());
        assert(models(addresses@.take(0)) =~= Seq::empty());
        assert(models(out@) =~= Seq::empty());
    }
    while i < addresses.len()
        invariant
            i <= addresses.len(),
            out@ == addresses@.take(i as int).filter(keeps_host()),
            models(out@) == models(addresses@.take(i as int)).filter(keeps_host_model()),
        decreases addresses.len() - i,
    {
        let address = addresses[i];
        let ghost seen = addresses@.take(i as int);
        let ghost kept = models(out@);
        proof {
            assert(addresses@.take(i + 1) =~= seen.push(address));
            assert(models(seen.push(address)) =~= models(seen).push(address@));
            seen.lemma_filter_push(address, keeps_host());
            models(seen).lemma_filter_push(address@, keeps_host_model());
        }
        if address.is_host() {
            out.push(address);
            assert(models(out@) =~= kept.push(address@));
        }
        i = i + 1;
    }
    assert(addresses@.take(i as int) =~= addresses@);
    out
}

/// The live hosts from `ip_start` to `ip_end`, both included, in increasing
/// order. Endpoints of different families are refused; a range whose end
/// comes before its start is empty.
pub fn generate_ip_range(ip_start: Address, ip_end: Address) -> (result: Result<
    Vec<Address>,
    ConfigurationError,
>)
    ensures
        ip_start@.v6 != ip_end@.v6 ==> result == Err::<Vec<Address>, ConfigurationError>(
            ConfigurationError::InvalidRange,
        ),
        ip_start@.v6 == ip_end@.v6 ==> result is Ok && models(result->Ok_0@) == address_span(
            ip_start@,
            ip_end@,
        ).filter(keeps_host_model()) && result->Ok_0@ == host_range(ip_start, ip_end),
{
    let ip_range = match (ip_start, ip_end) {
        (Address::V4(start), Address::V4(end)) => enumerate_ipv4(start, end),
        (Address::V6(start), Address::V6(end)) => enumerate_ipv6(start, end),
        _ => {
            return Err(ConfigurationError::InvalidRange);
        },
    };
    let hosts = filter_host_addresses(ip_range);
    proof {
        lemma_models_injective(hosts@, host_range(ip_start, ip_end));
    }
    Ok(hosts)
}

} // verus!
