//! The configuration of a scan, and the plan of work that follows from it.

use crate::address::{Address, Target};
use crate::error::ConfigurationError;
use crate::partition::{chunk_views, exact_chunks, get_exact_chunks};
use crate::range::{generate_ip_range, host_range};
use crate::targets::{create_ip_list_with_ports, cross_product};
use vstd::prelude::*;

verus! {

/// The highest TCP port.
pub const MAX_PORT: u32 = 65535;

/// The well-known service ports that every scan probes.
pub open spec fn common_ports() -> Seq<u16> {
    seq![
        20u16, 21u16, 22u16, 23u16, 25u16, 53u16, 80u16, 110u16, 115u16, 119u16, 123u16, 143u16,
        161u16, 194u16, 443u16, 445u16, 587u16, 993u16, 995u16, 1433u16, 1521u16, 3306u16,
        3389u16, 5432u16, 5900u16, 8080u16, 8443u16, 9090u16, 9200u16, 27017u16,
    ]
}

/// The ports of a scan: the well-known ports, then the ports that the user
/// added, in the order given. A port may occur twice.
pub open spec fn scan_ports(added: Seq<u16>) -> Seq<u16> {
    common_ports() + added
}

/// Whether a number is a TCP port.
pub open spec fn is_port() -> spec_fn(u32) -> bool {
    |candidate: u32| candidate <= MAX_PORT
}

/// A port number as a port.
pub open spec fn as_port() -> spec_fn(u32) -> u16 {
    |candidate: u32| candidate as u16
}

/// What a scan is asked to do. It is made once, before the scan starts, and
/// only read from then on.
#[derive(Clone, Debug)]
pub struct ScanConfiguration {
    /// The first address of the range.
    pub start: Address,
    /// The last address of the range.
    pub end: Address,
    /// The ports to probe besides the well-known ones.
    pub ports: Vec<u16>,
    /// The number of workers.
    pub workers: usize,
    /// The time allowed for one connection attempt, in milliseconds.
    pub timeout_ms: u64,
}

/// The well-known service ports that every scan probes.
pub fn default_ports() -> (ports: Vec<u16>)
    ensures
        ports@ == common_ports(),
{
    let ports: Vec<u16> = vec![
        20u16, 21u16, 22u16, 23u16, 25u16, 53u16, 80u16, 110u16, 115u16, 119u16, 123u16, 143u16,
        161u16, 194u16, 443u16, 445u16, 587u16, 993u16, 995u16, 1433u16, 1521u16, 3306u16,
        3389u16, 5432u16, 5900u16, 8080u16, 8443u16, 9090u16, 9200u16, 27017u16,
    ];
    assert(ports@ =~= common_ports());
    ports
}

/// The ports among `candidates`, in their order. A number above the highest
/// port is left out and is no fault.
pub fn accept_ports(candidates: &Vec<u32>) -> (ports: Vec<u16>)
    ensures
        ports@ == candidates@.filter(is_port()).map_values(as_port()),
{
    let mut ports: Vec<u16> = Vec::new();
    let mut i: usize = 0;
    proof {
        assert(candidates@.take(0) =~= Seq::<u32>::empty());
        assert(candidates@.take(0).filter(is_port()).map_values(as_port()) =~= Seq::<u16>::empty());
    }
    while i < candidates.len()
        invariant
            i <= candidates.len(),
            ports@ == candidates@.take(i as int).filter(is_port()).map_values(as_port()),
        decreases candidates.len() - i,
    {
        let candidate: u32 = candidates[i];
        proof {
            let seen = candidates@.take(i as int);
            assert(candidates@.take(i + 1) =~= seen.push(candidate));
            seen.lemma_filter_push(candidate, is_port());
            seen.filter(is_port()).lemma_push_map_commute(as_port(), candidate);
        }
        if candidate <= MAX_PORT {
            ports.push(candidate as u16);
        }
        i = i + 1;
    }
    assert(candidates@.take(i as int) =~= candidates@);
    ports
}

impl ScanConfiguration {
    /// The ports that the scan probes: the well-known ports, then the added
    /// ones.
    pub fn all_ports(&self) -> (ports: Vec<u16>)
        ensures
            ports@ == scan_ports(self.ports@),
    {
        let mut ports = default_ports();
        let mut i: usize = 0;
        while i < self.ports.len()
            invariant
                i <= self.ports.len(),
                ports@ == common_ports() + self.ports@.take(i as int),
            decreases self.ports.len() - i,
        {
            ports.push(self.ports[i]);
            i = i + 1;
        }
        assert(self.ports@.take(i as int) =~= self.ports@);
        ports
    }
}

/// The work of a scan, one chunk of targets for each worker: the live hosts
/// of the range, each paired with every port, cut into chunks. A range whose
/// ends belong to different families is refused, and so is a scan without
/// workers; both are found before any work is done.
pub fn plan_scan(configuration: &ScanConfiguration) -> (plan: Result<
    Vec<Vec<Target>>,
    ConfigurationError,
>)
    ensures
        configuration.start@.v6 != configuration.end@.v6 ==> plan == Err::<
            Vec<Vec<Target>>,
            ConfigurationError,
        >(ConfigurationError::InvalidRange),
        configuration.start@.v6 == configuration.end@.v6 && configuration.workers == 0 ==> plan
            == Err::<Vec<Vec<Target>>, ConfigurationError>(ConfigurationError::ZeroWorkers),
        configuration.start@.v6 == configuration.end@.v6 && configuration.workers >= 1 ==> plan
            is Ok && chunk_views(plan->Ok_0@) == exact_chunks(
            cross_product(
                host_range(configuration.start, configuration.end),
                scan_ports(configuration.ports@),
            ),
            configuration.workers as nat,
        ),
{
    if !configuration.start.same_family(&configuration.end) {
        return Err(ConfigurationError::InvalidRange);
    }
    if configuration.workers == 0 {
        return Err(ConfigurationError::ZeroWorkers);
    }
    match generate_ip_range(configuration.start, configuration.end) {
        Ok(hosts) => {
            let targets = create_ip_list_with_ports(hosts, configuration.all_ports());
            Ok(get_exact_chunks(targets, configuration.workers))
        },
        Err(error) => Err(error),
    }
}

} // verus!
