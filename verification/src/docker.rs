//! The container data model and the directory snapshot.
//!
//! The two record shapes mirror the daemon's two query tiers: a cheap
//! per-container summary from the listing, and a full detail fetched one
//! container at a time.  A `Directory` value is one consistent snapshot
//! of both tiers, as handed in by the unverified transport glue.

use crate::ip::{spec_parse_ipv4, Ipv4};
use crate::text::str_eq;
use crate::{ResponseError, ResponseResult};
use vstd::prelude::*;

verus! {

/// One network attachment of a container, carrying at most one IPv4
/// address as text; the text may be empty or unparseable.
pub struct Network {
    pub ip_address: String,
}

/// A container's network attachments, keyed by network name.  Keys are
/// unique and their order carries no meaning: all attachments are merged.
pub struct NetworkSettings {
    pub networks: Vec<(String, Network)>,
}

/// The per-container configuration carrying the declared hostname.
pub struct Config {
    pub hostname: String,
}

/// Full configuration of one container, fetched on demand: the declared
/// hostname, the display name (which may carry one leading separator to
/// strip), and the network attachments.
pub struct Container {
    pub config: Config,
    pub name: String,
    pub network_settings: NetworkSettings,
}

/// The cheap per-container summary produced by listing the directory.
pub struct SmallContainer {
    pub id: String,
    pub network_settings: NetworkSettings,
}

impl NetworkSettings {
    /// Network names are unique within one container.
    pub open spec fn wf(&self) -> bool {
        forall|i: int, j: int|
            0 <= i < j < self.networks@.len() ==> self.networks@[i].0@ != self.networks@[j].0@
    }
}

/// The address text of each attachment, in attachment order.
pub open spec fn net_strings(nets: Seq<(String, Network)>) -> Seq<Seq<char>> {
    nets.map_values(|p: (String, Network)| p.1.ip_address@)
}

/// The addresses among `ss` that parse as IPv4, in order.
pub open spec fn addrs_of(ss: Seq<Seq<char>>) -> Seq<Ipv4>
    decreases ss.len(),
{
    if ss.len() == 0 {
        Seq::empty()
    } else {
        addrs_of(ss.drop_last()) + match spec_parse_ipv4(ss.last()) {
            Some(ip) => seq![ip],
            None => Seq::empty(),
        }
    }
}

/// The parseable addresses of a merged set of attachments.
pub open spec fn settings_addrs(ns: NetworkSettings) -> Seq<Ipv4> {
    addrs_of(net_strings(ns.networks@))
}

/// The parseable addresses of a container's detail payload.
pub open spec fn container_addrs(c: Container) -> Seq<Ipv4> {
    settings_addrs(c.network_settings)
}

/// The parseable addresses visible at summary level.
pub open spec fn summary_addrs(c: SmallContainer) -> Seq<Ipv4> {
    settings_addrs(c.network_settings)
}

/// A container resolves when at least one attachment address parses.
pub open spec fn resolves(c: Container) -> bool {
    container_addrs(c).len() > 0
}

impl Clone for Network {
    /// Clones preserve the attachment's address text.
    fn clone(&self) -> (r: Self)
        ensures
            r.ip_address@ == self.ip_address@,
    {
        Network { ip_address: self.ip_address.clone() }
    }
}

impl Clone for NetworkSettings {
    /// Clones preserve every attachment's name and address text.
    fn clone(&self) -> (r: Self)
        ensures
            net_strings(r.networks@) == net_strings(self.networks@),
            r.networks@.len() == self.networks@.len(),
            forall|i: int|
                0 <= i < self.networks@.len() ==> #[trigger] r.networks@[i].0@
                    == self.networks@[i].0@,
    {
        let mut nets: Vec<(String, Network)> = Vec::new();
        let mut i: usize = 0;
        while i < self.networks.len()
            invariant
                i <= self.networks@.len(),
                nets@.len() == i,
                forall|j: int|
                    0 <= j < i ==> #[trigger] nets@[j].1.ip_address@
                        == self.networks@[j].1.ip_address@,
                forall|j: int| 0 <= j < i ==> #[trigger] nets@[j].0@ == self.networks@[j].0@,
            decreases self.networks@.len() - i,
        {
            let p = &self.networks[i];
            nets.push((p.0.clone(), p.1.clone()));
            i += 1;
        }
        proof {
            assert(net_strings(nets@) =~= net_strings(self.networks@));
        }
        NetworkSettings { networks: nets }
    }
}

impl Clone for Config {
    /// Clones preserve the declared hostname.
    fn clone(&self) -> (r: Self)
        ensures
            r.hostname@ == self.hostname@,
    {
        Config { hostname: self.hostname.clone() }
    }
}

impl Clone for Container {
    /// Clones preserve everything the resolution logic reads, so a clone
    /// resolves to the same record as the original.
    fn clone(&self) -> (r: Self)
        ensures
            r.config.hostname@ == self.config.hostname@,
            r.name@ == self.name@,
            net_strings(r.network_settings.networks@) == net_strings(
                self.network_settings.networks@,
            ),
            container_addrs(r) == container_addrs(*self),
    {
        Container {
            config: self.config.clone(),
            name: self.name.clone(),
            network_settings: self.network_settings.clone(),
        }
    }
}

/// Collects every attachment address that parses as IPv4, in attachment
/// order; an attachment set with no parseable address yields `NotFound`.
pub fn networks_to_addresses(networks: &Vec<(String, Network)>) -> (r: ResponseResult<Vec<Ipv4>>)
    ensures
        match r {
            Ok(v) => v@ == addrs_of(net_strings(networks@)) && v@.len() > 0,
            Err(e) => e is NotFound && addrs_of(net_strings(networks@)).len() == 0,
        },
{
    let mut out: Vec<Ipv4> = Vec::new();
    let mut i: usize = 0;
    while i < networks.len()
        invariant
            i <= networks@.len(),
            out@ == addrs_of(net_strings(networks@).take(i as int)),
        decreases networks@.len() - i,
    {
        proof {
            assert(net_strings(networks@).take(i as int + 1).drop_last() =~= net_strings(
                networks@,
            ).take(i as int));
            assert(net_strings(networks@).take(i as int + 1).last() == networks@[i as int].1.ip_address@);
        }
        match crate::ip::parse_ipv4(networks[i].1.ip_address.as_str()) {
            Some(ip) => {
                out.push(ip);
            },
            None => {},
        }
        proof {
            assert(out@ =~= addrs_of(net_strings(networks@).take(i as int + 1)));
        }
        i += 1;
    }
    proof {
        assert(net_strings(networks@).take(networks@.len() as int) =~= net_strings(networks@));
    }
    if out.len() == 0 {
        Err(ResponseError::NotFound)
    } else {
        Ok(out)
    }
}

/// One listed container together with the outcome of its detail query;
/// `None` records that the per-container query failed.
pub struct DirEntry {
    pub summary: SmallContainer,
    pub detail: Option<Container>,
}

/// A snapshot of the directory: either the listing itself failed (the
/// connection could not be established or the list query failed), or it
/// produced a sequence of containers, each with its detail outcome.
pub enum Directory {
    Unavailable,
    Available(Vec<DirEntry>),
}

/// The first entry whose summary id is `id`.
pub open spec fn spec_find_entry(es: Seq<DirEntry>, id: Seq<char>) -> Option<DirEntry>
    decreases es.len(),
{
    if es.len() == 0 {
        None
    } else if es[0].summary.id@ == id {
        Some(es[0])
    } else {
        spec_find_entry(es.drop_first(), id)
    }
}

/// Lists the directory: every summary in listing order, or `Unavail`
/// when the listing itself failed.
pub fn get_containers(d: Directory) -> (r: ResponseResult<Vec<SmallContainer>>)
    ensures
        d is Unavailable ==> (r matches Err(e) && e is Unavail),
        d matches Directory::Available(es) ==> (r matches Ok(v) && v@.len() == es@.len()
            && (forall|i: int| 0 <= i < es@.len() ==> v@[i] == es@[i].summary)),
{
    match d {
        Directory::Unavailable => Err(ResponseError::Unavail),
        Directory::Available(mut es) => {
            let ghost orig = es@;
            let mut out: Vec<SmallContainer> = Vec::new();
            while es.len() > 0
                invariant
                    out@.len() + es@.len() == orig.len(),
                    es@ == orig.skip(out@.len() as int),
                    forall|i: int| 0 <= i < out@.len() ==> out@[i] == orig[i].summary,
                decreases es@.len(),
            {
                let e = es.remove(0);
                out.push(e.summary);
                proof {
                    assert(es@ =~= orig.skip(out@.len() as int));
                }
            }
            Ok(out)
        },
    }
}

/// The detail of the listed container with the given summary id, as the
/// one-container query reports it: `Unavail` when the connection failed,
/// `NotFound` for an unknown id or a failed detail query.
#[verifier::loop_isolation(false)]
pub fn query_container(d: Directory, c: &SmallContainer) -> (r: ResponseResult<Container>)
    ensures
        d is Unavailable ==> (r matches Err(e) && e is Unavail),
        d matches Directory::Available(es) ==> match spec_find_entry(es@, c.id@) {
            None => r matches Err(e) && e is NotFound,
            Some(entry) => match entry.detail {
                None => r matches Err(e) && e is NotFound,
                Some(det) => r matches Ok(rc) && rc == det,
            },
        },
{
    match d {
        Directory::Unavailable => Err(ResponseError::Unavail),
        Directory::Available(mut es) => {
            let ghost orig = es@;
            while es.len() > 0
                invariant
                    spec_find_entry(orig, c.id@) == spec_find_entry(es@, c.id@),
                decreases es@.len(),
            {
                let ghost pre = es@;
                let e = es.remove(0);
                proof {
                    assert(es@ =~= pre.drop_first());
                }
                if str_eq(e.summary.id.as_str(), c.id.as_str()) {
                    match e.detail {
                        Some(det) => {
                            return Ok(det);
                        },
                        None => {
                            return Err(ResponseError::NotFound);
                        },
                    }
                }
            }
            Err(ResponseError::NotFound)
        },
    }
}

} // verus!
