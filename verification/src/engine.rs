//! The three resolution queries over a directory snapshot.
//!
//! Every query first needs the listing; a failed listing is `Unavail`.
//! Containers whose detail query failed or whose attachments hold no
//! parseable address never produce a record: they are skipped, and only
//! a directory-wide failure aborts a query.

use crate::docker::{
    container_addrs, net_strings, networks_to_addresses, resolves, summary_addrs, Container,
    DirEntry, Directory,
};
use crate::ip::Ipv4;
use crate::text::{normalize_name, spec_normalize, str_eq};
use crate::{ResponseError, ResponseResult};
use vstd::prelude::*;

verus! {

/// A resolved lookup answer: a canonical name, aliases, and a non-empty
/// sequence of IPv4 addresses.
pub struct Host {
    pub name: String,
    pub aliases: Vec<String>,
    pub addresses: Vec<Ipv4>,
}

/// The address family a name lookup asks for.
#[derive(Copy, Clone, Debug, PartialEq, Eq, Structural)]
pub enum AddressFamily {
    IPv4,
    IPv6,
    Unspecified,
}

/// An address a lookup asks about.  Only IPv4 carries data: IPv6
/// queries are unsupported and answered `NotFound` unconditionally.
#[derive(Copy, Clone, Debug, PartialEq, Eq, Structural)]
pub enum IpAddr {
    V4(Ipv4),
    V6,
}

/// Outcome of one resolution call: an answer, a normal miss, or a
/// directory-wide failure.
pub enum Response<T> {
    Success(T),
    NotFound,
    Unavail,
}

/// `h` is the record assembled from container `c`: the hostname as
/// canonical name, the normalized display name as the only alias, and
/// every parseable attachment address.
pub open spec fn is_host_for(h: Host, c: Container) -> bool {
    &&& h.name@ == c.config.hostname@
    &&& h.aliases@.len() == 1
    &&& h.aliases@[0]@ == spec_normalize(c.name@)
    &&& h.addresses@ == container_addrs(c)
}

/// The query name equals the container's declared hostname or its
/// normalized display name, exactly and case-sensitively.
pub open spec fn name_matches(c: Container, q: Seq<char>) -> bool {
    c.config.hostname@ == q || spec_normalize(c.name@) == q
}

/// The entry's detail is present and yields at least one address.
pub open spec fn entry_resolved(e: DirEntry) -> bool {
    e.detail matches Some(c) && resolves(c)
}

/// The entry resolves and its container matches the name.
pub open spec fn entry_matches_name(e: DirEntry, q: Seq<char>) -> bool {
    e.detail matches Some(c) && resolves(c) && name_matches(c, q)
}

/// The first container, in listing order, that resolves and matches the
/// name.
pub open spec fn spec_find_by_name(es: Seq<DirEntry>, q: Seq<char>) -> Option<Container>
    decreases es.len(),
{
    if es.len() == 0 {
        None
    } else if entry_matches_name(es[0], q) {
        Some(es[0].detail->0)
    } else {
        spec_find_by_name(es.drop_first(), q)
    }
}

/// The entry's summary-level addresses contain `a`.
pub open spec fn entry_matches_addr(e: DirEntry, a: Ipv4) -> bool {
    summary_addrs(e.summary).contains(a)
}

/// The first entry, in listing order, whose summary addresses contain
/// `a`.
pub open spec fn spec_find_by_addr(es: Seq<DirEntry>, a: Ipv4) -> Option<DirEntry>
    decreases es.len(),
{
    if es.len() == 0 {
        None
    } else if entry_matches_addr(es[0], a) {
        Some(es[0])
    } else {
        spec_find_by_addr(es.drop_first(), a)
    }
}

/// Every container whose detail is present and resolves, in listing
/// order.
pub open spec fn spec_all_hosts(es: Seq<DirEntry>) -> Seq<Container>
    decreases es.len(),
{
    if es.len() == 0 {
        Seq::empty()
    } else {
        spec_all_hosts(es.drop_last()) + if entry_resolved(es.last()) {
            seq![es.last().detail->0]
        } else {
            Seq::empty()
        }
    }
}

/// What a by-name lookup must return once the listing succeeded.
pub open spec fn by_name_outcome(es: Seq<DirEntry>, q: Seq<char>, r: Response<Host>) -> bool {
    match spec_find_by_name(es, q) {
        Some(c) => r matches Response::Success(h) && is_host_for(h, c),
        None => r is NotFound,
    }
}

/// What a by-address lookup must return once the listing succeeded: the
/// first summary-level holder of the address decides, and only its own
/// detail can still turn the answer into `NotFound`.
pub open spec fn by_addr_outcome(es: Seq<DirEntry>, a: Ipv4, r: Response<Host>) -> bool {
    match spec_find_by_addr(es, a) {
        None => r is NotFound,
        Some(e) => match e.detail {
            None => r is NotFound,
            Some(c) => if resolves(c) {
                r matches Response::Success(h) && is_host_for(h, c)
            } else {
                r is NotFound
            },
        },
    }
}

/// A prefix of `es` holds no name match, and `es[i]` holds one: then the
/// search over all of `es` returns the container at `i`.
proof fn lemma_find_by_name_first(es: Seq<DirEntry>, q: Seq<char>, i: int)
    requires
        0 <= i < es.len(),
        entry_matches_name(es[i], q),
        forall|j: int| 0 <= j < i ==> !entry_matches_name(es[j], q),
    ensures
        spec_find_by_name(es, q) == Some(es[i].detail->0),
    decreases i,
{
    if i > 0 {
        lemma_find_by_name_first(es.drop_first(), q, i - 1);
    }
}

/// No entry matches the name: the search misses.
proof fn lemma_find_by_name_none(es: Seq<DirEntry>, q: Seq<char>)
    requires
        forall|j: int| 0 <= j < es.len() ==> !entry_matches_name(es[j], q),
    ensures
        spec_find_by_name(es, q) is None,
    decreases es.len(),
{
    if es.len() > 0 {
        lemma_find_by_name_none(es.drop_first(), q);
    }
}

/// A prefix of `es` holds no address match, and `es[i]` holds one: then
/// the search over all of `es` returns the entry at `i`.
proof fn lemma_find_by_addr_first(es: Seq<DirEntry>, a: Ipv4, i: int)
    requires
        0 <= i < es.len(),
        entry_matches_addr(es[i], a),
        forall|j: int| 0 <= j < i ==> !entry_matches_addr(es[j], a),
    ensures
        spec_find_by_addr(es, a) == Some(es[i]),
    decreases i,
{
    if i > 0 {
        lemma_find_by_addr_first(es.drop_first(), a, i - 1);
    }
}

/// No summary holds the address: the search misses.
proof fn lemma_find_by_addr_none(es: Seq<DirEntry>, a: Ipv4)
    requires
        forall|j: int| 0 <= j < es.len() ==> !entry_matches_addr(es[j], a),
    ensures
        spec_find_by_addr(es, a) is None,
    decreases es.len(),
{
    if es.len() > 0 {
        lemma_find_by_addr_none(es.drop_first(), a);
    }
}

/// Every container the listing keeps resolves: it was kept only because
/// its detail is present and yields at least one address.
pub proof fn lemma_all_hosts_resolve(es: Seq<DirEntry>)
    ensures
        forall|i: int|
            0 <= i < spec_all_hosts(es).len() ==> resolves(#[trigger] spec_all_hosts(es)[i]),
    decreases es.len(),
{
    if es.len() > 0 {
        lemma_all_hosts_resolve(es.drop_last());
        let prefix = spec_all_hosts(es.drop_last());
        assert forall|i: int|
            0 <= i < spec_all_hosts(es).len() implies resolves(
            #[trigger] spec_all_hosts(es)[i],
        ) by {
            if i < prefix.len() {
                assert(spec_all_hosts(es)[i] == prefix[i]);
            } else {
                assert(entry_resolved(es.last()));
                assert(spec_all_hosts(es)[i] == es.last().detail->0);
            }
        }
    }
}

/// Whether the address list contains `a`.
fn contains_addr(v: &Vec<Ipv4>, a: Ipv4) -> (r: bool)
    ensures
        r == v@.contains(a),
{
    let mut i: usize = 0;
    while i < v.len()
        invariant
            i <= v@.len(),
            forall|j: int| 0 <= j < i ==> v@[j] != a,
        decreases v@.len() - i,
    {
        if v[i] == a {
            return true;
        }
        i += 1;
    }
    false
}

/// Assembles the record for one container: the hostname as canonical
/// name, the normalized display name as the only alias, and every
/// parseable attachment address.  A container with no parseable address
/// yields `NotFound`.
pub fn container_into_host(c: Container) -> (r: ResponseResult<Host>)
    ensures
        resolves(c) ==> (r matches Ok(h) && is_host_for(h, c)),
        !resolves(c) ==> (r matches Err(e) && e is NotFound),
{
    let addresses = match networks_to_addresses(&c.network_settings.networks) {
        Ok(v) => v,
        Err(e) => {
            return Err(e);
        },
    };
    let alias = normalize_name(c.name.as_str());
    let mut aliases: Vec<String> = Vec::new();
    aliases.push(alias);
    Ok(Host { name: c.config.hostname, aliases, addresses })
}

/// Lists every resolvable container as a record, in listing order.
/// Containers whose detail query failed or that hold no parseable
/// address are skipped; only a failed listing is an error.
#[verifier::loop_isolation(false)]
pub fn get_all_entries(d: &Directory) -> (r: Response<Vec<Host>>)
    ensures
        d is Unavailable ==> r is Unavail,
        d matches Directory::Available(es) ==> (r matches Response::Success(hs) && hs@.len()
            == spec_all_hosts(es@).len() && (forall|i: int|
            0 <= i < hs@.len() ==> is_host_for(#[trigger] hs@[i], spec_all_hosts(es@)[i]))),
        r matches Response::Success(hs) ==> forall|i: int|
            0 <= i < hs@.len() ==> (#[trigger] hs@[i]).addresses@.len() > 0,
{
    match d {
        Directory::Unavailable => Response::Unavail,
        Directory::Available(es) => {
            let mut out: Vec<Host> = Vec::new();
            let mut i: usize = 0;
            while i < es.len()
                invariant
                    i <= es@.len(),
                    out@.len() == spec_all_hosts(es@.take(i as int)).len(),
                    forall|j: int|
                        0 <= j < out@.len() ==> is_host_for(
                            #[trigger] out@[j],
                            spec_all_hosts(es@.take(i as int))[j],
                        ),
                decreases es@.len() - i,
            {
                proof {
                    assert(es@.take(i as int + 1).drop_last() =~= es@.take(i as int));
                    assert(es@.take(i as int + 1).last() == es@[i as int]);
                }
                match &es[i].detail {
                    Some(cref) => {
                        let c = cref.clone();
                        match container_into_host(c) {
                            Ok(h) => {
                                out.push(h);
                            },
                            Err(_) => {},
                        }
                    },
                    None => {},
                }
                i += 1;
            }
            proof {
                assert(es@.take(es@.len() as int) =~= es@);
                lemma_all_hosts_resolve(es@);
            }
            Response::Success(out)
        },
    }
}

/// Finds the first listed container that resolves and whose hostname or
/// normalized display name equals `name`, fetching detail in listing
/// order.  IPv6 lookups are unsupported and answered `NotFound`
/// regardless of directory contents.
#[verifier::loop_isolation(false)]
pub fn get_host_by_name(d: &Directory, name: &str, family: AddressFamily) -> (r: Response<Host>)
    ensures
        family is IPv6 ==> r is NotFound,
        !(family is IPv6) && d is Unavailable ==> r is Unavail,
        !(family is IPv6) ==> (d matches Directory::Available(es) ==> by_name_outcome(
            es@,
            name@,
            r,
        )),
        r matches Response::Success(h) ==> h.addresses@.len() > 0,
{
    match family {
        AddressFamily::IPv6 => Response::NotFound,
        _ => match d {
            Directory::Unavailable => Response::Unavail,
            Directory::Available(es) => {
                let mut i: usize = 0;
                while i < es.len()
                    invariant
                        i <= es@.len(),
                        forall|j: int| 0 <= j < i ==> !entry_matches_name(es@[j], name@),
                    decreases es@.len() - i,
                {
                    match &es[i].detail {
                        Some(cref) => {
                            let c = cref.clone();
                            match container_into_host(c) {
                                Ok(h) => {
                                    let matched = str_eq(h.name.as_str(), name) || str_eq(
                                        h.aliases[0].as_str(),
                                        name,
                                    );
                                    if matched {
                                        proof {
                                            lemma_find_by_name_first(es@, name@, i as int);
                                        }
                                        return Response::Success(h);
                                    }
                                },
                                Err(_) => {},
                            }
                        },
                        None => {},
                    }
                    i += 1;
                }
                proof {
                    lemma_find_by_name_none(es@, name@);
                }
                Response::NotFound
            },
        },
    }
}

/// Scans summary-level addresses in listing order for the queried IPv4
/// address, and assembles the record from the first holder's detail;
/// the detail is consulted only for that one container.  IPv6 queries
/// are unsupported and answered `NotFound` regardless of directory
/// contents.
#[verifier::loop_isolation(false)]
pub fn get_host_by_addr(d: &Directory, addr: IpAddr) -> (r: Response<Host>)
    ensures
        addr is V6 ==> r is NotFound,
        addr is V4 && d is Unavailable ==> r is Unavail,
        addr matches IpAddr::V4(a) ==> (d matches Directory::Available(es) ==> by_addr_outcome(
            es@,
            a,
            r,
        )),
        r matches Response::Success(h) ==> h.addresses@.len() > 0,
{
    match addr {
        IpAddr::V6 => Response::NotFound,
        IpAddr::V4(a) => match d {
            Directory::Unavailable => Response::Unavail,
            Directory::Available(es) => {
                let mut i: usize = 0;
                while i < es.len()
                    invariant
                        i <= es@.len(),
                        forall|j: int| 0 <= j < i ==> !entry_matches_addr(es@[j], a),
                    decreases es@.len() - i,
                {
                    match networks_to_addresses(&es[i].summary.network_settings.networks) {
                        Ok(addrs) => {
                            if contains_addr(&addrs, a) {
                                proof {
                                    lemma_find_by_addr_first(es@, a, i as int);
                                }
                                match &es[i].detail {
                                    Some(cref) => {
                                        let c = cref.clone();
                                        match container_into_host(c) {
                                            Ok(h) => {
                                                return Response::Success(h);
                                            },
                                            Err(_) => {
                                                return Response::NotFound;
                                            },
                                        }
                                    },
                                    None => {
                                        return Response::NotFound;
                                    },
                                }
                            }
                        },
                        Err(_) => {},
                    }
                    i += 1;
                }
                proof {
                    lemma_find_by_addr_none(es@, a);
                }
                Response::NotFound
            },
        },
    }
}

} // verus!
