//! Laws the resolution engine obeys, stated over the directory model
//! that the query contracts use.

use crate::docker::{container_addrs, resolves, summary_addrs, Container, DirEntry};
use crate::engine::{
    entry_matches_addr, entry_matches_name, entry_resolved, is_host_for, name_matches,
    spec_all_hosts, spec_find_by_addr, spec_find_by_name, Host,
};
use crate::ip::Ipv4;
use vstd::prelude::*;

verus! {

/// The entry's detail is present and lists the same addresses as its
/// summary: the two query tiers agree on this container.
pub open spec fn consistent_entry(e: DirEntry) -> bool {
    e.detail matches Some(c) && container_addrs(c) == summary_addrs(e.summary)
}

/// In a directory whose entries are consistent, a by-address search for
/// an address some container holds finds an entry whose record contains
/// that address; together with the by-address contract, the lookup then
/// returns such a record.
pub proof fn lemma_by_addr_finds_holder(es: Seq<DirEntry>, a: Ipv4)
    requires
        forall|i: int| 0 <= i < es.len() ==> consistent_entry(#[trigger] es[i]),
        exists|i: int| 0 <= i < es.len() && entry_matches_addr(#[trigger] es[i], a),
    ensures
        spec_find_by_addr(es, a) matches Some(e) && e.detail matches Some(c) && resolves(c)
            && container_addrs(c).contains(a),
    decreases es.len(),
{
    if entry_matches_addr(es[0], a) {
        assert(consistent_entry(es[0]));
    } else {
        let i = choose|i: int| 0 <= i < es.len() && entry_matches_addr(#[trigger] es[i], a);
        assert(entry_matches_addr(es.drop_first()[i - 1], a));
        assert(forall|j: int|
            0 <= j < es.drop_first().len() ==> consistent_entry(#[trigger] es.drop_first()[j]));
        lemma_by_addr_finds_holder(es.drop_first(), a);
    }
}

/// A record is only ever produced from a container that resolves and,
/// for a by-name search, one whose hostname or normalized display name
/// equals the query.  So a detail payload whose addresses are all empty
/// or unparseable never reaches a caller: the listing skips it and no
/// by-name search returns it.
pub proof fn lemma_only_resolved_returned(es: Seq<DirEntry>, q: Seq<char>)
    ensures
        spec_find_by_name(es, q) matches Some(c) ==> resolves(c) && name_matches(c, q),
        forall|i: int|
            0 <= i < spec_all_hosts(es).len() ==> resolves(#[trigger] spec_all_hosts(es)[i]),
    decreases es.len(),
{
    crate::engine::lemma_all_hosts_resolve(es);
    if es.len() > 0 && !entry_matches_name(es[0], q) {
        lemma_only_resolved_returned(es.drop_first(), q);
    }
}

/// Removing an entry that does not resolve changes neither the listing
/// result nor any by-name search: a broken or addressless container is
/// invisible to those queries.
pub proof fn lemma_unresolved_entry_inert(es: Seq<DirEntry>, i: int, q: Seq<char>)
    requires
        0 <= i < es.len(),
        !entry_resolved(es[i]),
    ensures
        spec_all_hosts(es) == spec_all_hosts(es.remove(i)),
        spec_find_by_name(es, q) == spec_find_by_name(es.remove(i), q),
    decreases es.len(),
{
    lemma_all_hosts_remove(es, i);
    lemma_find_by_name_remove(es, i, q);
}

proof fn lemma_all_hosts_remove(es: Seq<DirEntry>, i: int)
    requires
        0 <= i < es.len(),
        !entry_resolved(es[i]),
    ensures
        spec_all_hosts(es) == spec_all_hosts(es.remove(i)),
    decreases es.len(),
{
    if i == es.len() - 1 {
        assert(es.remove(i) =~= es.drop_last());
    } else {
        assert(es.drop_last().remove(i) =~= es.remove(i).drop_last());
        assert(es.remove(i).last() == es.last());
        lemma_all_hosts_remove(es.drop_last(), i);
    }
}

proof fn lemma_find_by_name_remove(es: Seq<DirEntry>, i: int, q: Seq<char>)
    requires
        0 <= i < es.len(),
        !entry_resolved(es[i]),
    ensures
        spec_find_by_name(es, q) == spec_find_by_name(es.remove(i), q),
    decreases es.len(),
{
    if i == 0 {
        assert(es.remove(0) =~= es.drop_first());
        assert(!entry_matches_name(es[0], q));
    } else {
        assert(es.remove(i)[0] == es[0]);
        assert(es.drop_first().remove(i - 1) =~= es.remove(i).drop_first());
        lemma_find_by_name_remove(es.drop_first(), i - 1, q);
    }
}

/// The entry a by-address search returns really holds the queried
/// address at summary level.
pub proof fn lemma_by_addr_result_holds(es: Seq<DirEntry>, a: Ipv4)
    ensures
        spec_find_by_addr(es, a) matches Some(e) ==> entry_matches_addr(e, a),
    decreases es.len(),
{
    if es.len() > 0 && !entry_matches_addr(es[0], a) {
        lemma_by_addr_result_holds(es.drop_first(), a);
    }
}

/// An empty directory yields an empty listing and no match for any
/// name or address query.
pub proof fn lemma_empty_directory(q: Seq<char>, a: Ipv4)
    ensures
        spec_all_hosts(Seq::<DirEntry>::empty()) == Seq::<Container>::empty(),
        spec_find_by_name(Seq::<DirEntry>::empty(), q) is None,
        spec_find_by_addr(Seq::<DirEntry>::empty(), a) is None,
{
}

/// Records assembled from the same container agree on the canonical
/// name, the aliases, and the address sequence: repeating a query
/// against an unchanged directory yields the same answer.
pub proof fn lemma_lookup_deterministic(h1: Host, h2: Host, c: Container)
    requires
        is_host_for(h1, c),
        is_host_for(h2, c),
    ensures
        h1.name@ == h2.name@,
        h1.addresses@ == h2.addresses@,
        h1.aliases@.len() == h2.aliases@.len(),
        forall|i: int| 0 <= i < h1.aliases@.len() ==> #[trigger] h1.aliases@[i]@ == h2.aliases@[i]@,
{
}

} // verus!
