//! End-to-end tests of the three resolution queries against in-memory
//! directory snapshots.

use docker_directory::docker::{
    get_containers, networks_to_addresses, query_container, Config, Container, DirEntry,
    Directory, Network, NetworkSettings, SmallContainer,
};
use docker_directory::engine::{
    container_into_host, get_all_entries, get_host_by_addr, get_host_by_name, AddressFamily, Host,
    IpAddr, Response,
};
use docker_directory::ip::Ipv4;
use docker_directory::ResponseError;

fn ip(a: u8, b: u8, c: u8, d: u8) -> Ipv4 {
    Ipv4 { a, b, c, d }
}

fn settings(addrs: &[&str]) -> NetworkSettings {
    let mut networks = Vec::new();
    for (i, a) in addrs.iter().enumerate() {
        networks.push((format!("net{}", i), Network { ip_address: a.to_string() }));
    }
    NetworkSettings { networks }
}

fn container(hostname: &str, raw_name: &str, addrs: &[&str]) -> Container {
    Container {
        config: Config { hostname: hostname.to_string() },
        name: raw_name.to_string(),
        network_settings: settings(addrs),
    }
}

fn entry(id: &str, hostname: &str, raw_name: &str, addrs: &[&str]) -> DirEntry {
    DirEntry {
        summary: SmallContainer { id: id.to_string(), network_settings: settings(addrs) },
        detail: Some(container(hostname, raw_name, addrs)),
    }
}

fn success(r: Response<Host>) -> Host {
    match r {
        Response::Success(h) => h,
        Response::NotFound => panic!("expected success, got not-found"),
        Response::Unavail => panic!("expected success, got unavailable"),
    }
}

#[test]
fn address_lookup_returns_holder() {
    // A container that lists an address is found by that address, and
    // the record contains it.
    let d = Directory::Available(vec![
        entry("c1", "web", "/web-1", &["10.0.0.2", "172.17.0.3"]),
        entry("c2", "db", "/db-1", &["10.0.0.9"]),
    ]);
    let h = success(get_host_by_addr(&d, IpAddr::V4(ip(172, 17, 0, 3))));
    assert_eq!(h.name, "web");
    assert!(h.addresses.contains(&ip(172, 17, 0, 3)));

    let h2 = success(get_host_by_addr(&d, IpAddr::V4(ip(10, 0, 0, 9))));
    assert_eq!(h2.name, "db");
    assert!(h2.addresses.contains(&ip(10, 0, 0, 9)));
}

#[test]
fn unparseable_addresses_contribute_nothing() {
    // Every endpoint of "ghost" is empty or unparseable: it yields no
    // record anywhere.
    let d = Directory::Available(vec![
        entry("c1", "ghost", "/ghost-1", &["", "not-an-ip", "999.1.1.1"]),
        entry("c2", "web", "/web-1", &["10.0.0.2"]),
    ]);
    let all = match get_all_entries(&d) {
        Response::Success(hs) => hs,
        _ => panic!("listing should succeed"),
    };
    assert_eq!(all.len(), 1);
    assert_eq!(all[0].name, "web");

    assert!(matches!(
        get_host_by_name(&d, "ghost", AddressFamily::IPv4),
        Response::NotFound
    ));
}

#[test]
fn name_lookup_tries_hostname_and_normalized_name() {
    let d = Directory::Available(vec![entry("c1", "web", "/web-1", &["10.0.0.2"])]);

    // The configured hostname matches.
    let h = success(get_host_by_name(&d, "web", AddressFamily::IPv4));
    assert_eq!(h.name, "web");
    assert_eq!(h.aliases, vec!["web-1".to_string()]);

    // The display name with its single leading separator stripped
    // matches verbatim.
    let h2 = success(get_host_by_name(&d, "web-1", AddressFamily::Unspecified));
    assert_eq!(h2.name, "web");

    // The raw, unstripped display name does not match.
    assert!(matches!(
        get_host_by_name(&d, "/web-1", AddressFamily::IPv4),
        Response::NotFound
    ));
}

#[test]
fn normalization_strips_only_one_separator() {
    let d = Directory::Available(vec![entry("c1", "app", "//deep", &["10.0.0.5"])]);
    let h = success(get_host_by_name(&d, "/deep", AddressFamily::IPv4));
    assert_eq!(h.aliases, vec!["/deep".to_string()]);
    assert!(matches!(
        get_host_by_name(&d, "deep", AddressFamily::IPv4),
        Response::NotFound
    ));
}

#[test]
fn ipv6_queries_are_never_answered() {
    // Even a directory that holds a matching container answers an
    // IPv6-flavored query with not-found.
    let d = Directory::Available(vec![entry("c1", "web", "/web-1", &["10.0.0.2"])]);
    assert!(matches!(
        get_host_by_name(&d, "web", AddressFamily::IPv6),
        Response::NotFound
    ));
    assert!(matches!(get_host_by_addr(&d, IpAddr::V6), Response::NotFound));

    // Independent of directory state.
    let u = Directory::Unavailable;
    assert!(matches!(
        get_host_by_name(&u, "web", AddressFamily::IPv6),
        Response::NotFound
    ));
    assert!(matches!(get_host_by_addr(&u, IpAddr::V6), Response::NotFound));
}

#[test]
fn failed_listing_is_unavailable_everywhere() {
    let d = Directory::Unavailable;
    assert!(matches!(get_all_entries(&d), Response::Unavail));
    assert!(matches!(
        get_host_by_name(&d, "web", AddressFamily::IPv4),
        Response::Unavail
    ));
    assert!(matches!(
        get_host_by_addr(&d, IpAddr::V4(ip(10, 0, 0, 2))),
        Response::Unavail
    ));
}

#[test]
fn empty_listing_is_empty_success_or_not_found() {
    let d = Directory::Available(vec![]);
    let all = match get_all_entries(&d) {
        Response::Success(hs) => hs,
        _ => panic!("empty listing should still succeed"),
    };
    assert!(all.is_empty());
    assert!(matches!(
        get_host_by_name(&d, "web", AddressFamily::IPv4),
        Response::NotFound
    ));
    assert!(matches!(
        get_host_by_addr(&d, IpAddr::V4(ip(10, 0, 0, 2))),
        Response::NotFound
    ));
}

#[test]
fn repeated_queries_agree() {
    let d = Directory::Available(vec![
        entry("c1", "web", "/web-1", &["10.0.0.2", "172.17.0.3"]),
        entry("c2", "db", "/db-1", &["10.0.0.9"]),
    ]);
    let h1 = success(get_host_by_name(&d, "web", AddressFamily::IPv4));
    let h2 = success(get_host_by_name(&d, "web", AddressFamily::IPv4));
    assert_eq!(h1.name, h2.name);
    assert_eq!(h1.aliases, h2.aliases);
    assert_eq!(h1.addresses, h2.addresses);

    let a1 = success(get_host_by_addr(&d, IpAddr::V4(ip(10, 0, 0, 9))));
    let a2 = success(get_host_by_addr(&d, IpAddr::V4(ip(10, 0, 0, 9))));
    assert_eq!(a1.name, a2.name);
    assert_eq!(a1.addresses, a2.addresses);
}

#[test]
fn listing_preserves_source_order_and_skips_failures() {
    let mut broken = entry("c2", "flaky", "/flaky-1", &["10.0.0.7"]);
    broken.detail = None;  // the per-container detail query failed
    let d = Directory::Available(vec![
        entry("c1", "web", "/web-1", &["10.0.0.2"]),
        broken,
        entry("c3", "db", "/db-1", &["10.0.0.9"]),
    ]);
    let all = match get_all_entries(&d) {
        Response::Success(hs) => hs,
        _ => panic!("listing should succeed"),
    };
    let names: Vec<&str> = all.iter().map(|h| h.name.as_str()).collect();
    assert_eq!(names, vec!["web", "db"]);
}

#[test]
fn address_match_decided_by_first_summary_holder() {
    // The first summary that holds the address decides; its failed
    // detail turns the whole query into not-found even though a later
    // container holds the same address.
    let mut first = entry("c1", "one", "/one", &["10.0.0.2"]);
    first.detail = None;
    let d = Directory::Available(vec![first, entry("c2", "two", "/two", &["10.0.0.2"])]);
    assert!(matches!(
        get_host_by_addr(&d, IpAddr::V4(ip(10, 0, 0, 2))),
        Response::NotFound
    ));
}

#[test]
fn address_match_with_unresolvable_detail_is_not_found() {
    // The summary lists the address but the detail payload has no
    // parseable address left: the record cannot be built.
    let mut e = entry("c1", "one", "/one", &["10.0.0.2"]);
    e.detail = Some(container("one", "/one", &["broken"]));
    let d = Directory::Available(vec![e]);
    assert!(matches!(
        get_host_by_addr(&d, IpAddr::V4(ip(10, 0, 0, 2))),
        Response::NotFound
    ));
}

#[test]
fn name_search_skips_unresolvable_and_continues() {
    // An earlier container with the queried name but no usable address
    // is skipped in favor of a later, resolvable one.
    let d = Directory::Available(vec![
        entry("c1", "web", "/a", &["bad"]),
        entry("c2", "web", "/b", &["10.0.0.4"]),
    ]);
    let h = success(get_host_by_name(&d, "web", AddressFamily::IPv4));
    assert_eq!(h.aliases, vec!["b".to_string()]);
    assert!(h.addresses.contains(&ip(10, 0, 0, 4)));
}

#[test]
fn get_containers_lists_summaries_in_order() {
    let d = Directory::Available(vec![
        entry("c1", "web", "/web-1", &["10.0.0.2"]),
        entry("c2", "db", "/db-1", &["10.0.0.9"]),
    ]);
    let summaries = get_containers(d).expect("listing should succeed");
    let ids: Vec<&str> = summaries.iter().map(|s| s.id.as_str()).collect();
    assert_eq!(ids, vec!["c1", "c2"]);

    assert!(matches!(
        get_containers(Directory::Unavailable),
        Err(ResponseError::Unavail)
    ));
}

#[test]
fn query_container_finds_by_id() {
    let make = || {
        Directory::Available(vec![
            entry("c1", "web", "/web-1", &["10.0.0.2"]),
            entry("c2", "db", "/db-1", &["10.0.0.9"]),
        ])
    };
    let probe = SmallContainer { id: "c2".to_string(), network_settings: settings(&[]) };
    let det = query_container(make(), &probe).expect("detail should be found");
    assert_eq!(det.config.hostname, "db");

    let unknown = SmallContainer { id: "zz".to_string(), network_settings: settings(&[]) };
    assert!(matches!(
        query_container(make(), &unknown),
        Err(ResponseError::NotFound)
    ));
    assert!(matches!(
        query_container(Directory::Unavailable, &probe),
        Err(ResponseError::Unavail)
    ));

    let mut broken = entry("c9", "x", "/x", &["10.0.0.7"]);
    broken.detail = None;
    let d = Directory::Available(vec![broken]);
    let probe9 = SmallContainer { id: "c9".to_string(), network_settings: settings(&[]) };
    assert!(matches!(
        query_container(d, &probe9),
        Err(ResponseError::NotFound)
    ));
}

#[test]
fn networks_to_addresses_collects_parseable_in_order() {
    let s = settings(&["10.0.0.2", "", "172.17.0.3", "nope"]);
    let v = networks_to_addresses(&s.networks).expect("two addresses parse");
    assert_eq!(v, vec![ip(10, 0, 0, 2), ip(172, 17, 0, 3)]);

    let none = settings(&["", "x"]);
    assert!(matches!(
        networks_to_addresses(&none.networks),
        Err(ResponseError::NotFound)
    ));
}

#[test]
fn container_into_host_assembles_record() {
    let c = container("web", "/web-1", &["10.0.0.2"]);
    let h = container_into_host(c).expect("container resolves");
    assert_eq!(h.name, "web");
    assert_eq!(h.aliases, vec!["web-1".to_string()]);
    assert_eq!(h.addresses, vec![ip(10, 0, 0, 2)]);

    let bad = container("web", "/web-1", &[]);
    assert!(matches!(
        container_into_host(bad),
        Err(ResponseError::NotFound)
    ));
}
