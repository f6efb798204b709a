//! The ingress routing table: which backends serve each domain and each
//! external port, chosen round-robin.

use vstd::prelude::*;
use std::collections::HashMap;
use std::sync::Arc;
use std::sync::atomic::AtomicUsize;
use crate::deploy::failure::views;
use crate::text::{dec, push_decimal, push_str, str_eq};

verus! {

/// `Arc::clone`: another handle to the same counter.
#[verifier::external_body]
fn share(c: &Arc<AtomicUsize>) -> (r: Arc<AtomicUsize>)
    ensures
        r == *c,
{
    c.clone()
}

/// The backend picked by the `counter`-th request: backends are taken in
/// turn, starting over after the last.
pub open spec fn pick(backends: Seq<Seq<char>>, counter: nat) -> Seq<char> {
    backends[(counter % backends.len()) as int]
}

/// The ticket of the next request: the counter's value before it is
/// advanced (wrapping at the top of `usize`). Nothing is stated of it: the
/// counter is shared by every thread serving the route, so any value is a
/// possible ticket; callers rely only on picking a backend from it.
fn take_ticket(c: &AtomicUsize) -> usize {
    c.fetch_add(1, std::sync::atomic::Ordering::Relaxed)
}

/// The backend for request number `counter` (see [`pick`]).
pub fn backend_at(backends: &Vec<String>, counter: usize) -> (r: String)
    requires
        backends@.len() > 0,
    ensures
        r@ == pick(views(backends@), counter as nat),
        views(backends@).contains(r@),
{
    let i = counter % backends.len();
    let mut s = String::new();
    push_str(&mut s, backends[i].as_str());
    assert(views(backends@)[i as int] == s@);
    s
}

/// One domain's route.
#[derive(Debug, Clone)]
pub struct RouteEntry {
    pub _domain: String,
    pub backends: Vec<String>,
    /// Shared by every version of the route, so that the rotation goes on
    /// where it was when the backends change.
    pub cursor: Arc<AtomicUsize>,
    pub _service_id: String,
}

impl RouteEntry {
    /// The next backend in turn; `None` when the route has none. Which one
    /// comes next depends on the requests served before, on every thread.
    pub fn next_backend(&self) -> (r: Option<String>)
        ensures
            self.backends@.len() == 0 <==> r is None,
            r matches Some(b) ==> views(self.backends@).contains(b@),
    {
        if self.backends.len() == 0 {
            return None;
        }
        let n = take_ticket(&self.cursor);
        Some(backend_at(&self.backends, n))
    }
}

/// The domains routed, each with its backends.
pub open spec fn route_map(routes: Seq<RouteEntry>) -> Map<Seq<char>, Seq<Seq<char>>>
    decreases routes.len(),
{
    if routes.len() == 0 {
        Map::empty()
    } else {
        route_map(routes.drop_last()).insert(
            routes.last()._domain@,
            views(routes.last().backends@),
        )
    }
}

/// No domain has two routes.
pub open spec fn unique_domains(routes: Seq<RouteEntry>) -> bool {
    forall|i: int, j: int|
        0 <= i < j < routes.len() ==> routes[i]._domain@ != routes[j]._domain@
}

/// The rotation counter of `domain`'s route, if it has one.
pub open spec fn cursor_of(routes: Seq<RouteEntry>, domain: Seq<char>) -> Option<Arc<AtomicUsize>>
    decreases routes.len(),
{
    if routes.len() == 0 {
        None
    } else if routes.last()._domain@ == domain {
        Some(routes.last().cursor)
    } else {
        cursor_of(routes.drop_last(), domain)
    }
}

/// The service `domain`'s route belongs to, if it has one.
pub open spec fn service_of(routes: Seq<RouteEntry>, domain: Seq<char>) -> Option<Seq<char>>
    decreases routes.len(),
{
    if routes.len() == 0 {
        None
    } else if routes.last()._domain@ == domain {
        Some(routes.last()._service_id@)
    } else {
        service_of(routes.drop_last(), domain)
    }
}

proof fn lemma_cursor_of(routes: Seq<RouteEntry>, domain: Seq<char>, i: int)
    requires
        unique_domains(routes),
        -1 <= i < routes.len(),
        i >= 0 ==> routes[i]._domain@ == domain,
        i < 0 ==> forall|j: int| 0 <= j < routes.len() ==> routes[j]._domain@ != domain,
    ensures
        cursor_of(routes, domain) == if i >= 0 {
            Some(routes[i].cursor)
        } else {
            None
        },
        service_of(routes, domain) == if i >= 0 {
            Some(routes[i]._service_id@)
        } else {
            None
        },
    decreases routes.len(),
{
    if routes.len() > 0 {
        let init = routes.drop_last();
        assert(unique_domains(init)) by {
            assert forall|a: int, b: int| 0 <= a < b < init.len() implies init[a]._domain@
                != init[b]._domain@ by {
                assert(init[a] == routes[a] && init[b] == routes[b]);
            }
        }
        if i < routes.len() - 1 {
            if i >= 0 {
                assert(routes[routes.len() - 1]._domain@ != domain);
                assert(init[i] == routes[i]);
            } else {
                assert(routes[routes.len() - 1]._domain@ != domain);
                assert forall|j: int| 0 <= j < init.len() implies init[j]._domain@ != domain by {
                    assert(init[j] == routes[j]);
                }
            }
            lemma_cursor_of(init, domain, i);
        }
    }
}

proof fn lemma_route_map(routes: Seq<RouteEntry>)
    requires
        unique_domains(routes),
    ensures
        forall|d: Seq<char>| #[trigger]
            route_map(routes).contains_key(d) <==> exists|i: int|
                0 <= i < routes.len() && routes[i]._domain@ == d,
        forall|i: int|
            0 <= i < routes.len() ==> #[trigger] route_map(routes)[routes[i]._domain@] == views(
                routes[i].backends@,
            ),
    decreases routes.len(),
{
    if routes.len() > 0 {
        let init = routes.drop_last();
        assert(unique_domains(init)) by {
            assert forall|i: int, j: int| 0 <= i < j < init.len() implies init[i]._domain@
                != init[j]._domain@ by {
                assert(init[i] == routes[i] && init[j] == routes[j]);
            }
        }
        lemma_route_map(init);
        assert forall|d: Seq<char>| #[trigger]
            route_map(routes).contains_key(d) <==> exists|i: int|
                0 <= i < routes.len() && routes[i]._domain@ == d by {
            if route_map(init).contains_key(d) {
                let i = choose|i: int| 0 <= i < init.len() && init[i]._domain@ == d;
                assert(routes[i]._domain@ == d);
            }
            if exists|i: int| 0 <= i < routes.len() && routes[i]._domain@ == d {
                let i = choose|i: int| 0 <= i < routes.len() && routes[i]._domain@ == d;
                if i < init.len() {
                    assert(init[i]._domain@ == d);
                }
            }
        }
        assert forall|i: int| 0 <= i < routes.len() implies #[trigger] route_map(
            routes,
        )[routes[i]._domain@] == views(routes[i].backends@) by {
            if i < routes.len() - 1 {
                assert(init[i] == routes[i]);
                assert(routes[i]._domain@ != routes[routes.len() - 1]._domain@);
                assert(route_map(init)[init[i]._domain@] == views(init[i].backends@));
            }
        }
    }
}

/// The routes of all domains.
#[derive(Debug, Default, Clone)]
pub struct RouteTable {
    pub routes: Vec<RouteEntry>,
}

impl RouteTable {
    /// Each domain has at most one route.
    pub open spec fn wf(&self) -> bool {
        unique_domains(self.routes@)
    }

    /// Domain → backends.
    pub open spec fn map(&self) -> Map<Seq<char>, Seq<Seq<char>>> {
        route_map(self.routes@)
    }

    fn find(&self, domain: &str) -> (r: Option<usize>)
        requires
            self.wf(),
        ensures
            r matches Some(i) ==> i < self.routes@.len() && self.routes@[i as int]._domain@
                == domain@,
            r is None ==> forall|i: int|
                0 <= i < self.routes@.len() ==> self.routes@[i]._domain@ != domain@,
    {
        let mut i: usize = 0;
        while i < self.routes.len()
            invariant
                i <= self.routes@.len(),
                forall|j: int| 0 <= j < i ==> self.routes@[j]._domain@ != domain@,
            decreases self.routes.len() - i,
        {
            if str_eq(self.routes[i]._domain.as_str(), domain) {
                return Some(i);
            }
            i = i + 1;
        }
        None
    }

    /// The route of `domain`, if it has one.
    pub fn get(&self, domain: &str) -> (r: Option<&RouteEntry>)
        requires
            self.wf(),
        ensures
            r is Some <==> self.map().contains_key(domain@),
            r matches Some(e) ==> e._domain@ == domain@ && views(e.backends@) == self.map()[domain@],
            r matches Some(e) ==> exists|i: int|
                0 <= i < self.routes@.len() && self.routes@[i]._domain@ == domain@ && *e
                    == self.routes@[i],
            r matches Some(e) ==> cursor_of(self.routes@, domain@) == Some(e.cursor) && service_of(
                self.routes@,
                domain@,
            ) == Some(e._service_id@),
    {
        proof {
            lemma_route_map(self.routes@);
        }
        match self.find(domain) {
            Some(i) => {
                assert(self.routes@[i as int]._domain@ == domain@);
                proof {
                    lemma_cursor_of(self.routes@, domain@, i as int);
                }
                Some(&self.routes[i])
            },
            None => None,
        }
    }

    /// Sets the backends of `domain`, keeping its rotation counter when it
    /// already had a route.
    pub fn upsert(&mut self, domain: &str, backends: Vec<String>, service_id: &str)
        requires
            old(self).wf(),
        ensures
            final(self).wf(),
            final(self).map() == old(self).map().insert(domain@, views(backends@)),
            cursor_of(old(self).routes@, domain@) is Some ==> cursor_of(final(self).routes@, domain@)
                == cursor_of(old(self).routes@, domain@),
            service_of(final(self).routes@, domain@) == Some(service_id@),
            forall|d: Seq<char>|
                d != domain@ ==> #[trigger] cursor_of(final(self).routes@, d) == cursor_of(
                    old(self).routes@,
                    d,
                ) && service_of(final(self).routes@, d) == service_of(old(self).routes@, d),
    {
        proof {
            lemma_route_map(self.routes@);
        }
        let found = self.find(domain);
        let mut d = String::new();
        push_str(&mut d, domain);
        let mut sid = String::new();
        push_str(&mut sid, service_id);
        let ghost nb = views(backends@);
        match found {
            Some(i) => {
                let cursor = share(&self.routes[i].cursor);
                let entry = RouteEntry { _domain: d, backends, cursor, _service_id: sid };
                let ghost before = self.routes@;
                self.routes.set(i, entry);
                proof {
                    let after = self.routes@;
                    assert(unique_domains(after)) by {
                        assert forall|a: int, b: int| 0 <= a < b < after.len() implies after[a]._domain@
                            != after[b]._domain@ by {
                            assert(after[a]._domain@ == before[a]._domain@);
                            assert(after[b]._domain@ == before[b]._domain@);
                        }
                    }
                    lemma_route_map(after);
                    lemma_cursor_of(before, domain@, i as int);
                    lemma_cursor_of(after, domain@, i as int);
                    assert forall|d: Seq<char>| d != domain@ implies #[trigger] cursor_of(after, d)
                        == cursor_of(before, d) && service_of(after, d) == service_of(before, d) by {
                        if exists|j: int| 0 <= j < before.len() && before[j]._domain@ == d {
                            let j = choose|j: int| 0 <= j < before.len() && before[j]._domain@ == d;
                            assert(j != i);
                            assert(after[j] == before[j]);
                            lemma_cursor_of(before, d, j);
                            lemma_cursor_of(after, d, j);
                        } else {
                            assert forall|j: int| 0 <= j < after.len() implies after[j]._domain@ != d by {
                                if j != i {
                                    assert(after[j] == before[j]);
                                }
                            }
                            lemma_cursor_of(before, d, -1);
                            lemma_cursor_of(after, d, -1);
                        }
                    }
                    assert(self.map() =~= old(self).map().insert(domain@, nb)) by {
                        assert forall|k: Seq<char>| #[trigger] self.map().contains_key(k)
                            <==> old(self).map().insert(domain@, nb).contains_key(k) by {
                            if self.map().contains_key(k) {
                                let j = choose|j: int| 0 <= j < after.len() && after[j]._domain@ == k;
                                assert(before[j]._domain@ == k);
                            }
                            if old(self).map().contains_key(k) {
                                let j = choose|j: int| 0 <= j < before.len() && before[j]._domain@ == k;
                                assert(after[j]._domain@ == k);
                            }
                            if k == domain@ {
                                assert(after[i as int]._domain@ == k);
                            }
                        }
                        assert forall|k: Seq<char>| #[trigger] self.map().contains_key(k) implies self.map()[k]
                            == old(self).map().insert(domain@, nb)[k] by {
                            let j = choose|j: int| 0 <= j < after.len() && after[j]._domain@ == k;
                            assert(self.map()[after[j]._domain@] == views(after[j].backends@));
                            if j != i {
                                assert(before[j] == after[j]);
                                assert(old(self).map()[before[j]._domain@] == views(before[j].backends@));
                            }
                        }
                    }
                }
            },
            None => {
                let cursor = Arc::new(AtomicUsize::new(0));
                let entry = RouteEntry { _domain: d, backends, cursor, _service_id: sid };
                let ghost before = self.routes@;
                self.routes.push(entry);
                proof {
                    let after = self.routes@;
                    assert(after.drop_last() =~= before);
                    assert(unique_domains(after)) by {
                        assert forall|a: int, b: int| 0 <= a < b < after.len() implies after[a]._domain@
                            != after[b]._domain@ by {
                            if b == before.len() {
                                assert(after[a] == before[a]);
                            } else {
                                assert(after[a] == before[a] && after[b] == before[b]);
                            }
                        }
                    }
                    assert(self.map() == route_map(before).insert(domain@, nb));
                    lemma_cursor_of(before, domain@, -1);
                    assert forall|d: Seq<char>| d != domain@ implies #[trigger] cursor_of(after, d)
                        == cursor_of(before, d) && service_of(after, d) == service_of(before, d) by {
                        assert(after.last()._domain@ == domain@);
                    }
                }
            },
        }
    }

    /// Drops the route of `domain`.
    pub fn remove(&mut self, domain: &str)
        requires
            old(self).wf(),
        ensures
            final(self).wf(),
            final(self).map() == old(self).map().remove(domain@),
    {
        proof {
            lemma_route_map(self.routes@);
        }
        match self.find(domain) {
            Some(i) => {
                let ghost before = self.routes@;
                let _ = self.routes.remove(i);
                proof {
                    let after = self.routes@;
                    assert(after =~= before.remove(i as int));
                    assert(unique_domains(after)) by {
                        assert forall|a: int, b: int| 0 <= a < b < after.len() implies after[a]._domain@
                            != after[b]._domain@ by {
                            let a2 = if a < i { a } else { a + 1 };
                            let b2 = if b < i { b } else { b + 1 };
                            assert(after[a] == before[a2] && after[b] == before[b2]);
                        }
                    }
                    lemma_route_map(after);
                    assert(self.map() =~= old(self).map().remove(domain@)) by {
                        assert forall|k: Seq<char>| #[trigger] self.map().contains_key(k)
                            <==> old(self).map().remove(domain@).contains_key(k) by {
                            if self.map().contains_key(k) {
                                let j = choose|j: int| 0 <= j < after.len() && after[j]._domain@ == k;
                                let j2 = if j < i { j } else { j + 1 };
                                assert(before[j2]._domain@ == k);
                                assert(j2 != i);
                            }
                            if old(self).map().remove(domain@).contains_key(k) {
                                let j = choose|j: int| 0 <= j < before.len() && before[j]._domain@ == k;
                                assert(j != i);
                                if j < i {
                                    assert(after[j]._domain@ == k);
                                } else {
                                    assert(after[j - 1]._domain@ == k);
                                }
                            }
                        }
                        assert forall|k: Seq<char>| #[trigger] self.map().contains_key(k) implies self.map()[k]
                            == old(self).map().remove(domain@)[k] by {
                            let j = choose|j: int| 0 <= j < after.len() && after[j]._domain@ == k;
                            let j2 = if j < i { j } else { j + 1 };
                            assert(after[j] == before[j2]);
                            assert(self.map()[after[j]._domain@] == views(after[j].backends@));
                            assert(old(self).map()[before[j2]._domain@] == views(before[j2].backends@));
                        }
                    }
                }
            },
            None => {
                assert(!old(self).map().contains_key(domain@));
                assert(old(self).map().remove(domain@) =~= old(self).map());
            },
        }
    }
}

/// The backends of one external port.
#[derive(Debug, Clone)]
pub struct PortBackends {
    pub addrs: Vec<String>,
    pub cursor: Arc<AtomicUsize>,
}

impl PortBackends {
    /// Backends with a fresh rotation.
    pub fn new(addrs: Vec<String>) -> (r: Self)
        ensures
            r.addrs@ == addrs@,
    {
        PortBackends { addrs, cursor: Arc::new(AtomicUsize::new(0)) }
    }

    /// Backends that go on with the rotation of `previous`.
    pub fn continuing(addrs: Vec<String>, previous: &PortBackends) -> (r: Self)
        ensures
            r.addrs@ == addrs@,
            r.cursor == previous.cursor,
    {
        PortBackends { addrs, cursor: share(&previous.cursor) }
    }

    /// The next backend in turn; `None` when there is none.
    pub fn next(&self) -> (r: Option<String>)
        ensures
            self.addrs@.len() == 0 <==> r is None,
            r matches Some(b) ==> views(self.addrs@).contains(b@),
    {
        if self.addrs.len() == 0 {
            return None;
        }
        let n = take_ticket(&self.cursor);
        Some(backend_at(&self.addrs, n))
    }
}

/// The external ports with a listener, each with its backends (`None` once
/// the port's service is gone: the listener stays and refuses connections).
#[derive(Debug, Default)]
pub struct PortRoutes {
    pub entries: HashMap<u16, Option<PortBackends>>,
}

/// The backends of a listener's entry.
pub open spec fn backends_of(e: Option<PortBackends>) -> Option<Seq<Seq<char>>> {
    match e {
        Some(b) => Some(views(b.addrs@)),
        None => None,
    }
}

/// Port → backends of the listener on it.
pub open spec fn port_map(e: Map<u16, Option<PortBackends>>) -> Map<u16, Option<Seq<Seq<char>>>> {
    Map::new(|k: u16| e.contains_key(k), |k: u16| backends_of(e[k]))
}

/// The rotation counter of the listener on `port`, when it has backends.
pub open spec fn port_cursor(e: Map<u16, Option<PortBackends>>, port: u16) -> Option<Arc<AtomicUsize>> {
    if e.contains_key(port) {
        match e[port] {
            Some(b) => Some(b.cursor),
            None => None,
        }
    } else {
        None
    }
}

impl PortRoutes {
    /// Port → backends.
    pub open spec fn map(&self) -> Map<u16, Option<Seq<Seq<char>>>> {
        port_map(self.entries@)
    }

    /// Points `port` at `backends`, going on with the rotation of the
    /// backends it had. Returns whether the port had no listener yet (the
    /// caller then starts one).
    pub fn upsert(&mut self, port: u16, backends: Vec<String>) -> (started: bool)
        ensures
            final(self).map() == old(self).map().insert(port, Some(views(backends@))),
            started <==> !old(self).map().contains_key(port),
            port_cursor(old(self).entries@, port) is Some ==> port_cursor(final(self).entries@, port)
                == port_cursor(old(self).entries@, port),
    {
        broadcast use vstd::std_specs::hash::group_hash_axioms;
        let ghost nb = views(backends@);
        let (pb, started) = match self.entries.get(&port) {
            Some(Some(prev)) => (PortBackends::continuing(backends, prev), false),
            Some(None) => (PortBackends::new(backends), false),
            None => (PortBackends::new(backends), true),
        };
        let ghost before = self.entries@;
        self.entries.insert(port, Some(pb));
        assert(port_map(self.entries@) =~= port_map(before).insert(port, Some(nb)));
        started
    }

    /// Leaves `port` without backends; its listener refuses connections.
    pub fn remove(&mut self, port: u16)
        ensures
            old(self).map().contains_key(port) ==> final(self).map() == old(self).map().insert(port, None),
            !old(self).map().contains_key(port) ==> final(self).map() == old(self).map(),
    {
        broadcast use vstd::std_specs::hash::group_hash_axioms;
        if self.entries.contains_key(&port) {
            let ghost before = self.entries@;
            self.entries.insert(port, None);
            assert(port_map(self.entries@) =~= port_map(before).insert(port, None));
        }
    }

    /// The next backend of the listener on `port`; `None` when the port has
    /// no backends (the connection is refused).
    pub fn next(&self, port: u16) -> (r: Option<String>)
        ensures
            r is None <==> !(self.map().contains_key(port) && (self.map()[port] matches Some(b) && b.len() > 0)),
            r matches Some(x) ==> (self.map()[port] matches Some(b) && b.contains(x@)),
    {
        broadcast use vstd::std_specs::hash::group_hash_axioms;
        match self.entries.get(&port) {
            Some(Some(b)) => b.next(),
            _ => None,
        }
    }
}

/// A domain route of a service: its domain, the container port it reaches
/// (the service's port when unset), and whether it is served over TLS.
pub struct DomainRoute {
    pub domain: String,
    pub port: Option<u16>,
    pub tls: bool,
}

impl DomainRoute {
    /// The container port this route reaches.
    pub fn container_port(&self, default_port: u16) -> (p: u16)
        ensures
            p == match self.port {
                Some(q) => q,
                None => default_port,
            },
    {
        match self.port {
            Some(q) => q,
            None => default_port,
        }
    }
}

/// `ip:port`.
pub open spec fn addr_of(ip: Seq<char>, port: nat) -> Seq<char> {
    ip + ":"@ + dec(port)
}

/// `ip:port` for each address, in order.
pub fn backend_addrs(ips: &[String], port: u16) -> (r: Vec<String>)
    ensures
        r@.len() == ips@.len(),
        forall|i: int| 0 <= i < ips@.len() ==> (#[trigger] r@[i])@ == addr_of(ips@[i]@, port as nat),
{
    let mut r: Vec<String> = Vec::new();
    let mut i: usize = 0;
    while i < ips.len()
        invariant
            i <= ips@.len(),
            r@.len() == i,
            forall|j: int| 0 <= j < i ==> (#[trigger] r@[j])@ == addr_of(ips@[j]@, port as nat),
        decreases ips.len() - i,
    {
        let mut s = String::new();
        push_str(&mut s, ips[i].as_str());
        push_str(&mut s, ":");
        push_decimal(&mut s, port as u64);
        assert(s@ =~= addr_of(ips@[i as int]@, port as nat));
        r.push(s);
        i = i + 1;
    }
    r
}

/// The port a domain route reaches.
pub open spec fn route_port(r: DomainRoute, default_port: u16) -> u16 {
    match r.port {
        Some(q) => q,
        None => default_port,
    }
}

/// The backends of a route for containers at `ips`.
pub open spec fn addrs_for(ips: Seq<String>, port: u16) -> Seq<Seq<char>> {
    Seq::new(ips.len(), |i: int| addr_of(ips[i]@, port as nat))
}

/// `m` with each of a service's domains routed to its containers, in order.
pub open spec fn with_domains(
    m: Map<Seq<char>, Seq<Seq<char>>>,
    routes: Seq<DomainRoute>,
    default_port: u16,
    ips: Seq<String>,
) -> Map<Seq<char>, Seq<Seq<char>>>
    decreases routes.len(),
{
    if routes.len() == 0 {
        m
    } else {
        with_domains(m, routes.drop_last(), default_port, ips).insert(
            routes.last().domain@,
            addrs_for(ips, route_port(routes.last(), default_port)),
        )
    }
}

/// `m` without any of a service's domains.
pub open spec fn without_domains(m: Map<Seq<char>, Seq<Seq<char>>>, routes: Seq<DomainRoute>) -> Map<
    Seq<char>,
    Seq<Seq<char>>,
>
    decreases routes.len(),
{
    if routes.len() == 0 {
        m
    } else {
        without_domains(m, routes.drop_last()).remove(routes.last().domain@)
    }
}

impl RouteTable {
    /// Routes each domain of a service to its containers at `ips`, each on
    /// the container port of its route.
    pub fn register_domains(&mut self, routes: &[DomainRoute], default_port: u16, ips: &[String], service_id: &str)
        requires
            old(self).wf(),
        ensures
            final(self).wf(),
            final(self).map() == with_domains(old(self).map(), routes@, default_port, ips@),
    {
        let ghost start = self.map();
        let mut k: usize = 0;
        assert(routes@.take(0) =~= Seq::<DomainRoute>::empty());
        while k < routes.len()
            invariant
                k <= routes@.len(),
                self.wf(),
                self.map() == with_domains(start, routes@.take(k as int), default_port, ips@),
            decreases routes.len() - k,
        {
            let r = &routes[k];
            let port = r.container_port(default_port);
            let backends = backend_addrs(ips, port);
            assert(views(backends@) =~= addrs_for(ips@, port));
            assert(routes@.take(k + 1).drop_last() =~= routes@.take(k as int));
            self.upsert(r.domain.as_str(), backends, service_id);
            k = k + 1;
        }
        assert(routes@.take(routes@.len() as int) =~= routes@);
    }

    /// Drops the routes of every domain of a service.
    pub fn remove_domains(&mut self, routes: &[DomainRoute])
        requires
            old(self).wf(),
        ensures
            final(self).wf(),
            final(self).map() == without_domains(old(self).map(), routes@),
    {
        let ghost start = self.map();
        let mut k: usize = 0;
        assert(routes@.take(0) =~= Seq::<DomainRoute>::empty());
        while k < routes.len()
            invariant
                k <= routes@.len(),
                self.wf(),
                self.map() == without_domains(start, routes@.take(k as int)),
            decreases routes.len() - k,
        {
            assert(routes@.take(k + 1).drop_last() =~= routes@.take(k as int));
            self.remove(routes[k].domain.as_str());
            k = k + 1;
        }
        assert(routes@.take(routes@.len() as int) =~= routes@);
    }
}

/// The domains of a service's routes served over TLS, in order.
pub open spec fn tls_domains_of(routes: Seq<DomainRoute>) -> Seq<Seq<char>>
    decreases routes.len(),
{
    if routes.len() == 0 {
        Seq::empty()
    } else {
        let r = tls_domains_of(routes.drop_last());
        if routes.last().tls {
            r.push(routes.last().domain@)
        } else {
            r
        }
    }
}

/// The domains that need a certificate once a service is live.
pub fn tls_domains(routes: &[DomainRoute]) -> (r: Vec<String>)
    ensures
        views(r@) == tls_domains_of(routes@),
{
    let mut r: Vec<String> = Vec::new();
    let mut k: usize = 0;
    assert(routes@.take(0) =~= Seq::<DomainRoute>::empty());
    while k < routes.len()
        invariant
            k <= routes@.len(),
            views(r@) == tls_domains_of(routes@.take(k as int)),
        decreases routes.len() - k,
    {
        assert(routes@.take(k + 1).drop_last() =~= routes@.take(k as int));
        if routes[k].tls {
            let mut d = String::new();
            push_str(&mut d, routes[k].domain.as_str());
            let ghost before = views(r@);
            r.push(d);
            assert(views(r@) =~= before.push(routes@[k as int].domain@));
        }
        k = k + 1;
    }
    assert(routes@.take(routes@.len() as int) =~= routes@);
    r
}

/// Points a service's domains and its external port at its containers at
/// `ips`: each domain on the container port of its route, the external port
/// on the service's port. Returns whether a listener must be started for
/// the external port.
pub fn route_service(
    table: &mut RouteTable,
    ports: &mut PortRoutes,
    routes: &[DomainRoute],
    service_port: u16,
    host_port: Option<u16>,
    ips: &[String],
    service_id: &str,
) -> (started: bool)
    requires
        old(table).wf(),
    ensures
        final(table).wf(),
        final(table).map() == with_domains(old(table).map(), routes@, service_port, ips@),
        match host_port {
            Some(p) => final(ports).map() == old(ports).map().insert(p, Some(addrs_for(ips@, service_port)))
                && (started <==> !old(ports).map().contains_key(p)),
            None => final(ports).map() == old(ports).map() && !started,
        },
{
    table.register_domains(routes, service_port, ips, service_id);
    match host_port {
        Some(p) => {
            let backends = backend_addrs(ips, service_port);
            assert(views(backends@) =~= addrs_for(ips@, service_port));
            ports.upsert(p, backends)
        },
        None => false,
    }
}

/// After a failed deployment, points the service back at the containers it
/// had (`live_ips`); with none left, its external port stops taking
/// connections. Returns whether a listener must be started.
pub fn restore_after_rollback(
    table: &mut RouteTable,
    ports: &mut PortRoutes,
    routes: &[DomainRoute],
    service_port: u16,
    host_port: Option<u16>,
    live_ips: &[String],
    service_id: &str,
) -> (started: bool)
    requires
        old(table).wf(),
    ensures
        final(table).wf(),
        live_ips@.len() > 0 ==> final(table).map() == with_domains(old(table).map(), routes@, service_port, live_ips@),
        live_ips@.len() == 0 ==> final(table).map() == old(table).map(),
        match host_port {
            Some(p) => if live_ips@.len() > 0 {
                final(ports).map() == old(ports).map().insert(p, Some(addrs_for(live_ips@, service_port)))
                    && (started <==> !old(ports).map().contains_key(p))
            } else {
                (old(ports).map().contains_key(p) ==> final(ports).map() == old(ports).map().insert(p, None))
                    && (!old(ports).map().contains_key(p) ==> final(ports).map() == old(ports).map())
                    && !started
            },
            None => final(ports).map() == old(ports).map() && !started,
        },
{
    if live_ips.len() > 0 {
        route_service(table, ports, routes, service_port, host_port, live_ips, service_id)
    } else {
        if let Some(p) = host_port {
            ports.remove(p);
        }
        false
    }
}

/// Once a service's domains are removed, none of them is routed any more,
/// and the routes of other domains are untouched.
pub proof fn lemma_domains_removed(m: Map<Seq<char>, Seq<Seq<char>>>, routes: Seq<DomainRoute>)
    ensures
        forall|i: int| 0 <= i < routes.len() ==> !without_domains(m, routes).contains_key(#[trigger] routes[i].domain@),
        forall|d: Seq<char>|
            (forall|i: int| 0 <= i < routes.len() ==> routes[i].domain@ != d) ==> (#[trigger] without_domains(m, routes).contains_key(d)
                == m.contains_key(d) && (m.contains_key(d) ==> without_domains(m, routes)[d] == m[d])),
    decreases routes.len(),
{
    if routes.len() > 0 {
        let init = routes.drop_last();
        lemma_domains_removed(m, init);
        assert forall|i: int| 0 <= i < routes.len() implies !without_domains(m, routes).contains_key(
            #[trigger] routes[i].domain@,
        ) by {
            if i < routes.len() - 1 {
                assert(init[i] == routes[i]);
            }
        }
        assert forall|d: Seq<char>|
            (forall|i: int| 0 <= i < routes.len() ==> routes[i].domain@ != d) implies (#[trigger] without_domains(m, routes).contains_key(d)
                == m.contains_key(d) && (m.contains_key(d) ==> without_domains(m, routes)[d] == m[d])) by {
            assert(routes[routes.len() - 1].domain@ != d);
            assert forall|i: int| 0 <= i < init.len() implies init[i].domain@ != d by {
                assert(init[i] == routes[i]);
            }
            assert(without_domains(m, init).contains_key(d) == m.contains_key(d));
            assert(without_domains(m, routes) == without_domains(m, init).remove(routes.last().domain@));
        }
    }
}

/// Round-robin is fair: any run of as many consecutive requests as there
/// are backends reaches every backend exactly once.
pub proof fn lemma_round_robin(len: nat, start: nat, a: nat, b: nat)
    requires
        len > 0,
        a < b < len,
    ensures
        (start + a) % len != (start + b) % len,
{
    let x: int = (start + a) as int;
    let y: int = (start + b) as int;
    vstd::arithmetic::div_mod::lemma_fundamental_div_mod(x, len as int);
    vstd::arithmetic::div_mod::lemma_fundamental_div_mod(y, len as int);
    if x % (len as int) == y % (len as int) {
        let q1 = x / (len as int);
        let q2 = y / (len as int);
        vstd::arithmetic::mul::lemma_mul_is_distributive_sub(len as int, q2, q1);
        let d = q2 - q1;
        assert((len as int) * d == b - a);
        assert(false) by (nonlinear_arith)
            requires
                len > 0,
                (len as int) * d == b - a,
                0 < b - a < len,
        {
            if d <= 0 {
                assert((len as int) * d <= 0);
            } else {
                assert((len as int) * d >= len);
            }
        }
    }
}

/// After a route is set, looking its domain up gives the new backends; other
/// domains keep theirs; after it is removed the domain has no route.
pub proof fn lemma_route_read_after_write(
    m: Map<Seq<char>, Seq<Seq<char>>>,
    d: Seq<char>,
    backends: Seq<Seq<char>>,
    other: Seq<char>,
)
    requires
        other != d,
    ensures
        m.insert(d, backends).contains_key(d) && m.insert(d, backends)[d] == backends,
        m.insert(d, backends).contains_key(other) == m.contains_key(other),
        m.contains_key(other) ==> m.insert(d, backends)[other] == m[other],
        !m.remove(d).contains_key(d),
{
}


/// The domains that get a certificate are exactly those of the routes
/// served over TLS, each once per such route, in the routes' order.
pub proof fn lemma_tls_domains_are_the_tls_routes(routes: Seq<DomainRoute>)
    ensures
        tls_domains_of(routes) == routes.filter(|r: DomainRoute| r.tls).map_values(
            |r: DomainRoute| r.domain@,
        ),
        forall|i: int|
            0 <= i < routes.len() && routes[i].tls ==> tls_domains_of(routes).contains(
                #[trigger] routes[i].domain@,
            ),
    decreases routes.len(),
{
    reveal(Seq::filter);
    let f = |r: DomainRoute| r.tls;
    let g = |r: DomainRoute| r.domain@;
    if routes.len() > 0 {
        let init = routes.drop_last();
        lemma_tls_domains_are_the_tls_routes(init);
        assert(routes.filter(f) == if f(routes.last()) {
            init.filter(f).push(routes.last())
        } else {
            init.filter(f)
        });
        if routes.last().tls {
            assert(init.filter(f).push(routes.last()).map_values(g) =~= init.filter(f).map_values(
                g,
            ).push(routes.last().domain@));
        }
        assert forall|i: int|
            0 <= i < routes.len() && routes[i].tls implies tls_domains_of(routes).contains(
                #[trigger] routes[i].domain@,
            ) by {
            if i < routes.len() - 1 {
                assert(init[i] == routes[i]);
                let j = choose|j: int|
                    0 <= j < tls_domains_of(init).len() && tls_domains_of(init)[j] == init[i].domain@;
                if routes.last().tls {
                    assert(tls_domains_of(routes)[j] == routes[i].domain@);
                }
            } else {
                assert(tls_domains_of(routes).last() == routes[i].domain@);
            }
        }
    } else {
        assert(routes.filter(f) =~= Seq::<DomainRoute>::empty());
        assert(routes.filter(f).map_values(g) =~= Seq::<Seq<char>>::empty());
    }
}

} // verus!
