//! Choices about containers: which container of a Compose stack takes the
//! ingress traffic, which address a container has on a network, what a
//! staging container is created with.

use vstd::prelude::*;
use crate::deploy::failure::views;
use crate::text::{
    chars_of, contains, find_from, first_index, is_blank, is_blank_at, parse_unsigned,
    parse_unsigned_at, push_str, starts_with, starts_with_at, str_eq, string_of_range, trim,
    trim_at,
};

verus! {

/// The name of a Compose container is that of service `svc` of the stack
/// with container prefix `prefix`: exactly `<prefix><svc>` (a fixed
/// `container_name:`), or `<prefix><svc>-<replica>`.
pub open spec fn names_service(name: Seq<char>, prefix: Seq<char>, svc: Seq<char>) -> bool {
    name == prefix + svc || starts_with(name, prefix + svc + "-"@)
}

/// Index of the first candidate whose name is that of service `svc`, or -1.
pub open spec fn service_match(names: Seq<Seq<char>>, prefix: Seq<char>, svc: Seq<char>) -> int
    decreases names.len(),
{
    if names.len() == 0 {
        -1
    } else if names_service(names[0], prefix, svc) {
        0
    } else {
        let r = service_match(names.drop_first(), prefix, svc);
        if r < 0 {
            -1
        } else {
            r + 1
        }
    }
}

/// The names of `(id, name)` candidates.
pub open spec fn cand_names(c: Seq<(String, String)>) -> Seq<Seq<char>> {
    Seq::new(c.len(), |i: int| c[i].1@)
}

/// Index of the first container exposing port `w`, or -1.
pub open spec fn exposing(exposed: Seq<Seq<u16>>, w: u16) -> int
    decreases exposed.len(),
{
    if exposed.len() == 0 {
        -1
    } else if exposed[0].contains(w) {
        0
    } else {
        let r = exposing(exposed.drop_first(), w);
        if r < 0 {
            -1
        } else {
            r + 1
        }
    }
}

/// The container chosen by port: for the first wanted port that some
/// container exposes, the first container exposing it.
pub open spec fn port_match(exposed: Seq<Seq<u16>>, wants: Seq<u16>) -> Option<nat>
    decreases wants.len(),
{
    if wants.len() == 0 {
        None
    } else if exposing(exposed, wants[0]) >= 0 {
        Some(exposing(exposed, wants[0]) as nat)
    } else {
        port_match(exposed, wants.drop_first())
    }
}

/// The port lists of the containers.
pub open spec fn port_lists(e: Seq<Vec<u16>>) -> Seq<Seq<u16>> {
    Seq::new(e.len(), |i: int| e[i]@)
}

proof fn lemma_service_match_is(names: Seq<Seq<char>>, prefix: Seq<char>, svc: Seq<char>, i: int)
    requires
        0 <= i <= names.len(),
        forall|j: int| 0 <= j < i ==> !names_service(#[trigger] names[j], prefix, svc),
        i < names.len() ==> names_service(names[i], prefix, svc),
    ensures
        service_match(names, prefix, svc) == if i < names.len() {
            i
        } else {
            -1
        },
    decreases names.len(),
{
    if names.len() > 0 && i > 0 {
        let t = names.drop_first();
        assert forall|j: int| 0 <= j < i - 1 implies !names_service(#[trigger] t[j], prefix, svc) by {
            assert(t[j] == names[j + 1]);
        }
        assert(!names_service(names[0], prefix, svc));
        lemma_service_match_is(t, prefix, svc, i - 1);
    }
}

proof fn lemma_exposing_is(exposed: Seq<Seq<u16>>, w: u16, i: int)
    requires
        0 <= i <= exposed.len(),
        forall|j: int| 0 <= j < i ==> !(#[trigger] exposed[j]).contains(w),
        i < exposed.len() ==> exposed[i].contains(w),
    ensures
        exposing(exposed, w) == if i < exposed.len() {
            i
        } else {
            -1
        },
    decreases exposed.len(),
{
    if exposed.len() > 0 && i > 0 {
        let t = exposed.drop_first();
        assert forall|j: int| 0 <= j < i - 1 implies !(#[trigger] t[j]).contains(w) by {
            assert(t[j] == exposed[j + 1]);
        }
        assert(!exposed[0].contains(w));
        lemma_exposing_is(t, w, i - 1);
    }
}

fn name_is_service(name: &str, exact: &[char], replica: &[char]) -> (b: bool)
    ensures
        b == (name@ == exact@ || starts_with(name@, replica@)),
{
    let v = chars_of(name);
    let n = v.len();
    assert(v@.subrange(0, n as int) =~= v@);
    let e = crate::text::string_of(exact);
    str_eq(name, e.as_str()) || starts_with_at(v.as_slice(), 0, n, replica)
}

/// Index of the candidate whose name is that of service `svc` (see
/// [`names_service`]).
pub fn match_ingress_service(candidates: &[(String, String)], prefix: &str, svc: &str) -> (r: Option<usize>)
    ensures
        match r {
            Some(i) => service_match(cand_names(candidates@), prefix@, svc@) == i,
            None => service_match(cand_names(candidates@), prefix@, svc@) == -1,
        },
{
    let mut exact_s = String::new();
    push_str(&mut exact_s, prefix);
    push_str(&mut exact_s, svc);
    let exact = chars_of(exact_s.as_str());
    let mut replica_s = String::new();
    push_str(&mut replica_s, exact_s.as_str());
    push_str(&mut replica_s, "-");
    let replica = chars_of(replica_s.as_str());
    let ghost names = cand_names(candidates@);
    let mut i: usize = 0;
    while i < candidates.len()
        invariant
            i <= candidates@.len(),
            names == cand_names(candidates@),
            exact@ == prefix@ + svc@,
            replica@ == prefix@ + svc@ + "-"@,
            forall|j: int| 0 <= j < i ==> !names_service(#[trigger] names[j], prefix@, svc@),
        decreases candidates.len() - i,
    {
        assert(names[i as int] == candidates@[i as int].1@);
        if name_is_service(candidates[i].1.as_str(), exact.as_slice(), replica.as_slice()) {
            proof {
                lemma_service_match_is(names, prefix@, svc@, i as int);
            }
            return Some(i);
        }
        i = i + 1;
    }
    proof {
        lemma_service_match_is(names, prefix@, svc@, names.len() as int);
    }
    None
}

fn has_port(ports: &Vec<u16>, w: u16) -> (b: bool)
    ensures
        b == ports@.contains(w),
{
    let mut i: usize = 0;
    while i < ports.len()
        invariant
            i <= ports@.len(),
            forall|j: int| 0 <= j < i ==> ports@[j] != w,
        decreases ports.len() - i,
    {
        if ports[i] == w {
            assert(ports@[i as int] == w);
            return true;
        }
        i = i + 1;
    }
    false
}

fn first_exposing(exposed: &[Vec<u16>], w: u16) -> (r: Option<usize>)
    ensures
        match r {
            Some(i) => exposing(port_lists(exposed@), w) == i,
            None => exposing(port_lists(exposed@), w) == -1,
        },
{
    let ghost pl = port_lists(exposed@);
    let mut i: usize = 0;
    while i < exposed.len()
        invariant
            i <= exposed@.len(),
            pl == port_lists(exposed@),
            forall|j: int| 0 <= j < i ==> !(#[trigger] pl[j]).contains(w),
        decreases exposed.len() - i,
    {
        assert(pl[i as int] == exposed@[i as int]@);
        if has_port(&exposed[i], w) {
            proof {
                lemma_exposing_is(pl, w, i as int);
            }
            return Some(i);
        }
        i = i + 1;
    }
    proof {
        lemma_exposing_is(pl, w, pl.len() as int);
    }
    None
}

/// The container chosen by port (see [`port_match`]): the order of
/// `want_ports` decides, so that a service with domains on several ports
/// always lands on the same container.
pub fn match_exposed_port(exposed: &[Vec<u16>], want_ports: &[u16]) -> (r: Option<usize>)
    ensures
        match r {
            Some(i) => port_match(port_lists(exposed@), want_ports@) == Some(i as nat),
            None => port_match(port_lists(exposed@), want_ports@) is None,
        },
{
    let mut k: usize = 0;
    assert(want_ports@.skip(0) =~= want_ports@);
    while k < want_ports.len()
        invariant
            k <= want_ports@.len(),
            port_match(port_lists(exposed@), want_ports@) == port_match(
                port_lists(exposed@),
                want_ports@.skip(k as int),
            ),
        decreases want_ports.len() - k,
    {
        let ghost rest = want_ports@.skip(k as int);
        assert(rest[0] == want_ports@[k as int]);
        assert(rest.drop_first() =~= want_ports@.skip(k + 1));
        if let Some(i) = first_exposing(exposed, want_ports[k]) {
            return Some(i);
        }
        k = k + 1;
    }
    assert(want_ports@.skip(k as int) =~= Seq::<u16>::empty());
    None
}

/// The declared ingress service, trimmed, when it is not blank.
pub open spec fn declared_service(s: Option<Seq<char>>) -> Option<Seq<char>> {
    match s {
        Some(t) => if trim(t).len() > 0 {
            Some(trim(t))
        } else {
            None
        },
        None => None,
    }
}

/// The container picked by the stack's declared ingress service, if it
/// declares one that exists; the daemon falls back to the exposed ports,
/// then to the first container by name.
pub fn ingress_by_declared_service(candidates: &[(String, String)], prefix: &str, ingress_service: Option<&str>) -> (r: Option<usize>)
    ensures
        match declared_service(
            match ingress_service {
                Some(s) => Some(s@),
                None => None,
            },
        ) {
            Some(svc) => match r {
                Some(i) => service_match(cand_names(candidates@), prefix@, svc) == i,
                None => service_match(cand_names(candidates@), prefix@, svc) == -1,
            },
            None => r is None,
        },
{
    match ingress_service {
        None => None,
        Some(s) => {
            let v = chars_of(s);
            let (a, b) = trim_at(v.as_slice(), 0, v.len());
            assert(v@.subrange(0, v@.len() as int) =~= v@);
            if a == b {
                return None;
            }
            let t = string_of_range(v.as_slice(), a, b);
            match_ingress_service(candidates, prefix, t.as_str())
        },
    }
}

/// The container of a Compose stack that receives the ingress traffic, in
/// this order: the declared ingress service, when it exists in the stack;
/// else the first container exposing one of `want_ports` (the first port
/// asked for decides); else the first container by name. None only for an
/// empty stack.
pub open spec fn ingress_pick(
    candidates: Seq<(String, String)>,
    prefix: Seq<char>,
    ingress_service: Option<Seq<char>>,
    exposed: Seq<Seq<u16>>,
    want_ports: Seq<u16>,
) -> Option<int> {
    if candidates.len() == 0 {
        None
    } else {
        let declared = match declared_service(ingress_service) {
            Some(svc) => service_match(cand_names(candidates), prefix, svc),
            None => -1,
        };
        if declared >= 0 {
            Some(declared)
        } else {
            match port_match(exposed, want_ports) {
                Some(i) => Some(i as int),
                None => Some(0),
            }
        }
    }
}

/// The container that receives a stack's ingress traffic (see
/// [`ingress_pick`]); `exposed` holds the TCP ports each candidate exposes.
pub fn choose_ingress_container(
    candidates: &[(String, String)],
    prefix: &str,
    ingress_service: Option<&str>,
    exposed: &[Vec<u16>],
    want_ports: &[u16],
) -> (r: Option<usize>)
    ensures
        match r {
            Some(i) => ingress_pick(
                candidates@,
                prefix@,
                match ingress_service {
                    Some(s) => Some(s@),
                    None => None,
                },
                port_lists(exposed@),
                want_ports@,
            ) == Some(i as int),
            None => ingress_pick(
                candidates@,
                prefix@,
                match ingress_service {
                    Some(s) => Some(s@),
                    None => None,
                },
                port_lists(exposed@),
                want_ports@,
            ) is None,
        },
{
    if candidates.len() == 0 {
        return None;
    }
    if let Some(i) = ingress_by_declared_service(candidates, prefix, ingress_service) {
        return Some(i);
    }
    match match_exposed_port(exposed, want_ports) {
        Some(i) => Some(i),
        None => Some(0),
    }
}

/// The address part of an address in CIDR form (`172.18.0.2/16` gives
/// `172.18.0.2`); `None` when the address is empty.
pub open spec fn ip_of_cidr(s: Seq<char>) -> Option<Seq<char>> {
    if s.len() == 0 {
        None
    } else {
        let i = first_index(s, '/');
        if i < 0 {
            Some(s)
        } else {
            Some(s.take(i))
        }
    }
}

/// The address of a container from its `ipv4_address` on a network.
pub fn ip_from_cidr(ipv4: Option<&str>) -> (r: Option<String>)
    ensures
        match ipv4 {
            Some(s) => match r {
                Some(ip) => ip_of_cidr(s@) == Some(ip@),
                None => ip_of_cidr(s@) is None,
            },
            None => r is None,
        },
{
    match ipv4 {
        None => None,
        Some(s) => {
            let v = chars_of(s);
            if v.len() == 0 {
                return None;
            }
            let n = v.len();
            let i = find_from(v.as_slice(), 0, n, '/');
            assert(v@.subrange(0, n as int) =~= v@);
            assert(v@.subrange(0, i as int) =~= v@.take(i as int));
            if i == n {
                assert(v@.take(n as int) =~= v@);
            }
            Some(string_of_range(v.as_slice(), 0, i))
        },
    }
}

/// Index of the first key equal to `id`, or -1.
pub open spec fn exact_pos(keys: Seq<Seq<char>>, id: Seq<char>) -> int
    decreases keys.len(),
{
    if keys.len() == 0 {
        -1
    } else if keys[0] == id {
        0
    } else {
        let r = exact_pos(keys.drop_first(), id);
        if r < 0 {
            -1
        } else {
            r + 1
        }
    }
}

/// One of two ids is a prefix of the other (a short and a long form).
pub open spec fn ids_related(k: Seq<char>, id: Seq<char>) -> bool {
    starts_with(k, id) || starts_with(id, k)
}

/// Index of the first key related to `id`, or -1.
pub open spec fn related_pos(keys: Seq<Seq<char>>, id: Seq<char>) -> int
    decreases keys.len(),
{
    if keys.len() == 0 {
        -1
    } else if ids_related(keys[0], id) {
        0
    } else {
        let r = related_pos(keys.drop_first(), id);
        if r < 0 {
            -1
        } else {
            r + 1
        }
    }
}

/// The key of a network's container list that stands for `container_id`:
/// the exact id, else the first key that is a prefix of it or that it is a
/// prefix of, in the order the keys are given.
pub open spec fn network_key_of(keys: Seq<Seq<char>>, id: Seq<char>) -> int {
    if exact_pos(keys, id) >= 0 {
        exact_pos(keys, id)
    } else {
        related_pos(keys, id)
    }
}

proof fn lemma_exact_pos_is(keys: Seq<Seq<char>>, id: Seq<char>, i: int)
    requires
        0 <= i <= keys.len(),
        forall|j: int| 0 <= j < i ==> #[trigger] keys[j] != id,
        i < keys.len() ==> keys[i] == id,
    ensures
        exact_pos(keys, id) == if i < keys.len() {
            i
        } else {
            -1
        },
    decreases keys.len(),
{
    if keys.len() > 0 && i > 0 {
        let t = keys.drop_first();
        assert forall|j: int| 0 <= j < i - 1 implies #[trigger] t[j] != id by {
            assert(t[j] == keys[j + 1]);
        }
        assert(keys[0] != id);
        lemma_exact_pos_is(t, id, i - 1);
    }
}

proof fn lemma_related_pos_is(keys: Seq<Seq<char>>, id: Seq<char>, i: int)
    requires
        0 <= i <= keys.len(),
        forall|j: int| 0 <= j < i ==> !ids_related(#[trigger] keys[j], id),
        i < keys.len() ==> ids_related(keys[i], id),
    ensures
        related_pos(keys, id) == if i < keys.len() {
            i
        } else {
            -1
        },
    decreases keys.len(),
{
    if keys.len() > 0 && i > 0 {
        let t = keys.drop_first();
        assert forall|j: int| 0 <= j < i - 1 implies !ids_related(#[trigger] t[j], id) by {
            assert(t[j] == keys[j + 1]);
        }
        assert(!ids_related(keys[0], id));
        lemma_related_pos_is(t, id, i - 1);
    }
}

fn has_prefix(s: &str, p: &str) -> (b: bool)
    ensures
        b == starts_with(s@, p@),
{
    let v = chars_of(s);
    let w = chars_of(p);
    assert(v@.subrange(0, v@.len() as int) =~= v@);
    starts_with_at(v.as_slice(), 0, v.len(), w.as_slice())
}

/// Which of the keys (given in the order the network lists them) stands for
/// `container_id` (see [`network_key_of`]).
pub fn network_key(keys: &[String], container_id: &str) -> (r: Option<usize>)
    ensures
        match r {
            Some(i) => network_key_of(views(keys@), container_id@) == i,
            None => network_key_of(views(keys@), container_id@) == -1,
        },
{
    let ghost ks = views(keys@);
    let mut i: usize = 0;
    while i < keys.len()
        invariant
            i <= keys@.len(),
            ks == views(keys@),
            forall|j: int| 0 <= j < i ==> #[trigger] ks[j] != container_id@,
        decreases keys.len() - i,
    {
        assert(ks[i as int] == keys@[i as int]@);
        if str_eq(keys[i].as_str(), container_id) {
            proof {
                lemma_exact_pos_is(ks, container_id@, i as int);
            }
            return Some(i);
        }
        i = i + 1;
    }
    proof {
        lemma_exact_pos_is(ks, container_id@, ks.len() as int);
    }
    let mut k: usize = 0;
    while k < keys.len()
        invariant
            k <= keys@.len(),
            ks == views(keys@),
            exact_pos(ks, container_id@) == -1,
            forall|j: int| 0 <= j < k ==> !ids_related(#[trigger] ks[j], container_id@),
        decreases keys.len() - k,
    {
        assert(ks[k as int] == keys@[k as int]@);
        if has_prefix(keys[k].as_str(), container_id) || has_prefix(container_id, keys[k].as_str()) {
            proof {
                lemma_related_pos_is(ks, container_id@, k as int);
            }
            return Some(k);
        }
        k = k + 1;
    }
    proof {
        lemma_related_pos_is(ks, container_id@, ks.len() as int);
    }
    None
}

/// The TCP port a key of `ExposedPorts` names (`8000/tcp`; a key without
/// protocol counts as TCP).
pub open spec fn port_of_key(k: Seq<char>) -> Option<u16> {
    let i = first_index(k, '/');
    let num = if i < 0 { k } else { k.take(i) };
    let tcp = i < 0 || k.skip(i + 1) == "tcp"@;
    if !tcp {
        None
    } else {
        match parse_unsigned(num, 65535) {
            Some(n) => Some(n as u16),
            None => None,
        }
    }
}

/// The TCP ports of a list of keys, in order.
pub open spec fn ports_of_keys(keys: Seq<Seq<char>>) -> Seq<u16>
    decreases keys.len(),
{
    if keys.len() == 0 {
        Seq::empty()
    } else {
        let r = ports_of_keys(keys.drop_last());
        match port_of_key(keys.last()) {
            Some(p) => r.push(p),
            None => r,
        }
    }
}

/// In ascending order.
pub open spec fn ascending(s: Seq<u16>) -> bool {
    forall|i: int, j: int| 0 <= i < j < s.len() ==> s[i] <= s[j]
}

/// The TCP port named by one key of `ExposedPorts`.
pub fn port_from_key(k: &str) -> (r: Option<u16>)
    ensures
        r == port_of_key(k@),
{
    let v = chars_of(k);
    let n = v.len();
    let i = find_from(v.as_slice(), 0, n, '/');
    assert(v@.subrange(0, n as int) =~= v@);
    let tcp = if i == n {
        true
    } else {
        let rest = string_of_range(v.as_slice(), i + 1, n);
        assert(v@.subrange(i + 1, n as int) =~= v@.skip(i + 1));
        str_eq(rest.as_str(), "tcp")
    };
    if !tcp {
        return None;
    }
    assert(v@.subrange(0, i as int) =~= (if i == n { v@ } else { v@.take(i as int) }));
    match parse_unsigned_at(v.as_slice(), 0, i, 65535) {
        Some(p) => Some(p as u16),
        None => None,
    }
}

/// Sorts ports in ascending order.
pub fn sort_ports(v: Vec<u16>) -> (r: Vec<u16>)
    ensures
        ascending(r@),
        r@.to_multiset() == v@.to_multiset(),
{
    broadcast use vstd::seq_lib::to_multiset_build, vstd::seq_lib::to_multiset_insert;
    let mut out: Vec<u16> = Vec::new();
    let mut k: usize = 0;
    assert(v@.take(0) =~= Seq::<u16>::empty());
    while k < v.len()
        invariant
            k <= v@.len(),
            ascending(out@),
            out@.to_multiset() == v@.take(k as int).to_multiset(),
        decreases v.len() - k,
    {
        let x = v[k];
        let mut p: usize = 0;
        while p < out.len() && out[p] <= x
            invariant
                p <= out@.len(),
                forall|j: int| 0 <= j < p ==> out@[j] <= x,
            decreases out.len() - p,
        {
            p = p + 1;
        }
        let ghost before = out@;
        out.insert(p, x);
        assert(out@ == before.insert(p as int, x));
        proof {
            vstd::seq_lib::to_multiset_insert(before, p as int, x);
            vstd::seq_lib::to_multiset_build(v@.take(k as int), x);
        }
        assert(ascending(out@)) by {
            assert forall|a: int, b: int| 0 <= a < b < out@.len() implies out@[a] <= out@[b] by {
                if b < p {
                    assert(out@[a] == before[a] && out@[b] == before[b]);
                } else if b == p {
                    assert(out@[a] == before[a]);
                } else if a < p {
                    assert(out@[a] == before[a] && out@[b] == before[b - 1]);
                    if p < before.len() {
                        assert(before[p as int] > x);
                    }
                } else if a == p {
                    assert(out@[b] == before[b - 1]);
                    assert(before[p as int] > x);
                    if b - 1 > p {
                        assert(before[p as int] <= before[b - 1]);
                    }
                } else {
                    assert(out@[a] == before[a - 1] && out@[b] == before[b - 1]);
                }
            }
        }
        assert(v@.take(k + 1) =~= v@.take(k as int).push(x));
        k = k + 1;
    }
    assert(v@.take(v@.len() as int) =~= v@);
    out
}

/// The TCP ports a container exposes, from the keys of its `ExposedPorts`
/// (in whatever order they come), in ascending order.
pub fn exposed_tcp_ports(keys: &[String]) -> (r: Vec<u16>)
    ensures
        ascending(r@),
        r@.to_multiset() == ports_of_keys(views(keys@)).to_multiset(),
{
    let ghost ks = views(keys@);
    let mut ports: Vec<u16> = Vec::new();
    let mut i: usize = 0;
    assert(ks.take(0) =~= Seq::<Seq<char>>::empty());
    while i < keys.len()
        invariant
            i <= keys@.len(),
            ks == views(keys@),
            ports@ == ports_of_keys(ks.take(i as int)),
        decreases keys.len() - i,
    {
        assert(ks.take(i + 1).drop_last() =~= ks.take(i as int));
        assert(ks[i as int] == keys@[i as int]@);
        if let Some(p) = port_from_key(keys[i].as_str()) {
            ports.push(p);
        }
        i = i + 1;
    }
    assert(ks.take(keys@.len() as int) =~= ks);
    sort_ports(ports)
}

/// The non-empty lines of a container's output.
pub open spec fn output_lines(text: Seq<char>) -> Seq<Seq<char>> {
    crate::text::lines(text).filter(|l: Seq<char>| l.len() > 0)
}

/// The non-empty lines of a chunk of container output.
pub fn nonempty_lines(text: &str) -> (r: Vec<String>)
    ensures
        views(r@) == output_lines(text@),
{
    let v = chars_of(text);
    let rs = crate::text::line_bounds(v.as_slice());
    let ghost ls = crate::text::lines(text@);
    let mut out: Vec<String> = Vec::new();
    let mut k: usize = 0;
    assert(ls.take(0).filter(|l: Seq<char>| l.len() > 0) =~= Seq::<Seq<char>>::empty());
    while k < rs.len()
        invariant
            v@ == text@,
            ls == crate::text::lines(text@),
            crate::text::ranges_within(v@, rs@),
            crate::text::pieces(v@, rs@) == ls,
            k <= rs@.len(),
            views(out@) == ls.take(k as int).filter(|l: Seq<char>| l.len() > 0),
        decreases rs.len() - k,
    {
        let (a, b) = rs[k];
        assert(ls[k as int] == v@.subrange(a as int, b as int));
        assert(ls.take(k + 1) =~= ls.take(k as int).push(ls[k as int]));
        proof {
            ls.take(k as int).lemma_filter_push(ls[k as int], |l: Seq<char>| l.len() > 0);
        }
        if a < b {
            let ghost before = views(out@);
            out.push(string_of_range(v.as_slice(), a, b));
            assert(views(out@) =~= before.push(v@.subrange(a as int, b as int)));
        }
        k = k + 1;
    }
    assert(ls.take(rs@.len() as int) =~= ls);
    out
}

/// A container as listed by Docker, with the labels the daemon reads.
pub struct ListedContainer {
    pub id: Option<String>,
    pub deployment_label: Option<String>,
}

/// The containers of a service that belong to another deployment than
/// `exclude`: a container without the deployment label counts as belonging
/// to none.
pub open spec fn old_ids_of(list: Seq<ListedContainer>, exclude: Seq<char>) -> Seq<Seq<char>>
    decreases list.len(),
{
    if list.len() == 0 {
        Seq::empty()
    } else {
        let r = old_ids_of(list.drop_last(), exclude);
        let c = list.last();
        let dep = match c.deployment_label {
            Some(d) => d@,
            None => Seq::empty(),
        };
        if dep != exclude && c.id is Some {
            r.push(c.id.unwrap()@)
        } else {
            r
        }
    }
}

/// The ids of the containers of a service from deployments other than
/// `exclude_deployment_id` (see [`old_ids_of`]).
pub fn old_container_ids(list: &[ListedContainer], exclude_deployment_id: &str) -> (r: Vec<String>)
    ensures
        views(r@) == old_ids_of(list@, exclude_deployment_id@),
{
    let mut out: Vec<String> = Vec::new();
    let mut i: usize = 0;
    assert(list@.take(0) =~= Seq::<ListedContainer>::empty());
    proof {
        reveal_strlit("");
    }
    while i < list.len()
        invariant
            i <= list@.len(),
            views(out@) == old_ids_of(list@.take(i as int), exclude_deployment_id@),
            ""@.len() == 0,
        decreases list.len() - i,
    {
        assert(list@.take(i + 1).drop_last() =~= list@.take(i as int));
        let c = &list[i];
        let same = match &c.deployment_label {
            Some(d) => str_eq(d.as_str(), exclude_deployment_id),
            None => {
                let r = str_eq("", exclude_deployment_id);
                assert(""@ =~= Seq::<char>::empty());
                r
            },
        };
        if !same {
            if let Some(id) = &c.id {
                let mut s = String::new();
                push_str(&mut s, id.as_str());
                let ghost before = views(out@);
                out.push(s);
                assert(views(out@) =~= before.push(id@));
            }
        }
        i = i + 1;
    }
    assert(list@.take(list@.len() as int) =~= list@);
    out
}

/// What a staging container is created with, apart from its image,
/// network and name.
pub struct StagingConfig {
    /// `KEY=value` entries.
    pub env: Vec<String>,
    /// The run command followed by its arguments, when either is set.
    pub cmd: Option<Vec<String>>,
    /// Memory limit in bytes; none when the service sets 0.
    pub memory: Option<i64>,
    /// CPU shares; none when the service sets 0.
    pub cpu_shares: Option<i64>,
    /// `<port>/tcp`.
    pub exposed_port: String,
    /// The labels that mark the container as the daemon's.
    pub labels: Vec<(String, String)>,
}

/// `KEY=value` for each variable.
pub open spec fn env_entries(vars: Seq<(String, String)>) -> Seq<Seq<char>> {
    Seq::new(vars.len(), |i: int| vars[i].0@ + "="@ + vars[i].1@)
}

/// The command of a container: the run command, then its arguments.
pub open spec fn cmd_of(run_command: Option<Seq<char>>, run_args: Seq<Seq<char>>) -> Option<Seq<Seq<char>>> {
    if run_command is Some || run_args.len() > 0 {
        Some(
            match run_command {
                Some(c) => seq![c] + run_args,
                None => run_args,
            },
        )
    } else {
        None
    }
}

/// What a staging container of a service is created with.
pub fn staging_config(
    resolved_env: &[(String, String)],
    run_command: &Option<String>,
    run_args: &Vec<String>,
    mem_limit_bytes: u64,
    cpu_shares: u64,
    port: u16,
    service_id: &str,
    deployment_id: &str,
) -> (c: StagingConfig)
    ensures
        views(c.env@) == env_entries(resolved_env@),
        match c.cmd {
            Some(v) => cmd_of(
                match run_command {
                    Some(s) => Some(s@),
                    None => None,
                },
                views(run_args@),
            ) == Some(views(v@)),
            None => cmd_of(
                match run_command {
                    Some(s) => Some(s@),
                    None => None,
                },
                views(run_args@),
            ) is None,
        },
        c.memory == if mem_limit_bytes > 0 { Some(mem_limit_bytes as i64) } else { None },
        c.cpu_shares == if cpu_shares > 0 { Some(cpu_shares as i64) } else { None },
        c.exposed_port@ == crate::text::dec(port as nat) + "/tcp"@,
        c.labels@.len() == 3,
        c.labels@[0].0@ == "rustploy.managed"@ && c.labels@[0].1@ == "true"@,
        c.labels@[1].0@ == "rustploy.service_id"@ && c.labels@[1].1@ == service_id@,
        c.labels@[2].0@ == "rustploy.deployment_id"@ && c.labels@[2].1@ == deployment_id@,
{
    let mut env: Vec<String> = Vec::new();
    let mut i: usize = 0;
    while i < resolved_env.len()
        invariant
            i <= resolved_env@.len(),
            views(env@) == env_entries(resolved_env@).take(i as int),
        decreases resolved_env.len() - i,
    {
        let mut s = String::new();
        push_str(&mut s, resolved_env[i].0.as_str());
        push_str(&mut s, "=");
        push_str(&mut s, resolved_env[i].1.as_str());
        let ghost before = views(env@);
        assert(before == env_entries(resolved_env@).take(i as int));
        assert(before.len() == i);
        assert(s@ =~= resolved_env@[i as int].0@ + "="@ + resolved_env@[i as int].1@);
        env.push(s);
        assert(views(env@) =~= env_entries(resolved_env@).take(i + 1)) by {
            assert forall|j: int| 0 <= j < i + 1 implies #[trigger] views(env@)[j] == env_entries(resolved_env@).take(i + 1)[j] by {
                if j < i {
                    assert(before[j] == env_entries(resolved_env@).take(i as int)[j]);
                }
            }
        }
        i = i + 1;
    }
    assert(env_entries(resolved_env@).take(resolved_env@.len() as int) =~= env_entries(resolved_env@));
    let cmd = if run_command.is_some() || run_args.len() > 0 {
        let mut parts: Vec<String> = Vec::new();
        if let Some(c) = run_command {
            let mut s = String::new();
            push_str(&mut s, c.as_str());
            parts.push(s);
        }
        let ghost head = views(parts@);
        let mut k: usize = 0;
        while k < run_args.len()
            invariant
                k <= run_args@.len(),
                head.len() <= 1,
                views(parts@) == head + views(run_args@).take(k as int),
            decreases run_args.len() - k,
        {
            let mut s = String::new();
            push_str(&mut s, run_args[k].as_str());
            let ghost before = views(parts@);
            assert(before.len() == head.len() + k);
            assert(s@ =~= run_args@[k as int]@);
            parts.push(s);
            assert(views(parts@) =~= head + views(run_args@).take(k + 1)) by {
                assert forall|j: int| 0 <= j < parts@.len() implies #[trigger] views(parts@)[j] == (head + views(run_args@).take(k + 1))[j] by {
                    if j < parts@.len() - 1 {
                        assert(before[j] == (head + views(run_args@).take(k as int))[j]);
                    }
                }
            }
            k = k + 1;
        }
        assert(views(run_args@).take(run_args@.len() as int) =~= views(run_args@));
        Some(parts)
    } else {
        None
    };
    let mut exposed = String::new();
    crate::text::push_decimal(&mut exposed, port as u64);
    push_str(&mut exposed, "/tcp");
    let mut labels: Vec<(String, String)> = Vec::new();
    let mut k1 = String::new();
    push_str(&mut k1, "rustploy.managed");
    let mut v1 = String::new();
    push_str(&mut v1, "true");
    labels.push((k1, v1));
    let mut k2 = String::new();
    push_str(&mut k2, "rustploy.service_id");
    let mut v2 = String::new();
    push_str(&mut v2, service_id);
    labels.push((k2, v2));
    let mut k3 = String::new();
    push_str(&mut k3, "rustploy.deployment_id");
    let mut v3 = String::new();
    push_str(&mut v3, deployment_id);
    labels.push((k3, v3));
    StagingConfig {
        env,
        cmd,
        memory: if mem_limit_bytes > 0 { Some(mem_limit_bytes as i64) } else { None },
        cpu_shares: if cpu_shares > 0 { Some(cpu_shares as i64) } else { None },
        exposed_port: exposed,
        labels,
    }
}

/// A volume of a service: a host directory mounted into its containers.
pub struct VolumeMount {
    pub host_path: String,
    pub container_path: String,
    pub read_only: bool,
}

/// A bind mount of a staging container.
pub struct BindMount {
    /// The host directory.
    pub source: String,
    /// Where it appears in the container.
    pub target: String,
    pub read_only: bool,
}

/// The bind mounts of a staging container: one per volume of the service,
/// in order, the host path as source, the container path as target, read
/// only when the volume is.
pub fn staging_mounts(volumes: &[VolumeMount]) -> (r: Vec<BindMount>)
    ensures
        r@.len() == volumes@.len(),
        forall|i: int|
            0 <= i < volumes@.len() ==> (#[trigger] r@[i]).source@ == volumes@[i].host_path@ && r@[i].target@
                == volumes@[i].container_path@ && r@[i].read_only == volumes@[i].read_only,
{
    let mut r: Vec<BindMount> = Vec::new();
    let mut i: usize = 0;
    while i < volumes.len()
        invariant
            i <= volumes@.len(),
            r@.len() == i,
            forall|j: int|
                0 <= j < i ==> (#[trigger] r@[j]).source@ == volumes@[j].host_path@ && r@[j].target@
                    == volumes@[j].container_path@ && r@[j].read_only == volumes@[j].read_only,
        decreases volumes.len() - i,
    {
        let v = &volumes[i];
        r.push(BindMount { source: copy(&v.host_path), target: copy(&v.container_path), read_only: v.read_only });
        i = i + 1;
    }
    r
}

/// A container as the dashboard shows it.
pub struct ManagedContainer {
    /// The full id.
    pub id: String,
    /// The name, without the leading `/` Docker reports.
    pub name: String,
    /// `running`, `exited`, `created`, …
    pub state: String,
}

/// A listed container with the labels the index files it under.
pub struct IndexedContainer {
    pub container: ManagedContainer,
    /// `rustploy.service_id`.
    pub service_label: Option<String>,
    /// `com.docker.compose.project`.
    pub compose_label: Option<String>,
}

/// The text of a container.
pub open spec fn mc_view(c: ManagedContainer) -> (Seq<char>, Seq<char>, Seq<char>) {
    (c.id@, c.name@, c.state@)
}

/// The containers with the service label `sid`, in listing order.
pub open spec fn of_service(e: Seq<IndexedContainer>, sid: Seq<char>) -> Seq<(Seq<char>, Seq<char>, Seq<char>)>
    decreases e.len(),
{
    if e.len() == 0 {
        Seq::empty()
    } else {
        let r = of_service(e.drop_last(), sid);
        if e.last().service_label matches Some(s) && s@ == sid {
            r.push(mc_view(e.last().container))
        } else {
            r
        }
    }
}

/// The containers without service label whose Compose project is `p`.
pub open spec fn of_project(e: Seq<IndexedContainer>, p: Seq<char>) -> Seq<(Seq<char>, Seq<char>, Seq<char>)>
    decreases e.len(),
{
    if e.len() == 0 {
        Seq::empty()
    } else {
        let r = of_project(e.drop_last(), p);
        if e.last().service_label is None && (e.last().compose_label matches Some(c) && c@ == p) {
            r.push(mc_view(e.last().container))
        } else {
            r
        }
    }
}

/// Every container of the host, listed once, filed by service and by
/// Compose project.
pub struct ContainerIndex {
    pub entries: Vec<IndexedContainer>,
}

/// The name of a listed container: its first name without leading `/`s.
pub open spec fn display_name(names: Seq<Seq<char>>) -> Seq<char> {
    if names.len() == 0 {
        Seq::empty()
    } else {
        crate::api::public_routes::no_leading_slash(names[0])
    }
}

fn copy(s: &String) -> (r: String)
    ensures
        r@ == s@,
{
    let mut c = String::new();
    push_str(&mut c, s.as_str());
    c
}

/// A dashboard entry from what Docker lists (missing values are empty).
pub fn managed_container(id: Option<String>, names: &Vec<String>, state: Option<String>) -> (c: ManagedContainer)
    ensures
        c.id@ == match id {
            Some(i) => i@,
            None => Seq::empty(),
        },
        c.name@ == display_name(views(names@)),
        c.state@ == match state {
            Some(s) => s@,
            None => Seq::empty(),
        },
{
    let name = if names.len() == 0 {
        String::new()
    } else {
        let v = chars_of(names[0].as_str());
        let n = v.len();
        let mut a: usize = 0;
        assert(v@.skip(0) =~= v@);
        while a < n && v[a] == '/'
            invariant
                a <= n,
                n == v@.len(),
                v@ == names@[0]@,
                crate::api::public_routes::no_leading_slash(v@.skip(a as int))
                    == crate::api::public_routes::no_leading_slash(names@[0]@),
            decreases n - a,
        {
            assert(v@.skip(a as int).drop_first() =~= v@.skip(a + 1));
            a = a + 1;
        }
        assert(v@.subrange(a as int, n as int) =~= v@.skip(a as int));
        assert(views(names@)[0] == names@[0]@);
        string_of_range(v.as_slice(), a, n)
    };
    ManagedContainer {
        id: match id {
            Some(i) => i,
            None => String::new(),
        },
        name,
        state: match state {
            Some(s) => s,
            None => String::new(),
        },
    }
}

impl ContainerIndex {
    /// The index of a listing.
    pub fn new(entries: Vec<IndexedContainer>) -> (r: Self)
        ensures
            r.entries@ == entries@,
    {
        ContainerIndex { entries }
    }

    /// The containers of a service: those labelled with its id, or, when
    /// there are none (a Compose service), those of its Compose project.
    pub fn for_service(&self, service_id: &str, compose_project: &str) -> (r: Vec<ManagedContainer>)
        ensures
            Seq::new(r@.len(), |i: int| mc_view(r@[i])) == if of_service(self.entries@, service_id@).len() > 0 {
                of_service(self.entries@, service_id@)
            } else {
                of_project(self.entries@, compose_project@)
            },
    {
        let ghost e = self.entries@;
        let mut by_sid: Vec<ManagedContainer> = Vec::new();
        let mut by_proj: Vec<ManagedContainer> = Vec::new();
        let mut i: usize = 0;
        assert(e.take(0) =~= Seq::<IndexedContainer>::empty());
        while i < self.entries.len()
            invariant
                i <= e.len(),
                e == self.entries@,
                Seq::new(by_sid@.len(), |k: int| mc_view(by_sid@[k])) == of_service(e.take(i as int), service_id@),
                Seq::new(by_proj@.len(), |k: int| mc_view(by_proj@[k])) == of_project(e.take(i as int), compose_project@),
            decreases self.entries.len() - i,
        {
            let ghost t = e.take(i + 1);
            assert(t.drop_last() =~= e.take(i as int));
            assert(t.last() == e[i as int]);
            let c = &self.entries[i];
            let ghost vs = Seq::new(by_sid@.len(), |k: int| mc_view(by_sid@[k]));
            let ghost vp = Seq::new(by_proj@.len(), |k: int| mc_view(by_proj@[k]));
            match &c.service_label {
                Some(s) => {
                    if str_eq(s.as_str(), service_id) {
                        let m = ManagedContainer { id: copy(&c.container.id), name: copy(&c.container.name), state: copy(&c.container.state) };
                        by_sid.push(m);
                        assert(Seq::new(by_sid@.len(), |k: int| mc_view(by_sid@[k])) =~= vs.push(mc_view(c.container)));
                    }
                },
                None => {
                    let hit = match &c.compose_label {
                        Some(p) => str_eq(p.as_str(), compose_project),
                        None => false,
                    };
                    if hit {
                        let m = ManagedContainer { id: copy(&c.container.id), name: copy(&c.container.name), state: copy(&c.container.state) };
                        by_proj.push(m);
                        assert(Seq::new(by_proj@.len(), |k: int| mc_view(by_proj@[k])) =~= vp.push(mc_view(c.container)));
                    }
                },
            }
            i = i + 1;
        }
        assert(e.take(e.len() as int) =~= e);
        if by_sid.len() > 0 {
            by_sid
        } else {
            by_proj
        }
    }
}


/// A container gets a command exactly when the service has a run command or
/// run arguments: the run command first when there is one, then every run
/// argument, in order, at the end; with neither, the image's own command
/// runs.
pub proof fn lemma_command_carries_the_run_arguments(
    run_command: Option<Seq<char>>,
    run_args: Seq<Seq<char>>,
)
    ensures
        run_args.len() > 0 ==> (cmd_of(run_command, run_args) matches Some(c) && c.len()
            >= run_args.len() && c.skip(c.len() - run_args.len()) == run_args),
        run_command matches Some(x) ==> (cmd_of(run_command, run_args) matches Some(c) && c.len()
            == run_args.len() + 1 && c[0] == x),
        run_command is None ==> (cmd_of(run_command, run_args) is Some <==> run_args.len() > 0),
        run_command is None && run_args.len() > 0 ==> cmd_of(run_command, run_args) == Some(
            run_args,
        ),
{
    if run_args.len() > 0 {
        if let Some(x) = run_command {
            assert((seq![x] + run_args).skip(1) =~= run_args);
        } else {
            assert(run_args.skip(0) =~= run_args);
        }
    }
}

} // verus!
