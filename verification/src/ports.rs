//! External port allocation for services (`host_port`).
//!
//! `Some(0)` asks for a port to be allocated from the configured range; a
//! manual port must not be reserved by another service or by the daemon.

use vstd::prelude::*;
use crate::text::{dec, push_decimal, push_str, str_eq};

verus! {

/// The `host_port` value that asks for an automatic allocation.
pub const AUTO_PORT: u16 = 0;

/// A service as port allocation sees it: its id and the external port it
/// asked for.
pub struct PortClaim {
    pub service_id: String,
    pub host_port: Option<u16>,
}

/// Ports that are taken: the daemon's own, then the ports of the other
/// services (all but `exclude`), leaving out requests for allocation.
pub open spec fn used_of(own: Seq<u16>, claims: Seq<PortClaim>, exclude: Option<Seq<char>>) -> Seq<u16>
    decreases claims.len(),
{
    if claims.len() == 0 {
        own
    } else {
        let rest = used_of(own, claims.drop_last(), exclude);
        let c = claims.last();
        if exclude == Some(c.service_id@) {
            rest
        } else {
            match c.host_port {
                Some(p) => if p != AUTO_PORT {
                    rest.push(p)
                } else {
                    rest
                },
                None => rest,
            }
        }
    }
}

/// The first port from `from` up to `end` that is not taken.
pub open spec fn candidate_of(used: Seq<u16>, from: int, end: int) -> Option<u16>
    decreases end - from + 1,
{
    if from > end {
        None
    } else if used.contains(from as u16) {
        candidate_of(used, from + 1, end)
    } else {
        Some(from as u16)
    }
}

/// What to do with a service's requested port.
pub enum HostPortDecision {
    /// No external port, or a free manual one: keep the spec as it is.
    Keep,
    /// `Some(0)`: allocate one from the range.
    Allocate,
    /// The manual port is taken; the message says so.
    Taken(String),
}

fn text(t: &str) -> (r: String)
    ensures
        r@ == t@,
{
    let mut s = String::new();
    push_str(&mut s, t);
    s
}

/// The taken ports (see [`used_of`]).
pub fn used_ports(own: &[u16], claims: &[PortClaim], exclude_id: Option<&str>) -> (r: Vec<u16>)
    ensures
        r@ == used_of(
            own@,
            claims@,
            match exclude_id {
                Some(e) => Some(e@),
                None => None,
            },
        ),
{
    let ghost ex = match exclude_id {
        Some(e) => Some(e@),
        None => None::<Seq<char>>,
    };
    let mut r: Vec<u16> = Vec::new();
    let mut i: usize = 0;
    while i < own.len()
        invariant
            i <= own@.len(),
            r@ == own@.take(i as int),
        decreases own.len() - i,
    {
        r.push(own[i]);
        assert(r@ =~= own@.take(i + 1));
        i = i + 1;
    }
    assert(own@.take(own@.len() as int) =~= own@);
    let mut k: usize = 0;
    assert(claims@.take(0) =~= Seq::<PortClaim>::empty());
    while k < claims.len()
        invariant
            k <= claims@.len(),
            r@ == used_of(own@, claims@.take(k as int), ex),
            ex == match exclude_id {
                Some(e) => Some(e@),
                None => None::<Seq<char>>,
            },
        decreases claims.len() - k,
    {
        assert(claims@.take(k + 1).drop_last() =~= claims@.take(k as int));
        let c = &claims[k];
        let excluded = match exclude_id {
            Some(e) => str_eq(c.service_id.as_str(), e),
            None => false,
        };
        if !excluded {
            if let Some(p) = c.host_port {
                if p != AUTO_PORT {
                    r.push(p);
                }
            }
        }
        k = k + 1;
    }
    assert(claims@.take(claims@.len() as int) =~= claims@);
    r
}

/// Whether `port` is taken.
pub fn is_used(used: &[u16], port: u16) -> (b: bool)
    ensures
        b == used@.contains(port),
{
    let mut i: usize = 0;
    while i < used.len()
        invariant
            i <= used@.len(),
            forall|j: int| 0 <= j < i ==> used@[j] != port,
        decreases used.len() - i,
    {
        if used[i] == port {
            assert(used@[i as int] == port);
            return true;
        }
        i = i + 1;
    }
    false
}

/// The first port from `from` up to `end` (inclusive) that is not taken;
/// the daemon then checks that no other process holds it.
pub fn next_candidate(used: &[u16], from: u16, end: u16) -> (r: Option<u16>)
    ensures
        r == candidate_of(used@, from as int, end as int),
{
    let mut p: u32 = from as u32;
    while p <= end as u32
        invariant
            from <= p,
            p <= end as u32 + 1 || p == from as u32,
            candidate_of(used@, from as int, end as int) == candidate_of(used@, p as int, end as int),
        decreases end as u32 + 1 - p,
    {
        let q = p as u16;
        assert(q == p);
        if !is_used(used, q) {
            return Some(q);
        }
        p = p + 1;
    }
    None
}

/// The error when the range has no free port left.
pub fn range_exhausted_msg(start: u16, end: u16) -> (r: String)
    ensures
        r@ == "faixa de portas externas esgotada ("@ + dec(start as nat) + "-"@ + dec(end as nat)
            + "); ajuste [external_ports] na config"@,
{
    let mut s = text("faixa de portas externas esgotada (");
    push_decimal(&mut s, start as u64);
    push_str(&mut s, "-");
    push_decimal(&mut s, end as u64);
    push_str(&mut s, "); ajuste [external_ports] na config");
    s
}

/// What to do with the requested `host_port`: nothing when there is none,
/// allocate for `Some(0)`, refuse a manual port that is taken.
pub fn resolve_host_port(requested: Option<u16>, used: &[u16]) -> (d: HostPortDecision)
    ensures
        requested is None ==> d is Keep,
        requested == Some(AUTO_PORT) ==> d is Allocate,
        forall|p: u16| requested == Some(p) && p != AUTO_PORT ==> (used@.contains(p) <==> d is Taken),
        forall|p: u16| requested == Some(p) && p != AUTO_PORT && !used@.contains(p) ==> d is Keep,
        d matches HostPortDecision::Taken(m) ==> (requested matches Some(p) && m@
            == "porta externa "@ + dec(p as nat)
            + " já está reservada por outro serviço ou pelo próprio rustploy"@),
{
    match requested {
        None => HostPortDecision::Keep,
        Some(p) => if p == AUTO_PORT {
            HostPortDecision::Allocate
        } else if is_used(used, p) {
            let mut s = text("porta externa ");
            push_decimal(&mut s, p as u64);
            push_str(&mut s, " já está reservada por outro serviço ou pelo próprio rustploy");
            HostPortDecision::Taken(s)
        } else {
            HostPortDecision::Keep
        },
    }
}

/// Whether `port` is still taken by another service or the daemon; when the
/// taken ports could not be read, it counts as taken, so that the firewall
/// is left alone.
pub fn port_in_use_by_other(used: &Result<Vec<u16>, String>, port: u16) -> (b: bool)
    ensures
        b == match used {
            Ok(u) => u@.contains(port),
            Err(_) => true,
        },
{
    match used {
        Ok(u) => is_used(u.as_slice(), port),
        Err(_) => true,
    }
}

/// An allocated port lies in the range, is not taken, and every port before
/// it in the range is taken: allocation picks the lowest free port.
pub proof fn lemma_candidate_lowest(used: Seq<u16>, from: int, end: int)
    requires
        0 <= from,
        end < 0x10000,
    ensures
        candidate_of(used, from, end) matches Some(p) ==> from <= p <= end && !used.contains(p)
            && forall|q: u16| from <= q < p ==> #[trigger] used.contains(q),
        candidate_of(used, from, end) is None ==> forall|q: u16| from <= q <= end ==> #[trigger] used.contains(q),
    decreases end - from + 1,
{
    if from <= end && used.contains(from as u16) {
        lemma_candidate_lowest(used, from + 1, end);
    }
}

} // verus!
