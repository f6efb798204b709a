//! Certificate decisions: when a domain needs a certificate, the ACME
//! challenge kept for each pending token, and how the wait for the order
//! goes.

use vstd::prelude::*;
use crate::deploy::failure::views;
use crate::text::{push_str, str_eq};

verus! {

/// Certificates are renewed once they are 60 days old (Let's Encrypt issues
/// them for 90).
pub open spec fn renew_after_secs() -> nat {
    60 * 24 * 3600
}

/// A certificate file must be renewed: its age is unknown or above 60 days.
pub fn expires_soon(age_secs: Option<u64>) -> (b: bool)
    ensures
        b == match age_secs {
            None => true,
            Some(a) => a > renew_after_secs(),
        },
{
    match age_secs {
        None => true,
        Some(a) => a > 5184000,
    }
}

/// Whether `ensure_cert` has work to do: ACME is on and the domain has no
/// loaded certificate that is still fresh.
pub fn needs_certificate(acme_enabled: bool, loaded: bool, age_secs: Option<u64>) -> (b: bool)
    ensures
        b == (acme_enabled && !(loaded && !match age_secs {
            None => true,
            Some(a) => a > renew_after_secs(),
        })),
{
    acme_enabled && !(loaded && !expires_soon(age_secs))
}

/// The account e-mail, `admin@localhost` when none is configured.
pub fn acme_email(email: Option<&str>) -> (r: String)
    ensures
        r@ == match email {
            Some(e) => e@,
            None => "admin@localhost"@,
        },
{
    let mut s = String::new();
    match email {
        Some(e) => push_str(&mut s, e),
        None => push_str(&mut s, "admin@localhost"),
    }
    s
}

/// The status of an ACME order as the daemon reads it.
#[derive(Clone, Copy, Debug, PartialEq, Eq, Structural)]
pub enum OrderState {
    Pending,
    Ready,
    Processing,
    Valid,
    Invalid,
}

/// The next move while waiting for the order to become ready.
pub enum OrderWait {
    /// Validated: finalize the order.
    Proceed,
    /// Not yet: wait three seconds and poll again.
    Poll,
    /// Failed, with the reason.
    Fail(String),
}

/// The move after poll number `attempt` (from 0) of at most 30: ready goes
/// on, invalid fails, anything else polls again until the 30th, after which
/// the wait times out.
pub fn order_wait(domain: &str, attempt: u32, state: OrderState) -> (w: OrderWait)
    ensures
        state == OrderState::Ready ==> w is Proceed,
        state == OrderState::Invalid ==> (w matches OrderWait::Fail(m) && m@
            == "ACME: order inválida para "@ + domain@ + " (LE rejeitou o challenge HTTP-01)"@),
        state != OrderState::Ready && state != OrderState::Invalid && attempt + 1 < 30 ==> w is Poll,
        state != OrderState::Ready && state != OrderState::Invalid && attempt + 1 >= 30 ==> (w matches OrderWait::Fail(m)
            && m@ == "ACME: timeout aguardando order Ready para "@ + domain@ + " (90s esgotados)"@),
{
    match state {
        OrderState::Ready => OrderWait::Proceed,
        OrderState::Invalid => {
            let mut m = String::new();
            push_str(&mut m, "ACME: order inválida para ");
            push_str(&mut m, domain);
            push_str(&mut m, " (LE rejeitou o challenge HTTP-01)");
            OrderWait::Fail(m)
        },
        _ => if (attempt as u64) + 1 < 30 {
            OrderWait::Poll
        } else {
            let mut m = String::new();
            push_str(&mut m, "ACME: timeout aguardando order Ready para ");
            push_str(&mut m, domain);
            push_str(&mut m, " (90s esgotados)");
            OrderWait::Fail(m)
        },
    }
}

/// The move after a poll of an order that has been finalized: an invalid
/// order fails; any other state goes on to ask for the certificate, and
/// polls again while none has been issued.
pub fn finalize_poll(domain: &str, state: OrderState) -> (r: Result<(), String>)
    ensures
        r is Err <==> state == OrderState::Invalid,
        r matches Err(m) ==> m@ == "ACME: order inválida durante finalização para "@ + domain@,
{
    if state == OrderState::Invalid {
        let mut m = String::new();
        push_str(&mut m, "ACME: order inválida durante finalização para ");
        push_str(&mut m, domain);
        Err(m)
    } else {
        Ok(())
    }
}

/// The kinds of ACME challenge.
#[derive(Clone, Copy, Debug, PartialEq, Eq, Structural)]
pub enum ChallengeKind {
    Http01,
    Dns01,
    TlsAlpn01,
    Other,
}

/// The HTTP-01 challenge of an authorization, the only kind the daemon
/// answers; an error naming the domain when there is none.
pub fn http01_challenge(kinds: &[ChallengeKind], domain: &str) -> (r: Result<usize, String>)
    ensures
        match r {
            Ok(i) => i < kinds@.len() && kinds@[i as int] == ChallengeKind::Http01 && forall|j: int|
                0 <= j < i ==> kinds@[j] != ChallengeKind::Http01,
            Err(m) => (forall|j: int| 0 <= j < kinds@.len() ==> kinds@[j] != ChallengeKind::Http01)
                && m@ == "nenhum challenge HTTP-01 disponível para "@ + domain@,
        },
{
    let mut i: usize = 0;
    while i < kinds.len()
        invariant
            i <= kinds@.len(),
            forall|j: int| 0 <= j < i ==> kinds@[j] != ChallengeKind::Http01,
        decreases kinds.len() - i,
    {
        if kinds[i] == ChallengeKind::Http01 {
            return Ok(i);
        }
        i = i + 1;
    }
    let mut m = String::new();
    push_str(&mut m, "nenhum challenge HTTP-01 disponível para ");
    push_str(&mut m, domain);
    Err(m)
}

/// Key authorizations of the pending HTTP-01 challenges, by token.
pub struct ChallengeTable {
    pub entries: Vec<(String, String)>,
}

/// Token → key authorization.
pub open spec fn table_map(e: Seq<(String, String)>) -> Map<Seq<char>, Seq<char>>
    decreases e.len(),
{
    if e.len() == 0 {
        Map::empty()
    } else {
        table_map(e.drop_last()).insert(e.last().0@, e.last().1@)
    }
}

impl ChallengeTable {
    /// An empty table.
    pub fn new() -> (t: Self)
        ensures
            table_map(t.entries@) == Map::<Seq<char>, Seq<char>>::empty(),
    {
        ChallengeTable { entries: Vec::new() }
    }

    /// Keeps the key authorization of `token` (the latest one wins).
    pub fn insert(&mut self, token: String, key_auth: String)
        ensures
            table_map(final(self).entries@) == table_map(old(self).entries@).insert(token@, key_auth@),
    {
        self.entries.push((token, key_auth));
        assert(self.entries@.drop_last() =~= old(self).entries@);
    }

    /// The key authorization of `token`, if pending.
    pub fn get(&self, token: &str) -> (r: Option<String>)
        ensures
            match r {
                Some(k) => table_map(self.entries@).contains_key(token@) && table_map(self.entries@)[token@] == k@,
                None => !table_map(self.entries@).contains_key(token@),
            },
    {
        let ghost all = self.entries@;
        let mut i = self.entries.len();
        assert(all.take(all.len() as int) =~= all);
        while i > 0
            invariant
                i <= self.entries@.len(),
                all == self.entries@,
                table_map(all.take(i as int)).contains_key(token@) == table_map(all).contains_key(token@),
                table_map(all.take(i as int)).contains_key(token@) ==> table_map(all.take(i as int))[token@] == table_map(all)[token@],
            decreases i,
        {
            let ghost t = all.take(i as int);
            assert(t.drop_last() =~= all.take(i - 1));
            assert(t.last() == all[i - 1]);
            if str_eq(self.entries[i - 1].0.as_str(), token) {
                let mut s = String::new();
                push_str(&mut s, self.entries[i - 1].1.as_str());
                return Some(s);
            }
            i = i - 1;
        }
        assert(all.take(0) =~= Seq::<(String, String)>::empty());
        None
    }

    /// Drops every key authorization of `token`.
    pub fn remove(&mut self, token: &str)
        ensures
            table_map(final(self).entries@) == table_map(old(self).entries@).remove(token@),
    {
        let ghost all = old(self).entries@;
        let mut kept: Vec<(String, String)> = Vec::new();
        let mut rest: Vec<(String, String)> = Vec::new();
        std::mem::swap(&mut rest, &mut self.entries);
        let total = rest.len();
        assert(all.len() == total);
        assert(rest@ == all);
        let mut i: usize = 0;
        assert(all.take(0) =~= Seq::<(String, String)>::empty());
        assert(table_map(kept@) =~= table_map(all.take(0)).remove(token@));
        while rest.len() > 0
            invariant
                all.len() <= usize::MAX,
                i + rest@.len() == all.len(),
                rest@ == all.skip(i as int),
                table_map(kept@) == table_map(all.take(i as int)).remove(token@),
            decreases rest.len(),
        {
            let ghost before_kept = kept@;
            let e = rest.remove(0);
            assert(e == all[i as int]);
            assert(rest@ =~= all.skip(i + 1));
            assert(all.take(i + 1).drop_last() =~= all.take(i as int));
            assert(all.take(i + 1).last() == all[i as int]);
            if !str_eq(e.0.as_str(), token) {
                kept.push(e);
                assert(kept@.drop_last() =~= before_kept);
                assert(table_map(kept@) =~= table_map(all.take(i + 1)).remove(token@));
            } else {
                assert(table_map(kept@) =~= table_map(all.take(i + 1)).remove(token@));
            }
            i = i + 1;
        }
        assert(all.take(i as int) =~= all);
        self.entries = kept;
    }
}

/// A challenge is answered with the key authorization stored last for its
/// token, until its own token is removed; removing other tokens leaves it.
pub proof fn lemma_challenge_served(
    t: Map<Seq<char>, Seq<char>>,
    token: Seq<char>,
    key_auth: Seq<char>,
    other: Seq<char>,
)
    ensures
        t.insert(token, key_auth).contains_key(token) && t.insert(token, key_auth)[token] == key_auth,
        other != token ==> t.insert(token, key_auth).remove(other).contains_key(token) && t.insert(
            token,
            key_auth,
        ).remove(other)[token] == key_auth,
        !t.insert(token, key_auth).remove(token).contains_key(token),
{
}

} // verus!
