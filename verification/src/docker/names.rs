//! Names of the Docker objects the daemon creates: short ids, project
//! networks, and live/staging container names of each replica.

use vstd::prelude::*;
use crate::text::{chars_of, dec, find_from, first_index, push_decimal, push_str, string_of_range};

verus! {

/// Number of bytes of `c` in UTF-8.
pub open spec fn utf8_len(c: char) -> int {
    let u = c as u32;
    if u < 0x80 {
        1
    } else if u < 0x800 {
        2
    } else if u < 0x10000 {
        3
    } else {
        4
    }
}

/// How many leading characters of `t` make up exactly `budget` bytes, or the
/// whole of `t` when it is shorter; `None` when the cut would fall inside a
/// character (where slicing a `str` at that byte panics).
pub open spec fn chars_for_bytes(t: Seq<char>, budget: int) -> Option<nat>
    decreases t.len(),
{
    if budget <= 0 || t.len() == 0 {
        Some(0)
    } else if utf8_len(t[0]) > budget {
        None
    } else {
        match chars_for_bytes(t.drop_first(), budget - utf8_len(t[0])) {
            Some(k) => Some(k + 1),
            None => None,
        }
    }
}

/// The part of an id after its first `'_'` (the whole id when it has none).
pub open spec fn after_underscore(s: Seq<char>) -> Seq<char> {
    let i = first_index(s, '_');
    if i < 0 {
        s
    } else {
        s.skip(i + 1)
    }
}

/// The short form of an id can be cut: its eighth byte ends a character.
pub open spec fn short_id_ok(s: Seq<char>) -> bool {
    chars_for_bytes(after_underscore(s), 8) is Some
}

/// Short form of an id: the first eight bytes after the type prefix
/// (`dep_01HX…` gives `01HX…`, eight bytes long).
pub open spec fn short_of(s: Seq<char>) -> Seq<char> {
    after_underscore(s).take(chars_for_bytes(after_underscore(s), 8).unwrap() as int)
}

/// `rp_net_<short>`.
pub open spec fn network_name_of(short: Seq<char>) -> Seq<char> {
    "rp_net_"@ + short
}

/// Name of the live container of replica `idx`.
pub open spec fn live_name_of(safe: Seq<char>, idx: nat) -> Seq<char> {
    if idx == 0 {
        "rp_"@ + safe
    } else {
        "rp_"@ + safe + "_r"@ + dec(idx)
    }
}

/// Name of the staging container of replica `idx` of a deployment.
pub open spec fn staging_name_of(safe: Seq<char>, dep_short: Seq<char>, idx: nat) -> Seq<char> {
    if idx == 0 {
        "rp_"@ + safe + "_staging_"@ + dep_short
    } else {
        "rp_"@ + safe + "_staging_"@ + dep_short + "_r"@ + dec(idx)
    }
}

/// `utf8_len` in executable form.
pub fn utf8_len_exec(c: char) -> (n: usize)
    ensures
        n == utf8_len(c),
{
    let u = c as u32;
    if u < 0x80 {
        1
    } else if u < 0x800 {
        2
    } else if u < 0x10000 {
        3
    } else {
        4
    }
}

/// The short form of an id (see [`short_of`]).
pub fn short_id(id: &str) -> (r: String)
    requires
        short_id_ok(id@),
    ensures
        r@ == short_of(id@),
{
    let v = chars_of(id);
    let n = v.len();
    let u = find_from(v.as_slice(), 0, n, '_');
    proof {
        assert(v@.subrange(0, n as int) =~= v@);
    }
    let start = if u < n {
        u + 1
    } else {
        0
    };
    let ghost t = after_underscore(id@);
    proof {
        assert(t =~= v@.subrange(start as int, n as int));
    }
    let mut i = start;
    let mut budget: usize = 8;
    while budget > 0 && i < n
        invariant
            start <= i <= n,
            n == v@.len(),
            budget <= 8,
            t == v@.subrange(start as int, n as int),
            chars_for_bytes(t, 8) is Some,
            chars_for_bytes(v@.subrange(i as int, n as int), budget as int) is Some,
            chars_for_bytes(t, 8).unwrap() == (i - start) + chars_for_bytes(
                v@.subrange(i as int, n as int),
                budget as int,
            ).unwrap(),
        decreases n - i,
    {
        let w = utf8_len_exec(v[i]);
        let ghost rest = v@.subrange(i as int, n as int);
        assert(rest[0] == v@[i as int]);
        assert(rest.drop_first() =~= v@.subrange(i + 1, n as int));
        budget = budget - w;
        i = i + 1;
    }
    proof {
        let rest = v@.subrange(i as int, n as int);
        assert(chars_for_bytes(rest, budget as int).unwrap() == 0);
    }
    string_of_range(v.as_slice(), start, i)
}

/// `rp_net_<short>`.
pub fn project_network_name(project_id_short: &str) -> (r: String)
    ensures
        r@ == network_name_of(project_id_short@),
{
    let mut s = String::new();
    push_str(&mut s, "rp_net_");
    push_str(&mut s, project_id_short);
    s
}

/// The network of a project, named after the short form of its id.
pub fn project_net_for(project_id: &str) -> (r: String)
    requires
        short_id_ok(project_id@),
    ensures
        r@ == network_name_of(short_of(project_id@)),
{
    let short = short_id(project_id);
    project_network_name(short.as_str())
}

/// Name of the staging container of replica `idx`; `safe_name` is the
/// service name already normalised for Docker.
pub fn replica_staging_name(safe_name: &str, dep_short: &str, idx: u32) -> (r: String)
    ensures
        r@ == staging_name_of(safe_name@, dep_short@, idx as nat),
{
    let mut s = String::new();
    push_str(&mut s, "rp_");
    push_str(&mut s, safe_name);
    push_str(&mut s, "_staging_");
    push_str(&mut s, dep_short);
    if idx != 0 {
        push_str(&mut s, "_r");
        push_decimal(&mut s, idx as u64);
    }
    s
}

/// Name of the live container of replica `idx`.
pub fn replica_live_name(safe_name: &str, idx: u32) -> (r: String)
    ensures
        r@ == live_name_of(safe_name@, idx as nat),
{
    let mut s = String::new();
    push_str(&mut s, "rp_");
    push_str(&mut s, safe_name);
    if idx != 0 {
        push_str(&mut s, "_r");
        push_decimal(&mut s, idx as u64);
    }
    s
}

/// Staging container of the first replica.
pub fn staging_name(safe_name: &str, deployment_id_short: &str) -> (r: String)
    ensures
        r@ == staging_name_of(safe_name@, deployment_id_short@, 0),
{
    replica_staging_name(safe_name, deployment_id_short, 0)
}

/// Live container of the first replica.
pub fn _live_name(safe_name: &str) -> (r: String)
    ensures
        r@ == live_name_of(safe_name@, 0),
{
    replica_live_name(safe_name, 0)
}

/// Two numbers written in decimal are equal only if the numbers are.
proof fn lemma_dec_injective(a: nat, b: nat)
    requires
        dec(a) == dec(b),
    ensures
        a == b,
{
    crate::text::lemma_dec_digits(a);
    crate::text::lemma_dec_digits(b);
}

/// Every replica has its own container name, live or staging, and a staging
/// container never takes the name of a live one: the swap can create the
/// new containers before removing the old ones.
pub proof fn lemma_replica_names_distinct(safe: Seq<char>, dep_short: Seq<char>, i: nat, j: nat)
    ensures
        i != j ==> live_name_of(safe, i) != live_name_of(safe, j),
        i != j ==> staging_name_of(safe, dep_short, i) != staging_name_of(safe, dep_short, j),
        staging_name_of(safe, dep_short, i) != live_name_of(safe, j),
{
    reveal_strlit("rp_");
    reveal_strlit("_r");
    reveal_strlit("_staging_");
    let k: int = 3 + safe.len() as int;
    if i != j {
        let li = live_name_of(safe, i);
        let lj = live_name_of(safe, j);
        if li == lj {
            if i > 0 && j > 0 {
                assert(li.skip(k + 2) =~= dec(i));
                assert(lj.skip(k + 2) =~= dec(j));
                lemma_dec_injective(i, j);
            } else {
                crate::text::lemma_dec_digits(i);
                crate::text::lemma_dec_digits(j);
                assert(li.len() != lj.len());
            }
        }
        let si = staging_name_of(safe, dep_short, i);
        let sj = staging_name_of(safe, dep_short, j);
        let ks: int = k + 9 + dep_short.len() as int;
        if si == sj {
            if i > 0 && j > 0 {
                assert(si.skip(ks + 2) =~= dec(i));
                assert(sj.skip(ks + 2) =~= dec(j));
                lemma_dec_injective(i, j);
            } else {
                crate::text::lemma_dec_digits(i);
                crate::text::lemma_dec_digits(j);
                assert(si.len() != sj.len());
            }
        }
    }
    let st = staging_name_of(safe, dep_short, i);
    let lv = live_name_of(safe, j);
    if st == lv {
        if j == 0 {
            assert(st.len() > lv.len());
        } else {
            assert(st[k + 1] == 's');
            assert(lv[k + 1] == 'r');
        }
    }
}

} // verus!
