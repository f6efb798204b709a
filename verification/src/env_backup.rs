//! Env-var backups on disk: which files are backups, which snapshot names
//! may be restored, their order, and which are old enough to delete.
//!
//! Backup files are named `env_backup_<YYYY-MM-DDTHH-MM-SSZ>.json`, so the
//! byte order of names is the order of their times.

use vstd::prelude::*;
use crate::deploy::failure::views;
use crate::text::{chars_of, contains, ends_with, push_str, starts_with, starts_with_at, str_contains, string_of_range};

verus! {

/// `a` sorts before `b` byte by byte (a proper prefix sorts first), as
/// `String`'s order does.
pub open spec fn bytes_less(a: Seq<u8>, b: Seq<u8>) -> bool
    decreases a.len(),
{
    if a.len() == 0 {
        b.len() > 0
    } else if b.len() == 0 {
        false
    } else if a[0] != b[0] {
        a[0] < b[0]
    } else {
        bytes_less(a.drop_first(), b.drop_first())
    }
}

/// `String`'s order on texts: that of their UTF-8 bytes.
pub open spec fn text_less(a: Seq<char>, b: Seq<char>) -> bool {
    bytes_less(vstd::utf8::encode_utf8(a), vstd::utf8::encode_utf8(b))
}

/// Whether `a` sorts before `b`.
pub fn less_than(a: &str, b: &str) -> (r: bool)
    ensures
        r == text_less(a@, b@),
{
    let x = a.as_bytes();
    let y = b.as_bytes();
    let mut i: usize = 0;
    assert(x@.skip(0) =~= x@ && y@.skip(0) =~= y@);
    while i < x.len() && i < y.len() && x[i] == y[i]
        invariant
            i <= x@.len(),
            i <= y@.len(),
            x@ == vstd::utf8::encode_utf8(a@),
            y@ == vstd::utf8::encode_utf8(b@),
            bytes_less(x@, y@) == bytes_less(x@.skip(i as int), y@.skip(i as int)),
        decreases x.len() - i,
    {
        let ghost xs = x@.skip(i as int);
        let ghost ys = y@.skip(i as int);
        assert(xs.drop_first() =~= x@.skip(i + 1));
        assert(ys.drop_first() =~= y@.skip(i + 1));
        assert(xs[0] == x@[i as int] && ys[0] == y@[i as int]);
        i = i + 1;
    }
    let ghost xs = x@.skip(i as int);
    let ghost ys = y@.skip(i as int);
    if i == x.len() {
        assert(xs.len() == 0);
        i < y.len()
    } else if i == y.len() {
        false
    } else {
        assert(xs[0] == x@[i as int] && ys[0] == y@[i as int]);
        x[i] < y[i]
    }
}

/// A backup file's name.
pub open spec fn backup_name(n: Seq<char>) -> bool {
    starts_with(n, "env_backup_"@) && ends_with(n, ".json"@)
}

fn has_suffix(v: &[char], s: &str) -> (b: bool)
    ensures
        b == ends_with(v@, s@),
{
    let w = chars_of(s);
    if w.len() > v.len() {
        return false;
    }
    let start = v.len() - w.len();
    assert(v@.subrange(start as int, v@.len() as int) =~= v@.skip(start as int));
    let t = string_of_range(v, start, v.len());
    let ws = crate::text::string_of(w.as_slice());
    crate::text::str_eq(t.as_str(), ws.as_str())
}

/// Whether a file is an env-var backup.
pub fn is_backup_name(name: &str) -> (b: bool)
    ensures
        b == backup_name(name@),
{
    let v = chars_of(name);
    let p = chars_of("env_backup_");
    assert(v@.subrange(0, v@.len() as int) =~= v@);
    starts_with_at(v.as_slice(), 0, v.len(), p.as_slice()) && has_suffix(v.as_slice(), ".json")
}

/// A snapshot may be restored only by a plain file name: no `/` nor `\`.
pub fn check_snapshot_name(snapshot: &str) -> (r: Result<(), String>)
    ensures
        r is Ok <==> !contains(snapshot@, "/"@) && !contains(snapshot@, "\\"@),
        r matches Err(m) ==> m@ == "nome de snapshot inválido"@,
{
    if str_contains(snapshot, "/") || str_contains(snapshot, "\\") {
        let mut m = String::new();
        push_str(&mut m, "nome de snapshot inválido");
        Err(m)
    } else {
        Ok(())
    }
}

/// The timestamp part of a backup's name.
pub open spec fn stamp_of(n: Seq<char>) -> Seq<char> {
    n.subrange(11, n.len() - 5)
}

/// The name of a backup is long enough to hold its timestamp: its prefix
/// and suffix cannot overlap.
proof fn lemma_backup_name_len(n: Seq<char>)
    requires
        backup_name(n),
    ensures
        n.len() >= 16,
{
    reveal_strlit("env_backup_");
    reveal_strlit(".json");
    if n.len() < 16 {
        assert(n.take(11)[10] == '_');
        let k = 10 - (n.len() - 5);
        assert(n.skip(n.len() - 5)[k] == n[10]);
        assert(".json"@[k] != '_');
    }
}

/// A file the monthly cleanup deletes: a backup whose timestamp sorts
/// before the cutoff's (a timestamp in the same format); other files are
/// left alone.
pub fn is_expired(name: &str, cutoff: &str) -> (b: bool)
    ensures
        b == (backup_name(name@) && text_less(stamp_of(name@), cutoff@)),
{
    if !is_backup_name(name) {
        return false;
    }
    proof {
        lemma_backup_name_len(name@);
    }
    let v = chars_of(name);
    let t = string_of_range(v.as_slice(), 11, v.len() - 5);
    less_than(t.as_str(), cutoff)
}

/// In newest-first order.
pub open spec fn newest_first(s: Seq<Seq<char>>) -> bool {
    forall|i: int, j: int| 0 <= i < j < s.len() ==> !text_less(s[i], s[j])
}

proof fn lemma_bytes_less_total(a: Seq<u8>, b: Seq<u8>)
    ensures
        a != b ==> (bytes_less(a, b) || bytes_less(b, a)),
        !(bytes_less(a, b) && bytes_less(b, a)),
        !bytes_less(a, a),
    decreases a.len(),
{
    if a.len() > 0 && b.len() > 0 && a[0] == b[0] {
        lemma_bytes_less_total(a.drop_first(), b.drop_first());
        if a != b {
            assert(a.drop_first() != b.drop_first()) by {
                if a.drop_first() == b.drop_first() {
                    assert forall|i: int| 0 <= i < a.len() implies a[i] == b[i] by {
                        if i > 0 {
                            assert(a[i] == a.drop_first()[i - 1]);
                            assert(b[i] == b.drop_first()[i - 1]);
                        }
                    }
                    assert(a =~= b);
                }
            }
        }
    } else if a.len() == 0 && b.len() == 0 {
        assert(a =~= b);
    } else if a.len() > 0 && b.len() == 0 {
    } else if a.len() == 0 {
    } else {
    }
    if a.len() > 0 {
        lemma_bytes_less_total(a.drop_first(), a.drop_first());
    }
}

proof fn lemma_bytes_less_trans(a: Seq<u8>, b: Seq<u8>, c: Seq<u8>)
    requires
        bytes_less(a, b) || a == b,
        bytes_less(b, c) || b == c,
    ensures
        bytes_less(a, c) || a == c,
    decreases a.len(),
{
    if a == b || b == c {
    } else if a.len() > 0 && b.len() > 0 && c.len() > 0 && a[0] == b[0] && b[0] == c[0] {
        lemma_bytes_less_trans(a.drop_first(), b.drop_first(), c.drop_first());
        if a.drop_first() == c.drop_first() {
            assert forall|i: int| 0 <= i < a.len() implies a[i] == c[i] by {
                if i > 0 {
                    assert(a[i] == a.drop_first()[i - 1]);
                    assert(c[i] == c.drop_first()[i - 1]);
                }
            }
            assert(a =~= c);
        }
    }
}

/// Sorts backup names newest first.
pub fn sort_newest_first(names: Vec<String>) -> (r: Vec<String>)
    ensures
        newest_first(views(r@)),
        views(r@).to_multiset() == views(names@).to_multiset(),
{
    broadcast use vstd::seq_lib::to_multiset_build, vstd::seq_lib::to_multiset_insert;
    let mut out: Vec<String> = Vec::new();
    let total = names.len();
    let mut rest = names;
    let ghost all = views(rest@);
    let mut k: usize = 0;
    assert(all.take(0) =~= Seq::<Seq<char>>::empty());
    assert(views(out@) =~= Seq::<Seq<char>>::empty());
    while rest.len() > 0
        invariant
            all.len() == total,
            k + rest@.len() == all.len(),
            views(rest@) == all.skip(k as int),
            newest_first(views(out@)),
            views(out@).to_multiset() == all.take(k as int).to_multiset(),
        decreases rest.len(),
    {
        let ghost before_rest = views(rest@);
        let x = rest.remove(0);
        assert(before_rest[0] == x@);
        assert(views(rest@) =~= all.skip(k + 1)) by {
            assert forall|j: int| 0 <= j < views(rest@).len() implies #[trigger] views(rest@)[j] == all.skip(k + 1)[j] by {
                assert(before_rest[j + 1] == all.skip(k as int)[j + 1]);
            }
        }
        assert(all[k as int] == x@) by {
            assert(all.skip(k as int)[0] == before_rest[0]);
        }
        let mut p: usize = 0;
        while p < out.len() && !less_than(out[p].as_str(), x.as_str())
            invariant
                p <= out@.len(),
                forall|j: int| 0 <= j < p ==> !text_less(out@[j]@, x@),
            decreases out.len() - p,
        {
            p = p + 1;
        }
        let ghost before = views(out@);
        out.insert(p, x);
        assert(views(out@) =~= before.insert(p as int, all[k as int]));
        proof {
            vstd::seq_lib::to_multiset_insert(before, p as int, all[k as int]);
            vstd::seq_lib::to_multiset_build(all.take(k as int), all[k as int]);
            assert(all.take(k + 1) =~= all.take(k as int).push(all[k as int]));
            let o = views(out@);
            assert forall|a: int, b: int| 0 <= a < b < o.len() implies !text_less(o[a], o[b]) by {
                let ea = vstd::utf8::encode_utf8(o[a]);
                let eb = vstd::utf8::encode_utf8(o[b]);
                let ex = vstd::utf8::encode_utf8(all[k as int]);
                if b < p {
                    assert(o[a] == before[a] && o[b] == before[b]);
                } else if b == p {
                    assert(o[a] == before[a]);
                    assert(!text_less(before[a], all[k as int]));
                } else if a < p {
                    assert(o[a] == before[a] && o[b] == before[b - 1]);
                } else if a == p {
                    assert(o[b] == before[b - 1]);
                    assert(text_less(before[p as int], all[k as int]));
                    let ep = vstd::utf8::encode_utf8(before[p as int]);
                    if b - 1 > p {
                        assert(!text_less(before[p as int], before[b - 1]));
                        lemma_bytes_less_total(ep, vstd::utf8::encode_utf8(before[b - 1]));
                        if text_less(all[k as int], before[b - 1]) {
                            lemma_bytes_less_trans(ex, vstd::utf8::encode_utf8(before[b - 1]), ep);
                            lemma_bytes_less_total(ex, ep);
                        }
                    } else {
                        lemma_bytes_less_total(ex, ep);
                    }
                } else {
                    assert(o[a] == before[a - 1] && o[b] == before[b - 1]);
                }
            }
        }
        k = k + 1;
    }
    assert(all.take(k as int) =~= all);
    out
}

} // verus!
