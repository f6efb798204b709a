//! The environment of a container: project variables, overridden by the
//! service's, overridden by a job's.

use vstd::prelude::*;
use crate::text::{push_str, str_eq};

verus! {

/// The value of a variable as configured.
pub enum EnvVarValue {
    Plain(String),
    /// The name of a project secret, decrypted when the environment is built.
    Secret(String),
}

/// Variables as a map; a later entry for a key wins.
pub open spec fn env_map(pairs: Seq<(String, String)>) -> Map<Seq<char>, Seq<char>>
    decreases pairs.len(),
{
    if pairs.len() == 0 {
        Map::empty()
    } else {
        env_map(pairs.drop_last()).insert(pairs.last().0@, pairs.last().1@)
    }
}

/// No key appears twice.
pub open spec fn unique_keys(pairs: Seq<(String, String)>) -> bool {
    forall|i: int, j: int| 0 <= i < j < pairs.len() ==> pairs[i].0@ != pairs[j].0@
}

/// The text of a variable's value: a plain value as it is, a secret as the
/// decrypted text (empty when it could not be read).
pub fn resolve_value(v: &EnvVarValue, secret: Option<String>) -> (r: String)
    ensures
        v matches EnvVarValue::Plain(p) ==> r@ == p@,
        v is Secret ==> r@ == match secret {
            Some(s) => s@,
            None => Seq::empty(),
        },
{
    match v {
        EnvVarValue::Plain(p) => {
            let mut s = String::new();
            push_str(&mut s, p.as_str());
            s
        },
        EnvVarValue::Secret(_) => match secret {
            Some(s) => s,
            None => String::new(),
        },
    }
}

proof fn lemma_env_map_unique(pairs: Seq<(String, String)>)
    requires
        unique_keys(pairs),
    ensures
        forall|i: int| 0 <= i < pairs.len() ==> #[trigger] env_map(pairs)[pairs[i].0@] == pairs[i].1@,
        forall|k: Seq<char>| env_map(pairs).contains_key(k) <==> exists|i: int| 0 <= i < pairs.len() && pairs[i].0@ == k,
    decreases pairs.len(),
{
    if pairs.len() > 0 {
        let init = pairs.drop_last();
        assert(unique_keys(init)) by {
            assert forall|i: int, j: int| 0 <= i < j < init.len() implies init[i].0@ != init[j].0@ by {
                assert(init[i] == pairs[i] && init[j] == pairs[j]);
            }
        }
        lemma_env_map_unique(init);
        assert forall|i: int| 0 <= i < pairs.len() implies #[trigger] env_map(pairs)[pairs[i].0@] == pairs[i].1@ by {
            if i < pairs.len() - 1 {
                assert(init[i] == pairs[i]);
                assert(pairs[i].0@ != pairs.last().0@);
                assert(env_map(init)[init[i].0@] == init[i].1@);
            }
        }
        assert forall|k: Seq<char>| env_map(pairs).contains_key(k) <==> exists|i: int| 0 <= i < pairs.len() && pairs[i].0@ == k by {
            if env_map(init).contains_key(k) {
                let i = choose|i: int| 0 <= i < init.len() && init[i].0@ == k;
                assert(pairs[i].0@ == k);
            }
            if exists|i: int| 0 <= i < pairs.len() && pairs[i].0@ == k {
                let i = choose|i: int| 0 <= i < pairs.len() && pairs[i].0@ == k;
                if i < pairs.len() - 1 {
                    assert(init[i].0@ == k);
                }
            }
        }
    }
}

/// Adds the variables of `layer` over `env`: a key already there takes the
/// new value in place, a new key is appended.
pub fn overlay(env: &mut Vec<(String, String)>, layer: &[(String, String)])
    requires
        unique_keys(old(env)@),
    ensures
        unique_keys(final(env)@),
        env_map(final(env)@) == env_map(old(env)@ + layer@),
{
    let ghost start = env@;
    let mut i: usize = 0;
    assert(start + layer@.take(0) =~= start);
    while i < layer.len()
        invariant
            i <= layer@.len(),
            unique_keys(env@),
            env_map(env@) == env_map(start + layer@.take(i as int)),
        decreases layer.len() - i,
    {
        let ghost before = env@;
        proof {
            lemma_env_map_unique(before);
        }
        let key = layer[i].0.as_str();
        let mut j: usize = 0;
        while j < env.len() && !str_eq(env[j].0.as_str(), key)
            invariant
                j <= env@.len(),
                env@ == before,
                forall|k: int| 0 <= k < j ==> env@[k].0@ != key@,
            decreases env.len() - j,
        {
            j = j + 1;
        }
        let mut k = String::new();
        push_str(&mut k, key);
        let mut v = String::new();
        push_str(&mut v, layer[i].1.as_str());
        assert((start + layer@.take(i + 1)).drop_last() =~= start + layer@.take(i as int));
        assert((start + layer@.take(i + 1)).last() == layer@[i as int]);
        if j < env.len() {
            env.set(j, (k, v));
            proof {
                let after = env@;
                assert(unique_keys(after)) by {
                    assert forall|a: int, b: int| 0 <= a < b < after.len() implies after[a].0@ != after[b].0@ by {
                        assert(after[a].0@ == before[a].0@ && after[b].0@ == before[b].0@);
                    }
                }
                lemma_env_map_unique(after);
                assert(env_map(after) =~= env_map(before).insert(key@, layer@[i as int].1@)) by {
                    assert forall|q: Seq<char>| #[trigger] env_map(after).contains_key(q) <==> env_map(before).insert(key@, layer@[i as int].1@).contains_key(q) by {
                        if env_map(after).contains_key(q) {
                            let a = choose|a: int| 0 <= a < after.len() && after[a].0@ == q;
                            assert(before[a].0@ == q);
                        }
                        if env_map(before).contains_key(q) {
                            let a = choose|a: int| 0 <= a < before.len() && before[a].0@ == q;
                            assert(after[a].0@ == q);
                        }
                        if q == key@ {
                            assert(after[j as int].0@ == q);
                        }
                    }
                    assert forall|q: Seq<char>| #[trigger] env_map(after).contains_key(q) implies env_map(after)[q] == env_map(before).insert(key@, layer@[i as int].1@)[q] by {
                        let a = choose|a: int| 0 <= a < after.len() && after[a].0@ == q;
                        assert(env_map(after)[after[a].0@] == after[a].1@);
                        if a != j {
                            assert(after[a] == before[a]);
                            assert(env_map(before)[before[a].0@] == before[a].1@);
                        }
                    }
                }
            }
        } else {
            env.push((k, v));
            proof {
                let after = env@;
                assert(after.drop_last() =~= before);
                assert(unique_keys(after)) by {
                    assert forall|a: int, b: int| 0 <= a < b < after.len() implies after[a].0@ != after[b].0@ by {
                        if b < before.len() {
                            assert(after[a] == before[a] && after[b] == before[b]);
                        } else {
                            assert(after[a] == before[a]);
                        }
                    }
                }
            }
        }
        i = i + 1;
    }
    assert(layer@.take(layer@.len() as int) =~= layer@);
}

/// A variable takes the value of the last layer that sets it: the job's over
/// the service's over the project's.
pub proof fn lemma_layer_precedence(
    project: Seq<(String, String)>,
    service: Seq<(String, String)>,
    job: Seq<(String, String)>,
    key: Seq<char>,
)
    ensures
        env_map(job).contains_key(key) ==> env_map(project + service + job)[key] == env_map(job)[key],
        !env_map(job).contains_key(key) && env_map(service).contains_key(key) ==> env_map(
            project + service + job,
        )[key] == env_map(service)[key],
        !env_map(job).contains_key(key) && !env_map(service).contains_key(key) ==> (env_map(
            project + service + job,
        ).contains_key(key) == env_map(project).contains_key(key) && (env_map(project).contains_key(
            key,
        ) ==> env_map(project + service + job)[key] == env_map(project)[key])),
{
    lemma_env_map_concat(project + service, job);
    lemma_env_map_concat(project, service);
}

proof fn lemma_env_map_concat(a: Seq<(String, String)>, b: Seq<(String, String)>)
    ensures
        env_map(a + b) == env_map(a).union_prefer_right(env_map(b)),
    decreases b.len(),
{
    if b.len() == 0 {
        assert(a + b =~= a);
        assert(env_map(a).union_prefer_right(env_map(b)) =~= env_map(a));
    } else {
        lemma_env_map_concat(a, b.drop_last());
        assert((a + b).drop_last() =~= a + b.drop_last());
        assert((a + b).last() == b.last());
        assert(env_map(a + b) =~= env_map(a).union_prefer_right(env_map(b)));
    }
}

} // verus!
