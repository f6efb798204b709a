//! Compose files: the daemon attaches every service of a stack to the
//! project's network, and creates the external volumes a stack names.
//!
//! The file is handled as a YAML tree of the library's own; the YAML crate
//! reads the text into it and writes it back.

use vstd::prelude::*;
use crate::deploy::failure::views;
use crate::text::{push_str, str_eq};
use serde_yaml::value::{Tag, TaggedValue};
use serde_yaml::Value;

verus! {

/// A YAML document.
#[derive(Debug, PartialEq)]
pub enum Yaml {
    Null,
    Bool(bool),
    /// A number, by its text.
    Number(String),
    String(String),
    Sequence(Vec<Yaml>),
    /// Entries in document order; no key twice.
    Mapping(Vec<(Yaml, Yaml)>),
    /// A value with an explicit tag, by the tag's name (without its `!`).
    Tagged(String, Box<Yaml>),
}

/// A YAML document as a value.
pub enum YamlV {
    Null,
    Bool(bool),
    Number(Seq<char>),
    Str(Seq<char>),
    List(Seq<YamlV>),
    Dict(Seq<(YamlV, YamlV)>),
    Tagged(Seq<char>, Box<YamlV>),
}

/// The value of a document.
pub open spec fn yv(y: Yaml) -> YamlV
    decreases y,
{
    match y {
        Yaml::Null => YamlV::Null,
        Yaml::Bool(b) => YamlV::Bool(b),
        Yaml::Number(n) => YamlV::Number(n@),
        Yaml::String(s) => YamlV::Str(s@),
        Yaml::Sequence(v) => YamlV::List(
            Seq::new(v@.len(), |i: int| if 0 <= i < v@.len() { yv(v@[i]) } else { YamlV::Null }),
        ),
        Yaml::Mapping(m) => YamlV::Dict(
            Seq::new(
                m@.len(),
                |i: int|
                    if 0 <= i < m@.len() {
                        (yv(m@[i].0), yv(m@[i].1))
                    } else {
                        (YamlV::Null, YamlV::Null)
                    },
            ),
        ),
        Yaml::Tagged(t, b) => YamlV::Tagged(t@, Box::new(yv(*b))),
    }
}

/// The value under any tags.
pub open spec fn untag(y: YamlV) -> YamlV
    decreases y,
{
    match y {
        YamlV::Tagged(_, b) => untag(*b),
        _ => y,
    }
}

/// `y` with the value under its tags replaced by `inner`.
pub open spec fn retag(y: YamlV, inner: YamlV) -> YamlV
    decreases y,
{
    match y {
        YamlV::Tagged(t, b) => YamlV::Tagged(t, Box::new(retag(*b, inner))),
        _ => inner,
    }
}

/// Null, possibly under tags.
pub open spec fn is_null(y: YamlV) -> bool {
    untag(y) is Null
}

/// The text of a string value, possibly under tags.
pub open spec fn str_of(y: YamlV) -> Option<Seq<char>> {
    match untag(y) {
        YamlV::Str(s) => Some(s),
        _ => None,
    }
}

/// The key is the plain string `name`.
pub open spec fn is_key(k: YamlV, name: Seq<char>) -> bool {
    k == YamlV::Str(name)
}

/// Index of the entry with key `name`, or `-1`.
pub open spec fn key_pos(m: Seq<(YamlV, YamlV)>, name: Seq<char>) -> int
    decreases m.len(),
{
    if m.len() == 0 {
        -1
    } else if is_key(m.last().0, name) {
        m.len() - 1
    } else {
        key_pos(m.drop_last(), name)
    }
}

/// The name of the alias the project network gets in a stack.
pub open spec fn alias() -> Seq<char> {
    "rp_project_net"@
}

/// The value at key `name`, if any.
pub open spec fn get_key(m: Seq<(YamlV, YamlV)>, name: Seq<char>) -> Option<YamlV> {
    let i = key_pos(m, name);
    if i < 0 {
        None
    } else {
        Some(m[i].1)
    }
}

/// The network is already declared: under the alias, or by its name.
pub open spec fn net_declared(nets: Seq<(YamlV, YamlV)>, net: Seq<char>) -> bool {
    key_pos(nets, alias()) >= 0 || exists|i: int|
        0 <= i < nets.len() && (untag(#[trigger] nets[i].1) matches YamlV::Dict(m) && get_key(m, "name"@)
            matches Some(n) && str_of(n) == Some(net))
}

/// The declaration added for the project network.
pub open spec fn net_entry(net: Seq<char>) -> (YamlV, YamlV) {
    (
        YamlV::Str(alias()),
        YamlV::Dict(seq![(YamlV::Str("external"@), YamlV::Bool(true)), (YamlV::Str("name"@), YamlV::Str(net))]),
    )
}

/// A service's `networks:` with the alias added: appended to a list that
/// lacks it, added as a key to a mapping that lacks it, a null replaced by a
/// list of it; any other value is left alone.
pub open spec fn with_alias(v: YamlV) -> YamlV {
    match v {
        YamlV::List(s) => if exists|i: int| 0 <= i < s.len() && str_of(#[trigger] s[i]) == Some(
            alias(),
        ) {
            v
        } else {
            YamlV::List(s.push(YamlV::Str(alias())))
        },
        YamlV::Dict(m) => if key_pos(m, alias()) >= 0 {
            v
        } else {
            YamlV::Dict(m.push((YamlV::Str(alias()), YamlV::Dict(Seq::empty()))))
        },
        _ => if is_null(v) {
            YamlV::List(seq![YamlV::Str(alias())])
        } else {
            v
        },
    }
}

/// A service definition attached to the project network.
pub open spec fn attach_service(sm: Seq<(YamlV, YamlV)>) -> Seq<(YamlV, YamlV)> {
    let i = key_pos(sm, "networks"@);
    if i < 0 {
        sm.push((YamlV::Str("networks"@), YamlV::List(seq![YamlV::Str(alias())])))
    } else {
        sm.update(i, (sm[i].0, with_alias(sm[i].1)))
    }
}

/// Each service that is a mapping attached to the project network.
pub open spec fn attach_all(services: Seq<(YamlV, YamlV)>) -> Seq<(YamlV, YamlV)> {
    Seq::new(
        services.len(),
        |i: int|
            match untag(services[i].1) {
                YamlV::Dict(sm) => (services[i].0, retag(services[i].1, YamlV::Dict(attach_service(sm)))),
                _ => services[i],
            },
    )
}

/// The top-level entries with the project network declared: `networks:`
/// is created if missing and must be a mapping; the network is added as
/// external unless already declared.
pub open spec fn with_network(e0: Seq<(YamlV, YamlV)>, net: Seq<char>) -> Result<Seq<(YamlV, YamlV)>, Seq<char>> {
    let e1 = if key_pos(e0, "networks"@) >= 0 {
        e0
    } else {
        e0.push((YamlV::Str("networks"@), YamlV::Dict(Seq::empty())))
    };
    let ni = key_pos(e1, "networks"@);
    match untag(e1[ni].1) {
        YamlV::Dict(nets) => {
            let nets2 = if net_declared(nets, net) {
                nets
            } else {
                nets.push(net_entry(net))
            };
            Ok(e1.update(ni, (e1[ni].0, retag(e1[ni].1, YamlV::Dict(nets2)))))
        },
        _ => Err("`networks:` no compose não é um mapping"@),
    }
}

/// The top-level entries with every service joined to the network;
/// `services:`, when present, must be a mapping.
pub open spec fn with_services(e2: Seq<(YamlV, YamlV)>) -> Result<Seq<(YamlV, YamlV)>, Seq<char>> {
    let si = key_pos(e2, "services"@);
    if si < 0 {
        Ok(e2)
    } else {
        match untag(e2[si].1) {
            YamlV::Dict(svcs) => Ok(
                e2.update(si, (e2[si].0, retag(e2[si].1, YamlV::Dict(attach_all(svcs))))),
            ),
            _ => Err("`services:` no compose não é um mapping"@),
        }
    }
}

/// The result of attaching a stack to the project network `net`: the top
/// level must be a mapping (an empty document counts as an empty mapping),
/// which gets the network (see [`with_network`]) and whose services join it
/// (see [`with_services`]).
pub open spec fn injected(doc: YamlV, net: Seq<char>) -> Result<YamlV, Seq<char>> {
    let d = if is_null(doc) {
        YamlV::Dict(Seq::empty())
    } else {
        doc
    };
    match untag(d) {
        YamlV::Dict(e0) => match with_network(e0, net) {
            Ok(e2) => match with_services(e2) {
                Ok(e3) => Ok(retag(d, YamlV::Dict(e3))),
                Err(m) => Err(m),
            },
            Err(m) => Err(m),
        },
        _ => Err("compose YAML não é um mapping no nível raiz"@),
    }
}

/// The values of mapping entries.
pub open spec fn pairs(m: Seq<(Yaml, Yaml)>) -> Seq<(YamlV, YamlV)> {
    Seq::new(
        m.len(),
        |i: int|
            if 0 <= i < m.len() {
                (yv(m[i].0), yv(m[i].1))
            } else {
                (YamlV::Null, YamlV::Null)
            },
    )
}

/// The values of sequence items.
pub open spec fn items(v: Seq<Yaml>) -> Seq<YamlV> {
    Seq::new(v.len(), |i: int| if 0 <= i < v.len() { yv(v[i]) } else { YamlV::Null })
}

/// The tags over a value, outermost first.
pub open spec fn tags_of(y: YamlV) -> Seq<Seq<char>>
    decreases y,
{
    match y {
        YamlV::Tagged(t, b) => seq![t] + tags_of(*b),
        _ => Seq::empty(),
    }
}

/// `inner` under the tags `ts`, outermost first.
pub open spec fn tags_wrap(ts: Seq<Seq<char>>, inner: YamlV) -> YamlV
    decreases ts.len(),
{
    if ts.len() == 0 {
        inner
    } else {
        YamlV::Tagged(ts[0], Box::new(tags_wrap(ts.drop_first(), inner)))
    }
}

proof fn lemma_yv_mapping(m: Vec<(Yaml, Yaml)>)
    ensures
        yv(Yaml::Mapping(m)) == YamlV::Dict(pairs(m@)),
{
    assert(yv(Yaml::Mapping(m)) =~= YamlV::Dict(pairs(m@))) by {
        if let YamlV::Dict(d) = yv(Yaml::Mapping(m)) {
            assert(d =~= pairs(m@));
        }
    }
}

proof fn lemma_yv_sequence(v: Vec<Yaml>)
    ensures
        yv(Yaml::Sequence(v)) == YamlV::List(items(v@)),
{
    if let YamlV::List(d) = yv(Yaml::Sequence(v)) {
        assert(d =~= items(v@));
    }
}

proof fn lemma_tags(y: YamlV, x: YamlV)
    ensures
        tags_wrap(tags_of(y), x) == retag(y, x),
        tags_wrap(tags_of(y), untag(y)) == y,
    decreases y,
{
    match y {
        YamlV::Tagged(t, b) => {
            lemma_tags(*b, x);
            assert((seq![t] + tags_of(*b)).drop_first() =~= tags_of(*b));
        },
        _ => {},
    }
}

proof fn lemma_key_pos(m: Seq<(YamlV, YamlV)>, name: Seq<char>)
    ensures
        -1 <= key_pos(m, name) < m.len(),
        key_pos(m, name) >= 0 ==> is_key(m[key_pos(m, name)].0, name),
        forall|j: int| key_pos(m, name) < j < m.len() ==> !is_key(#[trigger] m[j].0, name),
    decreases m.len(),
{
    if m.len() > 0 && !is_key(m.last().0, name) {
        lemma_key_pos(m.drop_last(), name);
        assert forall|j: int| key_pos(m, name) < j < m.len() implies !is_key(#[trigger] m[j].0, name) by {
            if j < m.len() - 1 {
                assert(m[j] == m.drop_last()[j]);
            }
        }
    }
}

proof fn lemma_key_pos_is(m: Seq<(YamlV, YamlV)>, name: Seq<char>, i: int)
    requires
        -1 <= i < m.len(),
        i >= 0 ==> is_key(m[i].0, name),
        forall|j: int| i < j < m.len() ==> !is_key(#[trigger] m[j].0, name),
    ensures
        key_pos(m, name) == i,
    decreases m.len(),
{
    if m.len() > 0 && i < m.len() - 1 {
        assert(!is_key(m[m.len() - 1].0, name));
        lemma_key_pos_is(m.drop_last(), name, i);
    }
}

proof fn lemma_retag(y: YamlV, a: YamlV, b: YamlV)
    requires
        !(a is Tagged),
    ensures
        untag(retag(y, a)) == untag(a),
        retag(retag(y, a), b) == retag(y, b),
    decreases y,
{
    if let YamlV::Tagged(t, inner) = y {
        lemma_retag(*inner, a, b);
        assert(retag(retag(y, a), b) == YamlV::Tagged(t, Box::new(retag(retag(*inner, a), b))));
    }
}

/// Replacing the value of an entry keeps every key where it was.
proof fn lemma_key_pos_update(m: Seq<(YamlV, YamlV)>, i: int, v: YamlV, name: Seq<char>)
    requires
        0 <= i < m.len(),
    ensures
        key_pos(m.update(i, (m[i].0, v)), name) == key_pos(m, name),
{
    let m2 = m.update(i, (m[i].0, v));
    lemma_key_pos(m, name);
    assert forall|j: int| key_pos(m, name) < j < m2.len() implies !is_key(#[trigger] m2[j].0, name) by {
        assert(m2[j].0 == m[j].0);
    }
    lemma_key_pos_is(m2, name, key_pos(m, name));
}

/// An entry pushed with key `name` is the one found.
proof fn lemma_key_pos_push(m: Seq<(YamlV, YamlV)>, name: Seq<char>, v: YamlV)
    ensures
        key_pos(m.push((YamlV::Str(name), v)), name) == m.len(),
{
}

proof fn lemma_with_alias_twice(v: YamlV)
    ensures
        with_alias(with_alias(v)) == with_alias(v),
{
    reveal_strlit("rp_project_net");
    match v {
        YamlV::List(s) => {
            if !(exists|i: int| 0 <= i < s.len() && str_of(#[trigger] s[i]) == Some(alias())) {
                let s2 = s.push(YamlV::Str(alias()));
                assert(str_of(s2[s.len() as int]) == Some(alias()));
            }
        },
        YamlV::Dict(m) => {
            if key_pos(m, alias()) < 0 {
                lemma_key_pos_push(m, alias(), YamlV::Dict(Seq::empty()));
            }
        },
        _ => {
            if is_null(v) {
                let s2: Seq<YamlV> = seq![YamlV::Str(alias())];
                assert(str_of(s2[0]) == Some(alias()));
            }
        },
    }
}

proof fn lemma_attach_service_twice(sm: Seq<(YamlV, YamlV)>)
    ensures
        attach_service(attach_service(sm)) == attach_service(sm),
{
    reveal_strlit("networks");
    let i = key_pos(sm, "networks"@);
    lemma_key_pos(sm, "networks"@);
    if i < 0 {
        let l = YamlV::List(seq![YamlV::Str(alias())]);
        let s2 = sm.push((YamlV::Str("networks"@), l));
        lemma_key_pos_push(sm, "networks"@, l);
        lemma_with_alias_twice(YamlV::Null);
        assert(with_alias(l) == l) by {
            let s: Seq<YamlV> = seq![YamlV::Str(alias())];
            assert(str_of(s[0]) == Some(alias()));
        }
        assert(s2.update(sm.len() as int, (s2[sm.len() as int].0, with_alias(s2[sm.len() as int].1))) =~= s2);
    } else {
        let s2 = sm.update(i, (sm[i].0, with_alias(sm[i].1)));
        lemma_key_pos_update(sm, i, with_alias(sm[i].1), "networks"@);
        lemma_with_alias_twice(sm[i].1);
        assert(s2.update(i, (s2[i].0, with_alias(s2[i].1))) =~= s2);
    }
}

proof fn lemma_attach_all_twice(services: Seq<(YamlV, YamlV)>)
    ensures
        attach_all(attach_all(services)) == attach_all(services),
{
    let a = attach_all(services);
    assert forall|i: int| 0 <= i < a.len() implies #[trigger] attach_all(a)[i] == a[i] by {
        match untag(services[i].1) {
            YamlV::Dict(sm) => {
                let x = YamlV::Dict(attach_service(sm));
                lemma_retag(services[i].1, x, YamlV::Dict(attach_service(attach_service(sm))));
                lemma_attach_service_twice(sm);
                lemma_retag(services[i].1, x, x);
            },
            _ => {},
        }
    }
    assert(attach_all(a) =~= a);
}

/// Joining a stack to the project network twice changes nothing more than
/// joining it once: the network is declared once and each service lists it
/// once.
pub proof fn lemma_inject_idempotent(doc: YamlV, net: Seq<char>)
    requires
        injected(doc, net) is Ok,
    ensures
        injected(injected(doc, net)->Ok_0, net) == injected(doc, net),
{
    reveal_strlit("networks");
    reveal_strlit("services");
    reveal_strlit("rp_project_net");
    let d = if is_null(doc) {
        YamlV::Dict(Seq::empty())
    } else {
        doc
    };
    let e0 = untag(d)->Dict_0;
    let e1 = if key_pos(e0, "networks"@) >= 0 {
        e0
    } else {
        e0.push((YamlV::Str("networks"@), YamlV::Dict(Seq::empty())))
    };
    if key_pos(e0, "networks"@) < 0 {
        lemma_key_pos_push(e0, "networks"@, YamlV::Dict(Seq::empty()));
    }
    let ni = key_pos(e1, "networks"@);
    lemma_key_pos(e1, "networks"@);
    let nets = untag(e1[ni].1)->Dict_0;
    let nets2 = if net_declared(nets, net) {
        nets
    } else {
        nets.push(net_entry(net))
    };
    let e2 = e1.update(ni, (e1[ni].0, retag(e1[ni].1, YamlV::Dict(nets2))));
    assert(with_network(e0, net) == Ok::<Seq<(YamlV, YamlV)>, Seq<char>>(e2));
    let si = key_pos(e2, "services"@);
    lemma_key_pos(e2, "services"@);
    let e3 = with_services(e2)->Ok_0;
    let d1 = retag(d, YamlV::Dict(e3));
    assert(injected(doc, net) == Ok::<YamlV, Seq<char>>(d1));
    lemma_retag(d, YamlV::Dict(e3), YamlV::Dict(e3));
    assert(!is_null(d1));
    // The second pass finds `networks:` where the first left it.
    lemma_key_pos_update(e1, ni, retag(e1[ni].1, YamlV::Dict(nets2)), "networks"@);
    lemma_key_pos_update(e1, ni, retag(e1[ni].1, YamlV::Dict(nets2)), "services"@);
    lemma_retag(e1[ni].1, YamlV::Dict(nets2), YamlV::Dict(nets2));
    if !net_declared(nets, net) {
        lemma_key_pos_push(nets, alias(), net_entry(net).1);
    }
    assert(net_declared(nets2, net));
    if si < 0 {
        assert(e3 == e2);
        assert(e2.update(ni, (e2[ni].0, retag(e2[ni].1, YamlV::Dict(nets2)))) =~= e2);
        assert(with_network(e3, net) == Ok::<Seq<(YamlV, YamlV)>, Seq<char>>(e3));
        assert(with_services(e3) == Ok::<Seq<(YamlV, YamlV)>, Seq<char>>(e3));
    } else {
        let svcs = untag(e2[si].1)->Dict_0;
        let x = YamlV::Dict(attach_all(svcs));
        assert(e3 == e2.update(si, (e2[si].0, retag(e2[si].1, x))));
        assert(e2[ni].0 == e1[ni].0);
        assert("networks"@[0] != "services"@[0]);
        assert(si != ni);
        lemma_key_pos_update(e2, si, retag(e2[si].1, x), "networks"@);
        lemma_key_pos_update(e2, si, retag(e2[si].1, x), "services"@);
        assert(e3[ni] == e2[ni]);
        assert(e3.update(ni, (e3[ni].0, retag(e3[ni].1, YamlV::Dict(nets2)))) =~= e3);
        assert(with_network(e3, net) == Ok::<Seq<(YamlV, YamlV)>, Seq<char>>(e3));
        lemma_retag(e2[si].1, x, YamlV::Dict(attach_all(attach_all(svcs))));
        lemma_attach_all_twice(svcs);
        lemma_retag(e2[si].1, x, x);
        assert(e3.update(si, (e3[si].0, retag(e3[si].1, x))) =~= e3);
        assert(with_services(e3) == Ok::<Seq<(YamlV, YamlV)>, Seq<char>>(e3));
    }
    lemma_retag(d1, YamlV::Dict(e3), YamlV::Dict(e3));
    lemma_retag(d, YamlV::Dict(e3), YamlV::Dict(e3));
}

/// An entry pushed under another key leaves where `name` is found.
proof fn lemma_key_pos_push_other(m: Seq<(YamlV, YamlV)>, k: YamlV, v: YamlV, name: Seq<char>)
    requires
        !is_key(k, name),
    ensures
        key_pos(m.push((k, v)), name) == key_pos(m, name),
{
    assert(m.push((k, v)).drop_last() =~= m);
}

/// Joining a stack to the project network leaves its volumes alone: the
/// external volumes to create are the same before and after.
pub proof fn lemma_inject_keeps_volumes(doc: YamlV, net: Seq<char>)
    requires
        injected(doc, net) is Ok,
    ensures
        external_volumes(injected(doc, net)->Ok_0) == external_volumes(doc),
{
    reveal_strlit("networks");
    reveal_strlit("services");
    reveal_strlit("volumes");
    assert("volumes"@[0] != "networks"@[0]);
    assert("volumes"@[0] != "services"@[0]);
    let d = if is_null(doc) {
        YamlV::Dict(Seq::empty())
    } else {
        doc
    };
    let e0 = untag(d)->Dict_0;
    let net_entry0 = (YamlV::Str("networks"@), YamlV::Dict(Seq::empty()));
    let e1 = if key_pos(e0, "networks"@) >= 0 {
        e0
    } else {
        e0.push(net_entry0)
    };
    if key_pos(e0, "networks"@) < 0 {
        lemma_key_pos_push(e0, "networks"@, YamlV::Dict(Seq::empty()));
        lemma_key_pos_push_other(e0, net_entry0.0, net_entry0.1, "volumes"@);
    }
    let ni = key_pos(e1, "networks"@);
    lemma_key_pos(e1, "networks"@);
    let nets = untag(e1[ni].1)->Dict_0;
    let nets2 = if net_declared(nets, net) {
        nets
    } else {
        nets.push(net_entry(net))
    };
    let e2 = e1.update(ni, (e1[ni].0, retag(e1[ni].1, YamlV::Dict(nets2))));
    assert(with_network(e0, net) == Ok::<Seq<(YamlV, YamlV)>, Seq<char>>(e2));
    lemma_key_pos_update(e1, ni, retag(e1[ni].1, YamlV::Dict(nets2)), "volumes"@);
    lemma_key_pos(e0, "volumes"@);
    lemma_key_pos(e1, "volumes"@);
    let vp = key_pos(e0, "volumes"@);
    assert(key_pos(e1, "volumes"@) == vp);
    if vp >= 0 {
        assert(e1[vp] == e0[vp]);
        assert(vp != ni);
        assert(e2[vp] == e1[vp]);
    }
    let si = key_pos(e2, "services"@);
    lemma_key_pos(e2, "services"@);
    let e3 = with_services(e2)->Ok_0;
    if si >= 0 {
        let svcs = untag(e2[si].1)->Dict_0;
        let x = YamlV::Dict(attach_all(svcs));
        assert(e3 == e2.update(si, (e2[si].0, retag(e2[si].1, x))));
        lemma_key_pos_update(e2, si, retag(e2[si].1, x), "volumes"@);
        if vp >= 0 {
            assert(vp != si);
            assert(e3[vp] == e2[vp]);
        }
    }
    assert(key_pos(e3, "volumes"@) == vp);
    assert(get_key(e3, "volumes"@) == get_key(e0, "volumes"@));
    let d1 = retag(d, YamlV::Dict(e3));
    assert(injected(doc, net) == Ok::<YamlV, Seq<char>>(d1));
    lemma_retag(d, YamlV::Dict(e3), YamlV::Dict(e3));
    if is_null(doc) {
        assert(e0.len() == 0);
        assert(vp == -1);
    }
}

fn yaml_str(t: &str) -> (r: Yaml)
    ensures
        yv(r) == YamlV::Str(t@),
{
    let mut s = String::new();
    push_str(&mut s, t);
    Yaml::String(s)
}

fn copy_string(t: &String) -> (r: String)
    ensures
        r@ == t@,
{
    let mut s = String::new();
    push_str(&mut s, t.as_str());
    s
}

/// The value under any tags.
fn untag_ref(y: &Yaml) -> (r: &Yaml)
    ensures
        yv(*r) == untag(yv(*y)),
    decreases y,
{
    match y {
        Yaml::Tagged(_, b) => untag_ref(b),
        _ => y,
    }
}

/// The tags over a value and the value under them.
fn peel(y: Yaml) -> (r: (Vec<String>, Yaml))
    ensures
        views(r.0@) == tags_of(yv(y)),
        yv(r.1) == untag(yv(y)),
    decreases y,
{
    match y {
        Yaml::Tagged(t, b) => {
            let (mut ts, inner) = peel(*b);
            let ghost before = views(ts@);
            ts.insert(0, t);
            assert(views(ts@) =~= seq![t@] + before);
            (ts, inner)
        },
        other => {
            let v: Vec<String> = Vec::new();
            assert(views(v@) =~= Seq::<Seq<char>>::empty());
            (v, other)
        },
    }
}

/// `inner` under the tags `tags[i..]`.
fn rewrap(tags: &Vec<String>, i: usize, inner: Yaml) -> (r: Yaml)
    requires
        i <= tags@.len(),
    ensures
        yv(r) == tags_wrap(views(tags@).skip(i as int), yv(inner)),
    decreases tags@.len() - i,
{
    if i == tags.len() {
        assert(views(tags@).skip(i as int) =~= Seq::<Seq<char>>::empty());
        inner
    } else {
        let rest = rewrap(tags, i + 1, inner);
        assert(views(tags@).skip(i as int).drop_first() =~= views(tags@).skip(i + 1));
        Yaml::Tagged(copy_string(&tags[i]), Box::new(rest))
    }
}

fn is_null_exec(y: &Yaml) -> (b: bool)
    ensures
        b == is_null(yv(*y)),
{
    match untag_ref(y) {
        Yaml::Null => true,
        _ => false,
    }
}

fn is_key_exec(k: &Yaml, name: &str) -> (b: bool)
    ensures
        b == is_key(yv(*k), name@),
{
    match k {
        Yaml::String(s) => str_eq(s.as_str(), name),
        _ => false,
    }
}

/// Index of the entry with key `name`.
fn find_key(m: &Vec<(Yaml, Yaml)>, name: &str) -> (r: Option<usize>)
    ensures
        r matches Some(i) ==> i < m@.len() && key_pos(pairs(m@), name@) == i,
        r is None ==> key_pos(pairs(m@), name@) == -1,
{
    let ghost pm = pairs(m@);
    let mut i = m.len();
    while i > 0 && !is_key_exec(&m[i - 1].0, name)
        invariant
            i <= m@.len(),
            pm == pairs(m@),
            forall|j: int| i <= j < m@.len() ==> !is_key(#[trigger] pm[j].0, name@),
        decreases i,
    {
        i = i - 1;
    }
    if i == 0 {
        proof {
            lemma_key_pos_is(pm, name@, -1);
        }
        None
    } else {
        proof {
            lemma_key_pos_is(pm, name@, i - 1);
        }
        Some(i - 1)
    }
}

fn str_of_exec(y: &Yaml) -> (r: Option<&String>)
    ensures
        match r {
            Some(s) => str_of(yv(*y)) == Some(s@),
            None => str_of(yv(*y)) is None,
        },
{
    match untag_ref(y) {
        Yaml::String(s) => Some(s),
        _ => None,
    }
}

fn declared(nets: &Vec<(Yaml, Yaml)>, net: &str) -> (b: bool)
    ensures
        b == net_declared(pairs(nets@), net@),
{
    let ghost pm = pairs(nets@);
    if find_key(nets, "rp_project_net").is_some() {
        return true;
    }
    let mut i: usize = 0;
    while i < nets.len()
        invariant
            i <= nets@.len(),
            pm == pairs(nets@),
            forall|j: int| 0 <= j < i ==> !(untag(#[trigger] pm[j].1) matches YamlV::Dict(m)
                && get_key(m, "name"@) matches Some(n) && str_of(n) == Some(net@)),
        decreases nets.len() - i,
    {
        assert(pm[i as int].1 == yv(nets@[i as int].1));
        let hit = match untag_ref(&nets[i].1) {
            Yaml::Mapping(m) => match {
                proof {
                    lemma_yv_mapping(*m);
                }
                find_key(m, "name")
            } {
                Some(j) => match str_of_exec(&m[j].1) {
                    Some(s) => str_eq(s.as_str(), net),
                    None => false,
                },
                None => false,
            },
            _ => false,
        };
        if hit {
            assert(untag(pm[i as int].1) matches YamlV::Dict(m) && get_key(m, "name"@) matches Some(n)
                && str_of(n) == Some(net@));
            return true;
        }
        i = i + 1;
    }
    false
}

fn has_alias_item(s: &Vec<Yaml>) -> (b: bool)
    ensures
        b == exists|i: int| 0 <= i < items(s@).len() && str_of(#[trigger] items(s@)[i]) == Some(alias()),
{
    let ghost it = items(s@);
    let mut i: usize = 0;
    while i < s.len()
        invariant
            i <= s@.len(),
            it == items(s@),
            forall|j: int| 0 <= j < i ==> str_of(#[trigger] it[j]) != Some(alias()),
        decreases s.len() - i,
    {
        assert(it[i as int] == yv(s@[i as int]));
        let hit = match str_of_exec(&s[i]) {
            Some(t) => str_eq(t.as_str(), "rp_project_net"),
            None => false,
        };
        if hit {
            assert(str_of(it[i as int]) == Some(alias()));
            return true;
        }
        i = i + 1;
    }
    false
}

/// A service's `networks:` value with the project network added (see
/// [`with_alias`]).
fn add_alias(v: Yaml) -> (r: Yaml)
    ensures
        yv(r) == with_alias(yv(v)),
{
    let null = is_null_exec(&v);
    match v {
        Yaml::Sequence(mut s) => {
            proof {
                lemma_yv_sequence(s);
            }
            if has_alias_item(&s) {
                Yaml::Sequence(s)
            } else {
                let ghost before = items(s@);
                s.push(yaml_str("rp_project_net"));
                proof {
                    lemma_yv_sequence(s);
                    assert(items(s@) =~= before.push(YamlV::Str(alias())));
                }
                Yaml::Sequence(s)
            }
        },
        Yaml::Mapping(mut m) => {
            proof {
                lemma_yv_mapping(m);
            }
            if find_key(&m, "rp_project_net").is_some() {
                Yaml::Mapping(m)
            } else {
                let ghost before = pairs(m@);
                let empty: Vec<(Yaml, Yaml)> = Vec::new();
                proof {
                    lemma_yv_mapping(empty);
                    assert(pairs(empty@) =~= Seq::<(YamlV, YamlV)>::empty());
                }
                m.push((yaml_str("rp_project_net"), Yaml::Mapping(empty)));
                proof {
                    lemma_yv_mapping(m);
                    assert(pairs(m@) =~= before.push((YamlV::Str(alias()), YamlV::Dict(Seq::empty()))));
                }
                Yaml::Mapping(m)
            }
        },
        other => {
            if null {
                let mut s: Vec<Yaml> = Vec::new();
                s.push(yaml_str("rp_project_net"));
                proof {
                    lemma_yv_sequence(s);
                    assert(items(s@) =~= seq![YamlV::Str(alias())]);
                }
                Yaml::Sequence(s)
            } else {
                other
            }
        },
    }
}

/// A service definition joined to the project network.
fn attach_one(mut sm: Vec<(Yaml, Yaml)>) -> (r: Vec<(Yaml, Yaml)>)
    ensures
        pairs(r@) == attach_service(pairs(sm@)),
{
    let ghost before = pairs(sm@);
    match find_key(&sm, "networks") {
        None => {
            let mut l: Vec<Yaml> = Vec::new();
            l.push(yaml_str("rp_project_net"));
            proof {
                lemma_yv_sequence(l);
                assert(items(l@) =~= seq![YamlV::Str(alias())]);
            }
            sm.push((yaml_str("networks"), Yaml::Sequence(l)));
            assert(pairs(sm@) =~= before.push((YamlV::Str("networks"@), YamlV::List(seq![YamlV::Str(alias())]))));
            sm
        },
        Some(i) => {
            let (k, v) = sm.remove(i);
            assert(yv(k) == before[i as int].0 && yv(v) == before[i as int].1);
            let nv = add_alias(v);
            sm.insert(i, (k, nv));
            assert(pairs(sm@) =~= before.update(i as int, (before[i as int].0, with_alias(before[i as int].1))));
            sm
        },
    }
}

/// Every service that is a mapping joined to the project network.
fn attach_services(services: Vec<(Yaml, Yaml)>) -> (r: Vec<(Yaml, Yaml)>)
    ensures
        pairs(r@) == attach_all(pairs(services@)),
{
    let ghost all = pairs(services@);
    let mut rest = services;
    let mut out: Vec<(Yaml, Yaml)> = Vec::new();
    let ghost n = all.len();
    while rest.len() > 0
        invariant
            n == all.len(),
            out@.len() + rest@.len() == n,
            pairs(rest@) == all.skip(out@.len() as int),
            pairs(out@) == attach_all(all).take(out@.len() as int),
        decreases rest.len(),
    {
        let ghost k0 = out@.len() as int;
        let ghost before_out = pairs(out@);
        let ghost before_rest = pairs(rest@);
        assert(before_rest == all.skip(k0));
        let (k, v) = rest.remove(0);
        assert(before_rest[0] == all[k0]);
        assert(pairs(rest@) =~= all.skip(k0 + 1)) by {
            assert forall|j: int| 0 <= j < pairs(rest@).len() implies #[trigger] pairs(rest@)[j] == all.skip(k0 + 1)[j] by {
                assert(before_rest[j + 1] == all.skip(k0)[j + 1]);
            }
        }
        let is_map = match untag_ref(&v) {
            Yaml::Mapping(_) => true,
            _ => false,
        };
        if is_map {
            let (ts, inner) = peel(v);
            match inner {
                Yaml::Mapping(sm) => {
                    proof {
                        lemma_yv_mapping(sm);
                    }
                    let attached = attach_one(sm);
                    proof {
                        lemma_yv_mapping(attached);
                    }
                    let w = rewrap(&ts, 0, Yaml::Mapping(attached));
                    proof {
                        assert(views(ts@).skip(0) =~= views(ts@));
                        lemma_tags(all[k0].1, YamlV::Dict(attach_service(pairs(sm@))));
                    }
                    out.push((k, w));
                },
                other => {
                    out.push((k, other));
                },
            }
        } else {
            out.push((k, v));
        }
        assert(pairs(out@) =~= attach_all(all).take(k0 + 1)) by {
            assert forall|j: int| 0 <= j < k0 + 1 implies #[trigger] pairs(out@)[j] == attach_all(all).take(k0 + 1)[j] by {
                if j < k0 {
                    assert(before_out[j] == attach_all(all).take(k0)[j]);
                }
            }
        }
    }
    assert(attach_all(all).take(n as int) =~= attach_all(all));
    out
}

fn err_text(t: &str) -> (r: String)
    ensures
        r@ == t@,
{
    let mut m = String::new();
    push_str(&mut m, t);
    m
}

/// The top-level entries with the project network declared (see
/// [`with_network`]).
fn declare_network(mut entries: Vec<(Yaml, Yaml)>, network_name: &str) -> (r: Result<Vec<(Yaml, Yaml)>, String>)
    ensures
        match r {
            Ok(e) => with_network(pairs(entries@), network_name@) == Ok::<Seq<(YamlV, YamlV)>, Seq<char>>(pairs(e@)),
            Err(m) => with_network(pairs(entries@), network_name@) == Err::<Seq<(YamlV, YamlV)>, Seq<char>>(m@),
        },
{
    let ghost e0 = pairs(entries@);
    let ni = match find_key(&entries, "networks") {
        Some(i) => i,
        None => {
            let e: Vec<(Yaml, Yaml)> = Vec::new();
            proof {
                lemma_yv_mapping(e);
                assert(pairs(e@) =~= Seq::<(YamlV, YamlV)>::empty());
            }
            entries.push((yaml_str("networks"), Yaml::Mapping(e)));
            assert(pairs(entries@) =~= e0.push((YamlV::Str("networks"@), YamlV::Dict(Seq::empty()))));
            proof {
                lemma_key_pos_is(pairs(entries@), "networks"@, entries@.len() - 1);
            }
            entries.len() - 1
        },
    };
    let ghost e1 = pairs(entries@);
    let (nk, nv) = entries.remove(ni);
    assert(yv(nk) == e1[ni as int].0 && yv(nv) == e1[ni as int].1);
    let (ntags, ninner) = peel(nv);
    let mut nets = match ninner {
        Yaml::Mapping(m) => m,
        _ => {
            return Err(err_text("`networks:` no compose não é um mapping"));
        },
    };
    proof {
        lemma_yv_mapping(nets);
    }
    let ghost n0 = pairs(nets@);
    if !declared(&nets, network_name) {
        let mut entry: Vec<(Yaml, Yaml)> = Vec::new();
        entry.push((yaml_str("external"), Yaml::Bool(true)));
        let mut nm = String::new();
        push_str(&mut nm, network_name);
        entry.push((yaml_str("name"), Yaml::String(nm)));
        proof {
            lemma_yv_mapping(entry);
            assert(pairs(entry@) =~= seq![(YamlV::Str("external"@), YamlV::Bool(true)), (YamlV::Str("name"@), YamlV::Str(network_name@))]);
        }
        nets.push((yaml_str("rp_project_net"), Yaml::Mapping(entry)));
        assert(pairs(nets@) =~= n0.push(net_entry(network_name@)));
    }
    let ghost n2 = pairs(nets@);
    proof {
        lemma_yv_mapping(nets);
    }
    let wrapped_nets = rewrap(&ntags, 0, Yaml::Mapping(nets));
    proof {
        assert(views(ntags@).skip(0) =~= views(ntags@));
        lemma_tags(e1[ni as int].1, YamlV::Dict(n2));
    }
    entries.insert(ni, (nk, wrapped_nets));
    assert(pairs(entries@) =~= e1.update(ni as int, (e1[ni as int].0, retag(e1[ni as int].1, YamlV::Dict(n2)))));
    Ok(entries)
}

/// The top-level entries with every service joined to the network (see
/// [`with_services`]).
fn join_services(mut entries: Vec<(Yaml, Yaml)>) -> (r: Result<Vec<(Yaml, Yaml)>, String>)
    ensures
        match r {
            Ok(e) => with_services(pairs(entries@)) == Ok::<Seq<(YamlV, YamlV)>, Seq<char>>(pairs(e@)),
            Err(m) => with_services(pairs(entries@)) == Err::<Seq<(YamlV, YamlV)>, Seq<char>>(m@),
        },
{
    let ghost e2 = pairs(entries@);
    match find_key(&entries, "services") {
        Some(si) => {
            let (sk, sv) = entries.remove(si);
            assert(yv(sk) == e2[si as int].0 && yv(sv) == e2[si as int].1);
            let (stags, sinner) = peel(sv);
            let svcs = match sinner {
                Yaml::Mapping(m) => m,
                _ => {
                    return Err(err_text("`services:` no compose não é um mapping"));
                },
            };
            proof {
                lemma_yv_mapping(svcs);
            }
            let ghost sp = pairs(svcs@);
            let attached = attach_services(svcs);
            proof {
                lemma_yv_mapping(attached);
            }
            let ws = rewrap(&stags, 0, Yaml::Mapping(attached));
            proof {
                assert(views(stags@).skip(0) =~= views(stags@));
                lemma_tags(e2[si as int].1, YamlV::Dict(attach_all(sp)));
            }
            entries.insert(si, (sk, ws));
            assert(pairs(entries@) =~= e2.update(si as int, (e2[si as int].0, retag(e2[si as int].1, YamlV::Dict(attach_all(sp))))));
            Ok(entries)
        },
        None => Ok(entries),
    }
}

/// Joins every service of a stack to the project network `network_name`
/// (see [`injected`]).
pub fn inject_project_network_doc(doc: Yaml, network_name: &str) -> (r: Result<Yaml, String>)
    ensures
        match r {
            Ok(d) => injected(yv(doc), network_name@) == Ok::<YamlV, Seq<char>>(yv(d)),
            Err(e) => injected(yv(doc), network_name@) == Err::<YamlV, Seq<char>>(e@),
        },
{
    let ghost dv0 = if is_null(yv(doc)) { YamlV::Dict(Seq::empty()) } else { yv(doc) };
    let d = if is_null_exec(&doc) {
        let e: Vec<(Yaml, Yaml)> = Vec::new();
        proof {
            lemma_yv_mapping(e);
            assert(pairs(e@) =~= Seq::<(YamlV, YamlV)>::empty());
        }
        Yaml::Mapping(e)
    } else {
        doc
    };
    assert(yv(d) == dv0);
    let (tags, root) = peel(d);
    let entries = match root {
        Yaml::Mapping(e) => e,
        _ => {
            return Err(err_text("compose YAML não é um mapping no nível raiz"));
        },
    };
    proof {
        lemma_yv_mapping(entries);
    }
    let e2 = match declare_network(entries, network_name) {
        Ok(e) => e,
        Err(m) => {
            return Err(m);
        },
    };
    let e3 = match join_services(e2) {
        Ok(e) => e,
        Err(m) => {
            return Err(m);
        },
    };
    let ghost ef = pairs(e3@);
    proof {
        lemma_yv_mapping(e3);
    }
    let out = rewrap(&tags, 0, Yaml::Mapping(e3));
    proof {
        assert(views(tags@).skip(0) =~= views(tags@));
        lemma_tags(dv0, YamlV::Dict(ef));
    }
    Ok(out)
}

/// The Docker name of a volume declared `external: true`: its `name:`
/// when that is a string, else its key; `None` for any other volume.
pub open spec fn external_volume(key: YamlV, def: YamlV) -> Option<Seq<char>> {
    match untag(def) {
        YamlV::Dict(m) => {
            let ext = match get_key(m, "external"@) {
                Some(e) => untag(e) == YamlV::Bool(true),
                None => false,
            };
            if !ext {
                None
            } else {
                let by_name = match get_key(m, "name"@) {
                    Some(n) => str_of(n),
                    None => None,
                };
                match by_name {
                    Some(n) => Some(n),
                    None => str_of(key),
                }
            }
        },
        _ => None,
    }
}

/// The external volumes of the entries of `volumes:`, in order.
pub open spec fn external_volumes_in(vols: Seq<(YamlV, YamlV)>) -> Seq<Seq<char>>
    decreases vols.len(),
{
    if vols.len() == 0 {
        Seq::empty()
    } else {
        let r = external_volumes_in(vols.drop_last());
        match external_volume(vols.last().0, vols.last().1) {
            Some(n) => r.push(n),
            None => r,
        }
    }
}

/// The external volumes a stack names, which must exist before it starts.
pub open spec fn external_volumes(doc: YamlV) -> Seq<Seq<char>> {
    match untag(doc) {
        YamlV::Dict(top) => match get_key(top, "volumes"@) {
            Some(v) => match untag(v) {
                YamlV::Dict(vols) => external_volumes_in(vols),
                _ => Seq::empty(),
            },
            None => Seq::empty(),
        },
        _ => Seq::empty(),
    }
}

/// The contents of the `.env` file of a stack: `KEY=value` lines.
pub open spec fn env_text(vars: Seq<(String, String)>) -> Seq<char>
    decreases vars.len(),
{
    if vars.len() == 0 {
        Seq::empty()
    } else {
        env_text(vars.drop_last()) + vars.last().0@ + "="@ + vars.last().1@ + "\n"@
    }
}

fn volume_name_of(key: &Yaml, def: &Yaml) -> (r: Option<String>)
    ensures
        match r {
            Some(n) => external_volume(yv(*key), yv(*def)) == Some(n@),
            None => external_volume(yv(*key), yv(*def)) is None,
        },
{
    match untag_ref(def) {
        Yaml::Mapping(m) => {
            proof {
                lemma_yv_mapping(*m);
            }
            let ext = match find_key(m, "external") {
                Some(i) => match untag_ref(&m[i].1) {
                    Yaml::Bool(b) => *b,
                    _ => false,
                },
                None => false,
            };
            if !ext {
                return None;
            }
            let by_name = match find_key(m, "name") {
                Some(i) => str_of_exec(&m[i].1),
                None => None,
            };
            match by_name {
                Some(n) => Some(copy_string(n)),
                None => match str_of_exec(key) {
                    Some(k) => Some(copy_string(k)),
                    None => None,
                },
            }
        },
        _ => None,
    }
}

/// The external volumes a stack names (see [`external_volumes`]).
pub fn external_volume_names(doc: &Yaml) -> (r: Vec<String>)
    ensures
        views(r@) == external_volumes(yv(*doc)),
{
    let mut out: Vec<String> = Vec::new();
    let top = match untag_ref(doc) {
        Yaml::Mapping(m) => m,
        _ => {
            assert(views(out@) =~= Seq::<Seq<char>>::empty());
            return out;
        },
    };
    proof {
        lemma_yv_mapping(*top);
    }
    let vols = match find_key(top, "volumes") {
        Some(i) => match untag_ref(&top[i].1) {
            Yaml::Mapping(v) => v,
            _ => {
                assert(views(out@) =~= Seq::<Seq<char>>::empty());
                return out;
            },
        },
        None => {
            assert(views(out@) =~= Seq::<Seq<char>>::empty());
            return out;
        },
    };
    proof {
        lemma_yv_mapping(*vols);
    }
    let ghost pv = pairs(vols@);
    let mut i: usize = 0;
    assert(views(out@) =~= external_volumes_in(pv.take(0)));
    while i < vols.len()
        invariant
            i <= vols@.len(),
            pv == pairs(vols@),
            views(out@) == external_volumes_in(pv.take(i as int)),
        decreases vols.len() - i,
    {
        assert(pv.take(i + 1).drop_last() =~= pv.take(i as int));
        assert(pv[i as int] == (yv(vols@[i as int].0), yv(vols@[i as int].1)));
        let ghost before = views(out@);
        match volume_name_of(&vols[i].0, &vols[i].1) {
            Some(n) => {
                out.push(n);
                assert(views(out@) =~= before.push(out@[out@.len() - 1]@));
            },
            None => {},
        }
        i = i + 1;
    }
    assert(pv.take(vols@.len() as int) =~= pv);
    out
}

/// The `.env` file of a stack.
pub fn env_file_text(vars: &[(String, String)]) -> (r: String)
    ensures
        r@ == env_text(vars@),
{
    let mut s = String::new();
    let mut i: usize = 0;
    assert(vars@.take(0) =~= Seq::<(String, String)>::empty());
    while i < vars.len()
        invariant
            i <= vars@.len(),
            s@ == env_text(vars@.take(i as int)),
        decreases vars.len() - i,
    {
        assert(vars@.take(i + 1).drop_last() =~= vars@.take(i as int));
        push_str(&mut s, vars[i].0.as_str());
        push_str(&mut s, "=");
        push_str(&mut s, vars[i].1.as_str());
        push_str(&mut s, "\n");
        assert(s@ =~= env_text(vars@.take(i + 1)));
        i = i + 1;
    }
    assert(vars@.take(vars@.len() as int) =~= vars@);
    s
}

fn args_of(parts: &[&str]) -> (r: Vec<String>)
    ensures
        r@.len() == parts@.len(),
        forall|i: int| 0 <= i < parts@.len() ==> (#[trigger] r@[i])@ == parts@[i]@,
{
    let mut r: Vec<String> = Vec::new();
    let mut i: usize = 0;
    while i < parts.len()
        invariant
            i <= parts@.len(),
            r@.len() == i,
            forall|j: int| 0 <= j < i ==> (#[trigger] r@[j])@ == parts@[j]@,
        decreases parts.len() - i,
    {
        let mut s = String::new();
        push_str(&mut s, parts[i]);
        r.push(s);
        i = i + 1;
    }
    r
}

/// Arguments of `docker` that bring a stack up in the background,
/// building images and removing orphans.
pub fn compose_up_args(project_name: &str) -> (r: Vec<String>)
    ensures
        views(r@) == seq![
            "compose"@,
            "-p"@,
            project_name@,
            "-f"@,
            "docker-compose.yml"@,
            "--env-file"@,
            ".env"@,
            "up"@,
            "-d"@,
            "--build"@,
            "--remove-orphans"@,
        ],
{
    let parts = [
        "compose",
        "-p",
        project_name,
        "-f",
        "docker-compose.yml",
        "--env-file",
        ".env",
        "up",
        "-d",
        "--build",
        "--remove-orphans",
    ];
    let r = args_of(&parts);
    assert(views(r@) =~= seq![
        "compose"@,
        "-p"@,
        project_name@,
        "-f"@,
        "docker-compose.yml"@,
        "--env-file"@,
        ".env"@,
        "up"@,
        "-d"@,
        "--build"@,
        "--remove-orphans"@,
    ]);
    r
}

/// Arguments of `docker` that run a stack once, until `main_service` exits,
/// whose exit code becomes the command's.
pub fn compose_run_once_args(project_name: &str, main_service: &str) -> (r: Vec<String>)
    ensures
        views(r@) == seq![
            "compose"@,
            "-p"@,
            project_name@,
            "-f"@,
            "docker-compose.yml"@,
            "--env-file"@,
            ".env"@,
            "up"@,
            "--build"@,
            "--abort-on-container-exit"@,
            "--exit-code-from"@,
            main_service@,
            "--remove-orphans"@,
        ],
{
    let parts = [
        "compose",
        "-p",
        project_name,
        "-f",
        "docker-compose.yml",
        "--env-file",
        ".env",
        "up",
        "--build",
        "--abort-on-container-exit",
        "--exit-code-from",
        main_service,
        "--remove-orphans",
    ];
    let r = args_of(&parts);
    assert(views(r@) =~= seq![
        "compose"@,
        "-p"@,
        project_name@,
        "-f"@,
        "docker-compose.yml"@,
        "--env-file"@,
        ".env"@,
        "up"@,
        "--build"@,
        "--abort-on-container-exit"@,
        "--exit-code-from"@,
        main_service@,
        "--remove-orphans"@,
    ]);
    r
}

/// Arguments of `docker` that take a stack down, reading the compose file
/// from standard input.
pub fn compose_down_args(project_name: &str) -> (r: Vec<String>)
    ensures
        views(r@) == seq!["compose"@, "-p"@, project_name@, "-f"@, "-"@, "down"@, "--remove-orphans"@],
{
    let parts = ["compose", "-p", project_name, "-f", "-", "down", "--remove-orphans"];
    let r = args_of(&parts);
    assert(views(r@) =~= seq!["compose"@, "-p"@, project_name@, "-f"@, "-"@, "down"@, "--remove-orphans"@]);
    r
}

/// `serde_yaml::Value`, the YAML crate's own tree, which the library's is
/// converted from and to.
#[verifier::external_type_specification]
#[verifier::external_body]
pub struct ExYamlValue(serde_yaml::Value);

/// The document the YAML crate reads from a text, as the library's tree;
/// nothing when the text is not YAML.
pub uninterp spec fn yaml_parse(text: Seq<char>) -> Option<YamlV>;

/// The text the YAML crate writes for a document, converted to its own
/// tree; nothing when it cannot write it.
pub uninterp spec fn yaml_render(doc: YamlV) -> Option<Seq<char>>;

/// The prefix of the error of a text that is not YAML.
pub open spec fn invalid_prefix() -> Seq<char> {
    "compose YAML inválido: "@
}

/// The prefix of the error of a document the YAML crate cannot write.
pub open spec fn render_prefix() -> Seq<char> {
    "falha ao serializar compose YAML: "@
}

/// `serde_yaml::from_str` into a `serde_yaml::Value`, converted to the
/// library's tree: the document when the text is YAML, else the crate's
/// error message.
#[verifier::external_body]
fn parse_compose(content: &str) -> (r: Result<Yaml, String>)
    ensures
        r is Err <==> yaml_parse(content@) is None,
        r matches Ok(y) ==> yaml_parse(content@) == Some(yv(y)),
{
    serde_yaml::from_str::<Value>(content).map(tree_of).map_err(|e| e.to_string())
}

/// The document of a compose file, or the error of a text that is not
/// YAML: the YAML crate's message after [`invalid_prefix`].
fn read_compose(content: &str) -> (r: Result<Yaml, String>)
    ensures
        r is Err <==> yaml_parse(content@) is None,
        r matches Ok(y) ==> yaml_parse(content@) == Some(yv(y)),
        r matches Err(m) ==> crate::text::starts_with(m@, invalid_prefix()),
{
    match parse_compose(content) {
        Ok(d) => Ok(d),
        Err(e) => {
            let mut m = String::new();
            push_str(&mut m, "compose YAML inválido: ");
            push_str(&mut m, e.as_str());
            proof {
                reveal_strlit("compose YAML inválido: ");
                assert(m@.take(invalid_prefix().len() as int) =~= invalid_prefix());
            }
            Err(m)
        },
    }
}

/// Converts the YAML crate's tree to the library's, variant for variant
/// (a number by its text, a tag by its name); used by [`parse_compose`].
#[verifier::external_body]
fn tree_of(v: Value) -> Yaml {
    match v {
        Value::Null => Yaml::Null,
        Value::Bool(b) => Yaml::Bool(b),
        Value::Number(n) => Yaml::Number(n.to_string()),
        Value::String(t) => Yaml::String(t),
        Value::Sequence(items) => Yaml::Sequence(items.into_iter().map(tree_of).collect()),
        Value::Mapping(m) => Yaml::Mapping(m.into_iter().map(|(k, x)| (tree_of(k), tree_of(x))).collect()),
        Value::Tagged(t) => Yaml::Tagged(t.tag.to_string()[1..].to_string(), Box::new(tree_of(t.value))),
    }
}

/// `serde_yaml::to_string` of the library's tree converted to a `Value`
/// (a number is read back from its text): the document's text when the
/// crate writes it, else the crate's error.
#[verifier::external_body]
fn render_compose(doc: Yaml) -> (r: Result<String, String>)
    ensures
        match yaml_render(yv(doc)) {
            Some(t) => r matches Ok(s) && s@ == t,
            None => r is Err,
        },
{
    let v = value_of(doc)?;
    serde_yaml::to_string(&v).map_err(|e| e.to_string())
}

/// Converts the library's tree to the YAML crate's, variant for variant;
/// used by [`render_compose`].
#[verifier::external_body]
fn value_of(y: Yaml) -> Result<Value, String> {
    Ok(match y {
        Yaml::Null => Value::Null,
        Yaml::Bool(b) => Value::Bool(b),
        Yaml::Number(n) => serde_yaml::from_str(&n).map_err(|e| e.to_string())?,
        Yaml::String(t) => Value::String(t),
        Yaml::Sequence(items) => Value::Sequence(items.into_iter().map(value_of).collect::<Result<_, _>>()?),
        Yaml::Mapping(m) => Value::Mapping(m.into_iter().map(entry_of).collect::<Result<_, _>>()?),
        Yaml::Tagged(t, x) => Value::Tagged(Box::new(TaggedValue { tag: Tag::new(format!("!{t}")), value: value_of(*x)? })),
    })
}

/// Converts one entry of a mapping of the library's tree (see
/// [`value_of`]).
#[verifier::external_body]
fn entry_of(e: (Yaml, Yaml)) -> Result<(Value, Value), String> {
    Ok((value_of(e.0)?, value_of(e.1)?))
}

/// Joins every service of the compose file `content` to the project
/// network `network_name`: an error when the text is not YAML; otherwise
/// the document [`injected`] gives, written back as text, or the error of
/// [`injected`] or of the writing.
pub fn inject_project_network(content: &str, network_name: &str) -> (r: Result<String, String>)
    ensures
        yaml_parse(content@) is None ==> (r matches Err(m) && crate::text::starts_with(m@, invalid_prefix())),
        yaml_parse(content@) matches Some(d) ==> match injected(d, network_name@) {
            Err(e) => r matches Err(m) && m@ == e,
            Ok(d2) => match yaml_render(d2) {
                Some(t) => r matches Ok(s) && s@ == t,
                None => r matches Err(m) && crate::text::starts_with(m@, render_prefix()),
            },
        },
{
    let doc = match read_compose(content) {
        Ok(d) => d,
        Err(e) => return Err(e),
    };
    let out = match inject_project_network_doc(doc, network_name) {
        Ok(d) => d,
        Err(e) => return Err(e),
    };
    match render_compose(out) {
        Ok(t) => Ok(t),
        Err(e) => {
            let mut m = String::new();
            push_str(&mut m, "falha ao serializar compose YAML: ");
            push_str(&mut m, e.as_str());
            proof {
                reveal_strlit("falha ao serializar compose YAML: ");
                assert(m@.take(render_prefix().len() as int) =~= render_prefix());
            }
            Err(m)
        },
    }
}

/// The external volumes a compose file names (see [`external_volumes`]): an
/// error when the text is not YAML.
pub fn external_volumes_of(content: &str) -> (r: Result<Vec<String>, String>)
    ensures
        yaml_parse(content@) is None ==> (r matches Err(m) && crate::text::starts_with(m@, invalid_prefix())),
        yaml_parse(content@) matches Some(d) ==> (r matches Ok(v) && views(v@) == external_volumes(d)),
{
    match read_compose(content) {
        Ok(d) => Ok(external_volume_names(&d)),
        Err(e) => Err(e),
    }
}

} // verus!
