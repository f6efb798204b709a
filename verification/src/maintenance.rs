//! Docker cleanups: which resources a cleanup prunes, and in which order.

use vstd::prelude::*;

verus! {

/// A kind of Docker resource a cleanup can prune.
#[derive(Clone, Copy, Debug, PartialEq, Eq, Structural)]
pub enum PruneResource {
    Containers,
    /// Unused images; all of them, not only dangling ones, when `all`.
    Images { all: bool },
    /// Unused volumes; named ones too when `all`.
    Volumes { all: bool },
    Networks,
    BuildCache,
}

/// The resources a cleanup is configured to prune.
#[derive(Clone, Copy, Debug, PartialEq, Eq, Structural)]
pub struct CleanupSelection {
    pub containers: bool,
    pub images: bool,
    pub images_all: bool,
    pub volumes: bool,
    pub volumes_all: bool,
    pub networks: bool,
    pub build_cache: bool,
}

/// `s` followed by `r` when `on`.
pub open spec fn then_if(s: Seq<PruneResource>, on: bool, r: PruneResource) -> Seq<PruneResource> {
    if on {
        s.push(r)
    } else {
        s
    }
}

/// The selected resources in pruning order: containers first (which frees
/// the images and networks they use), then images, then volumes and
/// networks, which are only unused after that, then the build cache.
pub open spec fn plan_of(c: CleanupSelection) -> Seq<PruneResource> {
    then_if(
        then_if(
            then_if(
                then_if(then_if(Seq::empty(), c.containers, PruneResource::Containers), c.images, PruneResource::Images { all: c.images_all }),
                c.volumes,
                PruneResource::Volumes { all: c.volumes_all },
            ),
            c.networks,
            PruneResource::Networks,
        ),
        c.build_cache,
        PruneResource::BuildCache,
    )
}

/// The resources a cleanup prunes, in order (see [`plan_of`]).
pub fn cleanup_plan(c: CleanupSelection) -> (r: Vec<PruneResource>)
    ensures
        r@ == plan_of(c),
{
    let mut r: Vec<PruneResource> = Vec::new();
    if c.containers {
        r.push(PruneResource::Containers);
    }
    if c.images {
        r.push(PruneResource::Images { all: c.images_all });
    }
    if c.volumes {
        r.push(PruneResource::Volumes { all: c.volumes_all });
    }
    if c.networks {
        r.push(PruneResource::Networks);
    }
    if c.build_cache {
        r.push(PruneResource::BuildCache);
    }
    r
}

/// The name a resource is reported under.
pub open spec fn resource_name(r: PruneResource) -> Seq<char> {
    match r {
        PruneResource::Containers => "containers"@,
        PruneResource::Images { .. } => "images"@,
        PruneResource::Volumes { .. } => "volumes"@,
        PruneResource::Networks => "networks"@,
        PruneResource::BuildCache => "build_cache"@,
    }
}

/// The name a resource is reported under.
pub fn name_of(r: PruneResource) -> (s: &'static str)
    ensures
        s@ == resource_name(r),
{
    match r {
        PruneResource::Containers => "containers",
        PruneResource::Images { .. } => "images",
        PruneResource::Volumes { .. } => "volumes",
        PruneResource::Networks => "networks",
        PruneResource::BuildCache => "build_cache",
    }
}

/// Position of a resource in the pruning order.
pub open spec fn rank(r: PruneResource) -> int {
    match r {
        PruneResource::Containers => 0,
        PruneResource::Images { .. } => 1,
        PruneResource::Volumes { .. } => 2,
        PruneResource::Networks => 3,
        PruneResource::BuildCache => 4,
    }
}

/// A cleanup prunes each selected kind of resource once, in the fixed
/// order: containers, images, volumes, networks, build cache.
pub proof fn lemma_plan_ordered(c: CleanupSelection)
    ensures
        forall|i: int, j: int| 0 <= i < j < plan_of(c).len() ==> rank(#[trigger] plan_of(c)[i]) < rank(
            #[trigger] plan_of(c)[j],
        ),
        c.containers <==> plan_of(c).contains(PruneResource::Containers),
        c.networks <==> plan_of(c).contains(PruneResource::Networks),
        c.build_cache <==> plan_of(c).contains(PruneResource::BuildCache),
{
    let s0: Seq<PruneResource> = Seq::empty();
    let s1 = then_if(s0, c.containers, PruneResource::Containers);
    let s2 = then_if(s1, c.images, PruneResource::Images { all: c.images_all });
    let s3 = then_if(s2, c.volumes, PruneResource::Volumes { all: c.volumes_all });
    let s4 = then_if(s3, c.networks, PruneResource::Networks);
    let s5 = then_if(s4, c.build_cache, PruneResource::BuildCache);
    assert(forall|i: int| 0 <= i < s1.len() ==> rank(#[trigger] s1[i]) < 1);
    assert(forall|i: int| 0 <= i < s2.len() ==> rank(#[trigger] s2[i]) < 2);
    assert(forall|i: int| 0 <= i < s3.len() ==> rank(#[trigger] s3[i]) < 3);
    assert(forall|i: int| 0 <= i < s4.len() ==> rank(#[trigger] s4[i]) < 4);
    assert(forall|i: int, j: int| 0 <= i < j < s1.len() ==> rank(#[trigger] s1[i]) < rank(#[trigger] s1[j]));
    assert(forall|i: int, j: int| 0 <= i < j < s2.len() ==> rank(#[trigger] s2[i]) < rank(#[trigger] s2[j]));
    assert(forall|i: int, j: int| 0 <= i < j < s3.len() ==> rank(#[trigger] s3[i]) < rank(#[trigger] s3[j]));
    assert(forall|i: int, j: int| 0 <= i < j < s4.len() ==> rank(#[trigger] s4[i]) < rank(#[trigger] s4[j]));
    assert(forall|i: int, j: int| 0 <= i < j < s5.len() ==> rank(#[trigger] s5[i]) < rank(#[trigger] s5[j]));
    if c.containers {
        assert(s5[0] == PruneResource::Containers);
    }
    if c.networks {
        assert(s4[s4.len() - 1] == PruneResource::Networks);
        assert(s5[s4.len() - 1] == PruneResource::Networks);
    }
    if c.build_cache {
        assert(s5[s5.len() - 1] == PruneResource::BuildCache);
    }
}

} // verus!
