//! The decisions that drive one bounce of the recursive tracer.
//!
//! The geometry itself is numeric and is evaluated by the caller; what is
//! decided here is whether a ray is traced at all, which sphere a ray hits
//! first, and whether a light reaches the point being shaded.

use vstd::prelude::*;

verus! {

/// The number of bounces a primary ray is traced with.
pub const MAX_DEPTH: u32 = 3;

/// The depth that the reflected ray is traced with, or `None` when the ray
/// has no bounces left and yields black.
pub open spec fn next_depth(depth: u32) -> Option<u32> {
    if depth == 0 {
        None
    } else {
        Some((depth - 1) as u32)
    }
}

/// Decides whether a ray traced with `depth` bounces left is evaluated.
/// `None` means the recursion ends here and the ray is black; `Some(d)` means
/// the ray is evaluated and its reflection is traced with `d` bounces left.
pub fn bounce_depth(depth: u32) -> (r: Option<u32>)
    ensures
        r == next_depth(depth),
        depth == 0 ==> r is None,
{
    if depth == 0 {
        None
    } else {
        Some(depth - 1)
    }
}

/// No sphere is hit: every entry is `None`.
pub open spec fn misses_all(hits: Seq<Option<u32>>) -> bool {
    forall|j: int| 0 <= j < hits.len() ==> hits[j] is None
}

/// Entry `i` is the nearest hit: it is a hit, no hit is nearer, and every
/// hit before it is strictly farther (the first of equally near hits wins).
pub open spec fn is_nearest(hits: Seq<Option<u32>>, i: int) -> bool {
    &&& 0 <= i < hits.len()
    &&& hits[i] is Some
    &&& forall|j: int| 0 <= j < hits.len() && hits[j] is Some ==> hits[i]->0 <= hits[j]->0
    &&& forall|j: int| 0 <= j < i && hits[j] is Some ==> hits[i]->0 < hits[j]->0
}

/// Picks the sphere a ray hits first.
///
/// Entry `i` of `hits` is `None` when the ray misses sphere `i`, and
/// `Some(k)` when it hits it in front of its origin, where the keys `k` order
/// the hits as their distances along the ray do. The result is the index of
/// the nearest hit (the first one among equally near hits), or `None` when
/// every sphere is missed.
pub fn nearest_hit(hits: &Vec<Option<u32>>) -> (r: Option<usize>)
    ensures
        r is None <==> misses_all(hits@),
        r matches Some(i) ==> is_nearest(hits@, i as int),
{
    let mut best: Option<usize> = None;
    let mut i: usize = 0;
    while i < hits.len()
        invariant
            i <= hits.len(),
            best is None <==> misses_all(hits@.take(i as int)),
            best matches Some(b) ==> is_nearest(hits@.take(i as int), b as int),
        decreases hits.len() - i,
    {
        if let Some(k) = hits[i] {
            match best {
                None => {
                    best = Some(i);
                },
                Some(b) => {
                    if let Some(kb) = hits[b] {
                        if k < kb {
                            best = Some(i);
                        }
                    }
                },
            }
        }
        assert(hits@.take(i + 1) =~= hits@.take(i as int).push(hits@[i as int]));
        i = i + 1;
    }
    assert(hits@.take(hits.len() as int) =~= hits@);
    best
}

/// Some sphere other than the one being shaded stands between the shaded
/// point and the light.
pub open spec fn occluded(blockers: Seq<bool>, shaded: int) -> bool {
    exists|j: int| 0 <= j < blockers.len() && j != shaded && blockers[j]
}

/// Whether the shaded point lies in the shadow of another sphere.
///
/// Entry `j` of `blockers` tells whether the shadow ray from the shaded point
/// to the light hits sphere `j` strictly between the point and the light. The
/// sphere being shaded, at index `shaded`, is excluded by its index.
pub fn in_shadow(blockers: &Vec<bool>, shaded: usize) -> (r: bool)
    ensures
        r == occluded(blockers@, shaded as int),
{
    let mut j: usize = 0;
    while j < blockers.len()
        invariant
            j <= blockers.len(),
            forall|m: int| 0 <= m < j && m != shaded ==> !blockers@[m],
        decreases blockers.len() - j,
    {
        if j != shaded && blockers[j] {
            return true;
        }
        j = j + 1;
    }
    false
}

/// A light contributes diffuse and specular light at a point when nothing
/// occludes it and it lies in front of the surface there.
pub open spec fn lights_point(blockers: Seq<bool>, shaded: int, facing: bool) -> bool {
    !occluded(blockers, shaded) && facing
}

/// Whether a light adds its diffuse and specular terms at the shaded point.
///
/// `blockers` is as for `in_shadow`; `facing` tells whether the light lies in
/// front of the surface, that is whether the cosine between the surface
/// normal and the direction to the light is positive.
pub fn light_contributes(blockers: &Vec<bool>, shaded: usize, facing: bool) -> (r: bool)
    ensures
        r == lights_point(blockers@, shaded as int, facing),
{
    facing && !in_shadow(blockers, shaded)
}

/// An occluder between the shaded point and a light removes that light's
/// contribution, whichever way the surface faces.
pub proof fn lemma_occluder_blocks_light(blockers: Seq<bool>, shaded: int, j: int, facing: bool)
    requires
        0 <= j < blockers.len(),
        j != shaded,
        blockers[j],
    ensures
        !lights_point(blockers, shaded, facing),
{
}

/// Taking away the only occluder restores the light's contribution wherever
/// the light lies in front of the surface.
pub proof fn lemma_removing_occluder_restores_light(
    blockers: Seq<bool>,
    shaded: int,
    j: int,
    facing: bool,
)
    requires
        0 <= j < blockers.len(),
        j != shaded,
        forall|m: int| 0 <= m < blockers.len() && m != shaded && m != j ==> !blockers[m],
    ensures
        lights_point(blockers.update(j, false), shaded, facing) == facing,
{
    let cleared = blockers.update(j, false);
    assert forall|m: int| 0 <= m < cleared.len() && m != shaded implies !cleared[m] by {}
}

} // verus!
