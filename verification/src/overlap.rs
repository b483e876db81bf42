//! Grouping of charts whose depth areas overlap.
//!
//! Charts are named by their position in the list handed in. Two charts
//! overlap when both have geometry and their bounding boxes collide. Charts
//! joined by a chain of overlaps form one group.

use vstd::prelude::*;
use crate::depare::DEPARE;
use crate::extent::{collides, does_envelope_collide, get_extent_area, LayerExtent};

verus! {

/// Chart `i` exists and has geometry.
pub open spec fn is_node(extents: Seq<LayerExtent>, i: int) -> bool {
    0 <= i < extents.len() && !extents[i].is_empty()
}

/// Charts `i` and `j` are two charts with geometry whose boxes collide.
pub open spec fn overlap(extents: Seq<LayerExtent>, i: int, j: int) -> bool {
    is_node(extents, i) && is_node(extents, j) && i != j && collides(extents[i], extents[j])
}

/// Each chart of `path` overlaps the next.
pub open spec fn is_chain(extents: Seq<LayerExtent>, path: Seq<int>) -> bool {
    &&& path.len() >= 1
    &&& is_node(extents, path[0])
    &&& forall|k: int| 0 <= k < path.len() - 1 ==> overlap(extents, #[trigger] path[k], path[k + 1])
}

/// A chain of overlaps leads from chart `i` to chart `j`.
pub open spec fn connected(extents: Seq<LayerExtent>, i: int, j: int) -> bool {
    exists|path: Seq<int>| #[trigger]
        is_chain(extents, path) && path.first() == i && path.last() == j
}

/// Chart `i` is a member of `group`.
pub open spec fn in_group(group: Seq<usize>, i: int) -> bool {
    exists|m: int| 0 <= m < group.len() && #[trigger] group[m] == i
}

/// Some group holds both chart `i` and chart `j`.
pub open spec fn same_group(groups: Seq<Seq<usize>>, i: int, j: int) -> bool {
    exists|g: int| 0 <= g < groups.len() && in_group(#[trigger] groups[g], i) && in_group(groups[g], j)
}

/// The groups are well formed:
///
/// - every member is a chart with geometry, and no chart is listed twice;
/// - every group has at least two members, each joined to each by a chain
///   of overlaps;
/// - every group starts with its lowest chart, and the groups are in the
///   order of these.
pub open spec fn well_formed_groups(extents: Seq<LayerExtent>, groups: Seq<Seq<usize>>) -> bool {
    &&& forall|g: int, m: int|
        0 <= g < groups.len() && 0 <= m < groups[g].len() ==> is_node(
            extents,
            #[trigger] groups[g][m] as int,
        )
    &&& forall|g: int, m: int, h: int, k: int|
        0 <= g < groups.len() && 0 <= m < groups[g].len() && 0 <= h < groups.len() && 0 <= k
            < groups[h].len() && #[trigger] groups[g][m] == #[trigger] groups[h][k] ==> g == h && m
            == k
    &&& forall|g: int| 0 <= g < groups.len() ==> (#[trigger] groups[g]).len() >= 2
    &&& forall|g: int, a: int, b: int|
        0 <= g < groups.len() && 0 <= a < groups[g].len() && 0 <= b < groups[g].len() ==> connected(
            extents,
            #[trigger] groups[g][a] as int,
            #[trigger] groups[g][b] as int,
        )
    &&& forall|g: int, m: int|
        0 <= g < groups.len() && 1 <= m < groups[g].len() ==> groups[g][0] < #[trigger] groups[g][m]
    &&& forall|g: int, h: int|
        0 <= g < h < groups.len() ==> (#[trigger] groups[g])[0] < (#[trigger] groups[h])[0]
}

/// `groups` are the sets of overlapping charts of `extents`: they are well
/// formed, and two charts that overlap are in one group.
pub open spec fn is_grouping(extents: Seq<LayerExtent>, groups: Seq<Seq<usize>>) -> bool {
    &&& well_formed_groups(extents, groups)
    &&& forall|i: int, j: int| #[trigger] overlap(extents, i, j) ==> same_group(groups, i, j)
}

/// The member lists of a vector of groups.
pub open spec fn groups_of(cols: Seq<Vec<usize>>) -> Seq<Seq<usize>> {
    Seq::new(cols.len(), |g: int| cols[g]@)
}

/// Overlap does not depend on the order of the two charts.
pub proof fn lemma_overlap_symmetric(extents: Seq<LayerExtent>, i: int, j: int)
    ensures
        overlap(extents, i, j) == overlap(extents, j, i),
{
}

/// Every chart with geometry is connected to itself.
pub proof fn lemma_connected_reflexive(extents: Seq<LayerExtent>, i: int)
    requires
        is_node(extents, i),
    ensures
        connected(extents, i, i),
{
    let path = seq![i];
    assert(is_chain(extents, path));
    assert(path.first() == i && path.last() == i);
}

/// A chain can be followed by one more overlap.
pub proof fn lemma_connected_step(extents: Seq<LayerExtent>, i: int, j: int, k: int)
    requires
        connected(extents, i, j),
        overlap(extents, j, k),
    ensures
        connected(extents, i, k),
{
    let p = choose|p: Seq<int>| #[trigger] is_chain(extents, p) && p.first() == i && p.last() == j;
    let q = p.push(k);
    assert forall|t: int| 0 <= t < q.len() - 1 implies overlap(extents, #[trigger] q[t], q[t + 1]) by {
        if t < p.len() - 1 {
            assert(q[t] == p[t] && q[t + 1] == p[t + 1]);
        }
    }
    assert(is_chain(extents, q));
    assert(q.first() == i && q.last() == k);
}

proof fn lemma_follow_chain(extents: Seq<LayerExtent>, i: int, path: Seq<int>)
    requires
        is_chain(extents, path),
        connected(extents, i, path.first()),
    ensures
        connected(extents, i, path.last()),
    decreases path.len(),
{
    if path.len() > 1 {
        let front = path.drop_last();
        assert forall|t: int| 0 <= t < front.len() - 1 implies overlap(
            extents,
            #[trigger] front[t],
            front[t + 1],
        ) by {
            assert(front[t] == path[t] && front[t + 1] == path[t + 1]);
        }
        assert(is_chain(extents, front));
        lemma_follow_chain(extents, i, front);
        let t = path.len() - 2;
        assert(overlap(extents, path[t], path[t + 1]));
        lemma_connected_step(extents, i, front.last(), path.last());
    }
}

/// Chains can be joined end to end.
pub proof fn lemma_connected_transitive(extents: Seq<LayerExtent>, i: int, j: int, k: int)
    requires
        connected(extents, i, j),
        connected(extents, j, k),
    ensures
        connected(extents, i, k),
{
    let q = choose|q: Seq<int>| #[trigger] is_chain(extents, q) && q.first() == j && q.last() == k;
    lemma_follow_chain(extents, i, q);
}

proof fn lemma_reverse_chain(extents: Seq<LayerExtent>, path: Seq<int>)
    requires
        is_chain(extents, path),
    ensures
        connected(extents, path.last(), path.first()),
    decreases path.len(),
{
    if path.len() == 1 {
        lemma_connected_reflexive(extents, path[0]);
    } else {
        let front = path.drop_last();
        assert forall|t: int| 0 <= t < front.len() - 1 implies overlap(
            extents,
            #[trigger] front[t],
            front[t + 1],
        ) by {
            assert(front[t] == path[t] && front[t + 1] == path[t + 1]);
        }
        assert(is_chain(extents, front));
        lemma_reverse_chain(extents, front);
        let t = path.len() - 2;
        assert(overlap(extents, path[t], path[t + 1]));
        lemma_connected_reflexive(extents, path.last());
        lemma_connected_step(extents, path.last(), path.last(), front.last());
        lemma_connected_transitive(extents, path.last(), front.last(), path.first());
    }
}

/// A chain can be walked backwards.
pub proof fn lemma_connected_symmetric(extents: Seq<LayerExtent>, i: int, j: int)
    requires
        connected(extents, i, j),
    ensures
        connected(extents, j, i),
{
    let p = choose|p: Seq<int>| #[trigger] is_chain(extents, p) && p.first() == i && p.last() == j;
    lemma_reverse_chain(extents, p);
}

/// Only charts with geometry are connected to anything.
pub proof fn lemma_connected_nodes(extents: Seq<LayerExtent>, i: int, j: int)
    requires
        connected(extents, i, j),
    ensures
        is_node(extents, i),
        is_node(extents, j),
{
    let p = choose|p: Seq<int>| #[trigger] is_chain(extents, p) && p.first() == i && p.last() == j;
    if p.len() > 1 {
        let t = p.len() - 2;
        assert(overlap(extents, p[t], p[t + 1]));
    }
}

/// The number of charts not visited yet.
spec fn unvisited(checked: Seq<bool>) -> nat
    decreases checked.len(),
{
    if checked.len() == 0 {
        0
    } else {
        unvisited(checked.drop_last()) + if checked.last() {
            0nat
        } else {
            1nat
        }
    }
}

proof fn lemma_visit(checked: Seq<bool>, i: int)
    requires
        0 <= i < checked.len(),
        !checked[i],
    ensures
        unvisited(checked.update(i, true)) + 1 == unvisited(checked),
    decreases checked.len(),
{
    let updated = checked.update(i, true);
    if i == checked.len() - 1 {
        assert(updated.drop_last() =~= checked.drop_last());
    } else {
        assert(updated.drop_last() =~= checked.drop_last().update(i, true));
        lemma_visit(checked.drop_last(), i);
    }
}

/// No visited chart overlaps one that is not visited.
spec fn closed(extents: Seq<LayerExtent>, checked: Seq<bool>) -> bool {
    forall|c: int, o: int|
        0 <= c < checked.len() && checked[c] && #[trigger] overlap(extents, c, o) ==> checked[o]
}

proof fn lemma_push_member(list: Seq<usize>, x: usize)
    ensures
        forall|i: int| in_group(list.push(x), i) <==> (in_group(list, i) || x == i),
        list.no_duplicates() && !in_group(list, x as int) ==> list.push(x).no_duplicates(),
{
    let longer = list.push(x);
    assert forall|i: int| in_group(longer, i) <==> (in_group(list, i) || x == i) by {
        if in_group(longer, i) {
            let m = choose|m: int| 0 <= m < longer.len() && #[trigger] longer[m] == i;
            if m < list.len() {
                assert(list[m] == i);
            }
        }
        if in_group(list, i) {
            let m = choose|m: int| 0 <= m < list.len() && #[trigger] list[m] == i;
            assert(longer[m] == i);
        }
        if x == i {
            assert(longer[list.len() as int] == i);
        }
    }
    if list.no_duplicates() && !in_group(list, x as int) {
        assert forall|a: int, b: int|
            0 <= a < longer.len() && 0 <= b < longer.len() && a != b implies longer[a]
            != longer[b] by {
            if a < list.len() {
                assert(list[a] == longer[a]);
            }
            if b < list.len() {
                assert(list[b] == longer[b]);
            }
        }
    }
}

proof fn lemma_pop_member(list: Seq<usize>)
    requires
        list.len() > 0,
    ensures
        forall|i: int| in_group(list, i) <==> (in_group(list.drop_last(), i) || list.last() == i),
        list.no_duplicates() ==> list.drop_last().no_duplicates() && !in_group(
            list.drop_last(),
            list.last() as int,
        ),
{
    let shorter = list.drop_last();
    assert(shorter.push(list.last()) =~= list);
    lemma_push_member(shorter, list.last());
    if list.no_duplicates() {
        assert forall|a: int, b: int|
            0 <= a < shorter.len() && 0 <= b < shorter.len() && a != b implies shorter[a]
            != shorter[b] by {
            assert(list[a] == shorter[a] && list[b] == shorter[b]);
        }
        if in_group(shorter, list.last() as int) {
            let m = choose|m: int| 0 <= m < shorter.len() && #[trigger] shorter[m] == list.last();
            assert(list[m] == list[list.len() - 1]);
        }
    }
}

/// Whether `x` is in `list`.
fn holds(list: &Vec<usize>, x: usize) -> (found: bool)
    ensures
        found == in_group(list@, x as int),
{
    let mut i: usize = 0;
    while i < list.len()
        invariant
            i <= list.len(),
            forall|m: int| 0 <= m < i ==> list@[m] != x,
        decreases list.len() - i,
    {
        if list[i] == x {
            return true;
        }
        i += 1;
    }
    false
}

/// Walks the charts reachable from `start` by overlaps, marking each as
/// visited, and returns those that overlap another, `start` first.
fn explore_component(extents: &Vec<LayerExtent>, checked: &mut Vec<bool>, start: usize) -> (collisions:
    Vec<usize>)
    requires
        old(checked)@.len() == extents@.len(),
        is_node(extents@, start as int),
        !old(checked)@[start as int],
        closed(extents@, old(checked)@),
    ensures
        final(checked)@.len() == extents@.len(),
        forall|c: int| 0 <= c < extents@.len() && old(checked)@[c] ==> final(checked)@[c],
        final(checked)@[start as int],
        closed(extents@, final(checked)@),
        forall|c: int|
            0 <= c < extents@.len() && #[trigger] final(checked)@[c] && !old(checked)@[c]
                ==> connected(extents@, start as int, c),
        collisions@.no_duplicates(),
        forall|m: int|
            0 <= m < collisions@.len() ==> (#[trigger] collisions@[m]) < extents@.len()
                && final(checked)@[collisions@[m] as int]
                && !old(checked)@[collisions@[m] as int],
        forall|c: int, o: int|
            0 <= c < extents@.len() && final(checked)@[c] && !old(checked)@[c] && #[trigger] overlap(
                extents@,
                c,
                o,
            ) ==> in_group(collisions@, c) && in_group(collisions@, o),
        collisions@.len() == 0 || (collisions@.len() >= 2 && collisions@[0] == start),
{
    let n = extents.len();
    let ghost before = checked@;
    let mut stack: Vec<usize> = Vec::new();
    let mut collisions: Vec<usize> = Vec::new();
    stack.push(start);
    proof {
        lemma_connected_reflexive(extents@, start as int);
        assert(stack@[0] == start);
    }
    while stack.len() >= 1
        invariant
            n == extents@.len(),
            checked@.len() == n,
            before.len() == n,
            start < n,
            closed(extents@, before),
            forall|c: int| 0 <= c < n && before[c] ==> checked@[c],
            forall|k: int|
                0 <= k < stack@.len() ==> (#[trigger] stack@[k]) < n && is_node(
                    extents@,
                    stack@[k] as int,
                ) && !checked@[stack@[k] as int] && connected(extents@, start as int, stack@[k] as int),
            stack@.no_duplicates(),
            forall|c: int|
                0 <= c < n && #[trigger] checked@[c] && !before[c] ==> connected(
                    extents@,
                    start as int,
                    c,
                ),
            forall|c: int, o: int|
                0 <= c < n && checked@[c] && !before[c] && #[trigger] overlap(extents@, c, o) ==> (
                checked@[o] || in_group(stack@, o)) && in_group(collisions@, c) && in_group(
                    collisions@,
                    o,
                ),
            collisions@.no_duplicates(),
            forall|m: int|
                0 <= m < collisions@.len() ==> (#[trigger] collisions@[m]) < n
                    && !before[collisions@[m] as int] && (checked@[collisions@[m] as int]
                    || in_group(stack@, collisions@[m] as int)),
            collisions@.len() == 0 || (collisions@.len() >= 2 && collisions@[0] == start),
            collisions@.len() == 0 ==> forall|k: int|
                0 <= k < stack@.len() ==> #[trigger] stack@[k] == start,
            checked@[start as int] || in_group(stack@, start as int),
        decreases unvisited(checked@),
    {
        let ghost full_stack = stack@;
        let cur = stack.pop().unwrap();
        proof {
            assert(stack@ =~= full_stack.drop_last());
            lemma_pop_member(full_stack);
            assert(cur == full_stack[full_stack.len() - 1]);
            assert forall|k: int| 0 <= k < stack@.len() implies (#[trigger] stack@[k]) < n
                && is_node(extents@, stack@[k] as int) && !checked@[stack@[k] as int] && connected(
                extents@,
                start as int,
                stack@[k] as int,
            ) by {
                assert(stack@[k] == full_stack[k]);
            }
            assert(collisions@.len() == 0 ==> forall|k: int|
                0 <= k < stack@.len() ==> #[trigger] stack@[k] == start) by {
                if collisions@.len() == 0 {
                    assert forall|k: int| 0 <= k < stack@.len() implies #[trigger] stack@[k]
                        == start by {
                        assert(stack@[k] == full_stack[k]);
                    }
                }
            }
        }
        let mut other: usize = 0;
        while other < n
            invariant
                n == extents@.len(),
                checked@.len() == n,
                before.len() == n,
                start < n,
                other <= n,
                cur < n,
                is_node(extents@, cur as int),
                !checked@[cur as int],
                !before[cur as int],
                connected(extents@, start as int, cur as int),
                !in_group(stack@, cur as int),
                closed(extents@, before),
                forall|c: int| 0 <= c < n && before[c] ==> checked@[c],
                forall|k: int|
                    0 <= k < stack@.len() ==> (#[trigger] stack@[k]) < n && is_node(
                        extents@,
                        stack@[k] as int,
                    ) && !checked@[stack@[k] as int] && connected(
                        extents@,
                        start as int,
                        stack@[k] as int,
                    ),
                stack@.no_duplicates(),
                forall|c: int|
                    0 <= c < n && #[trigger] checked@[c] && !before[c] ==> connected(
                        extents@,
                        start as int,
                        c,
                    ),
                forall|c: int, o: int|
                    0 <= c < n && checked@[c] && !before[c] && #[trigger] overlap(extents@, c, o)
                        ==> (checked@[o] || in_group(stack@, o) || o == cur) && in_group(
                        collisions@,
                        c,
                    ) && in_group(collisions@, o),
                collisions@.no_duplicates(),
                forall|m: int|
                    0 <= m < collisions@.len() ==> (#[trigger] collisions@[m]) < n
                        && !before[collisions@[m] as int] && (checked@[collisions@[m] as int]
                        || in_group(stack@, collisions@[m] as int) || collisions@[m] == cur),
                collisions@.len() == 0 || (collisions@.len() >= 2 && collisions@[0] == start),
                collisions@.len() == 0 ==> cur == start && forall|k: int|
                    0 <= k < stack@.len() ==> #[trigger] stack@[k] == start,
                checked@[start as int] || in_group(stack@, start as int) || cur == start,
                forall|o: int|
                    0 <= o < other && !checked@[o] && #[trigger] overlap(extents@, cur as int, o)
                        ==> in_group(stack@, o) && in_group(collisions@, cur as int) && in_group(
                        collisions@,
                        o,
                    ),
            decreases n - other,
        {
            if other != cur && !checked[other] && !extents[other].has_no_points()
                && does_envelope_collide(&extents[cur], &extents[other]) {
                assert(overlap(extents@, cur as int, other as int));
                if !holds(&collisions, cur) {
                    proof {
                        lemma_push_member(collisions@, cur);
                    }
                    collisions.push(cur);
                }
                if !holds(&collisions, other) {
                    proof {
                        lemma_push_member(collisions@, other);
                    }
                    collisions.push(other);
                }
                if !holds(&stack, other) {
                    proof {
                        lemma_push_member(stack@, other);
                        lemma_connected_step(extents@, start as int, cur as int, other as int);
                    }
                    stack.push(other);
                }
            }
            other += 1;
        }
        proof {
            lemma_visit(checked@, cur as int);
            assert forall|c: int, o: int|
                0 <= c < n && (checked@.update(cur as int, true))[c] && !before[c]
                    && #[trigger] overlap(extents@, c, o) implies ((checked@.update(
                cur as int,
                true,
            ))[o] || in_group(stack@, o)) && in_group(collisions@, c) && in_group(
                collisions@,
                o,
            ) by {
                if c == cur && checked@[o] {
                    // a chart visited earlier saw `cur` when it was walked
                    assert(overlap(extents@, o, c));
                }
            }
        }
        checked.set(cur, true);
    }
    collisions
}

/// Groups the charts whose boxes collide, directly or through other charts.
///
/// The charts are visited in order. From each chart not yet visited a
/// depth-first walk over an explicit stack collects every chart that a chain
/// of collisions leads to. A walk that finds a collision yields one group; a
/// chart that collides with none is in no group. Charts without geometry are
/// left out of every test.
pub fn find_collisions(layer_map: &Vec<LayerExtent>) -> (cols: Vec<Vec<usize>>)
    ensures
        is_grouping(layer_map@, groups_of(cols@)),
{
    let n = layer_map.len();
    let mut checked: Vec<bool> = Vec::new();
    let mut i: usize = 0;
    while i < n
        invariant
            i <= n,
            checked@.len() == i,
            forall|k: int| 0 <= k < i ==> !checked@[k],
        decreases n - i,
    {
        checked.push(false);
        i += 1;
    }
    let mut cols: Vec<Vec<usize>> = Vec::new();
    let mut start: usize = 0;
    while start < n
        invariant
            n == layer_map@.len(),
            checked@.len() == n,
            start <= n,
            forall|k: int| 0 <= k < start ==> checked@[k] || layer_map@[k].is_empty(),
            closed(layer_map@, checked@),
            forall|c: int, o: int|
                0 <= c < n && checked@[c] && #[trigger] overlap(layer_map@, c, o) ==> same_group(
                    groups_of(cols@),
                    c,
                    o,
                ),
            well_formed_groups(layer_map@, groups_of(cols@)),
            forall|g: int, m: int|
                0 <= g < groups_of(cols@).len() && 0 <= m < groups_of(cols@)[g].len() ==> checked@[(
                #[trigger] groups_of(cols@)[g][m]) as int],
            forall|g: int|
                0 <= g < groups_of(cols@).len() ==> (#[trigger] groups_of(cols@)[g])[0] < start,
        decreases n - start,
    {
        if !checked[start] && !layer_map[start].has_no_points() {
            let ghost before = checked@;
            let ghost old_groups = groups_of(cols@);
            let collisions = explore_component(layer_map, &mut checked, start);
            proof {
                assert forall|g: int, m: int|
                    0 <= g < old_groups.len() && 0 <= m < old_groups[g].len() implies checked@[(
                #[trigger] old_groups[g][m]) as int] by {
                    assert(before[old_groups[g][m] as int]);
                }
            }
            if collisions.len() > 0 {
                let ghost members = collisions@;
                cols.push(collisions);
                proof {
                    let groups = groups_of(cols@);
                    let last = old_groups.len() as int;
                    assert(groups =~= old_groups.push(members));
                    assert forall|g: int, m: int|
                        0 <= g < groups.len() && 0 <= m < groups[g].len() implies is_node(
                        layer_map@,
                        #[trigger] groups[g][m] as int,
                    ) by {
                        if g == last {
                            lemma_connected_nodes(layer_map@, start as int, members[m] as int);
                        } else {
                            assert(groups[g] == old_groups[g]);
                        }
                    }
                    assert forall|g: int, m: int|
                        0 <= g < groups.len() && 0 <= m < groups[g].len() implies checked@[(
                    #[trigger] groups[g][m]) as int] && (g < last ==> before[groups[g][m] as int])
                        && (g == last ==> !before[groups[g][m] as int]) by {
                        if g < last {
                            assert(groups[g] == old_groups[g]);
                            assert(before[old_groups[g][m] as int]);
                        }
                    }
                    assert forall|g: int, m: int, h: int, k: int|
                        0 <= g < groups.len() && 0 <= m < groups[g].len() && 0 <= h < groups.len()
                            && 0 <= k < groups[h].len() && #[trigger] groups[g][m]
                            == #[trigger] groups[h][k] implies g == h && m == k by {
                        if g < last && h < last {
                            assert(groups[g] == old_groups[g] && groups[h] == old_groups[h]);
                        }
                    }
                    assert forall|g: int| 0 <= g < groups.len() implies (#[trigger] groups[g]).len()
                        >= 2 by {
                        if g < last {
                            assert(groups[g] == old_groups[g]);
                        }
                    }
                    assert forall|g: int, a: int, b: int|
                        0 <= g < groups.len() && 0 <= a < groups[g].len() && 0 <= b
                            < groups[g].len() implies connected(
                        layer_map@,
                        #[trigger] groups[g][a] as int,
                        #[trigger] groups[g][b] as int,
                    ) by {
                        if g < last {
                            assert(groups[g] == old_groups[g]);
                        } else {
                            let x = members[a] as int;
                            let y = members[b] as int;
                            lemma_connected_symmetric(layer_map@, start as int, x);
                            lemma_connected_transitive(layer_map@, x, start as int, y);
                        }
                    }
                    assert forall|g: int, m: int|
                        0 <= g < groups.len() && 1 <= m < groups[g].len() implies groups[g][0]
                        < #[trigger] groups[g][m] by {
                        if g < last {
                            assert(groups[g] == old_groups[g]);
                        } else {
                            assert(members[0] == start);
                            assert(members[m] != members[0]);
                            assert(!before[members[m] as int]);
                            lemma_connected_nodes(layer_map@, start as int, members[m] as int);
                        }
                    }
                    assert forall|g: int, h: int| 0 <= g < h < groups.len() implies (
                    #[trigger] groups[g])[0] < (#[trigger] groups[h])[0] by {
                        assert(groups[g] == old_groups[g]);
                        assert(old_groups[g][0] < start);
                        if h < last {
                            assert(groups[h] == old_groups[h]);
                        }
                    }
                    assert forall|c: int, o: int|
                        0 <= c < n && checked@[c] && #[trigger] overlap(
                            layer_map@,
                            c,
                            o,
                        ) implies same_group(groups, c, o) by {
                        if before[c] {
                            assert(same_group(old_groups, c, o));
                            let g = choose|g: int|
                                0 <= g < old_groups.len() && in_group(#[trigger] old_groups[g], c)
                                    && in_group(old_groups[g], o);
                            assert(groups[g] == old_groups[g]);
                        } else {
                            assert(in_group(groups[last], c) && in_group(groups[last], o));
                        }
                    }
                }
            } else {
                proof {
                    assert forall|c: int, o: int|
                        0 <= c < n && checked@[c] && #[trigger] overlap(
                            layer_map@,
                            c,
                            o,
                        ) implies same_group(groups_of(cols@), c, o) by {
                        if !before[c] {
                            assert(in_group(collisions@, c));
                        }
                    }
                }
            }
        }
        start += 1;
    }
    proof {
        assert forall|i: int, j: int| #[trigger] overlap(layer_map@, i, j) implies same_group(
            groups_of(cols@),
            i,
            j,
        ) by {
            assert(checked@[i]);
        }
    }
    cols
}

/// In a grouping, two different charts that a chain of overlaps joins are
/// in one group.
pub proof fn lemma_grouping_joins_connected(
    extents: Seq<LayerExtent>,
    groups: Seq<Seq<usize>>,
    i: int,
    j: int,
)
    requires
        is_grouping(extents, groups),
        connected(extents, i, j),
        i != j,
    ensures
        same_group(groups, i, j),
{
    let p = choose|p: Seq<int>| #[trigger] is_chain(extents, p) && p.first() == i && p.last() == j;
    assert(p.len() >= 2);
    assert(overlap(extents, p[0], p[1]));
    assert(same_group(groups, p[0], p[1]));
    let g = choose|g: int|
        0 <= g < groups.len() && in_group(#[trigger] groups[g], p[0]) && in_group(groups[g], p[1]);
    lemma_chain_stays_in_group(extents, groups, p, g, p.len() - 1);
}

proof fn lemma_chain_stays_in_group(
    extents: Seq<LayerExtent>,
    groups: Seq<Seq<usize>>,
    path: Seq<int>,
    g: int,
    k: int,
)
    requires
        is_grouping(extents, groups),
        is_chain(extents, path),
        0 <= g < groups.len(),
        in_group(groups[g], path[0]),
        0 <= k < path.len(),
    ensures
        in_group(groups[g], path[k]),
    decreases k,
{
    if k > 0 {
        lemma_chain_stays_in_group(extents, groups, path, g, k - 1);
        assert(overlap(extents, path[k - 1], path[k]));
        assert(same_group(groups, path[k - 1], path[k]));
        let h = choose|h: int|
            0 <= h < groups.len() && in_group(#[trigger] groups[h], path[k - 1]) && in_group(
                groups[h],
                path[k],
            );
        let a = choose|a: int| 0 <= a < groups[g].len() && #[trigger] groups[g][a] == path[k - 1];
        let b = choose|b: int| 0 <= b < groups[h].len() && #[trigger] groups[h][b] == path[k - 1];
        assert(groups[g][a] == groups[h][b]);
        assert(g == h);
    }
}

/// In a grouping, a chart is a member of a group exactly when it overlaps
/// another chart.
pub proof fn lemma_grouped_iff_overlapping(extents: Seq<LayerExtent>, groups: Seq<Seq<usize>>, i: int)
    requires
        is_grouping(extents, groups),
    ensures
        (exists|g: int| 0 <= g < groups.len() && in_group(#[trigger] groups[g], i)) <==> (exists|
            j: int,
        | #[trigger] overlap(extents, i, j)),
{
    if exists|g: int| 0 <= g < groups.len() && in_group(#[trigger] groups[g], i) {
        let g = choose|g: int| 0 <= g < groups.len() && in_group(#[trigger] groups[g], i);
        let a = choose|a: int| 0 <= a < groups[g].len() && #[trigger] groups[g][a] == i;
        let b = if a == 0 {
            1int
        } else {
            0int
        };
        assert(groups[g].len() >= 2);
        assert(groups[g][a] != groups[g][b]);
        assert(connected(extents, groups[g][a] as int, groups[g][b] as int));
        let p = choose|p: Seq<int>| #[trigger]
            is_chain(extents, p) && p.first() == groups[g][a] as int && p.last()
                == groups[g][b] as int;
        assert(overlap(extents, p[0], p[1]));
    }
    if exists|j: int| #[trigger] overlap(extents, i, j) {
        let j = choose|j: int| #[trigger] overlap(extents, i, j);
        assert(same_group(groups, i, j));
    }
}

/// The area of the box of chart `i`.
pub open spec fn area_of(extents: Seq<LayerExtent>, i: usize) -> nat {
    extents[i as int].area()
}

/// `order` lists the charts of `members` for drawing: the larger box first,
/// and of two boxes of one size the one that `members` lists first.
pub open spec fn is_painter_order(extents: Seq<LayerExtent>, members: Seq<usize>, order: Seq<usize>)
    -> bool {
    &&& order.len() == members.len()
    &&& order.no_duplicates()
    &&& forall|i: int| in_group(order, i) <==> in_group(members, i)
    &&& forall|p: int, q: int|
        0 <= p < q < order.len() ==> area_of(extents, #[trigger] order[p]) >= area_of(
            extents,
            #[trigger] order[q],
        )
    &&& forall|p: int, q: int, a: int, b: int|
        0 <= p < order.len() && 0 <= q < order.len() && 0 <= a < b < members.len()
            && #[trigger] order[p] == #[trigger] members[a] && #[trigger] order[q]
            == #[trigger] members[b] && area_of(extents, members[a]) == area_of(extents, members[b])
            ==> p < q
}

/// The chart drawn last has the smallest box of its group.
pub proof fn lemma_smallest_is_drawn_last(
    extents: Seq<LayerExtent>,
    members: Seq<usize>,
    order: Seq<usize>,
)
    requires
        is_painter_order(extents, members, order),
        order.len() > 0,
    ensures
        forall|m: int|
            0 <= m < members.len() ==> area_of(extents, order.last()) <= area_of(
                extents,
                #[trigger] members[m],
            ),
{
    assert forall|m: int| 0 <= m < members.len() implies area_of(extents, order.last()) <= area_of(
        extents,
        #[trigger] members[m],
    ) by {
        assert(in_group(members, members[m] as int));
        assert(in_group(order, members[m] as int));
        let p = choose|p: int| 0 <= p < order.len() && #[trigger] order[p] == members[m];
        if p < order.len() - 1 {
            assert(area_of(extents, order[p]) >= area_of(extents, order[order.len() - 1]));
        }
    }
}

proof fn lemma_insert_keeps_order(
    extents: Seq<LayerExtent>,
    seen: Seq<usize>,
    sorted: Seq<usize>,
    x: usize,
    pos: int,
)
    requires
        is_painter_order(extents, seen, sorted),
        !in_group(seen, x as int),
        0 <= pos <= sorted.len(),
        forall|p: int| 0 <= p < pos ==> area_of(extents, #[trigger] sorted[p]) >= area_of(extents, x),
        forall|p: int|
            pos <= p < sorted.len() ==> area_of(extents, #[trigger] sorted[p]) < area_of(extents, x),
    ensures
        is_painter_order(extents, seen.push(x), sorted.insert(pos, x)),
{
    let longer = sorted.insert(pos, x);
    let grown = seen.push(x);
    let area = area_of(extents, x);
    assert(longer.len() == sorted.len() + 1);
    assert(longer[pos] == x);
    assert forall|p: int| 0 <= p < pos implies longer[p] == sorted[p] by {}
    assert forall|p: int| pos < p < longer.len() implies longer[p] == sorted[p - 1] by {}
    lemma_push_member(seen, x);
    assert forall|k: int| in_group(longer, k) <==> in_group(grown, k) by {
        if in_group(longer, k) {
            let p = choose|p: int| 0 <= p < longer.len() && #[trigger] longer[p] == k;
            if p < pos {
                assert(sorted[p] == k);
                assert(in_group(sorted, k));
            } else if p > pos {
                assert(sorted[p - 1] == k);
                assert(in_group(sorted, k));
            }
        }
        if in_group(grown, k) {
            if x == k {
                assert(longer[pos] == k);
            } else {
                assert(in_group(seen, k));
                assert(in_group(sorted, k));
                let p = choose|p: int| 0 <= p < sorted.len() && #[trigger] sorted[p] == k;
                if p < pos {
                    assert(longer[p] == k);
                } else {
                    assert(longer[p + 1] == k);
                }
            }
        }
    }
    assert forall|p: int| 0 <= p < sorted.len() implies #[trigger] sorted[p] != x by {
        assert(in_group(sorted, sorted[p] as int));
    }
    assert(longer.no_duplicates()) by {
        assert forall|a: int, b: int|
            0 <= a < longer.len() && 0 <= b < longer.len() && a != b implies longer[a]
            != longer[b] by {
            let sa = if a < pos {
                a
            } else {
                a - 1
            };
            let sb = if b < pos {
                b
            } else {
                b - 1
            };
            if a != pos && b != pos {
                assert(longer[a] == sorted[sa] && longer[b] == sorted[sb]);
                assert(sorted[sa] != sorted[sb]);
            } else if a == pos {
                assert(longer[b] == sorted[sb]);
            } else {
                assert(longer[a] == sorted[sa]);
            }
        }
    }
    assert forall|p: int, q: int| 0 <= p < q < longer.len() implies area_of(
        extents,
        #[trigger] longer[p],
    ) >= area_of(extents, #[trigger] longer[q]) by {
        if q < pos {
            assert(area_of(extents, sorted[p]) >= area_of(extents, sorted[q]));
        } else if q == pos {
            assert(area_of(extents, sorted[p]) >= area);
        } else if p == pos {
            assert(area_of(extents, sorted[q - 1]) < area);
        } else if p < pos {
            assert(area_of(extents, sorted[p]) >= area);
            assert(area_of(extents, sorted[q - 1]) < area);
        } else {
            assert(area_of(extents, sorted[p - 1]) >= area_of(extents, sorted[q - 1]));
        }
    }
    assert forall|p: int, q: int, a: int, b: int|
        0 <= p < longer.len() && 0 <= q < longer.len() && 0 <= a < b < grown.len()
            && #[trigger] longer[p] == #[trigger] grown[a] && #[trigger] longer[q]
            == #[trigger] grown[b] && area_of(extents, grown[a]) == area_of(
            extents,
            grown[b],
        ) implies p < q by {
        let sp = if p < pos {
            p
        } else {
            p - 1
        };
        let sq = if q < pos {
            q
        } else {
            q - 1
        };
        if b < seen.len() {
            assert(seen[a] == grown[a] && seen[b] == grown[b]);
            assert(in_group(seen, seen[a] as int) && in_group(seen, seen[b] as int));
            assert(p != pos);
            assert(q != pos);
            assert(sorted[sp] == seen[a] && sorted[sq] == seen[b]);
            assert(sp < sq);
        } else {
            assert(grown[b] == x);
            assert(seen[a] == grown[a]);
            assert(in_group(seen, seen[a] as int));
            assert(q == pos);
            assert(p != pos);
            assert(sorted[sp] == grown[a]);
            assert(area_of(extents, sorted[sp]) == area);
        }
    }
}

/// Orders the charts of a group for drawing: by the area of their boxes,
/// largest first, charts with boxes of one size in the order given.
pub fn sort_by_area_descending(extents: &Vec<LayerExtent>, members: &Vec<usize>) -> (order: Vec<
    usize,
>)
    requires
        members@.no_duplicates(),
        forall|m: int| 0 <= m < members@.len() ==> (#[trigger] members@[m]) < extents@.len(),
    ensures
        is_painter_order(extents@, members@, order@),
{
    let mut order: Vec<usize> = Vec::new();
    let mut i: usize = 0;
    while i < members.len()
        invariant
            i <= members.len(),
            members@.no_duplicates(),
            forall|m: int| 0 <= m < members@.len() ==> (#[trigger] members@[m]) < extents@.len(),
            is_painter_order(extents@, members@.take(i as int), order@),
        decreases members.len() - i,
    {
        let x = members[i];
        let area = get_extent_area(&extents[x]);
        let ghost seen = members@.take(i as int);
        let ghost sorted = order@;
        proof {
            assert forall|p: int| 0 <= p < sorted.len() implies (#[trigger] sorted[p])
                < extents@.len() && sorted[p] != x by {
                assert(in_group(sorted, sorted[p] as int));
                assert(in_group(seen, sorted[p] as int));
                let a = choose|a: int| 0 <= a < seen.len() && #[trigger] seen[a] == sorted[p];
                assert(members@[a] == seen[a]);
            }
        }
        let mut pos: usize = order.len();
        while pos > 0 && get_extent_area(&extents[order[pos - 1]]) < area
            invariant
                pos <= order@.len(),
                order@ == sorted,
                x < extents@.len(),
                area == area_of(extents@, x),
                forall|p: int| 0 <= p < sorted.len() ==> (#[trigger] sorted[p]) < extents@.len(),
                forall|p: int|
                    pos <= p < sorted.len() ==> area_of(extents@, #[trigger] sorted[p]) < area,
            decreases pos,
        {
            pos -= 1;
        }
        proof {
            assert forall|p: int| 0 <= p < pos implies area_of(extents@, #[trigger] sorted[p])
                >= area by {
                if p < pos - 1 {
                    assert(area_of(extents@, sorted[p]) >= area_of(extents@, sorted[pos - 1]));
                }
            }
            assert(members@.take(i + 1) =~= seen.push(x));
            assert(!in_group(seen, x as int)) by {
                if in_group(seen, x as int) {
                    let a = choose|a: int| 0 <= a < seen.len() && #[trigger] seen[a] == x;
                    assert(members@[a] == members@[i as int]);
                }
            }
            lemma_insert_keeps_order(extents@, seen, sorted, x, pos as int);
        }
        order.insert(pos, x);
        i += 1;
    }
    proof {
        assert(members@.take(i as int) =~= members@);
    }
    order
}

/// Chart `i` has geometry and overlaps no other chart.
pub open spec fn is_free(extents: Seq<LayerExtent>, i: int) -> bool {
    is_node(extents, i) && forall|j: int| !#[trigger] overlap(extents, i, j)
}

/// The free charts among the first `n`, in order.
pub open spec fn free_charts(extents: Seq<LayerExtent>, n: int) -> Seq<usize>
    decreases n,
{
    if n <= 0 {
        Seq::empty()
    } else if is_free(extents, n - 1) {
        free_charts(extents, n - 1).push((n - 1) as usize)
    } else {
        free_charts(extents, n - 1)
    }
}

/// The list of free charts holds exactly the free charts, in rising order.
pub proof fn lemma_free_charts_members(extents: Seq<LayerExtent>, n: int)
    requires
        0 <= n <= extents.len() <= usize::MAX,
    ensures
        forall|i: int| in_group(free_charts(extents, n), i) <==> (0 <= i < n && is_free(extents, i)),
        forall|a: int, b: int|
            0 <= a < b < free_charts(extents, n).len() ==> free_charts(extents, n)[a] < free_charts(
                extents,
                n,
            )[b],
        forall|a: int| 0 <= a < free_charts(extents, n).len() ==> free_charts(extents, n)[a] < n,
    decreases n,
{
    let list = free_charts(extents, n);
    if n > 0 {
        lemma_free_charts_members(extents, n - 1);
        let shorter = free_charts(extents, n - 1);
        if is_free(extents, n - 1) {
            lemma_push_member(shorter, (n - 1) as usize);
            assert(list == shorter.push((n - 1) as usize));
            assert forall|a: int, b: int| 0 <= a < b < list.len() implies list[a] < list[b] by {
                assert(list[a] == shorter[a]);
                if b < shorter.len() {
                    assert(list[b] == shorter[b]);
                }
            }
            assert forall|a: int| 0 <= a < list.len() implies list[a] < n by {
                if a < shorter.len() {
                    assert(list[a] == shorter[a]);
                }
            }
        }
        assert forall|i: int| in_group(list, i) <==> (0 <= i < n && is_free(extents, i)) by {
            assert(in_group(shorter, i) <==> (0 <= i < n - 1 && is_free(extents, i)));
        }
    } else {
        assert forall|i: int| !in_group(list, i) by {
            if in_group(list, i) {
                let m = choose|m: int| 0 <= m < list.len() && #[trigger] list[m] == i;
            }
        }
    }
}

/// The boxes of the charts.
pub open spec fn extents_of(depare_layers: Seq<(DEPARE, String)>) -> Seq<LayerExtent> {
    Seq::new(depare_layers.len(), |i: int| depare_layers[i].0.extent)
}

/// `map` is the drawing order for the charts of `extents`: first the free
/// charts, then each group of overlapping charts, ordered for drawing.
pub open spec fn is_drawing_order(extents: Seq<LayerExtent>, map: Seq<Seq<usize>>) -> bool {
    &&& map.len() >= 1
    &&& map[0] == free_charts(extents, extents.len() as int)
    &&& exists|groups: Seq<Seq<usize>>| #[trigger]
        is_grouping(extents, groups) && groups.len() + 1 == map.len() && forall|k: int|
            0 <= k < groups.len() ==> is_painter_order(extents, #[trigger] groups[k], map[k + 1])
}

/// Decides the order in which the depth areas of the charts are drawn.
///
/// Charts are named by their position in `depare_layers`. Entry 0 of the
/// result lists the charts that have geometry and collide with no other
/// chart, in order. Each further entry is one group of charts that collide,
/// directly or through others, with the largest box first and the smallest
/// last, so that detail is drawn over the coarser chart. A chart without
/// geometry is in no entry.
pub fn get_hashmap_of_depare_layers(depare_layers: &Vec<(DEPARE, String)>) -> (map: Vec<Vec<usize>>)
    ensures
        is_drawing_order(extents_of(depare_layers@), groups_of(map@)),
        forall|g: int, p: int, q: int|
            1 <= g < map@.len() && 0 <= p < q < map@[g]@.len() ==> area_of(
                extents_of(depare_layers@),
                #[trigger] map@[g]@[p],
            ) >= area_of(extents_of(depare_layers@), #[trigger] map@[g]@[q]),
        forall|g: int, m: int|
            1 <= g < map@.len() && 0 <= m < map@[g]@.len() ==> area_of(
                extents_of(depare_layers@),
                map@[g]@.last(),
            ) <= area_of(extents_of(depare_layers@), #[trigger] map@[g]@[m]),
        forall|i: int, j: int| #[trigger]
            overlap(extents_of(depare_layers@), i, j) ==> exists|g: int|
                1 <= g < map@.len() && in_group(#[trigger] map@[g]@, i) && in_group(map@[g]@, j),
{
    let n = depare_layers.len();
    let mut extents: Vec<LayerExtent> = Vec::new();
    let mut i: usize = 0;
    while i < n
        invariant
            i <= n,
            n == depare_layers@.len(),
            extents@ == extents_of(depare_layers@).take(i as int),
        decreases n - i,
    {
        extents.push(depare_layers[i].0.extent);
        proof {
            assert(extents@ =~= extents_of(depare_layers@).take(i + 1));
        }
        i += 1;
    }
    proof {
        assert(extents@ =~= extents_of(depare_layers@));
    }
    let collisions = find_collisions(&extents);
    let ghost groups = groups_of(collisions@);
    let mut grouped: Vec<bool> = Vec::new();
    let mut i: usize = 0;
    while i < n
        invariant
            i <= n,
            grouped@.len() == i,
            forall|k: int| 0 <= k < i ==> !grouped@[k],
        decreases n - i,
    {
        grouped.push(false);
        i += 1;
    }
    let mut g: usize = 0;
    while g < collisions.len()
        invariant
            g <= collisions.len(),
            n == extents@.len(),
            grouped@.len() == n,
            groups == groups_of(collisions@),
            is_grouping(extents@, groups),
            forall|k: int|
                0 <= k < n ==> (#[trigger] grouped@[k] <==> exists|h: int|
                    0 <= h < g && in_group(#[trigger] groups[h], k)),
        decreases collisions.len() - g,
    {
        let group = &collisions[g];
        let mut m: usize = 0;
        while m < group.len()
            invariant
                m <= group.len(),
                g < collisions.len(),
                group@ == groups[g as int],
                n == extents@.len(),
                grouped@.len() == n,
                groups == groups_of(collisions@),
                is_grouping(extents@, groups),
                forall|k: int|
                    0 <= k < n ==> (#[trigger] grouped@[k] <==> ((exists|h: int|
                        0 <= h < g && in_group(#[trigger] groups[h], k)) || exists|a: int|
                        0 <= a < m && #[trigger] group@[a] == k)),
            decreases group.len() - m,
        {
            assert(is_node(extents@, groups[g as int][m as int] as int));
            grouped.set(group[m], true);
            m += 1;
        }
        proof {
            assert forall|k: int| 0 <= k < n implies (#[trigger] grouped@[k] <==> exists|h: int|
                0 <= h < g + 1 && in_group(#[trigger] groups[h], k)) by {
                if grouped@[k] {
                    if exists|h: int| 0 <= h < g && in_group(#[trigger] groups[h], k) {
                        let h = choose|h: int| 0 <= h < g && in_group(#[trigger] groups[h], k);
                        assert(0 <= h < g + 1 && in_group(groups[h], k));
                    } else {
                        assert(in_group(groups[g as int], k));
                    }
                }
                if exists|h: int| 0 <= h < g + 1 && in_group(#[trigger] groups[h], k) {
                    let h = choose|h: int| 0 <= h < g + 1 && in_group(#[trigger] groups[h], k);
                    if h == g {
                        let a = choose|a: int|
                            0 <= a < groups[h].len() && #[trigger] groups[h][a] == k;
                        assert(group@[a] == k);
                    }
                }
            }
        }
        g += 1;
    }
    let mut collision_free_vec: Vec<usize> = Vec::new();
    let mut i: usize = 0;
    while i < n
        invariant
            i <= n,
            n == extents@.len(),
            grouped@.len() == n,
            is_grouping(extents@, groups),
            forall|k: int|
                0 <= k < n ==> (#[trigger] grouped@[k] <==> exists|h: int|
                    0 <= h < groups.len() && in_group(#[trigger] groups[h], k)),
            collision_free_vec@ == free_charts(extents@, i as int),
        decreases n - i,
    {
        proof {
            lemma_grouped_iff_overlapping(extents@, groups, i as int);
        }
        if !grouped[i] && !extents[i].has_no_points() {
            collision_free_vec.push(i);
        }
        i += 1;
    }
    let mut map: Vec<Vec<usize>> = Vec::new();
    map.push(collision_free_vec);
    let mut g: usize = 0;
    while g < collisions.len()
        invariant
            g <= collisions.len(),
            groups == groups_of(collisions@),
            is_grouping(extents@, groups),
            map@.len() == g + 1,
            map@[0]@ == free_charts(extents@, extents@.len() as int),
            forall|k: int|
                0 <= k < g ==> is_painter_order(extents@, #[trigger] groups[k], map@[k + 1]@),
        decreases collisions.len() - g,
    {
        proof {
            let members = groups[g as int];
            assert(members == collisions@[g as int]@);
            assert forall|a: int, b: int|
                0 <= a < members.len() && 0 <= b < members.len() && a != b implies members[a]
                != members[b] by {
                assert(groups[g as int][a] == members[a] && groups[g as int][b] == members[b]);
            }
            assert forall|m: int| 0 <= m < members.len() implies (#[trigger] members[m])
                < extents@.len() by {
                assert(is_node(extents@, groups[g as int][m] as int));
            }
        }
        let sort_vec = sort_by_area_descending(&extents, &collisions[g]);
        map.push(sort_vec);
        g += 1;
    }
    proof {
        let shown = groups_of(map@);
        assert(shown[0] == map@[0]@);
        assert forall|k: int| 0 <= k < groups.len() implies is_painter_order(
            extents@,
            #[trigger] groups[k],
            shown[k + 1],
        ) by {
            assert(shown[k + 1] == map@[k + 1]@);
        }
        assert(is_grouping(extents@, groups) && groups.len() + 1 == shown.len());
        assert forall|g: int, p: int, q: int|
            1 <= g < map@.len() && 0 <= p < q < map@[g]@.len() implies area_of(
            extents@,
            #[trigger] map@[g]@[p],
        ) >= area_of(extents@, #[trigger] map@[g]@[q]) by {
            assert(is_painter_order(extents@, groups[g - 1], map@[g]@));
        }
        assert forall|i: int, j: int| #[trigger] overlap(extents@, i, j) implies exists|g: int|
            1 <= g < map@.len() && in_group(#[trigger] map@[g]@, i) && in_group(map@[g]@, j) by {
            assert(same_group(groups, i, j));
            let h = choose|h: int|
                0 <= h < groups.len() && in_group(#[trigger] groups[h], i) && in_group(groups[h], j);
            assert(is_painter_order(extents@, groups[h], map@[h + 1]@));
            assert(in_group(map@[h + 1]@, i) && in_group(map@[h + 1]@, j));
        }
        assert forall|g: int, m: int| 1 <= g < map@.len() && 0 <= m < map@[g]@.len() implies area_of(
            extents@,
            map@[g]@.last(),
        ) <= area_of(extents@, #[trigger] map@[g]@[m]) by {
            let order = map@[g]@;
            assert(is_painter_order(extents@, groups[g - 1], order));
            if m < order.len() - 1 {
                assert(area_of(extents@, order[m]) >= area_of(extents@, order[order.len() - 1]));
            }
        }
    }
    map
}

} // verus!
