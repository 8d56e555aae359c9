//! Ordering chunk instances by their ordinals.

use vstd::prelude::*;
use crate::frame::ChunkInstance;

verus! {

/// `sorted` with `x` put behind the last instance whose ordinal is not
/// above that of `x`.
pub open spec fn insert_ordered(sorted: Seq<ChunkInstance>, x: ChunkInstance) -> Seq<ChunkInstance>
    decreases sorted.len(),
{
    if sorted.len() == 0 || sorted.last().entity <= x.entity {
        sorted.push(x)
    } else {
        insert_ordered(sorted.drop_last(), x).push(sorted.last())
    }
}

/// The first `n` instances in ascending order of their ordinals.
pub open spec fn ordered_before(instances: Seq<ChunkInstance>, n: int) -> Seq<ChunkInstance>
    decreases n,
{
    if n <= 0 {
        Seq::empty()
    } else {
        insert_ordered(ordered_before(instances, n - 1), instances[n - 1])
    }
}

/// The instances in ascending order of their ordinals. Instances with the
/// same ordinal keep the order in which they came.
pub open spec fn ordered(instances: Seq<ChunkInstance>) -> Seq<ChunkInstance> {
    ordered_before(instances, instances.len() as int)
}

/// Inserting in order is inserting at the place behind which every
/// ordinal is above the new one.
pub proof fn lemma_insert_position(sorted: Seq<ChunkInstance>, x: ChunkInstance, pos: int)
    requires
        0 <= pos <= sorted.len(),
        forall|k: int| pos <= k < sorted.len() ==> sorted[k].entity > x.entity,
        pos == 0 || sorted[pos - 1].entity <= x.entity,
    ensures
        insert_ordered(sorted, x) == sorted.insert(pos, x),
    decreases sorted.len(),
{
    if pos == sorted.len() {
        assert(sorted.push(x) =~= sorted.insert(pos, x));
    } else {
        lemma_insert_position(sorted.drop_last(), x, pos);
        assert(sorted.drop_last().insert(pos, x).push(sorted.last()) =~= sorted.insert(pos, x));
    }
}

/// The ordinals never go down along the sequence.
pub open spec fn ascending(s: Seq<ChunkInstance>) -> bool {
    forall|i: int, j: int| 0 <= i < j < s.len() ==> s[i].entity <= s[j].entity
}

/// The ordinals go up along the sequence.
pub open spec fn strictly_ascending(s: Seq<ChunkInstance>) -> bool {
    forall|i: int, j: int| 0 <= i < j < s.len() ==> s[i].entity < s[j].entity
}

/// No two instances of the sequence share an ordinal.
pub open spec fn distinct_entities(s: Seq<ChunkInstance>) -> bool {
    forall|i: int, j: int| 0 <= i < j < s.len() ==> s[i].entity != s[j].entity
}

/// The place at which inserting in order puts the new instance.
pub proof fn lemma_insert_ordered_at(sorted: Seq<ChunkInstance>, x: ChunkInstance) -> (pos: int)
    ensures
        0 <= pos <= sorted.len(),
        forall|k: int| pos <= k < sorted.len() ==> sorted[k].entity > x.entity,
        pos == 0 || sorted[pos - 1].entity <= x.entity,
        insert_ordered(sorted, x) == sorted.insert(pos, x),
    decreases sorted.len(),
{
    if sorted.len() == 0 || sorted.last().entity <= x.entity {
        let pos = sorted.len() as int;
        lemma_insert_position(sorted, x, pos);
        pos
    } else {
        let rest = sorted.drop_last();
        let pos = lemma_insert_ordered_at(rest, x);
        assert forall|k: int| pos <= k < sorted.len() implies sorted[k].entity > x.entity by {
            if k < rest.len() {
                assert(rest[k].entity > x.entity);
            }
        }
        if pos > 0 {
            assert(rest[pos - 1] == sorted[pos - 1]);
        }
        lemma_insert_position(sorted, x, pos);
        pos
    }
}

/// Inserting in order adds the new instance and nothing else.
pub proof fn lemma_insert_ordered_permutes(sorted: Seq<ChunkInstance>, x: ChunkInstance)
    ensures
        insert_ordered(sorted, x).to_multiset() == sorted.to_multiset().insert(x),
    decreases sorted.len(),
{
    broadcast use vstd::seq_lib::to_multiset_build;

    if sorted.len() == 0 || sorted.last().entity <= x.entity {
    } else {
        let rest = sorted.drop_last();
        lemma_insert_ordered_permutes(rest, x);
        assert(sorted =~= rest.push(sorted.last()));
        assert(rest.to_multiset().insert(x).insert(sorted.last()) =~= rest.to_multiset().insert(
            sorted.last(),
        ).insert(x));
    }
}

/// Ordering loses no instance and makes none up.
pub proof fn lemma_ordered_permutes(instances: Seq<ChunkInstance>)
    ensures
        ordered(instances).to_multiset() == instances.to_multiset(),
        ordered(instances).len() == instances.len(),
        forall|x: ChunkInstance| ordered(instances).contains(x) <==> instances.contains(x),
{
    lemma_ordered_before_permutes(instances, instances.len() as int);
    assert(instances.take(instances.len() as int) =~= instances);
    let out = ordered(instances);
    out.to_multiset_ensures();
    instances.to_multiset_ensures();
    assert forall|x: ChunkInstance| out.contains(x) <==> instances.contains(x) by {
        assert(out.to_multiset().count(x) == instances.to_multiset().count(x));
    }
}

/// Ordering the first `n` instances loses none of them and makes none up.
proof fn lemma_ordered_before_permutes(instances: Seq<ChunkInstance>, n: int)
    requires
        0 <= n <= instances.len(),
    ensures
        ordered_before(instances, n).to_multiset() == instances.take(n).to_multiset(),
    decreases n,
{
    broadcast use vstd::seq_lib::to_multiset_build;

    if n <= 0 {
        assert(instances.take(n) =~= ordered_before(instances, n));
    } else {
        lemma_ordered_before_permutes(instances, n - 1);
        lemma_insert_ordered_permutes(ordered_before(instances, n - 1), instances[n - 1]);
        assert(instances.take(n) =~= instances.take(n - 1).push(instances[n - 1]));
    }
}

/// Inserting in order into an ascending sequence leaves it ascending.
pub proof fn lemma_insert_ordered_ascending(sorted: Seq<ChunkInstance>, x: ChunkInstance)
    requires
        ascending(sorted),
    ensures
        ascending(insert_ordered(sorted, x)),
{
    let pos = lemma_insert_ordered_at(sorted, x);
    let out = sorted.insert(pos, x);
    assert forall|i: int, j: int| 0 <= i < j < out.len() implies out[i].entity
        <= out[j].entity by {
        if i < pos && j > pos {
            assert(sorted[i].entity <= sorted[j - 1].entity);
        } else if i < pos && j == pos {
            assert(sorted[i].entity <= sorted[pos - 1].entity);
        }
    }
}

/// The ordered sequence is ascending.
pub proof fn lemma_ordered_ascending(instances: Seq<ChunkInstance>)
    ensures
        ascending(ordered(instances)),
{
    lemma_ordered_before_ascending(instances, instances.len() as int);
}

/// The first `n` instances, ordered, are ascending.
proof fn lemma_ordered_before_ascending(instances: Seq<ChunkInstance>, n: int)
    ensures
        ascending(ordered_before(instances, n)),
    decreases n,
{
    if n > 0 {
        lemma_ordered_before_ascending(instances, n - 1);
        lemma_insert_ordered_ascending(ordered_before(instances, n - 1), instances[n - 1]);
    }
}

/// Every instance of `out` is one of the first `n` instances of `from`.
pub open spec fn drawn_from(out: Seq<ChunkInstance>, from: Seq<ChunkInstance>, n: int) -> bool {
    forall|k: int|
        0 <= k < out.len() ==> exists|i: int| 0 <= i < n && from[i] == #[trigger] out[k]
}

/// Where no two instances share an ordinal, the ordered sequence is
/// strictly ascending.
pub proof fn lemma_ordered_strictly_ascending(instances: Seq<ChunkInstance>)
    requires
        distinct_entities(instances),
    ensures
        strictly_ascending(ordered(instances)),
{
    lemma_ordered_before_strict(instances, instances.len() as int);
}

/// Where no two instances share an ordinal, the first `n` of them, ordered,
/// are strictly ascending and are instances from among those `n`.
proof fn lemma_ordered_before_strict(instances: Seq<ChunkInstance>, n: int)
    requires
        distinct_entities(instances),
        n <= instances.len(),
    ensures
        strictly_ascending(ordered_before(instances, n)),
        drawn_from(ordered_before(instances, n), instances, n),
    decreases n,
{
    if n > 0 {
        lemma_ordered_before_strict(instances, n - 1);
        let sorted = ordered_before(instances, n - 1);
        let x = instances[n - 1];
        let pos = lemma_insert_ordered_at(sorted, x);
        let out = sorted.insert(pos, x);
        assert forall|k: int| 0 <= k < sorted.len() implies sorted[k].entity != x.entity by {
            let i = choose|i: int| 0 <= i < n - 1 && instances[i] == sorted[k];
            assert(instances[i].entity != instances[n - 1].entity);
        }
        assert forall|k: int| 0 <= k < out.len() implies exists|i: int|
            0 <= i < n && instances[i] == #[trigger] out[k] by {
            if k < pos {
                let i = choose|i: int| 0 <= i < n - 1 && instances[i] == sorted[k];
                assert(instances[i] == out[k]);
            } else if k == pos {
                assert(instances[n - 1] == out[k]);
            } else {
                let i = choose|i: int| 0 <= i < n - 1 && instances[i] == sorted[k - 1];
                assert(instances[i] == out[k]);
            }
        }
        assert forall|i: int, j: int| 0 <= i < j < out.len() implies out[i].entity
            < out[j].entity by {
            if i < pos {
                assert(i == pos - 1 || sorted[i].entity < sorted[pos - 1].entity);
                assert(sorted[pos - 1].entity != x.entity);
                if j > pos {
                    assert(sorted[i].entity < sorted[j - 1].entity);
                }
            }
        }
    }
}

/// A strictly ascending sequence is determined by the set of its
/// instances.
pub proof fn lemma_strictly_ascending_unique(a: Seq<ChunkInstance>, b: Seq<ChunkInstance>)
    requires
        strictly_ascending(a),
        strictly_ascending(b),
        forall|x: ChunkInstance| a.contains(x) <==> b.contains(x),
    ensures
        a == b,
    decreases a.len(),
{
    if a.len() == 0 {
        if b.len() > 0 {
            assert(b.contains(b[0]));
        }
        assert(a =~= b);
    } else {
        assert(a.contains(a.last()));
        assert(b.contains(a.last()));
        let ja = choose|j: int| 0 <= j < b.len() && b[j] == a.last();
        assert(b.contains(b.last()));
        let jb = choose|j: int| 0 <= j < a.len() && a[j] == b.last();
        assert(a.last() == b.last());
        let a0 = a.drop_last();
        let b0 = b.drop_last();
        assert forall|x: ChunkInstance| a0.contains(x) <==> b0.contains(x) by {
            if a0.contains(x) {
                let i = choose|i: int| 0 <= i < a0.len() && a0[i] == x;
                assert(a[i] == x);
                assert(a.contains(x));
                let j = choose|j: int| 0 <= j < b.len() && b[j] == x;
                assert(b0[j] == x);
            }
            if b0.contains(x) {
                let i = choose|i: int| 0 <= i < b0.len() && b0[i] == x;
                assert(b[i] == x);
                assert(b.contains(x));
                let j = choose|j: int| 0 <= j < a.len() && a[j] == x;
                assert(a0[j] == x);
            }
        }
        lemma_strictly_ascending_unique(a0, b0);
        assert(a =~= a0.push(a.last()));
        assert(b =~= b0.push(b.last()));
    }
}

/// The ordinals of the given instances, in their order.
pub open spec fn entities_of(instances: Seq<ChunkInstance>) -> Seq<u32> {
    Seq::new(instances.len(), |i: int| instances[i].entity)
}

/// The ordinals go up along the sequence.
pub open spec fn strictly_increasing(ordinals: Seq<u32>) -> bool {
    forall|i: int, j: int| 0 <= i < j < ordinals.len() ==> ordinals[i] < ordinals[j]
}

/// A strictly increasing sequence of ordinals is determined by the set of
/// its ordinals.
pub proof fn lemma_strictly_increasing_unique(a: Seq<u32>, b: Seq<u32>)
    requires
        strictly_increasing(a),
        strictly_increasing(b),
        forall|x: u32| a.contains(x) <==> b.contains(x),
    ensures
        a == b,
    decreases a.len(),
{
    if a.len() == 0 {
        if b.len() > 0 {
            assert(b.contains(b[0]));
        }
        assert(a =~= b);
    } else {
        assert(a.contains(a.last()));
        assert(b.contains(a.last()));
        let ja = choose|j: int| 0 <= j < b.len() && b[j] == a.last();
        assert(b.contains(b.last()));
        let jb = choose|j: int| 0 <= j < a.len() && a[j] == b.last();
        assert(a.last() == b.last());
        let a0 = a.drop_last();
        let b0 = b.drop_last();
        assert forall|x: u32| a0.contains(x) <==> b0.contains(x) by {
            if a0.contains(x) {
                let i = choose|i: int| 0 <= i < a0.len() && a0[i] == x;
                assert(a[i] == x);
                assert(a.contains(x));
                let j = choose|j: int| 0 <= j < b.len() && b[j] == x;
                assert(b0[j] == x);
            }
            if b0.contains(x) {
                let i = choose|i: int| 0 <= i < b0.len() && b0[i] == x;
                assert(b[i] == x);
                assert(b.contains(x));
                let j = choose|j: int| 0 <= j < a.len() && a[j] == x;
                assert(a0[j] == x);
            }
        }
        lemma_strictly_increasing_unique(a0, b0);
        assert(a =~= a0.push(a.last()));
        assert(b =~= b0.push(b.last()));
    }
}

/// Ordering changes which ordinals there are as little as it changes
/// which instances there are.
pub proof fn lemma_ordered_entities(instances: Seq<ChunkInstance>)
    ensures
        forall|e: u32|
            entities_of(ordered(instances)).contains(e) <==> entities_of(instances).contains(e),
{
    let out = ordered(instances);
    lemma_ordered_permutes(instances);
    assert forall|e: u32| entities_of(out).contains(e) <==> entities_of(instances).contains(
        e,
    ) by {
        if entities_of(out).contains(e) {
            let k = choose|k: int| 0 <= k < entities_of(out).len() && entities_of(out)[k] == e;
            assert(out.contains(out[k]));
            assert(instances.contains(out[k]));
            let i = choose|i: int| 0 <= i < instances.len() && instances[i] == out[k];
            assert(entities_of(instances)[i] == e);
        }
        if entities_of(instances).contains(e) {
            let k = choose|k: int|
                0 <= k < entities_of(instances).len() && entities_of(instances)[k] == e;
            assert(instances.contains(instances[k]));
            assert(out.contains(instances[k]));
            let i = choose|i: int| 0 <= i < out.len() && out[i] == instances[k];
            assert(entities_of(out)[i] == e);
        }
    }
}

/// The instances with the given ordinal among the first `n` instances, in
/// their order.
pub open spec fn with_entity_before(instances: Seq<ChunkInstance>, entity: u32, n: int) -> Seq<
    ChunkInstance,
>
    decreases n,
{
    if n <= 0 {
        Seq::empty()
    } else if instances[n - 1].entity == entity {
        with_entity_before(instances, entity, n - 1).push(instances[n - 1])
    } else {
        with_entity_before(instances, entity, n - 1)
    }
}

/// The instances with the given ordinal, in their order.
pub open spec fn with_entity(instances: Seq<ChunkInstance>, entity: u32) -> Seq<ChunkInstance> {
    with_entity_before(instances, entity, instances.len() as int)
}

/// Which instances carry an ordinal among the first `n` depends on the
/// first `n` instances alone.
proof fn lemma_with_entity_before_prefix(
    a: Seq<ChunkInstance>,
    b: Seq<ChunkInstance>,
    entity: u32,
    n: int,
)
    requires
        n <= a.len(),
        n <= b.len(),
        forall|k: int| 0 <= k < n ==> a[k] == b[k],
    ensures
        with_entity_before(a, entity, n) == with_entity_before(b, entity, n),
    decreases n,
{
    if n > 0 {
        lemma_with_entity_before_prefix(a, b, entity, n - 1);
    }
}

/// Inserting in order puts the new instance behind those that share its
/// ordinal and leaves the instances of every other ordinal as they were.
pub proof fn lemma_insert_ordered_stable(sorted: Seq<ChunkInstance>, x: ChunkInstance, entity: u32)
    ensures
        with_entity(insert_ordered(sorted, x), entity) == if x.entity == entity {
            with_entity(sorted, entity).push(x)
        } else {
            with_entity(sorted, entity)
        },
    decreases sorted.len(),
{
    if sorted.len() == 0 || sorted.last().entity <= x.entity {
        lemma_with_entity_before_prefix(sorted.push(x), sorted, entity, sorted.len() as int);
    } else {
        let rest = sorted.drop_last();
        let inner = insert_ordered(rest, x);
        lemma_insert_ordered_stable(rest, x, entity);
        lemma_with_entity_before_prefix(inner.push(sorted.last()), inner, entity, inner.len() as int);
        lemma_with_entity_before_prefix(sorted, rest, entity, rest.len() as int);
    }
}

/// Ordering is stable: the instances that share an ordinal stand in the
/// ordered sequence as they stood before.
pub proof fn lemma_ordered_stable(instances: Seq<ChunkInstance>, entity: u32)
    ensures
        with_entity(ordered(instances), entity) == with_entity(instances, entity),
{
    lemma_ordered_before_stable(instances, entity, instances.len() as int);
}

/// The instances that share an ordinal stand among the first `n`, ordered,
/// as they stood among the first `n`.
proof fn lemma_ordered_before_stable(instances: Seq<ChunkInstance>, entity: u32, n: int)
    ensures
        with_entity(ordered_before(instances, n), entity) == with_entity_before(
            instances,
            entity,
            n,
        ),
    decreases n,
{
    if n > 0 {
        lemma_ordered_before_stable(instances, entity, n - 1);
        lemma_insert_ordered_stable(ordered_before(instances, n - 1), instances[n - 1], entity);
    }
}

/// Puts instances in ascending order of their ordinals, keeping the order
/// of arrival among equal ordinals.
pub fn order_by_entity(instances: &Vec<ChunkInstance>) -> (sorted: Vec<ChunkInstance>)
    ensures
        sorted@ == ordered(instances@),
        ascending(sorted@),
        sorted@.to_multiset() == instances@.to_multiset(),
{
    let mut sorted: Vec<ChunkInstance> = Vec::new();
    let mut n: usize = 0;
    while n < instances.len()
        invariant
            n <= instances@.len(),
            sorted@ == ordered_before(instances@, n as int),
        decreases instances@.len() - n,
    {
        let x = instances[n];
        let mut pos: usize = sorted.len();
        while pos > 0 && sorted[pos - 1].entity > x.entity
            invariant
                pos <= sorted@.len(),
                forall|k: int| pos <= k < sorted@.len() ==> sorted@[k].entity > x.entity,
            decreases pos,
        {
            pos -= 1;
        }
        proof {
            lemma_insert_position(sorted@, x, pos as int);
        }
        sorted.insert(pos, x);
        n += 1;
    }
    proof {
        lemma_ordered_ascending(instances@);
        lemma_ordered_permutes(instances@);
    }
    sorted
}

} // verus!
