//! What holds of every grouping: no run is lost or doubled, groups are never
//! empty, and members and groups come out in order.
use crate::attributes::{pairs_map, Pair};
use crate::experiment_grouping::{
    accepts, all_with_sorted_members, clustered, difference_count, differing_count,
    first_accepting, founded, grouped, joined, placed, with_sorted_members,
};
use crate::hashing::params_hash;
use crate::models::{by_number, by_size_descending, GroupView, VersionView};
use crate::parameter_value::{
    equal_within, lemma_equal_within_wider, tolerance_widened, ToleranceConfig, ValueView,
};
use crate::sorting::{insert_by_key, lemma_sort_by_key, ordered_by_key, sort_by_key};
use vstd::multiset::Multiset;
use vstd::prelude::*;
use vstd::seq_lib::{to_multiset_build, to_multiset_insert};

verus! {

broadcast use vstd::multiset::group_multiset_axioms;

/// The members of all groups of a list, each as often as it is a member.
pub open spec fn members_bag(groups: Seq<GroupView>) -> Multiset<VersionView>
    decreases groups.len(),
{
    if groups.len() == 0 {
        Multiset::empty()
    } else {
        members_bag(groups.drop_last()).add(groups.last().members.to_multiset())
    }
}

/// A group more adds its members.
pub proof fn lemma_bag_push(groups: Seq<GroupView>, g: GroupView)
    ensures
        members_bag(groups.push(g)) == members_bag(groups).add(g.members.to_multiset()),
{
    assert(groups.push(g).drop_last() =~= groups);
}

/// A group put in the place of another brings its members for the other's.
pub proof fn lemma_bag_update(groups: Seq<GroupView>, i: int, g: GroupView)
    requires
        0 <= i < groups.len(),
    ensures
        members_bag(groups.update(i, g)).add(groups[i].members.to_multiset()) == members_bag(
            groups,
        ).add(g.members.to_multiset()),
    decreases groups.len(),
{
    let changed = groups.update(i, g);
    let front = groups.drop_last();
    let old_members = groups[i].members.to_multiset();
    let new_members = g.members.to_multiset();
    assert(members_bag(groups) == members_bag(front).add(groups.last().members.to_multiset()));
    assert(members_bag(changed) == members_bag(changed.drop_last()).add(
        changed.last().members.to_multiset(),
    ));
    if i == groups.len() - 1 {
        assert(changed.drop_last() =~= front);
        assert(changed.last() == g);
        assert(members_bag(front).add(new_members).add(old_members) =~= members_bag(front).add(
            old_members,
        ).add(new_members));
    } else {
        lemma_bag_update(front, i, g);
        assert(changed.drop_last() =~= front.update(i, g));
        assert(changed.last() == groups.last());
        assert(front[i] == groups[i]);
        let tail = groups.last().members.to_multiset();
        let a = members_bag(front.update(i, g));
        assert(a.add(old_members) == members_bag(front).add(new_members));
        assert(a.add(tail).add(old_members) =~= a.add(old_members).add(tail));
        assert(members_bag(front).add(new_members).add(tail) =~= members_bag(front).add(tail).add(
            new_members,
        ));
    }
}

/// A sequence without items has no items as a multiset.
pub proof fn lemma_empty_bag<A>(s: Seq<A>)
    requires
        s.len() == 0,
    ensures
        s.to_multiset() == Multiset::<A>::empty(),
{
    vstd::seq_lib::to_multiset_len(s);
    vstd::multiset::lemma_multiset_empty_len(s.to_multiset());
}

/// The first accepting group is a group or the number of groups.
pub proof fn lemma_first_accepting_range(
    groups: Seq<GroupView>,
    record: Seq<Pair>,
    allow: Option<Vec<String>>,
    tol: ToleranceConfig,
    from: int,
)
    requires
        0 <= from <= groups.len(),
    ensures
        from <= first_accepting(groups, record, allow, tol, from) <= groups.len(),
    decreases groups.len() - from,
{
    if from < groups.len() {
        lemma_first_accepting_range(groups, record, allow, tol, from + 1);
    }
}

/// Placing a run adds that run to the members, once, and nothing else.
pub proof fn lemma_placed_bag(
    groups: Seq<GroupView>,
    v: VersionView,
    allow: Option<Vec<String>>,
    tol: ToleranceConfig,
)
    ensures
        members_bag(placed(groups, v, allow, tol)) == members_bag(groups).insert(v),
{
    let i = first_accepting(groups, v.hparams, allow, tol, 0);
    lemma_first_accepting_range(groups, v.hparams, allow, tol, 0);
    if i < groups.len() {
        let g = joined(groups[i], v);
        lemma_bag_update(groups, i, g);
        to_multiset_build(groups[i].members, v);
        let after = members_bag(placed(groups, v, allow, tol));
        let had = groups[i].members.to_multiset();
        assert(after.add(had) == members_bag(groups).add(had.insert(v)));
        assert forall|x: VersionView| after.count(x) == members_bag(groups).insert(v).count(x) by {
            assert(after.add(had).count(x) == after.count(x) + had.count(x));
            assert(members_bag(groups).add(had.insert(v)).count(x) == members_bag(groups).count(x)
                + had.insert(v).count(x));
        }
        assert(after =~= members_bag(groups).insert(v));
    } else {
        let g = founded(v, allow, tol);
        lemma_bag_push(groups, g);
        to_multiset_build(Seq::<VersionView>::empty(), v);
        assert(seq![v] =~= Seq::<VersionView>::empty().push(v));
        lemma_empty_bag(Seq::<VersionView>::empty());
        assert(members_bag(placed(groups, v, allow, tol)) =~= members_bag(groups).insert(v));
    }
}

/// After the last `k` runs have been placed, the members are those runs.
pub proof fn lemma_clustered_bag(
    versions: Seq<VersionView>,
    allow: Option<Vec<String>>,
    tol: ToleranceConfig,
    k: int,
)
    requires
        0 <= k <= versions.len(),
    ensures
        members_bag(clustered(versions, allow, tol, k)) == versions.subrange(
            versions.len() - k,
            versions.len() as int,
        ).to_multiset(),
    decreases k,
{
    let n = versions.len() as int;
    if k == 0 {
        lemma_empty_bag(versions.subrange(n, n));
    } else {
        lemma_clustered_bag(versions, allow, tol, k - 1);
        let rest = versions.subrange(n - k + 1, n);
        lemma_placed_bag(clustered(versions, allow, tol, k - 1), versions[n - k], allow, tol);
        to_multiset_insert(rest, 0, versions[n - k]);
        assert(rest.insert(0, versions[n - k]) =~= versions.subrange(n - k, n));
    }
}

/// Sorting the members of each group keeps the members.
pub proof fn lemma_sorted_members_bag(groups: Seq<GroupView>)
    ensures
        members_bag(all_with_sorted_members(groups)) == members_bag(groups),
    decreases groups.len(),
{
    let sorted = all_with_sorted_members(groups);
    if groups.len() > 0 {
        lemma_sorted_members_bag(groups.drop_last());
        assert(sorted.drop_last() =~= all_with_sorted_members(groups.drop_last()));
        lemma_sort_by_key(groups.last().members, by_number());
    }
}

/// Putting a group in by a key adds its members.
pub proof fn lemma_insert_group_bag(groups: Seq<GroupView>, g: GroupView, key: spec_fn(GroupView) -> int)
    ensures
        members_bag(insert_by_key(groups, g, key)) == members_bag(groups).add(
            g.members.to_multiset(),
        ),
    decreases groups.len(),
{
    if groups.len() == 0 {
        assert(seq![g] =~= groups.push(g));
        lemma_bag_push(groups, g);
    } else if key(groups.last()) <= key(g) {
        lemma_bag_push(groups, g);
    } else {
        let front = groups.drop_last();
        lemma_insert_group_bag(front, g, key);
        lemma_bag_push(insert_by_key(front, g, key), groups.last());
        assert(members_bag(insert_by_key(groups, g, key)) =~= members_bag(groups).add(
            g.members.to_multiset(),
        ));
    }
}

/// Sorting groups by a key keeps the members.
pub proof fn lemma_sort_groups_bag(groups: Seq<GroupView>, key: spec_fn(GroupView) -> int)
    ensures
        members_bag(sort_by_key(groups, key)) == members_bag(groups),
    decreases groups.len(),
{
    if groups.len() > 0 {
        lemma_sort_groups_bag(groups.drop_last(), key);
        lemma_insert_group_bag(sort_by_key(groups.drop_last(), key), groups.last(), key);
    }
}

/// Every run is a member of the groups exactly as often as it is in the list
/// of runs: a run that is in the list once is in exactly one group, once, and
/// the groups have no other members.
pub proof fn lemma_total_membership(
    versions: Seq<VersionView>,
    allow: Option<Vec<String>>,
    tol: ToleranceConfig,
)
    ensures
        members_bag(grouped(versions, allow, tol)) == versions.to_multiset(),
{
    let n = versions.len() as int;
    let raw = clustered(versions, allow, tol, n);
    lemma_clustered_bag(versions, allow, tol, n);
    assert(versions.subrange(0, n) =~= versions);
    lemma_sorted_members_bag(raw);
    lemma_sort_groups_bag(all_with_sorted_members(raw), by_size_descending());
}

/// Whether every group has a member.
pub open spec fn none_empty(groups: Seq<GroupView>) -> bool {
    forall|i: int| 0 <= i < groups.len() ==> (#[trigger] groups[i]).members.len() > 0
}

/// Placing a run leaves no group empty.
pub proof fn lemma_placed_none_empty(
    groups: Seq<GroupView>,
    v: VersionView,
    allow: Option<Vec<String>>,
    tol: ToleranceConfig,
)
    requires
        none_empty(groups),
    ensures
        none_empty(placed(groups, v, allow, tol)),
{
    let i = first_accepting(groups, v.hparams, allow, tol, 0);
    lemma_first_accepting_range(groups, v.hparams, allow, tol, 0);
    let after = placed(groups, v, allow, tol);
    assert forall|j: int| 0 <= j < after.len() implies (#[trigger] after[j]).members.len() > 0 by {
        if i < groups.len() {
            if j != i {
                assert(after[j] == groups[j]);
            }
        } else {
            if j < groups.len() {
                assert(after[j] == groups[j]);
            }
        }
    }
}

/// No group is empty after any number of runs.
pub proof fn lemma_clustered_none_empty(
    versions: Seq<VersionView>,
    allow: Option<Vec<String>>,
    tol: ToleranceConfig,
    k: int,
)
    ensures
        none_empty(clustered(versions, allow, tol, k)),
    decreases k,
{
    if 0 < k <= versions.len() {
        lemma_clustered_none_empty(versions, allow, tol, k - 1);
        lemma_placed_none_empty(
            clustered(versions, allow, tol, k - 1),
            versions[versions.len() - k],
            allow,
            tol,
        );
    }
}

/// The shape of a grouping: the groups come with the largest first, and in
/// each group the members come in the order of their numbers.
pub proof fn lemma_grouped_is_ordered(
    versions: Seq<VersionView>,
    allow: Option<Vec<String>>,
    tol: ToleranceConfig,
)
    ensures
        ordered_by_key(grouped(versions, allow, tol), by_size_descending()),
        forall|i: int|
            0 <= i < grouped(versions, allow, tol).len() ==> ordered_by_key(
                (#[trigger] grouped(versions, allow, tol)[i]).members,
                by_number(),
            ),
        forall|i: int|
            0 <= i < grouped(versions, allow, tol).len() ==> (#[trigger] grouped(
                versions,
                allow,
                tol,
            )[i]).members.len() > 0,
{
    let n = versions.len() as int;
    let raw = clustered(versions, allow, tol, n);
    let inner = all_with_sorted_members(raw);
    let result = grouped(versions, allow, tol);
    lemma_sort_by_key(inner, by_size_descending());
    lemma_clustered_none_empty(versions, allow, tol, n);
    assert forall|i: int| 0 <= i < result.len() implies ordered_by_key(
        (#[trigger] result[i]).members,
        by_number(),
    ) && result[i].members.len() > 0 by {
        // Each group of the result is one of the groups with sorted members.
        assert(result.to_multiset().count(result[i]) > 0) by {
            vstd::seq_lib::to_multiset_contains(result, result[i]);
            assert(result.contains(result[i]));
        }
        assert(inner.to_multiset().count(result[i]) > 0);
        vstd::seq_lib::to_multiset_contains(inner, result[i]);
        assert(inner.contains(result[i]));
        let j = choose|j: int| 0 <= j < inner.len() && inner[j] == result[i];
        assert(inner[j] == with_sorted_members(raw[j]));
        lemma_sort_by_key(raw[j].members, by_number());
        assert(raw[j].members.len() > 0);
    }
}

/// Under a wider tolerance no more entries differ from a mapping.
pub proof fn lemma_differing_count_wider(
    s: Seq<Pair>,
    other: Map<Seq<char>, ValueView>,
    narrow: ToleranceConfig,
    wide: ToleranceConfig,
    n: int,
)
    requires
        tolerance_widened(narrow, wide),
    ensures
        differing_count(s, other, wide, n) <= differing_count(s, other, narrow, n),
    decreases n,
{
    if 0 < n <= s.len() {
        lemma_differing_count_wider(s, other, narrow, wide, n - 1);
        let p = s[n - 1];
        if other.contains_key(p.0) && equal_within(p.1, other[p.0], narrow) {
            lemma_equal_within_wider(p.1, other[p.0], narrow, wide);
        }
    }
}

/// Under a wider tolerance two mappings differ in no more attributes.
pub proof fn lemma_difference_count_wider(
    a: Seq<Pair>,
    b: Seq<Pair>,
    narrow: ToleranceConfig,
    wide: ToleranceConfig,
)
    requires
        tolerance_widened(narrow, wide),
    ensures
        difference_count(a, b, wide) <= difference_count(a, b, narrow),
{
    lemma_differing_count_wider(a, pairs_map(b), narrow, wide, a.len() as int);
}

/// A group that takes a run under a tolerance takes it under any wider one.
pub proof fn lemma_accepts_wider(
    base: Seq<Pair>,
    record: Seq<Pair>,
    allow: Option<Vec<String>>,
    narrow: ToleranceConfig,
    wide: ToleranceConfig,
)
    requires
        accepts(base, record, allow, narrow),
        tolerance_widened(narrow, wide),
    ensures
        accepts(base, record, allow, wide),
{
    if allow is None {
        lemma_difference_count_wider(record, base, narrow, wide);
    }
}

/// Under a wider tolerance a run finds its first accepting group no later:
/// a run that joins a group joins that group or an earlier one.
pub proof fn lemma_first_accepting_wider(
    groups: Seq<GroupView>,
    record: Seq<Pair>,
    allow: Option<Vec<String>>,
    narrow: ToleranceConfig,
    wide: ToleranceConfig,
    from: int,
)
    requires
        0 <= from <= groups.len(),
        tolerance_widened(narrow, wide),
    ensures
        first_accepting(groups, record, allow, wide, from) <= first_accepting(
            groups,
            record,
            allow,
            narrow,
            from,
        ),
    decreases groups.len() - from,
{
    if from < groups.len() {
        lemma_first_accepting_range(groups, record, allow, wide, from + 1);
        lemma_first_accepting_range(groups, record, allow, narrow, from + 1);
        if accepts(groups[from].base_parameters, record, allow, narrow) {
            lemma_accepts_wider(groups[from].base_parameters, record, allow, narrow, wide);
        } else if !accepts(groups[from].base_parameters, record, allow, wide) {
            lemma_first_accepting_wider(groups, record, allow, narrow, wide, from + 1);
        }
    }
}

/// Whether each group is anchored in the run that founded it: that run is its
/// first member, its founding attributes are that run's, and its identifier is
/// their hash.
pub open spec fn all_anchored(
    groups: Seq<GroupView>,
    allow: Option<Vec<String>>,
    tol: ToleranceConfig,
) -> bool {
    forall|i: int|
        0 <= i < groups.len() ==> {
            &&& (#[trigger] groups[i]).members.len() > 0
            &&& groups[i].base_parameters == groups[i].members[0].hparams
            &&& groups[i].group_id == params_hash(groups[i].base_parameters, allow, tol)
        }
}

/// Before the members are put in order, every group is anchored in the run
/// that founded it, and runs that join later change neither its founding
/// attributes nor its identifier.
pub proof fn lemma_clustered_anchor(
    versions: Seq<VersionView>,
    allow: Option<Vec<String>>,
    tol: ToleranceConfig,
    k: int,
)
    ensures
        all_anchored(clustered(versions, allow, tol, k), allow, tol),
    decreases k,
{
    if 0 < k <= versions.len() {
        lemma_clustered_anchor(versions, allow, tol, k - 1);
        let before = clustered(versions, allow, tol, k - 1);
        let v = versions[versions.len() - k];
        let i = first_accepting(before, v.hparams, allow, tol, 0);
        lemma_first_accepting_range(before, v.hparams, allow, tol, 0);
        let after = placed(before, v, allow, tol);
        assert forall|j: int| 0 <= j < after.len() implies {
            &&& (#[trigger] after[j]).members.len() > 0
            &&& after[j].base_parameters == after[j].members[0].hparams
            &&& after[j].group_id == params_hash(after[j].base_parameters, allow, tol)
        } by {
            if i < before.len() {
                if j == i {
                    assert(after[j].members[0] == before[j].members[0]);
                } else {
                    assert(after[j] == before[j]);
                }
            } else if j < before.len() {
                assert(after[j] == before[j]);
            }
        }
    }
}

/// Whether two lists of groups hold the same runs in the same groups with the
/// same founding attributes; the identifiers may differ.
pub open spec fn same_membership(a: Seq<GroupView>, b: Seq<GroupView>) -> bool {
    &&& a.len() == b.len()
    &&& forall|i: int|
        0 <= i < a.len() ==> (#[trigger] a[i]).members == (#[trigger] b[i]).members
            && a[i].base_parameters == b[i].base_parameters
}

/// With an allow-list a group takes a run whatever the tolerance.
pub proof fn lemma_first_accepting_with_allow_list(
    a: Seq<GroupView>,
    b: Seq<GroupView>,
    record: Seq<Pair>,
    allow: Option<Vec<String>>,
    one: ToleranceConfig,
    other: ToleranceConfig,
    from: int,
)
    requires
        allow is Some,
        same_membership(a, b),
        0 <= from,
    ensures
        first_accepting(a, record, allow, one, from) == first_accepting(
            b,
            record,
            allow,
            other,
            from,
        ),
    decreases a.len() - from,
{
    if from < a.len() {
        assert(a[from].base_parameters == b[from].base_parameters);
        lemma_first_accepting_with_allow_list(a, b, record, allow, one, other, from + 1);
    }
}

/// With an allow-list the tolerance has no part in the placing of runs: under
/// any two tolerances the same runs found the same groups and join the same
/// groups. No group of one grouping is split in the other, and none is merged.
pub proof fn lemma_clustered_with_allow_list(
    versions: Seq<VersionView>,
    allow: Option<Vec<String>>,
    one: ToleranceConfig,
    other: ToleranceConfig,
    k: int,
)
    requires
        allow is Some,
    ensures
        same_membership(
            clustered(versions, allow, one, k),
            clustered(versions, allow, other, k),
        ),
    decreases k,
{
    if 0 < k <= versions.len() {
        lemma_clustered_with_allow_list(versions, allow, one, other, k - 1);
        let a = clustered(versions, allow, one, k - 1);
        let b = clustered(versions, allow, other, k - 1);
        let v = versions[versions.len() - k];
        lemma_first_accepting_with_allow_list(a, b, v.hparams, allow, one, other, 0);
        lemma_first_accepting_range(a, v.hparams, allow, one, 0);
        let i = first_accepting(a, v.hparams, allow, one, 0);
        let a2 = placed(a, v, allow, one);
        let b2 = placed(b, v, allow, other);
        assert forall|j: int| 0 <= j < a2.len() implies (#[trigger] a2[j]).members == (
        #[trigger] b2[j]).members && a2[j].base_parameters == b2[j].base_parameters by {
            if i < a.len() {
                if j != i {
                    assert(a2[j] == a[j] && b2[j] == b[j]);
                }
            } else if j < a.len() {
                assert(a2[j] == a[j] && b2[j] == b[j]);
            }
        }
    }
}

/// Putting a group in by its size puts it in the same place in two lists with
/// the same membership.
pub proof fn lemma_insert_same_membership(
    a: Seq<GroupView>,
    b: Seq<GroupView>,
    x: GroupView,
    y: GroupView,
)
    requires
        same_membership(a, b),
        x.members == y.members,
        x.base_parameters == y.base_parameters,
    ensures
        same_membership(
            insert_by_key(a, x, by_size_descending()),
            insert_by_key(b, y, by_size_descending()),
        ),
    decreases a.len(),
{
    let key = by_size_descending();
    let ra = insert_by_key(a, x, key);
    let rb = insert_by_key(b, y, key);
    if a.len() == 0 {
    } else {
        assert(a.last().members == b.last().members);
        assert(key(a.last()) == key(b.last()));
        assert(key(x) == key(y));
        if key(a.last()) <= key(x) {
            assert forall|i: int| 0 <= i < ra.len() implies (#[trigger] ra[i]).members == (
            #[trigger] rb[i]).members && ra[i].base_parameters == rb[i].base_parameters by {
                if i < a.len() {
                    assert(ra[i] == a[i] && rb[i] == b[i]);
                }
            }
        } else {
            let fa = a.drop_last();
            let fb = b.drop_last();
            assert(same_membership(fa, fb)) by {
                assert forall|i: int| 0 <= i < fa.len() implies (#[trigger] fa[i]).members == (
                #[trigger] fb[i]).members && fa[i].base_parameters == fb[i].base_parameters by {
                    assert(fa[i] == a[i] && fb[i] == b[i]);
                }
            }
            lemma_insert_same_membership(fa, fb, x, y);
            let ia = insert_by_key(fa, x, key);
            let ib = insert_by_key(fb, y, key);
            assert forall|i: int| 0 <= i < ra.len() implies (#[trigger] ra[i]).members == (
            #[trigger] rb[i]).members && ra[i].base_parameters == rb[i].base_parameters by {
                if i < ia.len() {
                    assert(ra[i] == ia[i] && rb[i] == ib[i]);
                } else {
                    assert(ra[i] == a.last() && rb[i] == b.last());
                }
            }
        }
    }
}

/// Sorting two lists with the same membership by size leaves them with the
/// same membership.
pub proof fn lemma_sort_same_membership(a: Seq<GroupView>, b: Seq<GroupView>)
    requires
        same_membership(a, b),
    ensures
        same_membership(
            sort_by_key(a, by_size_descending()),
            sort_by_key(b, by_size_descending()),
        ),
    decreases a.len(),
{
    if a.len() > 0 {
        let fa = a.drop_last();
        let fb = b.drop_last();
        assert(same_membership(fa, fb)) by {
            assert forall|i: int| 0 <= i < fa.len() implies (#[trigger] fa[i]).members == (
            #[trigger] fb[i]).members && fa[i].base_parameters == fb[i].base_parameters by {
                assert(fa[i] == a[i] && fb[i] == b[i]);
            }
        }
        lemma_sort_same_membership(fa, fb);
        assert(a.last().members == b.last().members);
        lemma_insert_same_membership(
            sort_by_key(fa, by_size_descending()),
            sort_by_key(fb, by_size_descending()),
            a.last(),
            b.last(),
        );
    }
}

/// With an allow-list, widening the tolerance, or changing it in any way,
/// leaves every group with exactly its members: the groupings under two
/// tolerances hold the same runs in the same groups, in the same order.
pub proof fn lemma_grouped_with_allow_list(
    versions: Seq<VersionView>,
    allow: Option<Vec<String>>,
    one: ToleranceConfig,
    other: ToleranceConfig,
)
    requires
        allow is Some,
    ensures
        same_membership(grouped(versions, allow, one), grouped(versions, allow, other)),
{
    let n = versions.len() as int;
    let a = clustered(versions, allow, one, n);
    let b = clustered(versions, allow, other, n);
    lemma_clustered_with_allow_list(versions, allow, one, other, n);
    let sa = all_with_sorted_members(a);
    let sb = all_with_sorted_members(b);
    assert(same_membership(sa, sb)) by {
        assert forall|i: int| 0 <= i < sa.len() implies (#[trigger] sa[i]).members == (
        #[trigger] sb[i]).members && sa[i].base_parameters == sb[i].base_parameters by {
            assert(a[i].members == b[i].members);
        }
    }
    lemma_sort_same_membership(sa, sb);
}

} // verus!
