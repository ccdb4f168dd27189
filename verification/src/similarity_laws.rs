//! What holds of every similarity table: every group has an entry, and where
//! no two groups share an identifier, no group is listed as similar to itself.
use crate::experiment_grouping::{
    entry_index, is_similar, similar_to, similarity_table, with_similar, SimilarView,
};
use crate::models::GroupView;
use crate::parameter_value::ToleranceConfig;
use vstd::prelude::*;

verus! {

/// Whether no two groups have the same identifier.
pub open spec fn distinct_ids(groups: Seq<GroupView>) -> bool {
    forall|i: int, j: int|
        0 <= i < j < groups.len() ==> (#[trigger] groups[i]).group_id != (
        #[trigger] groups[j]).group_id
}

/// An identifier that no other group among the first `n` has is not among the
/// identifiers that are similar to group `i`.
pub proof fn lemma_similar_to_excludes(
    groups: Seq<GroupView>,
    tol: ToleranceConfig,
    threshold: usize,
    i: int,
    n: int,
    id: Seq<char>,
)
    requires
        0 <= n <= groups.len(),
        forall|j: int| 0 <= j < n && j != i ==> (#[trigger] groups[j]).group_id != id,
    ensures
        !similar_to(groups, tol, threshold, i, n).contains(id),
    decreases n,
{
    if n > 0 {
        lemma_similar_to_excludes(groups, tol, threshold, i, n - 1, id);
        let before = similar_to(groups, tol, threshold, i, n - 1);
        let now = similar_to(groups, tol, threshold, i, n);
        if now.contains(id) {
            let x = choose|x: int| 0 <= x < now.len() && now[x] == id;
            if is_similar(groups, tol, threshold, i, n - 1) {
                if x < before.len() {
                    assert(before[x] == id);
                    assert(before.contains(id));
                } else {
                    assert(now[x] == groups[n - 1].group_id);
                }
            }
        }
    }
}

/// The index of an entry with the identifier is found at or before any entry
/// that has it.
pub proof fn lemma_entry_index_found(table: Seq<SimilarView>, id: Seq<char>, from: int, at: int)
    requires
        0 <= from <= at < table.len(),
        table[at].group_id == id,
    ensures
        from <= entry_index(table, id, from) <= at,
        table[entry_index(table, id, from)].group_id == id,
    decreases at - from,
{
    if table[from].group_id != id {
        lemma_entry_index_found(table, id, from + 1, at);
    }
}

/// Where no entry has the identifier, the index is the number of entries.
pub proof fn lemma_entry_index_absent(table: Seq<SimilarView>, id: Seq<char>, from: int)
    requires
        0 <= from <= table.len(),
        forall|e: int| from <= e < table.len() ==> (#[trigger] table[e]).group_id != id,
    ensures
        entry_index(table, id, from) == table.len(),
    decreases table.len() - from,
{
    if from < table.len() {
        lemma_entry_index_absent(table, id, from + 1);
    }
}

/// The index is an entry with the identifier, or the number of entries.
pub proof fn lemma_entry_index_range(table: Seq<SimilarView>, id: Seq<char>, from: int)
    requires
        0 <= from <= table.len(),
    ensures
        from <= entry_index(table, id, from) <= table.len(),
        entry_index(table, id, from) < table.len() ==> table[entry_index(
            table,
            id,
            from,
        )].group_id == id,
    decreases table.len() - from,
{
    if from < table.len() && table[from].group_id != id {
        lemma_entry_index_range(table, id, from + 1);
    }
}

/// Every group has an entry in the similarity table, whatever the list under
/// it holds.
pub proof fn lemma_every_group_listed(
    groups: Seq<GroupView>,
    tol: ToleranceConfig,
    threshold: usize,
    n: int,
    i: int,
)
    requires
        0 <= i < n <= groups.len(),
    ensures
        entry_index(similarity_table(groups, tol, threshold, n), groups[i].group_id, 0)
            < similarity_table(groups, tol, threshold, n).len(),
    decreases n,
{
    let before = similarity_table(groups, tol, threshold, n - 1);
    let id = groups[n - 1].group_id;
    let list = similar_to(groups, tol, threshold, n - 1, groups.len() as int);
    let now = with_similar(before, id, list);
    assert(now == similarity_table(groups, tol, threshold, n));
    lemma_entry_index_range(before, id, 0);
    let e = entry_index(before, id, 0);
    if i == n - 1 {
        if e < before.len() {
            lemma_entry_index_found(now, id, 0, e);
        } else {
            lemma_entry_index_found(now, id, 0, before.len() as int);
        }
    } else {
        lemma_every_group_listed(groups, tol, threshold, n - 1, i);
        let wanted = groups[i].group_id;
        lemma_entry_index_range(before, wanted, 0);
        let w = entry_index(before, wanted, 0);
        if e < before.len() {
            if w == e {
                assert(now[w].group_id == wanted);
            } else {
                assert(now[w] == before[w]);
            }
        } else {
            assert(now[w] == before[w]);
        }
        lemma_entry_index_found(now, wanted, 0, w);
    }
}

/// Where no two groups share an identifier, the table has one entry for each
/// group, in the order of the groups: the group's identifier and the
/// identifiers of the groups similar to it.
pub proof fn lemma_table_of_distinct(
    groups: Seq<GroupView>,
    tol: ToleranceConfig,
    threshold: usize,
    n: int,
)
    requires
        distinct_ids(groups),
        0 <= n <= groups.len(),
    ensures
        similarity_table(groups, tol, threshold, n).len() == n,
        forall|e: int|
            0 <= e < n ==> #[trigger] similarity_table(groups, tol, threshold, n)[e]
                == (SimilarView {
                group_id: groups[e].group_id,
                similar: similar_to(groups, tol, threshold, e, groups.len() as int),
            }),
    decreases n,
{
    if n > 0 {
        lemma_table_of_distinct(groups, tol, threshold, n - 1);
        let before = similarity_table(groups, tol, threshold, n - 1);
        let id = groups[n - 1].group_id;
        assert forall|e: int| 0 <= e < before.len() implies (#[trigger] before[e]).group_id
            != id by {
            assert(before[e].group_id == groups[e].group_id);
        }
        lemma_entry_index_absent(before, id, 0);
        let now = similarity_table(groups, tol, threshold, n);
        assert forall|e: int| 0 <= e < n implies #[trigger] now[e] == (SimilarView {
            group_id: groups[e].group_id,
            similar: similar_to(groups, tol, threshold, e, groups.len() as int),
        }) by {
            if e < n - 1 {
                assert(now[e] == before[e]);
            }
        }
    }
}

/// Where no two groups share an identifier, no group is listed as similar to
/// itself: the list under a group's identifier does not hold that identifier.
pub proof fn lemma_similarity_exclusion(
    groups: Seq<GroupView>,
    tol: ToleranceConfig,
    threshold: usize,
    e: int,
)
    requires
        distinct_ids(groups),
        0 <= e < groups.len(),
    ensures
        similarity_table(groups, tol, threshold, groups.len() as int).len() == groups.len(),
        similarity_table(groups, tol, threshold, groups.len() as int)[e].group_id
            == groups[e].group_id,
        !similarity_table(groups, tol, threshold, groups.len() as int)[e].similar.contains(
            groups[e].group_id,
        ),
{
    let n = groups.len() as int;
    lemma_table_of_distinct(groups, tol, threshold, n);
    assert forall|j: int| 0 <= j < n && j != e implies (#[trigger] groups[j]).group_id
        != groups[e].group_id by {
        if j < e {
            assert(groups[j].group_id != groups[e].group_id);
        } else {
            assert(groups[e].group_id != groups[j].group_id);
        }
    }
    lemma_similar_to_excludes(groups, tol, threshold, e, n, groups[e].group_id);
}

/// A group is never compared with itself: whatever the identifiers, the list
/// of a group holds one identifier for each other group that is similar to
/// it, and none for the group itself.
pub proof fn lemma_similar_to_length(
    groups: Seq<GroupView>,
    tol: ToleranceConfig,
    threshold: usize,
    i: int,
    n: int,
)
    requires
        0 <= i < groups.len(),
        0 <= n <= groups.len(),
    ensures
        similar_to(groups, tol, threshold, i, n).len() <= if i < n {
            n - 1
        } else {
            n
        },
    decreases n,
{
    if n > 0 {
        lemma_similar_to_length(groups, tol, threshold, i, n - 1);
    }
}

} // verus!
