//! Runs and groups of runs.
use crate::attributes::{AttributeMap, Pair};
use crate::config::Config;
use crate::sorting::{lemma_insert_at, sort_by_key};
use vstd::prelude::*;

verus! {

/// One run: its number, where it was found, and its attributes.
#[derive(Debug, PartialEq)]
pub struct VersionData {
    pub version_num: u32,
    pub path: String,
    pub hparams: AttributeMap,
}

/// A group of runs: its identifier, the attributes of the run that founded
/// it, and its members.
#[derive(Debug, PartialEq)]
pub struct ExperimentGroup {
    pub group_id: String,
    pub base_parameters: AttributeMap,
    pub member_versions: Vec<VersionData>,
}

/// All that a grouping pass gives: the runs, the groups, the configuration
/// they were made under, and the table of common attributes.
#[derive(Debug)]
pub struct AppState {
    pub all_versions: Vec<VersionData>,
    pub experiment_groups: Vec<ExperimentGroup>,
    pub config: Config,
    pub group_common_hparams: Vec<crate::version_list::CommonParameters>,
}

impl AppState {
    /// Every mapping of the state is well formed.
    pub open spec fn well_formed(&self) -> bool {
        &&& versions_well_formed(self.all_versions@)
        &&& groups_well_formed(self.experiment_groups@)
        &&& forall|i: int|
            0 <= i < self.group_common_hparams@.len() ==> (
            #[trigger] self.group_common_hparams@[i]).common.well_formed()
    }
}

/// What a run holds.
pub struct VersionView {
    pub version_num: u32,
    pub path: Seq<char>,
    /// The attributes, in key order.
    pub hparams: Seq<Pair>,
}

/// What a group holds.
pub struct GroupView {
    pub group_id: Seq<char>,
    /// The founding run's attributes, in key order.
    pub base_parameters: Seq<Pair>,
    pub members: Seq<VersionView>,
}

impl View for VersionData {
    type V = VersionView;

    open spec fn view(&self) -> VersionView {
        VersionView {
            version_num: self.version_num,
            path: self.path@,
            hparams: self.hparams.pairs(),
        }
    }
}

impl VersionData {
    /// The run's attribute mapping is well formed.
    pub open spec fn well_formed(&self) -> bool {
        self.hparams.well_formed()
    }
}

/// What a list of runs holds, run by run.
pub open spec fn version_views(runs: Seq<VersionData>) -> Seq<VersionView> {
    Seq::new(runs.len(), |i: int| runs[i]@)
}

/// Every run of the list is well formed.
pub open spec fn versions_well_formed(runs: Seq<VersionData>) -> bool {
    forall|i: int| 0 <= i < runs.len() ==> (#[trigger] runs[i]).well_formed()
}

impl View for ExperimentGroup {
    type V = GroupView;

    open spec fn view(&self) -> GroupView {
        GroupView {
            group_id: self.group_id@,
            base_parameters: self.base_parameters.pairs(),
            members: version_views(self.member_versions@),
        }
    }
}

impl ExperimentGroup {
    /// The group's mappings are well formed.
    pub open spec fn well_formed(&self) -> bool {
        &&& self.base_parameters.well_formed()
        &&& versions_well_formed(self.member_versions@)
    }
}

/// What a list of groups holds, group by group.
pub open spec fn group_views(groups: Seq<ExperimentGroup>) -> Seq<GroupView> {
    Seq::new(groups.len(), |i: int| groups[i]@)
}

/// Every group of the list is well formed.
pub open spec fn groups_well_formed(groups: Seq<ExperimentGroup>) -> bool {
    forall|i: int| 0 <= i < groups.len() ==> (#[trigger] groups[i]).well_formed()
}

impl Clone for VersionData {
    fn clone(&self) -> (r: Self)
        ensures
            r@ == self@,
            r.well_formed() == self.well_formed(),
    {
        VersionData {
            version_num: self.version_num,
            path: self.path.clone(),
            hparams: self.hparams.clone(),
        }
    }
}

/// The key by which runs are ordered: the run number.
pub open spec fn by_number() -> spec_fn(VersionView) -> int {
    |v: VersionView| v.version_num as int
}

/// The key by which groups are ordered: the larger group first.
pub open spec fn by_size_descending() -> spec_fn(GroupView) -> int {
    |g: GroupView| -(g.members.len() as int)
}

/// Sorts runs by their number; runs with the same number keep their order.
pub fn sort_versions(versions: &mut Vec<VersionData>)
    ensures
        version_views(final(versions)@) == sort_by_key(version_views(old(versions)@), by_number()),
        versions_well_formed(old(versions)@) ==> versions_well_formed(final(versions)@),
{
    let ghost orig = versions@;
    let ghost ov = version_views(orig);
    let ghost key = by_number();
    let n = versions.len();
    let mut i: usize = 0;
    assert(version_views(versions@).take(0) =~= sort_by_key(ov.take(0), key));
    while i < n
        invariant
            i <= n,
            n == orig.len(),
            versions.len() == n,
            ov == version_views(orig),
            key == by_number(),
            version_views(versions@).take(i as int) == sort_by_key(ov.take(i as int), key),
            forall|j: int| i <= j < n ==> versions@[j] == orig[j],
            versions_well_formed(orig) ==> versions_well_formed(versions@),
        decreases n - i,
    {
        let ghost before = versions@;
        let ghost sorted = version_views(before).take(i as int);
        let x = versions.remove(i);
        let mut p: usize = i;
        while p > 0 && versions[p - 1].version_num > x.version_num
            invariant
                p <= i,
                i < n,
                versions@ == before.remove(i as int),
                before.len() == n,
                forall|j: int| p <= j < i ==> versions@[j].version_num > x.version_num,
            decreases p,
        {
            p -= 1;
        }
        versions.insert(p, x);
        proof {
            let after = versions@;
            assert(version_views(after).take(i as int + 1) =~= sorted.insert(p as int, x@));
            assert(ov.take(i as int + 1).drop_last() =~= ov.take(i as int));
            assert(ov.take(i as int + 1).last() == x@);
            assert forall|j: int| p <= j < sorted.len() implies key(#[trigger] sorted[j]) > key(
                x@,
            ) by {
                assert(sorted[j] == before[j]@);
                assert(before.remove(i as int)[j] == before[j]);
            }
            if p > 0 {
                assert(sorted[p as int - 1] == before[p as int - 1]@);
                assert(before.remove(i as int)[p as int - 1] == before[p as int - 1]);
            }
            lemma_insert_at(sorted, x@, key, p as int);
            assert forall|j: int| i + 1 <= j < n implies after[j] == orig[j] by {
                assert(after[j] == before.remove(i as int)[j - 1]);
            }
            if versions_well_formed(orig) {
                assert forall|j: int| 0 <= j < after.len() implies (#[trigger] after[j]).well_formed() by {
                    if j < p {
                        assert(after[j] == before[j]);
                    } else if j == p {
                        assert(after[j] == before[i as int]);
                    } else if j <= i {
                        assert(after[j] == before[j - 1]);
                    } else {
                        assert(after[j] == before[j]);
                    }
                }
            }
        }
        i += 1;
    }
    assert(version_views(versions@).take(n as int) =~= version_views(versions@));
    assert(ov.take(n as int) =~= ov);
}

/// Sorts groups by their size, the largest first; groups of the same size
/// keep their order.
pub fn sort_groups(groups: &mut Vec<ExperimentGroup>)
    ensures
        group_views(final(groups)@) == sort_by_key(group_views(old(groups)@), by_size_descending()),
        groups_well_formed(old(groups)@) ==> groups_well_formed(final(groups)@),
{
    let ghost orig = groups@;
    let ghost ov = group_views(orig);
    let ghost key = by_size_descending();
    let n = groups.len();
    let mut i: usize = 0;
    assert(group_views(groups@).take(0) =~= sort_by_key(ov.take(0), key));
    while i < n
        invariant
            i <= n,
            n == orig.len(),
            groups.len() == n,
            ov == group_views(orig),
            key == by_size_descending(),
            group_views(groups@).take(i as int) == sort_by_key(ov.take(i as int), key),
            forall|j: int| i <= j < n ==> groups@[j] == orig[j],
            groups_well_formed(orig) ==> groups_well_formed(groups@),
        decreases n - i,
    {
        let ghost before = groups@;
        let ghost sorted = group_views(before).take(i as int);
        let x = groups.remove(i);
        let mut p: usize = i;
        while p > 0 && groups[p - 1].member_versions.len() < x.member_versions.len()
            invariant
                p <= i,
                i < n,
                groups@ == before.remove(i as int),
                before.len() == n,
                forall|j: int|
                    p <= j < i ==> groups@[j].member_versions@.len() < x.member_versions@.len(),
            decreases p,
        {
            p -= 1;
        }
        groups.insert(p, x);
        proof {
            let after = groups@;
            assert(group_views(after).take(i as int + 1) =~= sorted.insert(p as int, x@));
            assert(ov.take(i as int + 1).drop_last() =~= ov.take(i as int));
            assert(ov.take(i as int + 1).last() == x@);
            assert forall|j: int| p <= j < sorted.len() implies key(#[trigger] sorted[j]) > key(
                x@,
            ) by {
                assert(sorted[j] == before[j]@);
                assert(before.remove(i as int)[j] == before[j]);
            }
            if p > 0 {
                assert(sorted[p as int - 1] == before[p as int - 1]@);
                assert(before.remove(i as int)[p as int - 1] == before[p as int - 1]);
            }
            lemma_insert_at(sorted, x@, key, p as int);
            assert forall|j: int| i + 1 <= j < n implies after[j] == orig[j] by {
                assert(after[j] == before.remove(i as int)[j - 1]);
            }
            if groups_well_formed(orig) {
                assert forall|j: int| 0 <= j < after.len() implies (#[trigger] after[j]).well_formed() by {
                    if j < p {
                        assert(after[j] == before[j]);
                    } else if j == p {
                        assert(after[j] == before[i as int]);
                    } else if j <= i {
                        assert(after[j] == before[j - 1]);
                    } else {
                        assert(after[j] == before[j]);
                    }
                }
            }
        }
        i += 1;
    }
    assert(group_views(groups@).take(n as int) =~= group_views(groups@));
    assert(ov.take(n as int) =~= ov);
}

} // verus!
