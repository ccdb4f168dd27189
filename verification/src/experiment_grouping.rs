//! The grouping engine: filtering of attributes, counting of differences
//! between two attribute mappings, and what is built on them.
use crate::attributes::{
    keys_increase, lemma_key_before_all, lemma_select_below, lemma_select_map, pairs_map,
    select_pairs, AttributeMap, Pair,
};
use crate::config::Config;
use crate::file_utils::VersionError;
use crate::hashing::{compute_params_hash, params_hash};
use crate::models::{
    by_number, by_size_descending, group_views, groups_well_formed, sort_groups, sort_versions,
    version_views, versions_well_formed, ExperimentGroup, GroupView, VersionData, VersionView,
};
use crate::parameter_value::{equal_within, ToleranceConfig, ValueView};
use crate::sorting::sort_by_key;
use crate::text::{append_decimal, decimal_text, text_eq};
use vstd::prelude::*;
use vstd::string::*;

verus! {

/// Whether a list of names holds the name `k`.
pub open spec fn names_contain(names: Seq<String>, k: Seq<char>) -> bool {
    exists|i: int| 0 <= i < names.len() && (#[trigger] names[i])@ == k
}

/// Whether a list of names holds the name.
pub fn list_contains(names: &Vec<String>, name: &str) -> (r: bool)
    ensures
        r == names_contain(names@, name@),
{
    let mut i: usize = 0;
    while i < names.len()
        invariant
            i <= names.len(),
            forall|j: int| 0 <= j < i ==> (#[trigger] names[j])@ != name@,
        decreases names.len() - i,
    {
        if text_eq(names[i].as_str(), name) {
            return true;
        }
        i += 1;
    }
    false
}

/// Whether an attribute key passes the filter: it is not ignored, and it is
/// on the allow-list where there is one.
pub open spec fn is_kept(ignored: Seq<String>, allow: Option<Vec<String>>, k: Seq<char>) -> bool {
    &&& !names_contain(ignored, k)
    &&& match allow {
        Some(names) => names_contain(names@, k),
        None => true,
    }
}

/// The filter as a predicate on keys.
pub open spec fn kept_filter(ignored: Seq<String>, allow: Option<Vec<String>>) -> spec_fn(
    Seq<char>,
) -> bool {
    |k: Seq<char>| is_kept(ignored, allow, k)
}

/// The entries that pass the filter, in key order.
pub open spec fn filtered_pairs(
    s: Seq<Pair>,
    ignored: Seq<String>,
    allow: Option<Vec<String>>,
) -> Seq<Pair> {
    select_pairs(s, kept_filter(ignored, allow), s.len() as int)
}

/// Keeps the attributes that are not ignored and, where there is an
/// allow-list, are on it.
pub fn filter_parameters(
    hparams: &AttributeMap,
    ignored_params: &Vec<String>,
    grouping_params: &Option<Vec<String>>,
) -> (r: AttributeMap)
    requires
        hparams.well_formed(),
    ensures
        r.well_formed(),
        r.pairs() == filtered_pairs(hparams.pairs(), ignored_params@, *grouping_params),
        forall|k: Seq<char>|
            #[trigger] r@.contains_key(k) == (hparams@.contains_key(k) && is_kept(
                ignored_params@,
                *grouping_params,
                k,
            )),
        forall|k: Seq<char>| #[trigger] r@.contains_key(k) ==> r@[k] == hparams@[k],
{
    let ghost s = hparams.pairs();
    let ghost wanted = kept_filter(ignored_params@, *grouping_params);
    let mut out = AttributeMap::new();
    let mut i: usize = 0;
    while i < hparams.len()
        invariant
            i <= s.len(),
            s == hparams.pairs(),
            keys_increase(s),
            wanted == kept_filter(ignored_params@, *grouping_params),
            out.well_formed(),
            out.pairs() == select_pairs(s, wanted, i as int),
        decreases s.len() - i,
    {
        let key = hparams.key_at(i);
        let on_list = match grouping_params {
            Some(names) => list_contains(names, key.as_str()),
            None => true,
        };
        if on_list && !list_contains(ignored_params, key.as_str()) {
            proof {
                lemma_select_below(s, wanted, i as int, s[i as int].0);
            }
            out.push_last(key.clone(), hparams.value_at(i).clone());
        }
        i += 1;
    }
    proof {
        lemma_select_map(s, wanted, s.len() as int);
        assert forall|k: Seq<char>| #[trigger]
            out@.contains_key(k) == (hparams@.contains_key(k) && is_kept(
                ignored_params@,
                *grouping_params,
                k,
            )) by {
            lemma_key_before_all(s, k);
        }
    }
    out
}

/// Whether an entry differs from a mapping: the mapping lacks its key, or
/// holds under it a value that is not equal to the entry's within the
/// tolerance.
pub open spec fn entry_differs(
    p: Pair,
    other: Map<Seq<char>, ValueView>,
    tol: ToleranceConfig,
) -> bool {
    !other.contains_key(p.0) || !equal_within(p.1, other[p.0], tol)
}

/// How many of the first `n` entries differ from the mapping.
pub open spec fn differing_count(
    s: Seq<Pair>,
    other: Map<Seq<char>, ValueView>,
    tol: ToleranceConfig,
    n: int,
) -> nat
    decreases n,
{
    if n <= 0 || n > s.len() {
        0
    } else {
        differing_count(s, other, tol, n - 1) + if entry_differs(s[n - 1], other, tol) {
            1nat
        } else {
            0nat
        }
    }
}

/// How many of the first `n` entries have a key that the mapping lacks.
pub open spec fn absent_count(s: Seq<Pair>, other: Map<Seq<char>, ValueView>, n: int) -> nat
    decreases n,
{
    if n <= 0 || n > s.len() {
        0
    } else {
        absent_count(s, other, n - 1) + if other.contains_key(s[n - 1].0) {
            0nat
        } else {
            1nat
        }
    }
}

/// The number of attributes in which two mappings differ: those of the first
/// that the second lacks or holds with an unequal value, and those of the
/// second that the first lacks.
pub open spec fn difference_count(a: Seq<Pair>, b: Seq<Pair>, tol: ToleranceConfig) -> nat {
    differing_count(a, pairs_map(b), tol, a.len() as int) + absent_count(
        b,
        pairs_map(a),
        b.len() as int,
    )
}

/// A count held in a `usize`: the count itself, or the largest `usize` where
/// it is larger.
pub open spec fn capped(n: nat) -> usize {
    if n > usize::MAX {
        usize::MAX
    } else {
        n as usize
    }
}

/// Counts the attributes in which two mappings differ.
pub fn count_different_parameters(
    params1: &AttributeMap,
    params2: &AttributeMap,
    tolerance: &Config,
) -> (r: usize)
    requires
        params1.well_formed(),
        params2.well_formed(),
    ensures
        r == capped(difference_count(params1.pairs(), params2.pairs(), tolerance.tolerance)),
{
    let ghost a = params1.pairs();
    let ghost b = params2.pairs();
    let ghost tol = tolerance.tolerance;
    let mut count: usize = 0;
    let mut i: usize = 0;
    while i < params1.len()
        invariant
            i <= a.len(),
            a == params1.pairs(),
            b == params2.pairs(),
            tol == tolerance.tolerance,
            params2.well_formed(),
            count == capped(differing_count(a, pairs_map(b), tol, i as int)),
        decreases a.len() - i,
    {
        let differs = match params2.get(params1.key_at(i).as_str()) {
            Some(value2) => !params1.value_at(i).equals_with_tolerance(value2, &tolerance.tolerance),
            None => true,
        };
        if differs && count < usize::MAX {
            count += 1;
        }
        i += 1;
    }
    let ghost first = differing_count(a, pairs_map(b), tol, a.len() as int);
    let mut j: usize = 0;
    while j < params2.len()
        invariant
            j <= b.len(),
            a == params1.pairs(),
            b == params2.pairs(),
            params1.well_formed(),
            count == capped(first + absent_count(b, pairs_map(a), j as int)),
        decreases b.len() - j,
    {
        if !params1.contains_key(params2.key_at(j).as_str()) && count < usize::MAX {
            count += 1;
        }
        j += 1;
    }
    count
}

/// Why a grouping pass failed.
#[derive(Debug, PartialEq)]
pub enum GroupingError {
    /// The path of a run's file names no run number.
    InvalidRunPath { path: String, cause: VersionError },
    /// A run lacks an attribute that the main key names.
    MissingMainKey { version_num: u32, key: String },
}

/// The message of a failure.
pub open spec fn error_text(e: GroupingError) -> Seq<char> {
    match e {
        GroupingError::InvalidRunPath { path, cause } => (match cause {
            VersionError::NoVersionDirectory => "Failed to extract version number from path: "@,
            VersionError::NotANumber => "Failed to parse version number from path: "@,
        }) + path@,
        GroupingError::MissingMainKey { version_num, key } => "Version "@ + decimal_text(
            version_num as nat,
        ) + " is missing required main_key '"@ + key@ + "'"@,
    }
}

impl GroupingError {
    /// The message of the failure: it names the run and, where an attribute
    /// is missing, the attribute.
    pub fn message(&self) -> (r: String)
        ensures
            r@ == error_text(*self),
    {
        match self {
            GroupingError::InvalidRunPath { path, cause } => {
                let mut text = match cause {
                    VersionError::NoVersionDirectory => String::from_str(
                        "Failed to extract version number from path: ",
                    ),
                    VersionError::NotANumber => String::from_str(
                        "Failed to parse version number from path: ",
                    ),
                };
                text.append(path.as_str());
                text
            },
            GroupingError::MissingMainKey { version_num, key } => {
                let mut text = String::from_str("Version ");
                append_decimal(&mut text, *version_num as u64);
                text.append(" is missing required main_key '");
                text.append(key.as_str());
                text.append("'");
                text
            },
        }
    }
}

/// Whether a group takes a run. With an allow-list: every name on the list
/// that the group's founding attributes hold, the run holds too. Without one:
/// the run's attributes and the founding attributes differ in nothing.
pub open spec fn accepts(
    base: Seq<Pair>,
    record: Seq<Pair>,
    allow: Option<Vec<String>>,
    tol: ToleranceConfig,
) -> bool {
    match allow {
        Some(names) => forall|i: int|
            0 <= i < names@.len() && pairs_map(base).contains_key((#[trigger] names@[i])@)
                ==> pairs_map(record).contains_key(names@[i]@),
        None => difference_count(record, base, tol) == 0,
    }
}

/// Whether a group takes a run under a configuration.
pub fn group_accepts(base: &AttributeMap, record: &AttributeMap, config: &Config) -> (r: bool)
    requires
        base.well_formed(),
        record.well_formed(),
    ensures
        r == accepts(
            base.pairs(),
            record.pairs(),
            config.grouping.grouping_parameters,
            config.tolerance,
        ),
{
    match &config.grouping.grouping_parameters {
        Some(names) => {
            let mut i: usize = 0;
            while i < names.len()
                invariant
                    i <= names.len(),
                    base.well_formed(),
                    record.well_formed(),
                    config.grouping.grouping_parameters == Some(*names),
                    forall|j: int|
                        0 <= j < i && base@.contains_key((#[trigger] names@[j])@)
                            ==> record@.contains_key(names@[j]@),
                decreases names.len() - i,
            {
                if base.contains_key(names[i].as_str()) && !record.contains_key(names[i].as_str()) {
                    proof {
                        let list = config.grouping.grouping_parameters->Some_0;
                        assert(list@ == names@);
                        let name = list@[i as int];
                        assert(pairs_map(base.pairs()).contains_key(name@));
                        assert(!pairs_map(record.pairs()).contains_key(name@));
                    }
                    return false;
                }
                i += 1;
            }
            true
        },
        None => count_different_parameters(record, base, config) == 0,
    }
}

/// The first group from `from` on that takes the run, or the number of groups
/// where none does.
pub open spec fn first_accepting(
    groups: Seq<GroupView>,
    record: Seq<Pair>,
    allow: Option<Vec<String>>,
    tol: ToleranceConfig,
    from: int,
) -> int
    decreases groups.len() - from,
{
    if from < 0 || from >= groups.len() {
        groups.len() as int
    } else if accepts(groups[from].base_parameters, record, allow, tol) {
        from
    } else {
        first_accepting(groups, record, allow, tol, from + 1)
    }
}

/// The group with one more member, at the end.
pub open spec fn joined(g: GroupView, v: VersionView) -> GroupView {
    GroupView {
        group_id: g.group_id,
        base_parameters: g.base_parameters,
        members: g.members.push(v),
    }
}

/// The group that a run founds: its identifier is the hash of the run's
/// attributes, which are its founding attributes, and the run is its only
/// member.
pub open spec fn founded(v: VersionView, allow: Option<Vec<String>>, tol: ToleranceConfig) -> GroupView {
    GroupView {
        group_id: params_hash(v.hparams, allow, tol),
        base_parameters: v.hparams,
        members: seq![v],
    }
}

/// The groups after one more run: it joins the first group that takes it, or
/// founds a new group behind the others.
pub open spec fn placed(
    groups: Seq<GroupView>,
    v: VersionView,
    allow: Option<Vec<String>>,
    tol: ToleranceConfig,
) -> Seq<GroupView> {
    let i = first_accepting(groups, v.hparams, allow, tol, 0);
    if i < groups.len() {
        groups.update(i, joined(groups[i], v))
    } else {
        groups.push(founded(v, allow, tol))
    }
}

/// The groups after the last `k` runs of the list, taken from the end of the
/// list towards its start.
pub open spec fn clustered(
    versions: Seq<VersionView>,
    allow: Option<Vec<String>>,
    tol: ToleranceConfig,
    k: int,
) -> Seq<GroupView>
    decreases k,
{
    if k <= 0 || k > versions.len() {
        Seq::empty()
    } else {
        placed(clustered(versions, allow, tol, k - 1), versions[versions.len() - k], allow, tol)
    }
}

/// The group with its members in the order of their numbers.
pub open spec fn with_sorted_members(g: GroupView) -> GroupView {
    GroupView {
        group_id: g.group_id,
        base_parameters: g.base_parameters,
        members: sort_by_key(g.members, by_number()),
    }
}

/// Each group with its members in the order of their numbers.
pub open spec fn all_with_sorted_members(groups: Seq<GroupView>) -> Seq<GroupView> {
    Seq::new(groups.len(), |i: int| with_sorted_members(groups[i]))
}

/// The groups of a list of runs: the runs are placed one by one from the end
/// of the list, each group's members are then put in the order of their
/// numbers, and the groups in the order of their sizes, the largest first.
pub open spec fn grouped(
    versions: Seq<VersionView>,
    allow: Option<Vec<String>>,
    tol: ToleranceConfig,
) -> Seq<GroupView> {
    sort_by_key(
        all_with_sorted_members(clustered(versions, allow, tol, versions.len() as int)),
        by_size_descending(),
    )
}

/// Groups the runs.
pub fn group_versions(config: &Config, versions: Vec<VersionData>) -> (r: Result<
    Vec<ExperimentGroup>,
    GroupingError,
>)
    requires
        versions_well_formed(versions@),
    ensures
        r is Ok,
        groups_well_formed(r->Ok_0@),
        group_views(r->Ok_0@) == grouped(
            version_views(versions@),
            config.grouping.grouping_parameters,
            config.tolerance,
        ),
{
    let ghost all = version_views(versions@);
    let ghost allow = config.grouping.grouping_parameters;
    let ghost tol = config.tolerance;
    let ghost n = versions@.len() as int;
    let mut groups: Vec<ExperimentGroup> = Vec::new();
    let mut ungrouped = versions;
    assert(group_views(groups@) =~= clustered(all, allow, tol, 0));
    while ungrouped.len() > 0
        invariant
            n == all.len(),
            ungrouped@.len() <= n,
            allow == config.grouping.grouping_parameters,
            tol == config.tolerance,
            versions_well_formed(ungrouped@),
            groups_well_formed(groups@),
            version_views(ungrouped@) == all.take(ungrouped@.len() as int),
            group_views(groups@) == clustered(all, allow, tol, n - ungrouped@.len()),
        decreases ungrouped@.len(),
    {
        let ghost rest = ungrouped@;
        let ghost before = groups@;
        let ghost bv = group_views(before);
        let version = ungrouped.pop().unwrap();
        proof {
            assert(version == rest[rest.len() - 1]);
            assert(version.well_formed());
            assert(version@ == all.take(rest.len() as int)[rest.len() - 1]);
            assert(version@ == all[n - (n - rest.len() + 1)]);
            assert(version_views(ungrouped@) =~= all.take(ungrouped@.len() as int));
        }
        let mut gi: usize = 0;
        while gi < groups.len() && !group_accepts(
            &groups[gi].base_parameters,
            &version.hparams,
            config,
        )
            invariant
                gi <= groups.len(),
                groups@ == before,
                bv == group_views(before),
                groups_well_formed(groups@),
                version.well_formed(),
                allow == config.grouping.grouping_parameters,
                tol == config.tolerance,
                first_accepting(bv, version@.hparams, allow, tol, 0) == first_accepting(
                    bv,
                    version@.hparams,
                    allow,
                    tol,
                    gi as int,
                ),
            decreases groups.len() - gi,
        {
            gi += 1;
        }
        if gi < groups.len() {
            let mut group = groups.remove(gi);
            group.member_versions.push(version);
            groups.insert(gi, group);
            proof {
                let after = groups@;
                assert(after[gi as int].member_versions@ == before[gi as int].member_versions@.push(
                    version,
                ));
                assert(after[gi as int]@.members =~= bv[gi as int].members.push(version@));
                assert(group_views(after) =~= bv.update(gi as int, joined(bv[gi as int], version@)));
                assert forall|j: int| 0 <= j < after.len() implies (#[trigger] after[j]).well_formed() by {
                    if j != gi {
                        assert(after[j] == before[j]);
                    } else {
                        let ms = after[j].member_versions@;
                        assert forall|m: int| 0 <= m < ms.len() implies (#[trigger] ms[m]).well_formed() by {
                            if m < ms.len() - 1 {
                                assert(ms[m] == before[j].member_versions@[m]);
                            }
                        }
                    }
                }
            }
        } else {
            let group_id = compute_params_hash(&version.hparams, config);
            let base_parameters = version.hparams.clone();
            let mut member_versions: Vec<VersionData> = Vec::new();
            member_versions.push(version);
            groups.push(ExperimentGroup { group_id, base_parameters, member_versions });
            proof {
                let after = groups@;
                let last = after[after.len() - 1];
                assert(last@.members =~= seq![version@]);
                assert(group_views(after) =~= bv.push(founded(version@, allow, tol)));
                assert forall|j: int| 0 <= j < after.len() implies (#[trigger] after[j]).well_formed() by {
                    if j < before.len() {
                        assert(after[j] == before[j]);
                    }
                }
            }
        }
    }
    let ghost raw = groups@;
    let mut i: usize = 0;
    while i < groups.len()
        invariant
            i <= groups.len(),
            groups.len() == raw.len(),
            groups_well_formed(groups@),
            forall|j: int| 0 <= j < i ==> (#[trigger] groups@[j])@ == with_sorted_members(raw[j]@),
            forall|j: int| i <= j < groups.len() ==> groups@[j] == raw[j],
        decreases groups.len() - i,
    {
        let ghost before = groups@;
        let mut group = groups.remove(i);
        sort_versions(&mut group.member_versions);
        groups.insert(i, group);
        proof {
            let after = groups@;
            assert forall|j: int| 0 <= j < after.len() implies (#[trigger] after[j]).well_formed() by {
                if j != i {
                    assert(after[j] == before[j]);
                }
            }
            assert forall|j: int| 0 <= j < i + 1 implies (#[trigger] after[j])@
                == with_sorted_members(raw[j]@) by {
                if j < i {
                    assert(after[j] == before[j]);
                }
            }
            assert forall|j: int| i + 1 <= j < after.len() implies after[j] == raw[j] by {
                assert(after[j] == before[j]);
            }
        }
        i += 1;
    }
    assert(group_views(groups@) =~= all_with_sorted_members(group_views(raw)));
    assert(all.take(0) =~= Seq::<VersionView>::empty());
    sort_groups(&mut groups);
    Ok(groups)
}

/// One entry of the similarity table: a group identifier and the identifiers
/// of the groups that are similar to a group with it.
#[derive(Debug, PartialEq)]
pub struct SimilarGroups {
    pub group_id: String,
    pub similar: Vec<String>,
}

/// What an entry of the similarity table holds.
pub struct SimilarView {
    pub group_id: Seq<char>,
    pub similar: Seq<Seq<char>>,
}

/// What a list of texts holds, text by text.
pub open spec fn text_views(names: Seq<String>) -> Seq<Seq<char>> {
    Seq::new(names.len(), |i: int| names[i]@)
}

impl View for SimilarGroups {
    type V = SimilarView;

    open spec fn view(&self) -> SimilarView {
        SimilarView { group_id: self.group_id@, similar: text_views(self.similar@) }
    }
}

/// What a similarity table holds, entry by entry.
pub open spec fn similar_views(table: Seq<SimilarGroups>) -> Seq<SimilarView> {
    Seq::new(table.len(), |i: int| table[i]@)
}

/// Whether group `j` is similar to group `i`: they are two groups, and the
/// number of attributes in which the founding attributes of `i` differ from
/// those of `j` is at most the threshold.
pub open spec fn is_similar(
    groups: Seq<GroupView>,
    tol: ToleranceConfig,
    threshold: usize,
    i: int,
    j: int,
) -> bool {
    i != j && capped(difference_count(groups[i].base_parameters, groups[j].base_parameters, tol))
        <= threshold
}

/// The identifiers of the groups among the first `n` that are similar to
/// group `i`, in the order of the groups.
pub open spec fn similar_to(
    groups: Seq<GroupView>,
    tol: ToleranceConfig,
    threshold: usize,
    i: int,
    n: int,
) -> Seq<Seq<char>>
    decreases n,
{
    if n <= 0 || n > groups.len() {
        Seq::empty()
    } else if is_similar(groups, tol, threshold, i, n - 1) {
        similar_to(groups, tol, threshold, i, n - 1).push(groups[n - 1].group_id)
    } else {
        similar_to(groups, tol, threshold, i, n - 1)
    }
}

/// The first entry from `from` on with the identifier, or the number of
/// entries where none has it.
pub open spec fn entry_index(table: Seq<SimilarView>, id: Seq<char>, from: int) -> int
    decreases table.len() - from,
{
    if from < 0 || from >= table.len() {
        table.len() as int
    } else if table[from].group_id == id {
        from
    } else {
        entry_index(table, id, from + 1)
    }
}

/// The table with a list added under an identifier: behind the list that the
/// identifier has, or as a new entry behind the others.
pub open spec fn with_similar(table: Seq<SimilarView>, id: Seq<char>, list: Seq<Seq<char>>) -> Seq<
    SimilarView,
> {
    let e = entry_index(table, id, 0);
    if e < table.len() {
        table.update(e, SimilarView { group_id: id, similar: table[e].similar + list })
    } else {
        table.push(SimilarView { group_id: id, similar: list })
    }
}

/// The similarity table of the first `n` groups: each group in turn adds,
/// under its identifier, the identifiers of all groups that are similar to it.
pub open spec fn similarity_table(
    groups: Seq<GroupView>,
    tol: ToleranceConfig,
    threshold: usize,
    n: int,
) -> Seq<SimilarView>
    decreases n,
{
    if n <= 0 || n > groups.len() {
        Seq::empty()
    } else {
        with_similar(
            similarity_table(groups, tol, threshold, n - 1),
            groups[n - 1].group_id,
            similar_to(groups, tol, threshold, n - 1, groups.len() as int),
        )
    }
}

/// Finds, for each group, the groups that are similar to it.
pub fn find_similar_groups(groups: &Vec<ExperimentGroup>, config: &Config) -> (r: Vec<
    SimilarGroups,
>)
    requires
        groups_well_formed(groups@),
    ensures
        similar_views(r@) == similarity_table(
            group_views(groups@),
            config.tolerance,
            config.grouping.similarity_threshold,
            groups@.len() as int,
        ),
{
    let ghost gv = group_views(groups@);
    let ghost tol = config.tolerance;
    let threshold = config.grouping.similarity_threshold;
    let mut table: Vec<SimilarGroups> = Vec::new();
    let mut i: usize = 0;
    assert(similar_views(table@) =~= similarity_table(gv, tol, threshold, 0));
    while i < groups.len()
        invariant
            i <= groups.len(),
            gv == group_views(groups@),
            tol == config.tolerance,
            threshold == config.grouping.similarity_threshold,
            groups_well_formed(groups@),
            similar_views(table@) == similarity_table(gv, tol, threshold, i as int),
        decreases groups.len() - i,
    {
        let mut list: Vec<String> = Vec::new();
        let mut j: usize = 0;
        assert(text_views(list@) =~= similar_to(gv, tol, threshold, i as int, 0));
        while j < groups.len()
            invariant
                j <= groups.len(),
                i < groups.len(),
                gv == group_views(groups@),
                tol == config.tolerance,
                threshold == config.grouping.similarity_threshold,
                groups_well_formed(groups@),
                text_views(list@) == similar_to(gv, tol, threshold, i as int, j as int),
            decreases groups.len() - j,
        {
            if i != j {
                let diff_count = count_different_parameters(
                    &groups[i].base_parameters,
                    &groups[j].base_parameters,
                    config,
                );
                if diff_count <= threshold {
                    let ghost before = list@;
                    list.push(groups[j].group_id.clone());
                    assert(text_views(list@) =~= text_views(before).push(gv[j as int].group_id));
                }
            }
            j += 1;
        }
        let ghost tv = similar_views(table@);
        let id = &groups[i].group_id;
        let mut e: usize = 0;
        while e < table.len() && !text_eq(table[e].group_id.as_str(), id.as_str())
            invariant
                e <= table.len(),
                tv == similar_views(table@),
                entry_index(tv, id@, 0) == entry_index(tv, id@, e as int),
            decreases table.len() - e,
        {
            e += 1;
        }
        if e < table.len() {
            let mut entry = table.remove(e);
            let ghost had = entry.similar@;
            entry.similar.append(&mut list);
            assert(text_views(entry.similar@) =~= text_views(had) + similar_to(
                gv,
                tol,
                threshold,
                i as int,
                groups@.len() as int,
            ));
            table.insert(e, entry);
            assert(similar_views(table@) =~= with_similar(
                tv,
                id@,
                similar_to(gv, tol, threshold, i as int, groups@.len() as int),
            ));
        } else {
            table.push(SimilarGroups { group_id: id.clone(), similar: list });
            assert(similar_views(table@) =~= with_similar(
                tv,
                id@,
                similar_to(gv, tol, threshold, i as int, groups@.len() as int),
            ));
        }
        i += 1;
    }
    table
}

} // verus!
