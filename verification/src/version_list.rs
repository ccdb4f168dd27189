//! From parsed runs to the list of runs that is grouped: each run gets its
//! number from its path and keeps the attributes that pass the filter; the
//! runs are put in the order of their numbers; attributes that all runs of a
//! bucket share are recorded and taken out.
use crate::attributes::{keys_increase, pairs_map, AttributeMap, Pair};
use crate::common_parameters::{
    all_well_formed, common_pairs, common_table, find_scope_first, heads_shared_scope,
    label_views, lemma_stripped_content, pairs_of_all, scope_is_shared, select_by_common,
    stripped_pairs, strips, CommonView,
};
use crate::config::Config;
use crate::experiment_grouping::{filter_parameters, filtered_pairs, GroupingError};
use crate::file_utils::{
    checked_version_number, extract_version_number_safe, parent_path_of, path_parent,
    VersionError,
};
use crate::models::{
    by_number, sort_versions, version_views, versions_well_formed, VersionData, VersionView,
};
use crate::parameter_value::{value_text, ValueView};
use crate::sorting::sort_by_key;
use crate::text::push_char;
use vstd::prelude::*;
use vstd::string::*;

verus! {

/// A run as it was read: the path of its file and its attributes.
#[derive(Debug, PartialEq)]
pub struct ParsedRun {
    pub path: String,
    pub hparams: AttributeMap,
}

/// One entry of the table of common attributes: a bucket's key and the
/// attributes that all runs of the bucket share.
#[derive(Debug, PartialEq)]
pub struct CommonParameters {
    pub group_key: String,
    pub common: AttributeMap,
}

/// What a run as it was read holds.
pub struct ParsedView {
    pub path: Seq<char>,
    pub hparams: Seq<Pair>,
}

/// What a failure of a grouping pass holds.
pub enum GroupingErrorView {
    InvalidRunPath { path: Seq<char>, cause: VersionError },
    MissingMainKey { version_num: u32, key: Seq<char> },
}

impl View for ParsedRun {
    type V = ParsedView;

    open spec fn view(&self) -> ParsedView {
        ParsedView { path: self.path@, hparams: self.hparams.pairs() }
    }
}

impl View for GroupingError {
    type V = GroupingErrorView;

    open spec fn view(&self) -> GroupingErrorView {
        match self {
            GroupingError::InvalidRunPath { path, cause } => GroupingErrorView::InvalidRunPath {
                path: path@,
                cause: *cause,
            },
            GroupingError::MissingMainKey { version_num, key } => GroupingErrorView::MissingMainKey {
                version_num: *version_num,
                key: key@,
            },
        }
    }
}

impl View for CommonParameters {
    type V = CommonView;

    open spec fn view(&self) -> CommonView {
        CommonView { group_key: self.group_key@, common: self.common.pairs() }
    }
}

/// What a list of runs as they were read holds, run by run.
pub open spec fn parsed_views(runs: Seq<ParsedRun>) -> Seq<ParsedView> {
    Seq::new(runs.len(), |i: int| runs[i]@)
}

/// Every run of the list has a well-formed mapping.
pub open spec fn parsed_well_formed(runs: Seq<ParsedRun>) -> bool {
    forall|i: int| 0 <= i < runs.len() ==> (#[trigger] runs[i]).hparams.well_formed()
}

/// What a table of common attributes holds, entry by entry.
pub open spec fn common_views(table: Seq<CommonParameters>) -> Seq<CommonView> {
    Seq::new(table.len(), |i: int| table[i]@)
}

/// The first of the names from `from` on that the mapping lacks, or the
/// number of names where it has them all.
pub open spec fn first_missing(hp: Map<Seq<char>, ValueView>, names: Seq<String>, from: int) -> int
    decreases names.len() - from,
{
    if from < 0 || from >= names.len() {
        names.len() as int
    } else if !hp.contains_key(names[from]@) {
        from
    } else {
        first_missing(hp, names, from + 1)
    }
}

/// The run that a parsed run becomes, or why the pass fails on it: its path
/// must name a run number, and its attributes must hold every attribute that
/// the main key names. The run keeps the attributes that pass the filter, and
/// the directory of its file as its path.
pub open spec fn collected_run(run: ParsedView, config: Config) -> Result<
    VersionView,
    GroupingErrorView,
> {
    match checked_version_number(run.path) {
        Err(cause) => Err(GroupingErrorView::InvalidRunPath { path: run.path, cause }),
        Ok(version_num) => {
            let missing = match config.grouping.main_key {
                Some(keys) => first_missing(pairs_map(run.hparams), keys@, 0),
                None => 0,
            };
            if config.grouping.main_key is Some && missing < config.grouping.main_key->Some_0@.len() {
                Err(
                    GroupingErrorView::MissingMainKey {
                        version_num,
                        key: config.grouping.main_key->Some_0@[missing]@,
                    },
                )
            } else {
                Ok(
                    VersionView {
                        version_num,
                        path: parent_path_of(run.path)->Some_0,
                        hparams: filtered_pairs(
                            run.hparams,
                            config.ignored_parameters.parameters@,
                            config.grouping.grouping_parameters,
                        ),
                    },
                )
            }
        },
    }
}

/// The runs that the first `n` parsed runs become, or the failure of the
/// first of them that fails.
pub open spec fn collected(runs: Seq<ParsedView>, config: Config, n: int) -> Result<
    Seq<VersionView>,
    GroupingErrorView,
>
    decreases n,
{
    if n <= 0 || n > runs.len() {
        Ok(Seq::empty())
    } else {
        match collected(runs, config, n - 1) {
            Err(e) => Err(e),
            Ok(front) => match collected_run(runs[n - 1], config) {
                Err(e) => Err(e),
                Ok(v) => Ok(front.push(v)),
            },
        }
    }
}

/// The text of a bucket's key for the first `n` names: for each name, the
/// name, an equals sign and the rendering of the value under it, joined by a
/// comma and a blank.
pub open spec fn bucket_text(hp: Map<Seq<char>, ValueView>, names: Seq<String>, n: int) -> Seq<char>
    decreases n,
{
    if n <= 0 || n > names.len() {
        Seq::empty()
    } else if n == 1 {
        names[0]@.push('=') + value_text(hp[names[0]@])
    } else {
        bucket_text(hp, names, n - 1) + seq![',', ' '] + names[n - 1]@.push('=') + value_text(
            hp[names[n - 1]@],
        )
    }
}

/// The key of the bucket that a run falls in: the text made of the main key's
/// names and the run's values under them, or none where the run lacks one of
/// them.
pub open spec fn bucket_label(hparams: Seq<Pair>, names: Seq<String>) -> Option<Seq<char>> {
    if first_missing(pairs_map(hparams), names, 0) == names.len() {
        Some(bucket_text(pairs_map(hparams), names, names.len() as int))
    } else {
        None
    }
}

/// The label of each run: its bucket's key under a main key, and one label
/// for all runs without one.
pub open spec fn run_labels(all: Seq<Seq<Pair>>, main_key: Option<Vec<String>>) -> Seq<
    Option<Seq<char>>,
> {
    Seq::new(
        all.len(),
        |i: int|
            match main_key {
                Some(names) => bucket_label(all[i], names@),
                None => Some(Seq::<char>::empty()),
            },
    )
}

/// The attributes of each run of a list, run by run.
pub open spec fn hparams_of(runs: Seq<VersionView>) -> Seq<Seq<Pair>> {
    Seq::new(runs.len(), |i: int| runs[i].hparams)
}

/// Whether common attributes are taken out at all: under a main key, and
/// without one where there is no allow-list either.
pub open spec fn strips_anything(config: Config) -> bool {
    config.grouping.main_key is Some || config.grouping.grouping_parameters is None
}

/// The names that are never common: those of the main key.
pub open spec fn excluded_names(config: Config) -> Seq<String> {
    match config.grouping.main_key {
        Some(names) => names@,
        None => Seq::empty(),
    }
}

/// The runs after the common attributes have been taken out. Under a main
/// key they are taken out of every bucket of two runs or more; without a main
/// key and without an allow-list, of all runs together.
pub open spec fn finished_versions(sorted: Seq<VersionView>, config: Config) -> Seq<VersionView> {
    if strips_anything(config) {
        Seq::new(
            sorted.len(),
            |i: int|
                VersionView {
                    version_num: sorted[i].version_num,
                    path: sorted[i].path,
                    hparams: stripped_pairs(
                        hparams_of(sorted),
                        run_labels(hparams_of(sorted), config.grouping.main_key),
                        excluded_names(config),
                        config.grouping.main_key is None,
                        i,
                    ),
                },
        )
    } else {
        sorted
    }
}

/// The table of common attributes: under a main key, one entry for each
/// bucket of two runs or more; empty without one.
pub open spec fn finished_table(sorted: Seq<VersionView>, config: Config) -> Seq<CommonView> {
    match config.grouping.main_key {
        Some(names) => common_table(
            hparams_of(sorted),
            run_labels(hparams_of(sorted), config.grouping.main_key),
            names@,
            sorted.len() as int,
        ),
        None => Seq::empty(),
    }
}

/// The list of runs and the table of common attributes that parsed runs give,
/// or why the pass fails.
pub open spec fn version_list(runs: Seq<ParsedView>, config: Config) -> Result<
    (Seq<VersionView>, Seq<CommonView>),
    GroupingErrorView,
> {
    match collected(runs, config, runs.len() as int) {
        Err(e) => Err(e),
        Ok(found) => {
            let sorted = sort_by_key(found, by_number());
            Ok((finished_versions(sorted, config), finished_table(sorted, config)))
        },
    }
}

/// An error among the first `n` runs is the error of any longer list.
pub proof fn lemma_collected_error(runs: Seq<ParsedView>, config: Config, n: int, m: int)
    requires
        0 <= n <= m <= runs.len(),
        collected(runs, config, n) is Err,
    ensures
        collected(runs, config, m) == collected(runs, config, n),
    decreases m - n,
{
    if n < m {
        lemma_collected_error(runs, config, n, m - 1);
    }
}

/// A path that names a run number has a parent.
pub proof fn lemma_numbered_path_has_parent(path: Seq<char>)
    requires
        checked_version_number(path) is Ok,
    ensures
        parent_path_of(path) is Some,
{
}

fn find_first_missing(hparams: &AttributeMap, names: &Vec<String>) -> (r: usize)
    requires
        hparams.well_formed(),
    ensures
        r == first_missing(hparams@, names@, 0),
        r <= names.len(),
{
    let mut i: usize = 0;
    while i < names.len()
        invariant
            i <= names.len(),
            hparams.well_formed(),
            first_missing(hparams@, names@, 0) == first_missing(hparams@, names@, i as int),
        decreases names.len() - i,
    {
        if !hparams.contains_key(names[i].as_str()) {
            return i;
        }
        i += 1;
    }
    i
}

/// The run that a parsed run becomes, or why the pass fails on it.
pub fn collect_run(run: &ParsedRun, config: &Config) -> (r: Result<VersionData, GroupingError>)
    requires
        run.hparams.well_formed(),
    ensures
        r is Ok == collected_run(run@, *config) is Ok,
        r is Ok ==> r->Ok_0@ == collected_run(run@, *config)->Ok_0 && r->Ok_0.well_formed(),
        r is Err ==> r->Err_0@ == collected_run(run@, *config)->Err_0,
{
    let version_num = match extract_version_number_safe(run.path.as_str()) {
        Err(cause) => {
            return Err(GroupingError::InvalidRunPath { path: run.path.clone(), cause });
        },
        Ok(n) => n,
    };
    match &config.grouping.main_key {
        Some(keys) => {
            let missing = find_first_missing(&run.hparams, keys);
            if missing < keys.len() {
                return Err(
                    GroupingError::MissingMainKey { version_num, key: keys[missing].clone() },
                );
            }
        },
        None => {},
    }
    let hparams = filter_parameters(
        &run.hparams,
        &config.ignored_parameters.parameters,
        &config.grouping.grouping_parameters,
    );
    proof {
        lemma_numbered_path_has_parent(run.path@);
    }
    match path_parent(run.path.as_str()) {
        Some(path) => Ok(VersionData { version_num, path, hparams }),
        None => Err(
            GroupingError::InvalidRunPath {
                path: run.path.clone(),
                cause: VersionError::NoVersionDirectory,
            },
        ),
    }
}

/// The key of the bucket that a run falls in.
pub fn make_bucket_label(hparams: &AttributeMap, names: &Vec<String>) -> (r: Option<String>)
    requires
        hparams.well_formed(),
    ensures
        r is Some == bucket_label(hparams.pairs(), names@) is Some,
        r is Some ==> r->Some_0@ == bucket_label(hparams.pairs(), names@)->Some_0,
{
    if find_first_missing(hparams, names) < names.len() {
        return None;
    }
    let mut label = String::new();
    let mut i: usize = 0;
    assert(label@ =~= bucket_text(hparams@, names@, 0));
    while i < names.len()
        invariant
            i <= names.len(),
            hparams.well_formed(),
            first_missing(hparams@, names@, 0) == names@.len(),
            label@ == bucket_text(hparams@, names@, i as int),
        decreases names.len() - i,
    {
        proof {
            lemma_none_missing(hparams@, names@, 0, i as int);
        }
        if i > 0 {
            push_char(&mut label, ',');
            push_char(&mut label, ' ');
        }
        label.append(names[i].as_str());
        push_char(&mut label, '=');
        match hparams.get(names[i].as_str()) {
            Some(value) => {
                let text = value.to_simple_string();
                label.append(text.as_str());
            },
            None => {},
        }
        i += 1;
        assert(label@ =~= bucket_text(hparams@, names@, i as int));
    }
    Some(label)
}

/// Where no name is missing, the mapping has every name.
pub proof fn lemma_none_missing(hp: Map<Seq<char>, ValueView>, names: Seq<String>, from: int, i: int)
    requires
        0 <= from <= i < names.len(),
        first_missing(hp, names, from) == names.len(),
    ensures
        hp.contains_key(names[i]@),
    decreases i - from,
{
    if from < i {
        lemma_none_missing(hp, names, from + 1, i);
    }
}

/// Builds the list of runs and the table of common attributes.
pub fn create_version_data_list(config: &Config, parsed: &Vec<ParsedRun>) -> (r: Result<
    (Vec<VersionData>, Vec<CommonParameters>),
    GroupingError,
>)
    requires
        parsed_well_formed(parsed@),
    ensures
        r is Ok == version_list(parsed_views(parsed@), *config) is Ok,
        r is Ok ==> {
            &&& versions_well_formed(r->Ok_0.0@)
            &&& version_views(r->Ok_0.0@) == version_list(parsed_views(parsed@), *config)->Ok_0.0
            &&& common_views(r->Ok_0.1@) == version_list(parsed_views(parsed@), *config)->Ok_0.1
        },
        r is Err ==> r->Err_0@ == version_list(parsed_views(parsed@), *config)->Err_0,
{
    let ghost runs = parsed_views(parsed@);
    let mut versions: Vec<VersionData> = Vec::new();
    let mut i: usize = 0;
    assert(version_views(versions@) =~= Seq::<VersionView>::empty());
    while i < parsed.len()
        invariant
            i <= parsed.len(),
            runs == parsed_views(parsed@),
            parsed_well_formed(parsed@),
            versions_well_formed(versions@),
            collected(runs, *config, i as int) == Ok::<Seq<VersionView>, GroupingErrorView>(
                version_views(versions@),
            ),
        decreases parsed.len() - i,
    {
        assert(parsed@[i as int].hparams.well_formed());
        assert(runs[i as int] == parsed@[i as int]@);
        match collect_run(&parsed[i], config) {
            Err(e) => {
                proof {
                    lemma_collected_error(runs, *config, i as int + 1, runs.len() as int);
                }
                return Err(e);
            },
            Ok(version) => {
                let ghost before = versions@;
                versions.push(version);
                assert(version_views(versions@) =~= version_views(before).push(version@));
                assert forall|j: int| 0 <= j < versions@.len() implies (#[trigger] versions@[j]).well_formed() by {
                    if j < before.len() {
                        assert(versions@[j] == before[j]);
                    }
                }
            },
        }
        i += 1;
    }
    sort_versions(&mut versions);
    let ghost sorted = version_views(versions@);
    let strips_any = config.grouping.main_key.is_some() || config.grouping.grouping_parameters.is_none();
    if !strips_any {
        let table: Vec<CommonParameters> = Vec::new();
        assert(common_views(table@) =~= Seq::<CommonView>::empty());
        return Ok((versions, table));
    }
    let n = versions.len();
    let mut maps: Vec<AttributeMap> = Vec::new();
    let mut labels: Vec<Option<String>> = Vec::new();
    let mut m: usize = 0;
    while m < n
        invariant
            m <= n,
            n == versions.len(),
            sorted == version_views(versions@),
            versions_well_formed(versions@),
            maps.len() == m,
            labels.len() == m,
            all_well_formed(maps@),
            forall|j: int| 0 <= j < m ==> (#[trigger] maps@[j]).pairs() == sorted[j].hparams,
            forall|j: int|
                0 <= j < m ==> (#[trigger] label_views(labels@)[j]) == run_labels(
                    hparams_of(sorted),
                    config.grouping.main_key,
                )[j],
        decreases n - m,
    {
        assert(versions@[m as int].well_formed());
        assert(sorted[m as int] == versions@[m as int]@);
        let map = versions[m].hparams.clone();
        let label = match &config.grouping.main_key {
            Some(names) => make_bucket_label(&map, names),
            None => Some(String::new()),
        };
        let ghost maps_before = maps@;
        let ghost labels_before = labels@;
        maps.push(map);
        labels.push(label);
        proof {
            assert forall|j: int| 0 <= j < maps@.len() implies (#[trigger] maps@[j]).well_formed() by {
                if j < maps_before.len() {
                    assert(maps@[j] == maps_before[j]);
                }
            }
            assert forall|j: int| 0 <= j < m + 1 implies (#[trigger] maps@[j]).pairs()
                == sorted[j].hparams by {
                if j < m {
                    assert(maps@[j] == maps_before[j]);
                }
            }
            assert forall|j: int| 0 <= j < m + 1 implies (#[trigger] label_views(labels@)[j])
                == run_labels(hparams_of(sorted), config.grouping.main_key)[j] by {
                if j < m {
                    assert(labels@[j] == labels_before[j]);
                    assert(label_views(labels_before)[j] == run_labels(
                        hparams_of(sorted),
                        config.grouping.main_key,
                    )[j]);
                }
            }
        }
        m += 1;
    }
    let ghost all = pairs_of_all(maps@);
    let ghost lv = label_views(labels@);
    assert(all =~= hparams_of(sorted));
    assert(lv =~= run_labels(hparams_of(sorted), config.grouping.main_key));
    let no_names: Vec<String> = Vec::new();
    let strip_alone = config.grouping.main_key.is_none();
    let excluded: &Vec<String> = match &config.grouping.main_key {
        Some(names) => names,
        None => &no_names,
    };
    assert(excluded@ =~= excluded_names(*config));
    let mut out: Vec<VersionData> = Vec::new();
    let mut table: Vec<CommonParameters> = Vec::new();
    let mut k: usize = 0;
    assert(common_views(table@) =~= common_table(all, lv, excluded@, 0));
    while k < n
        invariant
            k <= n,
            n == versions.len(),
            n == maps.len(),
            n == labels.len(),
            sorted == version_views(versions@),
            all == pairs_of_all(maps@),
            lv == label_views(labels@),
            all == hparams_of(sorted),
            lv == run_labels(hparams_of(sorted), config.grouping.main_key),
            all_well_formed(maps@),
            strip_alone == (config.grouping.main_key is None),
            excluded@ == excluded_names(*config),
            out.len() == k,
            versions_well_formed(out@),
            forall|j: int|
                0 <= j < k ==> (#[trigger] out@[j])@ == (VersionView {
                    version_num: sorted[j].version_num,
                    path: sorted[j].path,
                    hparams: stripped_pairs(all, lv, excluded@, strip_alone, j),
                }),
            strip_alone ==> table@.len() == 0,
            !strip_alone ==> common_views(table@) == common_table(all, lv, excluded@, k as int),
        decreases n - k,
    {
        let labelled = labels[k].is_some();
        let shared = scope_is_shared(&labels, k);
        assert(lv[k as int] is Some == labelled);
        assert(maps@[k as int].well_formed());
        assert(all[k as int] == maps@[k as int].pairs());
        let hparams = if labelled && (strip_alone || shared) {
            select_by_common(&maps, &labels, excluded, k, false)
        } else {
            maps[k].clone()
        };
        assert(hparams.pairs() == stripped_pairs(all, lv, excluded@, strip_alone, k as int));
        let ghost out_before = out@;
        assert(sorted[k as int] == versions@[k as int]@);
        out.push(
            VersionData {
                version_num: versions[k].version_num,
                path: versions[k].path.clone(),
                hparams,
            },
        );
        proof {
            assert forall|j: int| 0 <= j < out@.len() implies (#[trigger] out@[j]).well_formed() by {
                if j < out_before.len() {
                    assert(out@[j] == out_before[j]);
                }
            }
            assert forall|j: int| 0 <= j < k + 1 implies (#[trigger] out@[j])@ == (VersionView {
                version_num: sorted[j].version_num,
                path: sorted[j].path,
                hparams: stripped_pairs(all, lv, excluded@, strip_alone, j),
            }) by {
                if j < k {
                    assert(out@[j] == out_before[j]);
                }
            }
        }
        if !strip_alone {
            let heads = labelled && shared && find_scope_first(&labels, k) == k;
            assert(heads == heads_shared_scope(lv, k as int));
            if heads {
                let group_key = match &labels[k] {
                    Some(label) => label.clone(),
                    None => String::new(),
                };
                let common = select_by_common(&maps, &labels, excluded, k, true);
                let ghost table_before = table@;
                table.push(CommonParameters { group_key, common });
                assert(common_views(table@) =~= common_views(table_before).push(
                    CommonView {
                        group_key: lv[k as int]->Some_0,
                        common: common_pairs(all, lv, excluded@, k as int),
                    },
                ));
            }
        }
        k += 1;
    }
    proof {
        assert(version_views(out@) =~= finished_versions(sorted, *config));
        if strip_alone {
            assert(common_views(table@) =~= Seq::<CommonView>::empty());
        }
    }
    Ok((out, table))
}

/// Under a main key, a run that falls in a bucket keeps every attribute that
/// the main key names, whatever is taken out of it.
pub proof fn lemma_bucket_keeps_main_key(sorted: Seq<VersionView>, config: Config, i: int, m: int)
    requires
        config.grouping.main_key is Some,
        0 <= i < sorted.len(),
        keys_increase(sorted[i].hparams),
        bucket_label(sorted[i].hparams, config.grouping.main_key->Some_0@) is Some,
        0 <= m < config.grouping.main_key->Some_0@.len(),
    ensures
        pairs_map(finished_versions(sorted, config)[i].hparams).contains_key(
            config.grouping.main_key->Some_0@[m]@,
        ),
{
    let names = config.grouping.main_key->Some_0@;
    let all = hparams_of(sorted);
    let labels = run_labels(all, config.grouping.main_key);
    let k = names[m]@;
    lemma_none_missing(pairs_map(sorted[i].hparams), names, 0, m);
    if strips(labels, false, i) {
        lemma_stripped_content(all, labels, names, false, i, k);
    }
}

} // verus!
