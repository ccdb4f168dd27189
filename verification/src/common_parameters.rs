//! Attributes that all runs of a scope share, and their removal.
//!
//! Every run carries a label, or none. The runs with the same label form a
//! scope. An attribute is common to a scope when the scope's first run has it,
//! it is not excluded by name, and every other run of the scope has it with
//! exactly the same value.
use crate::attributes::{
    keys_increase, lemma_key_before_all, lemma_select_below, lemma_select_increases,
    lemma_select_map, pairs_map, select_pairs, AttributeMap, Pair,
};
use crate::experiment_grouping::{list_contains, names_contain};
use crate::parameter_value::same_value;
use crate::text::text_eq;
use vstd::prelude::*;

verus! {

/// What a list of labels holds, label by label.
pub open spec fn label_views(labels: Seq<Option<String>>) -> Seq<Option<Seq<char>>> {
    Seq::new(
        labels.len(),
        |i: int|
            match labels[i] {
                Some(s) => Some(s@),
                None => None,
            },
    )
}

/// The entries of each mapping of a list, mapping by mapping.
pub open spec fn pairs_of_all(maps: Seq<AttributeMap>) -> Seq<Seq<Pair>> {
    Seq::new(maps.len(), |i: int| maps[i].pairs())
}

/// Every mapping of the list is well formed.
pub open spec fn all_well_formed(maps: Seq<AttributeMap>) -> bool {
    forall|i: int| 0 <= i < maps.len() ==> (#[trigger] maps[i]).well_formed()
}

/// Whether runs `i` and `j` are in one scope: `i` has a label and `j` has the
/// same.
pub open spec fn same_scope(labels: Seq<Option<Seq<char>>>, i: int, j: int) -> bool {
    labels[i] is Some && labels[i] == labels[j]
}

/// The first run from `from` on that is in the scope of run `i`, or the
/// number of runs where there is none.
pub open spec fn scope_first(labels: Seq<Option<Seq<char>>>, i: int, from: int) -> int
    decreases labels.len() - from,
{
    if from < 0 || from >= labels.len() {
        labels.len() as int
    } else if same_scope(labels, i, from) {
        from
    } else {
        scope_first(labels, i, from + 1)
    }
}

/// How many of the first `n` runs are in the scope of run `i`.
pub open spec fn scope_size(labels: Seq<Option<Seq<char>>>, i: int, n: int) -> nat
    decreases n,
{
    if n <= 0 || n > labels.len() {
        0
    } else {
        scope_size(labels, i, n - 1) + if same_scope(labels, i, n - 1) {
            1nat
        } else {
            0nat
        }
    }
}

/// Whether each of the first `n` runs in the scope of run `i`, but for the
/// run `first`, has the key with exactly the value that `first` has under it.
pub open spec fn others_agree(
    all: Seq<Seq<Pair>>,
    labels: Seq<Option<Seq<char>>>,
    i: int,
    first: int,
    k: Seq<char>,
    n: int,
) -> bool
    decreases n,
{
    if n <= 0 || n > labels.len() {
        true
    } else {
        &&& others_agree(all, labels, i, first, k, n - 1)
        &&& (n - 1 != first && same_scope(labels, i, n - 1) ==> pairs_map(
            all[n - 1],
        ).contains_key(k) && same_value(pairs_map(all[n - 1])[k], pairs_map(all[first])[k]))
    }
}

/// Whether a key is common to the scope of run `i`: the scope's first run has
/// it, it is not excluded, and the others agree on it.
pub open spec fn is_common(
    all: Seq<Seq<Pair>>,
    labels: Seq<Option<Seq<char>>>,
    excluded: Seq<String>,
    i: int,
    k: Seq<char>,
) -> bool {
    let first = scope_first(labels, i, 0);
    &&& first < labels.len()
    &&& pairs_map(all[first]).contains_key(k)
    &&& !names_contain(excluded, k)
    &&& others_agree(all, labels, i, first, k, labels.len() as int)
}

/// Whether the common attributes are taken out of run `i`: it has a label,
/// and its scope has a second run unless single runs are stripped too.
pub open spec fn strips(labels: Seq<Option<Seq<char>>>, strip_alone: bool, i: int) -> bool {
    labels[i] is Some && (strip_alone || scope_size(labels, i, labels.len() as int) >= 2)
}

/// The predicate of the keys that are common to the scope of run `i`.
pub open spec fn common_filter(
    all: Seq<Seq<Pair>>,
    labels: Seq<Option<Seq<char>>>,
    excluded: Seq<String>,
    i: int,
) -> spec_fn(Seq<char>) -> bool {
    |k: Seq<char>| is_common(all, labels, excluded, i, k)
}

/// The predicate of the keys that are not common to the scope of run `i`.
pub open spec fn kept_after_strip(
    all: Seq<Seq<Pair>>,
    labels: Seq<Option<Seq<char>>>,
    excluded: Seq<String>,
    i: int,
) -> spec_fn(Seq<char>) -> bool {
    |k: Seq<char>| !is_common(all, labels, excluded, i, k)
}

/// The entries of run `i` that are common to its scope.
pub open spec fn common_pairs(
    all: Seq<Seq<Pair>>,
    labels: Seq<Option<Seq<char>>>,
    excluded: Seq<String>,
    i: int,
) -> Seq<Pair> {
    select_pairs(all[i], common_filter(all, labels, excluded, i), all[i].len() as int)
}

/// The entries of run `i` after the common attributes of its scope have been
/// taken out, where they are taken out of it.
pub open spec fn stripped_pairs(
    all: Seq<Seq<Pair>>,
    labels: Seq<Option<Seq<char>>>,
    excluded: Seq<String>,
    strip_alone: bool,
    i: int,
) -> Seq<Pair> {
    if strips(labels, strip_alone, i) {
        select_pairs(all[i], kept_after_strip(all, labels, excluded, i), all[i].len() as int)
    } else {
        all[i]
    }
}

/// What an entry of the table of common attributes holds: a scope's label and
/// the attributes common to the scope.
pub struct CommonView {
    pub group_key: Seq<char>,
    pub common: Seq<Pair>,
}

/// Whether run `i` gives the table an entry: it is the first run of a scope
/// of two runs or more.
pub open spec fn heads_shared_scope(labels: Seq<Option<Seq<char>>>, i: int) -> bool {
    &&& labels[i] is Some
    &&& scope_first(labels, i, 0) == i
    &&& scope_size(labels, i, labels.len() as int) >= 2
}

/// The table of common attributes after the first `n` runs: one entry for
/// each scope of two runs or more, in the order of the scopes' first runs.
pub open spec fn common_table(
    all: Seq<Seq<Pair>>,
    labels: Seq<Option<Seq<char>>>,
    excluded: Seq<String>,
    n: int,
) -> Seq<CommonView>
    decreases n,
{
    if n <= 0 || n > labels.len() {
        Seq::empty()
    } else if heads_shared_scope(labels, n - 1) {
        common_table(all, labels, excluded, n - 1).push(
            CommonView {
                group_key: labels[n - 1]->Some_0,
                common: common_pairs(all, labels, excluded, n - 1),
            },
        )
    } else {
        common_table(all, labels, excluded, n - 1)
    }
}

/// Whether two labels name one scope.
fn labels_match(labels: &Vec<Option<String>>, i: usize, j: usize) -> (r: bool)
    requires
        i < labels.len(),
        j < labels.len(),
    ensures
        r == same_scope(label_views(labels@), i as int, j as int),
{
    match (&labels[i], &labels[j]) {
        (Some(a), Some(b)) => text_eq(a.as_str(), b.as_str()),
        _ => false,
    }
}

/// The first run in the scope of run `i`.
pub fn find_scope_first(labels: &Vec<Option<String>>, i: usize) -> (r: usize)
    requires
        i < labels.len(),
    ensures
        r == scope_first(label_views(labels@), i as int, 0),
        r <= labels.len(),
{
    let ghost lv = label_views(labels@);
    let mut j: usize = 0;
    while j < labels.len()
        invariant
            j <= labels.len(),
            i < labels.len(),
            lv == label_views(labels@),
            scope_first(lv, i as int, 0) == scope_first(lv, i as int, j as int),
        decreases labels.len() - j,
    {
        if labels_match(labels, i, j) {
            return j;
        }
        j += 1;
    }
    j
}

/// Whether the scope of run `i` has two runs or more.
pub fn scope_is_shared(labels: &Vec<Option<String>>, i: usize) -> (r: bool)
    requires
        i < labels.len(),
    ensures
        r == (scope_size(label_views(labels@), i as int, labels@.len() as int) >= 2),
{
    let ghost lv = label_views(labels@);
    let mut seen: usize = 0;
    let mut j: usize = 0;
    while j < labels.len()
        invariant
            j <= labels.len(),
            i < labels.len(),
            lv == label_views(labels@),
            seen <= 2,
            seen < 2 ==> seen == scope_size(lv, i as int, j as int),
            seen == 2 ==> scope_size(lv, i as int, j as int) >= 2,
        decreases labels.len() - j,
    {
        if seen < 2 && labels_match(labels, i, j) {
            seen += 1;
        }
        j += 1;
    }
    seen >= 2
}

/// Whether a key is common to the scope of run `i`.
pub fn key_is_common(
    maps: &Vec<AttributeMap>,
    labels: &Vec<Option<String>>,
    excluded: &Vec<String>,
    i: usize,
    key: &str,
) -> (r: bool)
    requires
        maps.len() == labels.len(),
        i < labels.len(),
        all_well_formed(maps@),
    ensures
        r == is_common(pairs_of_all(maps@), label_views(labels@), excluded@, i as int, key@),
{
    let ghost all = pairs_of_all(maps@);
    let ghost lv = label_views(labels@);
    let first = find_scope_first(labels, i);
    if first >= labels.len() {
        return false;
    }
    assert(maps@[first as int].well_formed());
    assert(all[first as int] == maps@[first as int].pairs());
    let value = match maps[first].get(key) {
        None => {
            return false;
        },
        Some(value) => value,
    };
    if list_contains(excluded, key) {
        return false;
    }
    let mut j: usize = 0;
    while j < labels.len()
        invariant
            j <= labels.len(),
            maps.len() == labels.len(),
            i < labels.len(),
            first < labels.len(),
            all == pairs_of_all(maps@),
            lv == label_views(labels@),
            all_well_formed(maps@),
            first == scope_first(lv, i as int, 0),
            pairs_map(all[first as int]).contains_key(key@),
            !names_contain(excluded@, key@),
            value@ == pairs_map(all[first as int])[key@],
            others_agree(all, lv, i as int, first as int, key@, j as int),
        decreases labels.len() - j,
    {
        if j != first && labels_match(labels, i, j) {
            assert(maps@[j as int].well_formed());
            assert(all[j as int] == maps@[j as int].pairs());
            match maps[j].get(key) {
                None => {
                    proof {
                        lemma_disagreement_stays(
                            all,
                            lv,
                            i as int,
                            first as int,
                            key@,
                            j as int + 1,
                            labels@.len() as int,
                        );
                    }
                    return false;
                },
                Some(other) => {
                    if !other.is_same(value) {
                        proof {
                            lemma_disagreement_stays(
                                all,
                                lv,
                                i as int,
                                first as int,
                                key@,
                                j as int + 1,
                                labels@.len() as int,
                            );
                        }
                        return false;
                    }
                },
            }
        }
        j += 1;
    }
    true
}

/// A disagreement among the first `n` runs is one among any more.
pub proof fn lemma_disagreement_stays(
    all: Seq<Seq<Pair>>,
    labels: Seq<Option<Seq<char>>>,
    i: int,
    first: int,
    k: Seq<char>,
    n: int,
    m: int,
)
    requires
        0 <= n <= m <= labels.len(),
        !others_agree(all, labels, i, first, k, n),
    ensures
        !others_agree(all, labels, i, first, k, m),
    decreases m - n,
{
    if n < m {
        lemma_disagreement_stays(all, labels, i, first, k, n, m - 1);
    }
}

/// The entries of run `i` that are common to its scope, or those that are
/// not.
pub fn select_by_common(
    maps: &Vec<AttributeMap>,
    labels: &Vec<Option<String>>,
    excluded: &Vec<String>,
    i: usize,
    common: bool,
) -> (r: AttributeMap)
    requires
        maps.len() == labels.len(),
        i < labels.len(),
        all_well_formed(maps@),
    ensures
        r.well_formed(),
        r.pairs() == select_pairs(
            pairs_of_all(maps@)[i as int],
            if common {
                common_filter(pairs_of_all(maps@), label_views(labels@), excluded@, i as int)
            } else {
                kept_after_strip(pairs_of_all(maps@), label_views(labels@), excluded@, i as int)
            },
            pairs_of_all(maps@)[i as int].len() as int,
        ),
{
    let ghost all = pairs_of_all(maps@);
    let ghost lv = label_views(labels@);
    let ghost s = all[i as int];
    let ghost wanted = if common {
        common_filter(all, lv, excluded@, i as int)
    } else {
        kept_after_strip(all, lv, excluded@, i as int)
    };
    assert(maps@[i as int].well_formed());
    let source = &maps[i];
    let mut out = AttributeMap::new();
    let mut e: usize = 0;
    while e < source.len()
        invariant
            e <= s.len(),
            maps.len() == labels.len(),
            i < labels.len(),
            all_well_formed(maps@),
            all == pairs_of_all(maps@),
            lv == label_views(labels@),
            s == all[i as int],
            s == source.pairs(),
            *source == maps@[i as int],
            keys_increase(s),
            wanted == if common {
                common_filter(all, lv, excluded@, i as int)
            } else {
                kept_after_strip(all, lv, excluded@, i as int)
            },
            out.well_formed(),
            out.pairs() == select_pairs(s, wanted, e as int),
        decreases s.len() - e,
    {
        let key = source.key_at(e);
        let is = key_is_common(maps, labels, excluded, i, key.as_str());
        if is == common {
            proof {
                lemma_select_below(s, wanted, e as int, s[e as int].0);
            }
            out.push_last(key.clone(), source.value_at(e).clone());
        }
        e += 1;
    }
    out
}

/// Whether every run in the scope of run `i`, but for the run `first`, has
/// the key with exactly the value that `first` has under it.
pub open spec fn every_other_agrees(
    all: Seq<Seq<Pair>>,
    labels: Seq<Option<Seq<char>>>,
    i: int,
    first: int,
    k: Seq<char>,
) -> bool {
    forall|j: int|
        0 <= j < labels.len() && j != first && #[trigger] same_scope(labels, i, j) ==> pairs_map(
            all[j],
        ).contains_key(k) && same_value(pairs_map(all[j])[k], pairs_map(all[first])[k])
}

/// The first `n` runs agree exactly when each of them does.
pub proof fn lemma_others_agree(
    all: Seq<Seq<Pair>>,
    labels: Seq<Option<Seq<char>>>,
    i: int,
    first: int,
    k: Seq<char>,
    n: int,
)
    requires
        0 <= n <= labels.len(),
    ensures
        others_agree(all, labels, i, first, k, n) <==> forall|j: int|
            0 <= j < n && j != first && #[trigger] same_scope(labels, i, j) ==> pairs_map(
                all[j],
            ).contains_key(k) && same_value(pairs_map(all[j])[k], pairs_map(all[first])[k]),
    decreases n,
{
    if n > 0 {
        lemma_others_agree(all, labels, i, first, k, n - 1);
        if others_agree(all, labels, i, first, k, n) {
            assert forall|j: int|
                0 <= j < n && j != first && #[trigger] same_scope(
                    labels,
                    i,
                    j,
                ) implies pairs_map(all[j]).contains_key(k) && same_value(
                pairs_map(all[j])[k],
                pairs_map(all[first])[k],
            ) by {
                if j < n - 1 {
                }
            }
        }
    }
}

/// The first run of the scope of a labelled run: it is in the scope, it is
/// not behind the run, and no earlier run is in the scope.
pub proof fn lemma_scope_first(labels: Seq<Option<Seq<char>>>, i: int, from: int)
    requires
        0 <= from <= i < labels.len(),
        labels[i] is Some,
    ensures
        from <= scope_first(labels, i, from) <= i,
        same_scope(labels, i, scope_first(labels, i, from)),
        forall|j: int| from <= j < scope_first(labels, i, from) ==> !same_scope(labels, i, j),
    decreases i - from,
{
    if from < i && !same_scope(labels, i, from) {
        lemma_scope_first(labels, i, from + 1);
    }
}

/// Two runs of one scope have the same first run.
pub proof fn lemma_scope_first_shared(labels: Seq<Option<Seq<char>>>, i: int, j: int, from: int)
    requires
        0 <= i < labels.len(),
        0 <= j < labels.len(),
        0 <= from,
        same_scope(labels, i, j),
    ensures
        scope_first(labels, i, from) == scope_first(labels, j, from),
    decreases labels.len() - from,
{
    if from < labels.len() {
        lemma_scope_first_shared(labels, i, j, from + 1);
    }
}

/// Two runs of one scope see the same agreement.
pub proof fn lemma_others_agree_shared(
    all: Seq<Seq<Pair>>,
    labels: Seq<Option<Seq<char>>>,
    i: int,
    j: int,
    first: int,
    k: Seq<char>,
    n: int,
)
    requires
        0 <= i < labels.len(),
        0 <= j < labels.len(),
        same_scope(labels, i, j),
    ensures
        others_agree(all, labels, i, first, k, n) == others_agree(all, labels, j, first, k, n),
    decreases n,
{
    if 0 < n <= labels.len() {
        lemma_others_agree_shared(all, labels, i, j, first, k, n - 1);
    }
}

/// What is common to the scope of a run is common to the scope of every run
/// of that scope.
pub proof fn lemma_common_shared(
    all: Seq<Seq<Pair>>,
    labels: Seq<Option<Seq<char>>>,
    excluded: Seq<String>,
    i: int,
    j: int,
    k: Seq<char>,
)
    requires
        0 <= i < labels.len(),
        0 <= j < labels.len(),
        same_scope(labels, i, j),
    ensures
        is_common(all, labels, excluded, i, k) == is_common(all, labels, excluded, j, k),
{
    lemma_scope_first_shared(labels, i, j, 0);
    lemma_others_agree_shared(
        all,
        labels,
        i,
        j,
        scope_first(labels, i, 0),
        k,
        labels.len() as int,
    );
}

/// What it is to be common, said of every run: a key is common to the scope
/// of a labelled run exactly when it is not excluded, the scope's first run
/// has it, and every other run of the scope has it with exactly the first
/// run's value.
pub proof fn lemma_is_common(
    all: Seq<Seq<Pair>>,
    labels: Seq<Option<Seq<char>>>,
    excluded: Seq<String>,
    i: int,
    k: Seq<char>,
)
    requires
        0 <= i < labels.len(),
        labels[i] is Some,
    ensures
        is_common(all, labels, excluded, i, k) <==> {
            &&& !names_contain(excluded, k)
            &&& pairs_map(all[scope_first(labels, i, 0)]).contains_key(k)
            &&& every_other_agrees(all, labels, i, scope_first(labels, i, 0), k)
        },
{
    lemma_scope_first(labels, i, 0);
    lemma_others_agree(all, labels, i, scope_first(labels, i, 0), k, labels.len() as int);
}

/// What is left of a run after stripping: the attributes that are not common
/// to its scope, each with its value, and no other; in particular every
/// excluded attribute that the run had.
pub proof fn lemma_stripped_content(
    all: Seq<Seq<Pair>>,
    labels: Seq<Option<Seq<char>>>,
    excluded: Seq<String>,
    strip_alone: bool,
    i: int,
    k: Seq<char>,
)
    requires
        0 <= i < labels.len(),
        all.len() == labels.len(),
        keys_increase(all[i]),
        strips(labels, strip_alone, i),
    ensures
        keys_increase(stripped_pairs(all, labels, excluded, strip_alone, i)),
        pairs_map(stripped_pairs(all, labels, excluded, strip_alone, i)).contains_key(k) <==> (
        pairs_map(all[i]).contains_key(k) && !is_common(all, labels, excluded, i, k)),
        pairs_map(stripped_pairs(all, labels, excluded, strip_alone, i)).contains_key(k)
            ==> pairs_map(stripped_pairs(all, labels, excluded, strip_alone, i))[k] == pairs_map(
            all[i],
        )[k],
        names_contain(excluded, k) && pairs_map(all[i]).contains_key(k) ==> pairs_map(
            stripped_pairs(all, labels, excluded, strip_alone, i),
        ).contains_key(k),
{
    let wanted = kept_after_strip(all, labels, excluded, i);
    lemma_select_increases(all[i], wanted, all[i].len() as int);
    lemma_select_map(all[i], wanted, all[i].len() as int);
    lemma_key_before_all(all[i], k);
    assert(wanted(k) == !is_common(all, labels, excluded, i, k));
}

/// What a table entry records for a scope: the attributes of the scope's
/// first run that are common to the scope, each with its value, and no other.
pub proof fn lemma_common_content(
    all: Seq<Seq<Pair>>,
    labels: Seq<Option<Seq<char>>>,
    excluded: Seq<String>,
    i: int,
    k: Seq<char>,
)
    requires
        0 <= i < labels.len(),
        all.len() == labels.len(),
        keys_increase(all[i]),
    ensures
        keys_increase(common_pairs(all, labels, excluded, i)),
        pairs_map(common_pairs(all, labels, excluded, i)).contains_key(k) <==> (pairs_map(
            all[i],
        ).contains_key(k) && is_common(all, labels, excluded, i, k)),
        pairs_map(common_pairs(all, labels, excluded, i)).contains_key(k) ==> pairs_map(
            common_pairs(all, labels, excluded, i),
        )[k] == pairs_map(all[i])[k],
{
    let wanted = common_filter(all, labels, excluded, i);
    lemma_select_increases(all[i], wanted, all[i].len() as int);
    lemma_select_map(all[i], wanted, all[i].len() as int);
    lemma_key_before_all(all[i], k);
    assert(wanted(k) == is_common(all, labels, excluded, i, k));
}

/// The common attributes of a scope of two runs or more, said of two of its
/// runs `i` and `j`: what is taken out of one is taken out of the other; a
/// key that is taken out is not excluded, and `j` had it, with exactly the
/// value of the scope's first run; after stripping `j` holds none of the keys
/// taken out and all its other attributes, the excluded ones among them.
pub proof fn lemma_common_attributes(
    all: Seq<Seq<Pair>>,
    labels: Seq<Option<Seq<char>>>,
    excluded: Seq<String>,
    i: int,
    j: int,
    k: Seq<char>,
)
    requires
        all.len() == labels.len(),
        0 <= i < labels.len(),
        0 <= j < labels.len(),
        keys_increase(all[j]),
        same_scope(labels, i, j),
        scope_size(labels, i, labels.len() as int) >= 2,
    ensures
        is_common(all, labels, excluded, i, k) == is_common(all, labels, excluded, j, k),
        is_common(all, labels, excluded, i, k) ==> {
            &&& !names_contain(excluded, k)
            &&& pairs_map(all[j]).contains_key(k)
            &&& (j != scope_first(labels, i, 0) ==> same_value(
                pairs_map(all[j])[k],
                pairs_map(all[scope_first(labels, i, 0)])[k],
            ))
            &&& !pairs_map(stripped_pairs(all, labels, excluded, false, j)).contains_key(k)
        },
        !is_common(all, labels, excluded, i, k) && pairs_map(all[j]).contains_key(k)
            ==> pairs_map(stripped_pairs(all, labels, excluded, false, j)).contains_key(k),
        names_contain(excluded, k) && pairs_map(all[j]).contains_key(k) ==> pairs_map(
            stripped_pairs(all, labels, excluded, false, j),
        ).contains_key(k),
{
    lemma_common_shared(all, labels, excluded, i, j, k);
    lemma_scope_size_shared(labels, i, j, labels.len() as int);
    lemma_stripped_content(all, labels, excluded, false, j, k);
    lemma_is_common(all, labels, excluded, i, k);
    lemma_scope_first(labels, i, 0);
    let first = scope_first(labels, i, 0);
    if is_common(all, labels, excluded, i, k) {
        if j != first {
            assert(same_scope(labels, i, j));
        }
    }
}

/// Two runs of one scope see the same size of it.
pub proof fn lemma_scope_size_shared(labels: Seq<Option<Seq<char>>>, i: int, j: int, n: int)
    requires
        0 <= i < labels.len(),
        0 <= j < labels.len(),
        same_scope(labels, i, j),
    ensures
        scope_size(labels, i, n) == scope_size(labels, j, n),
    decreases n,
{
    if 0 < n <= labels.len() {
        lemma_scope_size_shared(labels, i, j, n - 1);
    }
}

} // verus!
