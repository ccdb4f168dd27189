//! The flat attribute mapping of a run: keys are dotted paths, values are
//! attribute values. Entries are kept in key order, so that two mappings with
//! the same content are the same sequence of entries however they were built.
use crate::parameter_value::{ParameterValue, ValueView};
use crate::text::{key_less, lemma_lex_asymmetric, lemma_lex_total, lemma_lex_transitive, lex_less, text_eq};
use vstd::prelude::*;

verus! {

/// One entry: a key and its value.
#[derive(Debug, PartialEq)]
pub struct Attribute {
    pub key: String,
    pub value: ParameterValue,
}

/// A mapping from keys to values.
#[derive(Debug, PartialEq)]
pub struct AttributeMap {
    entries: Vec<Attribute>,
}

/// What an entry holds.
pub type Pair = (Seq<char>, ValueView);

/// Whether the keys of a sequence of entries strictly increase.
pub open spec fn keys_increase(s: Seq<Pair>) -> bool {
    forall|i: int, j: int| 0 <= i < j < s.len() ==> lex_less(#[trigger] s[i].0, #[trigger] s[j].0)
}

/// Whether entry `i` of the sequence has the key `k`.
pub open spec fn key_at_index(s: Seq<Pair>, k: Seq<char>, i: int) -> bool {
    0 <= i < s.len() && s[i].0 == k
}

/// The mapping that a sequence of entries stands for: its keys are the keys
/// of the entries, each with the value of the entry that has it.
#[verifier::opaque]
pub open spec fn pairs_map(s: Seq<Pair>) -> Map<Seq<char>, ValueView> {
    Map::new(
        |k: Seq<char>| exists|i: int| key_at_index(s, k, i),
        |k: Seq<char>| s[choose|i: int| key_at_index(s, k, i)].1,
    )
}

/// In a sequence whose keys increase, two entries with the same key are one
/// entry.
pub proof fn lemma_keys_distinct(s: Seq<Pair>, i: int, j: int)
    requires
        keys_increase(s),
        0 <= i < s.len(),
        0 <= j < s.len(),
        s[i].0 == s[j].0,
    ensures
        i == j,
{
    if i < j {
        lemma_lex_asymmetric(s[i].0, s[j].0);
    } else if j < i {
        lemma_lex_asymmetric(s[j].0, s[i].0);
    }
}

/// Each entry of a sequence whose keys increase is in the mapping, with its
/// value.
pub proof fn lemma_entry_in_map(s: Seq<Pair>, i: int)
    requires
        keys_increase(s),
        0 <= i < s.len(),
    ensures
        pairs_map(s).contains_key(s[i].0),
        pairs_map(s)[s[i].0] == s[i].1,
{
    reveal(pairs_map);
    let k = s[i].0;
    assert(key_at_index(s, k, i));
    let j = choose|j: int| key_at_index(s, k, j);
    lemma_keys_distinct(s, i, j);
}

/// The key of an entry is a key of the mapping.
pub proof fn lemma_index_is_key(s: Seq<Pair>, k: Seq<char>, i: int)
    requires
        key_at_index(s, k, i),
    ensures
        pairs_map(s).contains_key(k),
{
    reveal(pairs_map);
}

/// A key of the mapping is the key of some entry.
pub proof fn lemma_key_has_entry(s: Seq<Pair>, k: Seq<char>) -> (i: int)
    requires
        pairs_map(s).contains_key(k),
    ensures
        key_at_index(s, k, i),
{
    reveal(pairs_map);
    choose|i: int| key_at_index(s, k, i)
}

impl AttributeMap {
    /// The entries, in key order.
    pub closed spec fn pairs(&self) -> Seq<Pair> {
        Seq::new(
            self.entries@.len(),
            |i: int| (self.entries@[i].key@, self.entries@[i].value@),
        )
    }

    /// The keys strictly increase.
    pub open spec fn well_formed(&self) -> bool {
        keys_increase(self.pairs())
    }
}

impl View for AttributeMap {
    type V = Map<Seq<char>, ValueView>;

    open spec fn view(&self) -> Map<Seq<char>, ValueView> {
        pairs_map(self.pairs())
    }
}

/// Where a key stands, or would stand, in a sequence of entries.
struct Position {
    index: usize,
    found: bool,
}

impl AttributeMap {
    /// The empty mapping.
    pub fn new() -> (r: Self)
        ensures
            r.well_formed(),
            r@ == Map::<Seq<char>, ValueView>::empty(),
            r.pairs() == Seq::<Pair>::empty(),
    {
        let r = AttributeMap { entries: Vec::new() };
        assert(r.pairs() =~= Seq::<Pair>::empty());
        proof {
            reveal(pairs_map);
        }
        assert(r@ =~= Map::<Seq<char>, ValueView>::empty());
        r
    }

    /// The number of entries.
    pub fn len(&self) -> (n: usize)
        ensures
            n == self.pairs().len(),
    {
        self.entries.len()
    }

    /// Whether the mapping has no entry.
    pub fn is_empty(&self) -> (r: bool)
        ensures
            r == (self.pairs().len() == 0),
    {
        self.entries.len() == 0
    }

    /// The key of entry `i`, in key order.
    pub fn key_at(&self, i: usize) -> (k: &String)
        requires
            i < self.pairs().len(),
        ensures
            k@ == self.pairs()[i as int].0,
    {
        &self.entries[i].key
    }

    /// The value of entry `i`, in key order.
    pub fn value_at(&self, i: usize) -> (v: &ParameterValue)
        requires
            i < self.pairs().len(),
        ensures
            v@ == self.pairs()[i as int].1,
    {
        &self.entries[i].value
    }

    fn locate(&self, key: &str) -> (p: Position)
        requires
            self.well_formed(),
        ensures
            p.index <= self.pairs().len(),
            p.found == self@.contains_key(key@),
            p.found ==> p.index < self.pairs().len() && self.pairs()[p.index as int].0 == key@,
            forall|j: int| 0 <= j < p.index ==> lex_less(#[trigger] self.pairs()[j].0, key@),
            !p.found ==> forall|j: int|
                p.index <= j < self.pairs().len() ==> lex_less(key@, #[trigger] self.pairs()[j].0),
    {
        let ghost s = self.pairs();
        let mut i: usize = 0;
        proof {
            reveal(pairs_map);
        }
        while i < self.entries.len()
            invariant
                i <= self.entries.len(),
                s == self.pairs(),
                s.len() == self.entries.len(),
                keys_increase(s),
                forall|j: int| 0 <= j < i ==> lex_less(#[trigger] s[j].0, key@),
            decreases self.entries.len() - i,
        {
            let here = self.entries[i].key.as_str();
            if !key_less(here, key) {
                let found = text_eq(here, key);
                proof {
                    reveal(pairs_map);
                    if found {
                        assert(key_at_index(s, key@, i as int));
                    } else {
                        lemma_lex_total(s[i as int].0, key@);
                        assert forall|j: int| i <= j < s.len() implies lex_less(
                            key@,
                            #[trigger] s[j].0,
                        ) by {
                            if i < j {
                                lemma_lex_transitive(key@, s[i as int].0, s[j].0);
                            }
                        }
                        if self@.contains_key(key@) {
                            let j = lemma_key_has_entry(s, key@);
                            if j < i {
                                lemma_lex_asymmetric(s[j].0, key@);
                            } else {
                                lemma_lex_asymmetric(key@, s[j].0);
                            }
                        }
                    }
                }
                return Position { index: i, found };
            }
            i += 1;
        }
        proof {
            reveal(pairs_map);
            if self@.contains_key(key@) {
                let j = lemma_key_has_entry(s, key@);
                lemma_lex_asymmetric(s[j].0, key@);
            }
        }
        Position { index: i, found: false }
    }

    /// Whether the mapping has the key.
    pub fn contains_key(&self, key: &str) -> (r: bool)
        requires
            self.well_formed(),
        ensures
            r == self@.contains_key(key@),
    {
        self.locate(key).found
    }

    /// The value under the key, if the mapping has it.
    pub fn get(&self, key: &str) -> (r: Option<&ParameterValue>)
        requires
            self.well_formed(),
        ensures
            r is Some == self@.contains_key(key@),
            r is Some ==> r->Some_0@ == self@[key@],
    {
        let p = self.locate(key);
        if p.found {
            proof {
                lemma_entry_in_map(self.pairs(), p.index as int);
            }
            Some(&self.entries[p.index].value)
        } else {
            None
        }
    }

    /// Puts the value under the key, in place of the value that the key had,
    /// if it had one.
    pub fn insert(&mut self, key: String, value: ParameterValue)
        requires
            old(self).well_formed(),
        ensures
            final(self).well_formed(),
            final(self)@ == old(self)@.insert(key@, value@),
    {
        let p = self.locate(key.as_str());
        let ghost before = self.pairs();
        let ghost k = key@;
        let ghost v = value@;
        if p.found {
            let _ = self.entries.remove(p.index);
            self.entries.insert(p.index, Attribute { key, value });
            proof {
                reveal(pairs_map);
                let after = self.pairs();
                assert(after =~= before.update(p.index as int, (k, v)));
                assert(keys_increase(after));
                assert forall|q: Seq<char>| after_has(after, before, q, k) by {
                    if pairs_map(after).contains_key(q) {
                        let j = lemma_key_has_entry(after, q);
                        assert(key_at_index(before, before[j].0, j));
                    }
                    if pairs_map(before).contains_key(q) {
                        let j = lemma_key_has_entry(before, q);
                        assert(key_at_index(after, after[j].0, j));
                    }
                    assert(key_at_index(after, k, p.index as int));
                }
                assert forall|q: Seq<char>| #[trigger]
                    pairs_map(after).contains_key(q) implies pairs_map(after)[q] == (if q == k {
                    v
                } else {
                    pairs_map(before)[q]
                }) by {
                    let j = lemma_key_has_entry(after, q);
                    lemma_entry_in_map(after, j);
                    if q != k {
                        lemma_entry_in_map(before, j);
                    } else {
                        lemma_keys_distinct(after, j, p.index as int);
                    }
                }
                assert forall|q: Seq<char>|
                    pairs_map(after).contains_key(q) == pairs_map(before).insert(
                        k,
                        v,
                    ).contains_key(q) by {
                    assert(after_has(after, before, q, k));
                }
                assert(pairs_map(after) =~= pairs_map(before).insert(k, v));
            }
        } else {
            self.entries.insert(p.index, Attribute { key, value });
            proof {
                reveal(pairs_map);
                let after = self.pairs();
                assert(after =~= before.insert(p.index as int, (k, v)));
                assert forall|i: int, j: int| 0 <= i < j < after.len() implies lex_less(
                    #[trigger] after[i].0,
                    #[trigger] after[j].0,
                ) by {
                    if j < p.index {
                        assert(after[i] == before[i] && after[j] == before[j]);
                    } else if j == p.index {
                        assert(after[i] == before[i]);
                    } else if i < p.index {
                        assert(after[i] == before[i] && after[j] == before[j - 1]);
                    } else if i == p.index {
                        assert(after[j] == before[j - 1]);
                    } else {
                        assert(after[i] == before[i - 1] && after[j] == before[j - 1]);
                    }
                }
                assert forall|q: Seq<char>| after_has(after, before, q, k) by {
                    if pairs_map(after).contains_key(q) && q != k {
                        let j = lemma_key_has_entry(after, q);
                        if j < p.index {
                            assert(key_at_index(before, q, j));
                        } else {
                            assert(key_at_index(before, q, j - 1));
                        }
                    }
                    if pairs_map(before).contains_key(q) {
                        let j = lemma_key_has_entry(before, q);
                        if j < p.index {
                            assert(key_at_index(after, q, j));
                        } else {
                            assert(key_at_index(after, q, j + 1));
                        }
                    }
                    assert(key_at_index(after, k, p.index as int));
                }
                assert forall|q: Seq<char>| #[trigger]
                    pairs_map(after).contains_key(q) implies pairs_map(after)[q] == (if q == k {
                    v
                } else {
                    pairs_map(before)[q]
                }) by {
                    let j = lemma_key_has_entry(after, q);
                    lemma_entry_in_map(after, j);
                    if q != k {
                        if j < p.index {
                            lemma_entry_in_map(before, j);
                        } else {
                            lemma_keys_distinct(after, j, j);
                            assert(j != p.index);
                            lemma_entry_in_map(before, j - 1);
                        }
                    } else {
                        lemma_keys_distinct(after, j, p.index as int);
                    }
                }
                assert forall|q: Seq<char>|
                    pairs_map(after).contains_key(q) == pairs_map(before).insert(
                        k,
                        v,
                    ).contains_key(q) by {
                    assert(after_has(after, before, q, k));
                }
                assert(pairs_map(after) =~= pairs_map(before).insert(k, v));
            }
        }
    }

    /// Takes the key and its value out, if the mapping has the key.
    pub fn remove(&mut self, key: &str)
        requires
            old(self).well_formed(),
        ensures
            final(self).well_formed(),
            final(self)@ == old(self)@.remove(key@),
    {
        let p = self.locate(key);
        let ghost before = self.pairs();
        let ghost k = key@;
        if p.found {
            let _ = self.entries.remove(p.index);
            proof {
                reveal(pairs_map);
                let after = self.pairs();
                assert(after =~= before.remove(p.index as int));
                assert forall|i: int, j: int| 0 <= i < j < after.len() implies lex_less(
                    #[trigger] after[i].0,
                    #[trigger] after[j].0,
                ) by {
                    let bi = if i < p.index { i } else { i + 1 };
                    let bj = if j < p.index { j } else { j + 1 };
                    assert(after[i] == before[bi] && after[j] == before[bj]);
                }
                assert forall|q: Seq<char>|
                    pairs_map(after).contains_key(q) == pairs_map(before).remove(k).contains_key(
                        q,
                    ) by {
                    if pairs_map(after).contains_key(q) {
                        let j = lemma_key_has_entry(after, q);
                        let bj = if j < p.index { j } else { j + 1 };
                        assert(key_at_index(before, q, bj));
                        lemma_keys_distinct(before, bj, bj);
                        if q == k {
                            lemma_keys_distinct(before, bj, p.index as int);
                        }
                    }
                    if pairs_map(before).contains_key(q) && q != k {
                        let j = lemma_key_has_entry(before, q);
                        if j < p.index {
                            assert(key_at_index(after, q, j));
                        } else {
                            assert(key_at_index(after, q, j - 1));
                        }
                    }
                }
                assert forall|q: Seq<char>| #[trigger]
                    pairs_map(after).contains_key(q) implies pairs_map(after)[q] == pairs_map(
                    before,
                )[q] by {
                    let j = lemma_key_has_entry(after, q);
                    lemma_entry_in_map(after, j);
                    let bj = if j < p.index { j } else { j + 1 };
                    lemma_entry_in_map(before, bj);
                }
                assert(pairs_map(after) =~= pairs_map(before).remove(k));
            }
        } else {
            assert(self@ =~= old(self)@.remove(k));
        }
    }
}

impl AttributeMap {
    /// Adds an entry whose key comes after every key of the mapping.
    pub fn push_last(&mut self, key: String, value: ParameterValue)
        requires
            old(self).well_formed(),
            forall|j: int|
                0 <= j < old(self).pairs().len() ==> lex_less(
                    #[trigger] old(self).pairs()[j].0,
                    key@,
                ),
        ensures
            final(self).well_formed(),
            final(self).pairs() == old(self).pairs().push((key@, value@)),
    {
        let ghost before = self.pairs();
        let ghost pair = (key@, value@);
        self.entries.push(Attribute { key, value });
        assert(self.pairs() =~= before.push(pair));
    }
}

/// The entries among the first `n` whose key is wanted, in their order.
pub open spec fn select_pairs(s: Seq<Pair>, wanted: spec_fn(Seq<char>) -> bool, n: int) -> Seq<Pair>
    decreases n,
{
    if n <= 0 || n > s.len() {
        Seq::empty()
    } else if wanted(s[n - 1].0) {
        select_pairs(s, wanted, n - 1).push(s[n - 1])
    } else {
        select_pairs(s, wanted, n - 1)
    }
}

/// Whether one of the first `n` entries has the key `k`.
pub open spec fn key_before(s: Seq<Pair>, k: Seq<char>, n: int) -> bool {
    exists|i: int| key_at_index(s, k, i) && i < n
}

/// A key that is above the first `n` keys is above every key selected from
/// them.
pub proof fn lemma_select_below(
    s: Seq<Pair>,
    wanted: spec_fn(Seq<char>) -> bool,
    n: int,
    bound: Seq<char>,
)
    requires
        0 <= n <= s.len(),
        forall|i: int| 0 <= i < n ==> lex_less(#[trigger] s[i].0, bound),
    ensures
        forall|j: int|
            0 <= j < select_pairs(s, wanted, n).len() ==> lex_less(
                #[trigger] select_pairs(s, wanted, n)[j].0,
                bound,
            ),
    decreases n,
{
    if n > 0 {
        lemma_select_below(s, wanted, n - 1, bound);
        let before = select_pairs(s, wanted, n - 1);
        let now = select_pairs(s, wanted, n);
        assert forall|j: int| 0 <= j < now.len() implies lex_less(#[trigger] now[j].0, bound) by {
            if j < before.len() {
                assert(now[j] == before[j]);
            } else {
                assert(now[j] == s[n - 1]);
            }
        }
    }
}

/// The keys of a selection from increasing keys increase.
pub proof fn lemma_select_increases(s: Seq<Pair>, wanted: spec_fn(Seq<char>) -> bool, n: int)
    requires
        keys_increase(s),
        0 <= n <= s.len(),
    ensures
        keys_increase(select_pairs(s, wanted, n)),
        select_pairs(s, wanted, n).len() <= n,
    decreases n,
{
    if n > 0 {
        lemma_select_increases(s, wanted, n - 1);
        if wanted(s[n - 1].0) {
            lemma_select_below(s, wanted, n - 1, s[n - 1].0);
        }
    }
}

/// Adding an entry above all others adds its key to the mapping.
pub proof fn lemma_push_map(t: Seq<Pair>, p: Pair)
    requires
        keys_increase(t.push(p)),
    ensures
        keys_increase(t),
        pairs_map(t.push(p)) == pairs_map(t).insert(p.0, p.1),
{
    let u = t.push(p);
    let n = t.len() as int;
    assert(keys_increase(t)) by {
        assert forall|i: int, j: int| 0 <= i < j < t.len() implies lex_less(
            #[trigger] t[i].0,
            #[trigger] t[j].0,
        ) by {
            assert(u[i] == t[i] && u[j] == t[j]);
        }
    }
    assert forall|q: Seq<char>| #[trigger]
        pairs_map(u).contains_key(q) == pairs_map(t).insert(p.0, p.1).contains_key(q) by {
        if pairs_map(u).contains_key(q) {
            let j = lemma_key_has_entry(u, q);
            if j < n {
                lemma_index_is_key(t, q, j);
            }
        }
        if pairs_map(t).contains_key(q) {
            let j = lemma_key_has_entry(t, q);
            lemma_index_is_key(u, q, j);
        }
        lemma_index_is_key(u, p.0, n);
    }
    assert forall|q: Seq<char>| #[trigger]
        pairs_map(u).contains_key(q) implies pairs_map(u)[q] == pairs_map(t).insert(p.0, p.1)[q] by {
        let j = lemma_key_has_entry(u, q);
        lemma_entry_in_map(u, j);
        if j < n {
            lemma_entry_in_map(t, j);
            lemma_keys_distinct(u, j, j);
            if q == p.0 {
                lemma_keys_distinct(u, j, n);
            }
        }
    }
    assert(pairs_map(u) =~= pairs_map(t).insert(p.0, p.1));
}

/// The mapping of a selection: a key is in it exactly when one of the first
/// `n` entries has it and it is wanted, and it has its value from there.
pub proof fn lemma_select_map(s: Seq<Pair>, wanted: spec_fn(Seq<char>) -> bool, n: int)
    requires
        keys_increase(s),
        0 <= n <= s.len(),
    ensures
        forall|k: Seq<char>|
            #[trigger] pairs_map(select_pairs(s, wanted, n)).contains_key(k) == (key_before(
                s,
                k,
                n,
            ) && wanted(k)),
        forall|k: Seq<char>|
            #[trigger] pairs_map(select_pairs(s, wanted, n)).contains_key(k) ==> pairs_map(
                select_pairs(s, wanted, n),
            )[k] == pairs_map(s)[k],
    decreases n,
{
    let now = select_pairs(s, wanted, n);
    if n == 0 {
        assert forall|k: Seq<char>| !(#[trigger] pairs_map(now).contains_key(k)) by {
            if pairs_map(now).contains_key(k) {
                let _ = lemma_key_has_entry(now, k);
            }
        }
    } else {
        lemma_select_map(s, wanted, n - 1);
        lemma_select_increases(s, wanted, n);
        let before = select_pairs(s, wanted, n - 1);
        let p = s[n - 1];
        lemma_entry_in_map(s, n - 1);
        assert forall|k: Seq<char>| key_before(s, k, n) == (key_before(s, k, n - 1) || k == p.0) by {
            if key_before(s, k, n) {
                let i = choose|i: int| key_at_index(s, k, i) && i < n;
                if i < n - 1 {
                    assert(key_at_index(s, k, i) && i < n - 1);
                }
            }
            if key_before(s, k, n - 1) {
                let i = choose|i: int| key_at_index(s, k, i) && i < n - 1;
                assert(key_at_index(s, k, i) && i < n);
            }
            if k == p.0 {
                assert(key_at_index(s, k, n - 1) && n - 1 < n);
            }
        }
        if wanted(p.0) {
            lemma_push_map(before, p);
        }
    }
}

/// Whether any entry has the key `k`; the same as the key's being in the
/// mapping.
pub proof fn lemma_key_before_all(s: Seq<Pair>, k: Seq<char>)
    ensures
        key_before(s, k, s.len() as int) == pairs_map(s).contains_key(k),
{
    if key_before(s, k, s.len() as int) {
        let i = choose|i: int| key_at_index(s, k, i) && i < s.len();
        lemma_index_is_key(s, k, i);
    }
    if pairs_map(s).contains_key(k) {
        let i = lemma_key_has_entry(s, k);
        assert(key_at_index(s, k, i) && i < s.len());
    }
}

/// Whether `q` is a key after an insertion of `k` exactly when it was one
/// before, or is `k`.
pub open spec fn after_has(after: Seq<Pair>, before: Seq<Pair>, q: Seq<char>, k: Seq<char>) -> bool {
    pairs_map(after).contains_key(q) == (q == k || pairs_map(before).contains_key(q))
}

impl Clone for AttributeMap {
    fn clone(&self) -> (r: Self)
        ensures
            r.pairs() == self.pairs(),
            r@ == self@,
            r.well_formed() == self.well_formed(),
    {
        let mut entries: Vec<Attribute> = Vec::new();
        let mut i: usize = 0;
        while i < self.entries.len()
            invariant
                i <= self.entries.len(),
                entries.len() == i,
                forall|j: int|
                    0 <= j < i ==> entries[j].key@ == self.entries[j].key@ && entries[j].value@
                        == self.entries[j].value@,
            decreases self.entries.len() - i,
        {
            entries.push(
                Attribute { key: self.entries[i].key.clone(), value: self.entries[i].value.clone() },
            );
            i += 1;
        }
        let r = AttributeMap { entries };
        assert(r.pairs() =~= self.pairs());
        r
    }
}

/// A mapping has one sequence of entries: two sequences with increasing keys
/// that stand for the same mapping are the same sequence.
pub proof fn lemma_pairs_canonical(a: Seq<Pair>, b: Seq<Pair>)
    requires
        keys_increase(a),
        keys_increase(b),
        pairs_map(a) == pairs_map(b),
    ensures
        a == b,
    decreases a.len(),
{
    if a.len() == 0 {
        if b.len() > 0 {
            lemma_index_is_key(b, b[0].0, 0);
            let i = lemma_key_has_entry(a, b[0].0);
        }
        assert(a =~= b);
    } else {
        let la = a.len() - 1;
        lemma_index_is_key(a, a[la].0, la);
        let j = lemma_key_has_entry(b, a[la].0);
        let lb = b.len() - 1;
        lemma_index_is_key(b, b[lb].0, lb);
        let i = lemma_key_has_entry(a, b[lb].0);
        if j < lb {
            assert(lex_less(b[j].0, b[lb].0));
            if i < la {
                assert(lex_less(a[i].0, a[la].0));
                lemma_lex_asymmetric(a[i].0, a[la].0);
            } else {
                lemma_lex_asymmetric(b[j].0, b[lb].0);
            }
        }
        assert(j == lb);
        lemma_entry_in_map(a, la);
        lemma_entry_in_map(b, lb);
        assert(a[la] == b[lb]);
        let fa = a.drop_last();
        let fb = b.drop_last();
        assert(fa.push(a[la]) =~= a);
        assert(fb.push(b[lb]) =~= b);
        lemma_push_map(fa, a[la]);
        lemma_push_map(fb, b[lb]);
        let k = a[la].0;
        assert(!pairs_map(fa).contains_key(k)) by {
            if pairs_map(fa).contains_key(k) {
                let x = lemma_key_has_entry(fa, k);
                assert(a[x] == fa[x]);
                lemma_keys_distinct(a, x, la);
            }
        }
        assert(!pairs_map(fb).contains_key(k)) by {
            if pairs_map(fb).contains_key(k) {
                let x = lemma_key_has_entry(fb, k);
                assert(b[x] == fb[x]);
                lemma_keys_distinct(b, x, lb);
            }
        }
        assert(pairs_map(fa) =~= pairs_map(a).remove(k));
        assert(pairs_map(fb) =~= pairs_map(b).remove(k));
        lemma_pairs_canonical(fa, fb);
    }
}

impl AttributeMap {
    /// Two mappings that hold the same hold it in the same entries, in the
    /// same order, however they were built.
    pub proof fn lemma_same_content_same_entries(&self, other: &AttributeMap)
        requires
            self.well_formed(),
            other.well_formed(),
            self@ == other@,
        ensures
            self.pairs() == other.pairs(),
    {
        lemma_pairs_canonical(self.pairs(), other.pairs());
    }
}

} // verus!
