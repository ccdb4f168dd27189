//! The canonical hash of an attribute mapping: what is fed to the hasher, in
//! which order, and how the digest is written.
//!
//! Entries are taken in key order, so the hash depends on what the mapping
//! holds and not on how it was built. Values are fed in a form that forgets
//! what the tolerance forgets: texts in lower case unless case counts,
//! numbers as the index of the nearest multiple of the tolerance, integers
//! lowered to a multiple of the tolerance plus one.
use crate::attributes::{select_pairs, AttributeMap, Pair};
use crate::config::Config;
use crate::experiment_grouping::{list_contains, names_contain};
use crate::float_bits::{bits_number_key, number_key, NumberKey};
use crate::parameter_value::{
    lemma_list_view, BasicParameterValue, BasicView, ParameterValue, ToleranceConfig, ValueView,
};
use crate::text::{hex_text, lowercase_text, to_lowercase, u64_to_hex};
use std::collections::hash_map::DefaultHasher;
use std::hash::Hasher;
use vstd::arithmetic::div_mod::{lemma_fundamental_div_mod, lemma_fundamental_div_mod_converse};
use vstd::bytes::{
    spec_u128_to_le_bytes, spec_u64_to_le_bytes, u128_to_le_bytes, u64_to_le_bytes,
};
use vstd::prelude::*;
use vstd::std_specs::hash::DefaultHasherAdditionalSpecFns;
use vstd::string::*;
use vstd::utf8::encode_utf8;

verus! {

/// An integer lowered to the nearest multiple of the tolerance plus one that
/// is not above it. A tolerance of zero or less leaves the integer as it is.
pub open spec fn integer_bucket(i: i64, tol: i64) -> int {
    if tol <= 0 {
        i as int
    } else {
        i - (i as int) % (tol + 1)
    }
}

/// Two to the power 64, which lifts every integer bucket above zero.
pub const BUCKET_OFFSET: u128 = 0x1_0000_0000_0000_0000;

/// The bytes that stand for an integer.
pub open spec fn integer_bytes(i: i64, tol: i64) -> Seq<u8> {
    spec_u128_to_le_bytes((integer_bucket(i, tol) + BUCKET_OFFSET) as u128)
}

/// The bytes that stand for a number.
pub open spec fn number_bytes(k: NumberKey) -> Seq<u8> {
    if k.rounded {
        seq![1u8, if k.negative { 1u8 } else { 0u8 }] + spec_u128_to_le_bytes(k.index)
    } else {
        seq![0u8] + spec_u64_to_le_bytes(k.raw)
    }
}

/// What a text feeds to the hasher: its bytes, then a byte that no text
/// holds.
pub open spec fn text_writes(x: Seq<char>) -> Seq<Seq<u8>> {
    seq![encode_utf8(x), seq![0xffu8]]
}

/// What a leaf feeds to the hasher.
pub open spec fn leaf_writes(a: BasicView, tol: ToleranceConfig) -> Seq<Seq<u8>> {
    match a {
        BasicView::Text(x) => text_writes(
            if tol.string_case_sensitive {
                x
            } else {
                lowercase_text(x)
            },
        ),
        BasicView::Number(bits) => seq![number_bytes(number_key(bits, tol.float_tolerance))],
        BasicView::Integer(i) => seq![integer_bytes(i, tol.int_tolerance)],
        BasicView::Truth(b) => seq![seq![if b { 1u8 } else { 0u8 }]],
    }
}

/// What the first `n` items of a list feed to the hasher.
pub open spec fn items_writes(items: Seq<ValueView>, tol: ToleranceConfig, n: int) -> Seq<Seq<u8>>
    decreases items, n,
{
    if n <= 0 || n > items.len() {
        Seq::empty()
    } else {
        items_writes(items, tol, n - 1) + value_writes(items[n - 1], tol)
    }
}

/// What a value feeds to the hasher: a leaf as `leaf_writes` says, a list its
/// length and then its items in order.
pub open spec fn value_writes(a: ValueView, tol: ToleranceConfig) -> Seq<Seq<u8>>
    decreases a, 0int,
{
    match a {
        ValueView::Leaf(x) => leaf_writes(x, tol),
        ValueView::Items(xs) => seq![spec_u64_to_le_bytes(xs.len() as u64)] + items_writes(
            xs,
            tol,
            xs.len() as int,
        ),
    }
}

/// What a sequence of entries feeds to the hasher: for each entry in order,
/// its key as a text and then its value.
pub open spec fn pairs_writes(s: Seq<Pair>, tol: ToleranceConfig) -> Seq<Seq<u8>>
    decreases s.len(),
{
    if s.len() == 0 {
        Seq::empty()
    } else {
        pairs_writes(s.drop_last(), tol) + text_writes(s.last().0) + value_writes(s.last().1, tol)
    }
}

/// Whether a key is hashed: every key where there is no allow-list, else the
/// keys on it.
pub open spec fn hashed_filter(allow: Option<Vec<String>>) -> spec_fn(Seq<char>) -> bool {
    |k: Seq<char>|
        match allow {
            Some(names) => names_contain(names@, k),
            None => true,
        }
}

/// The hash of a mapping: the digest of what its hashed entries feed to the
/// hasher, in lower-case hexadecimal.
pub open spec fn params_hash(s: Seq<Pair>, allow: Option<Vec<String>>, tol: ToleranceConfig) -> Seq<
    char,
> {
    hex_text(
        DefaultHasher::spec_finish(
            pairs_writes(select_pairs(s, hashed_filter(allow), s.len() as int), tol),
        ) as nat,
    )
}

/// Lowers an integer to its bucket.
fn bucket_of(i: i64, tol: i64) -> (r: i128)
    ensures
        r == integer_bucket(i, tol),
        -0x1_0000_0000_0000_0000 < r <= i,
{
    if tol <= 0 {
        return i as i128;
    }
    let step: u128 = tol as u128 + 1;
    if i >= 0 {
        let rest: u128 = (i as u128) % step;
        i as i128 - rest as i128
    } else {
        let n: u128 = (-(i as i128)) as u128;
        let rest: u128 = n % step;
        let up: u128 = if rest == 0 {
            0
        } else {
            step - rest
        };
        proof {
            let q = (n / step) as int;
            lemma_fundamental_div_mod(n as int, step as int);
            if rest == 0 {
                assert(i as int == (-q) * step + 0) by (nonlinear_arith)
                    requires
                        n == step * q + 0,
                        i == -n,
                ;
                lemma_fundamental_div_mod_converse(i as int, step as int, -q, 0);
            } else {
                assert(i as int == (-q - 1) * step + (step - rest)) by (nonlinear_arith)
                    requires
                        n == step * q + rest,
                        i == -n,
                ;
                lemma_fundamental_div_mod_converse(
                    i as int,
                    step as int,
                    -q - 1,
                    (step - rest) as int,
                );
            }
        }
        i as i128 - up as i128
    }
}

fn write_text(text: &str, hasher: &mut DefaultHasher)
    ensures
        final(hasher)@ == old(hasher)@ + text_writes(text@),
{
    hasher.write(text.as_bytes());
    let end: Vec<u8> = vec![0xffu8];
    assert(end@ =~= seq![0xffu8]);
    hasher.write(end.as_slice());
    assert(hasher@ =~= old(hasher)@ + text_writes(text@));
}

fn hash_leaf(value: &BasicParameterValue, hasher: &mut DefaultHasher, tol: &ToleranceConfig)
    ensures
        final(hasher)@ == old(hasher)@ + leaf_writes(value@, *tol),
{
    match value {
        BasicParameterValue::String(s) => {
            if tol.string_case_sensitive {
                write_text(s.as_str(), hasher);
            } else {
                let lowered = to_lowercase(s.as_str());
                write_text(lowered.as_str(), hasher);
            }
        },
        BasicParameterValue::Float(f) => {
            let key = bits_number_key(f.bits, tol.float_tolerance);
            let mut bytes: Vec<u8> = Vec::new();
            if key.rounded {
                bytes.push(1u8);
                bytes.push(if key.negative {
                    1u8
                } else {
                    0u8
                });
                let mut index = u128_to_le_bytes(key.index);
                bytes.append(&mut index);
            } else {
                bytes.push(0u8);
                let mut raw = u64_to_le_bytes(key.raw);
                bytes.append(&mut raw);
            }
            assert(bytes@ =~= number_bytes(key));
            hasher.write(bytes.as_slice());
            assert(hasher@ =~= old(hasher)@ + leaf_writes(value@, *tol));
        },
        BasicParameterValue::Int(i) => {
            let bucket = bucket_of(*i, tol.int_tolerance);
            let bytes = u128_to_le_bytes((bucket + BUCKET_OFFSET as i128) as u128);
            hasher.write(bytes.as_slice());
            assert(hasher@ =~= old(hasher)@ + leaf_writes(value@, *tol));
        },
        BasicParameterValue::Bool(b) => {
            let bytes: Vec<u8> = vec![if *b {
                1u8
            } else {
                0u8
            }];
            assert(bytes@ =~= seq![if *b { 1u8 } else { 0u8 }]);
            hasher.write(bytes.as_slice());
            assert(hasher@ =~= old(hasher)@ + leaf_writes(value@, *tol));
        },
    }
}

/// Feeds a value to the hasher.
#[verifier::loop_isolation(false)]
pub fn hash_parameter_value(
    value: &ParameterValue,
    hasher: &mut DefaultHasher,
    tol: &ToleranceConfig,
)
    ensures
        final(hasher)@ == old(hasher)@ + value_writes(value@, *tol),
    decreases value,
{
    match value {
        ParameterValue::Basic(b) => hash_leaf(b, hasher, tol),
        ParameterValue::List(items) => {
            proof {
                lemma_list_view(*value, *items);
            }
            let ghost views = value@->Items_0;
            let length = u64_to_le_bytes(items.len() as u64);
            hasher.write(length.as_slice());
            let mut i: usize = 0;
            while i < items.len()
                invariant
                    i <= items.len(),
                    hasher@ == old(hasher)@ + seq![spec_u64_to_le_bytes(views.len() as u64)]
                        + items_writes(views, *tol, i as int),
                decreases items.len() - i,
            {
                hash_parameter_value(&items[i], hasher, tol);
                i += 1;
                assert(hasher@ =~= old(hasher)@ + seq![spec_u64_to_le_bytes(views.len() as u64)]
                    + items_writes(views, *tol, i as int));
            }
            assert(hasher@ =~= old(hasher)@ + value_writes(value@, *tol));
        },
    }
}

/// The hash of a mapping under a configuration: the identifier of the group
/// that a run with these attributes founds.
pub fn compute_params_hash(params: &AttributeMap, config: &Config) -> (r: String)
    requires
        params.well_formed(),
    ensures
        r@ == params_hash(params.pairs(), config.grouping.grouping_parameters, config.tolerance),
{
    let ghost s = params.pairs();
    let ghost wanted = hashed_filter(config.grouping.grouping_parameters);
    let ghost tol = config.tolerance;
    let mut hasher = DefaultHasher::new();
    let mut i: usize = 0;
    assert(hasher@ =~= pairs_writes(select_pairs(s, wanted, 0), tol));
    while i < params.len()
        invariant
            i <= s.len(),
            s == params.pairs(),
            tol == config.tolerance,
            wanted == hashed_filter(config.grouping.grouping_parameters),
            hasher@ == pairs_writes(select_pairs(s, wanted, i as int), tol),
        decreases s.len() - i,
    {
        let key = params.key_at(i);
        let hashed = match &config.grouping.grouping_parameters {
            Some(names) => list_contains(names, key.as_str()),
            None => true,
        };
        if hashed {
            let ghost before = select_pairs(s, wanted, i as int);
            write_text(key.as_str(), &mut hasher);
            hash_parameter_value(params.value_at(i), &mut hasher, &config.tolerance);
            proof {
                let now = select_pairs(s, wanted, i as int + 1);
                assert(now == before.push(s[i as int]));
                assert(now.drop_last() =~= before);
                assert(hasher@ =~= pairs_writes(now, tol));
            }
        }
        i += 1;
    }
    u64_to_hex(hasher.finish())
}

/// The hash does not depend on the order in which a mapping was filled: two
/// mappings that hold the same have the same hash.
pub proof fn lemma_hash_ignores_insertion_order(a: &AttributeMap, b: &AttributeMap, config: &Config)
    requires
        a.well_formed(),
        b.well_formed(),
        a@ == b@,
    ensures
        params_hash(a.pairs(), config.grouping.grouping_parameters, config.tolerance)
            == params_hash(b.pairs(), config.grouping.grouping_parameters, config.tolerance),
{
    a.lemma_same_content_same_entries(b);
}

/// Two entries put into a mapping in either order give mappings with the
/// same hash.
pub proof fn lemma_hash_of_swapped_insertions(
    after_first: &AttributeMap,
    after_second: &AttributeMap,
    base: Map<Seq<char>, ValueView>,
    k1: Seq<char>,
    v1: ValueView,
    k2: Seq<char>,
    v2: ValueView,
    config: &Config,
)
    requires
        after_first.well_formed(),
        after_second.well_formed(),
        k1 != k2,
        after_first@ == base.insert(k1, v1).insert(k2, v2),
        after_second@ == base.insert(k2, v2).insert(k1, v1),
    ensures
        params_hash(after_first.pairs(), config.grouping.grouping_parameters, config.tolerance)
            == params_hash(
            after_second.pairs(),
            config.grouping.grouping_parameters,
            config.tolerance,
        ),
{
    assert(base.insert(k1, v1).insert(k2, v2) =~= base.insert(k2, v2).insert(k1, v1));
    lemma_hash_ignores_insertion_order(after_first, after_second, config);
}

} // verus!
