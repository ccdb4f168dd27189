//! Flattening of a hierarchical value into an attribute mapping keyed by
//! paths.
use crate::attributes::AttributeMap;
use crate::parameter_value::{
    lemma_list_view, list_views, BasicParameterValue, BasicView, FloatValue, ParameterValue,
    ValueView,
};
use crate::text::{append_decimal, decimal_text, push_char};
use vstd::prelude::*;
use vstd::string::*;

verus! {

/// A number of a hierarchical value: as an integer where it is one that fits,
/// and as a binary64 number where it has such a form.
#[derive(Debug, PartialEq)]
pub struct RawNumber {
    pub as_int: Option<i64>,
    pub as_float: Option<FloatValue>,
}

/// A hierarchical value: a tree of texts, numbers, truth values, nulls, lists
/// and mappings, any of which may carry a tag.
#[derive(Debug, PartialEq)]
pub enum HierarchicalValue {
    Null,
    Bool(bool),
    Number(RawNumber),
    String(String),
    Sequence(Vec<HierarchicalValue>),
    Mapping(Vec<MappingEntry>),
    Tagged(Box<HierarchicalValue>),
}

/// One entry of a mapping node.
#[derive(Debug, PartialEq)]
pub struct MappingEntry {
    pub key: HierarchicalValue,
    pub value: HierarchicalValue,
}

/// Why a hierarchical value could not be flattened.
#[derive(Debug, PartialEq, Eq, Clone, Copy)]
pub enum FlattenError {
    /// A key of a mapping node is not a text.
    NonStringKey,
    /// A number has neither an integer nor a binary64 form.
    UnsupportedNumber,
    /// A value that is no leaf stands where a leaf is needed.
    UnexpectedValue,
}

/// The character between the parts of a path.
pub open spec fn separator() -> char {
    '-'
}

/// The path of a mapping's child: the key alone under the empty path, else
/// the path, the separator and the key.
pub open spec fn child_path(path: Seq<char>, key: Seq<char>) -> Seq<char> {
    if path.len() == 0 {
        key
    } else {
        path.push(separator()) + key
    }
}

/// The path of a list's item: the path, the separator and the item's index
/// in decimal.
pub open spec fn item_path(path: Seq<char>, index: nat) -> Seq<char> {
    path.push(separator()) + decimal_text(index)
}

/// The text of a key: the text of a text node, whatever tags it carries.
pub open spec fn key_text(k: HierarchicalValue) -> Option<Seq<char>>
    decreases k,
{
    match k {
        HierarchicalValue::String(s) => Some(s@),
        HierarchicalValue::Tagged(inner) => key_text(*inner),
        _ => None,
    }
}

/// Whether a node is a leaf without a tag: a text, a number or a truth value.
pub open spec fn is_simple(v: HierarchicalValue) -> bool {
    v is String || v is Number || v is Bool
}

/// Whether every node of a list is a leaf without a tag.
pub open spec fn all_simple(items: Seq<HierarchicalValue>) -> bool {
    forall|i: int| 0 <= i < items.len() ==> is_simple(#[trigger] items[i])
}

/// The attribute value of a leaf: a number is an integer where it has that
/// form, else a binary64 number where it has that one.
pub open spec fn leaf_value(v: HierarchicalValue) -> Result<ValueView, FlattenError> {
    match v {
        HierarchicalValue::String(s) => Ok(ValueView::Leaf(BasicView::Text(s@))),
        HierarchicalValue::Number(n) => match (n.as_int, n.as_float) {
            (Some(i), _) => Ok(ValueView::Leaf(BasicView::Integer(i))),
            (None, Some(f)) => Ok(ValueView::Leaf(BasicView::Number(f.bits))),
            (None, None) => Err(FlattenError::UnsupportedNumber),
        },
        HierarchicalValue::Bool(b) => Ok(ValueView::Leaf(BasicView::Truth(b))),
        _ => Err(FlattenError::UnexpectedValue),
    }
}

/// The attribute values of the first `n` nodes of a list, or the error of the
/// first of them that has none.
pub open spec fn leaf_values(items: Seq<HierarchicalValue>, n: int) -> Result<
    Seq<ValueView>,
    FlattenError,
>
    decreases n,
{
    if n <= 0 || n > items.len() {
        Ok(Seq::empty())
    } else {
        match leaf_values(items, n - 1) {
            Err(e) => Err(e),
            Ok(front) => match leaf_value(items[n - 1]) {
                Err(e) => Err(e),
                Ok(x) => Ok(front.push(x)),
            },
        }
    }
}

/// The mapping after the entries of a mapping node from `from` on have been
/// flattened into it, one after another.
pub open spec fn flattened_entries(
    entries: Seq<MappingEntry>,
    out: Map<Seq<char>, ValueView>,
    path: Seq<char>,
    from: int,
) -> Result<Map<Seq<char>, ValueView>, FlattenError>
    decreases entries, entries.len() - from,
{
    if from < 0 || from >= entries.len() {
        Ok(out)
    } else {
        match key_text(entries[from].key) {
            None => Err(FlattenError::NonStringKey),
            Some(k) => match flattened(entries[from].value, out, child_path(path, k)) {
                Err(e) => Err(e),
                Ok(next) => flattened_entries(entries, next, path, from + 1),
            },
        }
    }
}

/// The mapping after the items of a list from `from` on have been flattened
/// into it, each under the path of its index.
pub open spec fn flattened_items(
    items: Seq<HierarchicalValue>,
    out: Map<Seq<char>, ValueView>,
    path: Seq<char>,
    from: int,
) -> Result<Map<Seq<char>, ValueView>, FlattenError>
    decreases items, items.len() - from,
{
    if from < 0 || from >= items.len() {
        Ok(out)
    } else {
        match flattened(items[from], out, item_path(path, from as nat)) {
            Err(e) => Err(e),
            Ok(next) => flattened_items(items, next, path, from + 1),
        }
    }
}

/// The mapping after a node has been flattened into it under a path.
///
/// A mapping node flattens its entries, each under the path of its key. A
/// list of leaves without tags becomes one list value under the path; any
/// other list flattens its items, each under the path of its index. A tag is
/// dropped. A null adds nothing. A leaf is put under the path, in place of
/// what stood there.
pub open spec fn flattened(
    v: HierarchicalValue,
    out: Map<Seq<char>, ValueView>,
    path: Seq<char>,
) -> Result<Map<Seq<char>, ValueView>, FlattenError>
    decreases v, 0int,
{
    match v {
        HierarchicalValue::Mapping(entries) => flattened_entries(entries@, out, path, 0),
        HierarchicalValue::Sequence(items) => if all_simple(items@) {
            match leaf_values(items@, items@.len() as int) {
                Err(e) => Err(e),
                Ok(list) => Ok(out.insert(path, ValueView::Items(list))),
            }
        } else {
            flattened_items(items@, out, path, 0)
        },
        HierarchicalValue::Tagged(inner) => flattened(*inner, out, path),
        HierarchicalValue::Null => Ok(out),
        _ => match leaf_value(v) {
            Err(e) => Err(e),
            Ok(x) => Ok(out.insert(path, x)),
        },
    }
}

/// The flat mapping of a hierarchical value.
pub open spec fn flat_mapping(v: HierarchicalValue) -> Result<
    Map<Seq<char>, ValueView>,
    FlattenError,
> {
    flattened(v, Map::empty(), Seq::empty())
}

/// The attribute value of a leaf.
pub fn base_value_to_parameter_value(value: &HierarchicalValue) -> (r: Result<
    ParameterValue,
    FlattenError,
>)
    ensures
        r is Ok == leaf_value(*value) is Ok,
        r is Ok ==> r->Ok_0@ == leaf_value(*value)->Ok_0,
        r is Err ==> r->Err_0 == leaf_value(*value)->Err_0,
{
    match value {
        HierarchicalValue::String(s) => Ok(
            ParameterValue::Basic(BasicParameterValue::String(s.clone())),
        ),
        HierarchicalValue::Number(n) => match &n.as_int {
            Some(i) => Ok(ParameterValue::Basic(BasicParameterValue::Int(*i))),
            None => match &n.as_float {
                Some(f) => Ok(ParameterValue::Basic(BasicParameterValue::Float(*f))),
                None => Err(FlattenError::UnsupportedNumber),
            },
        },
        HierarchicalValue::Bool(b) => Ok(ParameterValue::Basic(BasicParameterValue::Bool(*b))),
        _ => Err(FlattenError::UnexpectedValue),
    }
}

fn key_of(key: &HierarchicalValue) -> (r: Option<&String>)
    ensures
        r is Some == key_text(*key) is Some,
        r is Some ==> r->Some_0@ == key_text(*key)->Some_0,
    decreases key,
{
    match key {
        HierarchicalValue::String(s) => Some(s),
        HierarchicalValue::Tagged(inner) => key_of(inner),
        _ => None,
    }
}

fn node_is_simple(v: &HierarchicalValue) -> (r: bool)
    ensures
        r == is_simple(*v),
{
    match v {
        HierarchicalValue::String(_) => true,
        HierarchicalValue::Number(_) => true,
        HierarchicalValue::Bool(_) => true,
        _ => false,
    }
}

fn nodes_all_simple(items: &Vec<HierarchicalValue>) -> (r: bool)
    ensures
        r == all_simple(items@),
{
    let mut i: usize = 0;
    while i < items.len()
        invariant
            i <= items.len(),
            forall|j: int| 0 <= j < i ==> is_simple(#[trigger] items@[j]),
        decreases items.len() - i,
    {
        if !node_is_simple(&items[i]) {
            return false;
        }
        i += 1;
    }
    true
}

fn make_child_path(path: &String, key: &String) -> (r: String)
    ensures
        r@ == child_path(path@, key@),
{
    if path.as_str().is_empty() {
        key.clone()
    } else {
        let mut p = path.clone();
        push_char(&mut p, '-');
        p.append(key.as_str());
        p
    }
}

fn make_item_path(path: &String, index: usize) -> (r: String)
    ensures
        r@ == item_path(path@, index as nat),
{
    let mut p = path.clone();
    push_char(&mut p, '-');
    append_decimal(&mut p, index as u64);
    p
}

/// Flattens a node into a mapping under a path.
#[verifier::loop_isolation(false)]
pub fn flatten_yaml_value(
    value: &HierarchicalValue,
    output: &mut AttributeMap,
    path: String,
) -> (r: Result<(), FlattenError>)
    requires
        old(output).well_formed(),
    ensures
        final(output).well_formed(),
        r is Ok == flattened(*value, old(output)@, path@) is Ok,
        r is Ok ==> final(output)@ == flattened(*value, old(output)@, path@)->Ok_0,
        r is Err ==> r->Err_0 == flattened(*value, old(output)@, path@)->Err_0,
    decreases value,
{
    match value {
        HierarchicalValue::Mapping(entries) => {
            let mut i: usize = 0;
            while i < entries.len()
                invariant
                    i <= entries.len(),
                    output.well_formed(),
                    flattened_entries(entries@, output@, path@, i as int) == flattened_entries(
                        entries@,
                        old(output)@,
                        path@,
                        0,
                    ),
                decreases entries.len() - i,
            {
                match key_of(&entries[i].key) {
                    None => {
                        return Err(FlattenError::NonStringKey);
                    },
                    Some(key) => {
                        let new_path = make_child_path(&path, key);
                        match flatten_yaml_value(&entries[i].value, output, new_path) {
                            Err(e) => {
                                return Err(e);
                            },
                            Ok(()) => {},
                        }
                    },
                }
                i += 1;
            }
            Ok(())
        },
        HierarchicalValue::Sequence(items) => {
            if nodes_all_simple(items) {
                let mut list: Vec<ParameterValue> = Vec::new();
                let mut i: usize = 0;
                while i < items.len()
                    invariant
                        i <= items.len(),
                        list.len() == i,
                        leaf_values(items@, i as int) is Ok,
                        list_views(list@) == leaf_values(items@, i as int)->Ok_0,
                    decreases items.len() - i,
                {
                    match base_value_to_parameter_value(&items[i]) {
                        Err(e) => {
                            proof {
                                lemma_leaf_values_error(items@, i as int + 1, items@.len() as int);
                            }
                            return Err(e);
                        },
                        Ok(v) => {
                            let ghost before = list@;
                            list.push(v);
                            assert(list@.drop_last() =~= before);
                        },
                    }
                    i += 1;
                }
                let value_list = ParameterValue::List(list);
                proof {
                    lemma_list_view(value_list, list);
                }
                output.insert(path, value_list);
                Ok(())
            } else {
                let mut i: usize = 0;
                while i < items.len()
                    invariant
                        i <= items.len(),
                        output.well_formed(),
                        flattened_items(items@, output@, path@, i as int) == flattened_items(
                            items@,
                            old(output)@,
                            path@,
                            0,
                        ),
                    decreases items.len() - i,
                {
                    let new_path = make_item_path(&path, i);
                    match flatten_yaml_value(&items[i], output, new_path) {
                        Err(e) => {
                            return Err(e);
                        },
                        Ok(()) => {},
                    }
                    i += 1;
                }
                Ok(())
            }
        },
        HierarchicalValue::Tagged(inner) => flatten_yaml_value(inner, output, path),
        HierarchicalValue::Null => Ok(()),
        _ => {
            match base_value_to_parameter_value(value) {
                Err(e) => Err(e),
                Ok(v) => {
                    output.insert(path, v);
                    Ok(())
                },
            }
        },
    }
}

/// An error among the first `n` leaves is the error of any longer list.
pub proof fn lemma_leaf_values_error(items: Seq<HierarchicalValue>, n: int, m: int)
    requires
        0 <= n <= m <= items.len(),
        leaf_values(items, n) is Err,
    ensures
        leaf_values(items, m) == leaf_values(items, n),
    decreases m - n,
{
    if n < m {
        lemma_leaf_values_error(items, n, m - 1);
    }
}

/// Flattens a hierarchical value into a new mapping.
pub fn flatten(value: &HierarchicalValue) -> (r: Result<AttributeMap, FlattenError>)
    ensures
        r is Ok == flat_mapping(*value) is Ok,
        r is Ok ==> r->Ok_0.well_formed() && r->Ok_0@ == flat_mapping(*value)->Ok_0,
        r is Err ==> r->Err_0 == flat_mapping(*value)->Err_0,
{
    let mut output = AttributeMap::new();
    match flatten_yaml_value(value, &mut output, String::new()) {
        Ok(()) => Ok(output),
        Err(e) => Err(e),
    }
}

/// Flattening one value twice gives the same mapping twice: the same entries,
/// in the same order.
pub proof fn lemma_flatten_twice(value: HierarchicalValue, first: &AttributeMap, second: &AttributeMap)
    requires
        flat_mapping(value) is Ok,
        first.well_formed(),
        second.well_formed(),
        first@ == flat_mapping(value)->Ok_0,
        second@ == flat_mapping(value)->Ok_0,
    ensures
        first.pairs() == second.pairs(),
{
    first.lemma_same_content_same_entries(second);
}

} // verus!
