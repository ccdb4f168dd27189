//! Attribute values: a leaf (text, number, integer, truth value) or a list of
//! values, with equality under a tolerance and a canonical rendering.
use crate::float_bits::{
    bits_same_number, bits_within_tolerance, lemma_within_wider_tolerance,
    number_tolerance_widened, same_number, within_tolerance,
};
use crate::float_text::{number_text, render_number};
use crate::text::{
    i64_to_decimal, lowercase_text, push_char, signed_decimal_text, text_eq, to_lowercase,
};
use vstd::prelude::*;
use vstd::string::*;

verus! {

/// How far two values may lie apart and still count as equal.
#[derive(Clone, Copy, Debug, Default, PartialEq)]
pub struct ToleranceConfig {
    /// The tolerance for numbers, as a binary64 bit pattern.
    pub float_tolerance: u64,
    /// The tolerance for integers.
    pub int_tolerance: i64,
    /// Whether texts are compared with their case.
    pub string_case_sensitive: bool,
}

/// A binary64 number, held as its bit pattern.
#[derive(Debug, Clone, Copy, PartialEq, Eq)]
pub struct FloatValue {
    pub bits: u64,
}

/// A leaf value.
#[derive(Debug, PartialEq)]
pub enum BasicParameterValue {
    String(String),
    Float(FloatValue),
    Int(i64),
    Bool(bool),
}

/// A leaf, or a list of values.
#[derive(Debug, PartialEq)]
pub enum ParameterValue {
    Basic(BasicParameterValue),
    List(Vec<ParameterValue>),
}

/// What a leaf holds.
pub enum BasicView {
    Text(Seq<char>),
    Number(u64),
    Integer(i64),
    Truth(bool),
}

/// What a value holds.
pub enum ValueView {
    Leaf(BasicView),
    Items(Seq<ValueView>),
}

impl View for BasicParameterValue {
    type V = BasicView;

    open spec fn view(&self) -> BasicView {
        match self {
            BasicParameterValue::String(s) => BasicView::Text(s@),
            BasicParameterValue::Float(f) => BasicView::Number(f.bits),
            BasicParameterValue::Int(i) => BasicView::Integer(*i),
            BasicParameterValue::Bool(b) => BasicView::Truth(*b),
        }
    }
}

/// What a list of values holds, item by item.
pub open spec fn list_views(items: Seq<ParameterValue>) -> Seq<ValueView>
    decreases items,
{
    if items.len() == 0 {
        Seq::empty()
    } else {
        list_views(items.drop_last()).push(value_view(items.last()))
    }
}

/// What a value holds.
pub open spec fn value_view(v: ParameterValue) -> ValueView
    decreases v,
{
    match v {
        ParameterValue::Basic(b) => ValueView::Leaf(b@),
        ParameterValue::List(items) => ValueView::Items(list_views(items@)),
    }
}

impl View for ParameterValue {
    type V = ValueView;

    open spec fn view(&self) -> ValueView {
        value_view(*self)
    }
}

/// The views of a list are as many as its items and stand in their order.
pub proof fn lemma_list_views(items: Seq<ParameterValue>)
    ensures
        list_views(items).len() == items.len(),
        forall|i: int| 0 <= i < items.len() ==> (#[trigger] list_views(items)[i]) == items[i]@,
    decreases items.len(),
{
    if items.len() > 0 {
        lemma_list_views(items.drop_last());
    }
}

/// Equality of two leaves under a tolerance: texts by their characters, or
/// by their lower-case forms where case does not count; numbers as
/// `within_tolerance` says; integers when their distance is at most the
/// integer tolerance; truth values when they are the same. Leaves of
/// different kinds are never equal.
pub open spec fn leaf_equal_within(a: BasicView, b: BasicView, tol: ToleranceConfig) -> bool {
    match (a, b) {
        (BasicView::Text(x), BasicView::Text(y)) => if tol.string_case_sensitive {
            x == y
        } else {
            lowercase_text(x) == lowercase_text(y)
        },
        (BasicView::Number(x), BasicView::Number(y)) => within_tolerance(x, y, tol.float_tolerance),
        (BasicView::Integer(x), BasicView::Integer(y)) => (if x - y < 0 {
            y - x
        } else {
            x - y
        }) <= tol.int_tolerance,
        (BasicView::Truth(x), BasicView::Truth(y)) => x == y,
        _ => false,
    }
}

/// Equality of two values under a tolerance: leaves as `leaf_equal_within`
/// says, lists when they have the same length and are equal item by item, in
/// order. A leaf never equals a list.
pub open spec fn equal_within(a: ValueView, b: ValueView, tol: ToleranceConfig) -> bool
    decreases a,
{
    match (a, b) {
        (ValueView::Leaf(x), ValueView::Leaf(y)) => leaf_equal_within(x, y, tol),
        (ValueView::Items(xs), ValueView::Items(ys)) => {
            &&& xs.len() == ys.len()
            &&& forall|i: int| 0 <= i < xs.len() ==> equal_within(#[trigger] xs[i], ys[i], tol)
        },
        _ => false,
    }
}

/// Exact equality of two leaves: the same text, the same number as binary64
/// defines it, the same integer, the same truth value.
pub open spec fn leaf_same(a: BasicView, b: BasicView) -> bool {
    match (a, b) {
        (BasicView::Text(x), BasicView::Text(y)) => x == y,
        (BasicView::Number(x), BasicView::Number(y)) => same_number(x, y),
        (BasicView::Integer(x), BasicView::Integer(y)) => x == y,
        (BasicView::Truth(x), BasicView::Truth(y)) => x == y,
        _ => false,
    }
}

/// Exact equality of two values, with no tolerance.
pub open spec fn same_value(a: ValueView, b: ValueView) -> bool
    decreases a,
{
    match (a, b) {
        (ValueView::Leaf(x), ValueView::Leaf(y)) => leaf_same(x, y),
        (ValueView::Items(xs), ValueView::Items(ys)) => {
            &&& xs.len() == ys.len()
            &&& forall|i: int| 0 <= i < xs.len() ==> same_value(#[trigger] xs[i], ys[i])
        },
        _ => false,
    }
}

/// The rendering of a truth value.
pub open spec fn truth_text(b: bool) -> Seq<char> {
    if b {
        seq!['t', 'r', 'u', 'e']
    } else {
        seq!['f', 'a', 'l', 's', 'e']
    }
}

/// The rendering of a leaf: a text as it is, a number with six decimals, an
/// integer in decimal, a truth value as `true` or `false`.
pub open spec fn leaf_text(a: BasicView) -> Seq<char> {
    match a {
        BasicView::Text(x) => x,
        BasicView::Number(bits) => number_text(bits),
        BasicView::Integer(i) => signed_decimal_text(i as int),
        BasicView::Truth(b) => truth_text(b),
    }
}

/// The renderings of the first `n` items, each after the first preceded by a
/// comma and a blank.
pub open spec fn items_text(items: Seq<ValueView>, n: int) -> Seq<char>
    decreases items, n,
{
    if n <= 0 || n > items.len() {
        Seq::empty()
    } else if n == 1 {
        value_text(items[0])
    } else {
        items_text(items, n - 1) + seq![',', ' '] + value_text(items[n - 1])
    }
}

/// The rendering of a value: a leaf as `leaf_text` says, a list as its items'
/// renderings between square brackets.
pub open spec fn value_text(a: ValueView) -> Seq<char>
    decreases a, 0int,
{
    match a {
        ValueView::Leaf(x) => leaf_text(x),
        ValueView::Items(xs) => seq!['['] + items_text(xs, xs.len() as int) + seq![']'],
    }
}

/// What the view of a list is, item by item.
pub proof fn lemma_list_view(v: ParameterValue, items: Vec<ParameterValue>)
    requires
        v == ParameterValue::List(items),
    ensures
        v@ == ValueView::Items(list_views(items@)),
        v@->Items_0.len() == items@.len(),
        forall|i: int| 0 <= i < items@.len() ==> (#[trigger] v@->Items_0[i]) == items@[i]@,
{
    lemma_list_views(items@);
}

impl FloatValue {
    /// A number from its bit pattern.
    pub fn new(bits: u64) -> (r: Self)
        ensures
            r.bits == bits,
    {
        FloatValue { bits }
    }
}

impl Clone for BasicParameterValue {
    fn clone(&self) -> (r: Self)
        ensures
            r@ == self@,
    {
        match self {
            BasicParameterValue::String(s) => BasicParameterValue::String(s.clone()),
            BasicParameterValue::Float(f) => BasicParameterValue::Float(FloatValue { bits: f.bits }),
            BasicParameterValue::Int(i) => BasicParameterValue::Int(*i),
            BasicParameterValue::Bool(b) => BasicParameterValue::Bool(*b),
        }
    }
}

impl Clone for ParameterValue {
    #[verifier::loop_isolation(false)]
    fn clone(&self) -> (r: Self)
        ensures
            r@ == self@,
        decreases self,
    {
        match self {
            ParameterValue::Basic(b) => ParameterValue::Basic(b.clone()),
            ParameterValue::List(items) => {
                let mut copy: Vec<ParameterValue> = Vec::new();
                let mut i: usize = 0;
                while i < items.len()
                    invariant
                        i <= items.len(),
                        copy.len() == i,
                        forall|j: int| 0 <= j < i ==> copy[j]@ == items[j]@,
                    decreases items.len() - i,
                {
                    copy.push(items[i].clone());
                    i += 1;
                }
                let r = ParameterValue::List(copy);
                proof {
                    lemma_list_view(r, copy);
                    lemma_list_view(*self, *items);
                    assert(r@->Items_0 =~= self@->Items_0);
                }
                r
            },
        }
    }
}

impl BasicParameterValue {
    /// The rendering of the leaf.
    pub fn to_string_repr(&self) -> (r: String)
        ensures
            r@ == leaf_text(self@),
    {
        match self {
            BasicParameterValue::String(s) => s.clone(),
            BasicParameterValue::Float(f) => render_number(f.bits),
            BasicParameterValue::Int(i) => i64_to_decimal(*i),
            BasicParameterValue::Bool(b) => {
                let mut s = String::new();
                if *b {
                    push_char(&mut s, 't');
                    push_char(&mut s, 'r');
                    push_char(&mut s, 'u');
                    push_char(&mut s, 'e');
                } else {
                    push_char(&mut s, 'f');
                    push_char(&mut s, 'a');
                    push_char(&mut s, 'l');
                    push_char(&mut s, 's');
                    push_char(&mut s, 'e');
                }
                assert(s@ =~= truth_text(*b));
                s
            },
        }
    }

    /// Whether two leaves are equal under the tolerance.
    pub fn equals_with_tolerance(&self, other: &Self, tolerance: &ToleranceConfig) -> (r: bool)
        ensures
            r == leaf_equal_within(self@, other@, *tolerance),
    {
        match (self, other) {
            (BasicParameterValue::String(a), BasicParameterValue::String(b)) => {
                if tolerance.string_case_sensitive {
                    text_eq(a.as_str(), b.as_str())
                } else {
                    let la = to_lowercase(a.as_str());
                    let lb = to_lowercase(b.as_str());
                    text_eq(la.as_str(), lb.as_str())
                }
            },
            (BasicParameterValue::Float(a), BasicParameterValue::Float(b)) => {
                bits_within_tolerance(a.bits, b.bits, tolerance.float_tolerance)
            },
            (BasicParameterValue::Int(a), BasicParameterValue::Int(b)) => {
                let d: i128 = *a as i128 - *b as i128;
                let distance: i128 = if d < 0 {
                    -d
                } else {
                    d
                };
                distance <= tolerance.int_tolerance as i128
            },
            (BasicParameterValue::Bool(a), BasicParameterValue::Bool(b)) => *a == *b,
            _ => false,
        }
    }

    /// Whether two leaves are exactly equal.
    pub fn is_same(&self, other: &Self) -> (r: bool)
        ensures
            r == leaf_same(self@, other@),
    {
        match (self, other) {
            (BasicParameterValue::String(a), BasicParameterValue::String(b)) => text_eq(
                a.as_str(),
                b.as_str(),
            ),
            (BasicParameterValue::Float(a), BasicParameterValue::Float(b)) => bits_same_number(
                a.bits,
                b.bits,
            ),
            (BasicParameterValue::Int(a), BasicParameterValue::Int(b)) => *a == *b,
            (BasicParameterValue::Bool(a), BasicParameterValue::Bool(b)) => *a == *b,
            _ => false,
        }
    }
}

impl ParameterValue {
    /// The rendering of the value.
    #[verifier::loop_isolation(false)]
    pub fn to_simple_string(&self) -> (r: String)
        ensures
            r@ == value_text(self@),
        decreases self,
    {
        match self {
            ParameterValue::Basic(b) => b.to_string_repr(),
            ParameterValue::List(items) => {
                let mut s = String::new();
                push_char(&mut s, '[');
                let mut i: usize = 0;
                let ghost views = self@->Items_0;
                proof {
                    lemma_list_view(*self, *items);
                }
                while i < items.len()
                    invariant
                        i <= items.len(),
                        views.len() == items.len(),
                        forall|j: int| 0 <= j < items.len() ==> views[j] == items[j]@,
                        s@ == seq!['['] + items_text(views, i as int),
                    decreases items.len() - i,
                {
                    if i > 0 {
                        push_char(&mut s, ',');
                        push_char(&mut s, ' ');
                    }
                    let part = items[i].to_simple_string();
                    s.append(part.as_str());
                    i += 1;
                    assert(s@ =~= seq!['['] + items_text(views, i as int));
                }
                push_char(&mut s, ']');
                assert(s@ =~= value_text(self@));
                s
            },
        }
    }

    /// Whether two values are equal under the tolerance.
    #[verifier::loop_isolation(false)]
    pub fn equals_with_tolerance(&self, other: &Self, tolerance: &ToleranceConfig) -> (r: bool)
        ensures
            r == equal_within(self@, other@, *tolerance),
        decreases self,
    {
        match (self, other) {
            (ParameterValue::Basic(a), ParameterValue::Basic(b)) => a.equals_with_tolerance(
                b,
                tolerance,
            ),
            (ParameterValue::List(a), ParameterValue::List(b)) => {
                proof {
                    lemma_list_view(*self, *a);
                    lemma_list_view(*other, *b);
                }
                if a.len() != b.len() {
                    return false;
                }
                let mut i: usize = 0;
                while i < a.len()
                    invariant
                        i <= a.len(),
                        a.len() == b.len(),
                        forall|j: int|
                            0 <= j < i ==> equal_within(#[trigger] a[j]@, b[j]@, *tolerance),
                    decreases a.len() - i,
                {
                    if !a[i].equals_with_tolerance(&b[i], tolerance) {
                        assert(!equal_within(self@->Items_0[i as int], other@->Items_0[i as int], *tolerance));
                        return false;
                    }
                    i += 1;
                }
                assert forall|j: int| 0 <= j < self@->Items_0.len() implies equal_within(
                    #[trigger] self@->Items_0[j],
                    other@->Items_0[j],
                    *tolerance,
                ) by {
                    assert(equal_within(a[j]@, b[j]@, *tolerance));
                }
                true
            },
            _ => false,
        }
    }

    /// Whether two values are exactly equal.
    #[verifier::loop_isolation(false)]
    pub fn is_same(&self, other: &Self) -> (r: bool)
        ensures
            r == same_value(self@, other@),
        decreases self,
    {
        match (self, other) {
            (ParameterValue::Basic(a), ParameterValue::Basic(b)) => a.is_same(b),
            (ParameterValue::List(a), ParameterValue::List(b)) => {
                proof {
                    lemma_list_view(*self, *a);
                    lemma_list_view(*other, *b);
                }
                if a.len() != b.len() {
                    return false;
                }
                let mut i: usize = 0;
                while i < a.len()
                    invariant
                        i <= a.len(),
                        a.len() == b.len(),
                        forall|j: int| 0 <= j < i ==> same_value(#[trigger] a[j]@, b[j]@),
                    decreases a.len() - i,
                {
                    if !a[i].is_same(&b[i]) {
                        assert(!same_value(self@->Items_0[i as int], other@->Items_0[i as int]));
                        return false;
                    }
                    i += 1;
                }
                assert forall|j: int| 0 <= j < self@->Items_0.len() implies same_value(
                    #[trigger] self@->Items_0[j],
                    other@->Items_0[j],
                ) by {
                    assert(same_value(a[j]@, b[j]@));
                }
                true
            },
            _ => false,
        }
    }
}

/// Whether the second tolerance is at least as wide as the first: case counts
/// in both or in neither, and neither the tolerance for integers nor the one
/// for numbers is smaller.
pub open spec fn tolerance_widened(narrow: ToleranceConfig, wide: ToleranceConfig) -> bool {
    &&& narrow.string_case_sensitive == wide.string_case_sensitive
    &&& narrow.int_tolerance <= wide.int_tolerance
    &&& (narrow.float_tolerance == wide.float_tolerance || number_tolerance_widened(
        narrow.float_tolerance,
        wide.float_tolerance,
    ))
}

/// Two values that are equal under a tolerance are equal under any wider one.
pub proof fn lemma_equal_within_wider(
    a: ValueView,
    b: ValueView,
    narrow: ToleranceConfig,
    wide: ToleranceConfig,
)
    requires
        equal_within(a, b, narrow),
        tolerance_widened(narrow, wide),
    ensures
        equal_within(a, b, wide),
    decreases a,
{
    match (a, b) {
        (ValueView::Leaf(x), ValueView::Leaf(y)) => {
            match (x, y) {
                (BasicView::Number(p), BasicView::Number(q)) => {
                    if narrow.float_tolerance != wide.float_tolerance {
                        lemma_within_wider_tolerance(
                            p,
                            q,
                            narrow.float_tolerance,
                            wide.float_tolerance,
                        );
                    }
                },
                _ => {},
            }
        },
        (ValueView::Items(xs), ValueView::Items(ys)) => {
            assert forall|i: int| 0 <= i < xs.len() implies equal_within(
                #[trigger] xs[i],
                ys[i],
                wide,
            ) by {
                lemma_equal_within_wider(xs[i], ys[i], narrow, wide);
            }
        },
        _ => {},
    }
}

} // verus!
