//! General properties of the lowering, stated and proved once.

use vstd::prelude::*;

use crate::ast::{ArrayElem, Expr, ObjectProp};
use crate::check::{spec_elem_is_dynamic, spec_is_dynamic, spec_prop_is_dynamic};
use crate::ir::spec_uid;
use crate::style::spec_fold_style;
use crate::text::{
    collapse_spaces, is_jsx_space, lemma_decimal_injective, lemma_decimal_len, spec_decimal,
    spec_trim_whitespace,
};

verus! {

/// Whether an expression holds a call, identifier or member-access
/// subexpression anywhere outside a nested function literal. Function
/// literals themselves read nothing: their value is the function object.
pub open spec fn has_reactive_read(e: Expr) -> bool
    decreases e,
{
    match e {
        Expr::Call => true,
        Expr::Ident => true,
        Expr::StaticMember => true,
        Expr::ComputedMember => true,
        Expr::Binary(l, r) => has_reactive_read(*l) || has_reactive_read(*r),
        Expr::Unary(a) => has_reactive_read(*a),
        Expr::Object(props) => exists|i: int|
            0 <= i < props@.len() && prop_has_reactive_read(#[trigger] props@[i]),
        Expr::Array(els) => exists|i: int|
            0 <= i < els@.len() && elem_has_reactive_read(#[trigger] els@[i]),
        _ => false,
    }
}

/// Whether an object entry holds a reactive read.
pub open spec fn prop_has_reactive_read(p: ObjectProp) -> bool
    decreases p,
{
    match p {
        ObjectProp::Property { key: _, value } => has_reactive_read(value),
        ObjectProp::Spread(e) => has_reactive_read(e),
    }
}

/// Whether an array element holds a reactive read.
pub open spec fn elem_has_reactive_read(el: ArrayElem) -> bool
    decreases el,
{
    match el {
        ArrayElem::Elision => false,
        ArrayElem::Spread(e) => has_reactive_read(e),
        ArrayElem::Item(e) => has_reactive_read(e),
    }
}

/// Classifier conservatism: an expression the classifier calls static holds
/// no call, identifier or member-access subexpression outside nested
/// function literals.
pub proof fn lemma_classifier_conservative(e: Expr)
    requires
        !spec_is_dynamic(e),
    ensures
        !has_reactive_read(e),
    decreases e,
{
    match e {
        Expr::Binary(l, r) => {
            lemma_classifier_conservative(*l);
            lemma_classifier_conservative(*r);
        },
        Expr::Unary(a) => {
            lemma_classifier_conservative(*a);
        },
        Expr::Object(props) => {
            assert forall|i: int| 0 <= i < props@.len() implies !prop_has_reactive_read(
                #[trigger] props@[i],
            ) by {
                assert(!spec_prop_is_dynamic(props@[i]));
                lemma_prop_conservative(props@[i]);
            }
        },
        Expr::Array(els) => {
            assert forall|i: int| 0 <= i < els@.len() implies !elem_has_reactive_read(
                #[trigger] els@[i],
            ) by {
                assert(!spec_elem_is_dynamic(els@[i]));
                lemma_elem_conservative(els@[i]);
            }
        },
        _ => {},
    }
}

/// Conservatism for one object entry.
proof fn lemma_prop_conservative(p: ObjectProp)
    requires
        !spec_prop_is_dynamic(p),
    ensures
        !prop_has_reactive_read(p),
    decreases p,
{
    match p {
        ObjectProp::Property { key: _, value } => lemma_classifier_conservative(value),
        ObjectProp::Spread(e) => lemma_classifier_conservative(e),
    }
}

/// Conservatism for one array element.
proof fn lemma_elem_conservative(el: ArrayElem)
    requires
        !spec_elem_is_dynamic(el),
    ensures
        !elem_has_reactive_read(el),
    decreases el,
{
    match el {
        ArrayElem::Elision => {},
        ArrayElem::Spread(e) => lemma_classifier_conservative(e),
        ArrayElem::Item(e) => lemma_classifier_conservative(e),
    }
}

/// Whether a text run is whitespace only.
pub open spec fn is_whitespace_only(s: Seq<char>) -> bool {
    forall|i: int| 0 <= i < s.len() ==> is_jsx_space(#[trigger] s[i])
}

/// Collapsing a whitespace-only run leaves nothing: a space never opens the
/// collapsed text.
proof fn lemma_collapse_whitespace_only(s: Seq<char>)
    requires
        is_whitespace_only(s),
    ensures
        collapse_spaces(s).len() == 0,
    decreases s.len(),
{
    if s.len() > 0 {
        assert(is_whitespace_only(s.drop_last()));
        lemma_collapse_whitespace_only(s.drop_last());
        assert(is_jsx_space(s.last()));
    }
}

/// A whitespace-only text run normalizes to the empty string, so it never
/// reaches the template and never advances the child walk: the child pass
/// appends text and counts a node only when the normalized run is non-empty.
pub proof fn lemma_whitespace_only_text_vanishes(s: Seq<char>)
    requires
        is_whitespace_only(s),
    ensures
        spec_trim_whitespace(s).len() == 0,
{
    lemma_collapse_whitespace_only(s);
}

/// Name freshness: two names the block context yields for one prefix at
/// different counter readings differ, as long as the counter has not
/// saturated. `generate_uid` returns `spec_uid` of the current reading and
/// strictly advances the reading below the cap, so every name issued within
/// one block differs from every name issued before it.
pub proof fn lemma_uid_names_fresh(prefix: Seq<char>, k1: u64, k2: u64)
    requires
        k1 < k2,
        k2 < u64::MAX,
    ensures
        spec_uid(prefix, k1) != spec_uid(prefix, k2),
{
    let d1 = spec_decimal((k1 + 1) as nat);
    let d2 = spec_decimal((k2 + 1) as nat);
    lemma_decimal_len((k1 + 1) as nat);
    lemma_decimal_len((k2 + 1) as nat);
    if spec_uid(prefix, k1) == spec_uid(prefix, k2) {
        if k1 == 0 {
            assert(spec_uid(prefix, k2) == prefix + d2);
            assert((prefix + d2).len() == prefix.len() + d2.len());
            assert(false);
        } else {
            assert(spec_uid(prefix, k1) == prefix + d1);
            assert(spec_uid(prefix, k2) == prefix + d2);
            assert(d1 =~= (prefix + d1).subrange(prefix.len() as int, (prefix + d1).len() as int));
            assert(d2 =~= (prefix + d2).subrange(prefix.len() as int, (prefix + d2).len() as int));
            assert(d1 == d2);
            lemma_decimal_injective((k1 + 1) as nat, (k2 + 1) as nat);
            assert(false);
        }
    }
}

/// Folding a literal style object is a function of the object alone: two
/// folds of the same object are the same string, with the entries in source
/// order, joined by `"; "`.
pub proof fn lemma_style_fold_repeatable(
    props: Seq<ObjectProp>,
    r1: Option<Seq<char>>,
    r2: Option<Seq<char>>,
)
    requires
        r1 == spec_fold_style(props),
        r2 == spec_fold_style(props),
    ensures
        r1 == r2,
{
}

} // verus!
