//! Native element lowering: opens the tag, routes the attributes, walks the
//! children keeping node indices and DOM paths, emits markers, and closes
//! the tag.

use vstd::prelude::*;

use crate::ast::{AttrItem, AttrName, AttrValue, JsxChild, JsxElement};
use crate::attrs::{item_requires_id, transform_attributes};
use crate::check::{
    get_tag_name, is_component, is_dynamic, spec_attr_name, spec_is_component, spec_is_dynamic,
    spec_jsx_name,
};
use crate::constants::{is_svg_element, is_void_element, spec_is_svg_element, spec_is_void_element};
use crate::ir::{
    seq_extends, stmt_elem, stmt_marker, BlockContext, Declaration, Step, Stmt, TransformInfo,
    TransformOptions, TransformResult, WalkInit,
};
use crate::text::{
    escape_html, is_prefix_of, lemma_escape_has_no_open, lemma_marker_count_append,
    lemma_marker_count_no_bang, lemma_marker_count_no_open, marker_count, no_bang, no_open,
    safe_name, spec_escape_html, spec_trim_whitespace, str_contains_char, tail_ok,
    trim_whitespace,
};
use crate::attrs::{
    attr_state_of, item_safe, marker_keeps, spec_attrs_fold, spec_inner_texts, tag_of, AttrState,
};
use crate::ir::{
    decl_view, decls_view, lemma_decls_view_push, lemma_is_push, lemma_marker_inserts_append,
    lemma_marker_inserts_extend, lemma_stmts_view_push, marker_inserts, stmt_view, stmts_view,
    DeclView, StmtView,
};

verus! {

/// The lowering of component children, supplied from outside the engine:
/// invoked only for component tags, it may recurse back into the engine for
/// nested native elements. Nothing is assumed of what it returns or of how
/// it uses the block context.
pub trait ChildTransformer {
    /// Lower one component child, or yield nothing to skip it.
    fn transform_child(&mut self, child: &JsxElement, context: &mut BlockContext) -> Option<
        TransformResult,
    >;
}

/// A child transformer that lowers nothing: for templates without component
/// children.
pub struct NoChildTransform {}

impl ChildTransformer for NoChildTransform {
    fn transform_child(&mut self, child: &JsxElement, context: &mut BlockContext) -> Option<
        TransformResult,
    > {
        None
    }
}

/// Whether one attribute item forces runtime access to its element.
pub open spec fn attr_needs_access(item: AttrItem) -> bool {
    match item {
        AttrItem::Spread(_) => true,
        AttrItem::Attribute(a) => match a.name {
            AttrName::Namespaced(_, _) => true,
            AttrName::Ident(s) => {
                ||| s@ == "ref"@
                ||| s@ == "innerHTML"@
                ||| s@ == "textContent"@
                ||| s@ == "innerText"@
                ||| (is_prefix_of("on"@, s@) && s@.len() > 2)
                ||| a.value is Container
            },
        },
    }
}

/// Whether a child forces runtime access to its parent: a component child or
/// an expression container, looked for through fragments.
pub open spec fn child_needs_access(c: JsxChild) -> bool
    decreases c,
{
    match c {
        JsxChild::Element(e) => spec_is_component(spec_jsx_name(e.name)),
        JsxChild::Container(_) => true,
        JsxChild::Fragment(v) => exists|i: int|
            0 <= i < v@.len() && child_needs_access(#[trigger] v@[i]),
        _ => false,
    }
}

/// Whether an element needs runtime access: some attribute or some child
/// forces an id.
pub open spec fn spec_needs_runtime_access(e: JsxElement) -> bool {
    ||| exists|i: int| 0 <= i < e.attributes@.len() && attr_needs_access(#[trigger] e.attributes@[i])
    ||| exists|i: int| 0 <= i < e.children@.len() && child_needs_access(#[trigger] e.children@[i])
}

/// Check if an element needs runtime access.
pub fn element_needs_runtime_access(element: &JsxElement) -> (r: bool)
    ensures
        r == spec_needs_runtime_access(*element),
{
    let mut i: usize = 0;
    while i < element.attributes.len()
        invariant
            0 <= i <= element.attributes@.len(),
            forall|j: int| 0 <= j < i ==> !attr_needs_access(#[trigger] element.attributes@[j]),
        decreases element.attributes@.len() - i,
    {
        if attr_forces_access(&element.attributes[i]) {
            return true;
        }
        i = i + 1;
    }
    let mut i: usize = 0;
    while i < element.children.len()
        invariant
            0 <= i <= element.children@.len(),
            forall|j: int|
                0 <= j < element.attributes@.len() ==> !attr_needs_access(
                    #[trigger] element.attributes@[j],
                ),
            forall|j: int| 0 <= j < i ==> !child_needs_access(#[trigger] element.children@[j]),
        decreases element.children@.len() - i,
    {
        proof {
            assert(decreases_to!(*element => element.children));
            assert(decreases_to!(element.children => element.children@[i as int]));
        }
        if child_forces_access(&element.children[i]) {
            return true;
        }
        i = i + 1;
    }
    false
}

/// Check if one attribute item forces runtime access.
fn attr_forces_access(item: &AttrItem) -> (r: bool)
    ensures
        r == attr_needs_access(*item),
{
    match item {
        AttrItem::Spread(_) => true,
        AttrItem::Attribute(a) => match &a.name {
            AttrName::Namespaced(_, _) => true,
            AttrName::Ident(s) => {
                if crate::text::str_eq(s.as_str(), "ref") || crate::text::str_eq(
                    s.as_str(),
                    "innerHTML",
                ) || crate::text::str_eq(s.as_str(), "textContent") || crate::text::str_eq(
                    s.as_str(),
                    "innerText",
                ) {
                    true
                } else if crate::text::str_starts_with(s.as_str(), "on") && s.as_str().unicode_len()
                    > 2 {
                    true
                } else {
                    match &a.value {
                        AttrValue::Container(_) => true,
                        _ => false,
                    }
                }
            },
        },
    }
}

/// Check if one child forces runtime access.
fn child_forces_access(c: &JsxChild) -> (r: bool)
    ensures
        r == child_needs_access(*c),
    decreases *c,
{
    match c {
        JsxChild::Element(e) => {
            let tag = get_tag_name(e);
            is_component(tag.as_str())
        },
        JsxChild::Container(_) => true,
        JsxChild::Fragment(v) => {
            let mut i: usize = 0;
            while i < v.len()
                invariant
                    0 <= i <= v@.len(),
                    *c == JsxChild::Fragment(*v),
                    forall|j: int| 0 <= j < i ==> !child_needs_access(#[trigger] v@[j]),
                decreases v@.len() - i,
            {
                proof {
                    assert(decreases_to!(*c => (*c)->Fragment_0));
                    assert(decreases_to!(*v => v@[i as int]));
                    assert(decreases_to!(*c => v@[i as int]));
                }
                if child_forces_access(&v[i]) {
                    proof {
                        assert(child_needs_access(v@[i as int]));
                    }
                    return true;
                }
                i = i + 1;
            }
            false
        },
        _ => false,
    }
}

/// A flattened child: a fragment is replaced by its own flattening; anything
/// else stands alone.
pub open spec fn flat_one(c: JsxChild) -> Seq<JsxChild>
    decreases c,
{
    match c {
        JsxChild::Fragment(v) => spec_flatten_list(v@),
        _ => seq![c],
    }
}

/// A child list with every fragment inlined, in document order.
pub open spec fn spec_flatten_list(cs: Seq<JsxChild>) -> Seq<JsxChild>
    decreases cs,
{
    if cs.len() == 0 {
        Seq::empty()
    } else {
        spec_flatten_list(cs.drop_last()) + flat_one(cs.last())
    }
}

/// The children behind a sequence of references.
pub open spec fn derefs(s: Seq<&JsxChild>) -> Seq<JsxChild> {
    s.map_values(|c: &JsxChild| *c)
}

/// Every flattened child is a strict subterm of the unflattened list.
proof fn lemma_flatten_smaller(cs: Seq<JsxChild>, j: int)
    requires
        0 <= j < spec_flatten_list(cs).len(),
    ensures
        decreases_to!(cs => spec_flatten_list(cs)[j]),
    decreases cs,
{
    let pre = spec_flatten_list(cs.drop_last());
    assert(cs.len() > 0);
    assert(decreases_to!(cs => cs.drop_last()));
    assert(decreases_to!(cs => cs[cs.len() - 1]));
    assert(spec_flatten_list(cs) == pre + flat_one(cs.last()));
    if j < pre.len() {
        lemma_flatten_smaller(cs.drop_last(), j);
        assert(spec_flatten_list(cs)[j] == pre[j]);
    } else {
        let last = cs.last();
        assert(last == cs[cs.len() - 1]);
        match last {
            JsxChild::Fragment(v) => {
                assert(flat_one(last) == spec_flatten_list(v@));
                assert(0 <= j - pre.len() < spec_flatten_list(v@).len());
                assert(decreases_to!(cs[cs.len() - 1] => cs[cs.len() - 1]->Fragment_0));
                assert(cs[cs.len() - 1]->Fragment_0 == v);
                assert(decreases_to!(v => v@));
                lemma_flatten_smaller(v@, j - pre.len());
                assert(spec_flatten_list(cs)[j] == spec_flatten_list(v@)[j - pre.len()]);
            },
            _ => {
                assert(flat_one(last) =~= seq![last]);
                assert(spec_flatten_list(cs)[j] == last);
            },
        }
    }
}

/// Inline every fragment of a child list into `out`, in document order.
fn flatten_children<'a>(children: &'a Vec<JsxChild>, out: &mut Vec<&'a JsxChild>)
    ensures
        derefs(final(out)@) == derefs(old(out)@) + spec_flatten_list(children@),
    decreases *children,
{
    proof {
        assert(derefs(out@) =~= derefs(out@) + spec_flatten_list(children@.subrange(0, 0)));
    }
    let mut i: usize = 0;
    while i < children.len()
        invariant
            0 <= i <= children@.len(),
            derefs(out@) == derefs(old(out)@) + spec_flatten_list(children@.subrange(0, i as int)),
        decreases children@.len() - i,
    {
        proof {
            assert(decreases_to!(*children => children@));
            assert(decreases_to!(children@ => children@[i as int]));
            assert(children@.subrange(0, i + 1).drop_last() =~= children@.subrange(0, i as int));
            assert(children@.subrange(0, i + 1).last() == children@[i as int]);
        }
        let ghost prev = out@;
        proof {
            assert(spec_flatten_list(children@.subrange(0, i + 1)) == spec_flatten_list(
                children@.subrange(0, i as int),
            ) + flat_one(children@[i as int]));
        }
        match &children[i] {
            JsxChild::Fragment(v) => {
                proof {
                    assert(decreases_to!(children@[i as int] => children@[i as int]->Fragment_0));
                    assert(children@[i as int] == JsxChild::Fragment(*v));
                    assert(flat_one(children@[i as int]) == spec_flatten_list(v@));
                }
                flatten_children(v, out);
                proof {
                    assert(derefs(out@) == derefs(prev) + spec_flatten_list(v@));
                    assert(derefs(out@) =~= derefs(old(out)@) + spec_flatten_list(
                        children@.subrange(0, i + 1),
                    ));
                }
            },
            _ => {
                out.push(&children[i]);
                proof {
                    assert(flat_one(children@[i as int]) =~= seq![children@[i as int]]);
                    assert(derefs(out@) =~= derefs(prev).push(children@[i as int]));
                    assert(derefs(out@) =~= derefs(old(out)@) + spec_flatten_list(
                        children@.subrange(0, i + 1),
                    ));
                }
            },
        }
        i = i + 1;
    }
    proof {
        assert(children@.subrange(0, children@.len() as int) =~= children@);
    }
}

/// How many expression containers a flattened child list holds.
pub open spec fn count_containers(flat: Seq<JsxChild>) -> nat
    decreases flat.len(),
{
    if flat.len() == 0 {
        0
    } else {
        count_containers(flat.drop_last()) + (if flat.last() is Container {
            1nat
        } else {
            0nat
        })
    }
}

/// Whether a flattened child list holds content other than expression
/// containers: an element, or a text run that survives whitespace trimming.
pub open spec fn has_other_content(flat: Seq<JsxChild>) -> bool {
    exists|i: int|
        0 <= i < flat.len() && match #[trigger] flat[i] {
            JsxChild::Text(t) => spec_trim_whitespace(t@).len() > 0,
            JsxChild::Element(_) => true,
            _ => false,
        }
}

/// Whether the children reduce to exactly one expression container and no
/// other content, which allows a marker-free insert on the parent.
pub open spec fn spec_single_dynamic(flat: Seq<JsxChild>) -> bool {
    count_containers(flat) == 1 && !has_other_content(flat)
}

/// Check if a flattened child list is a single dynamic expression.
fn is_single_dynamic_child(flat: &Vec<&JsxChild>) -> (r: bool)
    ensures
        r == spec_single_dynamic(derefs(flat@)),
{
    let mut exprs: usize = 0;
    let mut other: bool = false;
    let mut i: usize = 0;
    proof {
        assert(derefs(flat@).subrange(0, 0) =~= Seq::<JsxChild>::empty());
    }
    while i < flat.len()
        invariant
            0 <= i <= flat@.len(),
            derefs(flat@).len() == flat@.len(),
            exprs <= i,
            exprs as nat == count_containers(derefs(flat@).subrange(0, i as int)),
            other == has_other_content(derefs(flat@).subrange(0, i as int)),
        decreases flat@.len() - i,
    {
        let ghost pre = derefs(flat@).subrange(0, i as int);
        let ghost cur = derefs(flat@).subrange(0, i + 1);
        proof {
            assert(cur.drop_last() =~= pre);
            assert(cur.last() == derefs(flat@)[i as int]);
        }
        match &flat[i] {
            JsxChild::Text(t) => {
                let content = trim_whitespace(t.as_str());
                if content.as_str().unicode_len() > 0 {
                    other = true;
                }
            },
            JsxChild::Element(_) => {
                other = true;
            },
            JsxChild::Container(_) => {
                exprs = exprs + 1;
            },
            _ => {},
        }
        proof {
            assert forall|k: int| 0 <= k < cur.len() implies (match #[trigger] cur[k] {
                JsxChild::Text(t) => spec_trim_whitespace(t@).len() > 0,
                JsxChild::Element(_) => true,
                _ => false,
            }) == (match derefs(flat@)[k] {
                JsxChild::Text(t) => spec_trim_whitespace(t@).len() > 0,
                JsxChild::Element(_) => true,
                _ => false,
            }) by {
                assert(cur[k] == derefs(flat@)[k]);
            }
        }
        i = i + 1;
    }
    proof {
        assert(derefs(flat@).subrange(0, flat@.len() as int) =~= derefs(flat@));
    }
    exprs == 1 && !other
}

/// Copy a walk path.
fn copy_steps(v: &Vec<Step>) -> (r: Vec<Step>)
    ensures
        r@ == v@,
{
    let mut out: Vec<Step> = Vec::new();
    let mut i: usize = 0;
    while i < v.len()
        invariant
            0 <= i <= v@.len(),
            out@ == v@.subrange(0, i as int),
        decreases v@.len() - i,
    {
        out.push(v[i]);
        proof {
            assert(v@.subrange(0, i + 1) =~= v@.subrange(0, i as int).push(v@[i as int]));
        }
        i = i + 1;
    }
    proof {
        assert(v@.subrange(0, v@.len() as int) =~= v@);
    }
    out
}

/// `nextSibling` repeated `k` times.
pub open spec fn sibling_steps(k: nat) -> Seq<Step> {
    Seq::new(k, |i: int| Step::NextSibling)
}

/// The walk from a parent to its child at `node_index`: `firstChild` then
/// `nextSibling` repeated.
fn child_walk_steps(base: &Vec<Step>, node_index: usize) -> (r: Vec<Step>)
    ensures
        r@ == base@ + seq![Step::FirstChild] + sibling_steps(node_index as nat),
{
    let mut out = copy_steps(base);
    out.push(Step::FirstChild);
    let mut k: usize = 0;
    while k < node_index
        invariant
            0 <= k <= node_index,
            out@ == base@ + seq![Step::FirstChild] + sibling_steps(k as nat),
        decreases node_index - k,
    {
        out.push(Step::NextSibling);
        proof {
            assert(out@ =~= base@ + seq![Step::FirstChild] + sibling_steps((k + 1) as nat));
        }
        k = k + 1;
    }
    proof {
        assert(out@ =~= base@ + seq![Step::FirstChild] + sibling_steps(node_index as nat));
    }
    out
}

/// Whether a declaration list binds the given name.
pub open spec fn declares(decls: Seq<Declaration>, n: Seq<char>) -> bool {
    exists|i: int| 0 <= i < decls.len() && (#[trigger] decls[i]).name@ == n
}

/// Whether an optional name is exactly `n`.
pub open spec fn opt_name_is(o: Option<String>, n: Seq<char>) -> bool {
    o matches Some(s) && s@ == n
}

/// Whether a name is defined within a result: bound by a declaration, the
/// element's own id, or the ambient root.
pub open spec fn name_defined(r: TransformResult, root: Option<String>, n: Seq<char>) -> bool {
    declares(r.declarations@, n) || opt_name_is(r.id, n) || opt_name_is(root, n)
}

/// Whether one statement references only defined names.
pub open spec fn stmt_ok(s: Stmt, r: TransformResult, root: Option<String>) -> bool {
    &&& match stmt_elem(s) {
        Some(n) => name_defined(r, root, n),
        None => true,
    }
    &&& match stmt_marker(s) {
        Some(m) => name_defined(r, root, m),
        None => true,
    }
}

/// Template/declaration coherence: every element or marker name referenced
/// by a statement or a dynamic binding is bound by a declaration, is the
/// element's own id, or is the ambient root.
pub open spec fn names_ok(r: TransformResult, root: Option<String>) -> bool {
    &&& forall|i: int| 0 <= i < r.exprs@.len() ==> stmt_ok(#[trigger] r.exprs@[i], r, root)
    &&& forall|i: int|
        0 <= i < r.dynamics@.len() ==> name_defined(r, root, (#[trigger] r.dynamics@[i]).elem@)
}

/// A defined name stays defined when declarations only grow and the id and
/// root stay.
proof fn lemma_defined_monotone(
    r1: TransformResult,
    r2: TransformResult,
    root: Option<String>,
    n: Seq<char>,
)
    requires
        name_defined(r1, root, n),
        seq_extends(r1.declarations@, r2.declarations@),
        r2.id == r1.id,
    ensures
        name_defined(r2, root, n),
{
    if declares(r1.declarations@, n) {
        let i = choose|i: int| 0 <= i < r1.declarations@.len() && (#[trigger] r1.declarations@[i]).name@ == n;
        assert(r2.declarations@[i] == r2.declarations@.subrange(
            0,
            r1.declarations@.len() as int,
        )[i]);
        assert(r2.declarations@[i].name@ == n);
    }
}

/// Whether the element attribute list is well formed: bare `on`-keys always
/// carry expressions, and the namespace routers' prefixes never occur inside
/// a plain identifier key.
pub open spec fn attrs_wf(items: Seq<AttrItem>) -> bool {
    forall|i: int|
        0 <= i < items.len() ==> match #[trigger] items[i] {
            AttrItem::Attribute(a) => match a.name {
                AttrName::Ident(s) => {
                    &&& (is_prefix_of("on"@, s@) && s@.len() <= 2 ==> a.value is Container)
                    &&& !is_prefix_of("use:"@, s@)
                    &&& !is_prefix_of("prop:"@, s@)
                    &&& !is_prefix_of("attr:"@, s@)
                },
                AttrName::Namespaced(_, _) => true,
            },
            AttrItem::Spread(_) => true,
        }
}

/// Whether one child subtree is well formed, component subtrees excepted.
pub open spec fn wf_child(c: JsxChild) -> bool
    decreases c,
{
    match c {
        JsxChild::Element(e) => spec_is_component(spec_jsx_name(e.name)) || spec_element_wf(*e),
        JsxChild::Fragment(v) => forall|i: int| 0 <= i < v@.len() ==> wf_child(#[trigger] v@[i]),
        _ => true,
    }
}

/// Whether an element tree is well formed: its own attributes and those of
/// every native descendant.
pub open spec fn spec_element_wf(e: JsxElement) -> bool
    decreases e,
{
    &&& attrs_wf(e.attributes@)
    &&& forall|i: int| 0 <= i < e.children@.len() ==> wf_child(#[trigger] e.children@[i])
}

/// Whether one child subtree stays silent when ids are suppressed.
pub open spec fn skip_child_ok(c: JsxChild) -> bool
    decreases c,
{
    match c {
        JsxChild::Element(e) => spec_is_component(spec_jsx_name(e.name)) || spec_skip_ok(*e),
        JsxChild::Fragment(v) => forall|i: int|
            0 <= i < v@.len() ==> skip_child_ok(#[trigger] v@[i]),
        _ => true,
    }
}

/// Whether an element tree can be lowered with id issuing suppressed: no
/// element in it needs runtime access.
pub open spec fn spec_skip_ok(e: JsxElement) -> bool
    decreases e,
{
    &&& !spec_needs_runtime_access(e)
    &&& forall|i: int| 0 <= i < e.children@.len() ==> skip_child_ok(#[trigger] e.children@[i])
}

/// Check if one attribute item is well formed.
fn attr_item_well_formed(item: &AttrItem) -> (r: bool)
    ensures
        r == match *item {
            AttrItem::Attribute(a) => match a.name {
                AttrName::Ident(s) => {
                    &&& (is_prefix_of("on"@, s@) && s@.len() <= 2 ==> a.value is Container)
                    &&& !is_prefix_of("use:"@, s@)
                    &&& !is_prefix_of("prop:"@, s@)
                    &&& !is_prefix_of("attr:"@, s@)
                },
                AttrName::Namespaced(_, _) => true,
            },
            AttrItem::Spread(_) => true,
        },
{
    match item {
        AttrItem::Attribute(a) => match &a.name {
            AttrName::Ident(s) => {
                if crate::text::str_starts_with(s.as_str(), "use:") || crate::text::str_starts_with(
                    s.as_str(),
                    "prop:",
                ) || crate::text::str_starts_with(s.as_str(), "attr:") {
                    false
                } else if crate::text::str_starts_with(s.as_str(), "on") && s.as_str().unicode_len()
                    <= 2 {
                    match &a.value {
                        AttrValue::Container(_) => true,
                        _ => false,
                    }
                } else {
                    true
                }
            },
            AttrName::Namespaced(_, _) => true,
        },
        AttrItem::Spread(_) => true,
    }
}

/// Check if one child subtree is well formed.
fn child_well_formed(c: &JsxChild) -> (r: bool)
    ensures
        r == wf_child(*c),
    decreases *c,
{
    match c {
        JsxChild::Element(e) => {
            let tag = get_tag_name(e);
            if is_component(tag.as_str()) {
                true
            } else {
                proof {
                    assert(decreases_to!(*c => (*c)->Element_0));
                }
                element_well_formed(e)
            }
        },
        JsxChild::Fragment(v) => {
            let mut i: usize = 0;
            while i < v.len()
                invariant
                    0 <= i <= v@.len(),
                    *c == JsxChild::Fragment(*v),
                    forall|j: int| 0 <= j < i ==> wf_child(#[trigger] v@[j]),
                decreases v@.len() - i,
            {
                proof {
                    assert(decreases_to!(*c => (*c)->Fragment_0));
                    assert(decreases_to!(*v => v@[i as int]));
                    assert(decreases_to!(*c => v@[i as int]));
                }
                if !child_well_formed(&v[i]) {
                    proof {
                        assert(!wf_child(v@[i as int]));
                    }
                    return false;
                }
                i = i + 1;
            }
            true
        },
        _ => true,
    }
}

/// Check if an element tree is well formed: whether the lowering accepts it.
/// A caller that cannot prove well-formedness tests it with this and
/// declines ill-formed trees, as the reference compiler aborts on them.
pub fn element_well_formed(element: &JsxElement) -> (r: bool)
    ensures
        r == spec_element_wf(*element),
    decreases *element,
{
    let mut i: usize = 0;
    while i < element.attributes.len()
        invariant
            0 <= i <= element.attributes@.len(),
            forall|j: int|
                0 <= j < i ==> match #[trigger] element.attributes@[j] {
                    AttrItem::Attribute(a) => match a.name {
                        AttrName::Ident(s) => {
                            &&& (is_prefix_of("on"@, s@) && s@.len() <= 2 ==> a.value is Container)
                            &&& !is_prefix_of("use:"@, s@)
                            &&& !is_prefix_of("prop:"@, s@)
                            &&& !is_prefix_of("attr:"@, s@)
                        },
                        AttrName::Namespaced(_, _) => true,
                    },
                    AttrItem::Spread(_) => true,
                },
        decreases element.attributes@.len() - i,
    {
        if !attr_item_well_formed(&element.attributes[i]) {
            return false;
        }
        i = i + 1;
    }
    let mut i: usize = 0;
    while i < element.children.len()
        invariant
            0 <= i <= element.children@.len(),
            attrs_wf(element.attributes@),
            forall|j: int| 0 <= j < i ==> wf_child(#[trigger] element.children@[j]),
        decreases element.children@.len() - i,
    {
        proof {
            assert(decreases_to!(*element => element.children));
            assert(decreases_to!(element.children => element.children@[i as int]));
        }
        if !child_well_formed(&element.children[i]) {
            return false;
        }
        i = i + 1;
    }
    true
}

/// Well-formed attributes route to an id-needing handler only when the
/// element needs runtime access.
proof fn lemma_requires_id_access(items: Seq<AttrItem>, i: int)
    requires
        attrs_wf(items),
        0 <= i < items.len(),
        item_requires_id(items[i]),
    ensures
        attr_needs_access(items[i]),
{
    match items[i] {
        AttrItem::Attribute(a) => {
            match a.name {
                AttrName::Ident(s) => {
                    let key = spec_attr_name(a.name);
                    assert(key == s@);
                    if is_prefix_of("on"@, key) && key.len() <= 2 {
                        assert(a.value is Container);
                    }
                },
                AttrName::Namespaced(_, _) => {},
            }
        },
        AttrItem::Spread(_) => {},
    }
}

/// Flattening keeps well-formedness of the children.
proof fn lemma_flatten_wf(cs: Seq<JsxChild>, j: int)
    requires
        forall|i: int| 0 <= i < cs.len() ==> wf_child(#[trigger] cs[i]),
        0 <= j < spec_flatten_list(cs).len(),
    ensures
        wf_child(spec_flatten_list(cs)[j]),
    decreases cs,
{
    let pre = spec_flatten_list(cs.drop_last());
    assert(cs.len() > 0);
    assert(spec_flatten_list(cs) == pre + flat_one(cs.last()));
    if j < pre.len() {
        assert(forall|i: int| 0 <= i < cs.drop_last().len() ==> wf_child(#[trigger] cs.drop_last()[i]));
        lemma_flatten_wf(cs.drop_last(), j);
        assert(spec_flatten_list(cs)[j] == pre[j]);
    } else {
        let last = cs.last();
        assert(last == cs[cs.len() - 1]);
        assert(wf_child(last));
        match last {
            JsxChild::Fragment(v) => {
                assert(flat_one(last) == spec_flatten_list(v@));
                assert(0 <= j - pre.len() < spec_flatten_list(v@).len());
                lemma_flatten_wf(v@, j - pre.len());
                assert(spec_flatten_list(cs)[j] == spec_flatten_list(v@)[j - pre.len()]);
            },
            _ => {
                assert(flat_one(last) =~= seq![last]);
                assert(spec_flatten_list(cs)[j] == last);
            },
        }
    }
}

/// Flattening keeps skip-safety of the children.
proof fn lemma_flatten_skip(cs: Seq<JsxChild>, j: int)
    requires
        forall|i: int| 0 <= i < cs.len() ==> skip_child_ok(#[trigger] cs[i]),
        0 <= j < spec_flatten_list(cs).len(),
    ensures
        skip_child_ok(spec_flatten_list(cs)[j]),
    decreases cs,
{
    let pre = spec_flatten_list(cs.drop_last());
    assert(cs.len() > 0);
    assert(spec_flatten_list(cs) == pre + flat_one(cs.last()));
    if j < pre.len() {
        assert(forall|i: int|
            0 <= i < cs.drop_last().len() ==> skip_child_ok(#[trigger] cs.drop_last()[i]));
        lemma_flatten_skip(cs.drop_last(), j);
        assert(spec_flatten_list(cs)[j] == pre[j]);
    } else {
        let last = cs.last();
        assert(last == cs[cs.len() - 1]);
        assert(skip_child_ok(last));
        match last {
            JsxChild::Fragment(v) => {
                assert(flat_one(last) == spec_flatten_list(v@));
                assert(0 <= j - pre.len() < spec_flatten_list(v@).len());
                lemma_flatten_skip(v@, j - pre.len());
                assert(spec_flatten_list(cs)[j] == spec_flatten_list(v@)[j - pre.len()]);
            },
            _ => {
                assert(flat_one(last) =~= seq![last]);
                assert(spec_flatten_list(cs)[j] == last);
            },
        }
    }
}

/// Whether one child subtree cannot smuggle marker text into the template.
pub open spec fn tpl_safe_child(c: JsxChild) -> bool
    decreases c,
{
    match c {
        JsxChild::Element(e) => spec_is_component(spec_jsx_name(e.name)) || spec_template_safe(*e),
        JsxChild::Fragment(v) => forall|i: int| 0 <= i < v@.len() ==> tpl_safe_child(#[trigger] v@[i]),
        _ => true,
    }
}

/// Whether an element tree cannot smuggle marker text into the template: a
/// non-empty tag free of the marker's characters, marker-safe attributes,
/// and the same of every native descendant. Text runs are escaped, so they
/// are always safe.
pub open spec fn spec_template_safe(e: JsxElement) -> bool
    decreases e,
{
    &&& safe_name(spec_jsx_name(e.name))
    &&& spec_jsx_name(e.name).len() > 0
    &&& forall|i: int| 0 <= i < e.attributes@.len() ==> item_safe(#[trigger] e.attributes@[i])
    &&& forall|i: int| 0 <= i < e.children@.len() ==> tpl_safe_child(#[trigger] e.children@[i])
}

/// Flattening keeps marker-safety of the children.
proof fn lemma_flatten_tpl_safe(cs: Seq<JsxChild>, j: int)
    requires
        forall|i: int| 0 <= i < cs.len() ==> tpl_safe_child(#[trigger] cs[i]),
        0 <= j < spec_flatten_list(cs).len(),
    ensures
        tpl_safe_child(spec_flatten_list(cs)[j]),
    decreases cs,
{
    let pre = spec_flatten_list(cs.drop_last());
    assert(cs.len() > 0);
    assert(spec_flatten_list(cs) == pre + flat_one(cs.last()));
    if j < pre.len() {
        assert(forall|i: int|
            0 <= i < cs.drop_last().len() ==> tpl_safe_child(#[trigger] cs.drop_last()[i]));
        lemma_flatten_tpl_safe(cs.drop_last(), j);
        assert(spec_flatten_list(cs)[j] == pre[j]);
    } else {
        let last = cs.last();
        assert(last == cs[cs.len() - 1]);
        assert(tpl_safe_child(last));
        match last {
            JsxChild::Fragment(v) => {
                assert(flat_one(last) == spec_flatten_list(v@));
                assert(0 <= j - pre.len() < spec_flatten_list(v@).len());
                lemma_flatten_tpl_safe(v@, j - pre.len());
                assert(spec_flatten_list(cs)[j] == spec_flatten_list(v@)[j - pre.len()]);
            },
            _ => {
                assert(flat_one(last) =~= seq![last]);
                assert(spec_flatten_list(cs)[j] == last);
            },
        }
    }
}

/// Appending marker-free text keeps a straddle-free tail.
proof fn lemma_tail_after_no_open(s: Seq<char>, p: Seq<char>)
    requires
        tail_ok(s),
        no_open(p),
    ensures
        tail_ok(s + p),
{
    let t = s + p;
    if p.len() >= 2 {
        assert(t.last() == p[p.len() - 1]);
        assert(t[t.len() - 2] == p[p.len() - 2]);
    } else if p.len() == 1 {
        assert(t.last() == p[0]);
        if t.len() >= 2 {
            assert(t[t.len() - 2] == s[s.len() - 1]);
        }
    } else {
        assert(t =~= s);
    }
}

/// Appending a piece that ends on a benign character leaves a straddle-free
/// tail.
proof fn lemma_tail_after_benign(s: Seq<char>, p: Seq<char>)
    requires
        p.len() >= 1,
        p.last() != '<',
        p.last() != '!',
    ensures
        tail_ok(s + p),
{
    let t = s + p;
    assert(t.last() == p[p.len() - 1]);
}

/// A straddle-free tail carries over from an appended piece of length two or
/// more.
proof fn lemma_tail_transfer(s: Seq<char>, p: Seq<char>)
    requires
        p.len() >= 2,
        tail_ok(p),
    ensures
        tail_ok(s + p),
{
    let t = s + p;
    assert(t.last() == p[p.len() - 1]);
    assert(t[t.len() - 2] == p[p.len() - 2]);
}

/// Appending the marker text to a straddle-free template adds exactly one
/// occurrence and leaves a straddle-free tail.
proof fn lemma_marker_piece(s: Seq<char>)
    requires
        tail_ok(s),
    ensures
        marker_count(s + "<!>"@) == marker_count(s) + 1,
        tail_ok(s + "<!>"@),
{
    reveal_strlit("<!>");
    let m = "<!>"@;
    assert(m.len() == 3);
    assert(m[0] == '<' && m[1] == '!' && m[2] == '>');
    assert(m.drop_last().len() == 2);
    assert(marker_count(m.drop_last()) == 0);
    assert(m[m.len() - 3] == '<' && m[m.len() - 2] == '!' && m.last() == '>');
    assert(marker_count(m) == 1);
    lemma_marker_count_append(s, m);
    lemma_tail_after_benign(s, m);
}

/// Merging a child result whose names are coherent keeps the parent's names
/// coherent, provided the ambient root the child used is itself defined and
/// the child's id, if issued, is bound by one of its own declarations.
proof fn lemma_merge_names(
    mid: TransformResult,
    child: TransformResult,
    merged: TransformResult,
    root0: Option<String>,
    mroot: Option<String>,
)
    requires
        names_ok(mid, root0),
        names_ok(child, mroot),
        mroot matches Some(m) ==> name_defined(mid, root0, m@),
        child.id matches Some(cid) ==> declares(child.declarations@, cid@),
        merged.id == mid.id,
        merged.declarations@ == mid.declarations@ + child.declarations@,
        merged.exprs@ == mid.exprs@ + child.exprs@,
        merged.dynamics@ == mid.dynamics@ + child.dynamics@,
    ensures
        names_ok(merged, root0),
{
    assert(seq_extends(mid.declarations@, merged.declarations@)) by {
        assert(merged.declarations@.subrange(0, mid.declarations@.len() as int)
            =~= mid.declarations@);
    }
    assert forall|n: Seq<char>| name_defined(child, mroot, n) implies name_defined(
        merged,
        root0,
        n,
    ) by {
        if declares(child.declarations@, n) {
            let j = choose|j: int|
                0 <= j < child.declarations@.len() && (#[trigger] child.declarations@[j]).name@
                    == n;
            assert(merged.declarations@[mid.declarations@.len() + j].name@ == n);
        } else if opt_name_is(child.id, n) {
            let j = choose|j: int|
                0 <= j < child.declarations@.len() && (#[trigger] child.declarations@[j]).name@
                    == n;
            assert(merged.declarations@[mid.declarations@.len() + j].name@ == n);
        } else {
            assert(opt_name_is(mroot, n));
            lemma_defined_monotone(mid, merged, root0, n);
        }
    }
    assert forall|i: int| 0 <= i < merged.exprs@.len() implies stmt_ok(
        #[trigger] merged.exprs@[i],
        merged,
        root0,
    ) by {
        if i < mid.exprs@.len() {
            assert(merged.exprs@[i] == mid.exprs@[i]);
            assert(stmt_ok(mid.exprs@[i], mid, root0));
            match stmt_elem(mid.exprs@[i]) {
                Some(n) => lemma_defined_monotone(mid, merged, root0, n),
                None => {},
            }
            match stmt_marker(mid.exprs@[i]) {
                Some(m2) => lemma_defined_monotone(mid, merged, root0, m2),
                None => {},
            }
        } else {
            assert(merged.exprs@[i] == child.exprs@[i - mid.exprs@.len()]);
            assert(stmt_ok(child.exprs@[i - mid.exprs@.len()], child, mroot));
        }
    }
    assert forall|i: int| 0 <= i < merged.dynamics@.len() implies name_defined(
        merged,
        root0,
        (#[trigger] merged.dynamics@[i]).elem@,
    ) by {
        if i < mid.dynamics@.len() {
            assert(merged.dynamics@[i] == mid.dynamics@[i]);
            lemma_defined_monotone(mid, merged, root0, mid.dynamics@[i].elem@);
        } else {
            assert(merged.dynamics@[i] == child.dynamics@[i - mid.dynamics@.len()]);
        }
    }
}

/// Under skip-safe lowering no child of the flattening needs access either.
proof fn lemma_flatten_no_access(cs: Seq<JsxChild>, j: int)
    requires
        forall|i: int| 0 <= i < cs.len() ==> !child_needs_access(#[trigger] cs[i]),
        0 <= j < spec_flatten_list(cs).len(),
    ensures
        !child_needs_access(spec_flatten_list(cs)[j]),
    decreases cs,
{
    let pre = spec_flatten_list(cs.drop_last());
    assert(cs.len() > 0);
    assert(spec_flatten_list(cs) == pre + flat_one(cs.last()));
    if j < pre.len() {
        assert(forall|i: int|
            0 <= i < cs.drop_last().len() ==> !child_needs_access(#[trigger] cs.drop_last()[i]));
        lemma_flatten_no_access(cs.drop_last(), j);
        assert(spec_flatten_list(cs)[j] == pre[j]);
    } else {
        let last = cs.last();
        assert(last == cs[cs.len() - 1]);
        assert(!child_needs_access(last));
        match last {
            JsxChild::Fragment(v) => {
                assert(forall|i: int| 0 <= i < v@.len() ==> !child_needs_access(#[trigger] v@[i]));
                assert(flat_one(last) == spec_flatten_list(v@));
                assert(0 <= j - pre.len() < spec_flatten_list(v@).len());
                lemma_flatten_no_access(v@, j - pre.len());
                assert(spec_flatten_list(cs)[j] == spec_flatten_list(v@)[j - pre.len()]);
            },
            _ => {
                assert(flat_one(last) =~= seq![last]);
                assert(spec_flatten_list(cs)[j] == last);
            },
        }
    }
}

/// A saturating advance of the name counter.
pub open spec fn uid_inc(u: u64) -> u64 {
    if u < u64::MAX {
        (u + 1) as u64
    } else {
        u
    }
}

/// The state the child walk folds over: the template text, declaration and
/// statement views, the walk position, and the context's counter and
/// registries.
pub ghost struct ChildState {
    pub template: Seq<char>,
    pub decls: Seq<DeclView>,
    pub exprs: Seq<StmtView>,
    pub node_index: nat,
    pub last_was_text: bool,
    pub uid: u64,
    pub helpers: Seq<Seq<char>>,
    pub delegated: Seq<Seq<char>>,
}

/// Whether a flattened child list holds only text and expression content:
/// no nested elements, whose lowering recurses, and no fragments, which
/// flattening has already removed.
pub open spec fn simple_children(flat: Seq<JsxChild>) -> bool {
    forall|i: int|
        0 <= i < flat.len() ==> !((#[trigger] flat[i]) is Element) && !(flat[i] is Fragment)
}

/// The state as one simple flattened child leaves it: the functional form
/// of the child walk. A whitespace-only text run changes nothing; other text
/// is escaped and appended, advancing the walk once per adjacent run; an
/// expression container inserts on the parent, marker-free exactly when the
/// whole child list is a single expression, and otherwise reserves a marker
/// bound to `parent.firstChild.nextSibling^n`.
pub open spec fn spec_child_step(
    c: JsxChild,
    parent: Option<Seq<char>>,
    single: bool,
    st: ChildState,
) -> ChildState {
    match c {
        JsxChild::Text(t) => {
            let content = spec_trim_whitespace(t@);
            if content.len() == 0 {
                st
            } else {
                ChildState {
                    template: st.template + spec_escape_html(content, false),
                    node_index: if st.last_was_text {
                        st.node_index
                    } else {
                        st.node_index + 1
                    },
                    last_was_text: true,
                    ..st
                }
            }
        },
        JsxChild::Container(se) => match parent {
            Some(p) => {
                let value = if spec_is_dynamic(se.shape) {
                    "() => "@ + se.code@
                } else {
                    se.code@
                };
                if single {
                    ChildState {
                        last_was_text: false,
                        helpers: crate::ir::names_with(st.helpers, "insert"@),
                        exprs: st.exprs.push(
                            StmtView::Insert { parent: p, value, marker: None },
                        ),
                        ..st
                    }
                } else {
                    let m = crate::ir::spec_uid("el$"@, st.uid);
                    ChildState {
                        last_was_text: false,
                        helpers: crate::ir::names_with(st.helpers, "insert"@),
                        template: st.template + "<!>"@,
                        uid: uid_inc(st.uid),
                        decls: st.decls.push(
                            DeclView {
                                name: m,
                                root: p,
                                steps: seq![Step::FirstChild] + sibling_steps(st.node_index),
                            },
                        ),
                        exprs: st.exprs.push(
                            StmtView::Insert { parent: p, value, marker: Some(m) },
                        ),
                        node_index: st.node_index + 1,
                        ..st
                    }
                }
            },
            None => st,
        },
        _ => st,
    }
}

/// A simple flattened child list folded, child by child, in document order.
pub open spec fn spec_children_fold(
    flat: Seq<JsxChild>,
    parent: Option<Seq<char>>,
    single: bool,
    st: ChildState,
) -> ChildState
    decreases flat.len(),
{
    if flat.len() == 0 {
        st
    } else {
        spec_child_step(
            flat.last(),
            parent,
            single,
            spec_children_fold(flat.drop_last(), parent, single, st),
        )
    }
}

/// Whether every declaration name was issued by the context below the given
/// counter reading.
pub open spec fn decl_names_from(decls: Seq<DeclView>, prefix: Seq<char>, hi: u64) -> bool {
    forall|j: int|
        0 <= j < decls.len() ==> exists|u: u64|
            #![auto]
            u < hi && (#[trigger] decls[j]).name == crate::ir::spec_uid(prefix, u)
}

/// Whether declaration names are pairwise distinct.
pub open spec fn decl_names_distinct(decls: Seq<DeclView>) -> bool {
    forall|j: int, k: int|
        0 <= j < k < decls.len() ==> (#[trigger] decls[j]).name != (#[trigger] decls[k]).name
}

/// Declaration names stay pairwise distinct through the child walk: every
/// marker name is issued at the walk's current counter reading, above every
/// earlier reading, so no name repeats while the counter has room. Together
/// with the element contract's composition clause, the declarations of a
/// lowering whose flattened children are simple carry pairwise distinct
/// names.
pub proof fn lemma_child_fold_names_distinct(
    flat: Seq<JsxChild>,
    parent: Option<Seq<char>>,
    single: bool,
    st: ChildState,
)
    requires
        decl_names_from(st.decls, "el$"@, st.uid),
        decl_names_distinct(st.decls),
        st.uid + flat.len() < u64::MAX,
    ensures
        ({
            let r = spec_children_fold(flat, parent, single, st);
            &&& decl_names_from(r.decls, "el$"@, r.uid)
            &&& decl_names_distinct(r.decls)
            &&& st.uid <= r.uid
            &&& r.uid <= st.uid + flat.len()
        }),
    decreases flat.len(),
{
    if flat.len() > 0 {
        lemma_child_fold_names_distinct(flat.drop_last(), parent, single, st);
        let p = spec_children_fold(flat.drop_last(), parent, single, st);
        let r = spec_children_fold(flat, parent, single, st);
        match flat.last() {
            JsxChild::Container(se) => {
                match parent {
                    Some(pn) => {
                        if !single {
                            let m = crate::ir::spec_uid("el$"@, p.uid);
                            assert(r.decls == p.decls.push(
                                DeclView {
                                    name: m,
                                    root: pn,
                                    steps: seq![Step::FirstChild] + sibling_steps(p.node_index),
                                },
                            ));
                            assert forall|j: int| 0 <= j < p.decls.len() implies (
                            #[trigger] p.decls[j]).name != m by {
                                let u = choose|u: u64|
                                    u < p.uid && p.decls[j].name == crate::ir::spec_uid(
                                        "el$"@,
                                        u,
                                    );
                                crate::laws::lemma_uid_names_fresh("el$"@, u, p.uid);
                            }
                            assert(decl_names_distinct(r.decls)) by {
                                assert forall|j: int, k: int|
                                    0 <= j < k < r.decls.len() implies (#[trigger] r.decls[j]).name
                                    != (#[trigger] r.decls[k]).name by {
                                    if k < p.decls.len() {
                                        assert(r.decls[j] == p.decls[j]);
                                        assert(r.decls[k] == p.decls[k]);
                                    } else {
                                        assert(r.decls[k].name == m);
                                        assert(r.decls[j] == p.decls[j]);
                                    }
                                }
                            }
                            assert(decl_names_from(r.decls, "el$"@, r.uid)) by {
                                assert forall|j: int| 0 <= j < r.decls.len() implies exists|u: u64|
                                    #![auto]
                                    u < r.uid && (#[trigger] r.decls[j]).name
                                        == crate::ir::spec_uid("el$"@, u) by {
                                    if j < p.decls.len() {
                                        assert(r.decls[j] == p.decls[j]);
                                        let u = choose|u: u64|
                                            u < p.uid && p.decls[j].name == crate::ir::spec_uid(
                                                "el$"@,
                                                u,
                                            );
                                        assert(u < r.uid && r.decls[j].name
                                            == crate::ir::spec_uid("el$"@, u));
                                    } else {
                                        assert(r.decls[j].name == crate::ir::spec_uid(
                                            "el$"@,
                                            p.uid,
                                        ));
                                        assert(p.uid < r.uid && r.decls[j].name
                                            == crate::ir::spec_uid("el$"@, p.uid));
                                    }
                                }
                            }
                        }
                    },
                    None => {},
                }
            },
            _ => {},
        }
    }
}

/// Topological consistency of the child walk's declarations: the walk only
/// appends declarations, and every appended declaration is a marker rooted
/// at the walk's parent name and starting with a `firstChild` step. Under
/// the element contract's composition clause the parent is the element's own
/// id, and the only earlier declaration is the id's own binding, rooted at
/// the caller's root — so every init references the ambient root or an
/// already-bound name.
pub proof fn lemma_child_fold_decl_roots(
    flat: Seq<JsxChild>,
    parent: Option<Seq<char>>,
    single: bool,
    st: ChildState,
)
    ensures
        ({
            let r = spec_children_fold(flat, parent, single, st);
            &&& r.decls.len() >= st.decls.len()
            &&& r.decls.subrange(0, st.decls.len() as int) == st.decls
            &&& forall|j: int|
                st.decls.len() <= j < r.decls.len() ==> (parent matches Some(p) && (
                #[trigger] r.decls[j]).root == p && r.decls[j].steps.len() >= 1
                    && r.decls[j].steps[0] == Step::FirstChild)
        }),
    decreases flat.len(),
{
    if flat.len() == 0 {
        let r = spec_children_fold(flat, parent, single, st);
        assert(r.decls.subrange(0, st.decls.len() as int) =~= st.decls);
    } else {
        lemma_child_fold_decl_roots(flat.drop_last(), parent, single, st);
        let p = spec_children_fold(flat.drop_last(), parent, single, st);
        let r = spec_children_fold(flat, parent, single, st);
        match flat.last() {
            JsxChild::Container(se) => {
                match parent {
                    Some(pn) => {
                        if !single {
                            assert(r.decls.drop_last() =~= p.decls);
                            assert(r.decls.subrange(0, st.decls.len() as int) =~= p.decls.subrange(
                                0,
                                st.decls.len() as int,
                            ));
                            assert(r.decls.last().steps[0] == Step::FirstChild);
                        } else {
                            assert(r.decls == p.decls);
                        }
                    },
                    None => {},
                }
            },
            _ => {},
        }
    }
}

/// Clone an optional name.
fn clone_opt_name(o: &Option<String>) -> (r: Option<String>)
    ensures
        r == *o,
{
    match o {
        Some(s) => Some(s.clone()),
        None => None,
    }
}

/// Transform the children of an element: walk the flattened child list with
/// a running node index, merge lowered native children, hand components to
/// the child transformer, and anchor dynamic inserts on markers unless the
/// whole child list is a single dynamic expression.
#[verifier::rlimit(100)]
fn transform_children<T: ChildTransformer>(
    element: &JsxElement,
    result: &mut TransformResult,
    info: &TransformInfo,
    context: &mut BlockContext,
    options: &TransformOptions,
    transform_child: &mut T,
    Ghost(root0): Ghost<Option<String>>,
)
    requires
        spec_element_wf(*element),
        info.skip_id ==> spec_skip_ok(*element),
        !info.skip_id && info.root_id is Some ==> names_ok(*old(result), root0) && (
        info.root_id matches Some(m) && name_defined(*old(result), root0, m@)),
    ensures
        final(result).id == old(result).id,
        final(result).tag_name == old(result).tag_name,
        final(result).is_svg == old(result).is_svg,
        old(result).has_custom_element ==> final(result).has_custom_element,
        seq_extends(old(result).template@, final(result).template@),
        seq_extends(
            old(result).template_with_closing_tags@,
            final(result).template_with_closing_tags@,
        ),
        seq_extends(old(result).declarations@, final(result).declarations@),
        seq_extends(old(result).exprs@, final(result).exprs@),
        seq_extends(old(result).dynamics@, final(result).dynamics@),
        !info.skip_id && info.root_id is Some ==> names_ok(*final(result), root0),
        ({
            let safe = (forall|i: int|
                0 <= i < element.children@.len() ==> tpl_safe_child(
                    #[trigger] element.children@[i],
                )) && tail_ok(old(result).template@);
            safe ==> marker_count(final(result).template@) + marker_inserts(old(result).exprs@)
                == marker_count(old(result).template@) + marker_inserts(final(result).exprs@)
                && tail_ok(final(result).template@)
        }),
        ({
            let flat = spec_flatten_list(element.children@);
            let st0 = ChildState {
                template: old(result).template@,
                decls: decls_view(old(result).declarations@),
                exprs: stmts_view(old(result).exprs@),
                node_index: 0,
                last_was_text: false,
                uid: old(context).uid_count,
                helpers: old(context).helpers.deep_view(),
                delegated: old(context).delegated.deep_view(),
            };
            simple_children(flat) ==> ({
                let stf = spec_children_fold(
                    flat,
                    crate::ir::opt_view(old(result).id),
                    spec_single_dynamic(flat),
                    st0,
                );
                &&& final(result).template@ == stf.template
                &&& decls_view(final(result).declarations@) == stf.decls
                &&& stmts_view(final(result).exprs@) == stf.exprs
                &&& final(result).dynamics == old(result).dynamics
                &&& final(context).uid_count == stf.uid
                &&& final(context).helpers.deep_view() == stf.helpers
                &&& final(context).delegated.deep_view() == stf.delegated
                &&& (old(result).template_with_closing_tags@ == old(result).template@
                    ==> final(result).template_with_closing_tags@ == final(result).template@)
            })
        }),
    decreases *element, 0int,
{
    let ghost tcond = (forall|i: int|
        0 <= i < element.children@.len() ==> tpl_safe_child(#[trigger] element.children@[i]))
        && tail_ok(old(result).template@);
    let mut flat: Vec<&JsxChild> = Vec::new();
    proof {
        assert(decreases_to!(*element => element.children));
        assert(decreases_to!(element.children => element.children@));
    }
    flatten_children(&element.children, &mut flat);
    proof {
        assert(derefs(flat@) =~= spec_flatten_list(element.children@));
    }
    let single_dynamic = is_single_dynamic_child(&flat);
    let ghost cond = !info.skip_id && info.root_id is Some;
    let ghost scond = simple_children(derefs(flat@));
    let ghost st0 = ChildState {
        template: old(result).template@,
        decls: decls_view(old(result).declarations@),
        exprs: stmts_view(old(result).exprs@),
        node_index: 0,
        last_was_text: false,
        uid: old(context).uid_count,
        helpers: old(context).helpers.deep_view(),
        delegated: old(context).delegated.deep_view(),
    };
    proof {
        assert(derefs(flat@).subrange(0, 0).len() == 0);
    }

    let mut node_index: usize = 0;
    let mut last_was_text: bool = false;
    let mut i: usize = 0;
    proof {
        crate::ir::lemma_extends_refl(old(result).template@);
        crate::ir::lemma_extends_refl(old(result).template_with_closing_tags@);
        crate::ir::lemma_extends_refl(old(result).declarations@);
        crate::ir::lemma_extends_refl(old(result).exprs@);
        crate::ir::lemma_extends_refl(old(result).dynamics@);
    }
    while i < flat.len()
        invariant
            0 <= i <= flat@.len(),
            node_index <= i,
            derefs(flat@) == spec_flatten_list(element.children@),
            spec_element_wf(*element),
            info.skip_id ==> spec_skip_ok(*element),
            result.id == old(result).id,
            result.tag_name == old(result).tag_name,
            result.is_svg == old(result).is_svg,
            old(result).has_custom_element ==> result.has_custom_element,
            seq_extends(old(result).template@, result.template@),
            seq_extends(
                old(result).template_with_closing_tags@,
                result.template_with_closing_tags@,
            ),
            seq_extends(old(result).declarations@, result.declarations@),
            seq_extends(old(result).exprs@, result.exprs@),
            seq_extends(old(result).dynamics@, result.dynamics@),
            cond == (!info.skip_id && info.root_id is Some),
            cond ==> names_ok(*result, root0),
            cond ==> (info.root_id matches Some(m) && name_defined(*result, root0, m@)),
            tcond == ((forall|k: int|
                0 <= k < element.children@.len() ==> tpl_safe_child(
                    #[trigger] element.children@[k],
                )) && tail_ok(old(result).template@)),
            tcond ==> marker_count(result.template@) + marker_inserts(old(result).exprs@)
                == marker_count(old(result).template@) + marker_inserts(result.exprs@),
            tcond ==> tail_ok(result.template@),
            scond == simple_children(derefs(flat@)),
            single_dynamic == spec_single_dynamic(derefs(flat@)),
            scond ==> (old(result).template_with_closing_tags@ == old(result).template@
                ==> result.template_with_closing_tags@ == result.template@),
            scond ==> result.template@ == spec_children_fold(
                derefs(flat@).subrange(0, i as int),
                crate::ir::opt_view(old(result).id),
                spec_single_dynamic(derefs(flat@)),
                st0,
            ).template,
            scond ==> decls_view(result.declarations@) == spec_children_fold(
                derefs(flat@).subrange(0, i as int),
                crate::ir::opt_view(old(result).id),
                spec_single_dynamic(derefs(flat@)),
                st0,
            ).decls,
            scond ==> stmts_view(result.exprs@) == spec_children_fold(
                derefs(flat@).subrange(0, i as int),
                crate::ir::opt_view(old(result).id),
                spec_single_dynamic(derefs(flat@)),
                st0,
            ).exprs,
            scond ==> result.dynamics == old(result).dynamics,
            scond ==> context.uid_count == spec_children_fold(
                derefs(flat@).subrange(0, i as int),
                crate::ir::opt_view(old(result).id),
                spec_single_dynamic(derefs(flat@)),
                st0,
            ).uid,
            scond ==> context.helpers.deep_view() == spec_children_fold(
                derefs(flat@).subrange(0, i as int),
                crate::ir::opt_view(old(result).id),
                spec_single_dynamic(derefs(flat@)),
                st0,
            ).helpers,
            scond ==> context.delegated.deep_view() == spec_children_fold(
                derefs(flat@).subrange(0, i as int),
                crate::ir::opt_view(old(result).id),
                spec_single_dynamic(derefs(flat@)),
                st0,
            ).delegated,
            scond ==> node_index as nat == spec_children_fold(
                derefs(flat@).subrange(0, i as int),
                crate::ir::opt_view(old(result).id),
                spec_single_dynamic(derefs(flat@)),
                st0,
            ).node_index,
            scond ==> last_was_text == spec_children_fold(
                derefs(flat@).subrange(0, i as int),
                crate::ir::opt_view(old(result).id),
                spec_single_dynamic(derefs(flat@)),
                st0,
            ).last_was_text,

        decreases flat@.len() - i,
    {
        let ghost mid: TransformResult = *result;
        let c: &JsxChild = flat[i];
        let ghost prev = spec_children_fold(
            derefs(flat@).subrange(0, i as int),
            crate::ir::opt_view(old(result).id),
            spec_single_dynamic(derefs(flat@)),
            st0,
        );
        let ghost stnext = spec_child_step(
            derefs(flat@)[i as int],
            crate::ir::opt_view(old(result).id),
            spec_single_dynamic(derefs(flat@)),
            prev,
        );
        proof {
            crate::ir::lemma_extends_refl(mid.template@);
            crate::ir::lemma_extends_refl(mid.template_with_closing_tags@);
            crate::ir::lemma_extends_refl(mid.declarations@);
            crate::ir::lemma_extends_refl(mid.exprs@);
            crate::ir::lemma_extends_refl(mid.dynamics@);
            assert(derefs(flat@)[i as int] == *flat@[i as int]);
            assert(derefs(flat@).subrange(0, i + 1).drop_last() =~= derefs(flat@).subrange(
                0,
                i as int,
            ));
            assert(derefs(flat@).subrange(0, i + 1).last() == derefs(flat@)[i as int]);
            assert(spec_children_fold(
                derefs(flat@).subrange(0, i + 1),
                crate::ir::opt_view(old(result).id),
                spec_single_dynamic(derefs(flat@)),
                st0,
            ) == stnext);
            lemma_flatten_smaller(element.children@, i as int);
            assert(decreases_to!(*element => element.children));
            assert(decreases_to!(element.children => element.children@));
            assert(decreases_to!(element.children@ => derefs(flat@)[i as int]));
            lemma_flatten_wf(element.children@, i as int);
            if tcond {
                lemma_flatten_tpl_safe(element.children@, i as int);
            }
            if info.skip_id {
                assert(forall|k: int|
                    0 <= k < element.children@.len() ==> !child_needs_access(
                        #[trigger] element.children@[k],
                    ));
                lemma_flatten_no_access(element.children@, i as int);
                lemma_flatten_skip(element.children@, i as int);
            }
        }
        match c {
            JsxChild::Text(t) => {
                let content = trim_whitespace(t.as_str());
                if content.as_str().unicode_len() > 0 {
                    let escaped = escape_html(content.as_str(), false);
                    result.template.append(escaped.as_str());
                    result.template_with_closing_tags.append(escaped.as_str());
                    proof {
                        crate::ir::lemma_extends_append(mid.template@, escaped@);
                        crate::ir::lemma_extends_append(
                            mid.template_with_closing_tags@,
                            escaped@,
                        );
                        if tcond {
                            lemma_escape_has_no_open(content@, false);
                            lemma_marker_count_no_open(escaped@);
                            lemma_marker_count_append(mid.template@, escaped@);
                            lemma_tail_after_no_open(mid.template@, escaped@);
                        }
                        if scond {
                            assert(result.template@ == mid.template@ + spec_escape_html(
                                spec_trim_whitespace(t@),
                                false,
                            ));
                            assert(result.template@ == stnext.template);
                            assert(decls_view(result.declarations@) == stnext.decls);
                            assert(stmts_view(result.exprs@) == stnext.exprs);
                            assert(context.uid_count == stnext.uid);
                        }
                    }
                    if !last_was_text {
                        node_index = node_index + 1;
                        last_was_text = true;
                    }
                    proof {
                        if scond {
                            assert(node_index as nat == stnext.node_index);
                            assert(last_was_text == stnext.last_was_text);
                        }
                    }
                } else {
                    proof {
                        if scond {
                            assert(stnext == prev);
                        }
                    }
                }
            },
            JsxChild::Element(child_elem) => {
                proof {
                    if scond {
                        assert(derefs(flat@)[i as int] is Element);
                        assert(!(derefs(flat@)[i as int] is Element));
                        assert(false);
                    }
                }
                let child_tag = get_tag_name(child_elem);
                if is_component(child_tag.as_str()) {
                    last_was_text = false;
                    let parent: Option<String> = clone_opt_name(&result.id);
                    if let Some(parent_id) = parent {
                        if let Some(child_result) = transform_child.transform_child(
                            child_elem,
                            context,
                        ) {
                            if child_result.exprs.len() > 0 {
                                context.register_helper("insert");
                                let value = child_result.exprs[0].code();
                                let ghost pid: Seq<char> = parent_id@;
                                proof {
                                    assert(opt_name_is(result.id, pid));
                                }
                                if single_dynamic {
                                    result.exprs.push(
                                        Stmt::Insert { parent: parent_id, value, marker: None },
                                    );
                                } else {
                                    result.template.append("<!>");
                                    result.template_with_closing_tags.append("<!>");
                                    let marker_id = context.generate_uid("el$");
                                    let base: Vec<Step> = Vec::new();
                                    let steps = child_walk_steps(&base, node_index);
                                    result.declarations.push(
                                        Declaration {
                                            name: marker_id.clone(),
                                            init: WalkInit { root: parent_id.clone(), steps },
                                        },
                                    );
                                    let ghost mk: Seq<char> = marker_id@;
                                    result.exprs.push(
                                        Stmt::Insert {
                                            parent: parent_id,
                                            value,
                                            marker: Some(marker_id),
                                        },
                                    );
                                    proof {
                                        crate::ir::lemma_extends_append(mid.template@, "<!>"@);
                                        crate::ir::lemma_extends_append(
                                            mid.template_with_closing_tags@,
                                            "<!>"@,
                                        );
                                        assert(result.declarations@.subrange(
                                            0,
                                            mid.declarations@.len() as int,
                                        ) =~= mid.declarations@);
                                        assert(result.declarations@[result.declarations@.len()
                                            - 1].name@ == mk);
                                        assert(declares(result.declarations@, mk));
                                        if tcond {
                                            lemma_marker_piece(mid.template@);
                                        }
                                    }
                                    node_index = node_index + 1;
                                }
                                proof {
                                    assert(result.exprs@.subrange(0, mid.exprs@.len() as int)
                                        =~= mid.exprs@);
                                    assert(result.exprs@.drop_last() =~= mid.exprs@);
                                }
                            }
                        }
                    }
                } else {
                    last_was_text = false;
                    let child_steps = child_walk_steps(&info.path, node_index);
                    let child_info = TransformInfo {
                        root_id: clone_opt_name(&info.root_id),
                        path: child_steps,
                        top_level: false,
                        skip_id: info.skip_id,
                    };
                    proof {
                        assert(wf_child(derefs(flat@)[i as int]));
                        assert(spec_element_wf(**child_elem));
                        if info.skip_id {
                            assert(skip_child_ok(derefs(flat@)[i as int]));
                            assert(!child_needs_access(derefs(flat@)[i as int]));
                            assert(spec_skip_ok(**child_elem));
                        }
                        assert(decreases_to!(derefs(flat@)[i as int] => derefs(
                            flat@,
                        )[i as int]->Element_0));
                    }
                    let child_result = transform_element(
                        child_elem,
                        child_tag.as_str(),
                        &child_info,
                        context,
                        options,
                        transform_child,
                    );
                    let ghost child_snap: TransformResult = child_result;
                    let mut child_result = child_result;
                    result.template.append(child_result.template.as_str());
                    if child_result.template_with_closing_tags.as_str().unicode_len() > 0 {
                        result.template_with_closing_tags.append(
                            child_result.template_with_closing_tags.as_str(),
                        );
                    } else {
                        result.template_with_closing_tags.append(child_result.template.as_str());
                    }
                    result.declarations.append(&mut child_result.declarations);
                    result.exprs.append(&mut child_result.exprs);
                    result.dynamics.append(&mut child_result.dynamics);
                    result.has_custom_element = result.has_custom_element
                        || child_result.has_custom_element;
                    proof {
                        crate::ir::lemma_extends_append(mid.template@, child_snap.template@);
                        crate::ir::lemma_extends_append(
                            mid.template_with_closing_tags@,
                            child_snap.template_with_closing_tags@,
                        );
                        crate::ir::lemma_extends_append(
                            mid.template_with_closing_tags@,
                            child_snap.template@,
                        );
                        crate::ir::lemma_extends_append(
                            mid.declarations@,
                            child_snap.declarations@,
                        );
                        crate::ir::lemma_extends_append(mid.exprs@, child_snap.exprs@);
                        crate::ir::lemma_extends_append(mid.dynamics@, child_snap.dynamics@);
                        if cond {
                            lemma_merge_names(
                                mid,
                                child_snap,
                                *result,
                                root0,
                                child_info.root_id,
                            );
                        }
                        if tcond {
                            assert(marker_count(child_snap.template@) == marker_inserts(
                                child_snap.exprs@,
                            ));
                            lemma_marker_count_append(mid.template@, child_snap.template@);
                            lemma_marker_inserts_append(mid.exprs@, child_snap.exprs@);
                            lemma_tail_transfer(mid.template@, child_snap.template@);
                        }
                    }
                    node_index = node_index + 1;
                }
            },
            JsxChild::Container(se) => {
                let parent: Option<String> = clone_opt_name(&result.id);
                if let Some(parent_id) = parent {
                    last_was_text = false;
                    context.register_helper("insert");
                    let value: String = if is_dynamic(&se.shape) {
                        let mut v: String = "() => ".to_owned();
                        v.append(se.code.as_str());
                        v
                    } else {
                        se.code.clone()
                    };
                    let ghost pid: Seq<char> = parent_id@;
                    let ghost vv: Seq<char> = value@;
                    proof {
                        assert(opt_name_is(result.id, pid));
                    }
                    if single_dynamic {
                        result.exprs.push(
                            Stmt::Insert { parent: parent_id, value, marker: None },
                        );
                        proof {
                            if scond {
                                assert(result.exprs@.subrange(0, mid.exprs@.len() as int)
                                    =~= mid.exprs@);
                                lemma_is_push(mid.exprs@, result.exprs@);
                                lemma_stmts_view_push(mid.exprs@, result.exprs@.last());
                                assert(stmts_view(result.exprs@) == stnext.exprs);
                                assert(result.template@ == stnext.template);
                                assert(decls_view(result.declarations@) == stnext.decls);
                                assert(context.uid_count == stnext.uid);
                            }
                        }
                    } else {
                        result.template.append("<!>");
                        result.template_with_closing_tags.append("<!>");
                        let marker_id = context.generate_uid("el$");
                        let base: Vec<Step> = Vec::new();
                        let steps = child_walk_steps(&base, node_index);
                        result.declarations.push(
                            Declaration {
                                name: marker_id.clone(),
                                init: WalkInit { root: parent_id.clone(), steps },
                            },
                        );
                        let ghost mk: Seq<char> = marker_id@;
                        proof {
                            assert(steps@ =~= seq![Step::FirstChild] + sibling_steps(
                                node_index as nat,
                            ));
                        }
                        result.exprs.push(
                            Stmt::Insert { parent: parent_id, value, marker: Some(marker_id) },
                        );
                        proof {
                            crate::ir::lemma_extends_append(mid.template@, "<!>"@);
                            crate::ir::lemma_extends_append(
                                mid.template_with_closing_tags@,
                                "<!>"@,
                            );
                            assert(result.declarations@.subrange(
                                0,
                                mid.declarations@.len() as int,
                            ) =~= mid.declarations@);
                            assert(result.declarations@[result.declarations@.len() - 1].name@
                                == mk);
                            assert(declares(result.declarations@, mk));
                            if tcond {
                                lemma_marker_piece(mid.template@);
                            }
                            if scond {
                                assert(result.template@ == mid.template@ + "<!>"@);
                                lemma_is_push(mid.declarations@, result.declarations@);
                                lemma_decls_view_push(
                                    mid.declarations@,
                                    result.declarations@.last(),
                                );
                                assert(result.exprs@.subrange(0, mid.exprs@.len() as int)
                                    =~= mid.exprs@);
                                lemma_is_push(mid.exprs@, result.exprs@);
                                lemma_stmts_view_push(mid.exprs@, result.exprs@.last());
                                assert(decl_view(result.declarations@.last()) == (DeclView {
                                    name: mk,
                                    root: pid,
                                    steps: seq![Step::FirstChild] + sibling_steps(
                                        node_index as nat,
                                    ),
                                }));
                                assert(result.template@ == stnext.template);
                                assert(decls_view(result.declarations@) == stnext.decls);
                                assert(stmts_view(result.exprs@) == stnext.exprs);
                                assert(context.uid_count == stnext.uid);
                            }
                        }
                        node_index = node_index + 1;
                    }
                    proof {
                        assert(result.exprs@.subrange(0, mid.exprs@.len() as int)
                            =~= mid.exprs@);
                        assert(result.exprs@.drop_last() =~= mid.exprs@);
                    }
                } else {
                    proof {
                        if scond {
                            assert(stnext == prev);
                        }
                    }
                }
            },
            _ => {
                proof {
                    if scond {
                        assert(stnext == prev);
                    }
                }
            },
        }
        proof {
            crate::ir::lemma_extends_trans(old(result).template@, mid.template@, result.template@);
            crate::ir::lemma_extends_trans(
                old(result).template_with_closing_tags@,
                mid.template_with_closing_tags@,
                result.template_with_closing_tags@,
            );
            crate::ir::lemma_extends_trans(
                old(result).declarations@,
                mid.declarations@,
                result.declarations@,
            );
            crate::ir::lemma_extends_trans(old(result).exprs@, mid.exprs@, result.exprs@);
            crate::ir::lemma_extends_trans(old(result).dynamics@, mid.dynamics@, result.dynamics@);
            if scond {
                if result.exprs@.len() == mid.exprs@.len() + 1 {
                    lemma_is_push(mid.exprs@, result.exprs@);
                    lemma_stmts_view_push(mid.exprs@, result.exprs@.last());
                }
                if result.declarations@.len() == mid.declarations@.len() + 1 {
                    lemma_is_push(mid.declarations@, result.declarations@);
                    lemma_decls_view_push(mid.declarations@, result.declarations@.last());
                }
                let prev = spec_children_fold(
                    derefs(flat@).subrange(0, i as int),
                    crate::ir::opt_view(old(result).id),
                    spec_single_dynamic(derefs(flat@)),
                    st0,
                );
                let stp1 = spec_children_fold(
                    derefs(flat@).subrange(0, i + 1),
                    crate::ir::opt_view(old(result).id),
                    spec_single_dynamic(derefs(flat@)),
                    st0,
                );
                assert(derefs(flat@).subrange(0, i + 1).len() > 0);
                assert(stp1 == spec_child_step(
                    derefs(flat@)[i as int],
                    crate::ir::opt_view(old(result).id),
                    spec_single_dynamic(derefs(flat@)),
                    prev,
                ));
                assert(mid.template@ == prev.template);
                assert(mid.declarations@.len() == prev.decls.len());
                assert(decls_view(mid.declarations@) == prev.decls);
                assert(stmts_view(mid.exprs@) == prev.exprs);
            }
            if cond {
                assert(names_ok(*result, root0)) by {
                    assert forall|k: int| 0 <= k < result.exprs@.len() implies stmt_ok(
                        #[trigger] result.exprs@[k],
                        *result,
                        root0,
                    ) by {
                        if k < mid.exprs@.len() {
                            assert(result.exprs@[k] == result.exprs@.subrange(
                                0,
                                mid.exprs@.len() as int,
                            )[k]);
                            assert(result.exprs@[k] == mid.exprs@[k]);
                            assert(stmt_ok(mid.exprs@[k], mid, root0));
                            match stmt_elem(mid.exprs@[k]) {
                                Some(n) => lemma_defined_monotone(mid, *result, root0, n),
                                None => {},
                            }
                            match stmt_marker(mid.exprs@[k]) {
                                Some(m2) => lemma_defined_monotone(mid, *result, root0, m2),
                                None => {},
                            }
                        } else {
                            assert(stmt_ok(result.exprs@[k], *result, root0));
                        }
                    }
                    assert forall|k: int| 0 <= k < result.dynamics@.len() implies name_defined(
                        *result,
                        root0,
                        (#[trigger] result.dynamics@[k]).elem@,
                    ) by {
                        if k < mid.dynamics@.len() {
                            assert(result.dynamics@[k] == result.dynamics@.subrange(
                                0,
                                mid.dynamics@.len() as int,
                            )[k]);
                            assert(result.dynamics@[k] == mid.dynamics@[k]);
                            lemma_defined_monotone(mid, *result, root0, mid.dynamics@[k].elem@);
                        }
                    }
                }
                assert(info.root_id matches Some(m) && name_defined(*result, root0, m@)) by {
                    match info.root_id {
                        Some(m) => lemma_defined_monotone(mid, *result, root0, m@),
                        None => {},
                    }
                }
            }
        }
        i = i + 1;
    }
    proof {
        assert(derefs(flat@).subrange(0, flat@.len() as int) =~= derefs(flat@));
    }
}

/// Transform a native HTML or SVG element into a template piece, walker
/// declarations and runtime statements.
///
/// An id is issued exactly when the caller does not suppress ids and the
/// element is top-level or needs runtime access; when a walk path and an
/// ambient root exist, the id is bound by the first declaration, whose walk
/// is exactly the caller's path from that root. Every element or marker name
/// referenced by the statements or dynamic bindings is bound by a
/// declaration, is the element's own id, or is the ambient root, whenever
/// ids are not suppressed and the element is top-level or below a root.
/// Whenever the element tree cannot smuggle marker text into the template,
/// the count of `<!>` occurrences in the template equals the count of
/// three-argument inserts among the statements.
pub fn transform_element<T: ChildTransformer>(
    element: &JsxElement,
    tag_name: &str,
    info: &TransformInfo,
    context: &mut BlockContext,
    options: &TransformOptions,
    transform_child: &mut T,
) -> (result: TransformResult)
    requires
        spec_element_wf(*element),
        info.skip_id ==> spec_skip_ok(*element),
    ensures
        result.tag_name matches Some(t) && t@ == tag_name@,
        result.is_svg == spec_is_svg_element(tag_name@),
        tag_name@.contains('-') ==> result.has_custom_element,
        result.id is Some <==> !info.skip_id && (info.top_level || spec_needs_runtime_access(
            *element,
        )),
        result.id matches Some(eid) ==> (info.path@.len() > 0 ==> (info.root_id matches Some(rt)
            ==> result.declarations@.len() > 0 && result.declarations@[0].name@ == eid@
            && result.declarations@[0].init.root@ == rt@ && result.declarations@[0].init.steps@
            == info.path@)),
        !info.skip_id && (info.root_id is Some || info.top_level) ==> names_ok(
            result,
            info.root_id,
        ),
        ({
            let tpl = spec_template_safe(*element) && tag_name@ == spec_jsx_name(element.name);
            tpl ==> marker_count(result.template@) == marker_inserts(result.exprs@) && tail_ok(
                result.template@,
            ) && result.template@.len() >= 2 && result.template@[0] == '<'
        }),
        ({
            let flat = spec_flatten_list(element.children@);
            let issued = !info.skip_id && (info.top_level || spec_needs_runtime_access(*element));
            let id_name = crate::ir::spec_uid("el$"@, old(context).uid_count);
            let uid1 = if issued {
                uid_inc(old(context).uid_count)
            } else {
                old(context).uid_count
            };
            let idv: Option<Seq<char>> = if issued {
                Some(id_name)
            } else {
                None
            };
            let a1 = spec_attrs_fold(
                element.attributes@,
                idv,
                spec_is_svg_element(tag_name@),
                tag_name@.contains('-'),
                tag_name@,
                element.children@.len() > 0,
                *options,
                AttrState {
                    template: "<"@ + tag_name@,
                    exprs: Seq::empty(),
                    dynamics: Seq::empty(),
                    inner: Seq::empty(),
                    helpers: old(context).helpers.deep_view(),
                    delegated: old(context).delegated.deep_view(),
                },
            );
            let decl0: Seq<DeclView> = if issued && info.path@.len() > 0 && info.root_id is Some {
                seq![
                    DeclView { name: id_name, root: (info.root_id->Some_0)@, steps: info.path@ },
                ]
            } else {
                Seq::empty()
            };
            if spec_is_void_element(tag_name@) {
                &&& result.template@ == a1.template + ">"@ + a1.inner
                &&& result.template_with_closing_tags@ == result.template@
                &&& stmts_view(result.exprs@) == a1.exprs
                &&& crate::ir::dyns_view(result.dynamics@) == a1.dynamics
                &&& decls_view(result.declarations@) == decl0
                &&& final(context).uid_count == uid1
                &&& final(context).helpers.deep_view() == a1.helpers
                &&& final(context).delegated.deep_view() == a1.delegated
            } else {
                simple_children(flat) ==> ({
                    let c1 = spec_children_fold(
                        flat,
                        idv,
                        spec_single_dynamic(flat),
                        ChildState {
                            template: a1.template + ">"@ + a1.inner,
                            decls: decl0,
                            exprs: a1.exprs,
                            node_index: 0,
                            last_was_text: false,
                            uid: uid1,
                            helpers: a1.helpers,
                            delegated: a1.delegated,
                        },
                    );
                    &&& result.template@ == c1.template + "</"@ + tag_name@ + ">"@
                    &&& result.template_with_closing_tags@ == result.template@
                    &&& stmts_view(result.exprs@) == c1.exprs
                    &&& crate::ir::dyns_view(result.dynamics@) == a1.dynamics
                    &&& decls_view(result.declarations@) == c1.decls
                    &&& final(context).uid_count == c1.uid
                    &&& final(context).helpers.deep_view() == c1.helpers
                    &&& final(context).delegated.deep_view() == c1.delegated
                })
            }
        }),
    decreases *element, 1int,
{
    let ghost tsafe = spec_template_safe(*element) && tag_name@ == spec_jsx_name(element.name);
    let is_svg = is_svg_element(tag_name);
    let is_void = is_void_element(tag_name);
    let is_custom_element = str_contains_char(tag_name, '-');

    let mut result = TransformResult {
        tag_name: Some(tag_name.to_owned()),
        is_svg,
        has_custom_element: is_custom_element,
        id: None,
        template: String::new(),
        template_with_closing_tags: String::new(),
        declarations: Vec::new(),
        exprs: Vec::new(),
        dynamics: Vec::new(),
    };

    let needs_runtime_access = element_needs_runtime_access(element);

    if !info.skip_id && (info.top_level || needs_runtime_access) {
        let elem_id = context.generate_uid("el$");
        result.id = Some(elem_id.clone());
        if info.path.len() > 0 {
            if let Some(root_id) = &info.root_id {
                let steps = copy_steps(&info.path);
                result.declarations.push(
                    Declaration {
                        name: elem_id,
                        init: WalkInit { root: root_id.clone(), steps },
                    },
                );
            }
        }
    }

    result.template.append("<");
    result.template.append(tag_name);
    result.template_with_closing_tags.append("<");
    result.template_with_closing_tags.append(tag_name);

    let ghost issued = !info.skip_id && (info.top_level || spec_needs_runtime_access(*element));
    let ghost id_name = crate::ir::spec_uid("el$"@, old(context).uid_count);
    let ghost idv: Option<Seq<char>> = if issued {
        Some(id_name)
    } else {
        None
    };
    let ghost decl0: Seq<DeclView> = if issued && info.path@.len() > 0 && info.root_id is Some {
        seq![
            DeclView { name: id_name, root: (info.root_id->Some_0)@, steps: info.path@ },
        ]
    } else {
        Seq::empty()
    };
    proof {
        assert(result.template@ =~= "<"@ + tag_name@);
        assert(result.template_with_closing_tags@ =~= "<"@ + tag_name@);
        assert(stmts_view(result.exprs@) =~= Seq::<StmtView>::empty());
        assert(crate::ir::dyns_view(result.dynamics@) =~= Seq::<crate::ir::DynView>::empty());
        assert(crate::ir::opt_view(result.id) == idv);
        if result.declarations@.len() > 0 {
            assert(decls_view(result.declarations@) =~= seq![
                decl_view(result.declarations@[0]),
            ]);
            assert(decls_view(result.declarations@) == decl0);
        } else {
            assert(decls_view(result.declarations@) =~= Seq::<DeclView>::empty());
            assert(decls_view(result.declarations@) == decl0);
        }
    }

    proof {
        if tsafe {
            reveal_strlit("<");
            let open_piece = "<"@ + tag_name@;
            assert(result.template@ =~= open_piece);
            assert(no_bang(open_piece)) by {
                assert forall|j: int| 0 <= j < open_piece.len() implies #[trigger] open_piece[j]
                    != '!' by {
                    if j == 0 {
                        assert(open_piece[j] == '<');
                    } else {
                        assert(open_piece[j] == tag_name@[j - 1]);
                    }
                }
            }
            lemma_marker_count_no_bang(result.template@);
            assert(result.template@[0] == '<');
            assert(result.template@.len() >= 2);
            assert(tail_ok(result.template@)) by {
                assert(result.template@.last() == tag_name@[tag_name@.len() - 1]);
                if tag_name@.len() >= 2 {
                    assert(result.template@[result.template@.len() - 2] == tag_name@[tag_name@.len()
                        - 2]);
                } else {
                    assert(result.template@[result.template@.len() - 2] == '<');
                }
            }
            assert(marker_inserts(result.exprs@) == 0);
        }
    }

    proof {
        assert forall|j: int|
            0 <= j < element.attributes@.len() && item_requires_id(
                #[trigger] element.attributes@[j],
            ) implies result.id is Some by {
            lemma_requires_id_access(element.attributes@, j);
            if info.skip_id {
                assert(!spec_needs_runtime_access(*element));
            }
        }
    }
    let ghost before_attrs: TransformResult = result;
    let ghost ctx_a: BlockContext = *context;
    let ghost a1 = spec_attrs_fold(
        element.attributes@,
        idv,
        spec_is_svg_element(tag_name@),
        tag_name@.contains('-'),
        tag_name@,
        element.children@.len() > 0,
        *options,
        AttrState {
            template: "<"@ + tag_name@,
            exprs: Seq::empty(),
            dynamics: Seq::empty(),
            inner: Seq::empty(),
            helpers: old(context).helpers.deep_view(),
            delegated: old(context).delegated.deep_view(),
        },
    );
    let ghost uid1: u64 = if issued {
        uid_inc(old(context).uid_count)
    } else {
        old(context).uid_count
    };
    let mut inner_text: String = String::new();
    proof {
        assert(result.template_with_closing_tags@ == result.template@);
        assert(ctx_a.uid_count == uid1);
        assert(attr_state_of(before_attrs, ctx_a, Seq::empty()) == (AttrState {
            template: "<"@ + tag_name@,
            exprs: Seq::empty(),
            dynamics: Seq::empty(),
            inner: Seq::empty(),
            helpers: old(context).helpers.deep_view(),
            delegated: old(context).delegated.deep_view(),
        }));
        assert(tag_of(before_attrs) == tag_name@);
    }
    transform_attributes(element, &mut result, context, options, &mut inner_text);
    proof {
        assert(attr_state_of(result, *context, inner_text@) == a1);
        assert(context.uid_count == uid1);
        assert(result.template_with_closing_tags@ == result.template@);
    }

    proof {
        if tsafe {
            assert(marker_keeps(before_attrs, result));
            lemma_marker_inserts_extend(before_attrs.exprs@, result.exprs@);
            assert(result.template@[0] == result.template@.subrange(
                0,
                before_attrs.template@.len() as int,
            )[0]);
            assert(result.template@[0] == '<');
        }
    }
    let ghost before_gt: TransformResult = result;
    result.template.append(">");
    result.template_with_closing_tags.append(">");
    proof {
        assert(before_gt.template_with_closing_tags@ == before_gt.template@ ==> result
            .template_with_closing_tags@ =~= result.template@);
        if tsafe {
            reveal_strlit(">");
            assert(result.template@ =~= before_gt.template@ + ">"@);
            assert(no_bang(">"@)) by {
                assert(">"@.len() == 1);
                assert(">"@[0] == '>');
            }
            lemma_marker_count_no_bang(">"@);
            lemma_marker_count_append(before_gt.template@, ">"@);
            lemma_tail_after_benign(before_gt.template@, ">"@);
            assert(result.template@[0] == '<');
        }
    }
    let ghost before_inner: TransformResult = result;
    result.template.append(inner_text.as_str());
    result.template_with_closing_tags.append(inner_text.as_str());
    proof {
        assert(before_inner.template_with_closing_tags@ == before_inner.template@ ==> result
            .template_with_closing_tags@ =~= result.template@);
        assert(result.template@ =~= a1.template + ">"@ + a1.inner);
        assert(result.template_with_closing_tags@ == result.template@);
        assert(decls_view(result.declarations@) == decl0);
        if tsafe {
            crate::attrs::lemma_inner_texts_no_open(element.attributes@);
            assert(no_open(inner_text@)) by {
                assert(inner_text@ =~= spec_inner_texts(element.attributes@));
            }
            lemma_marker_count_no_open(inner_text@);
            lemma_marker_count_append(before_inner.template@, inner_text@);
            lemma_tail_after_no_open(before_inner.template@, inner_text@);
            assert(result.template@[0] == '<') by {
                assert(result.template@[0] == before_inner.template@[0]);
            }
        }
    }

    let ghost cond = !info.skip_id && (info.root_id is Some || info.top_level);
    proof {
        if cond {
            assert(names_ok(result, info.root_id)) by {
                assert forall|k: int| 0 <= k < result.exprs@.len() implies stmt_ok(
                    #[trigger] result.exprs@[k],
                    result,
                    info.root_id,
                ) by {
                    assert(result.exprs@[k] == before_attrs.exprs@[k] || (stmt_elem(
                        result.exprs@[k],
                    ) matches Some(n) && opt_name_is(result.id, n) && stmt_marker(
                        result.exprs@[k],
                    ) is None));
                    assert(before_attrs.exprs@.len() == 0);
                }
            }
        }
    }

    if !is_void {
        let child_root = if result.id.is_some() {
            clone_opt_name(&result.id)
        } else {
            clone_opt_name(&info.root_id)
        };
        let child_path: Vec<Step> = if result.id.is_some() {
            Vec::new()
        } else {
            copy_steps(&info.path)
        };
        let child_info = TransformInfo {
            root_id: child_root,
            path: child_path,
            top_level: false,
            skip_id: info.skip_id,
        };
        proof {
            if cond {
                assert(child_info.root_id is Some);
                assert(child_info.root_id matches Some(m) && name_defined(
                    result,
                    info.root_id,
                    m@,
                ));
            }
        }
        let ghost before_children: TransformResult = result;
        transform_children(
            element,
            &mut result,
            &child_info,
            context,
            options,
            transform_child,
            Ghost(info.root_id),
        );
        proof {
            if simple_children(spec_flatten_list(element.children@)) {
                let c1 = spec_children_fold(
                    spec_flatten_list(element.children@),
                    idv,
                    spec_single_dynamic(spec_flatten_list(element.children@)),
                    ChildState {
                        template: a1.template + ">"@ + a1.inner,
                        decls: decl0,
                        exprs: a1.exprs,
                        node_index: 0,
                        last_was_text: false,
                        uid: uid1,
                        helpers: a1.helpers,
                        delegated: a1.delegated,
                    },
                );
                assert(result.template@ == c1.template);
                assert(stmts_view(result.exprs@) == c1.exprs);
                assert(decls_view(result.declarations@) == c1.decls);
                assert(context.uid_count == c1.uid);
                assert(context.helpers.deep_view() == c1.helpers);
                assert(context.delegated.deep_view() == c1.delegated);
                assert(crate::ir::dyns_view(result.dynamics@) == a1.dynamics);
                assert(result.template_with_closing_tags@ == result.template@);
            }
            if before_children.declarations@.len() > 0 {
                assert(result.declarations@[0] == result.declarations@.subrange(
                    0,
                    before_children.declarations@.len() as int,
                )[0]);
                assert(result.declarations@[0] == before_children.declarations@[0]);
            }
            if tsafe {
                assert(marker_count(result.template@) + marker_inserts(before_children.exprs@)
                    == marker_count(before_children.template@) + marker_inserts(result.exprs@));
                assert(result.template@[0] == result.template@.subrange(
                    0,
                    before_children.template@.len() as int,
                )[0]);
                assert(result.template@[0] == '<');
            }
        }
        let ghost before_close: TransformResult = result;
        result.template.append("</");
        result.template.append(tag_name);
        result.template.append(">");
        result.template_with_closing_tags.append("</");
        result.template_with_closing_tags.append(tag_name);
        result.template_with_closing_tags.append(">");
        proof {
            assert(result.template@ =~= before_close.template@ + ("</"@ + tag_name@ + ">"@));
            assert(result.template_with_closing_tags@ =~= before_close.template_with_closing_tags@
                + ("</"@ + tag_name@ + ">"@));
            assert(before_close.template_with_closing_tags@ == before_close.template@ ==> result
                .template_with_closing_tags@ =~= result.template@);
            assert(before_close.template_with_closing_tags@ == before_close.template@ ==> result
                .template_with_closing_tags@ =~= result.template@);
            if tsafe {
                reveal_strlit("</");
                reveal_strlit(">");
                let close_piece = "</"@ + tag_name@ + ">"@;
                assert(result.template@ =~= before_close.template@ + close_piece);
                assert(no_bang(close_piece)) by {
                    assert forall|j: int| 0 <= j < close_piece.len() implies #[trigger] close_piece[j]
                        != '!' by {
                        if j < 2 {
                            assert(close_piece[j] == "</"@[j]);
                        } else if j < 2 + tag_name@.len() {
                            assert(close_piece[j] == tag_name@[j - 2]);
                        } else {
                            assert(close_piece[j] == '>');
                        }
                    }
                }
                lemma_marker_count_no_bang(close_piece);
                lemma_marker_count_append(before_close.template@, close_piece);
                assert(close_piece.last() == '>');
                lemma_tail_after_benign(before_close.template@, close_piece);
                assert(result.template@[0] == '<') by {
                    assert(result.template@[0] == before_close.template@[0]);
                }
            }
        }
    }

    result
}

} // verus!
