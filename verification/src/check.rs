//! Syntactic classifiers: component and tag-name resolution, the
//! static/dynamic expression classifier, and attribute lookup.

use vstd::prelude::*;

use crate::ast::{
    ArrayElem, Attr, AttrItem, AttrName, AttrValue, Expr, JsxElement, JsxName, MemberName,
    MemberObject, ObjectProp,
};
use crate::text::{is_uppercase_char, str_contains_char, str_eq, uppercase_char};

verus! {

/// What `is_component` decides: a non-empty tag whose first character is
/// uppercase, or which contains a dot, names a component.
pub open spec fn spec_is_component(t: Seq<char>) -> bool {
    t.len() > 0 && (uppercase_char(t[0]) || t.contains('.'))
}

/// Check if a tag name represents a component.
pub fn is_component(tag: &str) -> (r: bool)
    ensures
        r == spec_is_component(tag@),
{
    let n = tag.unicode_len();
    if n == 0 {
        return false;
    }
    let first = tag.get_char(0);
    is_uppercase_char(first) || str_contains_char(tag, '.')
}

/// The string a JSX element name resolves to: the identifier itself, the
/// `ns:name` form, the left-recursive dotted member form, or `this`.
pub open spec fn spec_jsx_name(n: JsxName) -> Seq<char>
    decreases n,
{
    match n {
        JsxName::Ident(s) => s@,
        JsxName::Namespaced(ns, name) => ns@ + seq![':'] + name@,
        JsxName::Member(m) => spec_member_name(*m),
        JsxName::This => "this"@,
    }
}

/// The dotted rendering of a member tag.
pub open spec fn spec_member_name(m: MemberName) -> Seq<char>
    decreases m,
{
    spec_member_object(m.object) + seq!['.'] + m.property@
}

/// The rendering of the object part of a member tag.
pub open spec fn spec_member_object(o: MemberObject) -> Seq<char>
    decreases o,
{
    match o {
        MemberObject::Ident(s) => s@,
        MemberObject::Member(m) => spec_member_name(*m),
        MemberObject::This => "this"@,
    }
}

/// Get the tag name from a JSX element.
pub fn get_tag_name(element: &JsxElement) -> (r: String)
    ensures
        r@ == spec_jsx_name(element.name),
{
    get_jsx_element_name(&element.name)
}

/// Resolve a JSX element name to a single string.
pub fn get_jsx_element_name(name: &JsxName) -> (r: String)
    ensures
        r@ == spec_jsx_name(*name),
{
    match name {
        JsxName::Ident(s) => s.clone(),
        JsxName::Namespaced(ns, n) => {
            let mut out = ns.clone();
            out.append(":");
            out.append(n.as_str());
            proof {
                reveal_strlit(":");
                assert(":"@ =~= seq![':']);
            }
            out
        },
        JsxName::Member(m) => get_member_expression_name(m),
        JsxName::This => {
            let out: String = "this".to_owned();
            out
        },
    }
}

/// Resolve a dotted member tag (`Foo.Bar.Baz`) to a single string.
pub fn get_member_expression_name(member: &MemberName) -> (r: String)
    ensures
        r@ == spec_member_name(*member),
    decreases *member,
{
    let mut out: String = match &member.object {
        MemberObject::Ident(s) => s.clone(),
        MemberObject::Member(m) => get_member_expression_name(m),
        MemberObject::This => "this".to_owned(),
    };
    out.append(".");
    out.append(member.property.as_str());
    proof {
        reveal_strlit(".");
        assert("."@ =~= seq!['.']);
    }
    out
}

/// The full key of an attribute: `name`, or `ns:name` when namespaced.
pub open spec fn spec_attr_name(n: AttrName) -> Seq<char> {
    match n {
        AttrName::Ident(s) => s@,
        AttrName::Namespaced(ns, name) => ns@ + seq![':'] + name@,
    }
}

/// Get the full name of a JSX attribute, including its namespace if present.
pub fn get_attr_name(name: &AttrName) -> (r: String)
    ensures
        r@ == spec_attr_name(*name),
{
    match name {
        AttrName::Ident(s) => s.clone(),
        AttrName::Namespaced(ns, n) => {
            let mut out = ns.clone();
            out.append(":");
            out.append(n.as_str());
            proof {
                reveal_strlit(":");
                assert(":"@ =~= seq![':']);
            }
            out
        },
    }
}

/// Check if a JSX attribute name is namespaced (`on:click`, `use:directive`).
pub fn is_namespaced_attr(name: &AttrName) -> (r: bool)
    ensures
        r == (*name is Namespaced),
{
    match name {
        AttrName::Ident(_) => false,
        AttrName::Namespaced(_, _) => true,
    }
}

/// Whether one attribute item is a plain attribute with the given
/// un-namespaced name.
pub open spec fn attr_item_named(item: AttrItem, name: Seq<char>) -> bool {
    match item {
        AttrItem::Attribute(a) => match a.name {
            AttrName::Ident(s) => s@ == name,
            AttrName::Namespaced(_, _) => false,
        },
        AttrItem::Spread(_) => false,
    }
}

/// The first plain attribute with the given name, searched front to back.
pub open spec fn spec_find_prop(attrs: Seq<AttrItem>, name: Seq<char>) -> Option<Attr>
    decreases attrs.len(),
{
    if attrs.len() == 0 {
        None
    } else if attr_item_named(attrs[0], name) {
        match attrs[0] {
            AttrItem::Attribute(a) => Some(a),
            AttrItem::Spread(_) => None,
        }
    } else {
        spec_find_prop(attrs.drop_first(), name)
    }
}

/// Find a JSX attribute by name on an element.
///
/// Returns the attribute if found, allowing access to both name and value.
pub fn find_prop<'a>(element: &'a JsxElement, name: &str) -> (r: Option<&'a Attr>)
    ensures
        match r {
            Some(a) => spec_find_prop(element.attributes@, name@) == Some(*a),
            None => spec_find_prop(element.attributes@, name@) is None,
        },
{
    let ghost all: Seq<AttrItem> = element.attributes@;
    proof {
        assert(all.skip(0) =~= all);
    }
    let mut i: usize = 0;
    while i < element.attributes.len()
        invariant
            0 <= i <= all.len(),
            all == element.attributes@,
            spec_find_prop(all, name@) == spec_find_prop(all.skip(i as int), name@),
        decreases all.len() - i,
    {
        proof {
            assert(all.skip(i as int).len() > 0);
            assert(all.skip(i as int)[0] == all[i as int]);
            assert(all.skip(i as int).drop_first() =~= all.skip(i + 1));
        }
        if let AttrItem::Attribute(a) = &element.attributes[i] {
            if let AttrName::Ident(s) = &a.name {
                if str_eq(s.as_str(), name) {
                    proof {
                        assert(attr_item_named(all.skip(i as int)[0], name@));
                        assert(spec_find_prop(all.skip(i as int), name@) == Some(*a));
                    }
                    return Some(a);
                }
            }
        }
        i = i + 1;
    }
    proof {
        assert(all.skip(i as int) =~= Seq::<AttrItem>::empty());
    }
    None
}

/// The string value of an attribute: the expression source for a container,
/// the quoted text for a string literal, `true` for a bare boolean attribute,
/// and nothing for the shapes the engine skips.
pub open spec fn spec_attr_value_text(v: AttrValue) -> Option<Seq<char>> {
    match v {
        AttrValue::Container(se) => Some(se.code@),
        AttrValue::StringLit(s) => Some(seq!['"'] + s@ + seq!['"']),
        AttrValue::Absent => Some("true"@),
        AttrValue::EmptyContainer => None,
        AttrValue::Unsupported => None,
    }
}

/// Get the value of a JSX attribute as a string.
///
/// Expression containers yield the expression source; string literals the
/// quoted string; a missing value (boolean attribute) yields `true`.
pub fn get_attr_value(attr: &Attr) -> (r: Option<String>)
    ensures
        match r {
            Some(s) => spec_attr_value_text(attr.value) == Some(s@),
            None => spec_attr_value_text(attr.value) is None,
        },
{
    match &attr.value {
        AttrValue::Container(se) => Some(se.code.clone()),
        AttrValue::StringLit(s) => {
            let mut out: String = "\"".to_owned();
            out.append(s.as_str());
            out.append("\"");
            proof {
                reveal_strlit("\"");
                assert("\""@ =~= seq!['"']);
            }
            Some(out)
        },
        AttrValue::Absent => Some("true".to_owned()),
        AttrValue::EmptyContainer => None,
        AttrValue::Unsupported => None,
    }
}

/// Find a JSX attribute by name and return its value as a string.
pub fn find_prop_value(element: &JsxElement, name: &str) -> (r: Option<String>)
    ensures
        match spec_find_prop(element.attributes@, name@) {
            Some(a) => match spec_attr_value_text(a.value) {
                Some(t) => r is Some && r->Some_0@ == t,
                None => r is None,
            },
            None => r is None,
        },
{
    match find_prop(element, name) {
        Some(attr) => get_attr_value(attr),
        None => None,
    }
}

/// What `is_dynamic` decides: whether an expression may read a reactive
/// value and must therefore run inside an effect. Literals, uninterpolated
/// template literals and function literals are static; calls, identifiers,
/// member accesses, conditionals and logicals are dynamic; object and array
/// literals are dynamic iff some entry is; anything else is conservatively
/// dynamic.
pub open spec fn spec_is_dynamic(e: Expr) -> bool
    decreases e,
{
    match e {
        Expr::StrLit(_) => false,
        Expr::NumLit { .. } => false,
        Expr::BoolLit(_) => false,
        Expr::NullLit => false,
        Expr::TemplateLit { has_exprs } => has_exprs,
        Expr::Call => true,
        Expr::StaticMember => true,
        Expr::ComputedMember => true,
        Expr::Ident => true,
        Expr::Conditional => true,
        Expr::Logical => true,
        Expr::Binary(l, r) => spec_is_dynamic(*l) || spec_is_dynamic(*r),
        Expr::Unary(a) => spec_is_dynamic(*a),
        Expr::Arrow => false,
        Expr::Function => false,
        Expr::Object(props) => exists|i: int|
            0 <= i < props@.len() && spec_prop_is_dynamic(#[trigger] props@[i]),
        Expr::Array(els) => exists|i: int|
            0 <= i < els@.len() && spec_elem_is_dynamic(#[trigger] els@[i]),
        Expr::Other => true,
    }
}

/// Whether one object-literal entry is dynamic.
pub open spec fn spec_prop_is_dynamic(p: ObjectProp) -> bool
    decreases p,
{
    match p {
        ObjectProp::Property { key: _, value } => spec_is_dynamic(value),
        ObjectProp::Spread(e) => spec_is_dynamic(e),
    }
}

/// Whether one array-literal element is dynamic. Elisions are static.
pub open spec fn spec_elem_is_dynamic(el: ArrayElem) -> bool
    decreases el,
{
    match el {
        ArrayElem::Elision => false,
        ArrayElem::Spread(e) => spec_is_dynamic(e),
        ArrayElem::Item(e) => spec_is_dynamic(e),
    }
}

/// Decide whether an expression is dynamic: whether it must be re-run inside
/// a reactive effect rather than inlined once.
pub fn is_dynamic(e: &Expr) -> (r: bool)
    ensures
        r == spec_is_dynamic(*e),
    decreases *e,
{
    match e {
        Expr::StrLit(_) => false,
        Expr::NumLit { .. } => false,
        Expr::BoolLit(_) => false,
        Expr::NullLit => false,
        Expr::TemplateLit { has_exprs } => *has_exprs,
        Expr::Call => true,
        Expr::StaticMember => true,
        Expr::ComputedMember => true,
        Expr::Ident => true,
        Expr::Conditional => true,
        Expr::Logical => true,
        Expr::Binary(l, r) => is_dynamic(l) || is_dynamic(r),
        Expr::Unary(a) => is_dynamic(a),
        Expr::Arrow => false,
        Expr::Function => false,
        Expr::Object(props) => {
            let mut i: usize = 0;
            while i < props.len()
                invariant
                    0 <= i <= props@.len(),
                    forall|j: int| 0 <= j < i ==> !spec_prop_is_dynamic(#[trigger] props@[j]),
                    *e == Expr::Object(*props),
                decreases props@.len() - i,
            {
                proof {
                    assert(decreases_to!(*e => (*e)->Object_0));
                    assert(decreases_to!(*props => props@[i as int]));
                    assert(decreases_to!(*e => props@[i as int]));
                }
                if prop_is_dynamic(&props[i]) {
                    proof {
                        assert(spec_prop_is_dynamic(props@[i as int]));
                    }
                    return true;
                }
                i = i + 1;
            }
            false
        },
        Expr::Array(els) => {
            let mut i: usize = 0;
            while i < els.len()
                invariant
                    0 <= i <= els@.len(),
                    forall|j: int| 0 <= j < i ==> !spec_elem_is_dynamic(#[trigger] els@[j]),
                    *e == Expr::Array(*els),
                decreases els@.len() - i,
            {
                proof {
                    assert(decreases_to!(*e => (*e)->Array_0));
                    assert(decreases_to!(*els => els@[i as int]));
                    assert(decreases_to!(*e => els@[i as int]));
                }
                if elem_is_dynamic(&els[i]) {
                    proof {
                        assert(spec_elem_is_dynamic(els@[i as int]));
                    }
                    return true;
                }
                i = i + 1;
            }
            false
        },
        Expr::Other => true,
    }
}

fn prop_is_dynamic(p: &ObjectProp) -> (r: bool)
    ensures
        r == spec_prop_is_dynamic(*p),
    decreases *p,
{
    match p {
        ObjectProp::Property { key: _, value } => is_dynamic(value),
        ObjectProp::Spread(e) => is_dynamic(e),
    }
}

fn elem_is_dynamic(el: &ArrayElem) -> (r: bool)
    ensures
        r == spec_elem_is_dynamic(*el),
    decreases *el,
{
    match el {
        ArrayElem::Elision => false,
        ArrayElem::Spread(e) => is_dynamic(e),
        ArrayElem::Item(e) => is_dynamic(e),
    }
}

} // verus!
