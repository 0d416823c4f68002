//! Attribute lowering: one handler per attribute class, and the router that
//! picks the handler from the key.

use vstd::prelude::*;

use crate::ast::{Attr, AttrValue, Expr, JsxElement, AttrItem};
use crate::check::{is_dynamic, spec_attr_name, spec_is_dynamic, get_attr_name};
use crate::constants::{alias_attr, spec_alias_attr, is_delegated_event, spec_is_delegated_event};
use crate::ir::{
    contains_name, dyn_view, dyns_view, lemma_dyns_view_push, lemma_is_push,
    lemma_stmts_view_push, names_with, stmt_view, stmts_view, BlockContext, DynView, Stmt,
    StmtView, TransformOptions, TransformResult,
};
use crate::style::{object_to_style_string, spec_fold_style};
use crate::text::{
    escape_html, is_prefix_of, is_suffix_of, lemma_escape_has_no_open,
    lemma_marker_count_append, lemma_marker_count_no_bang, lemma_marker_count_no_open,
    marker_count, no_bang, no_open, safe_name, spec_escape_html, spec_to_event_name,
    str_ends_with, str_starts_with, tail_ok, to_event_name,
};

verus! {

/// The fields of a result an attribute handler never touches.
pub open spec fn keeps_shell(old_r: TransformResult, new_r: TransformResult) -> bool {
    &&& new_r.tag_name == old_r.tag_name
    &&& new_r.is_svg == old_r.is_svg
    &&& new_r.has_custom_element == old_r.has_custom_element
    &&& new_r.id == old_r.id
    &&& new_r.declarations == old_r.declarations
}

/// Both template fields extended by the same piece.
pub open spec fn template_plus(
    old_r: TransformResult,
    new_r: TransformResult,
    piece: Seq<char>,
) -> bool {
    &&& new_r.template@ == old_r.template@ + piece
    &&& new_r.template_with_closing_tags@ == old_r.template_with_closing_tags@ + piece
    &&& crate::ir::seq_extends(old_r.template@, new_r.template@)
    &&& crate::ir::seq_extends(
        old_r.template_with_closing_tags@,
        new_r.template_with_closing_tags@,
    )
}

/// Both template fields unchanged.
pub open spec fn template_same(old_r: TransformResult, new_r: TransformResult) -> bool {
    &&& new_r.template == old_r.template
    &&& new_r.template_with_closing_tags == old_r.template_with_closing_tags
}

/// The template piece a static attribute contributes: ` key="escaped"`.
pub open spec fn attr_piece(key: Seq<char>, escaped: Seq<char>) -> Seq<char> {
    seq![' '] + key + seq!['=', '"'] + escaped + seq!['"']
}

/// An attribute piece made of marker-free parts holds no marker, opens with
/// a space and closes with a quote.
proof fn lemma_attr_piece_facts(k: Seq<char>, v: Seq<char>)
    requires
        no_open(k),
        no_open(v),
    ensures
        marker_count(attr_piece(k, v)) == 0,
        attr_piece(k, v).len() >= 4,
        attr_piece(k, v)[0] == ' ',
        attr_piece(k, v).last() == '"',
        no_open(attr_piece(k, v)),
{
    let p = attr_piece(k, v);
    assert forall|i: int| 0 <= i < p.len() implies #[trigger] p[i] != '<' by {
        if i == 0 {
            assert(p[i] == ' ');
        } else if i < 1 + k.len() {
            assert(p[i] == k[i - 1]);
        } else if i < 3 + k.len() {
            assert(p[i] == seq!['=', '"'][i - 1 - k.len()]);
        } else if i < 3 + k.len() + v.len() {
            assert(p[i] == v[i - 3 - k.len()]);
        } else {
            assert(p[i] == '"');
        }
    }
    lemma_marker_count_no_open(p);
    assert(p.last() == '"');
}

/// Whether an attribute cannot smuggle marker text into the template: its
/// key is free of the marker's characters, and a foldable style object folds
/// to text without the marker's opening character. Escaped values are always
/// safe.
pub open spec fn attr_safe(a: Attr) -> bool {
    &&& safe_name(spec_attr_name(a.name))
    &&& match a.value {
        AttrValue::Container(se) => match se.shape {
            Expr::Object(props) => match spec_fold_style(props@) {
                Some(f) => no_open(f),
                None => true,
            },
            _ => true,
        },
        _ => true,
    }
}

/// The marker bookkeeping an attribute keeps: the count of `<!>` occurrences
/// in both template forms is unchanged, and a marker-straddle-free tail
/// stays marker-straddle-free.
pub open spec fn marker_keeps(old_r: TransformResult, new_r: TransformResult) -> bool {
    &&& marker_count(new_r.template@) == marker_count(old_r.template@)
    &&& marker_count(new_r.template_with_closing_tags@) == marker_count(
        old_r.template_with_closing_tags@,
    )
    &&& (tail_ok(old_r.template@) ==> tail_ok(new_r.template@))
    &&& (tail_ok(old_r.template_with_closing_tags@) ==> tail_ok(
        new_r.template_with_closing_tags@,
    ))
}

/// Whether a ref value is a function literal: its own value is the function
/// object, so it can be applied to the element directly.
pub open spec fn is_function_literal(e: Expr) -> bool {
    e is Arrow || e is Function
}

/// What a `ref` attribute emits: a function literal is applied to the
/// element; anything else goes through a runtime `typeof` dispatch.
pub open spec fn ref_effect(old_r: TransformResult, new_r: TransformResult, v: AttrValue, elem: Seq<char>) -> bool {
    &&& keeps_shell(old_r, new_r)
    &&& template_same(old_r, new_r)
    &&& new_r.dynamics == old_r.dynamics
    &&& match v {
        AttrValue::Container(se) => {
            if is_function_literal(se.shape) {
                new_r.exprs@.len() == old_r.exprs@.len() + 1
                    && new_r.exprs@.subrange(0, old_r.exprs@.len() as int) == old_r.exprs@
                    && (new_r.exprs@.last() matches Stmt::RefInvoke { func, elem: e }
                        && func@ == se.code@ && e@ == elem)
            } else {
                new_r.exprs@.len() == old_r.exprs@.len() + 1
                    && new_r.exprs@.subrange(0, old_r.exprs@.len() as int) == old_r.exprs@
                    && (new_r.exprs@.last() matches Stmt::RefDispatch { target, elem: e }
                        && target@ == se.code@ && e@ == elem)
            }
        },
        _ => new_r.exprs == old_r.exprs,
    }
}

/// Transform a `ref` attribute.
pub fn transform_ref(attr: &Attr, elem_id: &str, result: &mut TransformResult)
    ensures
        ref_effect(*old(result), *final(result), attr.value, elem_id@),
{
    if let AttrValue::Container(se) = &attr.value {
        let is_fn = match &se.shape {
            Expr::Arrow => true,
            Expr::Function => true,
            _ => false,
        };
        if is_fn {
            result.exprs.push(
                Stmt::RefInvoke { func: se.code.clone(), elem: elem_id.to_owned() },
            );
        } else {
            result.exprs.push(
                Stmt::RefDispatch { target: se.code.clone(), elem: elem_id.to_owned() },
            );
        }
        proof {
            assert(final(result).exprs@.subrange(0, old(result).exprs@.len() as int)
                =~= old(result).exprs@);
        }
    }
}

/// The handler source an event or directive attribute carries: the contained
/// expression's source, or `undefined`.
pub open spec fn spec_handler_code(v: AttrValue) -> Seq<char> {
    match v {
        AttrValue::Container(se) => se.code@,
        _ => "undefined"@,
    }
}

/// The base key of an event attribute: the key with a trailing `Capture`
/// stripped.
pub open spec fn spec_event_base(key: Seq<char>) -> Seq<char> {
    if is_suffix_of("Capture"@, key) {
        key.subrange(0, key.len() - 7)
    } else {
        key
    }
}

/// Whether an event attribute takes the delegation fast path: not forced
/// direct by `on:`, not a capture listener, delegation enabled, and the event
/// in the default or user-supplied delegable set.
pub open spec fn spec_should_delegate(
    key: Seq<char>,
    event: Seq<char>,
    options: TransformOptions,
) -> bool {
    &&& !is_prefix_of("on:"@, key)
    &&& !is_suffix_of("Capture"@, key)
    &&& options.delegate_events
    &&& (spec_is_delegated_event(event) || options.delegated_events.deep_view().contains(event))
}

/// What an `on…` attribute emits: `elem.$$event = handler` plus a delegation
/// registration on the fast path, `addEventListener(elem, "event", handler,
/// capture)` otherwise.
pub open spec fn event_effect(
    old_r: TransformResult,
    new_r: TransformResult,
    old_c: BlockContext,
    new_c: BlockContext,
    v: AttrValue,
    key: Seq<char>,
    elem: Seq<char>,
    options: TransformOptions,
) -> bool {
    let capture = is_suffix_of("Capture"@, key);
    let event = spec_to_event_name(spec_event_base(key));
    let handler = spec_handler_code(v);
    &&& keeps_shell(old_r, new_r)
    &&& template_same(old_r, new_r)
    &&& new_r.dynamics == old_r.dynamics
    &&& new_r.exprs@.len() == old_r.exprs@.len() + 1
    &&& new_r.exprs@.subrange(0, old_r.exprs@.len() as int) == old_r.exprs@
    &&& new_c.uid_count == old_c.uid_count
    &&& if spec_should_delegate(key, event, options) {
        &&& (new_r.exprs@.last() matches Stmt::DelegatedEvent { elem: e, event: ev, handler: h }
            && e@ == elem && ev@ == event && h@ == handler)
        &&& new_c.delegated.deep_view() == names_with(old_c.delegated.deep_view(), event)
        &&& new_c.helpers == old_c.helpers
    } else {
        &&& (new_r.exprs@.last() matches Stmt::Listen { elem: e, event: ev, handler: h, capture: cap }
            && e@ == elem && ev@ == event && h@ == handler && cap == capture)
        &&& new_c.helpers.deep_view() == names_with(old_c.helpers.deep_view(), "addEventListener"@)
        &&& new_c.delegated == old_c.delegated
    }
}

/// Transform an event handler attribute.
pub fn transform_event(
    attr: &Attr,
    key: &str,
    elem_id: &str,
    result: &mut TransformResult,
    context: &mut BlockContext,
    options: &TransformOptions,
)
    ensures
        event_effect(
            *old(result),
            *final(result),
            *old(context),
            *final(context),
            attr.value,
            key@,
            elem_id@,
            *options,
        ),
{
    let n = key.unicode_len();
    let is_capture = str_ends_with(key, "Capture");
    proof {
        reveal_strlit("Capture");
    }
    let base_key: &str = if is_capture {
        key.substring_char(0, n - 7)
    } else {
        key
    };
    let event_name = to_event_name(base_key);

    let handler: String = if let AttrValue::Container(se) = &attr.value {
        se.code.clone()
    } else {
        "undefined".to_owned()
    };

    let force_no_delegate = str_starts_with(key, "on:");
    let in_user_set = contains_name(&options.delegated_events, event_name.as_str());
    let should_delegate = !force_no_delegate && !is_capture && options.delegate_events && (
    is_delegated_event(event_name.as_str()) || in_user_set);

    if should_delegate {
        context.register_delegate(event_name.as_str());
        result.exprs.push(
            Stmt::DelegatedEvent {
                elem: elem_id.to_owned(),
                event: event_name,
                handler,
            },
        );
    } else {
        context.register_helper("addEventListener");
        result.exprs.push(
            Stmt::Listen {
                elem: elem_id.to_owned(),
                event: event_name,
                handler,
                capture: is_capture,
            },
        );
    }
    proof {
        assert(final(result).exprs@.subrange(0, old(result).exprs@.len() as int)
            =~= old(result).exprs@);
    }
}

/// What a `use:name` directive emits: `use(name, elem, () => value)`, with
/// `undefined` when no expression is given.
pub open spec fn directive_effect(
    old_r: TransformResult,
    new_r: TransformResult,
    old_c: BlockContext,
    new_c: BlockContext,
    v: AttrValue,
    key: Seq<char>,
    elem: Seq<char>,
) -> bool {
    let dir_name = key.subrange(4, key.len() as int);
    let value = match v {
        AttrValue::Container(se) => "() => "@ + se.code@,
        _ => "undefined"@,
    };
    &&& keeps_shell(old_r, new_r)
    &&& template_same(old_r, new_r)
    &&& new_r.dynamics == old_r.dynamics
    &&& new_r.exprs@.len() == old_r.exprs@.len() + 1
    &&& new_r.exprs@.subrange(0, old_r.exprs@.len() as int) == old_r.exprs@
    &&& (new_r.exprs@.last() matches Stmt::Directive { name, elem: e, value: val }
        && name@ == dir_name && e@ == elem && val@ == value)
    &&& new_c.helpers.deep_view() == names_with(old_c.helpers.deep_view(), "use"@)
    &&& new_c.delegated == old_c.delegated
    &&& new_c.uid_count == old_c.uid_count
}

/// Transform a `use:` directive attribute.
pub fn transform_directive(
    attr: &Attr,
    key: &str,
    elem_id: &str,
    result: &mut TransformResult,
    context: &mut BlockContext,
)
    requires
        key@.len() >= 4,
    ensures
        directive_effect(
            *old(result),
            *final(result),
            *old(context),
            *final(context),
            attr.value,
            key@,
            elem_id@,
        ),
{
    context.register_helper("use");
    let n = key.unicode_len();
    let directive_name = key.substring_char(4, n);

    let value: String = if let AttrValue::Container(se) = &attr.value {
        let mut v: String = "() => ".to_owned();
        v.append(se.code.as_str());
        v
    } else {
        "undefined".to_owned()
    };

    result.exprs.push(
        Stmt::Directive {
            name: directive_name.to_owned(),
            elem: elem_id.to_owned(),
            value,
        },
    );
    proof {
        assert(final(result).exprs@.subrange(0, old(result).exprs@.len() as int)
            =~= old(result).exprs@);
    }
}

/// What a property assignment emits: `elem.prop = value`, wrapped in
/// `effect(() => …)` exactly when the value is dynamic. Used by `prop:`
/// attributes and by expression-valued inner content, whose property is the
/// key itself.
pub open spec fn prop_assign_effect(
    old_r: TransformResult,
    new_r: TransformResult,
    old_c: BlockContext,
    new_c: BlockContext,
    v: AttrValue,
    prop: Seq<char>,
) -> bool {
    &&& keeps_shell(old_r, new_r)
    &&& template_same(old_r, new_r)
    &&& new_r.dynamics == old_r.dynamics
    &&& new_c.delegated == old_c.delegated
    &&& new_c.uid_count == old_c.uid_count
    &&& match v {
        AttrValue::Container(se) => {
            &&& new_r.exprs@.len() == old_r.exprs@.len() + 1
            &&& new_r.exprs@.subrange(0, old_r.exprs@.len() as int) == old_r.exprs@
            &&& (new_r.exprs@.last() matches Stmt::PropAssign { elem: _, prop: p, value: val, effect }
                && p@ == prop && val@ == se.code@ && effect == spec_is_dynamic(se.shape))
            &&& if spec_is_dynamic(se.shape) {
                new_c.helpers.deep_view() == names_with(old_c.helpers.deep_view(), "effect"@)
            } else {
                new_c.helpers == old_c.helpers
            }
        },
        _ => new_r.exprs == old_r.exprs && new_c.helpers == old_c.helpers,
    }
}

/// The element name carried by the statement a property assignment pushes.
pub open spec fn prop_assign_elem_ok(
    old_r: TransformResult,
    new_r: TransformResult,
    v: AttrValue,
    elem: Seq<char>,
) -> bool {
    new_r.exprs@.len() > old_r.exprs@.len() ==> (new_r.exprs@.last() matches Stmt::PropAssign {
        elem: e,
        ..
    } && e@ == elem)
}

/// Transform a `prop:` attribute: a direct DOM property assignment.
pub fn transform_prop(
    attr: &Attr,
    key: &str,
    elem_id: &str,
    result: &mut TransformResult,
    context: &mut BlockContext,
)
    requires
        key@.len() >= 5,
    ensures
        prop_assign_effect(
            *old(result),
            *final(result),
            *old(context),
            *final(context),
            attr.value,
            key@.subrange(5, key@.len() as int),
        ),
        prop_assign_elem_ok(*old(result), *final(result), attr.value, elem_id@),
{
    let n = key.unicode_len();
    let prop_name = key.substring_char(5, n);
    if let AttrValue::Container(se) = &attr.value {
        let dynamic = is_dynamic(&se.shape);
        if dynamic {
            context.register_helper("effect");
        }
        result.exprs.push(
            Stmt::PropAssign {
                elem: elem_id.to_owned(),
                prop: prop_name.to_owned(),
                value: se.code.clone(),
                effect: dynamic,
            },
        );
        proof {
            assert(final(result).exprs@.subrange(0, old(result).exprs@.len() as int)
                =~= old(result).exprs@);
        }
    }
}

/// What an `attr:` attribute emits: a `setAttribute` effect for expressions,
/// a literal template attribute for strings.
pub open spec fn attr_mode_effect(
    old_r: TransformResult,
    new_r: TransformResult,
    old_c: BlockContext,
    new_c: BlockContext,
    v: AttrValue,
    key: Seq<char>,
    elem: Seq<char>,
) -> bool {
    let attr_name = key.subrange(5, key.len() as int);
    &&& keeps_shell(old_r, new_r)
    &&& new_r.dynamics == old_r.dynamics
    &&& new_c.delegated == old_c.delegated
    &&& new_c.uid_count == old_c.uid_count
    &&& match v {
        AttrValue::Container(se) => {
            &&& template_same(old_r, new_r)
            &&& new_r.exprs@.len() == old_r.exprs@.len() + 1
            &&& new_r.exprs@.subrange(0, old_r.exprs@.len() as int) == old_r.exprs@
            &&& (new_r.exprs@.last() matches Stmt::AttrEffect { elem: e, attr: a, value: val }
                && e@ == elem && a@ == attr_name && val@ == se.code@)
            &&& new_c.helpers.deep_view() == names_with(
                names_with(old_c.helpers.deep_view(), "effect"@),
                "setAttribute"@,
            )
        },
        AttrValue::StringLit(lit) => {
            &&& template_plus(old_r, new_r, attr_piece(attr_name, spec_escape_html(lit@, true)))
            &&& new_r.exprs == old_r.exprs
            &&& new_c.helpers == old_c.helpers
        },
        _ => template_same(old_r, new_r) && new_r.exprs == old_r.exprs && new_c.helpers
            == old_c.helpers,
    }
}

/// Transform an `attr:` attribute: forced attribute mode.
pub fn transform_attr(
    attr: &Attr,
    key: &str,
    elem_id: &str,
    result: &mut TransformResult,
    context: &mut BlockContext,
)
    requires
        key@.len() >= 5,
    ensures
        attr_mode_effect(
            *old(result),
            *final(result),
            *old(context),
            *final(context),
            attr.value,
            key@,
            elem_id@,
        ),
        safe_name(key@) ==> marker_keeps(*old(result), *final(result)),
{
    let n = key.unicode_len();
    let attr_name = key.substring_char(5, n);
    proof {
        if safe_name(key@) {
            assert forall|i: int| 0 <= i < attr_name@.len() implies #[trigger] attr_name@[i]
                != '<' by {
                assert(attr_name@[i] == key@[i + 5]);
            }
        }
    }
    match &attr.value {
        AttrValue::Container(se) => {
            context.register_helper("effect");
            context.register_helper("setAttribute");
            result.exprs.push(
                Stmt::AttrEffect {
                    elem: elem_id.to_owned(),
                    attr: attr_name.to_owned(),
                    value: se.code.clone(),
                },
            );
            proof {
                assert(final(result).exprs@.subrange(0, old(result).exprs@.len() as int)
                    =~= old(result).exprs@);
            }
        },
        AttrValue::StringLit(lit) => {
            let escaped = escape_html(lit.as_str(), true);
            proof {
                lemma_escape_has_no_open(lit@, true);
            }
            push_attr_piece(result, attr_name, escaped.as_str());
        },
        _ => {},
    }
}

/// Append ` name="value"` to both template forms.
fn push_attr_piece(result: &mut TransformResult, name: &str, value: &str)
    ensures
        template_plus(*old(result), *final(result), attr_piece(name@, value@)),
        final(result).exprs == old(result).exprs,
        final(result).dynamics == old(result).dynamics,
        keeps_shell(*old(result), *final(result)),
        no_open(name@) && no_open(value@) ==> marker_keeps(*old(result), *final(result))
            && tail_ok(final(result).template@) && tail_ok(
            final(result).template_with_closing_tags@,
        ),
{
    result.template.append(" ");
    result.template.append(name);
    result.template.append("=\"");
    result.template.append(value);
    result.template.append("\"");
    result.template_with_closing_tags.append(" ");
    result.template_with_closing_tags.append(name);
    result.template_with_closing_tags.append("=\"");
    result.template_with_closing_tags.append(value);
    result.template_with_closing_tags.append("\"");
    proof {
        reveal_strlit(" ");
        reveal_strlit("=\"");
        reveal_strlit("\"");
        assert(final(result).template@ =~= old(result).template@ + attr_piece(name@, value@));
        assert(final(result).template_with_closing_tags@ =~= old(
            result,
        ).template_with_closing_tags@ + attr_piece(name@, value@));
        crate::ir::lemma_extends_append(old(result).template@, attr_piece(name@, value@));
        crate::ir::lemma_extends_append(
            old(result).template_with_closing_tags@,
            attr_piece(name@, value@),
        );
        if no_open(name@) && no_open(value@) {
            let p = attr_piece(name@, value@);
            lemma_attr_piece_facts(name@, value@);
            lemma_marker_count_append(old(result).template@, p);
            lemma_marker_count_append(old(result).template_with_closing_tags@, p);
            assert(final(result).template@.last() == '"');
            assert(final(result).template_with_closing_tags@.last() == '"');
        }
    }
}

/// What a `style` attribute emits: a literal string or a fully-literal
/// object folds into the template; anything else becomes a `style` helper
/// call, inside an effect when the expression is dynamic.
pub open spec fn style_effect(
    old_r: TransformResult,
    new_r: TransformResult,
    old_c: BlockContext,
    new_c: BlockContext,
    v: AttrValue,
) -> bool {
    &&& keeps_shell(old_r, new_r)
    &&& new_r.dynamics == old_r.dynamics
    &&& new_c.delegated == old_c.delegated
    &&& new_c.uid_count == old_c.uid_count
    &&& match v {
        AttrValue::StringLit(lit) => {
            &&& template_plus(old_r, new_r, attr_piece("style"@, spec_escape_html(lit@, true)))
            &&& new_r.exprs == old_r.exprs
            &&& new_c.helpers == old_c.helpers
        },
        AttrValue::Container(se) => {
            if se.shape matches Expr::Object(props) && spec_fold_style(props@) is Some {
                &&& (se.shape matches Expr::Object(props) && template_plus(
                    old_r,
                    new_r,
                    attr_piece("style"@, spec_fold_style(props@)->Some_0),
                ))
                &&& new_r.exprs == old_r.exprs
                &&& new_c.helpers == old_c.helpers
            } else {
                &&& template_same(old_r, new_r)
                &&& new_r.exprs@.len() == old_r.exprs@.len() + 1
                &&& new_r.exprs@.subrange(0, old_r.exprs@.len() as int) == old_r.exprs@
                &&& (new_r.exprs@.last() matches Stmt::StyleCall { elem: _, value: val, effect }
                    && val@ == se.code@ && effect == spec_is_dynamic(se.shape))
                &&& if spec_is_dynamic(se.shape) {
                    new_c.helpers.deep_view() == names_with(
                        names_with(old_c.helpers.deep_view(), "style"@),
                        "effect"@,
                    )
                } else {
                    new_c.helpers.deep_view() == names_with(old_c.helpers.deep_view(), "style"@)
                }
            }
        },
        _ => template_same(old_r, new_r) && new_r.exprs == old_r.exprs && new_c.helpers
            == old_c.helpers,
    }
}

/// Whether a style attribute value needs an element id: it goes down the
/// runtime helper path.
pub open spec fn style_needs_id(v: AttrValue) -> bool {
    match v {
        AttrValue::Container(se) => !(se.shape matches Expr::Object(props) && spec_fold_style(
            props@,
        ) is Some),
        _ => false,
    }
}

/// The element name carried by the statement a style helper call pushes.
pub open spec fn style_elem_ok(
    old_r: TransformResult,
    new_r: TransformResult,
    v: AttrValue,
    elem: Option<Seq<char>>,
) -> bool {
    style_needs_id(v) ==> (new_r.exprs@.last() matches Stmt::StyleCall { elem: e, .. } && elem
        matches Some(name) && e@ == name)
}

/// Whether a style value cannot smuggle marker text into the template: a
/// foldable object folds to text without the marker's opening character.
pub open spec fn style_value_safe(v: AttrValue) -> bool {
    match v {
        AttrValue::Container(se) => match se.shape {
            Expr::Object(props) => match spec_fold_style(props@) {
                Some(f) => no_open(f),
                None => true,
            },
            _ => true,
        },
        _ => true,
    }
}

/// Transform a `style` attribute.
pub fn transform_style(
    attr: &Attr,
    elem_id: Option<&str>,
    result: &mut TransformResult,
    context: &mut BlockContext,
)
    requires
        style_needs_id(attr.value) ==> elem_id is Some,
    ensures
        style_effect(*old(result), *final(result), *old(context), *final(context), attr.value),
        style_elem_ok(
            *old(result),
            *final(result),
            attr.value,
            match elem_id {
                Some(e) => Some(e@),
                None => None,
            },
        ),
        style_value_safe(attr.value) ==> marker_keeps(*old(result), *final(result)),
{
    proof {
        reveal_strlit("style");
        assert(no_open("style"@)) by {
            assert forall|i: int| 0 <= i < "style"@.len() implies #[trigger] "style"@[i] != '<' by {
                assert("style"@.len() == 5);
            }
        }
    }
    match &attr.value {
        AttrValue::StringLit(lit) => {
            let escaped = escape_html(lit.as_str(), true);
            proof {
                lemma_escape_has_no_open(lit@, true);
            }
            push_attr_piece(result, "style", escaped.as_str());
        },
        AttrValue::Container(se) => {
            if let Expr::Object(props) = &se.shape {
                if let Some(style_str) = object_to_style_string(props) {
                    push_attr_piece(result, "style", style_str.as_str());
                    return ;
                }
            }
            let elem = elem_id.unwrap();
            context.register_helper("style");
            let dynamic = is_dynamic(&se.shape);
            if dynamic {
                context.register_helper("effect");
            }
            result.exprs.push(
                Stmt::StyleCall { elem: elem.to_owned(), value: se.code.clone(), effect: dynamic },
            );
            proof {
                assert(final(result).exprs@.subrange(0, old(result).exprs@.len() as int)
                    =~= old(result).exprs@);
            }
        },
        _ => {},
    }
}

/// The text a literal `textContent` attribute contributes to the element's
/// content, escaped for text position; every other attribute contributes
/// none.
pub open spec fn spec_inner_text(a: Attr) -> Seq<char> {
    match a.value {
        AttrValue::StringLit(lit) => if spec_attr_name(a.name) == "textContent"@ {
            spec_escape_html(lit@, false)
        } else {
            Seq::empty()
        },
        _ => Seq::empty(),
    }
}

/// What an `innerHTML`/`textContent` attribute emits: a property assignment,
/// inside an effect when the expression is dynamic; a literal `innerHTML` is
/// assigned at runtime as a quoted string so entity parsing is preserved; a
/// literal `textContent` is inlined as the element's content, escaped.
pub open spec fn inner_content_effect(
    old_r: TransformResult,
    new_r: TransformResult,
    old_c: BlockContext,
    new_c: BlockContext,
    v: AttrValue,
    key: Seq<char>,
) -> bool {
    match v {
        AttrValue::Container(_) => prop_assign_effect(old_r, new_r, old_c, new_c, v, key),
        AttrValue::StringLit(lit) => {
            &&& keeps_shell(old_r, new_r)
            &&& template_same(old_r, new_r)
            &&& new_r.dynamics == old_r.dynamics
            &&& new_c == old_c
            &&& if key == "innerHTML"@ {
                &&& new_r.exprs@.len() == old_r.exprs@.len() + 1
                &&& new_r.exprs@.subrange(0, old_r.exprs@.len() as int) == old_r.exprs@
                &&& (new_r.exprs@.last() matches Stmt::PropAssign { elem: _, prop, value, effect }
                    && prop@ == "innerHTML"@ && value@ == seq!['"'] + spec_escape_html(lit@, false)
                    + seq!['"'] && effect == false)
            } else {
                new_r.exprs == old_r.exprs
            }
        },
        _ => {
            &&& keeps_shell(old_r, new_r)
            &&& template_same(old_r, new_r)
            &&& new_r.dynamics == old_r.dynamics
            &&& new_r.exprs == old_r.exprs
            &&& new_c == old_c
        },
    }
}

/// Transform `innerHTML`/`textContent` inner-content attributes. A literal
/// `textContent` appends its escaped text to `inner`, which the element
/// lowering splices right after the opening tag.
pub fn transform_inner_content(
    attr: &Attr,
    key: &str,
    elem_id: &str,
    result: &mut TransformResult,
    context: &mut BlockContext,
    inner: &mut String,
)
    requires
        key@ == spec_attr_name(attr.name),
    ensures
        inner_content_effect(
            *old(result),
            *final(result),
            *old(context),
            *final(context),
            attr.value,
            key@,
        ),
        prop_assign_elem_ok(*old(result), *final(result), attr.value, elem_id@),
        final(inner)@ == old(inner)@ + spec_inner_text(*attr),
{
    proof {
        reveal_strlit("innerHTML");
        reveal_strlit("textContent");
        assert("innerHTML"@.len() == 9);
        assert("textContent"@.len() == 11);
        assert("innerHTML"@ != "textContent"@);
    }
    match &attr.value {
        AttrValue::Container(se) => {
            let dynamic = is_dynamic(&se.shape);
            if dynamic {
                context.register_helper("effect");
            }
            result.exprs.push(
                Stmt::PropAssign {
                    elem: elem_id.to_owned(),
                    prop: key.to_owned(),
                    value: se.code.clone(),
                    effect: dynamic,
                },
            );
            proof {
                assert(final(result).exprs@.subrange(0, old(result).exprs@.len() as int)
                    =~= old(result).exprs@);
            }
        },
        AttrValue::StringLit(lit) => {
            if crate::text::str_eq(key, "innerHTML") {
                let escaped = escape_html(lit.as_str(), false);
                let mut value: String = "\"".to_owned();
                value.append(escaped.as_str());
                value.append("\"");
                result.exprs.push(
                    Stmt::PropAssign {
                        elem: elem_id.to_owned(),
                        prop: "innerHTML".to_owned(),
                        value,
                        effect: false,
                    },
                );
                proof {
                    reveal_strlit("\"");
                    assert("\""@ =~= seq!['"']);
                    assert(final(result).exprs@.subrange(0, old(result).exprs@.len() as int)
                        =~= old(result).exprs@);
                }
            } else if crate::text::str_eq(key, "textContent") {
                let escaped = escape_html(lit.as_str(), false);
                inner.append(escaped.as_str());
                proof {
                    assert(spec_inner_text(*attr) == spec_escape_html(lit@, false));
                }
            }
        },
        _ => {},
    }
    proof {
        if spec_inner_text(*attr).len() == 0 {
            assert(inner@ =~= old(inner)@ + spec_inner_text(*attr));
        }
    }
}

/// What a plain attribute emits: a literal string is aliased, escaped and
/// inlined; an expression container becomes a dynamic binding carrying the
/// owner's flags; an absent value inlines the bare key.
pub open spec fn regular_effect(
    old_r: TransformResult,
    new_r: TransformResult,
    v: AttrValue,
    key: Seq<char>,
    elem: Option<Seq<char>>,
) -> bool {
    &&& keeps_shell(old_r, new_r)
    &&& new_r.exprs == old_r.exprs
    &&& match v {
        AttrValue::StringLit(lit) => {
            &&& template_plus(old_r, new_r, attr_piece(spec_alias_attr(key), spec_escape_html(lit@, true)))
            &&& new_r.dynamics == old_r.dynamics
        },
        AttrValue::Container(se) => {
            &&& template_same(old_r, new_r)
            &&& new_r.dynamics@.len() == old_r.dynamics@.len() + 1
            &&& new_r.dynamics@.subrange(0, old_r.dynamics@.len() as int) == old_r.dynamics@
            &&& ({
                let d = new_r.dynamics@.last();
                &&& (elem matches Some(e) && d.elem@ == e)
                &&& d.key@ == key
                &&& d.value@ == se.code@
                &&& d.is_svg == old_r.is_svg
                &&& d.is_ce == old_r.has_custom_element
                &&& match old_r.tag_name {
                    Some(t) => d.tag_name@ == t@,
                    None => d.tag_name@ == Seq::<char>::empty(),
                }
            })
        },
        AttrValue::Absent => {
            &&& template_plus(old_r, new_r, seq![' '] + key)
            &&& new_r.dynamics == old_r.dynamics
        },
        _ => template_same(old_r, new_r) && new_r.dynamics == old_r.dynamics,
    }
}

/// Whether the router hands this attribute to a handler that must have an
/// element id.
pub open spec fn spec_attr_requires_id(a: Attr) -> bool {
    let key = spec_attr_name(a.name);
    if key == "innerHTML"@ || key == "textContent"@ || key == "ref"@ || is_prefix_of("on"@, key)
        || is_prefix_of("use:"@, key) || is_prefix_of("prop:"@, key) || is_prefix_of(
        "attr:"@,
        key,
    ) {
        true
    } else if key == "style"@ {
        style_needs_id(a.value)
    } else {
        a.value is Container
    }
}

/// Where the router sends an attribute, and what that handler does.
pub open spec fn dispatch_effect(
    old_r: TransformResult,
    new_r: TransformResult,
    old_c: BlockContext,
    new_c: BlockContext,
    attr: Attr,
    elem: Option<Seq<char>>,
    options: TransformOptions,
) -> bool {
    let key = spec_attr_name(attr.name);
    if key == "innerHTML"@ || key == "textContent"@ {
        &&& inner_content_effect(old_r, new_r, old_c, new_c, attr.value, key)
        &&& (elem matches Some(e) && prop_assign_elem_ok(old_r, new_r, attr.value, e))
    } else if key == "ref"@ {
        &&& (elem matches Some(e) && ref_effect(old_r, new_r, attr.value, e))
        &&& new_c == old_c
    } else if is_prefix_of("on"@, key) {
        elem matches Some(e) && event_effect(
            old_r,
            new_r,
            old_c,
            new_c,
            attr.value,
            key,
            e,
            options,
        )
    } else if is_prefix_of("use:"@, key) {
        elem matches Some(e) && directive_effect(old_r, new_r, old_c, new_c, attr.value, key, e)
    } else if is_prefix_of("prop:"@, key) {
        &&& prop_assign_effect(
            old_r,
            new_r,
            old_c,
            new_c,
            attr.value,
            key.subrange(5, key.len() as int),
        )
        &&& (elem matches Some(e) && prop_assign_elem_ok(old_r, new_r, attr.value, e))
    } else if is_prefix_of("attr:"@, key) {
        elem matches Some(e) && attr_mode_effect(old_r, new_r, old_c, new_c, attr.value, key, e)
    } else if key == "style"@ {
        &&& style_effect(old_r, new_r, old_c, new_c, attr.value)
        &&& style_elem_ok(old_r, new_r, attr.value, elem)
    } else {
        &&& regular_effect(old_r, new_r, attr.value, key, elem)
        &&& new_c == old_c
    }
}

/// Statements extended only with statements that operate on the given
/// element and anchor no marker.
pub open spec fn exprs_extended_on(
    old_e: Seq<Stmt>,
    new_e: Seq<Stmt>,
    elem: Option<Seq<char>>,
) -> bool {
    &&& crate::ir::seq_extends(old_e, new_e)
    &&& forall|i: int|
        old_e.len() <= i < new_e.len() ==> ((crate::ir::stmt_elem(#[trigger] new_e[i]) matches Some(
            n,
        ) && elem matches Some(en) && en == n) && crate::ir::stmt_marker(new_e[i]) is None)
}

/// Dynamic bindings extended only with bindings on the given element.
pub open spec fn dynamics_extended_on(
    old_d: Seq<crate::ir::DynamicBinding>,
    new_d: Seq<crate::ir::DynamicBinding>,
    elem: Option<Seq<char>>,
) -> bool {
    &&& crate::ir::seq_extends(old_d, new_d)
    &&& forall|i: int|
        old_d.len() <= i < new_d.len() ==> (elem matches Some(en) && en == (
        #[trigger] new_d[i]).elem@)
}

/// One pushed statement, seen through views.
proof fn lemma_exprs_push_view(old_e: Seq<Stmt>, new_e: Seq<Stmt>)
    requires
        new_e.len() == old_e.len() + 1,
        new_e.subrange(0, old_e.len() as int) == old_e,
    ensures
        new_e == old_e.push(new_e.last()),
        stmts_view(new_e) == stmts_view(old_e).push(stmt_view(new_e.last())),
{
    lemma_is_push(old_e, new_e);
    lemma_stmts_view_push(old_e, new_e.last());
}

/// One pushed binding, seen through views.
proof fn lemma_dyns_push_view(
    old_d: Seq<crate::ir::DynamicBinding>,
    new_d: Seq<crate::ir::DynamicBinding>,
)
    requires
        new_d.len() == old_d.len() + 1,
        new_d.subrange(0, old_d.len() as int) == old_d,
    ensures
        new_d == old_d.push(new_d.last()),
        dyns_view(new_d) == dyns_view(old_d).push(dyn_view(new_d.last())),
{
    lemma_is_push(old_d, new_d);
    lemma_dyns_view_push(old_d, new_d.last());
}

/// The structural summary every routed attribute obeys: templates only grow,
/// statements and bindings are appended only, on the routed element, and no
/// walker declaration or marker is made.
pub open spec fn result_frame(
    old_r: TransformResult,
    new_r: TransformResult,
    elem: Option<Seq<char>>,
) -> bool {
    &&& keeps_shell(old_r, new_r)
    &&& crate::ir::seq_extends(old_r.template@, new_r.template@)
    &&& crate::ir::seq_extends(
        old_r.template_with_closing_tags@,
        new_r.template_with_closing_tags@,
    )
    &&& exprs_extended_on(old_r.exprs@, new_r.exprs@, elem)
    &&& dynamics_extended_on(old_r.dynamics@, new_r.dynamics@, elem)
}

/// The structural summary plus an untouched name counter.
pub open spec fn dispatch_frame(
    old_r: TransformResult,
    new_r: TransformResult,
    old_c: BlockContext,
    new_c: BlockContext,
    elem: Option<Seq<char>>,
) -> bool {
    &&& result_frame(old_r, new_r, elem)
    &&& new_c.uid_count == old_c.uid_count
}

/// Transform a single attribute: route it by key to its handler.
#[verifier::rlimit(80)]
pub fn transform_attribute(
    attr: &Attr,
    elem_id: Option<&str>,
    result: &mut TransformResult,
    context: &mut BlockContext,
    options: &TransformOptions,
    inner: &mut String,
)
    requires
        spec_attr_requires_id(*attr) ==> elem_id is Some,
    ensures
        final(inner)@ == old(inner)@ + spec_inner_text(*attr),
        dispatch_effect(
            *old(result),
            *final(result),
            *old(context),
            *final(context),
            *attr,
            match elem_id {
                Some(e) => Some(e@),
                None => None,
            },
            *options,
        ),
        dispatch_frame(
            *old(result),
            *final(result),
            *old(context),
            *final(context),
            match elem_id {
                Some(e) => Some(e@),
                None => None,
            },
        ),
        attr_safe(*attr) ==> marker_keeps(*old(result), *final(result)),
        attr_state_of(*final(result), *final(context), final(inner)@) == spec_attr_step(
            *attr,
            match elem_id {
                Some(e) => Some(e@),
                None => None,
            },
            old(result).is_svg,
            old(result).has_custom_element,
            tag_of(*old(result)),
            *options,
            attr_state_of(*old(result), *old(context), old(inner)@),
        ),
{
    let key = get_attr_name(&attr.name);
    proof {
        crate::ir::lemma_extends_refl(old(result).template@);
        crate::ir::lemma_extends_refl(old(result).template_with_closing_tags@);
        crate::ir::lemma_extends_refl(old(result).exprs@);
        crate::ir::lemma_extends_refl(old(result).dynamics@);
    }

    if crate::text::str_eq(key.as_str(), "innerHTML") || crate::text::str_eq(
        key.as_str(),
        "textContent",
    ) {
        let elem = elem_id.unwrap();
        transform_inner_content(attr, key.as_str(), elem, result, context, inner);
        proof {
            if result.exprs@.len() > old(result).exprs@.len() {
                lemma_exprs_push_view(old(result).exprs@, result.exprs@);
            }
            if result.dynamics@.len() > old(result).dynamics@.len() {
                lemma_dyns_push_view(old(result).dynamics@, result.dynamics@);
            }
            assert(inner@ =~= old(inner)@ + spec_inner_text(*attr));
            reveal_strlit("innerHTML");
            reveal_strlit("textContent");
            assert("innerHTML"@.len() == 9);
            assert("textContent"@.len() == 11);
            assert("innerHTML"@ != "textContent"@);
            let st0 = attr_state_of(*old(result), *old(context), old(inner)@);
            let st1 = spec_attr_step(
                *attr,
                Some(elem@),
                old(result).is_svg,
                old(result).has_custom_element,
                tag_of(*old(result)),
                *options,
                st0,
            );
            match &attr.value {
                AttrValue::StringLit(lit) => {
                    if key@ == "textContent"@ {
                        assert(spec_inner_text(*attr) == spec_escape_html(lit@, false));
                        assert(inner@ == st1.inner);
                    } else {
                        assert(spec_inner_text(*attr).len() == 0);
                        assert(inner@ =~= old(inner)@);
                        assert(inner@ == st1.inner);
                    }
                },
                _ => {
                    assert(spec_inner_text(*attr).len() == 0);
                    assert(inner@ =~= old(inner)@);
                    assert(inner@ == st1.inner);
                },
            }
            assert(result.template@ == st1.template);
            assert(stmts_view(result.exprs@) == st1.exprs);
            assert(dyns_view(result.dynamics@) == st1.dynamics);
            assert(context.helpers.deep_view() == st1.helpers);
            assert(context.delegated.deep_view() == st1.delegated);
            assert(attr_state_of(*result, *context, inner@) == st1);
        }
        return ;
    }
    if crate::text::str_eq(key.as_str(), "ref") {
        let elem = elem_id.unwrap();
        transform_ref(attr, elem, result);
        proof {
            if result.exprs@.len() > old(result).exprs@.len() {
                lemma_exprs_push_view(old(result).exprs@, result.exprs@);
            }
            if result.dynamics@.len() > old(result).dynamics@.len() {
                lemma_dyns_push_view(old(result).dynamics@, result.dynamics@);
            }
            assert(inner@ =~= old(inner)@ + spec_inner_text(*attr));
        }
        return ;
    }
    if str_starts_with(key.as_str(), "on") {
        let elem = elem_id.unwrap();
        transform_event(attr, key.as_str(), elem, result, context, options);
        proof {
            if result.exprs@.len() > old(result).exprs@.len() {
                lemma_exprs_push_view(old(result).exprs@, result.exprs@);
            }
            if result.dynamics@.len() > old(result).dynamics@.len() {
                lemma_dyns_push_view(old(result).dynamics@, result.dynamics@);
            }
            assert(inner@ =~= old(inner)@ + spec_inner_text(*attr));
        }
        return ;
    }
    if str_starts_with(key.as_str(), "use:") {
        let elem = elem_id.unwrap();
        proof {
            reveal_strlit("use:");
        }
        transform_directive(attr, key.as_str(), elem, result, context);
        proof {
            if result.exprs@.len() > old(result).exprs@.len() {
                lemma_exprs_push_view(old(result).exprs@, result.exprs@);
            }
            if result.dynamics@.len() > old(result).dynamics@.len() {
                lemma_dyns_push_view(old(result).dynamics@, result.dynamics@);
            }
            assert(inner@ =~= old(inner)@ + spec_inner_text(*attr));
        }
        return ;
    }
    if str_starts_with(key.as_str(), "prop:") {
        let elem = elem_id.unwrap();
        proof {
            reveal_strlit("prop:");
        }
        transform_prop(attr, key.as_str(), elem, result, context);
        proof {
            if result.exprs@.len() > old(result).exprs@.len() {
                lemma_exprs_push_view(old(result).exprs@, result.exprs@);
            }
            if result.dynamics@.len() > old(result).dynamics@.len() {
                lemma_dyns_push_view(old(result).dynamics@, result.dynamics@);
            }
            assert(inner@ =~= old(inner)@ + spec_inner_text(*attr));
        }
        return ;
    }
    if str_starts_with(key.as_str(), "attr:") {
        let elem = elem_id.unwrap();
        proof {
            reveal_strlit("attr:");
        }
        transform_attr(attr, key.as_str(), elem, result, context);
        proof {
            if result.exprs@.len() > old(result).exprs@.len() {
                lemma_exprs_push_view(old(result).exprs@, result.exprs@);
            }
            if result.dynamics@.len() > old(result).dynamics@.len() {
                lemma_dyns_push_view(old(result).dynamics@, result.dynamics@);
            }
            assert(inner@ =~= old(inner)@ + spec_inner_text(*attr));
        }
        return ;
    }
    if crate::text::str_eq(key.as_str(), "style") {
        transform_style(attr, elem_id, result, context);
        proof {
            if result.exprs@.len() > old(result).exprs@.len() {
                lemma_exprs_push_view(old(result).exprs@, result.exprs@);
            }
            if result.dynamics@.len() > old(result).dynamics@.len() {
                lemma_dyns_push_view(old(result).dynamics@, result.dynamics@);
            }
            assert(inner@ =~= old(inner)@ + spec_inner_text(*attr));
        }
        return ;
    }

    match &attr.value {
        AttrValue::StringLit(lit) => {
            let aliased = alias_attr(key.as_str());
            let escaped = escape_html(lit.as_str(), true);
            proof {
                lemma_escape_has_no_open(lit@, true);
                if safe_name(key@) {
                    assert(no_open(aliased@)) by {
                        reveal_strlit("class");
                        reveal_strlit("for");
                        assert forall|i: int| 0 <= i < aliased@.len() implies #[trigger] aliased@[i]
                            != '<' by {
                            assert("class"@.len() == 5);
                            assert("for"@.len() == 3);
                        }
                    }
                }
            }
            push_attr_piece(result, aliased, escaped.as_str());
        },
        AttrValue::Container(se) => {
            let elem = elem_id.unwrap();
            let tag: String = match &result.tag_name {
                Some(t) => t.clone(),
                None => String::new(),
            };
            result.dynamics.push(
                crate::ir::DynamicBinding {
                    elem: elem.to_owned(),
                    key,
                    value: se.code.clone(),
                    is_svg: result.is_svg,
                    is_ce: result.has_custom_element,
                    tag_name: tag,
                },
            );
            proof {
                assert(final(result).dynamics@.subrange(0, old(result).dynamics@.len() as int)
                    =~= old(result).dynamics@);
            }
        },
        AttrValue::Absent => {
            result.template.append(" ");
            result.template.append(key.as_str());
            result.template_with_closing_tags.append(" ");
            result.template_with_closing_tags.append(key.as_str());
            proof {
                reveal_strlit(" ");
                assert(final(result).template@ =~= old(result).template@ + (seq![' '] + key@));
                assert(final(result).template_with_closing_tags@ =~= old(
                    result,
                ).template_with_closing_tags@ + (seq![' '] + key@));
                crate::ir::lemma_extends_append(old(result).template@, seq![' '] + key@);
                crate::ir::lemma_extends_append(
                    old(result).template_with_closing_tags@,
                    seq![' '] + key@,
                );
                if attr_safe(*attr) {
                    let p = seq![' '] + key@;
                    assert(no_bang(p)) by {
                        assert forall|i: int| 0 <= i < p.len() implies #[trigger] p[i] != '!' by {
                            if i > 0 {
                                assert(p[i] == key@[i - 1]);
                            }
                        }
                    }
                    assert(no_open(p)) by {
                        assert forall|i: int| 0 <= i < p.len() implies #[trigger] p[i] != '<' by {
                            if i > 0 {
                                assert(p[i] == key@[i - 1]);
                            }
                        }
                    }
                    lemma_marker_count_no_bang(p);
                    lemma_marker_count_append(old(result).template@, p);
                    lemma_marker_count_append(old(result).template_with_closing_tags@, p);
                    assert(final(result).template@.last() == p.last());
                    assert(final(result).template_with_closing_tags@.last() == p.last());
                    assert(p.last() != '<' && p.last() != '!');
                }
            }
        },
        _ => {},
    }
    proof {
        if result.exprs@.len() > old(result).exprs@.len() {
            lemma_exprs_push_view(old(result).exprs@, result.exprs@);
        }
        if result.dynamics@.len() > old(result).dynamics@.len() {
            lemma_dyns_push_view(old(result).dynamics@, result.dynamics@);
        }
        assert(inner@ =~= old(inner)@ + spec_inner_text(*attr));
        let st0 = attr_state_of(*old(result), *old(context), old(inner)@);
        let opt: Option<Seq<char>> = match elem_id {
            Some(e) => Some(e@),
            None => None,
        };
        let st1 = spec_attr_step(
            *attr,
            opt,
            old(result).is_svg,
            old(result).has_custom_element,
            tag_of(*old(result)),
            *options,
            st0,
        );
        assert(result.template@ == st1.template);
        assert(stmts_view(result.exprs@) == st1.exprs);
        assert(dyns_view(result.dynamics@) == st1.dynamics);
        assert(inner@ == st1.inner);
        assert(context.helpers.deep_view() == st1.helpers);
        assert(context.delegated.deep_view() == st1.delegated);
    }
}

/// Whether an attribute-list item cannot smuggle marker text into the
/// template.
pub open spec fn item_safe(item: AttrItem) -> bool {
    match item {
        AttrItem::Attribute(a) => attr_safe(a),
        AttrItem::Spread(_) => true,
    }
}

/// Whether an attribute-list item is handed to an id-needing handler; a
/// spread always is.
pub open spec fn item_requires_id(item: AttrItem) -> bool {
    match item {
        AttrItem::Attribute(a) => spec_attr_requires_id(a),
        AttrItem::Spread(_) => true,
    }
}

/// The content text the attribute-list items contribute, in order.
pub open spec fn spec_inner_texts(items: Seq<AttrItem>) -> Seq<char>
    decreases items.len(),
{
    if items.len() == 0 {
        Seq::empty()
    } else {
        spec_inner_texts(items.drop_last()) + match items.last() {
            AttrItem::Attribute(a) => spec_inner_text(a),
            AttrItem::Spread(_) => Seq::empty(),
        }
    }
}

/// Accumulated content text is escaped, so it never holds `<`.
pub proof fn lemma_inner_texts_no_open(items: Seq<AttrItem>)
    ensures
        no_open(spec_inner_texts(items)),
    decreases items.len(),
{
    if items.len() > 0 {
        lemma_inner_texts_no_open(items.drop_last());
        let left = spec_inner_texts(items.drop_last());
        let right = match items.last() {
            AttrItem::Attribute(a) => spec_inner_text(a),
            AttrItem::Spread(_) => Seq::<char>::empty(),
        };
        assert(no_open(right)) by {
            match items.last() {
                AttrItem::Attribute(a) => {
                    match a.value {
                        AttrValue::StringLit(lit) => {
                            lemma_escape_has_no_open(lit@, false);
                        },
                        _ => {},
                    }
                },
                AttrItem::Spread(_) => {},
            }
        }
        assert forall|i: int| 0 <= i < spec_inner_texts(items).len() implies #[trigger]
            spec_inner_texts(items)[i] != '<' by {
            if i < left.len() {
                assert(spec_inner_texts(items)[i] == left[i]);
            } else {
                assert(spec_inner_texts(items)[i] == right[i - left.len()]);
            }
        }
    }
}

/// Transform every attribute of an opening element: route each plain
/// attribute by key, and emit `spread(elem, value, is_svg, has_children)`
/// for each `{…spread}` item. Literal `textContent` text accumulates in
/// `inner`.
pub fn transform_attributes(
    element: &JsxElement,
    result: &mut TransformResult,
    context: &mut BlockContext,
    options: &TransformOptions,
    inner: &mut String,
)
    requires
        forall|i: int|
            0 <= i < element.attributes@.len() && item_requires_id(#[trigger] element.attributes@[i])
                ==> old(result).id is Some,
    ensures
        result_frame(*old(result), *final(result), crate::ir::opt_view(old(result).id)),
        final(context).uid_count == old(context).uid_count,
        (forall|i: int|
            0 <= i < element.attributes@.len() ==> item_safe(#[trigger] element.attributes@[i]))
            ==> marker_keeps(*old(result), *final(result)),
        final(inner)@ == old(inner)@ + spec_inner_texts(element.attributes@),
        old(result).template_with_closing_tags@ == old(result).template@ ==> final(result).template_with_closing_tags@ == final(result).template@,
        attr_state_of(*final(result), *final(context), final(inner)@) == spec_attrs_fold(
            element.attributes@,
            crate::ir::opt_view(old(result).id),
            old(result).is_svg,
            old(result).has_custom_element,
            tag_of(*old(result)),
            element.children@.len() > 0,
            *options,
            attr_state_of(*old(result), *old(context), old(inner)@),
        ),
{
    proof {
        assert(old(inner)@ + spec_inner_texts(element.attributes@.subrange(0, 0)) =~= old(
            inner,
        )@);
        assert(element.attributes@.subrange(0, 0).len() == 0);
    }
    let ghost all_safe = forall|i: int|
        0 <= i < element.attributes@.len() ==> item_safe(#[trigger] element.attributes@[i]);
    proof {
        crate::ir::lemma_extends_refl(old(result).template@);
        crate::ir::lemma_extends_refl(old(result).template_with_closing_tags@);
        crate::ir::lemma_extends_refl(old(result).exprs@);
        crate::ir::lemma_extends_refl(old(result).dynamics@);
    }
    let elem_id: Option<String> = result.id.clone();
    let mut i: usize = 0;
    while i < element.attributes.len()
        invariant
            0 <= i <= element.attributes@.len(),
            forall|j: int|
                0 <= j < element.attributes@.len() && item_requires_id(
                    #[trigger] element.attributes@[j],
                ) ==> old(result).id is Some,
            match elem_id {
                Some(e) => old(result).id matches Some(s) && s@ == e@,
                None => old(result).id is None,
            },
            result_frame(*old(result), *result, crate::ir::opt_view(old(result).id)),
            context.uid_count == old(context).uid_count,
            all_safe == (forall|j: int|
                0 <= j < element.attributes@.len() ==> item_safe(
                    #[trigger] element.attributes@[j],
                )),
            all_safe ==> marker_keeps(*old(result), *result),
            inner@ == old(inner)@ + spec_inner_texts(element.attributes@.subrange(0, i as int)),
            old(result).template_with_closing_tags@ == old(result).template@
                ==> result.template_with_closing_tags@ == result.template@,
            attr_state_of(*result, *context, inner@) == spec_attrs_fold(
                element.attributes@.subrange(0, i as int),
                crate::ir::opt_view(old(result).id),
                old(result).is_svg,
                old(result).has_custom_element,
                tag_of(*old(result)),
                element.children@.len() > 0,
                *options,
                attr_state_of(*old(result), *old(context), old(inner)@),
            ),
        decreases element.attributes@.len() - i,
    {
        let ghost mid_r: TransformResult = *result;
        let ghost mid_c: BlockContext = *context;
        let ghost mid_inner: Seq<char> = inner@;
        proof {
            assert(element.attributes@.subrange(0, i + 1).drop_last() =~= element.attributes@
                .subrange(0, i as int));
            assert(element.attributes@.subrange(0, i + 1).last() == element.attributes@[
                i as int]);
        }
        match &element.attributes[i] {
            AttrItem::Attribute(attr) => {
                let id_ref: Option<&str> = match &elem_id {
                    Some(s) => Some(s.as_str()),
                    None => None,
                };
                transform_attribute(attr, id_ref, result, context, options, inner);
            },
            AttrItem::Spread(se) => {
                let elem = match &elem_id {
                    Some(s) => s.as_str(),
                    None => {
                        proof {
                            assert(item_requires_id(element.attributes@[i as int]));
                        }
                        unreached()
                    },
                };
                context.register_helper("spread");
                result.exprs.push(
                    Stmt::Spread {
                        elem: elem.to_owned(),
                        value: se.code.clone(),
                        is_svg: result.is_svg,
                        has_children: element.children.len() > 0,
                    },
                );
                proof {
                    assert(result.exprs@.subrange(0, mid_r.exprs@.len() as int)
                        =~= mid_r.exprs@);
                    crate::ir::lemma_extends_refl(mid_r.template@);
                    crate::ir::lemma_extends_refl(mid_r.template_with_closing_tags@);
                    crate::ir::lemma_extends_refl(mid_r.dynamics@);
                    lemma_exprs_push_view(mid_r.exprs@, result.exprs@);
                }
            },
        }
        proof {
            crate::ir::lemma_extends_trans(old(result).template@, mid_r.template@, result.template@);
            crate::ir::lemma_extends_trans(
                old(result).template_with_closing_tags@,
                mid_r.template_with_closing_tags@,
                result.template_with_closing_tags@,
            );
            crate::ir::lemma_extends_trans(old(result).exprs@, mid_r.exprs@, result.exprs@);
            crate::ir::lemma_extends_trans(old(result).dynamics@, mid_r.dynamics@, result.dynamics@);
            assert forall|k: int|
                old(result).exprs@.len() <= k < result.exprs@.len() implies ((crate::ir::stmt_elem(
                #[trigger] result.exprs@[k],
            ) matches Some(n) && crate::ir::opt_view(old(result).id) matches Some(en) && en == n)
                && crate::ir::stmt_marker(result.exprs@[k]) is None) by {
                if k < mid_r.exprs@.len() {
                    assert(result.exprs@[k] == result.exprs@.subrange(
                        0,
                        mid_r.exprs@.len() as int,
                    )[k]);
                    assert(result.exprs@[k] == mid_r.exprs@[k]);
                }
            }
            assert forall|k: int|
                old(result).dynamics@.len() <= k < result.dynamics@.len() implies (
            crate::ir::opt_view(old(result).id) matches Some(en) && en == (
            #[trigger] result.dynamics@[k]).elem@) by {
                if k < mid_r.dynamics@.len() {
                    assert(result.dynamics@[k] == result.dynamics@.subrange(
                        0,
                        mid_r.dynamics@.len() as int,
                    )[k]);
                    assert(result.dynamics@[k] == mid_r.dynamics@[k]);
                }
            }
            if all_safe {
                assert(item_safe(element.attributes@[i as int]));
                assert(marker_keeps(mid_r, *result));
            }
            assert(inner@ =~= old(inner)@ + spec_inner_texts(
                element.attributes@.subrange(0, i + 1),
            ));
            assert(attr_state_of(*result, *context, inner@) == spec_attr_item_step(
                element.attributes@[i as int],
                crate::ir::opt_view(old(result).id),
                old(result).is_svg,
                old(result).has_custom_element,
                tag_of(*old(result)),
                element.children@.len() > 0,
                *options,
                attr_state_of(mid_r, mid_c, mid_inner),
            ));
        }
        i = i + 1;
    }
    proof {
        assert(element.attributes@.subrange(0, element.attributes@.len() as int) =~= element
            .attributes@);
    }
}

/// The state the attribute phase folds over: the template text so far, the
/// statement and binding views, the deferred content text, and the context's
/// registries.
pub ghost struct AttrState {
    pub template: Seq<char>,
    pub exprs: Seq<StmtView>,
    pub dynamics: Seq<DynView>,
    pub inner: Seq<char>,
    pub helpers: Seq<Seq<char>>,
    pub delegated: Seq<Seq<char>>,
}

/// The name an id-needing handler uses; meaningless when no id was issued,
/// which the router's precondition rules out for those handlers.
pub open spec fn el_of(elem: Option<Seq<char>>) -> Seq<char> {
    elem->Some_0
}

/// The state as one attribute leaves it: the functional form of the router.
pub open spec fn spec_attr_step(
    a: Attr,
    elem: Option<Seq<char>>,
    is_svg: bool,
    is_ce: bool,
    tag: Seq<char>,
    options: TransformOptions,
    st: AttrState,
) -> AttrState {
    let key = spec_attr_name(a.name);
    let e = el_of(elem);
    if key == "innerHTML"@ || key == "textContent"@ {
        match a.value {
            AttrValue::Container(se) => AttrState {
                exprs: st.exprs.push(
                    StmtView::PropAssign {
                        elem: e,
                        prop: key,
                        value: se.code@,
                        effect: spec_is_dynamic(se.shape),
                    },
                ),
                helpers: if spec_is_dynamic(se.shape) {
                    names_with(st.helpers, "effect"@)
                } else {
                    st.helpers
                },
                ..st
            },
            AttrValue::StringLit(lit) => if key == "innerHTML"@ {
                AttrState {
                    exprs: st.exprs.push(
                        StmtView::PropAssign {
                            elem: e,
                            prop: "innerHTML"@,
                            value: seq!['"'] + spec_escape_html(lit@, false) + seq!['"'],
                            effect: false,
                        },
                    ),
                    ..st
                }
            } else {
                AttrState { inner: st.inner + spec_escape_html(lit@, false), ..st }
            },
            _ => st,
        }
    } else if key == "ref"@ {
        match a.value {
            AttrValue::Container(se) => if is_function_literal(se.shape) {
                AttrState { exprs: st.exprs.push(StmtView::RefInvoke { func: se.code@, elem: e }), ..st }
            } else {
                AttrState {
                    exprs: st.exprs.push(StmtView::RefDispatch { target: se.code@, elem: e }),
                    ..st
                }
            },
            _ => st,
        }
    } else if is_prefix_of("on"@, key) {
        let capture = is_suffix_of("Capture"@, key);
        let event = spec_to_event_name(spec_event_base(key));
        let handler = spec_handler_code(a.value);
        if spec_should_delegate(key, event, options) {
            AttrState {
                exprs: st.exprs.push(StmtView::DelegatedEvent { elem: e, event, handler }),
                delegated: names_with(st.delegated, event),
                ..st
            }
        } else {
            AttrState {
                exprs: st.exprs.push(StmtView::Listen { elem: e, event, handler, capture }),
                helpers: names_with(st.helpers, "addEventListener"@),
                ..st
            }
        }
    } else if is_prefix_of("use:"@, key) {
        let value = match a.value {
            AttrValue::Container(se) => "() => "@ + se.code@,
            _ => "undefined"@,
        };
        AttrState {
            exprs: st.exprs.push(
                StmtView::Directive { name: key.subrange(4, key.len() as int), elem: e, value },
            ),
            helpers: names_with(st.helpers, "use"@),
            ..st
        }
    } else if is_prefix_of("prop:"@, key) {
        match a.value {
            AttrValue::Container(se) => AttrState {
                exprs: st.exprs.push(
                    StmtView::PropAssign {
                        elem: e,
                        prop: key.subrange(5, key.len() as int),
                        value: se.code@,
                        effect: spec_is_dynamic(se.shape),
                    },
                ),
                helpers: if spec_is_dynamic(se.shape) {
                    names_with(st.helpers, "effect"@)
                } else {
                    st.helpers
                },
                ..st
            },
            _ => st,
        }
    } else if is_prefix_of("attr:"@, key) {
        match a.value {
            AttrValue::Container(se) => AttrState {
                exprs: st.exprs.push(
                    StmtView::AttrEffect {
                        elem: e,
                        attr: key.subrange(5, key.len() as int),
                        value: se.code@,
                    },
                ),
                helpers: names_with(names_with(st.helpers, "effect"@), "setAttribute"@),
                ..st
            },
            AttrValue::StringLit(lit) => AttrState {
                template: st.template + attr_piece(
                    key.subrange(5, key.len() as int),
                    spec_escape_html(lit@, true),
                ),
                ..st
            },
            _ => st,
        }
    } else if key == "style"@ {
        match a.value {
            AttrValue::StringLit(lit) => AttrState {
                template: st.template + attr_piece("style"@, spec_escape_html(lit@, true)),
                ..st
            },
            AttrValue::Container(se) => match se.shape {
                Expr::Object(props) => match spec_fold_style(props@) {
                    Some(f) => AttrState { template: st.template + attr_piece("style"@, f), ..st },
                    None => style_call_state(se.code@, spec_is_dynamic(se.shape), e, st),
                },
                _ => style_call_state(se.code@, spec_is_dynamic(se.shape), e, st),
            },
            _ => st,
        }
    } else {
        match a.value {
            AttrValue::StringLit(lit) => AttrState {
                template: st.template + attr_piece(
                    spec_alias_attr(key),
                    spec_escape_html(lit@, true),
                ),
                ..st
            },
            AttrValue::Container(se) => AttrState {
                dynamics: st.dynamics.push(
                    DynView { elem: e, key, value: se.code@, is_svg, is_ce, tag_name: tag },
                ),
                ..st
            },
            AttrValue::Absent => AttrState { template: st.template + seq![' '] + key, ..st },
            _ => st,
        }
    }
}

/// The state after the runtime style-helper path.
pub open spec fn style_call_state(
    code: Seq<char>,
    dynamic: bool,
    e: Seq<char>,
    st: AttrState,
) -> AttrState {
    AttrState {
        exprs: st.exprs.push(StmtView::StyleCall { elem: e, value: code, effect: dynamic }),
        helpers: if dynamic {
            names_with(names_with(st.helpers, "style"@), "effect"@)
        } else {
            names_with(st.helpers, "style"@)
        },
        ..st
    }
}

/// The state as one attribute-list item leaves it: a spread registers its
/// helper and emits `spread(elem, value, is_svg, has_children)`.
pub open spec fn spec_attr_item_step(
    item: AttrItem,
    elem: Option<Seq<char>>,
    is_svg: bool,
    is_ce: bool,
    tag: Seq<char>,
    has_children: bool,
    options: TransformOptions,
    st: AttrState,
) -> AttrState {
    match item {
        AttrItem::Attribute(a) => spec_attr_step(a, elem, is_svg, is_ce, tag, options, st),
        AttrItem::Spread(se) => AttrState {
            exprs: st.exprs.push(
                StmtView::Spread { elem: el_of(elem), value: se.code@, is_svg, has_children },
            ),
            helpers: names_with(st.helpers, "spread"@),
            ..st
        },
    }
}

/// The whole attribute list folded, item by item, in source order.
pub open spec fn spec_attrs_fold(
    items: Seq<AttrItem>,
    elem: Option<Seq<char>>,
    is_svg: bool,
    is_ce: bool,
    tag: Seq<char>,
    has_children: bool,
    options: TransformOptions,
    st: AttrState,
) -> AttrState
    decreases items.len(),
{
    if items.len() == 0 {
        st
    } else {
        spec_attr_item_step(
            items.last(),
            elem,
            is_svg,
            is_ce,
            tag,
            has_children,
            options,
            spec_attrs_fold(items.drop_last(), elem, is_svg, is_ce, tag, has_children, options, st),
        )
    }
}

/// The attribute-phase state carried by a result, a context and the
/// deferred content text.
pub open spec fn attr_state_of(r: TransformResult, c: BlockContext, inner: Seq<char>) -> AttrState {
    AttrState {
        template: r.template@,
        exprs: stmts_view(r.exprs@),
        dynamics: dyns_view(r.dynamics@),
        inner,
        helpers: c.helpers.deep_view(),
        delegated: c.delegated.deep_view(),
    }
}

/// The owner tag a dynamic binding carries: the result's tag name, or
/// nothing's text.
pub open spec fn tag_of(r: TransformResult) -> Seq<char> {
    match r.tag_name {
        Some(t) => t@,
        None => Seq::empty(),
    }
}

} // verus!
