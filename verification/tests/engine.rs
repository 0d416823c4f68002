use solid_jsx::ast::{Attr, AttrItem, AttrName, AttrValue, Expr, JsxChild, JsxElement, JsxName,
    SourceExpr};
use solid_jsx::element::{transform_element, ChildTransformer, NoChildTransform};
use solid_jsx::ir::{BlockContext, Step, Stmt, TransformInfo, TransformOptions, TransformResult};

fn top_info() -> TransformInfo {
    TransformInfo { root_id: None, path: vec![], top_level: true, skip_id: false }
}

fn options() -> TransformOptions {
    TransformOptions { delegate_events: true, delegated_events: vec![] }
}

fn div(attributes: Vec<AttrItem>, children: Vec<JsxChild>) -> JsxElement {
    JsxElement { name: JsxName::Ident("div".to_string()), attributes, children }
}

fn plain_attr(name: &str, value: AttrValue) -> AttrItem {
    AttrItem::Attribute(Attr { name: AttrName::Ident(name.to_string()), value })
}

fn container(code: &str, shape: Expr) -> AttrValue {
    AttrValue::Container(SourceExpr { code: code.to_string(), shape })
}

fn lower(element: &JsxElement) -> (TransformResult, BlockContext) {
    let mut context = BlockContext::new();
    let mut nct = NoChildTransform {};
    let tag = solid_jsx::check::get_tag_name(element);
    let result = transform_element(element, &tag, &top_info(), &mut context, &options(), &mut nct);
    (result, context)
}

#[test]
fn static_class_inlines_into_template() {
    let e = div(vec![plain_attr("class", AttrValue::StringLit("x".to_string()))], vec![]);
    let (r, _) = lower(&e);
    assert_eq!(r.template, "<div class=\"x\"></div>");
    assert_eq!(r.template_with_closing_tags, "<div class=\"x\"></div>");
    assert_eq!(r.declarations.len(), 0);
    assert_eq!(r.exprs.len(), 0);
    assert_eq!(r.dynamics.len(), 0);
}

#[test]
fn dynamic_id_becomes_one_binding() {
    let e = div(
        vec![plain_attr("id", container("getId()", Expr::Call))],
        vec![JsxChild::Text("hello".to_string())],
    );
    let (r, _) = lower(&e);
    assert_eq!(r.template, "<div>hello</div>");
    assert_eq!(r.dynamics.len(), 1);
    assert_eq!(r.dynamics[0].key, "id");
    assert_eq!(r.dynamics[0].value, "getId()");
    assert_eq!(r.dynamics[0].elem, r.id.clone().unwrap());
    assert_eq!(r.exprs.len(), 0);
    assert_eq!(r.declarations.len(), 0);
    assert!(!r.template.contains("<!>"));
}

#[test]
fn single_dynamic_child_inserts_without_marker() {
    let e = div(vec![], vec![JsxChild::Container(SourceExpr {
        code: "count()".to_string(),
        shape: Expr::Call,
    })]);
    let (r, _) = lower(&e);
    assert_eq!(r.template, "<div></div>");
    assert_eq!(r.declarations.len(), 0);
    assert_eq!(r.exprs.len(), 1);
    assert_eq!(r.exprs[0].code(), "insert(el$, () => count())");
}

#[test]
fn dynamic_between_text_gets_a_marker() {
    let e = div(vec![], vec![
        JsxChild::Text("before".to_string()),
        JsxChild::Container(SourceExpr { code: "x()".to_string(), shape: Expr::Call }),
        JsxChild::Text("after".to_string()),
    ]);
    let (r, _) = lower(&e);
    assert_eq!(r.template, "<div>before<!>after</div>");
    assert_eq!(r.declarations.len(), 1);
    assert_eq!(r.declarations[0].name, "el$2");
    assert_eq!(r.declarations[0].init.code(), "el$.firstChild.nextSibling");
    assert_eq!(r.exprs.len(), 1);
    assert_eq!(r.exprs[0].code(), "insert(el$, () => x(), el$2)");
}

#[test]
fn click_delegates_and_mouseover_listens() {
    let e = div(
        vec![
            plain_attr("onClick", container("h", Expr::Ident)),
            plain_attr("onMouseOver", container("m", Expr::Ident)),
        ],
        vec![],
    );
    let (r, c) = lower(&e);
    assert_eq!(r.exprs.len(), 2);
    assert_eq!(r.exprs[0].code(), "el$.$$click = h");
    assert_eq!(r.exprs[1].code(), "addEventListener(el$, \"mouseover\", m, false)");
    assert!(c.delegated.contains(&"click".to_string()));
    assert!(!c.delegated.contains(&"mouseover".to_string()));
    assert!(!r.template.contains("onclick"));
    assert!(!r.template.contains("onmouseover"));
}

#[test]
fn literal_style_object_folds_into_template() {
    let shape = Expr::Object(vec![
        solid_jsx::ast::ObjectProp::Property {
            key: solid_jsx::ast::PropKey::Ident("marginTop".to_string()),
            value: Expr::NumLit { text: "4".to_string(), is_zero: false },
        },
        solid_jsx::ast::ObjectProp::Property {
            key: solid_jsx::ast::PropKey::Ident("opacity".to_string()),
            value: Expr::NumLit { text: "0.5".to_string(), is_zero: false },
        },
        solid_jsx::ast::ObjectProp::Property {
            key: solid_jsx::ast::PropKey::Ident("zIndex".to_string()),
            value: Expr::NumLit { text: "0".to_string(), is_zero: true },
        },
    ]);
    let e = div(vec![plain_attr("style", container("{…}", shape))], vec![]);
    let (r, c) = lower(&e);
    assert_eq!(r.template, "<div style=\"margin-top: 4px; opacity: 0.5; z-index: 0\"></div>");
    assert_eq!(r.exprs.len(), 0);
    assert!(!c.helpers.contains(&"effect".to_string()));
}

#[test]
fn dynamic_style_uses_the_helper_inside_an_effect() {
    let e = div(vec![plain_attr("style", container("styles()", Expr::Call))], vec![]);
    let (r, c) = lower(&e);
    assert_eq!(r.exprs.len(), 1);
    assert_eq!(r.exprs[0].code(), "effect(() => style(el$, styles()))");
    assert!(c.helpers.contains(&"style".to_string()));
    assert!(c.helpers.contains(&"effect".to_string()));
}

#[test]
fn forced_direct_event_always_listens() {
    let e = div(
        vec![AttrItem::Attribute(Attr {
            name: AttrName::Namespaced("on".to_string(), "click".to_string()),
            value: container("h", Expr::Ident),
        })],
        vec![],
    );
    let (r, c) = lower(&e);
    assert_eq!(r.exprs[0].code(), "addEventListener(el$, \"click\", h, false)");
    assert!(!c.delegated.contains(&"click".to_string()));
}

#[test]
fn capture_suffix_disables_delegation() {
    let e = div(vec![plain_attr("onClickCapture", container("h", Expr::Ident))], vec![]);
    let (r, _) = lower(&e);
    assert_eq!(r.exprs[0].code(), "addEventListener(el$, \"click\", h, true)");
}

#[test]
fn delegation_can_be_disabled() {
    let e = div(vec![plain_attr("onClick", container("h", Expr::Ident))], vec![]);
    let mut context = BlockContext::new();
    let mut nct = NoChildTransform {};
    let opts = TransformOptions { delegate_events: false, delegated_events: vec![] };
    let r = transform_element(&e, "div", &top_info(), &mut context, &opts, &mut nct);
    assert_eq!(r.exprs[0].code(), "addEventListener(el$, \"click\", h, false)");
}

#[test]
fn user_supplied_events_delegate() {
    let e = div(vec![plain_attr("onMouseOver", container("m", Expr::Ident))], vec![]);
    let mut context = BlockContext::new();
    let mut nct = NoChildTransform {};
    let opts = TransformOptions {
        delegate_events: true,
        delegated_events: vec!["mouseover".to_string()],
    };
    let r = transform_element(&e, "div", &top_info(), &mut context, &opts, &mut nct);
    assert_eq!(r.exprs[0].code(), "el$.$$mouseover = m");
}

#[test]
fn ref_function_literal_is_invoked() {
    let e = div(vec![plain_attr("ref", container("el => myRef = el", Expr::Arrow))], vec![]);
    let (r, _) = lower(&e);
    assert_eq!(r.exprs[0].code(), "(el => myRef = el)(el$)");
}

#[test]
fn ref_call_values_dispatch_even_when_their_text_holds_an_arrow() {
    let e = div(vec![plain_attr("ref", container("f(x => x)", Expr::Call))], vec![]);
    let (r, _) = lower(&e);
    assert_eq!(
        r.exprs[0].code(),
        "typeof f(x => x) === \"function\" ? f(x => x)(el$) : f(x => x) = el$",
    );
}

#[test]
fn ref_variable_dispatches_at_runtime() {
    let e = div(vec![plain_attr("ref", container("myRef", Expr::Ident))], vec![]);
    let (r, _) = lower(&e);
    assert_eq!(r.exprs[0].code(), "typeof myRef === \"function\" ? myRef(el$) : myRef = el$");
}

#[test]
fn directive_wraps_its_value() {
    let e = div(
        vec![AttrItem::Attribute(Attr {
            name: AttrName::Namespaced("use".to_string(), "model".to_string()),
            value: container("value", Expr::Ident),
        })],
        vec![],
    );
    let (r, c) = lower(&e);
    assert_eq!(r.exprs[0].code(), "use(model, el$, () => value)");
    assert!(c.helpers.contains(&"use".to_string()));
}

#[test]
fn prop_assignment_wraps_dynamic_values_in_effect() {
    let e = div(
        vec![AttrItem::Attribute(Attr {
            name: AttrName::Namespaced("prop".to_string(), "value".to_string()),
            value: container("v()", Expr::Call),
        })],
        vec![],
    );
    let (r, _) = lower(&e);
    assert_eq!(r.exprs[0].code(), "effect(() => el$.value = v())");
}

#[test]
fn prop_assignment_static_values_assign_once() {
    let e = div(
        vec![AttrItem::Attribute(Attr {
            name: AttrName::Namespaced("prop".to_string(), "value".to_string()),
            value: container("\"a\"", Expr::StrLit("a".to_string())),
        })],
        vec![],
    );
    let (r, _) = lower(&e);
    assert_eq!(r.exprs[0].code(), "el$.value = \"a\"");
}

#[test]
fn attr_mode_expression_sets_attribute_in_effect() {
    let e = div(
        vec![AttrItem::Attribute(Attr {
            name: AttrName::Namespaced("attr".to_string(), "data-x".to_string()),
            value: container("x()", Expr::Call),
        })],
        vec![],
    );
    let (r, c) = lower(&e);
    assert_eq!(r.exprs[0].code(), "effect(() => el$.setAttribute(\"data-x\", x()))");
    assert!(c.helpers.contains(&"effect".to_string()));
    assert!(c.helpers.contains(&"setAttribute".to_string()));
}

#[test]
fn attr_mode_literal_inlines() {
    let e = div(
        vec![AttrItem::Attribute(Attr {
            name: AttrName::Namespaced("attr".to_string(), "data-x".to_string()),
            value: AttrValue::StringLit("1".to_string()),
        })],
        vec![],
    );
    let (r, _) = lower(&e);
    assert_eq!(r.template, "<div data-x=\"1\"></div>");
}

#[test]
fn literal_inner_html_assigns_at_runtime() {
    let e = div(
        vec![plain_attr("innerHTML", AttrValue::StringLit("<b>hi</b>".to_string()))],
        vec![],
    );
    let (r, _) = lower(&e);
    assert_eq!(r.exprs[0].code(), "el$.innerHTML = \"&lt;b&gt;hi&lt;/b&gt;\"");
    assert_eq!(r.template, "<div></div>");
}

#[test]
fn dynamic_text_content_assigns_in_effect() {
    let e = div(vec![plain_attr("textContent", container("t()", Expr::Call))], vec![]);
    let (r, _) = lower(&e);
    assert_eq!(r.exprs[0].code(), "effect(() => el$.textContent = t())");
}

#[test]
fn spread_forces_an_id_and_emits_the_helper_call() {
    let e = div(
        vec![AttrItem::Spread(SourceExpr { code: "props".to_string(), shape: Expr::Ident })],
        vec![],
    );
    let (r, c) = lower(&e);
    assert_eq!(r.exprs[0].code(), "spread(el$, props, false, false)");
    assert!(c.helpers.contains(&"spread".to_string()));
}

#[test]
fn boolean_attribute_inlines_bare() {
    let e = div(vec![plain_attr("disabled", AttrValue::Absent)], vec![]);
    let (r, _) = lower(&e);
    assert_eq!(r.template, "<div disabled></div>");
}

#[test]
fn class_name_alias_applies() {
    let e = div(vec![plain_attr("className", AttrValue::StringLit("a".to_string()))], vec![]);
    let (r, _) = lower(&e);
    assert_eq!(r.template, "<div class=\"a\"></div>");
}

#[test]
fn void_elements_stay_unclosed() {
    let e = JsxElement {
        name: JsxName::Ident("img".to_string()),
        attributes: vec![plain_attr("src", AttrValue::StringLit("x.png".to_string()))],
        children: vec![],
    };
    let (r, _) = lower(&e);
    assert_eq!(r.template, "<img src=\"x.png\">");
    assert_eq!(r.template_with_closing_tags, "<img src=\"x.png\">");
}

#[test]
fn whitespace_only_text_never_reaches_the_template() {
    let e = div(vec![], vec![
        JsxChild::Text("   \n  ".to_string()),
        JsxChild::Container(SourceExpr { code: "x()".to_string(), shape: Expr::Call }),
        JsxChild::Text("\n \t".to_string()),
    ]);
    let (r, _) = lower(&e);
    assert_eq!(r.template, "<div></div>");
    assert_eq!(r.exprs[0].code(), "insert(el$, () => x())");
}

#[test]
fn fragments_are_transparent_for_single_dynamic() {
    let e = div(vec![], vec![JsxChild::Fragment(vec![JsxChild::Container(SourceExpr {
        code: "x()".to_string(),
        shape: Expr::Call,
    })])]);
    let (r, _) = lower(&e);
    assert_eq!(r.template, "<div></div>");
    assert_eq!(r.exprs[0].code(), "insert(el$, () => x())");
}

#[test]
fn nested_elements_walk_with_paths() {
    let inner = JsxElement {
        name: JsxName::Ident("span".to_string()),
        attributes: vec![plain_attr("id", container("i()", Expr::Call))],
        children: vec![],
    };
    let e = div(vec![], vec![
        JsxChild::Text("a".to_string()),
        JsxChild::Element(Box::new(inner)),
    ]);
    let (r, _) = lower(&e);
    assert_eq!(r.template, "<div>a<span></span></div>");
    assert_eq!(r.declarations.len(), 1);
    assert_eq!(r.declarations[0].name, "el$2");
    assert_eq!(r.declarations[0].init.code(), "el$.firstChild.nextSibling");
    assert_eq!(r.dynamics.len(), 1);
    assert_eq!(r.dynamics[0].elem, "el$2");
    assert_eq!(r.dynamics[0].tag_name, "span");
}

#[test]
fn static_expression_children_insert_unwrapped() {
    let e = div(vec![], vec![JsxChild::Container(SourceExpr {
        code: "\"hi\"".to_string(),
        shape: Expr::StrLit("hi".to_string()),
    })]);
    let (r, _) = lower(&e);
    assert_eq!(r.exprs[0].code(), "insert(el$, \"hi\")");
}

struct OneComponent {}

impl ChildTransformer for OneComponent {
    fn transform_child(
        &mut self,
        _child: &JsxElement,
        _context: &mut BlockContext,
    ) -> Option<TransformResult> {
        Some(TransformResult {
            tag_name: Some("Foo".to_string()),
            is_svg: false,
            has_custom_element: false,
            id: None,
            template: String::new(),
            template_with_closing_tags: String::new(),
            declarations: vec![],
            exprs: vec![Stmt::Expr { code: "createComponent(Foo, {})".to_string() }],
            dynamics: vec![],
        })
    }
}

#[test]
fn component_children_insert_on_markers() {
    let comp = JsxElement {
        name: JsxName::Ident("Foo".to_string()),
        attributes: vec![],
        children: vec![],
    };
    let e = div(vec![], vec![
        JsxChild::Text("t".to_string()),
        JsxChild::Element(Box::new(comp)),
    ]);
    let mut context = BlockContext::new();
    let mut tr = OneComponent {};
    let r = transform_element(&e, "div", &top_info(), &mut context, &options(), &mut tr);
    assert_eq!(r.template, "<div>t<!></div>");
    assert_eq!(r.declarations.len(), 1);
    assert_eq!(r.declarations[0].init.code(), "el$.firstChild.nextSibling");
    assert_eq!(r.exprs[0].code(), "insert(el$, createComponent(Foo, {}), el$2)");
    assert!(context.helpers.contains(&"insert".to_string()));
}

#[test]
fn svg_elements_are_flagged() {
    let e = JsxElement {
        name: JsxName::Ident("circle".to_string()),
        attributes: vec![],
        children: vec![],
    };
    let (r, _) = lower(&e);
    assert!(r.is_svg);
    assert_eq!(r.tag_name, Some("circle".to_string()));
}

#[test]
fn custom_elements_are_flagged() {
    let e = JsxElement {
        name: JsxName::Ident("my-widget".to_string()),
        attributes: vec![],
        children: vec![],
    };
    let (r, _) = lower(&e);
    assert!(r.has_custom_element);
}

#[test]
fn uid_names_advance_per_prefix_count() {
    let mut c = BlockContext::new();
    assert_eq!(c.generate_uid("el$"), "el$");
    assert_eq!(c.generate_uid("el$"), "el$2");
    assert_eq!(c.generate_uid("el$"), "el$3");
}

#[test]
fn helpers_register_once() {
    let mut c = BlockContext::new();
    c.register_helper("insert");
    c.register_helper("effect");
    c.register_helper("insert");
    assert_eq!(c.helpers, vec!["insert".to_string(), "effect".to_string()]);
}

#[test]
fn walk_init_renders_the_chain() {
    let init = solid_jsx::ir::WalkInit {
        root: "el$".to_string(),
        steps: vec![Step::FirstChild, Step::NextSibling, Step::NextSibling],
    };
    assert_eq!(init.code(), "el$.firstChild.nextSibling.nextSibling");
}

#[test]
fn well_formedness_accepts_parser_shapes_and_refuses_bare_on() {
    let ok = div(vec![plain_attr("onClick", container("h", Expr::Ident))], vec![]);
    assert!(solid_jsx::element::element_well_formed(&ok));
    let bare_on = div(vec![plain_attr("on", AttrValue::Absent)], vec![]);
    assert!(!solid_jsx::element::element_well_formed(&bare_on));
}

#[test]
fn skip_id_suppresses_the_top_level_id() {
    let e = div(vec![plain_attr("class", AttrValue::StringLit("x".to_string()))], vec![]);
    let mut context = BlockContext::new();
    let mut nct = NoChildTransform {};
    let info = TransformInfo { root_id: None, path: vec![], top_level: true, skip_id: true };
    let r = transform_element(&e, "div", &info, &mut context, &options(), &mut nct);
    assert!(r.id.is_none());
    assert_eq!(r.template, "<div class=\"x\"></div>");
}
