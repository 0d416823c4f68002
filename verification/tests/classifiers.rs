use solid_jsx::ast::{ArrayElem, Attr, AttrItem, AttrName, AttrValue, Expr, JsxElement, JsxName,
    MemberName, MemberObject, ObjectProp, PropKey, SourceExpr};
use solid_jsx::check::{find_prop, find_prop_value, get_attr_name, get_attr_value, get_tag_name,
    is_component, is_dynamic, is_namespaced_attr};
use solid_jsx::constants::{is_built_in, is_delegated_event, is_svg_element, is_void_element,
    needs_px_suffix};
use solid_jsx::style::{camel_to_kebab, object_to_style_string};
use solid_jsx::text::{escape_html, str_ends_with, str_starts_with, str_eq, to_event_name,
    trim_whitespace};

#[test]
fn components_start_uppercase_or_dotted() {
    assert!(is_component("Foo"));
    assert!(is_component("foo.bar"));
    assert!(is_component("Foo.Bar"));
    assert!(!is_component("div"));
    assert!(!is_component(""));
}

#[test]
fn built_ins_are_a_closed_set() {
    assert!(is_built_in("For"));
    assert!(is_built_in("Show"));
    assert!(is_built_in("ErrorBoundary"));
    assert!(!is_built_in("Div"));
    assert!(!is_built_in("for"));
}

#[test]
fn svg_elements_are_a_closed_set() {
    assert!(is_svg_element("svg"));
    assert!(is_svg_element("circle"));
    assert!(is_svg_element("feGaussianBlur"));
    assert!(!is_svg_element("div"));
}

#[test]
fn void_elements_are_a_closed_set() {
    assert!(is_void_element("br"));
    assert!(is_void_element("img"));
    assert!(is_void_element("input"));
    assert!(!is_void_element("div"));
}

#[test]
fn delegated_events_include_click_but_not_mouseover() {
    assert!(is_delegated_event("click"));
    assert!(is_delegated_event("keydown"));
    assert!(!is_delegated_event("mouseover"));
}

#[test]
fn tag_names_resolve_member_chains() {
    let name = JsxName::Member(Box::new(MemberName {
        object: MemberObject::Member(Box::new(MemberName {
            object: MemberObject::Ident("Foo".to_string()),
            property: "Bar".to_string(),
        })),
        property: "Baz".to_string(),
    }));
    let e = JsxElement { name, attributes: vec![], children: vec![] };
    assert_eq!(get_tag_name(&e), "Foo.Bar.Baz");
}

#[test]
fn tag_names_resolve_namespaces_and_this() {
    let e = JsxElement {
        name: JsxName::Namespaced("svg".to_string(), "circle".to_string()),
        attributes: vec![],
        children: vec![],
    };
    assert_eq!(get_tag_name(&e), "svg:circle");
    let t = JsxElement { name: JsxName::This, attributes: vec![], children: vec![] };
    assert_eq!(get_tag_name(&t), "this");
}

#[test]
fn literals_are_static_and_reads_are_dynamic() {
    assert!(!is_dynamic(&Expr::StrLit("a".to_string())));
    assert!(!is_dynamic(&Expr::NumLit { text: "1".to_string(), is_zero: false }));
    assert!(!is_dynamic(&Expr::BoolLit(true)));
    assert!(!is_dynamic(&Expr::NullLit));
    assert!(!is_dynamic(&Expr::TemplateLit { has_exprs: false }));
    assert!(is_dynamic(&Expr::TemplateLit { has_exprs: true }));
    assert!(is_dynamic(&Expr::Call));
    assert!(is_dynamic(&Expr::Ident));
    assert!(is_dynamic(&Expr::StaticMember));
    assert!(is_dynamic(&Expr::ComputedMember));
    assert!(is_dynamic(&Expr::Conditional));
    assert!(is_dynamic(&Expr::Logical));
    assert!(!is_dynamic(&Expr::Arrow));
    assert!(!is_dynamic(&Expr::Function));
    assert!(is_dynamic(&Expr::Other));
}

#[test]
fn containers_are_dynamic_when_an_entry_is() {
    let static_obj = Expr::Object(vec![ObjectProp::Property {
        key: PropKey::Ident("a".to_string()),
        value: Expr::NumLit { text: "1".to_string(), is_zero: false },
    }]);
    assert!(!is_dynamic(&static_obj));
    let dynamic_obj = Expr::Object(vec![ObjectProp::Spread(Expr::Ident)]);
    assert!(is_dynamic(&dynamic_obj));
    let static_arr = Expr::Array(vec![ArrayElem::Elision, ArrayElem::Item(Expr::NullLit)]);
    assert!(!is_dynamic(&static_arr));
    let dynamic_arr = Expr::Array(vec![ArrayElem::Spread(Expr::Call)]);
    assert!(is_dynamic(&dynamic_arr));
    let nested = Expr::Binary(Box::new(Expr::NumLit { text: "1".to_string(), is_zero: false }),
        Box::new(Expr::Unary(Box::new(Expr::Ident))));
    assert!(is_dynamic(&nested));
}

#[test]
fn find_prop_returns_the_first_plain_match() {
    let e = JsxElement {
        name: JsxName::Ident("div".to_string()),
        attributes: vec![
            AttrItem::Spread(SourceExpr { code: "p".to_string(), shape: Expr::Ident }),
            AttrItem::Attribute(Attr {
                name: AttrName::Ident("id".to_string()),
                value: AttrValue::StringLit("a".to_string()),
            }),
            AttrItem::Attribute(Attr {
                name: AttrName::Ident("id".to_string()),
                value: AttrValue::StringLit("b".to_string()),
            }),
        ],
        children: vec![],
    };
    let found = find_prop(&e, "id").unwrap();
    assert!(matches!(&found.value, AttrValue::StringLit(s) if s == "a"));
    assert!(find_prop(&e, "class").is_none());
    assert_eq!(find_prop_value(&e, "id"), Some("\"a\"".to_string()));
}

#[test]
fn attr_values_render_by_shape() {
    let c = Attr {
        name: AttrName::Ident("id".to_string()),
        value: AttrValue::Container(SourceExpr { code: "getId()".to_string(), shape: Expr::Call }),
    };
    assert_eq!(get_attr_value(&c), Some("getId()".to_string()));
    let b = Attr { name: AttrName::Ident("disabled".to_string()), value: AttrValue::Absent };
    assert_eq!(get_attr_value(&b), Some("true".to_string()));
    let u = Attr { name: AttrName::Ident("x".to_string()), value: AttrValue::EmptyContainer };
    assert_eq!(get_attr_value(&u), None);
}

#[test]
fn attr_names_carry_namespaces() {
    let n = AttrName::Namespaced("on".to_string(), "click".to_string());
    assert_eq!(get_attr_name(&n), "on:click");
    assert!(is_namespaced_attr(&n));
    let p = AttrName::Ident("class".to_string());
    assert_eq!(get_attr_name(&p), "class");
    assert!(!is_namespaced_attr(&p));
}

#[test]
fn camel_case_converts_to_kebab() {
    assert_eq!(camel_to_kebab("backgroundColor"), "background-color");
    assert_eq!(camel_to_kebab("marginTop"), "margin-top");
    assert_eq!(camel_to_kebab("color"), "color");
    assert_eq!(camel_to_kebab("WebkitTransform"), "webkit-transform");
}

#[test]
fn px_suffix_skips_unitless_properties() {
    assert!(needs_px_suffix("margin-top"));
    assert!(needs_px_suffix("width"));
    assert!(!needs_px_suffix("opacity"));
    assert!(!needs_px_suffix("z-index"));
    assert!(!needs_px_suffix("flex-grow"));
    assert!(!needs_px_suffix("stroke-width"));
}

#[test]
fn style_folding_joins_entries_in_source_order() {
    let props = vec![
        ObjectProp::Property {
            key: PropKey::StrKey("margin-top".to_string()),
            value: Expr::NumLit { text: "4".to_string(), is_zero: false },
        },
        ObjectProp::Property {
            key: PropKey::Ident("color".to_string()),
            value: Expr::StrLit("red".to_string()),
        },
    ];
    assert_eq!(object_to_style_string(&props), Some("margin-top: 4px; color: red".to_string()));
}

#[test]
fn style_folding_is_repeatable() {
    let props = vec![ObjectProp::Property {
        key: PropKey::Ident("opacity".to_string()),
        value: Expr::NumLit { text: "0.5".to_string(), is_zero: false },
    }];
    let first = object_to_style_string(&props);
    let second = object_to_style_string(&props);
    assert_eq!(first, second);
    assert_eq!(first, Some("opacity: 0.5".to_string()));
}

#[test]
fn style_folding_aborts_on_dynamic_entries() {
    assert_eq!(object_to_style_string(&vec![ObjectProp::Spread(Expr::Ident)]), None);
    assert_eq!(
        object_to_style_string(&vec![ObjectProp::Property {
            key: PropKey::Computed,
            value: Expr::StrLit("x".to_string()),
        }]),
        None,
    );
    assert_eq!(
        object_to_style_string(&vec![ObjectProp::Property {
            key: PropKey::Ident("width".to_string()),
            value: Expr::Call,
        }]),
        None,
    );
    assert_eq!(object_to_style_string(&vec![]), Some(String::new()));
}

#[test]
fn html_escaping_covers_both_positions() {
    assert_eq!(escape_html("<a & b>", false), "&lt;a &amp; b&gt;");
    assert_eq!(escape_html("say \"hi\" > now", true), "say &quot;hi&quot; > now");
    assert_eq!(escape_html("", true), "");
}

#[test]
fn whitespace_collapses_and_trims() {
    assert_eq!(trim_whitespace("  a  \n  b  "), "a b");
    assert_eq!(trim_whitespace("   \n\t  "), "");
    assert_eq!(trim_whitespace("hello"), "hello");
    assert_eq!(trim_whitespace(" x"), "x");
}

#[test]
fn event_names_strip_their_prefix_and_lowercase() {
    assert_eq!(to_event_name("onClick"), "click");
    assert_eq!(to_event_name("on:CustomThing"), "customthing");
    assert_eq!(to_event_name("onMouseOver"), "mouseover");
}

#[test]
fn string_predicates_match_by_characters() {
    assert!(str_eq("abc", "abc"));
    assert!(!str_eq("abc", "abd"));
    assert!(str_starts_with("onClick", "on"));
    assert!(!str_starts_with("o", "on"));
    assert!(str_ends_with("onClickCapture", "Capture"));
    assert!(!str_ends_with("onClick", "Capture"));
}
