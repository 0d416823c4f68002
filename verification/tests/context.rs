use solid_jsx::lintctx::{Diagnostic, LintContext, SourceType};

fn jsx_source() -> SourceType {
    SourceType { jsx: true, typescript: false }
}

#[test]
fn a_fresh_context_reports_nothing() {
    let ctx = LintContext::new("const x = 1;", jsx_source());
    assert_eq!(ctx.source_text(), "const x = 1;");
    assert!(ctx.is_jsx());
    assert!(!ctx.is_typescript());
    assert_eq!(ctx.diagnostics().len(), 0);
}

#[test]
fn diagnostics_accumulate_in_order() {
    let mut ctx = LintContext::new("let a;", jsx_source());
    ctx.report(Diagnostic { message: "first".to_string(), start: 0, end: 3 });
    ctx.report(Diagnostic { message: "second".to_string(), start: 4, end: 5 });
    assert_eq!(ctx.diagnostics().len(), 2);
    let all = ctx.into_diagnostics();
    assert_eq!(all[0].message, "first");
    assert_eq!(all[1].message, "second");
}

#[test]
fn span_text_slices_by_character_positions() {
    let ctx = LintContext::new("hello world", jsx_source());
    assert_eq!(ctx.span_text(0, 5), "hello");
    assert_eq!(ctx.span_text(6, 11), "world");
}

#[test]
fn used_symbols_register_once() {
    let mut ctx = LintContext::new("", jsx_source());
    assert!(!ctx.is_used(7));
    ctx.mark_used(7);
    ctx.mark_used(7);
    ctx.mark_used(9);
    assert!(ctx.is_used(7));
    assert!(ctx.is_used(9));
    assert!(!ctx.is_used(8));
    assert_eq!(ctx.used_symbols().len(), 2);
}

#[test]
fn component_symbols_track_separately() {
    let mut ctx = LintContext::new("", jsx_source());
    ctx.mark_component(3);
    assert!(ctx.is_component(3));
    assert!(!ctx.is_used(3));
    assert_eq!(ctx.component_symbols(), &vec![3u32]);
}

#[test]
fn framework_imports_register_once() {
    let mut ctx = LintContext::new("", jsx_source());
    ctx.register_solid_import("createSignal".to_string());
    ctx.register_solid_import("createSignal".to_string());
    ctx.register_solid_import("createMemo".to_string());
    assert!(ctx.is_solid_import("createSignal"));
    assert!(ctx.is_solid_import("createMemo"));
    assert!(!ctx.is_solid_import("createEffect"));
    assert_eq!(ctx.solid_imports().len(), 2);
}
