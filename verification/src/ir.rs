//! The lowering engine's output forms: walk declarations, runtime statements,
//! dynamic bindings, the per-template block context, and the result record.

use vstd::prelude::*;

use crate::text::{push_decimal, spec_decimal, str_eq, chars_to_string};

verus! {

/// One navigation step of a DOM walk inside a cloned template.
#[derive(Clone, Copy, PartialEq, Eq, Structural)]
pub enum Step {
    FirstChild,
    NextSibling,
}

/// The source text of one walk step, with its leading dot.
pub open spec fn step_code(s: Step) -> Seq<char> {
    match s {
        Step::FirstChild => ".firstChild"@,
        Step::NextSibling => ".nextSibling"@,
    }
}

/// The source text of a walk, step by step.
pub open spec fn steps_code(steps: Seq<Step>) -> Seq<char>
    decreases steps.len(),
{
    if steps.len() == 0 {
        Seq::empty()
    } else {
        steps_code(steps.drop_last()) + step_code(steps.last())
    }
}

/// The right-hand side of a walk declaration: a root name followed by
/// `firstChild`/`nextSibling` steps.
pub struct WalkInit {
    pub root: String,
    pub steps: Vec<Step>,
}

impl WalkInit {
    /// The source text of the whole walk, `root.firstChild.nextSibling…`.
    pub open spec fn spec_code(&self) -> Seq<char> {
        self.root@ + steps_code(self.steps@)
    }

    /// Render the walk as source text.
    pub fn code(&self) -> (r: String)
        ensures
            r@ == self.spec_code(),
    {
        let mut out = self.root.clone();
        let mut i: usize = 0;
        while i < self.steps.len()
            invariant
                0 <= i <= self.steps@.len(),
                out@ == self.root@ + steps_code(self.steps@.subrange(0, i as int)),
            decreases self.steps@.len() - i,
        {
            match self.steps[i] {
                Step::FirstChild => out.append(".firstChild"),
                Step::NextSibling => out.append(".nextSibling"),
            }
            proof {
                assert(self.steps@.subrange(0, i + 1).drop_last() =~= self.steps@.subrange(
                    0,
                    i as int,
                ));
                assert(self.steps@.subrange(0, i + 1).last() == self.steps@[i as int]);
            }
            i = i + 1;
        }
        proof {
            assert(self.steps@.subrange(0, self.steps@.len() as int) =~= self.steps@);
        }
        out
    }
}

/// A local declaration binding a walker name to a DOM node.
pub struct Declaration {
    pub name: String,
    pub init: WalkInit,
}

/// A reactive attribute binding, re-evaluated inside one shared effect.
pub struct DynamicBinding {
    pub elem: String,
    pub key: String,
    pub value: String,
    pub is_svg: bool,
    pub is_ce: bool,
    pub tag_name: String,
}

/// One runtime statement the lowering emits.
pub enum Stmt {
    /// `spread(elem, value, is_svg, has_children)`.
    Spread { elem: String, value: String, is_svg: bool, has_children: bool },
    /// `(func)(elem)`: an inline ref callback applied to the element.
    RefInvoke { func: String, elem: String },
    /// `typeof t === "function" ? t(elem) : t = elem`: a ref variable.
    RefDispatch { target: String, elem: String },
    /// `elem.$$event = handler`: a delegated event handler.
    DelegatedEvent { elem: String, event: String, handler: String },
    /// `addEventListener(elem, "event", handler, capture)`.
    Listen { elem: String, event: String, handler: String, capture: bool },
    /// `use(name, elem, value)`: a directive.
    Directive { name: String, elem: String, value: String },
    /// `elem.prop = value`, wrapped as `effect(() => …)` when `effect` holds.
    PropAssign { elem: String, prop: String, value: String, effect: bool },
    /// `effect(() => elem.setAttribute("attr", value))`.
    AttrEffect { elem: String, attr: String, value: String },
    /// `style(elem, value)`, wrapped as `effect(() => …)` when `effect` holds.
    StyleCall { elem: String, value: String, effect: bool },
    /// `insert(parent, value)` or `insert(parent, value, marker)`.
    Insert { parent: String, value: String, marker: Option<String> },
    /// A bare expression statement, as a component transformer produces.
    Expr { code: String },
}

/// The element name a statement operates on, if it names one.
pub open spec fn stmt_elem(s: Stmt) -> Option<Seq<char>> {
    match s {
        Stmt::Spread { elem, .. } => Some(elem@),
        Stmt::RefInvoke { elem, .. } => Some(elem@),
        Stmt::RefDispatch { elem, .. } => Some(elem@),
        Stmt::DelegatedEvent { elem, .. } => Some(elem@),
        Stmt::Listen { elem, .. } => Some(elem@),
        Stmt::Directive { elem, .. } => Some(elem@),
        Stmt::PropAssign { elem, .. } => Some(elem@),
        Stmt::AttrEffect { elem, .. } => Some(elem@),
        Stmt::StyleCall { elem, .. } => Some(elem@),
        Stmt::Insert { parent, .. } => Some(parent@),
        Stmt::Expr { .. } => None,
    }
}

/// The source text of a statement.
pub open spec fn spec_stmt_code(s: Stmt) -> Seq<char> {
    match s {
        Stmt::Spread { elem, value, is_svg, has_children } => "spread("@ + elem@ + ", "@ + value@
            + ", "@ + spec_bool_code(is_svg) + ", "@ + spec_bool_code(has_children) + ")"@,
        Stmt::RefInvoke { func, elem } => "("@ + func@ + ")("@ + elem@ + ")"@,
        Stmt::RefDispatch { target, elem } => "typeof "@ + target@ + " === \"function\" ? "@
            + target@ + "("@ + elem@ + ") : "@ + target@ + " = "@ + elem@,
        Stmt::DelegatedEvent { elem, event, handler } => elem@ + ".$$"@ + event@ + " = "@
            + handler@,
        Stmt::Listen { elem, event, handler, capture } => "addEventListener("@ + elem@ + ", \""@
            + event@ + "\", "@ + handler@ + ", "@ + spec_bool_code(capture) + ")"@,
        Stmt::Directive { name, elem, value } => "use("@ + name@ + ", "@ + elem@ + ", "@ + value@
            + ")"@,
        Stmt::PropAssign { elem, prop, value, effect } => if effect {
            "effect(() => "@ + elem@ + "."@ + prop@ + " = "@ + value@ + ")"@
        } else {
            elem@ + "."@ + prop@ + " = "@ + value@
        },
        Stmt::AttrEffect { elem, attr, value } => "effect(() => "@ + elem@ + ".setAttribute(\""@
            + attr@ + "\", "@ + value@ + "))"@,
        Stmt::StyleCall { elem, value, effect } => if effect {
            "effect(() => style("@ + elem@ + ", "@ + value@ + "))"@
        } else {
            "style("@ + elem@ + ", "@ + value@ + ")"@
        },
        Stmt::Insert { parent, value, marker } => match marker {
            Some(m) => "insert("@ + parent@ + ", "@ + value@ + ", "@ + m@ + ")"@,
            None => "insert("@ + parent@ + ", "@ + value@ + ")"@,
        },
        Stmt::Expr { code } => code@,
    }
}

/// The source text of a boolean.
pub open spec fn spec_bool_code(b: bool) -> Seq<char> {
    if b {
        "true"@
    } else {
        "false"@
    }
}

impl Stmt {
    /// Render the statement as source text.
    pub fn code(&self) -> (r: String)
        ensures
            r@ == spec_stmt_code(*self),
    {
        let mut out = String::new();
        match self {
            Stmt::Spread { elem, value, is_svg, has_children } => {
                out.append("spread(");
                out.append(elem.as_str());
                out.append(", ");
                out.append(value.as_str());
                out.append(", ");
                out.append(if *is_svg { "true" } else { "false" });
                out.append(", ");
                out.append(if *has_children { "true" } else { "false" });
                out.append(")");
            },
            Stmt::RefInvoke { func, elem } => {
                out.append("(");
                out.append(func.as_str());
                out.append(")(");
                out.append(elem.as_str());
                out.append(")");
            },
            Stmt::RefDispatch { target, elem } => {
                out.append("typeof ");
                out.append(target.as_str());
                out.append(" === \"function\" ? ");
                out.append(target.as_str());
                out.append("(");
                out.append(elem.as_str());
                out.append(") : ");
                out.append(target.as_str());
                out.append(" = ");
                out.append(elem.as_str());
            },
            Stmt::DelegatedEvent { elem, event, handler } => {
                out.append(elem.as_str());
                out.append(".$$");
                out.append(event.as_str());
                out.append(" = ");
                out.append(handler.as_str());
            },
            Stmt::Listen { elem, event, handler, capture } => {
                out.append("addEventListener(");
                out.append(elem.as_str());
                out.append(", \"");
                out.append(event.as_str());
                out.append("\", ");
                out.append(handler.as_str());
                out.append(", ");
                out.append(if *capture { "true" } else { "false" });
                out.append(")");
            },
            Stmt::Directive { name, elem, value } => {
                out.append("use(");
                out.append(name.as_str());
                out.append(", ");
                out.append(elem.as_str());
                out.append(", ");
                out.append(value.as_str());
                out.append(")");
            },
            Stmt::PropAssign { elem, prop, value, effect } => {
                if *effect {
                    out.append("effect(() => ");
                }
                out.append(elem.as_str());
                out.append(".");
                out.append(prop.as_str());
                out.append(" = ");
                out.append(value.as_str());
                if *effect {
                    out.append(")");
                }
            },
            Stmt::AttrEffect { elem, attr, value } => {
                out.append("effect(() => ");
                out.append(elem.as_str());
                out.append(".setAttribute(\"");
                out.append(attr.as_str());
                out.append("\", ");
                out.append(value.as_str());
                out.append("))");
            },
            Stmt::StyleCall { elem, value, effect } => {
                if *effect {
                    out.append("effect(() => style(");
                } else {
                    out.append("style(");
                }
                out.append(elem.as_str());
                out.append(", ");
                out.append(value.as_str());
                if *effect {
                    out.append("))");
                } else {
                    out.append(")");
                }
            },
            Stmt::Insert { parent, value, marker } => {
                out.append("insert(");
                out.append(parent.as_str());
                out.append(", ");
                out.append(value.as_str());
                if let Some(m) = marker {
                    out.append(", ");
                    out.append(m.as_str());
                }
                out.append(")");
            },
            Stmt::Expr { code } => {
                out.append(code.as_str());
            },
        }
        proof {
            assert(out@ =~= spec_stmt_code(*self));
        }
        out
    }
}

/// The marker name a statement anchors on, if any.
pub open spec fn stmt_marker(s: Stmt) -> Option<Seq<char>> {
    match s {
        Stmt::Insert { marker: Some(m), .. } => Some(m@),
        _ => None,
    }
}

/// How many statements are three-argument inserts: inserts anchored on a
/// marker.
pub open spec fn marker_inserts(es: Seq<Stmt>) -> nat
    decreases es.len(),
{
    if es.len() == 0 {
        0
    } else {
        marker_inserts(es.drop_last()) + (if stmt_marker(es.last()) is Some {
            1nat
        } else {
            0nat
        })
    }
}

/// Marker-insert counting distributes over appending.
pub proof fn lemma_marker_inserts_append(a: Seq<Stmt>, b: Seq<Stmt>)
    ensures
        marker_inserts(a + b) == marker_inserts(a) + marker_inserts(b),
    decreases b.len(),
{
    if b.len() == 0 {
        assert(a + b =~= a);
    } else {
        assert((a + b).drop_last() =~= a + b.drop_last());
        lemma_marker_inserts_append(a, b.drop_last());
        assert((a + b).last() == b.last());
    }
}

/// Extending with statements that anchor no marker keeps the count.
pub proof fn lemma_marker_inserts_extend(a: Seq<Stmt>, b: Seq<Stmt>)
    requires
        seq_extends(a, b),
        forall|k: int| a.len() <= k < b.len() ==> stmt_marker(#[trigger] b[k]) is None,
    ensures
        marker_inserts(b) == marker_inserts(a),
    decreases b.len(),
{
    if b.len() == a.len() {
        assert(b =~= a);
    } else {
        assert(seq_extends(a, b.drop_last())) by {
            assert(b.drop_last().subrange(0, a.len() as int) =~= b.subrange(0, a.len() as int));
        }
        lemma_marker_inserts_extend(a, b.drop_last());
        assert(stmt_marker(b.last()) is None);
    }
}

/// The mathematical content of a statement: its fields by character
/// sequence.
pub ghost enum StmtView {
    Spread { elem: Seq<char>, value: Seq<char>, is_svg: bool, has_children: bool },
    RefInvoke { func: Seq<char>, elem: Seq<char> },
    RefDispatch { target: Seq<char>, elem: Seq<char> },
    DelegatedEvent { elem: Seq<char>, event: Seq<char>, handler: Seq<char> },
    Listen { elem: Seq<char>, event: Seq<char>, handler: Seq<char>, capture: bool },
    Directive { name: Seq<char>, elem: Seq<char>, value: Seq<char> },
    PropAssign { elem: Seq<char>, prop: Seq<char>, value: Seq<char>, effect: bool },
    AttrEffect { elem: Seq<char>, attr: Seq<char>, value: Seq<char> },
    StyleCall { elem: Seq<char>, value: Seq<char>, effect: bool },
    Insert { parent: Seq<char>, value: Seq<char>, marker: Option<Seq<char>> },
    Expr { code: Seq<char> },
}

/// The view of one statement.
pub open spec fn stmt_view(s: Stmt) -> StmtView {
    match s {
        Stmt::Spread { elem, value, is_svg, has_children } => StmtView::Spread {
            elem: elem@,
            value: value@,
            is_svg,
            has_children,
        },
        Stmt::RefInvoke { func, elem } => StmtView::RefInvoke { func: func@, elem: elem@ },
        Stmt::RefDispatch { target, elem } => StmtView::RefDispatch {
            target: target@,
            elem: elem@,
        },
        Stmt::DelegatedEvent { elem, event, handler } => StmtView::DelegatedEvent {
            elem: elem@,
            event: event@,
            handler: handler@,
        },
        Stmt::Listen { elem, event, handler, capture } => StmtView::Listen {
            elem: elem@,
            event: event@,
            handler: handler@,
            capture,
        },
        Stmt::Directive { name, elem, value } => StmtView::Directive {
            name: name@,
            elem: elem@,
            value: value@,
        },
        Stmt::PropAssign { elem, prop, value, effect } => StmtView::PropAssign {
            elem: elem@,
            prop: prop@,
            value: value@,
            effect,
        },
        Stmt::AttrEffect { elem, attr, value } => StmtView::AttrEffect {
            elem: elem@,
            attr: attr@,
            value: value@,
        },
        Stmt::StyleCall { elem, value, effect } => StmtView::StyleCall {
            elem: elem@,
            value: value@,
            effect,
        },
        Stmt::Insert { parent, value, marker } => StmtView::Insert {
            parent: parent@,
            value: value@,
            marker: opt_view(marker),
        },
        Stmt::Expr { code } => StmtView::Expr { code: code@ },
    }
}

/// The view of a statement list.
pub open spec fn stmts_view(es: Seq<Stmt>) -> Seq<StmtView> {
    es.map_values(|s: Stmt| stmt_view(s))
}

/// The mathematical content of a dynamic binding.
pub ghost struct DynView {
    pub elem: Seq<char>,
    pub key: Seq<char>,
    pub value: Seq<char>,
    pub is_svg: bool,
    pub is_ce: bool,
    pub tag_name: Seq<char>,
}

/// The view of one dynamic binding.
pub open spec fn dyn_view(d: DynamicBinding) -> DynView {
    DynView {
        elem: d.elem@,
        key: d.key@,
        value: d.value@,
        is_svg: d.is_svg,
        is_ce: d.is_ce,
        tag_name: d.tag_name@,
    }
}

/// The view of a binding list.
pub open spec fn dyns_view(ds: Seq<DynamicBinding>) -> Seq<DynView> {
    ds.map_values(|d: DynamicBinding| dyn_view(d))
}

/// The mathematical content of a walk declaration.
pub ghost struct DeclView {
    pub name: Seq<char>,
    pub root: Seq<char>,
    pub steps: Seq<Step>,
}

/// The view of one declaration.
pub open spec fn decl_view(d: Declaration) -> DeclView {
    DeclView { name: d.name@, root: d.init.root@, steps: d.init.steps@ }
}

/// The view of a declaration list.
pub open spec fn decls_view(ds: Seq<Declaration>) -> Seq<DeclView> {
    ds.map_values(|d: Declaration| decl_view(d))
}

/// The mathematical content of a block context.
pub ghost struct CtxView {
    pub uid: u64,
    pub helpers: Seq<Seq<char>>,
    pub delegated: Seq<Seq<char>>,
}

/// The view of a block context.
pub open spec fn ctx_view(c: BlockContext) -> CtxView {
    CtxView { uid: c.uid_count, helpers: c.helpers.deep_view(), delegated: c.delegated.deep_view() }
}

/// Pushing one statement pushes its view.
pub proof fn lemma_stmts_view_push(es: Seq<Stmt>, s: Stmt)
    ensures
        stmts_view(es.push(s)) == stmts_view(es).push(stmt_view(s)),
{
    assert(stmts_view(es.push(s)) =~= stmts_view(es).push(stmt_view(s)));
}

/// Pushing one binding pushes its view.
pub proof fn lemma_dyns_view_push(ds: Seq<DynamicBinding>, d: DynamicBinding)
    ensures
        dyns_view(ds.push(d)) == dyns_view(ds).push(dyn_view(d)),
{
    assert(dyns_view(ds.push(d)) =~= dyns_view(ds).push(dyn_view(d)));
}

/// Pushing one declaration pushes its view.
pub proof fn lemma_decls_view_push(ds: Seq<Declaration>, d: Declaration)
    ensures
        decls_view(ds.push(d)) == decls_view(ds).push(decl_view(d)),
{
    assert(decls_view(ds.push(d)) =~= decls_view(ds).push(decl_view(d)));
}

/// A list one longer whose prefix is kept is a push of its last entry.
pub proof fn lemma_is_push<A>(a: Seq<A>, b: Seq<A>)
    requires
        b.len() == a.len() + 1,
        b.subrange(0, a.len() as int) == a,
    ensures
        b == a.push(b.last()),
{
    assert(b =~= a.push(b.last()));
}

/// The result of lowering one element.
pub struct TransformResult {
    /// The owner tag, informational.
    pub tag_name: Option<String>,
    /// Whether the element or a descendant is an SVG element.
    pub is_svg: bool,
    /// Whether the element or a descendant is a custom element.
    pub has_custom_element: bool,
    /// The element's bound name, if one was issued.
    pub id: Option<String>,
    /// The running HTML, without closing tags for the portion still open.
    pub template: String,
    /// The same content, with every open native tag closed.
    pub template_with_closing_tags: String,
    /// Walker declarations, in DOM-walk order.
    pub declarations: Vec<Declaration>,
    /// Runtime statements, in attribute order then child order.
    pub exprs: Vec<Stmt>,
    /// Reactive attribute bindings.
    pub dynamics: Vec<DynamicBinding>,
}

/// Immutable per-recursion context for one element.
pub struct TransformInfo {
    /// The name bound to the cloned template root, if one exists yet.
    pub root_id: Option<String>,
    /// The walk from `root_id` to the current element.
    pub path: Vec<Step>,
    /// Whether this is the outermost element of the template.
    pub top_level: bool,
    /// The caller forbids issuing an id for this element.
    pub skip_id: bool,
}

/// Options that influence the lowering.
pub struct TransformOptions {
    /// When false, the event-delegation fast path is disabled.
    pub delegate_events: bool,
    /// Extra event names the user allows to be delegated.
    pub delegated_events: Vec<String>,
}

/// The fresh name the context yields for a prefix at a given count: the bare
/// prefix first, then `prefix2`, `prefix3`, …. The count saturates at its
/// machine limit.
pub open spec fn spec_uid(prefix: Seq<char>, k: u64) -> Seq<char> {
    let k1: u64 = if k < u64::MAX {
        (k + 1) as u64
    } else {
        k
    };
    if k1 == 1 {
        prefix
    } else {
        prefix + spec_decimal(k1 as nat)
    }
}

/// A name sequence with `name` registered once: unchanged if present,
/// appended otherwise.
pub open spec fn names_with(names: Seq<Seq<char>>, name: Seq<char>) -> Seq<Seq<char>> {
    if names.contains(name) {
        names
    } else {
        names.push(name)
    }
}

/// Mutable state shared across the whole template being compiled: the UID
/// counter, the helper-import registry and the delegated-event registry.
pub struct BlockContext {
    /// How many names have been issued.
    pub uid_count: u64,
    /// Names of runtime helpers that must be imported.
    pub helpers: Vec<String>,
    /// Names of events for which delegation must be registered.
    pub delegated: Vec<String>,
}

impl BlockContext {
    /// A fresh context: no names issued, nothing registered.
    pub fn new() -> (r: BlockContext)
        ensures
            r.uid_count == 0,
            r.helpers@.len() == 0,
            r.delegated@.len() == 0,
    {
        BlockContext { uid_count: 0, helpers: Vec::new(), delegated: Vec::new() }
    }

    /// Yield a fresh name with the given prefix and advance the counter. The
    /// counter saturates at its machine limit, where freshness ends.
    pub fn generate_uid(&mut self, prefix: &str) -> (r: String)
        ensures
            r@ == spec_uid(prefix@, old(self).uid_count),
            final(self).uid_count as int == if old(self).uid_count < u64::MAX {
                old(self).uid_count + 1
            } else {
                old(self).uid_count as int
            },
            final(self).helpers == old(self).helpers,
            final(self).delegated == old(self).delegated,
    {
        let k = self.uid_count;
        let k1: u64 = if k < u64::MAX {
            k + 1
        } else {
            k
        };
        self.uid_count = k1;
        if k1 == 1 {
            prefix.to_owned()
        } else {
            let mut digits: Vec<char> = Vec::new();
            push_decimal(k1, &mut digits);
            let mut out = prefix.to_owned();
            let tail = chars_to_string(&digits);
            out.append(tail.as_str());
            out
        }
    }

    /// Record that the compilation unit must import a runtime helper.
    pub fn register_helper(&mut self, name: &str)
        ensures
            final(self).helpers.deep_view() == names_with(old(self).helpers.deep_view(), name@),
            final(self).uid_count == old(self).uid_count,
            final(self).delegated == old(self).delegated,
    {
        let found = contains_name(&self.helpers, name);
        if !found {
            self.helpers.push(name.to_owned());
            proof {
                assert(self.helpers.deep_view() =~= old(self).helpers.deep_view().push(name@));
            }
        }
    }

    /// Record that the compilation unit must register a delegated event.
    pub fn register_delegate(&mut self, name: &str)
        ensures
            final(self).delegated.deep_view() == names_with(old(self).delegated.deep_view(), name@),
            final(self).uid_count == old(self).uid_count,
            final(self).helpers == old(self).helpers,
    {
        let found = contains_name(&self.delegated, name);
        if !found {
            self.delegated.push(name.to_owned());
            proof {
                assert(self.delegated.deep_view() =~= old(self).delegated.deep_view().push(name@));
            }
        }
    }
}

/// Whether `n` begins with `o`: the old sequence is kept and only appended to.
pub open spec fn seq_extends<A>(o: Seq<A>, n: Seq<A>) -> bool {
    o.len() <= n.len() && n.subrange(0, o.len() as int) == o
}

/// A sequence extends itself.
pub proof fn lemma_extends_refl<A>(s: Seq<A>)
    ensures
        seq_extends(s, s),
{
    assert(s.subrange(0, s.len() as int) =~= s);
}

/// Pushing extends.
pub proof fn lemma_extends_push<A>(s: Seq<A>, x: A)
    ensures
        seq_extends(s, s.push(x)),
{
    assert(s.push(x).subrange(0, s.len() as int) =~= s);
}

/// Appending extends.
pub proof fn lemma_extends_append<A>(s: Seq<A>, p: Seq<A>)
    ensures
        seq_extends(s, s + p),
{
    assert((s + p).subrange(0, s.len() as int) =~= s);
}

/// Extension is transitive.
pub proof fn lemma_extends_trans<A>(a: Seq<A>, b: Seq<A>, c: Seq<A>)
    requires
        seq_extends(a, b),
        seq_extends(b, c),
    ensures
        seq_extends(a, c),
{
    assert(c.subrange(0, a.len() as int) =~= b.subrange(0, a.len() as int));
}

/// The character sequence of an optional name.
pub open spec fn opt_view(o: Option<String>) -> Option<Seq<char>> {
    match o {
        Some(s) => Some(s@),
        None => None,
    }
}

/// Whether a list of names holds one with the given characters.
pub fn contains_name(names: &Vec<String>, name: &str) -> (r: bool)
    ensures
        r == names.deep_view().contains(name@),
{
    let mut i: usize = 0;
    while i < names.len()
        invariant
            0 <= i <= names@.len(),
            forall|j: int| 0 <= j < i ==> names.deep_view()[j] != name@,
        decreases names@.len() - i,
    {
        if str_eq(names[i].as_str(), name) {
            proof {
                assert(names.deep_view()[i as int] == name@);
            }
            return true;
        }
        i = i + 1;
    }
    proof {
        assert(!names.deep_view().contains(name@));
    }
    false
}

} // verus!
