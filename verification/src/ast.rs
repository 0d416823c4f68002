//! The element tree that the lowering engine consumes.
//!
//! The parser hands the engine a tree of native elements, components,
//! fragments, text runs and expression containers. Expressions are carried
//! in two parts: the `shape`, which drives the static/dynamic classifier and
//! style folding, and the `code`, the serialized source text that the emitted
//! program quotes verbatim.

use vstd::prelude::*;

verus! {

/// The syntactic shape of an attribute or child expression, as far as the
/// engine needs to see it. Literal payloads are carried for style folding;
/// everything else is shape only.
pub enum Expr {
    /// A string literal and its value.
    StrLit(String),
    /// A numeric literal: its decimal rendering and whether it is exactly zero.
    NumLit { text: String, is_zero: bool },
    /// A boolean literal.
    BoolLit(bool),
    /// The null literal.
    NullLit,
    /// A template literal; `has_exprs` is true when it interpolates.
    TemplateLit { has_exprs: bool },
    /// A call expression.
    Call,
    /// A member access with a static property name.
    StaticMember,
    /// A member access with a computed property name.
    ComputedMember,
    /// An identifier reference.
    Ident,
    /// A conditional (ternary) expression.
    Conditional,
    /// A logical (`&&`, `||`, `??`) expression.
    Logical,
    /// A binary operator applied to two operands.
    Binary(Box<Expr>, Box<Expr>),
    /// A unary operator applied to one operand.
    Unary(Box<Expr>),
    /// An arrow function; its value is the function object itself.
    Arrow,
    /// A function expression; its value is the function object itself.
    Function,
    /// An object literal.
    Object(Vec<ObjectProp>),
    /// An array literal.
    Array(Vec<ArrayElem>),
    /// Any construct the engine does not inspect further.
    Other,
}

/// One entry of an object literal.
pub enum ObjectProp {
    /// A `key: value` property.
    Property { key: PropKey, value: Expr },
    /// A `...spread` entry.
    Spread(Expr),
}

/// The key of an object property.
pub enum PropKey {
    /// A plain identifier key.
    Ident(String),
    /// A string-literal key.
    StrKey(String),
    /// A computed key (`[expr]`).
    Computed,
}

/// One element of an array literal.
pub enum ArrayElem {
    /// A hole (`[, ,]`).
    Elision,
    /// A `...spread` element.
    Spread(Expr),
    /// An ordinary element.
    Item(Expr),
}

/// An expression together with its serialized source text.
pub struct SourceExpr {
    /// The source text quoted in the emitted program.
    pub code: String,
    /// The syntactic shape the classifier inspects.
    pub shape: Expr,
}

/// The name of a JSX element.
pub enum JsxName {
    /// A plain identifier tag, `div` or `Foo`.
    Ident(String),
    /// A namespaced tag, `ns:name`.
    Namespaced(String, String),
    /// A dotted member tag, `Foo.Bar.Baz`.
    Member(Box<MemberName>),
    /// The `this` expression used as a tag.
    This,
}

/// A dotted member tag: object part and final property.
pub struct MemberName {
    pub object: MemberObject,
    pub property: String,
}

/// The object part of a dotted member tag.
pub enum MemberObject {
    Ident(String),
    Member(Box<MemberName>),
    This,
}

/// The name of a JSX attribute.
pub enum AttrName {
    /// A plain name, `class`.
    Ident(String),
    /// A namespaced name, `on:click`.
    Namespaced(String, String),
}

/// The value of a JSX attribute.
pub enum AttrValue {
    /// No value was written: a boolean attribute.
    Absent,
    /// A string-literal value.
    StringLit(String),
    /// An expression container holding an expression.
    Container(SourceExpr),
    /// An expression container holding nothing (`{}` or a comment).
    EmptyContainer,
    /// A value shape the engine does not understand; it is skipped.
    Unsupported,
}

/// A single written attribute.
pub struct Attr {
    pub name: AttrName,
    pub value: AttrValue,
}

/// One entry of an opening element's attribute list.
pub enum AttrItem {
    /// An ordinary attribute.
    Attribute(Attr),
    /// A `{...props}` spread.
    Spread(SourceExpr),
}

/// One child of an element.
pub enum JsxChild {
    /// A text run.
    Text(String),
    /// A nested element, native or component.
    Element(Box<JsxElement>),
    /// An expression container holding an expression.
    Container(SourceExpr),
    /// An expression container holding nothing.
    EmptyContainer,
    /// A fragment; its children are inlined into the parent's walk.
    Fragment(Vec<JsxChild>),
    /// Any other child kind; it is ignored.
    Other,
}

/// A parsed JSX element.
pub struct JsxElement {
    pub name: JsxName,
    pub attributes: Vec<AttrItem>,
    pub children: Vec<JsxChild>,
}

} // verus!
