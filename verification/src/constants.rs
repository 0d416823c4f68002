//! The framework's closed, case-sensitive tables: built-in component names,
//! SVG and void element names, delegable events and attribute aliases.

use vstd::prelude::*;

use crate::text::str_eq;

verus! {

/// The framework-provided control-flow component names.
pub open spec fn spec_is_built_in(t: Seq<char>) -> bool {
    ||| t == "For"@
    ||| t == "Show"@
    ||| t == "Switch"@
    ||| t == "Match"@
    ||| t == "Suspense"@
    ||| t == "SuspenseList"@
    ||| t == "Portal"@
    ||| t == "Index"@
    ||| t == "Dynamic"@
    ||| t == "ErrorBoundary"@
}

/// Check if this is a built-in framework component (`For`, `Show`, …).
pub fn is_built_in(tag: &str) -> (r: bool)
    ensures
        r == spec_is_built_in(tag@),
{
    str_eq(tag, "For") || str_eq(tag, "Show") || str_eq(tag, "Switch") || str_eq(tag, "Match")
        || str_eq(tag, "Suspense") || str_eq(tag, "SuspenseList") || str_eq(tag, "Portal")
        || str_eq(tag, "Index") || str_eq(tag, "Dynamic") || str_eq(tag, "ErrorBoundary")
}

/// The SVG element names.
pub open spec fn spec_is_svg_element(t: Seq<char>) -> bool {
    ||| t == "animate"@
    ||| t == "animateMotion"@
    ||| t == "animateTransform"@
    ||| t == "circle"@
    ||| t == "clipPath"@
    ||| t == "defs"@
    ||| t == "desc"@
    ||| t == "ellipse"@
    ||| t == "feBlend"@
    ||| t == "feColorMatrix"@
    ||| t == "feComponentTransfer"@
    ||| t == "feComposite"@
    ||| t == "feConvolveMatrix"@
    ||| t == "feDiffuseLighting"@
    ||| t == "feDisplacementMap"@
    ||| t == "feDistantLight"@
    ||| t == "feDropShadow"@
    ||| t == "feFlood"@
    ||| t == "feFuncA"@
    ||| t == "feFuncB"@
    ||| t == "feFuncG"@
    ||| t == "feFuncR"@
    ||| t == "feGaussianBlur"@
    ||| t == "feImage"@
    ||| t == "feMerge"@
    ||| t == "feMergeNode"@
    ||| t == "feMorphology"@
    ||| t == "feOffset"@
    ||| t == "fePointLight"@
    ||| t == "feSpecularLighting"@
    ||| t == "feSpotLight"@
    ||| t == "feTile"@
    ||| t == "feTurbulence"@
    ||| t == "filter"@
    ||| t == "foreignObject"@
    ||| t == "g"@
    ||| t == "image"@
    ||| t == "line"@
    ||| t == "linearGradient"@
    ||| t == "marker"@
    ||| t == "mask"@
    ||| t == "metadata"@
    ||| t == "mpath"@
    ||| t == "path"@
    ||| t == "pattern"@
    ||| t == "polygon"@
    ||| t == "polyline"@
    ||| t == "radialGradient"@
    ||| t == "rect"@
    ||| t == "set"@
    ||| t == "stop"@
    ||| t == "svg"@
    ||| t == "switch"@
    ||| t == "symbol"@
    ||| t == "text"@
    ||| t == "textPath"@
    ||| t == "tspan"@
    ||| t == "use"@
    ||| t == "view"@
}

/// Check if this is an SVG element.
pub fn is_svg_element(tag: &str) -> (r: bool)
    ensures
        r == spec_is_svg_element(tag@),
{
    str_eq(tag, "animate") || str_eq(tag, "animateMotion") || str_eq(tag, "animateTransform")
        || str_eq(tag, "circle") || str_eq(tag, "clipPath") || str_eq(tag, "defs") || str_eq(
        tag,
        "desc",
    ) || str_eq(tag, "ellipse") || str_eq(tag, "feBlend") || str_eq(tag, "feColorMatrix")
        || str_eq(tag, "feComponentTransfer") || str_eq(tag, "feComposite") || str_eq(
        tag,
        "feConvolveMatrix",
    ) || str_eq(tag, "feDiffuseLighting") || str_eq(tag, "feDisplacementMap") || str_eq(
        tag,
        "feDistantLight",
    ) || str_eq(tag, "feDropShadow") || str_eq(tag, "feFlood") || str_eq(tag, "feFuncA") || str_eq(
        tag,
        "feFuncB",
    ) || str_eq(tag, "feFuncG") || str_eq(tag, "feFuncR") || str_eq(tag, "feGaussianBlur")
        || str_eq(tag, "feImage") || str_eq(tag, "feMerge") || str_eq(tag, "feMergeNode")
        || str_eq(tag, "feMorphology") || str_eq(tag, "feOffset") || str_eq(tag, "fePointLight")
        || str_eq(tag, "feSpecularLighting") || str_eq(tag, "feSpotLight") || str_eq(tag, "feTile")
        || str_eq(tag, "feTurbulence") || str_eq(tag, "filter") || str_eq(tag, "foreignObject")
        || str_eq(tag, "g") || str_eq(tag, "image") || str_eq(tag, "line") || str_eq(
        tag,
        "linearGradient",
    ) || str_eq(tag, "marker") || str_eq(tag, "mask") || str_eq(tag, "metadata") || str_eq(
        tag,
        "mpath",
    ) || str_eq(tag, "path") || str_eq(tag, "pattern") || str_eq(tag, "polygon") || str_eq(
        tag,
        "polyline",
    ) || str_eq(tag, "radialGradient") || str_eq(tag, "rect") || str_eq(tag, "set") || str_eq(
        tag,
        "stop",
    ) || str_eq(tag, "svg") || str_eq(tag, "switch") || str_eq(tag, "symbol") || str_eq(
        tag,
        "text",
    ) || str_eq(tag, "textPath") || str_eq(tag, "tspan") || str_eq(tag, "use") || str_eq(
        tag,
        "view",
    )
}

/// The void element names: tags that never take a closing tag.
pub open spec fn spec_is_void_element(t: Seq<char>) -> bool {
    ||| t == "area"@
    ||| t == "base"@
    ||| t == "br"@
    ||| t == "col"@
    ||| t == "embed"@
    ||| t == "hr"@
    ||| t == "img"@
    ||| t == "input"@
    ||| t == "link"@
    ||| t == "meta"@
    ||| t == "param"@
    ||| t == "source"@
    ||| t == "track"@
    ||| t == "wbr"@
}

/// Check if this is a void element.
pub fn is_void_element(tag: &str) -> (r: bool)
    ensures
        r == spec_is_void_element(tag@),
{
    str_eq(tag, "area") || str_eq(tag, "base") || str_eq(tag, "br") || str_eq(tag, "col")
        || str_eq(tag, "embed") || str_eq(tag, "hr") || str_eq(tag, "img") || str_eq(tag, "input")
        || str_eq(tag, "link") || str_eq(tag, "meta") || str_eq(tag, "param") || str_eq(
        tag,
        "source",
    ) || str_eq(tag, "track") || str_eq(tag, "wbr")
}

/// The events delegable by default through a document-level listener.
pub open spec fn spec_is_delegated_event(t: Seq<char>) -> bool {
    ||| t == "beforeinput"@
    ||| t == "click"@
    ||| t == "contextmenu"@
    ||| t == "dblclick"@
    ||| t == "focusin"@
    ||| t == "focusout"@
    ||| t == "input"@
    ||| t == "keydown"@
    ||| t == "keyup"@
    ||| t == "mousedown"@
    ||| t == "mouseup"@
    ||| t == "pointerdown"@
    ||| t == "pointerup"@
    ||| t == "touchend"@
    ||| t == "touchstart"@
}

/// Check if an event is in the default delegated set.
pub fn is_delegated_event(name: &str) -> (r: bool)
    ensures
        r == spec_is_delegated_event(name@),
{
    str_eq(name, "beforeinput") || str_eq(name, "click") || str_eq(name, "contextmenu") || str_eq(
        name,
        "dblclick",
    ) || str_eq(name, "focusin") || str_eq(name, "focusout") || str_eq(name, "input") || str_eq(
        name,
        "keydown",
    ) || str_eq(name, "keyup") || str_eq(name, "mousedown") || str_eq(name, "mouseup") || str_eq(
        name,
        "pointerdown",
    ) || str_eq(name, "pointerup") || str_eq(name, "touchend") || str_eq(name, "touchstart")
}

/// The attribute name actually written into the template for a given JSX
/// attribute key: `className` and `htmlFor` map to their HTML names; every
/// other key is itself.
pub open spec fn spec_alias_attr(k: Seq<char>) -> Seq<char> {
    if k == "className"@ {
        "class"@
    } else if k == "htmlFor"@ {
        "for"@
    } else {
        k
    }
}

/// Apply the alias map to an attribute key.
pub fn alias_attr(key: &str) -> (r: &str)
    ensures
        r@ == spec_alias_attr(key@),
{
    if str_eq(key, "className") {
        "class"
    } else if str_eq(key, "htmlFor") {
        "for"
    } else {
        key
    }
}

/// The CSS properties whose numeric values take no `px` suffix.
pub open spec fn spec_is_unitless(p: Seq<char>) -> bool {
    ||| p == "animation-iteration-count"@
    ||| p == "border-image-outset"@
    ||| p == "border-image-slice"@
    ||| p == "border-image-width"@
    ||| p == "box-flex"@
    ||| p == "box-flex-group"@
    ||| p == "box-ordinal-group"@
    ||| p == "column-count"@
    ||| p == "columns"@
    ||| p == "flex"@
    ||| p == "flex-grow"@
    ||| p == "flex-positive"@
    ||| p == "flex-shrink"@
    ||| p == "flex-negative"@
    ||| p == "flex-order"@
    ||| p == "grid-row"@
    ||| p == "grid-row-end"@
    ||| p == "grid-row-span"@
    ||| p == "grid-row-start"@
    ||| p == "grid-column"@
    ||| p == "grid-column-end"@
    ||| p == "grid-column-span"@
    ||| p == "grid-column-start"@
    ||| p == "font-weight"@
    ||| p == "line-clamp"@
    ||| p == "line-height"@
    ||| p == "opacity"@
    ||| p == "order"@
    ||| p == "orphans"@
    ||| p == "tab-size"@
    ||| p == "widows"@
    ||| p == "z-index"@
    ||| p == "zoom"@
    ||| p == "fill-opacity"@
    ||| p == "flood-opacity"@
    ||| p == "stop-opacity"@
    ||| p == "stroke-dasharray"@
    ||| p == "stroke-dashoffset"@
    ||| p == "stroke-miterlimit"@
    ||| p == "stroke-opacity"@
    ||| p == "stroke-width"@
}

/// Check if a CSS property needs a `px` suffix on numeric values.
pub fn needs_px_suffix(prop: &str) -> (r: bool)
    ensures
        r == !spec_is_unitless(prop@),
{
    let unitless = str_eq(prop, "animation-iteration-count") || str_eq(prop, "border-image-outset")
        || str_eq(prop, "border-image-slice") || str_eq(prop, "border-image-width") || str_eq(
        prop,
        "box-flex",
    ) || str_eq(prop, "box-flex-group") || str_eq(prop, "box-ordinal-group") || str_eq(
        prop,
        "column-count",
    ) || str_eq(prop, "columns") || str_eq(prop, "flex") || str_eq(prop, "flex-grow") || str_eq(
        prop,
        "flex-positive",
    ) || str_eq(prop, "flex-shrink") || str_eq(prop, "flex-negative") || str_eq(prop, "flex-order")
        || str_eq(prop, "grid-row") || str_eq(prop, "grid-row-end") || str_eq(
        prop,
        "grid-row-span",
    ) || str_eq(prop, "grid-row-start") || str_eq(prop, "grid-column") || str_eq(
        prop,
        "grid-column-end",
    ) || str_eq(prop, "grid-column-span") || str_eq(prop, "grid-column-start") || str_eq(
        prop,
        "font-weight",
    ) || str_eq(prop, "line-clamp") || str_eq(prop, "line-height") || str_eq(prop, "opacity")
        || str_eq(prop, "order") || str_eq(prop, "orphans") || str_eq(prop, "tab-size") || str_eq(
        prop,
        "widows",
    ) || str_eq(prop, "z-index") || str_eq(prop, "zoom") || str_eq(prop, "fill-opacity") || str_eq(
        prop,
        "flood-opacity",
    ) || str_eq(prop, "stop-opacity") || str_eq(prop, "stroke-dasharray") || str_eq(
        prop,
        "stroke-dashoffset",
    ) || str_eq(prop, "stroke-miterlimit") || str_eq(prop, "stroke-opacity") || str_eq(
        prop,
        "stroke-width",
    );
    !unitless
}

} // verus!
