//! The shared context lint rules run against: the source text and its kind,
//! collected diagnostics, and symbol tracking for used variables, component
//! detection and framework imports. Symbols are tracked by their numeric
//! ids; scope resolution itself lives with the semantic analyzer outside
//! this crate.

use vstd::prelude::*;

use crate::ir::{contains_name, names_with};

verus! {

/// What kind of source is being linted.
#[derive(Clone, Copy, PartialEq, Eq, Structural)]
pub struct SourceType {
    /// The source may hold JSX.
    pub jsx: bool,
    /// The source is TypeScript.
    pub typescript: bool,
}

/// One reported finding: a message over a character span of the source.
pub struct Diagnostic {
    pub message: String,
    pub start: usize,
    pub end: usize,
}

/// A numeric id sequence with `id` registered once.
pub open spec fn ids_with(ids: Seq<u32>, id: u32) -> Seq<u32> {
    if ids.contains(id) {
        ids
    } else {
        ids.push(id)
    }
}

/// Context passed to rules during linting.
pub struct LintContext {
    /// Source code being linted.
    source_text: String,
    /// Source kind.
    source_type: SourceType,
    /// Collected diagnostics.
    diagnostics: Vec<Diagnostic>,
    /// Symbols that have been used.
    symbols_used: Vec<u32>,
    /// Symbols known to be components.
    component_symbols: Vec<u32>,
    /// Names imported from the framework.
    solid_imports: Vec<String>,
}

impl LintContext {
    /// The tracked used symbols, abstractly.
    pub closed spec fn spec_used(&self) -> Seq<u32> {
        self.symbols_used@
    }

    /// The tracked component symbols, abstractly.
    pub closed spec fn spec_components(&self) -> Seq<u32> {
        self.component_symbols@
    }

    /// The registered framework imports, abstractly.
    pub closed spec fn spec_imports(&self) -> Seq<Seq<char>> {
        self.solid_imports.deep_view()
    }

    /// The collected diagnostics, abstractly.
    pub closed spec fn spec_diagnostics(&self) -> Seq<Diagnostic> {
        self.diagnostics@
    }

    /// The source text, abstractly.
    pub closed spec fn spec_source_text(&self) -> Seq<char> {
        self.source_text@
    }

    /// The source kind, abstractly.
    pub closed spec fn spec_source_type(&self) -> SourceType {
        self.source_type
    }

    /// A fresh context over a source: nothing reported, nothing tracked.
    pub fn new(source_text: &str, source_type: SourceType) -> (r: LintContext)
        ensures
            r.spec_source_text() == source_text@,
            r.spec_source_type() == source_type,
            r.spec_diagnostics().len() == 0,
            r.spec_used().len() == 0,
            r.spec_components().len() == 0,
            r.spec_imports().len() == 0,
    {
        LintContext {
            source_text: source_text.to_owned(),
            source_type,
            diagnostics: Vec::new(),
            symbols_used: Vec::new(),
            component_symbols: Vec::new(),
            solid_imports: Vec::new(),
        }
    }

    /// Get the source text.
    pub fn source_text(&self) -> (r: &str)
        ensures
            r@ == self.spec_source_text(),
    {
        self.source_text.as_str()
    }

    /// Get the source kind.
    pub fn source_type(&self) -> (r: SourceType)
        ensures
            r == self.spec_source_type(),
    {
        self.source_type
    }

    /// Check if the source may hold JSX.
    pub fn is_jsx(&self) -> (r: bool)
        ensures
            r == self.spec_source_type().jsx,
    {
        self.source_type.jsx
    }

    /// Check if the source is TypeScript.
    pub fn is_typescript(&self) -> (r: bool)
        ensures
            r == self.spec_source_type().typescript,
    {
        self.source_type.typescript
    }

    /// Report a diagnostic.
    pub fn report(&mut self, diagnostic: Diagnostic)
        ensures
            final(self).spec_diagnostics() == old(self).spec_diagnostics().push(diagnostic),
            final(self).spec_source_text() == old(self).spec_source_text(),
            final(self).spec_source_type() == old(self).spec_source_type(),
            final(self).spec_used() == old(self).spec_used(),
            final(self).spec_components() == old(self).spec_components(),
            final(self).spec_imports() == old(self).spec_imports(),
    {
        self.diagnostics.push(diagnostic);
    }

    /// Get a slice of the source for a character span.
    pub fn span_text(&self, start: usize, end: usize) -> (r: &str)
        requires
            start <= end <= self.spec_source_text().len(),
        ensures
            r@ == self.spec_source_text().subrange(start as int, end as int),
    {
        self.source_text.as_str().substring_char(start, end)
    }

    /// Consume the context and return all diagnostics.
    pub fn into_diagnostics(self) -> (r: Vec<Diagnostic>)
        ensures
            r@ == self.spec_diagnostics(),
    {
        self.diagnostics
    }

    /// Get the diagnostics collected so far.
    pub fn diagnostics(&self) -> (r: &Vec<Diagnostic>)
        ensures
            r@ == self.spec_diagnostics(),
    {
        &self.diagnostics
    }

    /// Mark a symbol as used.
    pub fn mark_used(&mut self, symbol_id: u32)
        ensures
            final(self).spec_used() == ids_with(old(self).spec_used(), symbol_id),
            final(self).spec_components() == old(self).spec_components(),
            final(self).spec_imports() == old(self).spec_imports(),
            final(self).spec_diagnostics() == old(self).spec_diagnostics(),
            final(self).spec_source_text() == old(self).spec_source_text(),
            final(self).spec_source_type() == old(self).spec_source_type(),
    {
        if !contains_id(&self.symbols_used, symbol_id) {
            self.symbols_used.push(symbol_id);
        }
    }

    /// Check if a symbol is marked as used.
    pub fn is_used(&self, symbol_id: u32) -> (r: bool)
        ensures
            r == self.spec_used().contains(symbol_id),
    {
        contains_id(&self.symbols_used, symbol_id)
    }

    /// Get all used symbols.
    pub fn used_symbols(&self) -> (r: &Vec<u32>)
        ensures
            r@ == self.spec_used(),
    {
        &self.symbols_used
    }

    /// Mark a symbol as a component.
    pub fn mark_component(&mut self, symbol_id: u32)
        ensures
            final(self).spec_components() == ids_with(old(self).spec_components(), symbol_id),
            final(self).spec_used() == old(self).spec_used(),
            final(self).spec_imports() == old(self).spec_imports(),
            final(self).spec_diagnostics() == old(self).spec_diagnostics(),
            final(self).spec_source_text() == old(self).spec_source_text(),
            final(self).spec_source_type() == old(self).spec_source_type(),
    {
        if !contains_id(&self.component_symbols, symbol_id) {
            self.component_symbols.push(symbol_id);
        }
    }

    /// Check if a symbol is a known component.
    pub fn is_component(&self, symbol_id: u32) -> (r: bool)
        ensures
            r == self.spec_components().contains(symbol_id),
    {
        contains_id(&self.component_symbols, symbol_id)
    }

    /// Get all component symbols.
    pub fn component_symbols(&self) -> (r: &Vec<u32>)
        ensures
            r@ == self.spec_components(),
    {
        &self.component_symbols
    }

    /// Register a framework import, such as a signal or memo constructor.
    pub fn register_solid_import(&mut self, name: String)
        ensures
            final(self).spec_imports() == names_with(old(self).spec_imports(), name@),
            final(self).spec_used() == old(self).spec_used(),
            final(self).spec_components() == old(self).spec_components(),
            final(self).spec_diagnostics() == old(self).spec_diagnostics(),
            final(self).spec_source_text() == old(self).spec_source_text(),
            final(self).spec_source_type() == old(self).spec_source_type(),
    {
        if !contains_name(&self.solid_imports, name.as_str()) {
            self.solid_imports.push(name);
            proof {
                assert(self.solid_imports.deep_view() =~= old(
                    self,
                ).solid_imports.deep_view().push(self.solid_imports@.last()@));
            }
        }
    }

    /// Check if a name is a known framework import.
    pub fn is_solid_import(&self, name: &str) -> (r: bool)
        ensures
            r == self.spec_imports().contains(name@),
    {
        contains_name(&self.solid_imports, name)
    }

    /// Get all registered framework imports.
    pub fn solid_imports(&self) -> (r: &Vec<String>)
        ensures
            r.deep_view() == self.spec_imports(),
    {
        &self.solid_imports
    }
}

/// Membership test for a numeric id.
fn contains_id(ids: &Vec<u32>, id: u32) -> (r: bool)
    ensures
        r == ids@.contains(id),
{
    let mut i: usize = 0;
    while i < ids.len()
        invariant
            0 <= i <= ids@.len(),
            forall|j: int| 0 <= j < i ==> ids@[j] != id,
        decreases ids@.len() - i,
    {
        if ids[i] == id {
            return true;
        }
        i = i + 1;
    }
    proof {
        assert(!ids@.contains(id));
    }
    false
}

} // verus!
