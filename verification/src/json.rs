//! The shape in which symbols appear in machine-readable output.

use vstd::prelude::*;

verus! {

/// A reference to a symbol, as emitted in JSON payloads.
#[derive(Debug)]
pub struct SymbolRef {
    pub name: String,
    pub qualified_name: Option<String>,
    pub kind: String,
    pub file: String,
    pub line_start: i64,
    pub line_end: i64,
}

/// The abstract value of a [`SymbolRef`]: its strings as character sequences.
pub struct SymbolRefView {
    pub name: Seq<char>,
    pub qualified_name: Option<Seq<char>>,
    pub kind: Seq<char>,
    pub file: Seq<char>,
    pub line_start: i64,
    pub line_end: i64,
}

/// The character sequence of an optional string.
pub open spec fn opt_view(o: Option<String>) -> Option<Seq<char>> {
    match o {
        Some(s) => Some(s@),
        None => None,
    }
}

/// A copy of an optional string.
pub fn copy_opt(o: &Option<String>) -> (r: Option<String>)
    ensures
        opt_view(r) == opt_view(*o),
{
    match o {
        Some(s) => Some(s.clone()),
        None => None,
    }
}

impl View for SymbolRef {
    type V = SymbolRefView;

    open spec fn view(&self) -> SymbolRefView {
        SymbolRefView {
            name: self.name@,
            qualified_name: opt_view(self.qualified_name),
            kind: self.kind@,
            file: self.file@,
            line_start: self.line_start,
            line_end: self.line_end,
        }
    }
}

impl SymbolRef {
    /// A field-by-field copy.
    pub fn copy(&self) -> (r: SymbolRef)
        ensures
            r@ == self@,
    {
        SymbolRef {
            name: self.name.clone(),
            qualified_name: copy_opt(&self.qualified_name),
            kind: self.kind.clone(),
            file: self.file.clone(),
            line_start: self.line_start,
            line_end: self.line_end,
        }
    }
}

} // verus!
