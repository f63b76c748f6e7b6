use vstd::prelude::*;

use crate::compile::interner::StringId;

pub mod copy;
pub mod decl;
pub mod expr;
pub mod measure;
pub mod type_annotation;

pub use crate::tokenize::NumberKind;

verus! {

#[derive(Debug)]
pub struct IdentifierNode {
    pub name: StringId,
    pub span: Span,
}

#[derive(Debug)]
pub struct StringNode {
    pub value: String,
    pub len: usize,
    pub span: Span,
}

/// The path of a source module.
#[derive(Debug)]
pub struct ModulePath(pub String);

#[derive(Clone, Debug, PartialEq, Eq, Copy)]
pub struct Position {
    pub line: usize,
    pub col: usize,
    pub byte_offset: usize,
}

#[derive(Debug)]
pub struct Span {
    pub start: Position,
    pub end: Position,
    pub path: ModulePath,
}

impl Clone for ModulePath {
    fn clone(&self) -> (res: Self)
        ensures
            res == *self,
    {
        ModulePath(self.0.clone())
    }
}

impl Clone for Span {
    fn clone(&self) -> (res: Self)
        ensures
            res == *self,
    {
        Span { start: self.start, end: self.end, path: self.path.clone() }
    }
}

impl Clone for IdentifierNode {
    fn clone(&self) -> (res: Self)
        ensures
            res == *self,
    {
        IdentifierNode { name: self.name, span: self.span.clone() }
    }
}

impl Clone for StringNode {
    fn clone(&self) -> (res: Self)
        ensures
            res == *self,
    {
        StringNode { value: self.value.clone(), len: self.len, span: self.span.clone() }
    }
}

/// Identifiers are equal when they name the same string, wherever they
/// stand.
impl PartialEq for IdentifierNode {
    fn eq(&self, other: &Self) -> (res: bool) {
        self.name.0 == other.name.0
    }
}

impl vstd::std_specs::cmp::PartialEqSpecImpl for IdentifierNode {
    open spec fn obeys_eq_spec() -> bool {
        true
    }

    open spec fn eq_spec(&self, other: &Self) -> bool {
        self.name.0 == other.name.0
    }
}

impl Eq for IdentifierNode {}

/// Identifiers are ordered by the handles of their names.
impl PartialOrd for IdentifierNode {
    fn partial_cmp(&self, other: &Self) -> (res: Option<core::cmp::Ordering>) {
        if self.name.0 < other.name.0 {
            Some(core::cmp::Ordering::Less)
        } else if self.name.0 == other.name.0 {
            Some(core::cmp::Ordering::Equal)
        } else {
            Some(core::cmp::Ordering::Greater)
        }
    }
}

impl vstd::std_specs::cmp::PartialOrdSpecImpl for IdentifierNode {
    open spec fn obeys_partial_cmp_spec() -> bool {
        true
    }

    open spec fn partial_cmp_spec(&self, other: &Self) -> Option<core::cmp::Ordering> {
        if self.name.0 < other.name.0 {
            Some(core::cmp::Ordering::Less)
        } else if self.name.0 == other.name.0 {
            Some(core::cmp::Ordering::Equal)
        } else {
            Some(core::cmp::Ordering::Greater)
        }
    }
}

/// String literals are equal when their texts are.
impl PartialEq for StringNode {
    fn eq(&self, other: &Self) -> (res: bool) {
        self.value == other.value
    }
}

impl vstd::std_specs::cmp::PartialEqSpecImpl for StringNode {
    open spec fn obeys_eq_spec() -> bool {
        true
    }

    open spec fn eq_spec(&self, other: &Self) -> bool {
        self.value@ == other.value@
    }
}

impl Eq for StringNode {}

impl ModulePath {
    /// Whether `self` and `other` are the same path.
    pub fn same_as(&self, other: &ModulePath) -> (res: bool)
        ensures
            res == (self.0@ == other.0@),
    {
        self.0 == other.0
    }
}

impl Default for ModulePath {
    fn default() -> (res: Self)
        ensures
            res.0@ == Seq::<char>::empty(),
    {
        ModulePath(String::new())
    }
}

impl Default for Position {
    fn default() -> (res: Self)
        ensures
            res.line == 0 && res.col == 0 && res.byte_offset == 0,
    {
        Position { line: 0, col: 0, byte_offset: 0 }
    }
}

impl Default for Span {
    fn default() -> (res: Self)
        ensures
            res.start.byte_offset == 0 && res.end.byte_offset == 0,
            res.start.line == 0 && res.start.col == 0 && res.end.line == 0 && res.end.col == 0,
            res.path.0@ == Seq::<char>::empty(),
    {
        Span { start: Position::default(), end: Position::default(), path: ModulePath::default() }
    }
}

impl Span {
    /// The span from the start of `self` to the end of `other`.
    pub fn merge(&self, other: &Span) -> (res: Span)
        ensures
            res.start == self.start,
            res.end == other.end,
            res.path == self.path,
    {
        Span { start: self.start, end: other.end, path: self.path.clone() }
    }

    /// Whether `byte_offset` lies within the span, both ends included.
    pub fn contains(&self, byte_offset: usize) -> (res: bool)
        ensures
            res == (self.start.byte_offset <= byte_offset && byte_offset <= self.end.byte_offset),
    {
        byte_offset >= self.start.byte_offset && byte_offset <= self.end.byte_offset
    }
}

#[derive(Clone, Copy, Debug, PartialEq, Eq, Hash, PartialOrd, Ord)]
pub struct DeclarationId(pub usize);

} // verus!
