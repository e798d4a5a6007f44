use vstd::prelude::*;

verus! {

/// A place in the source text: a byte offset and a length.
#[derive(Debug, Clone, Copy, PartialEq, Eq)]
pub struct Loc {
    pub offset: usize,
    pub length: usize,
}

impl Loc {
    pub fn new(offset: usize, length: usize) -> (r: Loc)
        ensures
            r.offset == offset,
            r.length == length,
    {
        Loc { offset, length }
    }

    /// An empty span at `offset`.
    pub fn at(offset: usize) -> (r: Loc)
        ensures
            r.offset == offset,
            r.length == 0,
    {
        Loc { offset, length: 0 }
    }
}

/// A syntax element together with where it came from.
#[derive(Debug, Clone)]
pub struct AstElement<T> {
    pub element: T,
    pub loc: Loc,
}

impl<T> AstElement<T> {
    pub fn new(element: T, loc: Loc) -> (r: AstElement<T>)
        ensures
            r.element == element,
            r.loc == loc,
    {
        AstElement { element, loc }
    }
}

#[derive(Debug, Clone)]
pub enum ErrorKind {
    /// A semantic error found while lowering the syntax tree.
    Ast(String),
    /// Malformed data met while decoding.
    Io(String),
}

#[derive(Debug, Clone)]
pub struct Error {
    pub kind: ErrorKind,
    pub loc: Loc,
}

impl Error {
    pub open spec fn is_ast(&self) -> bool {
        self.kind is Ast
    }

    pub open spec fn is_io(&self) -> bool {
        self.kind is Io
    }

    /// The message carried by the error.
    pub fn message(&self) -> (r: String) {
        match &self.kind {
            ErrorKind::Ast(m) => m.clone(),
            ErrorKind::Io(m) => m.clone(),
        }
    }
}

/// A semantic error at `loc`.
pub fn ast_error(message: &str, loc: Loc) -> (r: Error)
    ensures
        r.is_ast(),
        r.loc == loc,
{
    Error { kind: ErrorKind::Ast(String::from_str(message)), loc }
}

/// A decoding error at `loc`.
pub fn io_error(message: &str, loc: Loc) -> (r: Error)
    ensures
        r.is_io(),
        r.loc == loc,
{
    Error { kind: ErrorKind::Io(String::from_str(message)), loc }
}

} // verus!
