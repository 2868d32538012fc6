//! The attribute tree, held as plain values.
use vstd::prelude::*;

verus! {

/// The path that names a node.
#[derive(Debug, PartialEq, Eq)]
pub enum Path {
    /// A path of one plain identifier, such as `level0`.
    Ident(String),
    /// Any other path (several segments, a leading `::`, generic arguments),
    /// held as its token text, such as `a :: b`.
    Other(String),
}

/// A literal value.
#[derive(Debug, PartialEq, Eq)]
pub enum Lit {
    /// A string literal, held as the string it denotes.
    Str(String),
    /// An integer literal, held as its digits in base 10 (no sign, no
    /// underscores, no suffix).
    Int(String),
    /// A floating-point literal, held as its digits in base 10 (no suffix).
    Float(String),
    /// `true` or `false`.
    Bool(bool),
    /// Any other literal (byte, byte string, character, C string), held as its
    /// token text.
    Other(String),
}

/// One node of an attribute tree.
#[derive(Debug, PartialEq, Eq)]
pub enum Meta {
    /// A bare path: `level0`.
    Path(Path),
    /// A path with a parenthesised list: `level0(level1, level2 = 1)`.
    /// `None` when the parentheses do not hold a comma-separated list of nodes.
    List(Path, Option<Vec<Meta>>),
    /// A path bound to a value: `level0 = "hi"`.
    /// `None` when the value is not a literal.
    NameValue(Path, Option<Lit>),
}

/// Whether an attribute is written `#[..]` or `#![..]`.
#[derive(Debug, PartialEq, Eq, Clone, Copy, Structural)]
pub enum AttrStyle {
    Outer,
    Inner,
}

/// An attribute of a declaration.
#[derive(Debug, PartialEq, Eq)]
pub struct Attribute {
    pub style: AttrStyle,
    pub meta: Meta,
}

impl Clone for Path {
    fn clone(&self) -> (r: Self)
        ensures
            r == *self,
    {
        match self {
            Path::Ident(s) => Path::Ident(s.clone()),
            Path::Other(s) => Path::Other(s.clone()),
        }
    }
}

impl Clone for Lit {
    fn clone(&self) -> (r: Self)
        ensures
            r == *self,
    {
        match self {
            Lit::Str(s) => Lit::Str(s.clone()),
            Lit::Int(s) => Lit::Int(s.clone()),
            Lit::Float(s) => Lit::Float(s.clone()),
            Lit::Bool(b) => Lit::Bool(*b),
            Lit::Other(s) => Lit::Other(s.clone()),
        }
    }
}

/// The path that names a node.
pub open spec fn meta_path(m: Meta) -> Path {
    match m {
        Meta::Path(p) => p,
        Meta::List(p, _) => p,
        Meta::NameValue(p, _) => p,
    }
}

/// Whether `p` is the single identifier `name`.
pub open spec fn path_is_ident(p: Path, name: Seq<char>) -> bool {
    match p {
        Path::Ident(s) => s@ == name,
        Path::Other(_) => false,
    }
}

/// The text of a path, as it stands in a key of the flattened map.
pub open spec fn path_text(p: Path) -> Seq<char> {
    match p {
        Path::Ident(s) => s@,
        Path::Other(s) => s@,
    }
}

/// Whether `c` may stand in an identifier: an ASCII letter, digit or `_`,
/// or a character outside ASCII.
pub open spec fn is_ident_char(c: char) -> bool {
    ('a' <= c <= 'z') || ('A' <= c <= 'Z') || ('0' <= c <= '9') || c == '_' || (c as u32) > 0x7f
}

/// Whether `s` is the text of an identifier: one or more identifier
/// characters, after an optional raw prefix `r#`.
pub open spec fn ident_text(s: Seq<char>) -> bool {
    let body = if s.len() >= 2 && s[0] == 'r' && s[1] == '#' {
        s.skip(2)
    } else {
        s
    };
    body.len() > 0 && forall|i: int| 0 <= i < body.len() ==> is_ident_char(#[trigger] body[i])
}

/// A path is well formed: an identifier has identifier text, and any other
/// path has some text.
pub open spec fn path_wf(p: Path) -> bool {
    match p {
        Path::Ident(s) => ident_text(s@),
        Path::Other(s) => s@.len() > 0,
    }
}

/// A node is well formed: its path and every nested node are.
pub open spec fn meta_wf(m: Meta) -> bool
    decreases m,
{
    path_wf(meta_path(m)) && match m {
        Meta::List(_, Some(items)) => forall|i: int|
            0 <= i < items@.len() ==> meta_wf(#[trigger] items@[i]),
        _ => true,
    }
}

/// Every attribute of `attrs` is well formed.
pub open spec fn attrs_wf(attrs: Seq<Attribute>) -> bool {
    forall|i: int| 0 <= i < attrs.len() ==> meta_wf(#[trigger] attrs[i].meta)
}

impl Path {
    /// Whether this path is the single identifier `name`.
    pub fn is_ident(&self, name: &str) -> (r: bool)
        ensures
            r == path_is_ident(*self, name@),
    {
        match self {
            Path::Ident(s) => {
                let n = name.to_owned();
                *s == n
            },
            Path::Other(_) => false,
        }
    }

    /// The text of this path.
    pub fn text(&self) -> (r: &String)
        ensures
            r@ == path_text(*self),
    {
        match self {
            Path::Ident(s) => s,
            Path::Other(s) => s,
        }
    }
}

impl Meta {
    /// The path that names this node.
    pub fn path(&self) -> (r: &Path)
        ensures
            *r == meta_path(*self),
    {
        match self {
            Meta::Path(p) => p,
            Meta::List(p, _) => p,
            Meta::NameValue(p, _) => p,
        }
    }
}

} // verus!
