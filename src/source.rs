use vstd::prelude::*;

verus! {

/// Stable handle of one logical source document.
#[derive(Clone, Copy, Debug, PartialEq, Eq, Hash, Structural)]
pub struct DocId {
    pub id: usize,
}

/// A position inside a document: zero-based row and column.
#[derive(Clone, Copy, Debug, PartialEq, Eq, Hash, Structural)]
pub struct Pos {
    pub row: u32,
    pub column: u32,
}

/// A half-open span `[start, end)` inside one document.
#[derive(Clone, Copy, Debug, PartialEq, Eq, Hash, Structural)]
pub struct Loc {
    pub doc: DocId,
    pub start: Pos,
    pub end: Pos,
}

/// Relies on `String`'s `FromIterator<&char>`: the string of exactly these characters.
#[verifier::external_body]
pub(crate) fn string_from_chars(v: &Vec<char>) -> (r: String)
    ensures
        r@ == v@,
{
    v.iter().collect()
}

pub open spec fn pos_le(a: Pos, b: Pos) -> bool {
    a.row < b.row || (a.row == b.row && a.column <= b.column)
}

pub open spec fn pos_lt(a: Pos, b: Pos) -> bool {
    a.row < b.row || (a.row == b.row && a.column < b.column)
}

pub open spec fn spec_pos_min(a: Pos, b: Pos) -> Pos {
    if pos_le(a, b) { a } else { b }
}

pub open spec fn spec_pos_max(a: Pos, b: Pos) -> Pos {
    if pos_le(a, b) { b } else { a }
}

/// The smallest span of `a`'s document that covers both spans.
pub open spec fn spec_unite(a: Loc, b: Loc) -> Loc {
    Loc { doc: a.doc, start: spec_pos_min(a.start, b.start), end: spec_pos_max(a.end, b.end) }
}

/// Whether the span holds the position: `start <= pos <= end`, so that a cursor
/// placed just behind a name still touches it.
pub open spec fn spec_loc_contains(loc: Loc, doc: DocId, pos: Pos) -> bool {
    loc.doc == doc && pos_le(loc.start, pos) && pos_le(pos, loc.end)
}

pub fn pos_is_le(a: Pos, b: Pos) -> (r: bool)
    ensures
        r == pos_le(a, b),
{
    a.row < b.row || (a.row == b.row && a.column <= b.column)
}

impl Loc {
    pub fn unite(&self, other: &Loc) -> (r: Loc)
        ensures
            r == spec_unite(*self, *other),
    {
        let start = if pos_is_le(self.start, other.start) { self.start } else { other.start };
        let end = if pos_is_le(self.end, other.end) { other.end } else { self.end };
        Loc { doc: self.doc, start, end }
    }

    /// The empty span at the end of this one.
    pub fn behind(&self) -> (r: Loc)
        ensures
            r == (Loc { doc: self.doc, start: self.end, end: self.end }),
    {
        Loc { doc: self.doc, start: self.end, end: self.end }
    }

    pub fn contains(&self, doc: DocId, pos: Pos) -> (r: bool)
        ensures
            r == spec_loc_contains(*self, doc, pos),
    {
        self.doc.id == doc.id && pos_is_le(self.start, pos) && pos_is_le(pos, self.end)
    }
}

/// Kinds of tokens that the analysis looks at.
#[derive(Clone, Copy, Debug, PartialEq, Eq, Hash, Structural)]
pub enum TokenKind {
    Ident,
    Str,
    Comment,
    Space,
    Newline,
    Other,
}

/// One token of the concrete syntax tree: kind, text and span.
#[derive(Clone, Debug)]
pub struct TokenData {
    pub kind: TokenKind,
    pub text: String,
    pub loc: Loc,
}

/// A significant token together with the trivia (spaces, comments) before it.
#[derive(Clone, Debug)]
pub struct PToken {
    pub leading: Vec<TokenData>,
    pub body: TokenData,
}

impl PToken {
    pub fn behind(&self) -> (r: Loc)
        ensures
            r == (Loc { doc: self.body.loc.doc, start: self.body.loc.end, end: self.body.loc.end }),
    {
        self.body.loc.behind()
    }
}

} // verus!
