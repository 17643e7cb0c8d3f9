//! Positions inside textual resources.
//!
//! A [`Position`] identifies a resource (a *file*) and a location inside it, as a line index and
//! a column index. Lines are separated by `\n`; columns count the bytes of the UTF-8 encoding
//! since the start of the line.
use vstd::prelude::*;

verus! {

/// Placeholder file for positions inside a single resource.
#[derive(Debug, Clone, Copy, Default, PartialEq, Eq)]
pub struct NoFile;

/// A location inside a pool of resources.
#[derive(Debug, Clone, Copy, PartialEq, Eq)]
pub struct Position<F = NoFile> {
    /// The resource.
    pub file: F,
    /// The line index, starting from zero.
    pub line: u32,
    /// The column index in bytes, starting from zero.
    pub column: u32,
}

impl<F> Position<F> {
    /// The first position of `file`.
    pub fn new_file_zero(file: F) -> (r: Self)
        ensures
            r.file == file,
            r.line == 0,
            r.column == 0,
    {
        Self { file, line: 0, column: 0 }
    }

    /// The position at `line` and `column` of `file`.
    pub fn new_file(file: F, line: u32, column: u32) -> (r: Self)
        ensures
            r.file == file,
            r.line == line,
            r.column == column,
    {
        Self { file, line, column }
    }

    /// Splits the position into line, column and file.
    pub fn unpack(self) -> (r: (u32, u32, F))
        ensures
            r == (self.line, self.column, self.file),
    {
        (self.line, self.column, self.file)
    }
}

/// Number of newline bytes (`\n`) in `b`.
pub open spec fn count_nl(b: Seq<u8>) -> nat
    decreases b.len(),
{
    if b.len() == 0 {
        0
    } else {
        count_nl(b.drop_last()) + if b.last() == 10u8 {
            1nat
        } else {
            0nat
        }
    }
}

/// Number of bytes of `b` after its last newline, or of all of `b` when it has none.
pub open spec fn last_line_len(b: Seq<u8>) -> nat
    decreases b.len(),
{
    if b.len() == 0 {
        0
    } else if b.last() == 10u8 {
        0
    } else {
        last_line_len(b.drop_last()) + 1
    }
}

/// The line reached from `line` after the bytes `b`.
pub open spec fn advance_line(line: int, b: Seq<u8>) -> int {
    line + count_nl(b)
}

/// The column reached from `column` after the bytes `b`.
pub open spec fn advance_column(column: int, b: Seq<u8>) -> int {
    if count_nl(b) > 0 {
        last_line_len(b) as int
    } else {
        column + b.len()
    }
}

/// Advancing over `b` keeps the line and column within `u32`.
pub open spec fn advance_fits<F>(p: Position<F>, b: Seq<u8>) -> bool {
    advance_line(p.line as int, b) <= u32::MAX && advance_column(p.column as int, b) <= u32::MAX
}

/// The position reached from `p` after the bytes `b`.
pub open spec fn advance<F>(p: Position<F>, b: Seq<u8>) -> Position<F> {
    Position { file: p.file, line: advance_line(p.line as int, b) as u32, column: advance_column(p.column as int, b) as u32 }
}

/// Newlines of a concatenation.
pub proof fn lemma_count_nl_concat(a: Seq<u8>, b: Seq<u8>)
    ensures
        count_nl(a + b) == count_nl(a) + count_nl(b),
    decreases b.len(),
{
    if b.len() == 0 {
        assert(a + b =~= a);
    } else {
        assert((a + b).drop_last() =~= a + b.drop_last());
        lemma_count_nl_concat(a, b.drop_last());
    }
}

/// Last line of a concatenation.
pub proof fn lemma_last_line_len_concat(a: Seq<u8>, b: Seq<u8>)
    ensures
        last_line_len(a + b) == if count_nl(b) > 0 {
            last_line_len(b)
        } else {
            last_line_len(a) + b.len()
        },
        count_nl(b) == 0 ==> last_line_len(b) == b.len(),
    decreases b.len(),
{
    if b.len() == 0 {
        assert(a + b =~= a);
    } else {
        assert((a + b).drop_last() =~= a + b.drop_last());
        lemma_last_line_len_concat(a, b.drop_last());
    }
}

/// Advancing over `a` and then over `b` reaches the same position as advancing over `a + b`.
pub proof fn lemma_advance_concat<F>(p: Position<F>, a: Seq<u8>, b: Seq<u8>)
    requires
        advance_fits(p, a),
    ensures
        advance_fits(advance(p, a), b) <==> advance_fits(p, a + b),
        advance_fits(p, a + b) ==> advance(advance(p, a), b) == advance(p, a + b),
{
    lemma_count_nl_concat(a, b);
    lemma_last_line_len_concat(a, b);
    lemma_last_line_len_concat(Seq::empty(), a);
    assert(Seq::<u8>::empty() + a =~= a);
}

/// Trait for objects that carry a [`Position`].
pub trait Posable<F> {
    /// The carried position.
    spec fn spec_pos(&self) -> Position<F>;

    /// Returns the carried position.
    fn get_pos(&self) -> (r: &Position<F>)
        ensures
            *r == self.spec_pos(),
    ;
}

} // verus!
