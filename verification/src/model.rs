use vstd::prelude::*;

verus! {

/// The error kinds a formatting run can surface.
#[derive(Debug)]
pub enum FormatError {
    /// Two replacement spans for one file overlap: an internal-invariant
    /// violation in the span computation, never expected during normal
    /// operation.
    OverlappingReplacement,
    /// An arm body's syntactic category is not among the enumerated set the
    /// classifier understands; the arm is rejected rather than guessed at.
    UnhandledExpressionKind,
}

/// A line/column position in source text.
pub struct Position {
    pub line: usize,
    pub column: usize,
}

impl Position {
    pub fn new(line: usize, column: usize) -> (p: Self)
        ensures
            p.line == line,
            p.column == column,
    {
        Self { line, column }
    }
}

/// A single line comment: the text from the `//` marker to the end of its
/// line, and where it starts.
pub struct Comment {
    pub position: Position,
    pub comment: Vec<u8>,
}

impl Comment {
    pub fn new(position: Position, comment: Vec<u8>) -> (c: Self)
        ensures
            c.position == position,
            c.comment == comment,
    {
        Self { position, comment }
    }
}

/// Mathematical view of a [`Comment`].
pub ghost struct CommentV {
    pub line: int,
    pub column: int,
    pub text: Seq<u8>,
}

impl View for Comment {
    type V = CommentV;

    open spec fn view(&self) -> CommentV {
        CommentV {
            line: self.position.line as int,
            column: self.position.column as int,
            text: self.comment@,
        }
    }
}

impl DeepView for Comment {
    type V = CommentV;

    open spec fn deep_view(&self) -> CommentV {
        self@
    }
}

} // verus!
