use vstd::prelude::*;

use crate::algorithm::INDENT;
use crate::model::FormatError;

verus! {

/// A parsed macro body that can render the replacement text for the region
/// strictly inside its outer delimiters.
pub trait MacroSyntax {
    /// Well-formedness of the parsed content the renderer relies on.
    spec fn wf(&self) -> bool;

    /// The replacement text for the macro body; `base_indent` is the column
    /// of the macro invocation in its source line.
    fn delimiter_replacement(&self, base_indent: i32) -> (r: Result<Vec<u8>, FormatError>)
        requires
            self.wf(),
            0 <= base_indent,
            base_indent + INDENT <= i32::MAX,
    ;
}

} // verus!
