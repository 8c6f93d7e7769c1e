use vstd::prelude::*;

verus! {

/// Reading the multi-character tokens of the source: identifiers, numbers
/// and string literals. Each reader states in its own implementation what
/// it reads.
pub trait TokenReader {
    /// Whether the reader is in a state from which it can read.
    spec fn reader_ready(&self) -> bool;

    /// Reads an identifier starting at the current character.
    fn read_identifier(&mut self) -> String
        requires
            old(self).reader_ready(),
    ;

    /// Reads a number starting at the current character.
    fn read_number(&mut self) -> String
        requires
            old(self).reader_ready(),
    ;

    /// Reads a string literal whose delimiter is the current character.
    fn read_string(&mut self) -> String
        requires
            old(self).reader_ready(),
    ;
}

} // verus!
