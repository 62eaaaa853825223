use vstd::prelude::*;

verus! {

/// A letter is a single character that, put together with other letters,
/// forms a word that can be used in a placement.
#[derive(Clone, Copy, Debug, Hash, PartialEq, Eq, Structural)]
pub struct Letter {
    pub character: char,
}

impl Letter {
    /// Create the letter represented by the given character.
    pub fn new(character: char) -> (letter: Letter)
        ensures
            letter.character == character,
    {
        Letter { character }
    }

    /// Retrieve the character that represents this letter.
    pub fn character(&self) -> (c: char)
        ensures
            c == self.character,
    {
        self.character
    }
}

} // verus!
