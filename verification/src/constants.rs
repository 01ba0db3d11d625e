use vstd::prelude::*;

verus! {

/// The character an actor belongs to, resolved from the type hash the game
/// reports for it. Characters the parser does not single out keep their hash.
#[derive(Debug, Clone, Copy, PartialEq, Eq, Structural)]
pub enum CharacterType {
    /// Gran.
    Pl0000,
    /// Ferry.
    Pl0700,
    /// Ferry's pets, which the game reports as an actor of their own.
    Pl0700Ghost,
    /// Seofon.
    Pl2200,
    Pl2900,
    /// Any other actor, by its type hash.
    Unknown(u32),
}

} // verus!
