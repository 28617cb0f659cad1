use vstd::prelude::*;

verus! {

/// A piece color, drawn from a small fixed palette. Equality is the only
/// operation the engine itself needs.
#[derive(Clone, Copy, Debug, PartialEq, Eq, PartialOrd, Ord, Hash, Structural)]
pub enum Color {
    Red,
    Yellow,
    Blue,
    Green,
    Black,
}

impl Color {
    /// Picks one color of the palette at random; every variant is possible.
    pub fn rand() -> Color {
        let idx = crate::rng::random_below(5);
        if idx == 0 {
            Color::Red
        } else if idx == 1 {
            Color::Yellow
        } else if idx == 2 {
            Color::Blue
        } else if idx == 3 {
            Color::Green
        } else {
            Color::Black
        }
    }
}

} // verus!
