use vstd::prelude::*;

verus! {

/// One of the two players.
#[derive(Clone, Copy, PartialEq, Eq, Hash, Debug, Structural)]
pub enum Color {
    Yellow,
    Red,
}

/// The state of a game: won by a color, tied, or still going.
#[derive(Clone, Copy, PartialEq, Eq, Debug, Structural)]
pub enum Gameover {
    Win(Color),
    Tie,
    Ongoing,
}

impl Color {
    pub open spec fn other(self) -> Color {
        match self {
            Color::Yellow => Color::Red,
            Color::Red => Color::Yellow,
        }
    }

    /// The other color.
    pub fn opposite(&self) -> (r: Color)
        ensures
            r == self.other(),
            r != *self,
    {
        match self {
            Color::Yellow => Color::Red,
            Color::Red => Color::Yellow,
        }
    }
}

} // verus!
