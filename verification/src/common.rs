use vstd::prelude::*;

verus! {

/// The names of the colours, by the colour's position.
pub const COLOR_NAMES: [&'static str; 4] = ["Yellow", "Black", "Blue", "Red"];

/// The four diseases, each known by the colour of its cubes.
///
/// The variants are declared in the order in which cards of each colour sort.
#[derive(Clone, Copy, Debug, PartialEq, Eq, Structural, Hash, PartialOrd, Ord)]
pub enum Color {
    Yellow,
    Black,
    Blue,
    Red,
}

impl Color {
    /// Position of the colour in the declaration order, from 0 to 3.
    pub open spec fn rank(self) -> int {
        match self {
            Color::Yellow => 0,
            Color::Black => 1,
            Color::Blue => 2,
            Color::Red => 3,
        }
    }

    /// Position of the colour in the declaration order, from 0 to 3.
    pub fn index(self) -> (i: usize)
        ensures
            i == self.rank(),
    {
        match self {
            Color::Yellow => 0,
            Color::Black => 1,
            Color::Blue => 2,
            Color::Red => 3,
        }
    }

    /// The colour's name.
    pub fn name(self) -> (s: &'static str)
        ensures
            s@ == self.label(),
    {
        COLOR_NAMES[self.index()]
    }

    /// The characters of the colour's name.
    pub open spec fn label(self) -> Seq<char> {
        COLOR_NAMES[self.rank()]@
    }
}

} // verus!
