//! Colour themes of the treemap.

use vstd::prelude::*;

verus! {

/// A palette that node colours are taken from.
#[derive(Clone, Copy, Debug, PartialEq, Eq, Structural)]
pub enum ColorTheme {
    Rainbow,
    Neon,
    Ocean,
}

impl ColorTheme {
    /// The name of the theme as shown to the user.
    pub open spec fn spec_label(self) -> Seq<char> {
        match self {
            ColorTheme::Rainbow => seq!['R', 'a', 'i', 'n', 'b', 'o', 'w'],
            ColorTheme::Neon => seq!['N', 'e', 'o', 'n'],
            ColorTheme::Ocean => seq!['O', 'c', 'e', 'a', 'n'],
        }
    }

    /// The name of the theme as shown to the user.
    pub fn label(self) -> (name: &'static str)
        ensures
            name@ == self.spec_label(),
    {
        proof {
            reveal_strlit("Rainbow");
            reveal_strlit("Neon");
            reveal_strlit("Ocean");
        }
        let name: &'static str = match self {
            ColorTheme::Rainbow => "Rainbow",
            ColorTheme::Neon => "Neon",
            ColorTheme::Ocean => "Ocean",
        };
        assert(name@ =~= self.spec_label());
        name
    }
}

} // verus!
