//! The size optimization level of the middle end.

use vstd::prelude::*;

verus! {

/// The size optimization level of the middle end.
#[derive(Debug, PartialEq, Eq, Clone, Copy, Structural)]
pub enum SizeLevel {
    /// No size optimizations.
    Zero,
    /// The default size optimizations.
    S,
    /// The aggressive size optimizations.
    Z,
}

impl SizeLevel {
    /// The letter of the level: `0`, `s` or `z`.
    pub open spec fn spec_letter(self) -> Seq<char> {
        match self {
            SizeLevel::Zero => seq!['0'],
            SizeLevel::S => seq!['s'],
            SizeLevel::Z => seq!['z'],
        }
    }

    /// The level as it is written: `0`, `s` or `z`.
    pub fn to_string(&self) -> (s: String)
        ensures
            s@ == self.spec_letter(),
    {
        let mut s = String::new();
        let c = match self {
            SizeLevel::Zero => '0',
            SizeLevel::S => 's',
            SizeLevel::Z => 'z',
        };
        s.push(c);
        assert(s@ =~= seq![c]);
        s
    }
}

} // verus!
