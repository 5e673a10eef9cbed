//! The optimizing tools.

pub mod settings;

use vstd::prelude::*;
use crate::optimizer::settings::Settings;

verus! {

/// The optimizing tools.
#[derive(Debug)]
pub struct Optimizer {
    /// The optimizer settings.
    settings: Settings,
}

impl Optimizer {
    /// The settings that the optimizer was made with.
    pub closed spec fn spec_settings(&self) -> Settings {
        self.settings
    }

    /// A shortcut constructor.
    pub fn new(settings: Settings) -> (optimizer: Self)
        ensures
            optimizer.spec_settings() == settings,
    {
        Self { settings }
    }

    /// Returns the optimizer settings reference.
    pub fn settings(&self) -> (settings: &Settings)
        ensures
            *settings == self.spec_settings(),
    {
        &self.settings
    }
}

/// The optimization level of the middle end and of the back end.
#[derive(Debug, PartialEq, Eq, Clone, Copy, Structural)]
pub enum OptimizationLevel {
    /// No optimizations.
    Disabled,
    /// Few optimizations.
    Less,
    /// The default set of optimizations.
    Default,
    /// All optimizations.
    Aggressive,
}

impl OptimizationLevel {
    /// The number of the level, from 0 to 3.
    pub open spec fn spec_number(self) -> u8 {
        match self {
            OptimizationLevel::Disabled => 0,
            OptimizationLevel::Less => 1,
            OptimizationLevel::Default => 2,
            OptimizationLevel::Aggressive => 3,
        }
    }

    /// The digit of the level.
    pub open spec fn spec_digit(self) -> Seq<char> {
        match self {
            OptimizationLevel::Disabled => seq!['0'],
            OptimizationLevel::Less => seq!['1'],
            OptimizationLevel::Default => seq!['2'],
            OptimizationLevel::Aggressive => seq!['3'],
        }
    }

    /// The number of the level, from 0 to 3.
    pub fn number(self) -> (n: u8)
        ensures
            n == self.spec_number(),
    {
        match self {
            OptimizationLevel::Disabled => 0,
            OptimizationLevel::Less => 1,
            OptimizationLevel::Default => 2,
            OptimizationLevel::Aggressive => 3,
        }
    }

    /// The number of the level as a string of one digit.
    pub fn digit(self) -> (s: String)
        ensures
            s@ == self.spec_digit(),
    {
        let mut s = String::new();
        let c = match self {
            OptimizationLevel::Disabled => '0',
            OptimizationLevel::Less => '1',
            OptimizationLevel::Default => '2',
            OptimizationLevel::Aggressive => '3',
        };
        s.push(c);
        assert(s@ =~= seq![c]);
        s
    }
}

} // verus!
