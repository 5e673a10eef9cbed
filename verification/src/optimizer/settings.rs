//! The optimizer settings.

pub mod size_level;

use itertools::Itertools;
use vstd::prelude::*;
use vstd::std_specs::cmp::PartialEqSpecImpl;
use vstd::string::*;
use crate::optimizer::settings::size_level::SizeLevel;
use crate::optimizer::OptimizationLevel;

verus! {

/// The optimizer and code generation settings.
#[derive(Debug, Clone, Copy, Eq)]
pub struct Settings {
    /// The middle-end optimization level.
    pub level_middle_end: OptimizationLevel,
    /// The middle-end size optimization level.
    pub level_middle_end_size: SizeLevel,
    /// The back-end optimization level.
    pub level_back_end: OptimizationLevel,
    /// Fallback to optimizing for size if the bytecode is too large.
    pub is_fallback_to_size_enabled: bool,
    /// Whether the `verify each` option is enabled.
    pub is_verify_each_enabled: bool,
    /// Whether the `debug logging` option is enabled.
    pub is_debug_logging_enabled: bool,
}

/// Why a character is no optimization parameter.
#[derive(Debug, Clone, Copy, PartialEq, Eq, Structural)]
pub enum SettingsError {
    /// The character is none of `0`, `1`, `2`, `3`, `s` and `z`.
    UnexpectedOptimizationOption(char),
}

impl SettingsError {
    /// The error in words.
    pub fn message(&self) -> (r: String)
        ensures
            r@ == match self {
                SettingsError::UnexpectedOptimizationOption(c) => {
                    "Unexpected optimization option '"@ + seq![*c] + "'"@
                },
            },
    {
        match self {
            SettingsError::UnexpectedOptimizationOption(c) => {
                let mut r = String::from_str("Unexpected optimization option '");
                r.push(*c);
                assert(r@ =~= "Unexpected optimization option '"@ + seq![*c]);
                r.concat("'")
            },
        }
    }
}

impl PartialEq for Settings {
    /// Settings are equal where their three levels are: the switches do not
    /// count.
    fn eq(&self, other: &Self) -> (r: bool) {
        self.level_middle_end == other.level_middle_end && self.level_middle_end_size
            == other.level_middle_end_size && self.level_back_end == other.level_back_end
    }
}

impl PartialEqSpecImpl for Settings {
    open spec fn obeys_eq_spec() -> bool {
        true
    }

    open spec fn eq_spec(&self, other: &Self) -> bool {
        self.level_middle_end == other.level_middle_end && self.level_middle_end_size
            == other.level_middle_end_size && self.level_back_end == other.level_back_end
    }
}

/// `Itertools::cartesian_product` of the crate itertools, collected: every
/// pair of an item of `a` and an item of `b`, the pairs of one item of `a`
/// side by side and in the order of `b`, the groups in the order of `a`.
/// Believed, not proved.
#[verifier::external_body]
fn cartesian_product<A: Copy, B: Copy>(a: Vec<A>, b: Vec<B>) -> (pairs: Vec<(A, B)>)
    requires
        a@.len() * b@.len() <= usize::MAX,
    ensures
        pairs@.len() == a@.len() * b@.len(),
        forall|i: int, j: int|
            #![trigger a@[i], b@[j]]
            0 <= i < a@.len() && 0 <= j < b@.len() ==> pairs@[i * b@.len() + j] == (a@[i], b@[j]),
{
    a.into_iter().cartesian_product(b).collect()
}

impl Settings {
    /// The settings with the given levels and every switch off.
    pub open spec fn with_levels(
        level_middle_end: OptimizationLevel,
        level_middle_end_size: SizeLevel,
        level_back_end: OptimizationLevel,
    ) -> Settings {
        Settings {
            level_middle_end,
            level_middle_end_size,
            level_back_end,
            is_fallback_to_size_enabled: false,
            is_verify_each_enabled: false,
            is_debug_logging_enabled: false,
        }
    }

    /// The settings that an optimization parameter stands for, if it stands
    /// for any.
    pub open spec fn of_parameter(value: char) -> Option<Settings> {
        if value == '0' {
            Some(
                Settings::with_levels(
                    OptimizationLevel::Disabled,
                    SizeLevel::Zero,
                    OptimizationLevel::Disabled,
                ),
            )
        } else if value == '1' {
            Some(
                Settings::with_levels(
                    OptimizationLevel::Less,
                    SizeLevel::Zero,
                    OptimizationLevel::Less,
                ),
            )
        } else if value == '2' {
            Some(
                Settings::with_levels(
                    OptimizationLevel::Default,
                    SizeLevel::Zero,
                    OptimizationLevel::Default,
                ),
            )
        } else if value == '3' {
            Some(
                Settings::with_levels(
                    OptimizationLevel::Aggressive,
                    SizeLevel::Zero,
                    OptimizationLevel::Aggressive,
                ),
            )
        } else if value == 's' {
            Some(
                Settings::with_levels(
                    OptimizationLevel::Default,
                    SizeLevel::S,
                    OptimizationLevel::Aggressive,
                ),
            )
        } else if value == 'z' {
            Some(
                Settings::with_levels(
                    OptimizationLevel::Default,
                    SizeLevel::Z,
                    OptimizationLevel::Aggressive,
                ),
            )
        } else {
            None
        }
    }

    /// The middle-end optimization parameter as it is written: the size
    /// level where there is one, else the digit of the level.
    pub open spec fn spec_middle_end(self) -> Seq<char> {
        match self.level_middle_end_size {
            SizeLevel::Zero => self.level_middle_end.spec_digit(),
            size_level => size_level.spec_letter(),
        }
    }

    /// All the settings that are tried: each middle-end level without size
    /// level, with no and with all back-end optimizations, then each size
    /// level in the same way.
    pub open spec fn all_combinations() -> Seq<Settings> {
        seq![
            Settings::with_levels(
                OptimizationLevel::Disabled,
                SizeLevel::Zero,
                OptimizationLevel::Disabled,
            ),
            Settings::with_levels(
                OptimizationLevel::Disabled,
                SizeLevel::Zero,
                OptimizationLevel::Aggressive,
            ),
            Settings::with_levels(
                OptimizationLevel::Less,
                SizeLevel::Zero,
                OptimizationLevel::Disabled,
            ),
            Settings::with_levels(
                OptimizationLevel::Less,
                SizeLevel::Zero,
                OptimizationLevel::Aggressive,
            ),
            Settings::with_levels(
                OptimizationLevel::Default,
                SizeLevel::Zero,
                OptimizationLevel::Disabled,
            ),
            Settings::with_levels(
                OptimizationLevel::Default,
                SizeLevel::Zero,
                OptimizationLevel::Aggressive,
            ),
            Settings::with_levels(
                OptimizationLevel::Aggressive,
                SizeLevel::Zero,
                OptimizationLevel::Disabled,
            ),
            Settings::with_levels(
                OptimizationLevel::Aggressive,
                SizeLevel::Zero,
                OptimizationLevel::Aggressive,
            ),
            Settings::with_levels(
                OptimizationLevel::Default,
                SizeLevel::S,
                OptimizationLevel::Disabled,
            ),
            Settings::with_levels(
                OptimizationLevel::Default,
                SizeLevel::S,
                OptimizationLevel::Aggressive,
            ),
            Settings::with_levels(
                OptimizationLevel::Default,
                SizeLevel::Z,
                OptimizationLevel::Disabled,
            ),
            Settings::with_levels(
                OptimizationLevel::Default,
                SizeLevel::Z,
                OptimizationLevel::Aggressive,
            ),
        ]
    }

    /// A shortcut constructor.
    pub fn new(
        level_middle_end: OptimizationLevel,
        level_middle_end_size: SizeLevel,
        level_back_end: OptimizationLevel,
    ) -> (settings: Self)
        ensures
            settings == Settings::with_levels(
                level_middle_end,
                level_middle_end_size,
                level_back_end,
            ),
    {
        Self {
            level_middle_end,
            level_middle_end_size,
            level_back_end,
            is_fallback_to_size_enabled: false,
            is_verify_each_enabled: false,
            is_debug_logging_enabled: false,
        }
    }

    /// A shortcut constructor with debugging tools.
    pub fn new_debug(
        level_middle_end: OptimizationLevel,
        level_middle_end_size: SizeLevel,
        level_back_end: OptimizationLevel,
        is_verify_each_enabled: bool,
        is_debug_logging_enabled: bool,
    ) -> (settings: Self)
        ensures
            settings == (Settings {
                level_middle_end,
                level_middle_end_size,
                level_back_end,
                is_fallback_to_size_enabled: false,
                is_verify_each_enabled,
                is_debug_logging_enabled,
            }),
    {
        Self {
            level_middle_end,
            level_middle_end_size,
            level_back_end,
            is_fallback_to_size_enabled: false,
            is_verify_each_enabled,
            is_debug_logging_enabled,
        }
    }

    /// Creates settings from an optimization parameter: one of `0`, `1`,
    /// `2`, `3`, `s` and `z`.
    pub fn try_from_cli(value: char) -> (res: Result<Self, SettingsError>)
        ensures
            match Settings::of_parameter(value) {
                Some(settings) => res == Ok::<Settings, SettingsError>(settings),
                None => res == Err::<Settings, SettingsError>(
                    SettingsError::UnexpectedOptimizationOption(value),
                ),
            },
    {
        Ok(
            match value {
                '0' => Self::new(
                    OptimizationLevel::Disabled,
                    SizeLevel::Zero,
                    OptimizationLevel::Disabled,
                ),
                '1' => Self::new(
                    OptimizationLevel::Less,
                    SizeLevel::Zero,
                    // The back end does not tell the levels 1, 2 and 3 apart.
                    OptimizationLevel::Less,
                ),
                '2' => Self::new(
                    OptimizationLevel::Default,
                    SizeLevel::Zero,
                    OptimizationLevel::Default,
                ),
                '3' => Self::new(
                    OptimizationLevel::Aggressive,
                    SizeLevel::Zero,
                    OptimizationLevel::Aggressive,
                ),
                's' => Self::new(
                    // The middle-end level does not count where a size level is set.
                    OptimizationLevel::Default,
                    SizeLevel::S,
                    OptimizationLevel::Aggressive,
                ),
                'z' => Self::new(
                    OptimizationLevel::Default,
                    SizeLevel::Z,
                    OptimizationLevel::Aggressive,
                ),
                other => {
                    return Err(SettingsError::UnexpectedOptimizationOption(other));
                },
            },
        )
    }

    /// Creates settings from what the optimizer section of a compiler input
    /// holds: the settings of the mode, or those for the fewest cycles where
    /// there is no mode, with the fallback to size where it is asked for.
    pub fn try_from_optimizer(
        mode: Option<char>,
        fallback_to_optimizing_for_size: Option<bool>,
    ) -> (res: Result<Self, SettingsError>)
        ensures
            match mode {
                Some(mode) => match Settings::of_parameter(mode) {
                    Some(settings) => res == Ok::<Settings, SettingsError>(
                        Settings {
                            is_fallback_to_size_enabled: fallback_to_optimizing_for_size
                                == Some(true),
                            ..settings
                        },
                    ),
                    None => res == Err::<Settings, SettingsError>(
                        SettingsError::UnexpectedOptimizationOption(mode),
                    ),
                },
                None => res == Ok::<Settings, SettingsError>(
                    Settings {
                        is_fallback_to_size_enabled: fallback_to_optimizing_for_size == Some(true),
                        ..Settings::with_levels(
                            OptimizationLevel::Aggressive,
                            SizeLevel::Zero,
                            OptimizationLevel::Aggressive,
                        )
                    },
                ),
            },
    {
        let mut result = match mode {
            Some(mode) => match Self::try_from_cli(mode) {
                Ok(settings) => settings,
                Err(error) => {
                    return Err(error);
                },
            },
            None => Self::cycles(),
        };
        let fallback = match fallback_to_optimizing_for_size {
            Some(fallback) => fallback,
            None => false,
        };
        if fallback {
            result.enable_fallback_to_size();
        }
        Ok(result)
    }

    /// Returns the settings without optimizations.
    pub fn none() -> (settings: Self)
        ensures
            settings == Settings::with_levels(
                OptimizationLevel::Disabled,
                SizeLevel::Zero,
                OptimizationLevel::Disabled,
            ),
    {
        Self::new(OptimizationLevel::Disabled, SizeLevel::Zero, OptimizationLevel::Disabled)
    }

    /// Returns the settings for the optimal number of execution cycles.
    pub fn cycles() -> (settings: Self)
        ensures
            settings == Settings::with_levels(
                OptimizationLevel::Aggressive,
                SizeLevel::Zero,
                OptimizationLevel::Aggressive,
            ),
    {
        Self::new(OptimizationLevel::Aggressive, SizeLevel::Zero, OptimizationLevel::Aggressive)
    }

    /// Returns the settings for the optimal size.
    pub fn size() -> (settings: Self)
        ensures
            settings == Settings::with_levels(
                OptimizationLevel::Default,
                SizeLevel::Z,
                OptimizationLevel::Aggressive,
            ),
    {
        Self::new(OptimizationLevel::Default, SizeLevel::Z, OptimizationLevel::Aggressive)
    }

    /// Returns the middle-end optimization parameter as string.
    pub fn middle_end_as_string(&self) -> (s: String)
        ensures
            s@ == self.spec_middle_end(),
    {
        match self.level_middle_end_size {
            SizeLevel::Zero => self.level_middle_end.digit(),
            size_level => size_level.to_string(),
        }
    }

    /// Checks whether there are middle-end optimizations enabled.
    pub fn is_middle_end_enabled(&self) -> (r: bool)
        ensures
            r == (self.level_middle_end != OptimizationLevel::Disabled
                || self.level_middle_end_size != SizeLevel::Zero),
    {
        self.level_middle_end != OptimizationLevel::Disabled || self.level_middle_end_size
            != SizeLevel::Zero
    }

    /// Returns all possible combinations of the optimizer settings.
    pub fn combinations() -> (combinations: Vec<Self>)
        ensures
            combinations@ == Settings::all_combinations(),
    {
        let mut levels: Vec<OptimizationLevel> = Vec::new();
        levels.push(OptimizationLevel::Disabled);
        levels.push(OptimizationLevel::Less);
        levels.push(OptimizationLevel::Default);
        levels.push(OptimizationLevel::Aggressive);
        let mut back_ends: Vec<OptimizationLevel> = Vec::new();
        back_ends.push(OptimizationLevel::Disabled);
        back_ends.push(OptimizationLevel::Aggressive);
        let mut sizes: Vec<SizeLevel> = Vec::new();
        sizes.push(SizeLevel::S);
        sizes.push(SizeLevel::Z);
        let ghost level_seq = levels@;
        let ghost back_seq = back_ends@;
        let ghost size_seq = sizes@;
        let mut size_back_ends: Vec<OptimizationLevel> = Vec::new();
        size_back_ends.push(OptimizationLevel::Disabled);
        size_back_ends.push(OptimizationLevel::Aggressive);
        assert(size_back_ends@ =~= back_seq);
        assert(level_seq.len() * back_seq.len() == 8) by {
            assert(level_seq.len() == 4 && back_seq.len() == 2);
        }
        assert(size_seq.len() * back_seq.len() == 4) by {
            assert(size_seq.len() == 2 && back_seq.len() == 2);
        }
        let performance = cartesian_product(levels, back_ends);
        let size = cartesian_product(sizes, size_back_ends);
        proof {
            assert(performance@[0] == (level_seq[0], back_seq[0]));
            assert(performance@[1] == (level_seq[0], back_seq[1]));
            assert(performance@[2] == (level_seq[1], back_seq[0]));
            assert(performance@[3] == (level_seq[1], back_seq[1]));
            assert(performance@[4] == (level_seq[2], back_seq[0]));
            assert(performance@[5] == (level_seq[2], back_seq[1]));
            assert(performance@[6] == (level_seq[3], back_seq[0]));
            assert(performance@[7] == (level_seq[3], back_seq[1]));
            assert(size@[0] == (size_seq[0], back_seq[0]));
            assert(size@[1] == (size_seq[0], back_seq[1]));
            assert(size@[2] == (size_seq[1], back_seq[0]));
            assert(size@[3] == (size_seq[1], back_seq[1]));
        }
        let mut combinations: Vec<Self> = Vec::new();
        let mut i: usize = 0;
        while i < performance.len()
            invariant
                i <= performance.len(),
                performance.len() == 8,
                combinations@.len() == i,
                forall|k: int|
                    0 <= k < i ==> combinations@[k] == Settings::with_levels(
                        performance@[k].0,
                        SizeLevel::Zero,
                        performance@[k].1,
                    ),
            decreases performance.len() - i,
        {
            combinations.push(Self::new(performance[i].0, SizeLevel::Zero, performance[i].1));
            i += 1;
        }
        let mut j: usize = 0;
        while j < size.len()
            invariant
                j <= size.len(),
                size.len() == 4,
                performance.len() == 8,
                combinations@.len() == 8 + j,
                forall|k: int|
                    0 <= k < 8 ==> combinations@[k] == Settings::with_levels(
                        performance@[k].0,
                        SizeLevel::Zero,
                        performance@[k].1,
                    ),
                forall|k: int|
                    0 <= k < j ==> combinations@[8 + k] == Settings::with_levels(
                        OptimizationLevel::Default,
                        size@[k].0,
                        size@[k].1,
                    ),
            decreases size.len() - j,
        {
            combinations.push(Self::new(OptimizationLevel::Default, size[j].0, size[j].1));
            j += 1;
        }
        assert(combinations@ =~= Settings::all_combinations());
        combinations
    }

    /// Sets the fallback to optimizing for size if the bytecode is too large.
    pub fn enable_fallback_to_size(&mut self)
        ensures
            *final(self) == (Settings { is_fallback_to_size_enabled: true, ..*old(self) }),
    {
        self.is_fallback_to_size_enabled = true;
    }

    /// Whether the fallback to optimizing for size is enabled.
    pub fn is_fallback_to_size_enabled(&self) -> (r: bool)
        ensures
            r == self.is_fallback_to_size_enabled,
    {
        self.is_fallback_to_size_enabled
    }

    /// The settings as they are written: `M`, the middle-end parameter, `B`
    /// and the digit of the back-end level.
    pub fn to_string(&self) -> (s: String)
        ensures
            s@ == "M"@ + self.spec_middle_end() + "B"@ + self.level_back_end.spec_digit(),
    {
        let middle = self.middle_end_as_string();
        let back = self.level_back_end.digit();
        String::from_str("M").concat(middle.as_str()).concat("B").concat(back.as_str())
    }
}

} // verus!
