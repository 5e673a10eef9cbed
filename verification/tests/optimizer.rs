use qi_compiler::optimizer::settings::size_level::SizeLevel;
use qi_compiler::optimizer::settings::{Settings, SettingsError};
use qi_compiler::optimizer::{OptimizationLevel, Optimizer};

fn settings(middle: OptimizationLevel, size: SizeLevel, back: OptimizationLevel) -> Settings {
    Settings {
        level_middle_end: middle,
        level_middle_end_size: size,
        level_back_end: back,
        is_fallback_to_size_enabled: false,
        is_verify_each_enabled: false,
        is_debug_logging_enabled: false,
    }
}

fn same(a: &Settings, b: &Settings) -> bool {
    a == b
        && a.is_fallback_to_size_enabled == b.is_fallback_to_size_enabled
        && a.is_verify_each_enabled == b.is_verify_each_enabled
        && a.is_debug_logging_enabled == b.is_debug_logging_enabled
}

use qi_compiler::optimizer::OptimizationLevel::{Aggressive, Disabled, Less};

const MEDIUM: OptimizationLevel = OptimizationLevel::Default;

#[test]
fn settings_of_each_parameter() {
    let expected = [
        ('0', settings(Disabled, SizeLevel::Zero, Disabled)),
        ('1', settings(Less, SizeLevel::Zero, Less)),
        ('2', settings(MEDIUM, SizeLevel::Zero, MEDIUM)),
        ('3', settings(Aggressive, SizeLevel::Zero, Aggressive)),
        ('s', settings(MEDIUM, SizeLevel::S, Aggressive)),
        ('z', settings(MEDIUM, SizeLevel::Z, Aggressive)),
    ];
    for (parameter, settings) in expected {
        assert!(same(&Settings::try_from_cli(parameter).unwrap(), &settings), "{parameter}");
    }
}

#[test]
fn unexpected_parameter() {
    for parameter in ['4', 'S', 'Z', ' ', 'x', '٣'] {
        assert_eq!(
            Settings::try_from_cli(parameter),
            Err(SettingsError::UnexpectedOptimizationOption(parameter))
        );
    }
    assert_eq!(
        SettingsError::UnexpectedOptimizationOption('x').message(),
        "Unexpected optimization option 'x'"
    );
}

#[test]
fn shortcuts() {
    assert!(same(&Settings::none(), &settings(Disabled, SizeLevel::Zero, Disabled)));
    assert!(same(&Settings::cycles(), &settings(Aggressive, SizeLevel::Zero, Aggressive)));
    assert!(same(&Settings::size(), &settings(MEDIUM, SizeLevel::Z, Aggressive)));
    assert!(same(
        &Settings::new(Less, SizeLevel::S, MEDIUM),
        &settings(Less, SizeLevel::S, MEDIUM)
    ));
    let debug = Settings::new_debug(Less, SizeLevel::S, MEDIUM, true, false);
    assert!(debug.is_verify_each_enabled && !debug.is_debug_logging_enabled);
    assert!(!debug.is_fallback_to_size_enabled());
    let debug = Settings::new_debug(Less, SizeLevel::S, MEDIUM, false, true);
    assert!(!debug.is_verify_each_enabled && debug.is_debug_logging_enabled);
}

#[test]
fn all_combinations_in_order() {
    let combinations = Settings::combinations();
    let expected = [
        settings(Disabled, SizeLevel::Zero, Disabled),
        settings(Disabled, SizeLevel::Zero, Aggressive),
        settings(Less, SizeLevel::Zero, Disabled),
        settings(Less, SizeLevel::Zero, Aggressive),
        settings(MEDIUM, SizeLevel::Zero, Disabled),
        settings(MEDIUM, SizeLevel::Zero, Aggressive),
        settings(Aggressive, SizeLevel::Zero, Disabled),
        settings(Aggressive, SizeLevel::Zero, Aggressive),
        settings(MEDIUM, SizeLevel::S, Disabled),
        settings(MEDIUM, SizeLevel::S, Aggressive),
        settings(MEDIUM, SizeLevel::Z, Disabled),
        settings(MEDIUM, SizeLevel::Z, Aggressive),
    ];
    assert_eq!(combinations.len(), 12);
    for (found, expected) in combinations.iter().zip(&expected) {
        assert!(same(found, expected));
    }
}

#[test]
fn written_forms() {
    assert_eq!(Settings::cycles().to_string(), "M3B3");
    assert_eq!(Settings::none().to_string(), "M0B0");
    assert_eq!(Settings::size().to_string(), "MzB3");
    assert_eq!(Settings::new(Less, SizeLevel::S, MEDIUM).to_string(), "MsB2");
    assert_eq!(Settings::new(Less, SizeLevel::Zero, Less).to_string(), "M1B1");
    assert_eq!(Settings::new(MEDIUM, SizeLevel::Zero, Less).middle_end_as_string(), "2");
    assert_eq!(Settings::new(Disabled, SizeLevel::Z, Less).middle_end_as_string(), "z");
    assert_eq!(SizeLevel::Zero.to_string(), "0");
    assert_eq!(SizeLevel::S.to_string(), "s");
    assert_eq!(SizeLevel::Z.to_string(), "z");
    assert_eq!(
        [Disabled.number(), Less.number(), MEDIUM.number(), Aggressive.number()],
        [0, 1, 2, 3]
    );
    assert_eq!(Aggressive.digit(), "3");
}

#[test]
fn middle_end_is_enabled_by_either_level() {
    assert!(!Settings::none().is_middle_end_enabled());
    assert!(Settings::cycles().is_middle_end_enabled());
    assert!(Settings::new(Disabled, SizeLevel::S, Disabled).is_middle_end_enabled());
    assert!(Settings::new(Less, SizeLevel::Zero, Disabled).is_middle_end_enabled());
    assert!(!Settings::new(Disabled, SizeLevel::Zero, Aggressive).is_middle_end_enabled());
}

#[test]
fn fallback_to_size() {
    let mut settings = Settings::cycles();
    assert!(!settings.is_fallback_to_size_enabled());
    settings.enable_fallback_to_size();
    assert!(settings.is_fallback_to_size_enabled());
    assert!(settings.is_fallback_to_size_enabled);
    assert_eq!(settings.level_middle_end, Aggressive);
    assert!(!settings.is_verify_each_enabled && !settings.is_debug_logging_enabled);
}

#[test]
fn equality_looks_at_the_levels_alone() {
    let mut with_switches = Settings::new_debug(MEDIUM, SizeLevel::Z, Aggressive, true, true);
    with_switches.enable_fallback_to_size();
    assert_eq!(with_switches, Settings::size());
    assert_ne!(Settings::size(), Settings::cycles());
    assert_ne!(Settings::new(MEDIUM, SizeLevel::S, Aggressive), Settings::size());
    assert_ne!(Settings::new(MEDIUM, SizeLevel::Z, Less), Settings::size());
}

#[test]
fn settings_of_an_optimizer_section() {
    assert!(same(&Settings::try_from_optimizer(None, None).unwrap(), &Settings::cycles()));
    assert!(same(&Settings::try_from_optimizer(None, Some(false)).unwrap(), &Settings::cycles()));
    let with_fallback = Settings::try_from_optimizer(Some('z'), Some(true)).unwrap();
    assert_eq!(with_fallback, Settings::size());
    assert!(with_fallback.is_fallback_to_size_enabled());
    assert!(Settings::try_from_optimizer(None, Some(true)).unwrap().is_fallback_to_size_enabled());
    assert!(same(&Settings::try_from_optimizer(Some('0'), None).unwrap(), &Settings::none()));
    assert_eq!(
        Settings::try_from_optimizer(Some('9'), Some(true)),
        Err(SettingsError::UnexpectedOptimizationOption('9'))
    );
}

#[test]
fn optimizer_keeps_its_settings() {
    let mut settings = Settings::size();
    settings.enable_fallback_to_size();
    let optimizer = Optimizer::new(settings);
    assert!(same(optimizer.settings(), &settings));
}
