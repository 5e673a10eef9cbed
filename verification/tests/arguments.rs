use qi_compiler::cli::arguments::{
    assemble_inputs, input_parts, Arguments, ArgumentsError, ConvertedInput,
};
use qi_compiler::optimizer::settings::{Settings, SettingsError};

fn strings(names: &[&str]) -> Vec<String> {
    names.iter().map(|name| (*name).to_owned()).collect()
}

fn arguments(inputs: &[&str]) -> Arguments {
    Arguments {
        version: false,
        inputs: strings(inputs),
        base_path: None,
        include_paths: vec![],
        allow_paths: None,
        output_directory: None,
        solc: None,
        optimization: None,
        fallback_to_optimizing_for_size: false,
        disable_solc_optimizer: false,
        evm_version: None,
        libraries: vec![],
        llvm_arguments: vec![],
        llvm_verify_each: false,
        llvm_debug_logging: false,
        suppress_warnings: None,
        emit_source_debug_info: false,
        debug_output_directory: None,
    }
}

#[test]
fn version_stands_alone() {
    let mut asked = arguments(&[]);
    asked.version = true;
    assert_eq!(asked.validate(1), Ok(()));
    assert_eq!(asked.validate(2), Ok(()));
    assert_eq!(asked.validate(3), Err(ArgumentsError::VersionWithOtherOptions));
    assert_eq!(asked.validate(usize::MAX), Err(ArgumentsError::VersionWithOtherOptions));
    assert_eq!(arguments(&[]).validate(3), Ok(()));
    assert_eq!(arguments(&["a.sol"]).validate(100), Ok(()));
    assert_eq!(
        ArgumentsError::VersionWithOtherOptions.message(),
        "No other options are allowed while getting the compiler version."
    );
}

#[test]
fn parts_of_inputs() {
    assert_eq!(input_parts("a.sol"), strings(&["a.sol"]));
    assert_eq!(input_parts("  a.sol\t\n"), strings(&["a.sol"]));
    assert_eq!(input_parts("\u{a0}a b\u{2003}"), strings(&["a b"]));
    assert_eq!(input_parts("   "), strings(&[""]));
    assert_eq!(input_parts(""), strings(&[""]));
    assert_eq!(input_parts("a=b"), strings(&["a", "b"]));
    assert_eq!(input_parts(" a = b "), strings(&["a ", " b"]));
    assert_eq!(input_parts("a=b=c"), strings(&["a", "b", "c"]));
    assert_eq!(input_parts("="), strings(&["", ""]));
    assert_eq!(input_parts("a="), strings(&["a", ""]));
    assert_eq!(input_parts("=b"), strings(&["", "b"]));
    assert_eq!(input_parts("=="), strings(&["", "", ""]));
}

#[test]
fn input_files_and_remappings() {
    let (files, remappings) = arguments(&[" contracts/b.sol", "lib=node_modules/lib", "a.sol ", "@oz=deps/oz", "lib=node_modules/lib"])
        .split_input_files_and_remappings()
        .unwrap();
    assert_eq!(files, strings(&["contracts/b.sol", "a.sol"]));
    assert_eq!(remappings, Some(strings(&["@oz=deps/oz", "lib=node_modules/lib"])));
}

#[test]
fn no_remappings() {
    assert_eq!(
        arguments(&["b.sol", "a.sol", "b.sol"]).split_input_files_and_remappings(),
        Ok((strings(&["b.sol", "a.sol", "b.sol"]), None))
    );
    assert_eq!(arguments(&[]).split_input_files_and_remappings(), Ok((vec![], None)));
}

#[test]
fn remapping_of_more_or_fewer_than_two_parts() {
    assert_eq!(
        arguments(&["a.sol", "a=b=c", "x=y=z"]).split_input_files_and_remappings(),
        Err(ArgumentsError::InvalidRemapping("a=b=c".to_owned()))
    );
    assert_eq!(
        arguments(&[" a==b "]).split_input_files_and_remappings(),
        Err(ArgumentsError::InvalidRemapping(" a==b ".to_owned()))
    );
    assert_eq!(
        ArgumentsError::InvalidRemapping("a=b=c".to_owned()).message(),
        "Invalid remapping `a=b=c`: expected two parts separated by '='"
    );
    assert_eq!(
        arguments(&["=", "a="]).split_input_files_and_remappings(),
        Ok((vec![], Some(strings(&["=", "a="]))))
    );
}

fn file(path: &str, posix: Option<&str>) -> ConvertedInput {
    ConvertedInput::File { path: path.to_owned(), posix: posix.map(|posix| posix.to_owned()) }
}

fn remapping(input: &str, parts: &[(&str, Option<&str>)]) -> ConvertedInput {
    ConvertedInput::Remapping {
        input: input.to_owned(),
        parts: parts
            .iter()
            .map(|(part, posix)| ((*part).to_owned(), posix.map(|posix| posix.to_owned())))
            .collect(),
    }
}

#[test]
fn assembling_converted_inputs() {
    let inputs = vec![
        file("b\\c.sol", Some("b/c.sol")),
        remapping("z=y\\x", &[("z", Some("z")), ("y\\x", Some("y/x"))]),
        file("a.sol", Some("a.sol")),
        remapping("a=b", &[("a", Some("a")), ("b", Some("b"))]),
        remapping("z=y/x", &[("z", Some("z")), ("y/x", Some("y/x"))]),
    ];
    assert_eq!(
        assemble_inputs(&inputs),
        Ok((strings(&["b/c.sol", "a.sol"]), Some(strings(&["a=b", "z=y/x"]))))
    );
    assert_eq!(inputs[0].file(), Some("b/c.sol".to_owned()));
    assert_eq!(inputs[0].remapping(), None);
    assert_eq!(inputs[0].error(), None);
    assert_eq!(inputs[1].file(), None);
    assert_eq!(inputs[1].remapping(), Some("z=y/x".to_owned()));
    assert_eq!(inputs[1].error(), None);
    assert_eq!(assemble_inputs(&vec![]), Ok((vec![], None)));
}

#[test]
fn path_without_posix_form() {
    let inputs = vec![
        file("a.sol", Some("a.sol")),
        remapping("a=b=c", &[("a", Some("a")), ("b", None), ("c", None)]),
        file("bad", None),
    ];
    assert_eq!(assemble_inputs(&inputs), Err(ArgumentsError::PosixConversion("b".to_owned())));
    assert_eq!(
        assemble_inputs(&inputs[2..].to_vec()),
        Err(ArgumentsError::PosixConversion("bad".to_owned()))
    );
    assert_eq!(
        assemble_inputs(&vec![remapping("a", &[("a", Some("a"))]), file("bad", None)]),
        Err(ArgumentsError::InvalidRemapping("a".to_owned()))
    );
    assert_eq!(
        ArgumentsError::PosixConversion("bad".to_owned()).message(),
        "Input path bad POSIX conversion error"
    );
}

#[test]
fn optimizer_settings_of_the_arguments() {
    let mut asked = arguments(&[]);
    let settings = asked.optimizer_settings().unwrap();
    assert_eq!(settings, Settings::cycles());
    assert!(!settings.is_fallback_to_size_enabled());
    assert!(!settings.is_verify_each_enabled && !settings.is_debug_logging_enabled);
    asked.optimization = Some('z');
    asked.fallback_to_optimizing_for_size = true;
    asked.llvm_verify_each = true;
    let settings = asked.optimizer_settings().unwrap();
    assert_eq!(settings, Settings::size());
    assert!(settings.is_fallback_to_size_enabled());
    assert!(settings.is_verify_each_enabled && !settings.is_debug_logging_enabled);
    asked.llvm_verify_each = false;
    asked.llvm_debug_logging = true;
    let settings = asked.optimizer_settings().unwrap();
    assert!(!settings.is_verify_each_enabled && settings.is_debug_logging_enabled);
    asked.optimization = Some('x');
    assert_eq!(
        asked.optimizer_settings(),
        Err(SettingsError::UnexpectedOptimizationOption('x'))
    );
}

fn is_white_space(c: char) -> bool {
    matches!(
        c as u32,
        0x09..=0x0d
            | 0x20
            | 0x85
            | 0xa0
            | 0x1680
            | 0x2000..=0x200a
            | 0x2028
            | 0x2029
            | 0x202f
            | 0x205f
            | 0x3000
    )
}

#[test]
fn exactly_the_white_space_characters_are_trimmed() {
    let mut white = 0;
    for c in '\0'..=char::MAX {
        if c == '=' {
            continue;
        }
        let trimmed_away = input_parts(&c.to_string()) == strings(&[""]);
        assert_eq!(trimmed_away, is_white_space(c), "{:?}", c);
        if trimmed_away {
            white += 1;
        }
    }
    assert_eq!(white, 25);
    assert_eq!(input_parts("\u{3000}a\u{85}b\u{2028}"), strings(&["a\u{85}b"]));
    assert_eq!(input_parts("\u{200b}a"), strings(&["\u{200b}a"]));
}
