//! The arguments of the compiler, and what is made of them before the
//! compiler runs.

use path_slash::PathExt;
use vstd::prelude::*;
use vstd::string::*;
use crate::optimizer::settings::{Settings, SettingsError};
use crate::optimizer::settings::size_level::SizeLevel;
use crate::optimizer::OptimizationLevel;
use crate::sorting::{dedup, dedup_adjacent, sort_strings, sorted};
use crate::text::{chars_of, lemma_filter_map_first, string_from_chars, view_all};

verus! {

/// Whether a character has the Unicode property `White_Space`: the
/// characters from tab to carriage return, the space, the next line, the
/// no-break space, the Ogham space mark, the spaces from en quad to hair
/// space, the line and the paragraph separator, the narrow no-break space,
/// the medium mathematical space and the ideographic space.
pub open spec fn char_is_whitespace(c: char) -> bool {
    let code = c as u32;
    ||| 0x09 <= code <= 0x0d
    ||| code == 0x20
    ||| code == 0x85
    ||| code == 0xa0
    ||| code == 0x1680
    ||| 0x2000 <= code <= 0x200a
    ||| code == 0x2028
    ||| code == 0x2029
    ||| code == 0x202f
    ||| code == 0x205f
    ||| code == 0x3000
}

/// `char::is_whitespace` of the standard library: whether the character
/// has the Unicode property `White_Space`. Believed, not proved.
pub assume_specification[ char::is_whitespace ](c: char) -> (b: bool)
    ensures
        b == char_is_whitespace(c),
;

/// `PathExt::to_slash` of the crate path-slash, on the path that `path`
/// spells: the path with `/` between its parts, or nothing. What comes back
/// depends on the system that the program is built for, so nothing is
/// claimed of it.
#[verifier::external_body]
fn to_slash(path: &str) -> (posix: Option<String>) {
    std::path::Path::new(path).to_slash().map(|posix| posix.to_string())
}

/// The arguments of the compiler.
#[derive(Debug, Clone, PartialEq, Eq)]
pub struct Arguments {
    /// Print the version and exit.
    pub version: bool,
    /// The input paths and remappings. An argument with a `=` in it is a
    /// remapping.
    pub inputs: Vec<String>,
    /// The root of the source tree, in place of the root of the filesystem.
    pub base_path: Option<String>,
    /// More source directories for the default import callback.
    pub include_paths: Vec<String>,
    /// The paths that imports may come from, separated by commas.
    pub allow_paths: Option<String>,
    /// The directory for one file per component and contract.
    pub output_directory: Option<String>,
    /// The path to the `solc` executable.
    pub solc: Option<String>,
    /// The optimization parameter: one of `0`, `1`, `2`, `3`, `s` and `z`.
    pub optimization: Option<char>,
    /// Try to recompile for size if the bytecode is too large.
    pub fallback_to_optimizing_for_size: bool,
    /// Disable the `solc` optimizer.
    pub disable_solc_optimizer: bool,
    /// The EVM target version to generate IR for.
    pub evm_version: Option<String>,
    /// The addresses of deployable libraries.
    pub libraries: Vec<String>,
    /// What is passed on to the back end as its command line.
    pub llvm_arguments: Vec<String>,
    /// Set the verify-each option of the back end.
    pub llvm_verify_each: bool,
    /// Set the debug-logging option of the back end.
    pub llvm_debug_logging: bool,
    /// The warnings to suppress.
    pub suppress_warnings: Option<Vec<String>>,
    /// Generate source based debug information.
    pub emit_source_debug_info: bool,
    /// The directory that all IRs are dumped to.
    pub debug_output_directory: Option<String>,
}

/// Why the arguments cannot be used.
#[derive(Debug, Clone, PartialEq, Eq)]
pub enum ArgumentsError {
    /// The version is asked for together with other options.
    VersionWithOtherOptions,
    /// A remapping that is not two parts with one `=` between them.
    InvalidRemapping(String),
    /// A path that has no POSIX form.
    PosixConversion(String),
}

/// What an [`ArgumentsError`] holds.
pub enum ArgumentsErrorView {
    VersionWithOtherOptions,
    InvalidRemapping(Seq<char>),
    PosixConversion(Seq<char>),
}

impl View for ArgumentsError {
    type V = ArgumentsErrorView;

    open spec fn view(&self) -> ArgumentsErrorView {
        match self {
            ArgumentsError::VersionWithOtherOptions => ArgumentsErrorView::VersionWithOtherOptions,
            ArgumentsError::InvalidRemapping(input) => ArgumentsErrorView::InvalidRemapping(input@),
            ArgumentsError::PosixConversion(path) => ArgumentsErrorView::PosixConversion(path@),
        }
    }
}

impl ArgumentsError {
    /// The error in words.
    pub fn message(&self) -> (r: String)
        ensures
            r@ == match self@ {
                ArgumentsErrorView::VersionWithOtherOptions => {
                    "No other options are allowed while getting the compiler version."@
                },
                ArgumentsErrorView::InvalidRemapping(input) => "Invalid remapping `"@ + input
                    + "`: expected two parts separated by '='"@,
                ArgumentsErrorView::PosixConversion(path) => "Input path "@ + path
                    + " POSIX conversion error"@,
            },
    {
        match self {
            ArgumentsError::VersionWithOtherOptions => String::from_str(
                "No other options are allowed while getting the compiler version.",
            ),
            ArgumentsError::InvalidRemapping(input) => String::from_str(
                "Invalid remapping `",
            ).concat(input.as_str()).concat("`: expected two parts separated by '='"),
            ArgumentsError::PosixConversion(path) => String::from_str("Input path ").concat(
                path.as_str(),
            ).concat(" POSIX conversion error"),
        }
    }
}

/// How many white space characters stand at the start of `s` from `i` on.
pub open spec fn leading_whitespace(s: Seq<char>, i: int) -> int
    decreases s.len() - i,
{
    if 0 <= i < s.len() && char_is_whitespace(s[i]) {
        1 + leading_whitespace(s, i + 1)
    } else {
        0
    }
}

/// How many white space characters stand at the end of the first `n`
/// characters of `s`.
pub open spec fn trailing_whitespace(s: Seq<char>, n: int) -> int
    decreases n,
{
    if 0 < n <= s.len() && char_is_whitespace(s[n - 1]) {
        1 + trailing_whitespace(s, n - 1)
    } else {
        0
    }
}

/// `s` without the white space at its start and at its end.
pub open spec fn trimmed(s: Seq<char>) -> Seq<char> {
    let start = leading_whitespace(s, 0);
    if start >= s.len() {
        Seq::empty()
    } else {
        s.subrange(start, s.len() - trailing_whitespace(s, s.len() as int))
    }
}

/// The parts of `s` between the separators: one more than there are
/// separators in `s`.
pub open spec fn split_on(s: Seq<char>, separator: char) -> Seq<Seq<char>>
    decreases s.len(),
{
    if s.len() == 0 {
        seq![Seq::empty()]
    } else {
        let parts = split_on(s.drop_last(), separator);
        if s.last() == separator {
            parts.push(Seq::empty())
        } else {
            parts.update(parts.len() - 1, parts.last().push(s.last()))
        }
    }
}

/// The parts of an input whose paths are handed to the system: its
/// trimmed text alone, or, where it has a `=` in it, the parts of its trimmed
/// text between the `=`.
pub open spec fn parts_of_input(input: Seq<char>) -> Seq<Seq<char>> {
    if input.contains('=') {
        split_on(trimmed(input), '=')
    } else {
        seq![trimmed(input)]
    }
}

/// An input with the POSIX form of each of its paths, as far as the system
/// gave one.
#[derive(Debug, Clone, PartialEq, Eq)]
pub enum ConvertedInput {
    /// An input file: its path and the POSIX form of it.
    File { path: String, posix: Option<String> },
    /// A remapping: the input as it was given, and each of its parts with
    /// the POSIX form of it.
    Remapping { input: String, parts: Vec<(String, Option<String>)> },
}

/// What a [`ConvertedInput`] holds.
pub enum ConvertedInputView {
    File { path: Seq<char>, posix: Option<Seq<char>> },
    Remapping { input: Seq<char>, parts: Seq<(Seq<char>, Option<Seq<char>>)> },
}

/// The view of a string that may be absent.
pub open spec fn option_view(s: Option<String>) -> Option<Seq<char>> {
    match s {
        Some(s) => Some(s@),
        None => None,
    }
}

/// What a part with its POSIX form holds.
pub open spec fn part_view(part: (String, Option<String>)) -> (Seq<char>, Option<Seq<char>>) {
    (part.0@, option_view(part.1))
}

impl View for ConvertedInput {
    type V = ConvertedInputView;

    open spec fn view(&self) -> ConvertedInputView {
        match self {
            ConvertedInput::File { path, posix } => ConvertedInputView::File {
                path: path@,
                posix: option_view(*posix),
            },
            ConvertedInput::Remapping { input, parts } => ConvertedInputView::Remapping {
                input: input@,
                parts: parts@.map_values(|part: (String, Option<String>)| part_view(part)),
            },
        }
    }
}

/// A part that has no POSIX form, and nothing for any other.
pub open spec fn unconverted_part() -> spec_fn((Seq<char>, Option<Seq<char>>)) -> Option<
    Seq<char>,
> {
    |part: (Seq<char>, Option<Seq<char>>)|
        match part.1 {
            Some(_) => None,
            None => Some(part.0),
        }
}

impl ConvertedInputView {
    /// Whether this is what `input` gives, whatever the POSIX forms are.
    pub open spec fn is_conversion_of(self, input: Seq<char>) -> bool {
        match self {
            ConvertedInputView::File { path, .. } => !input.contains('=') && path == trimmed(input),
            ConvertedInputView::Remapping { input: given, parts } => {
                &&& input.contains('=')
                &&& given == input
                &&& parts.len() == parts_of_input(input).len()
                &&& forall|i: int|
                    0 <= i < parts.len() ==> (#[trigger] parts[i]).0 == parts_of_input(input)[i]
            },
        }
    }

    /// Why the input cannot be used, if it cannot: the first of its paths
    /// that has no POSIX form or, for a remapping, that it does not have two
    /// parts.
    pub open spec fn error(self) -> Option<ArgumentsErrorView> {
        match self {
            ConvertedInputView::File { path, posix } => match posix {
                Some(_) => None,
                None => Some(ArgumentsErrorView::PosixConversion(path)),
            },
            ConvertedInputView::Remapping { input, parts } => {
                if parts.filter_map(unconverted_part()).len() > 0 {
                    Some(
                        ArgumentsErrorView::PosixConversion(
                            parts.filter_map(unconverted_part())[0],
                        ),
                    )
                } else if parts.len() != 2 {
                    Some(ArgumentsErrorView::InvalidRemapping(input))
                } else {
                    None
                }
            },
        }
    }

    /// The input file that the input gives, if it gives one.
    pub open spec fn file(self) -> Option<Seq<char>> {
        match self {
            ConvertedInputView::File { posix, .. } => posix,
            ConvertedInputView::Remapping { .. } => None,
        }
    }

    /// The remapping that the input gives, if it gives one: its two parts
    /// in POSIX form with a `=` between them.
    pub open spec fn remapping(self) -> Option<Seq<char>> {
        match self {
            ConvertedInputView::File { .. } => None,
            ConvertedInputView::Remapping { parts, .. } => if parts.len() == 2 && parts[0].1 is Some
                && parts[1].1 is Some {
                Some(parts[0].1->0 + "="@ + parts[1].1->0)
            } else {
                None
            },
        }
    }
}

/// The error of an input.
pub open spec fn error_of() -> spec_fn(ConvertedInputView) -> Option<ArgumentsErrorView> {
    |input: ConvertedInputView| input.error()
}

/// The input file of an input.
pub open spec fn file_of() -> spec_fn(ConvertedInputView) -> Option<Seq<char>> {
    |input: ConvertedInputView| input.file()
}

/// The remapping of an input.
pub open spec fn remapping_of() -> spec_fn(ConvertedInputView) -> Option<Seq<char>> {
    |input: ConvertedInputView| input.remapping()
}

/// The input files and the remappings that converted inputs give, or the
/// error of the first input that has one. The input files stand in the order
/// of the inputs. The remappings are a set in ascending order, and are absent
/// where there is none.
pub open spec fn assembled(inputs: Seq<ConvertedInputView>) -> Result<
    (Seq<Seq<char>>, Option<Seq<Seq<char>>>),
    ArgumentsErrorView,
> {
    if inputs.filter_map(error_of()).len() > 0 {
        Err(inputs.filter_map(error_of())[0])
    } else {
        let remappings = dedup_adjacent(sorted(inputs.filter_map(remapping_of())));
        Ok(
            (
                inputs.filter_map(file_of()),
                if remappings.len() == 0 {
                    None
                } else {
                    Some(remappings)
                },
            ),
        )
    }
}

/// What the input files and remappings, or the error, hold.
pub open spec fn assembled_view(
    res: Result<(Vec<String>, Option<Vec<String>>), ArgumentsError>,
) -> Result<(Seq<Seq<char>>, Option<Seq<Seq<char>>>), ArgumentsErrorView> {
    match res {
        Ok((files, remappings)) => Ok(
            (
                view_all(files@),
                match remappings {
                    Some(remappings) => Some(view_all(remappings@)),
                    None => None,
                },
            ),
        ),
        Err(error) => Err(error@),
    }
}

fn trim(chars: &Vec<char>) -> (r: Vec<char>)
    ensures
        r@ == trimmed(chars@),
{
    let mut start: usize = 0;
    while start < chars.len() && chars[start].is_whitespace()
        invariant
            start <= chars.len(),
            leading_whitespace(chars@, 0) == start + leading_whitespace(chars@, start as int),
        decreases chars.len() - start,
    {
        start += 1;
    }
    let mut r: Vec<char> = Vec::new();
    if start >= chars.len() {
        return r;
    }
    let mut end: usize = chars.len();
    while end > 0 && chars[end - 1].is_whitespace()
        invariant
            end <= chars.len(),
            trailing_whitespace(chars@, chars.len() as int) == (chars.len() - end)
                + trailing_whitespace(chars@, end as int),
        decreases end,
    {
        end -= 1;
    }
    assert(start < end) by {
        lemma_trailing_whitespace_bound(chars@, chars.len() as int, start as int);
        lemma_trailing_whitespace_is_natural(chars@, end as int);
    }
    let mut i: usize = start;
    while i < end
        invariant
            start <= i <= end <= chars.len(),
            r@ == chars@.subrange(start as int, i as int),
        decreases end - i,
    {
        r.push(chars[i]);
        i += 1;
    }
    r
}

proof fn lemma_trailing_whitespace_is_natural(s: Seq<char>, n: int)
    ensures
        0 <= trailing_whitespace(s, n),
    decreases n,
{
    if 0 < n <= s.len() && char_is_whitespace(s[n - 1]) {
        lemma_trailing_whitespace_is_natural(s, n - 1);
    }
}

proof fn lemma_trailing_whitespace_bound(s: Seq<char>, n: int, at: int)
    requires
        0 <= at < n <= s.len(),
        !char_is_whitespace(s[at]),
    ensures
        trailing_whitespace(s, n) <= n - 1 - at,
    decreases n,
{
    if n - 1 > at && char_is_whitespace(s[n - 1]) {
        lemma_trailing_whitespace_bound(s, n - 1, at);
    }
}

fn split(chars: &Vec<char>, separator: char) -> (r: Vec<String>)
    ensures
        view_all(r@) == split_on(chars@, separator),
{
    let mut parts: Vec<String> = Vec::new();
    let mut current: Vec<char> = Vec::new();
    let mut i: usize = 0;
    assert(chars@.take(0) =~= Seq::<char>::empty());
    assert(view_all(parts@).push(current@) =~= split_on(chars@.take(0), separator));
    while i < chars.len()
        invariant
            i <= chars.len(),
            view_all(parts@).push(current@) == split_on(chars@.take(i as int), separator),
        decreases chars.len() - i,
    {
        let ghost before = view_all(parts@);
        let ghost word = current@;
        assert(chars@.take(i as int + 1).drop_last() == chars@.take(i as int));
        assert(chars@.take(i as int + 1).last() == chars@[i as int]);
        if chars[i] == separator {
            parts.push(string_from_chars(&current));
            current = Vec::new();
            assert(view_all(parts@).push(current@) =~= before.push(word).push(Seq::empty()));
        } else {
            current.push(chars[i]);
            assert(view_all(parts@).push(current@) =~= before.push(word).update(
                before.len() as int,
                word.push(chars@[i as int]),
            ));
        }
        i += 1;
    }
    assert(chars@.take(chars.len() as int) == chars@);
    let ghost before = view_all(parts@);
    parts.push(string_from_chars(&current));
    assert(view_all(parts@) =~= before.push(current@));
    parts
}

fn has_char(chars: &Vec<char>, c: char) -> (r: bool)
    ensures
        r == chars@.contains(c),
{
    let mut i: usize = 0;
    while i < chars.len()
        invariant
            i <= chars.len(),
            forall|j: int| 0 <= j < i ==> chars@[j] != c,
        decreases chars.len() - i,
    {
        if chars[i] == c {
            return true;
        }
        i += 1;
    }
    false
}

/// The parts of an input whose paths are handed to the system.
pub fn input_parts(input: &str) -> (parts: Vec<String>)
    ensures
        view_all(parts@) == parts_of_input(input@),
{
    let chars = chars_of(input);
    let trimmed = trim(&chars);
    if has_char(&chars, '=') {
        split(&trimmed, '=')
    } else {
        let mut parts: Vec<String> = Vec::new();
        parts.push(string_from_chars(&trimmed));
        assert(view_all(parts@) =~= seq![trimmed@]);
        parts
    }
}

fn convert_input(input: &String) -> (converted: ConvertedInput)
    ensures
        converted@.is_conversion_of(input@),
{
    let parts = input_parts(input.as_str());
    let chars = chars_of(input.as_str());
    if has_char(&chars, '=') {
        let mut converted: Vec<(String, Option<String>)> = Vec::new();
        let mut i: usize = 0;
        while i < parts.len()
            invariant
                i <= parts.len(),
                converted.len() == i,
                forall|j: int| 0 <= j < i ==> (#[trigger] converted@[j]).0@ == parts@[j]@,
            decreases parts.len() - i,
        {
            let posix = to_slash(parts[i].as_str());
            converted.push((parts[i].clone(), posix));
            i += 1;
        }
        let result = ConvertedInput::Remapping { input: input.clone(), parts: converted };
        assert forall|j: int| 0 <= j < result@->parts.len() implies (#[trigger] result@->parts[j]).0
            == parts_of_input(input@)[j] by {
            assert(result@->parts[j] == part_view(converted@[j]));
            assert(view_all(parts@)[j] == parts@[j]@);
        }
        result
    } else {
        assert(view_all(parts@).len() == parts@.len());
        assert(parts_of_input(input@).len() == 1);
        assert(view_all(parts@)[0] == parts@[0]@);
        let posix = to_slash(parts[0].as_str());
        ConvertedInput::File { path: parts[0].clone(), posix }
    }
}

fn first_unconverted(parts: &Vec<(String, Option<String>)>) -> (r: Option<String>)
    ensures
        match r {
            Some(path) => parts@.map_values(
                |part: (String, Option<String>)| part_view(part),
            ).filter_map(unconverted_part()).len() > 0 && parts@.map_values(
                |part: (String, Option<String>)| part_view(part),
            ).filter_map(unconverted_part())[0] == path@,
            None => parts@.map_values(
                |part: (String, Option<String>)| part_view(part),
            ).filter_map(unconverted_part()).len() == 0 && forall|i: int|
                0 <= i < parts.len() ==> (#[trigger] parts@[i]).1 is Some,
        },
{
    let ghost views = parts@.map_values(|part: (String, Option<String>)| part_view(part));
    let mut i: usize = 0;
    assert(views.take(0) == Seq::<(Seq<char>, Option<Seq<char>>)>::empty());
    while i < parts.len()
        invariant
            i <= parts.len(),
            views == parts@.map_values(|part: (String, Option<String>)| part_view(part)),
            views.take(i as int).filter_map(unconverted_part()).len() == 0,
            forall|j: int| 0 <= j < i ==> (#[trigger] parts@[j]).1 is Some,
        decreases parts.len() - i,
    {
        proof {
            views.lemma_filter_map_take_succ(unconverted_part(), i as int);
        }
        assert(views[i as int] == part_view(parts@[i as int]));
        if parts[i].1.is_none() {
            proof {
                lemma_filter_map_first(views, unconverted_part(), i as int + 1);
            }
            return Some(parts[i].0.clone());
        }
        i += 1;
    }
    assert(views.take(parts.len() as int) == views);
    None
}

impl ConvertedInput {
    /// Why the input cannot be used, if it cannot.
    pub fn error(&self) -> (error: Option<ArgumentsError>)
        ensures
            match error {
                Some(error) => self@.error() == Some(error@),
                None => self@.error() is None,
            },
    {
        match self {
            ConvertedInput::File { path, posix } => match posix {
                Some(_) => None,
                None => Some(ArgumentsError::PosixConversion(path.clone())),
            },
            ConvertedInput::Remapping { input, parts } => match first_unconverted(parts) {
                Some(path) => Some(ArgumentsError::PosixConversion(path)),
                None => {
                    if parts.len() != 2 {
                        Some(ArgumentsError::InvalidRemapping(input.clone()))
                    } else {
                        None
                    }
                },
            },
        }
    }

    /// The input file that the input gives, if it gives one.
    pub fn file(&self) -> (file: Option<String>)
        ensures
            option_view(file) == self@.file(),
    {
        match self {
            ConvertedInput::File { posix, .. } => posix.clone(),
            ConvertedInput::Remapping { .. } => None,
        }
    }

    /// The remapping that the input gives, if it gives one.
    pub fn remapping(&self) -> (remapping: Option<String>)
        ensures
            option_view(remapping) == self@.remapping(),
    {
        match self {
            ConvertedInput::File { .. } => None,
            ConvertedInput::Remapping { parts, .. } => {
                if parts.len() != 2 {
                    return None;
                }
                assert(self@->parts[0] == part_view(parts@[0]));
                assert(self@->parts[1] == part_view(parts@[1]));
                match (&parts[0].1, &parts[1].1) {
                    (Some(from), Some(to)) => Some(
                        from.clone().concat("=").concat(to.as_str()),
                    ),
                    _ => None,
                }
            },
        }
    }
}

/// The input files and the remappings that converted inputs give, or the
/// error of the first input that has one.
pub fn assemble_inputs(inputs: &Vec<ConvertedInput>) -> (res: Result<
    (Vec<String>, Option<Vec<String>>),
    ArgumentsError,
>)
    ensures
        assembled_view(res) == assembled(view_all(inputs@)),
{
    let ghost views = view_all(inputs@);
    let mut files: Vec<String> = Vec::new();
    let mut remappings: Vec<String> = Vec::new();
    let mut i: usize = 0;
    assert(views.take(0) == Seq::<ConvertedInputView>::empty());
    assert(view_all(files@) =~= Seq::<Seq<char>>::empty());
    assert(view_all(remappings@) =~= Seq::<Seq<char>>::empty());
    while i < inputs.len()
        invariant
            i <= inputs.len(),
            views == view_all(inputs@),
            views.take(i as int).filter_map(error_of()).len() == 0,
            view_all(files@) == views.take(i as int).filter_map(file_of()),
            view_all(remappings@) == views.take(i as int).filter_map(remapping_of()),
        decreases inputs.len() - i,
    {
        proof {
            views.lemma_filter_map_take_succ(error_of(), i as int);
            views.lemma_filter_map_take_succ(file_of(), i as int);
            views.lemma_filter_map_take_succ(remapping_of(), i as int);
        }
        assert(views[i as int] == inputs@[i as int]@);
        match inputs[i].error() {
            Some(error) => {
                proof {
                    lemma_filter_map_first(views, error_of(), i as int + 1);
                }
                return Err(error);
            },
            None => {},
        }
        match inputs[i].file() {
            Some(file) => {
                let ghost before = view_all(files@);
                files.push(file);
                assert(view_all(files@) =~= before + seq![file@]);
            },
            None => {},
        }
        match inputs[i].remapping() {
            Some(remapping) => {
                let ghost before = view_all(remappings@);
                remappings.push(remapping);
                assert(view_all(remappings@) =~= before + seq![remapping@]);
            },
            None => {},
        }
        i += 1;
    }
    assert(views.take(inputs.len() as int) == views);
    sort_strings(&mut remappings);
    let remappings = dedup(&remappings);
    assert(view_all(remappings@).len() == remappings.len());
    let remappings = if remappings.len() == 0 {
        None
    } else {
        Some(remappings)
    };
    Ok((files, remappings))
}

impl Arguments {
    /// Validate the arguments: where the version is asked for, the command
    /// line may hold nothing else, that is at most two arguments.
    pub fn validate(&self, argument_count: usize) -> (res: Result<(), ArgumentsError>)
        ensures
            res is Err <==> self.version && argument_count > 2,
            res matches Err(error) ==> error@ == ArgumentsErrorView::VersionWithOtherOptions,
    {
        if self.version && argument_count > 2 {
            return Err(ArgumentsError::VersionWithOtherOptions);
        }
        Ok(())
    }

    /// The optimizer settings that the arguments ask for: those of the
    /// optimization parameter, or those for the fewest cycles where there is
    /// none, with the fallback to size and the two switches of the back end as
    /// they are given.
    pub fn optimizer_settings(&self) -> (res: Result<Settings, SettingsError>)
        ensures
            match self.optimization {
                Some(mode) => match Settings::of_parameter(mode) {
                    Some(settings) => res == Ok::<Settings, SettingsError>(
                        Settings {
                            is_fallback_to_size_enabled: self.fallback_to_optimizing_for_size,
                            is_verify_each_enabled: self.llvm_verify_each,
                            is_debug_logging_enabled: self.llvm_debug_logging,
                            ..settings
                        },
                    ),
                    None => res == Err::<Settings, SettingsError>(
                        SettingsError::UnexpectedOptimizationOption(mode),
                    ),
                },
                None => res == Ok::<Settings, SettingsError>(
                    Settings {
                        level_middle_end: OptimizationLevel::Aggressive,
                        level_middle_end_size: SizeLevel::Zero,
                        level_back_end: OptimizationLevel::Aggressive,
                        is_fallback_to_size_enabled: self.fallback_to_optimizing_for_size,
                        is_verify_each_enabled: self.llvm_verify_each,
                        is_debug_logging_enabled: self.llvm_debug_logging,
                    },
                ),
            },
    {
        let mut settings = match self.optimization {
            Some(mode) => match Settings::try_from_cli(mode) {
                Ok(settings) => settings,
                Err(error) => {
                    return Err(error);
                },
            },
            None => Settings::cycles(),
        };
        if self.fallback_to_optimizing_for_size {
            settings.enable_fallback_to_size();
        }
        settings.is_verify_each_enabled = self.llvm_verify_each;
        settings.is_debug_logging_enabled = self.llvm_debug_logging;
        Ok(settings)
    }

    /// Returns the input files and the remappings from the input paths.
    /// Each path is handed to the system for its POSIX form; what comes of
    /// the inputs is what [`assemble_inputs`] makes of the forms that came
    /// back.
    pub fn split_input_files_and_remappings(&self) -> (res: Result<
        (Vec<String>, Option<Vec<String>>),
        ArgumentsError,
    >)
        ensures
            exists|converted: Seq<ConvertedInputView>|
                {
                    &&& converted.len() == self.inputs.len()
                    &&& forall|i: int|
                        0 <= i < converted.len() ==> (#[trigger] converted[i]).is_conversion_of(
                            self.inputs@[i]@,
                        )
                    &&& assembled_view(res) == assembled(converted)
                },
    {
        let mut converted: Vec<ConvertedInput> = Vec::new();
        let mut i: usize = 0;
        while i < self.inputs.len()
            invariant
                i <= self.inputs.len(),
                converted.len() == i,
                forall|j: int|
                    0 <= j < i ==> (#[trigger] view_all(converted@)[j]).is_conversion_of(
                        self.inputs@[j]@,
                    ),
            decreases self.inputs.len() - i,
        {
            let input = convert_input(&self.inputs[i]);
            let ghost before = view_all(converted@);
            converted.push(input);
            assert(view_all(converted@) =~= before.push(input@));
            i += 1;
        }
        let res = assemble_inputs(&converted);
        assert(view_all(converted@).len() == self.inputs.len());
        res
    }
}

} // verus!
