//! Command-line usage: the options a run takes, parsed from its arguments.
//! Invalid usage is refused with a message rather than falling back to a
//! default.
use vstd::prelude::*;

use crate::text;

verus! {

/// How the report is written.
#[derive(Debug, Clone, Copy, PartialEq, Eq)]
pub enum OutputFormat {
    Text,
    Json,
    Html,
}

/// What one run was asked to do.
#[derive(Debug, Clone, PartialEq, Eq)]
pub struct Options {
    /// The directory to scan.
    pub root: String,
    /// How many of the largest files and directories to list.
    pub top: usize,
    pub format: OutputFormat,
    pub count_lines: bool,
    pub read_git: bool,
    /// Days back the commit activity window covers.
    pub since_days: u32,
    pub read_cargo: bool,
    pub read_profile: bool,
}

/// The options of a run given no arguments: the current directory, text,
/// the ten largest, every analysis, a thirty-day window.
pub open spec fn is_default(options: Options) -> bool {
    &&& options.root@ == "."@
    &&& options.top == 10
    &&& options.format == OutputFormat::Text
    &&& options.count_lines
    &&& options.read_git
    &&& options.since_days == 30
    &&& options.read_cargo
    &&& options.read_profile
}

impl Default for Options {
    fn default() -> (options: Self)
        ensures
            is_default(options),
    {
        Options {
            root: text::owned("."),
            top: 10,
            format: OutputFormat::Text,
            count_lines: true,
            read_git: true,
            since_days: 30,
            read_cargo: true,
            read_profile: true,
        }
    }
}

/// The value of a run of ASCII digits.
pub open spec fn digits_value(digits: Seq<char>) -> nat
    decreases digits.len(),
{
    if digits.len() == 0 {
        0
    } else {
        digits_value(digits.drop_last()) * 10 + (digits.last() as nat - '0' as nat) as nat
    }
}

pub open spec fn all_digits(digits: Seq<char>) -> bool {
    forall|i: int| 0 <= i < digits.len() ==> '0' <= #[trigger] digits[i] <= '9'
}

/// What parsing `text` as an unsigned integer no larger than `max` gives:
/// an optional `+`, then one or more ASCII digits, and a value that fits.
pub open spec fn unsigned_value(text: Seq<char>, max: nat) -> Option<nat> {
    let digits = if text.len() > 0 && text[0] == '+' {
        text.drop_first()
    } else {
        text
    };
    if digits.len() > 0 && all_digits(digits) && digits_value(digits) <= max {
        Some(digits_value(digits))
    } else {
        None
    }
}

proof fn lemma_digits_value_grows(digits: Seq<char>, k: int)
    requires
        all_digits(digits),
        0 <= k <= digits.len(),
    ensures
        digits_value(digits) >= digits_value(digits.take(k)),
    decreases digits.len(),
{
    if k < digits.len() {
        let rest = digits.drop_last();
        assert(all_digits(rest)) by {
            assert forall|i: int| 0 <= i < rest.len() implies '0' <= #[trigger] rest[i] <= '9' by {
                assert(rest[i] == digits[i]);
            }
        }
        lemma_digits_value_grows(rest, k);
        assert(rest.take(k) =~= digits.take(k));
    } else {
        assert(digits.take(k) =~= digits);
    }
}

/// Parses `text` as an unsigned decimal integer no larger than `max`, as
/// `str::parse` does for an unsigned type.
pub fn parse_unsigned(text: &str, max: u64) -> (value: Option<u64>)
    ensures
        match unsigned_value(text@, max as nat) {
            Some(n) => value == Some(n as u64),
            None => value is None,
        },
{
    let chars = text::chars_of(text);
    let start: usize = if chars.len() > 0 && chars[0] == '+' {
        1
    } else {
        0
    };
    let ghost digits = if text@.len() > 0 && text@[0] == '+' {
        text@.drop_first()
    } else {
        text@
    };
    assert(digits =~= chars@.subrange(start as int, chars@.len() as int));
    if start == chars.len() {
        return None;
    }
    let mut value: u64 = 0;
    let mut i = start;
    while i < chars.len()
        invariant
            start <= i <= chars@.len(),
            chars@ == text@,
            digits == (if text@.len() > 0 && text@[0] == '+' {
                text@.drop_first()
            } else {
                text@
            }),
            digits == chars@.subrange(start as int, chars@.len() as int),
            all_digits(chars@.subrange(start as int, i as int)),
            value == digits_value(chars@.subrange(start as int, i as int)),
            value <= max,
        decreases chars.len() - i,
    {
        let c = chars[i];
        proof {
            let done = chars@.subrange(start as int, i + 1);
            assert(done.drop_last() =~= chars@.subrange(start as int, i as int));
        }
        if !('0' <= c && c <= '9') {
            proof {
                assert(digits[i - start] == c);
                assert(!all_digits(digits));
            }
            return None;
        }
        let d = (c as u32 - '0' as u32) as u64;
        assert(d == (c as nat - '0' as nat) as nat);
        if d > max || value > (max - d) / 10 {
            proof {
                if d <= max {
                    assert(value * 10 + d > max) by (nonlinear_arith)
                        requires
                            value > (max - d) / 10,
                            d <= max,
                    ;
                }
                let k = i + 1 - start;
                let done = chars@.subrange(start as int, i + 1);
                assert(digits.take(k as int) =~= done);
                assert(done.last() == c);
                assert(digits_value(done) == value * 10 + d);
                if all_digits(digits) {
                    lemma_digits_value_grows(digits, k as int);
                }
            }
            return None;
        }
        proof {
            assert(value * 10 + d <= max) by (nonlinear_arith)
                requires
                    value <= (max - d) / 10,
                    d <= max,
            ;
        }
        value = value * 10 + d;
        i += 1;
        proof {
            let done = chars@.subrange(start as int, i as int);
            assert forall|j: int| 0 <= j < done.len() implies '0' <= #[trigger] done[j] <= '9' by {
                if j < done.len() - 1 {
                    assert(done[j] == chars@.subrange(start as int, i - 1)[j]);
                }
            }
        }
    }
    Some(value)
}


/// The value after the flag at `index`, or `None` at the end.
pub open spec fn value_after(arguments: Seq<String>, index: int) -> Option<Seq<char>> {
    if index + 1 < arguments.len() {
        Some(arguments[index + 1]@)
    } else {
        None
    }
}

pub open spec fn missing_value(flag: Seq<char>) -> Seq<char> {
    flag + " requires a value"@
}

/// What parsing `arguments` from `index` on gives, with `options` so far and
/// whether the path was already given: flags and the path in any order,
/// each flag that takes a value consuming the next argument.
pub open spec fn parsed_from(arguments: Seq<String>, index: int, options: Options, root_set: bool) -> Result<Options, Seq<char>>
    decreases arguments.len() - index,
{
    if index < 0 || index >= arguments.len() {
        Ok(options)
    } else {
        let argument = arguments[index]@;
        if argument == "--top"@ {
            match value_after(arguments, index) {
                None => Err(missing_value("--top"@)),
                Some(value) => match unsigned_value(value, usize::MAX as nat) {
                    None => Err("invalid value '"@ + value + "' for --top, expected a number"@),
                    Some(n) => parsed_from(arguments, index + 2, Options { top: n as usize, ..options }, root_set),
                },
            }
        } else if argument == "--format"@ {
            match value_after(arguments, index) {
                None => Err(missing_value("--format"@)),
                Some(value) => if value == "text"@ {
                    parsed_from(arguments, index + 2, Options { format: OutputFormat::Text, ..options }, root_set)
                } else if value == "json"@ {
                    parsed_from(arguments, index + 2, Options { format: OutputFormat::Json, ..options }, root_set)
                } else if value == "html"@ {
                    parsed_from(arguments, index + 2, Options { format: OutputFormat::Html, ..options }, root_set)
                } else {
                    Err("unsupported format '"@ + value + "', expected text, json, or html"@)
                },
            }
        } else if argument == "--no-lines"@ {
            parsed_from(arguments, index + 1, Options { count_lines: false, ..options }, root_set)
        } else if argument == "--no-git"@ {
            parsed_from(arguments, index + 1, Options { read_git: false, ..options }, root_set)
        } else if argument == "--no-cargo"@ {
            parsed_from(arguments, index + 1, Options { read_cargo: false, ..options }, root_set)
        } else if argument == "--no-profile"@ {
            parsed_from(arguments, index + 1, Options { read_profile: false, ..options }, root_set)
        } else if argument == "--since-days"@ {
            match value_after(arguments, index) {
                None => Err(missing_value("--since-days"@)),
                Some(value) => match unsigned_value(value, u32::MAX as nat) {
                    None => Err("invalid value '"@ + value + "' for --since-days, expected a number"@),
                    Some(n) => parsed_from(
                        arguments,
                        index + 2,
                        Options { since_days: n as u32, ..options },
                        root_set,
                    ),
                },
            }
        } else if argument.len() > 0 && argument[0] == '-' {
            Err("unknown flag '"@ + argument + "'"@)
        } else if root_set {
            Err("unexpected argument '"@ + argument + "', expected one path"@)
        } else {
            parsed_from(arguments, index + 1, Options { root: arguments[index], ..options }, true)
        }
    }
}

/// A `--format` flag sets the format its word names: `text` the text
/// summary, `json` the JSON document, `html` the dashboard; nothing else
/// about the options changes.
pub proof fn format_word_names_the_format(arguments: Seq<String>, index: int, options: Options, root_set: bool)
    requires
        0 <= index,
        arguments.len() == index + 2,
        arguments[index]@ == "--format"@,
    ensures
        arguments[index + 1]@ == "text"@ ==> parsed_from(arguments, index, options, root_set) == Ok::<Options, Seq<char>>(
            Options { format: OutputFormat::Text, ..options },
        ),
        arguments[index + 1]@ == "json"@ ==> parsed_from(arguments, index, options, root_set) == Ok::<Options, Seq<char>>(
            Options { format: OutputFormat::Json, ..options },
        ),
        arguments[index + 1]@ == "html"@ ==> parsed_from(arguments, index, options, root_set) == Ok::<Options, Seq<char>>(
            Options { format: OutputFormat::Html, ..options },
        ),
{
    reveal_strlit("--format");
    reveal_strlit("--top");
    reveal_strlit("text");
    reveal_strlit("json");
    reveal_strlit("html");
    let value = arguments[index + 1]@;
    assert(value_after(arguments, index) == Some(value));
    let text = Options { format: OutputFormat::Text, ..options };
    let json = Options { format: OutputFormat::Json, ..options };
    let html = Options { format: OutputFormat::Html, ..options };
    assert(parsed_from(arguments, index + 2, text, root_set) == Ok::<Options, Seq<char>>(text));
    assert(parsed_from(arguments, index + 2, json, root_set) == Ok::<Options, Seq<char>>(json));
    assert(parsed_from(arguments, index + 2, html, root_set) == Ok::<Options, Seq<char>>(html));
    assert("--format"@[2] != "--top"@[2]);
    assert(arguments[index]@ != "--top"@);
    if value == "text"@ {
        assert(parsed_from(arguments, index, options, root_set) == Ok::<Options, Seq<char>>(text));
    } else if value == "json"@ {
        assert(value != "text"@);
        assert(parsed_from(arguments, index, options, root_set) == Ok::<Options, Seq<char>>(json));
    }
}

/// Each switch turns off the analysis it names, and nothing else:
/// `--no-lines` line counting, `--no-git` the Git analyses, `--no-cargo`
/// the Cargo analyses, `--no-profile` the project profile.
pub proof fn each_switch_turns_off_its_analysis(arguments: Seq<String>, index: int, options: Options, root_set: bool)
    requires
        0 <= index,
        arguments.len() == index + 1,
    ensures
        arguments[index]@ == "--no-lines"@ ==> parsed_from(arguments, index, options, root_set) == Ok::<Options, Seq<char>>(
            Options { count_lines: false, ..options },
        ),
        arguments[index]@ == "--no-git"@ ==> parsed_from(arguments, index, options, root_set) == Ok::<Options, Seq<char>>(
            Options { read_git: false, ..options },
        ),
        arguments[index]@ == "--no-cargo"@ ==> parsed_from(arguments, index, options, root_set) == Ok::<Options, Seq<char>>(
            Options { read_cargo: false, ..options },
        ),
        arguments[index]@ == "--no-profile"@ ==> parsed_from(arguments, index, options, root_set) == Ok::<Options, Seq<char>>(
            Options { read_profile: false, ..options },
        ),
{
    reveal_strlit("--no-lines");
    reveal_strlit("--no-git");
    reveal_strlit("--no-cargo");
    reveal_strlit("--no-profile");
    reveal_strlit("--top");
    reveal_strlit("--format");
    reveal_strlit("--since-days");
    assert("--top"@.len() != "--format"@.len()
        && "--top"@.len() != "--no-lines"@.len()
        && "--top"@.len() != "--no-git"@.len()
        && "--top"@.len() != "--no-cargo"@.len()
        && "--top"@.len() != "--no-profile"@.len()
        && "--top"@.len() != "--since-days"@.len()
        && "--format"@.len() != "--no-lines"@.len()
        && "--format"@[2] != "--no-git"@[2]
        && "--format"@.len() != "--no-cargo"@.len()
        && "--format"@.len() != "--no-profile"@.len()
        && "--format"@.len() != "--since-days"@.len()
        && "--no-lines"@.len() != "--no-git"@.len()
        && "--no-lines"@[5] != "--no-cargo"@[5]
        && "--no-lines"@.len() != "--no-profile"@.len()
        && "--no-lines"@.len() != "--since-days"@.len()
        && "--no-git"@.len() != "--no-cargo"@.len()
        && "--no-git"@.len() != "--no-profile"@.len()
        && "--no-git"@.len() != "--since-days"@.len()
        && "--no-cargo"@.len() != "--no-profile"@.len()
        && "--no-cargo"@.len() != "--since-days"@.len()
        && "--no-profile"@[2] != "--since-days"@[2]);
    if arguments[index]@ == "--no-lines"@ {
        let next = Options { count_lines: false, ..options };
        assert(parsed_from(arguments, index + 1, next, root_set) == Ok::<Options, Seq<char>>(next));
    }
    if arguments[index]@ == "--no-git"@ {
        let next = Options { read_git: false, ..options };
        assert(parsed_from(arguments, index + 1, next, root_set) == Ok::<Options, Seq<char>>(next));
    }
    if arguments[index]@ == "--no-cargo"@ {
        let next = Options { read_cargo: false, ..options };
        assert(parsed_from(arguments, index + 1, next, root_set) == Ok::<Options, Seq<char>>(next));
    }
    if arguments[index]@ == "--no-profile"@ {
        let next = Options { read_profile: false, ..options };
        assert(parsed_from(arguments, index + 1, next, root_set) == Ok::<Options, Seq<char>>(next));
    }
}

/// The argument after the flag at `index`, or the error naming the flag.
pub fn take_value<'a>(arguments: &'a Vec<String>, index: usize, flag: &str) -> (value: Result<&'a str, String>)
    ensures
        match value_after(arguments@, index as int) {
            Some(v) => value matches Ok(s) && s@ == v,
            None => value matches Err(e) && e@ == missing_value(flag@),
        },
{
    let n = arguments.len();
    if index < n && n - index > 1 {
        Ok(arguments[index + 1].as_str())
    } else {
        let mut message = text::owned(flag);
        text::push_str(&mut message, " requires a value");
        Err(message)
    }
}

fn quoted_error(before: &str, value: &str, after: &str) -> (message: String)
    ensures
        message@ == before@ + value@ + after@,
{
    let mut message = text::owned(before);
    text::push_str(&mut message, value);
    text::push_str(&mut message, after);
    message
}

fn starts_with_dash(argument: &str) -> (dash: bool)
    ensures
        dash == (argument@.len() > 0 && argument@[0] == '-'),
{
    let chars = text::chars_of(argument);
    chars.len() > 0 && chars[0] == '-'
}

/// Parses the arguments of a run (the program name excluded): the flags and
/// at most one path, in any order. Anything it does not recognize is
/// refused, never ignored.
pub fn parse_arguments(arguments: &Vec<String>) -> (result: Result<Options, String>)
    ensures
        exists|defaults: Options|
            #![trigger is_default(defaults)]
            {
                &&& is_default(defaults)
                &&& match parsed_from(arguments@, 0, defaults, false) {
                    Ok(expected) => result == Ok::<Options, String>(expected),
                    Err(message) => result matches Err(e) && e@ == message,
                }
            },
{
    let mut options = Options::default();
    let ghost defaults = options;
    let mut root_set = false;
    let mut index: usize = 0;
    while index < arguments.len()
        invariant
            index <= arguments@.len(),
            is_default(defaults),
            parsed_from(arguments@, 0, defaults, false) == parsed_from(arguments@, index as int, options, root_set),
        decreases arguments.len() - index,
    {
        let argument = arguments[index].as_str();
        if text::str_eq(argument, "--top") {
            let value = match take_value(arguments, index, "--top") {
                Ok(value) => value,
                Err(message) => return Err(message),
            };
            match parse_unsigned(value, usize::MAX as u64) {
                Some(n) => options.top = n as usize,
                None => return Err(quoted_error("invalid value '", value, "' for --top, expected a number")),
            }
            index += 2;
        } else if text::str_eq(argument, "--format") {
            let value = match take_value(arguments, index, "--format") {
                Ok(value) => value,
                Err(message) => return Err(message),
            };
            if text::str_eq(value, "text") {
                options.format = OutputFormat::Text;
            } else if text::str_eq(value, "json") {
                options.format = OutputFormat::Json;
            } else if text::str_eq(value, "html") {
                options.format = OutputFormat::Html;
            } else {
                return Err(quoted_error("unsupported format '", value, "', expected text, json, or html"));
            }
            index += 2;
        } else if text::str_eq(argument, "--no-lines") {
            options.count_lines = false;
            index += 1;
        } else if text::str_eq(argument, "--no-git") {
            options.read_git = false;
            index += 1;
        } else if text::str_eq(argument, "--no-cargo") {
            options.read_cargo = false;
            index += 1;
        } else if text::str_eq(argument, "--no-profile") {
            options.read_profile = false;
            index += 1;
        } else if text::str_eq(argument, "--since-days") {
            let value = match take_value(arguments, index, "--since-days") {
                Ok(value) => value,
                Err(message) => return Err(message),
            };
            match parse_unsigned(value, u32::MAX as u64) {
                Some(n) => options.since_days = n as u32,
                None => return Err(quoted_error("invalid value '", value, "' for --since-days, expected a number")),
            }
            index += 2;
        } else if starts_with_dash(argument) {
            return Err(quoted_error("unknown flag '", argument, "'"));
        } else {
            if root_set {
                return Err(quoted_error("unexpected argument '", argument, "', expected one path"));
            }
            options.root = arguments[index].clone();
            root_set = true;
            index += 1;
        }
    }
    Ok(options)
}

/// Whether the arguments ask for help (`--help` or `-h`, anywhere).
pub fn wants_help(arguments: &Vec<String>) -> (help: bool)
    ensures
        help == exists|i: int| 0 <= i < arguments@.len() && (#[trigger] arguments@[i]@ == "--help"@ || arguments@[i]@ == "-h"@),
{
    let mut i: usize = 0;
    while i < arguments.len()
        invariant
            i <= arguments@.len(),
            forall|j: int| 0 <= j < i ==> !(#[trigger] arguments@[j]@ == "--help"@ || arguments@[j]@ == "-h"@),
        decreases arguments.len() - i,
    {
        if text::str_eq(arguments[i].as_str(), "--help") || text::str_eq(arguments[i].as_str(), "-h") {
            return true;
        }
        i += 1;
    }
    false
}

} // verus!
