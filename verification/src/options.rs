//! Command line options.

use vstd::prelude::*;

use getopts::{Matches, Options};

use crate::text::{all_digits, value};

verus! {

/// Declares `getopts::Options`, the description of the options that a program can handle.
#[verifier::external_type_specification]
#[verifier::external_body]
pub struct ExOptions(Options);

/// Declares `getopts::Matches`, the options that a command line holds.
#[verifier::external_type_specification]
#[verifier::external_body]
pub struct ExMatches(Matches);

/// An option: its short name, its long name, its description, the hint for its argument, whether
/// it has an argument (no, yes, or maybe), and how often it occurs (once, at most once, or any
/// number of times), the last two by their positions in these lists.
pub type Group = (Seq<char>, Seq<char>, Seq<char>, Seq<char>, int, int);

/// The option groups that have been added to a `getopts::Options`, in order.
pub uninterp spec fn installed(options: Options) -> Seq<Group>;

/// Whether a `getopts::Options` stops at the first free argument, and whether it has long options
/// only.
pub uninterp spec fn parsing_style(options: Options) -> (bool, bool);

/// What a `getopts::Matches` holds: for each name of an option that can be asked for the values
/// with which it was given, in order, where `None` stands for one without an argument.
pub uninterp spec fn occurrences(matches: Matches) -> Map<Seq<char>, Seq<Option<Seq<char>>>>;

/// What `getopts::Options::parse` makes of a command line, or the message of its error.
pub uninterp spec fn parsed(
    groups: Seq<Group>,
    style: (bool, bool),
    args: Seq<Seq<char>>,
) -> Result<Map<Seq<char>, Seq<Option<Seq<char>>>>, Seq<char>>;

/// What the error of `usize::from_str` on `text` says where a `usize` has `bits` bits. The digits
/// are read in turn, so that the width decides whether a digit too many or one that is none is
/// met first.
pub uninterp spec fn parse_int_failure(text: Seq<char>, bits: nat) -> Seq<char>;

/// An option that may occur once, with an argument.
pub open spec fn with_argument(short: &str, long: &str, desc: &str, hint: &str) -> Group {
    (short@, long@, desc@, hint@, 1, 1)
}

/// An option that may occur once, without an argument.
pub open spec fn flag(short: &str, long: &str, desc: &str) -> Group {
    (short@, long@, desc@, Seq::empty(), 0, 1)
}

/// Whether an option has a name of either length.
pub open spec fn has_both_names(group: Group) -> bool {
    group.0.len() == 1 && (group.0[0] as nat) < 128 && group.1.len() > 1
}

/// The first value with which the option was given, if it was given with one.
pub open spec fn first_value(
    given: Map<Seq<char>, Seq<Option<Seq<char>>>>,
    name: Seq<char>,
) -> Option<Seq<char>> {
    if given[name].len() > 0 {
        given[name][0]
    } else {
        None
    }
}

/// The number that `text` stands for: decimal digits behind an optional plus sign.
pub open spec fn unsigned(text: Seq<char>) -> Option<nat> {
    let digits = if text.len() > 0 && text[0] == '+' {
        text.drop_first()
    } else {
        text
    };
    if digits.len() > 0 && all_digits(digits) {
        Some(value(digits))
    } else {
        None
    }
}

/// The number that the option was given with, `default` where it was not given with a value, or
/// what is wrong with the value.
pub open spec fn number_of(
    given: Map<Seq<char>, Seq<Option<Seq<char>>>>,
    name: Seq<char>,
    default: usize,
) -> Result<usize, Seq<char>> {
    match first_value(given, name) {
        None => Ok(default),
        Some(text) => match unsigned(text) {
            Some(n) if n <= usize::MAX => Ok(n as usize),
            _ => Err(parse_int_failure(text, usize::BITS as nat)),
        },
    }
}

/// A number that is not given is the default. One that is given is what its first value says in decimal
/// digits, behind a plus sign or not, where it is not too large, and is wrong otherwise.
pub proof fn law_number_of_option(
    given: Map<Seq<char>, Seq<Option<Seq<char>>>>,
    name: Seq<char>,
    default: usize,
    digits: Seq<char>,
)
    ensures
        given[name].len() == 0 || given[name][0] is None ==> number_of(given, name, default) == Ok::<
            usize,
            Seq<char>,
        >(default),
        given[name].len() > 0 && (given[name][0] == Some(digits) || given[name][0] == Some(
            seq!['+'] + digits,
        )) && digits.len() > 0 && all_digits(digits) ==> {
            &&& value(digits) <= usize::MAX ==> number_of(given, name, default) == Ok::<
                usize,
                Seq<char>,
            >(value(digits) as usize)
            &&& value(digits) > usize::MAX ==> number_of(given, name, default) is Err
        },
        given[name].len() > 0 && given[name][0] == Some(digits) && digits.len() == 0 ==> number_of(
            given,
            name,
            default,
        ) is Err,
{
    if digits.len() > 0 && all_digits(digits) {
        assert('0' <= digits[0]);
        assert((seq!['+'] + digits).drop_first() =~= digits);
    }
}

/// Calls `getopts::Options::new`, which describes no option, lets free arguments stand anywhere
/// and knows short and long options.
#[verifier::external_body]
pub(crate) fn no_options() -> (options: Options)
    ensures
        installed(options) == Seq::<Group>::empty(),
        parsing_style(options) == (false, false),
{
    Options::new()
}

/// Calls `getopts::Options::optopt`, which adds one option that takes an argument. It panics on a
/// short name of more than a byte and on a long name of a single byte.
#[verifier::external_body]
pub(crate) fn optopt(options: &mut Options, short: &str, long: &str, desc: &str, hint: &str)
    requires
        has_both_names(with_argument(short, long, desc, hint)),
    ensures
        installed(*final(options)) == installed(*old(options)).push(
            with_argument(short, long, desc, hint),
        ),
        parsing_style(*final(options)) == parsing_style(*old(options)),
{
    options.optopt(short, long, desc, hint);
}

/// Calls `getopts::Options::optflag`, which adds one option that takes no argument. It panics on
/// a short name of more than a byte and on a long name of a single byte.
#[verifier::external_body]
pub(crate) fn optflag(options: &mut Options, short: &str, long: &str, desc: &str)
    requires
        has_both_names(flag(short, long, desc)),
    ensures
        installed(*final(options)) == installed(*old(options)).push(flag(short, long, desc)),
        parsing_style(*final(options)) == parsing_style(*old(options)),
{
    options.optflag(short, long, desc);
}

/// Calls `getopts::Options::parse`. What it returns depends on the options, the style and the
/// arguments alone; an option can be asked for by its short and by its long name. It panics on an
/// option without a name.
#[verifier::external_body]
pub(crate) fn parse(options: &Options, args: &Vec<String>) -> (result: Result<Matches, String>)
    requires
        forall|i: int|
            0 <= i < installed(*options).len() ==> has_both_names(#[trigger] installed(*options)[i]),
    ensures
        match parsed(
            installed(*options),
            parsing_style(*options),
            Seq::new(args@.len(), |i: int| args@[i]@),
        ) {
            Ok(given) => result matches Ok(matches) && occurrences(matches) == given,
            Err(message) => result matches Err(error) && error@ == message,
        },
        result matches Ok(matches) ==> forall|i: int|
            0 <= i < installed(*options).len() ==> {
                &&& occurrences(matches).dom().contains((#[trigger] installed(*options)[i]).0)
                &&& occurrences(matches).dom().contains(installed(*options)[i].1)
            },
{
    options.parse(args).map_err(|e| e.to_string())
}

/// Calls `getopts::Matches::opt_present`, which tells whether the option was given. It panics on
/// an option that cannot be asked for.
#[verifier::external_body]
pub(crate) fn opt_present(matches: &Matches, name: &str) -> (present: bool)
    requires
        occurrences(*matches).dom().contains(name@),
    ensures
        present == (occurrences(*matches)[name@].len() > 0),
{
    matches.opt_present(name)
}

/// Calls `getopts::Matches::opt_str`, which returns the first value with which the option was
/// given. It panics on an option that cannot be asked for.
#[verifier::external_body]
pub(crate) fn opt_str(matches: &Matches, name: &str) -> (text: Option<String>)
    requires
        occurrences(*matches).dom().contains(name@),
    ensures
        match first_value(occurrences(*matches), name@) {
            Some(chars) => text matches Some(text) && text@ == chars,
            None => text is None,
        },
{
    matches.opt_str(name)
}

/// Calls `getopts::Matches::opt_get_default` for a `usize`, which parses the first value with
/// which the option was given as `usize::from_str` does. It panics on an option that cannot be
/// asked for.
#[verifier::external_body]
pub(crate) fn opt_get_default(matches: &Matches, name: &str, default: usize) -> (number: Result<
    usize,
    String,
>)
    requires
        occurrences(*matches).dom().contains(name@),
    ensures
        match first_value(occurrences(*matches), name@) {
            None => number == Ok::<usize, String>(default),
            Some(text) => match unsigned(text) {
                Some(n) if n <= usize::MAX => number == Ok::<usize, String>(n as usize),
                _ => number matches Err(error) && error@ == parse_int_failure(
                    text,
                    usize::BITS as nat,
                ),
            },
        },
{
    matches.opt_get_default(name, default).map_err(|e| e.to_string())
}

} // verus!
