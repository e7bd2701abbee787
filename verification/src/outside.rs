//! Calls into code that is not verified here.
//!
//! What this module states of that code is believed, not proved.

use vstd::prelude::*;

use crate::text;

verus! {

/// Calls `std::str::from_utf8`: bytes are text exactly when they are valid UTF-8, and the text
/// is the sequence of characters that they encode.
#[verifier::external_body]
pub(crate) fn text_of(bytes: &[u8]) -> (text: Option<&str>)
    ensures
        text is Some <==> vstd::utf8::valid_utf8(bytes@),
        text matches Some(t) ==> t@ == vstd::utf8::decode_utf8(bytes@),
{
    std::str::from_utf8(bytes).ok()
}

/// The options that a program takes, as the `getopts` crate keeps them.
#[verifier::external_type_specification]
#[verifier::external_body]
pub struct ExOptions(getopts::Options);

/// The options that a program was given, as the `getopts` crate keeps them.
#[verifier::external_type_specification]
#[verifier::external_body]
pub struct ExMatches(getopts::Matches);

/// The options that a program takes, in the order in which they were declared: for each its
/// short name, its long name, its description, the hint for its value, and whether it has a value.
pub uninterp spec fn declared_options(options: getopts::Options) -> Seq<
    (Seq<char>, Seq<char>, Seq<char>, Seq<char>, bool),
>;

/// Whether a set of options was made by `Options::new`, and filled by `Options::optopt` and
/// `Options::optflag` alone.
pub uninterp spec fn is_plain(options: getopts::Options) -> bool;

/// The values of the options that a program was given: under every name of a declared option,
/// one entry for each time that it was given, which is missing for an option without a value.
pub uninterp spec fn option_values(matches: getopts::Matches) -> Map<
    Seq<char>,
    Seq<Option<Seq<char>>>,
>;

/// What `Options::parse` makes of the arguments of a program that takes the given plain options:
/// the values of its options, or a message that says what is wrong.
pub uninterp spec fn parsed_arguments(
    options: Seq<(Seq<char>, Seq<char>, Seq<char>, Seq<char>, bool)>,
    args: Seq<Seq<char>>,
) -> Result<Map<Seq<char>, Seq<Option<Seq<char>>>>, Seq<char>>;

/// Calls `getopts::Options::new`: no option is declared yet.
#[verifier::external_body]
pub(crate) fn new_options() -> (options: getopts::Options)
    ensures
        declared_options(options).len() == 0,
        is_plain(options),
{
    getopts::Options::new()
}

/// Calls `getopts::Options::optopt`: one more option is declared, which has a value and is given
/// at most once. A short name is one byte, a long name more than one, and either may be missing:
/// on other names the call panics.
#[verifier::external_body]
pub(crate) fn declare_option(
    options: &mut getopts::Options,
    short_name: &str,
    long_name: &str,
    desc: &str,
    hint: &str,
)
    requires
        short_name.is_ascii() && short_name@.len() <= 1,
        long_name@.len() != 1,
    ensures
        declared_options(*final(options)) == declared_options(*old(options)).push(
            (short_name@, long_name@, desc@, hint@, true),
        ),
        is_plain(*old(options)) ==> is_plain(*final(options)),
{
    options.optopt(short_name, long_name, desc, hint);
}

/// Calls `getopts::Options::optflag`: one more option is declared, which has no value and is
/// given at most once. It panics on the names on which `optopt` does.
#[verifier::external_body]
pub(crate) fn declare_flag(
    options: &mut getopts::Options,
    short_name: &str,
    long_name: &str,
    desc: &str,
)
    requires
        short_name.is_ascii() && short_name@.len() <= 1,
        long_name@.len() != 1,
    ensures
        declared_options(*final(options)) == declared_options(*old(options)).push(
            (short_name@, long_name@, desc@, Seq::<char>::empty(), false),
        ),
        is_plain(*old(options)) ==> is_plain(*final(options)),
{
    options.optflag(short_name, long_name, desc);
}

/// Calls `getopts::Options::parse`, and writes its error as text. What comes back is a function
/// of the declared options and the arguments. Where it succeeds, every declared name is defined
/// in what comes back. Without arguments it succeeds, and no option is given. It panics on an
/// option that was declared without a name.
#[verifier::external_body]
pub(crate) fn parse_arguments(options: &getopts::Options, args: &Vec<String>) -> (parsed: Result<
    getopts::Matches,
    String,
>)
    requires
        is_plain(*options),
        forall|i: int|
            0 <= i < declared_options(*options).len() ==> (
            #[trigger] declared_options(*options)[i]).0.len() + declared_options(
                *options,
            )[i].1.len() > 0,
    ensures
        match parsed {
            Ok(m) => parsed_arguments(declared_options(*options), text::texts(args@)) is Ok
                && parsed_arguments(declared_options(*options), text::texts(args@))->Ok_0
                == option_values(m),
            Err(message) => parsed_arguments(declared_options(*options), text::texts(args@)) is Err
                && parsed_arguments(declared_options(*options), text::texts(args@))->Err_0
                == message@,
        },
        parsed matches Ok(m) ==> forall|i: int|
            0 <= i < declared_options(*options).len() ==> {
                let (short_name, long_name, _, _, _) = #[trigger] declared_options(*options)[i];
                &&& short_name.len() > 0 ==> option_values(m).contains_key(short_name)
                &&& long_name.len() > 0 ==> option_values(m).contains_key(long_name)
            },
        args@.len() == 0 ==> (parsed matches Ok(m) && forall|name: Seq<char>| #[trigger]
            option_values(m).contains_key(name) ==> option_values(m)[name].len() == 0),
{
    match options.parse(args) {
        Ok(matches) => Ok(matches),
        Err(fail) => Err(fail.to_string()),
    }
}

/// Calls `getopts::Matches::opt_present`: whether an option was given. It panics on a name that
/// no option has.
#[verifier::external_body]
pub(crate) fn is_given(matches: &getopts::Matches, name: &str) -> (given: bool)
    requires
        option_values(*matches).contains_key(name@),
    ensures
        given == (option_values(*matches)[name@].len() > 0),
{
    matches.opt_present(name)
}

/// Calls `getopts::Matches::opt_str`: the value of an option, the first if it was given more than
/// once. It panics on a name that no option has.
#[verifier::external_body]
pub(crate) fn value_of(matches: &getopts::Matches, name: &str) -> (value: Option<String>)
    requires
        option_values(*matches).contains_key(name@),
    ensures
        match value {
            Some(v) => option_values(*matches)[name@].len() > 0 && option_values(
                *matches,
            )[name@][0] == Some(v@),
            None => option_values(*matches)[name@].len() == 0 || option_values(
                *matches,
            )[name@][0] is None,
        },
{
    matches.opt_str(name)
}

} // verus!
