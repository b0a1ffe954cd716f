use vstd::prelude::*;
use vstd::string::StringExecFns;
use crate::opt::{Opt, MAX_OPT};

verus! {

/// The name of a keyword argument passed to `dumps`.
#[derive(Clone, Copy, Debug, PartialEq, Eq, Structural)]
pub enum KeywordName {
    Default,
    Option,
    Other,
}

/// Where an argument of `dumps` was passed: the index of a positional
/// argument, or the index of a keyword argument among the keywords.
#[derive(Clone, Copy, Debug, PartialEq, Eq, Structural)]
pub enum ArgSource {
    Positional(usize),
    Keyword(usize),
}

/// Which arguments supply `default` and `option`.
#[derive(Clone, Copy, Debug, PartialEq, Eq, Structural)]
pub struct DumpsArgs {
    pub default: Option<ArgSource>,
    pub option: Option<ArgSource>,
}

/// The value passed as `option`, as far as the entry points look at it:
/// `None`, an object that is neither `None` nor exactly an `int`, or an
/// `int` read as a C long.
#[derive(Clone, Copy, Debug, PartialEq, Eq, Structural)]
pub enum OptionArg {
    NoneValue,
    NotInt,
    Int(i64),
}

/// The options after reading one `option` value over `prev`: `None`
/// keeps them; an `int` whose value, cut to 32 bits, lies between 0 and
/// the union of all options gives that value; anything else is refused.
pub open spec fn spec_option_bits(prev: Opt, a: OptionArg) -> Option<Opt> {
    match a {
        OptionArg::NoneValue => Some(prev),
        OptionArg::NotInt => None,
        OptionArg::Int(v) => {
            let bits = v as i32;
            if bits < 0 || bits > MAX_OPT {
                None
            } else {
                Some(bits as Opt)
            }
        },
    }
}

fn option_bits(prev: Opt, a: OptionArg) -> (r: Option<Opt>)
    ensures
        r == spec_option_bits(prev, a),
{
    match a {
        OptionArg::NoneValue => Some(prev),
        OptionArg::NotInt => None,
        OptionArg::Int(v) => {
            let bits: i32 = v as i32;
            if bits < 0 || bits > MAX_OPT {
                None
            } else {
                Some(bits as Opt)
            }
        },
    }
}

/// Why a call of `dumps` was refused before serializing anything.
#[derive(Clone, Copy, Debug, PartialEq, Eq, Structural)]
pub enum DumpsArgsError {
    MissingObj,
    DuplicateDefault,
    DuplicateOption,
    UnexpectedKeyword,
    InvalidOpts,
}

pub open spec fn spec_dumps_args_message(e: DumpsArgsError) -> Seq<char> {
    match e {
        DumpsArgsError::MissingObj => "dumps() missing 1 required positional argument: 'obj'"@,
        DumpsArgsError::DuplicateDefault => "dumps() got multiple values for argument: 'default'"@,
        DumpsArgsError::DuplicateOption => "dumps() got multiple values for argument: 'option'"@,
        DumpsArgsError::UnexpectedKeyword => "dumps() got an unexpected keyword argument"@,
        DumpsArgsError::InvalidOpts => "Invalid opts"@,
    }
}

impl DumpsArgsError {
    /// The message of the `JSONEncodeError` raised for this error.
    pub fn message(&self) -> (m: String)
        ensures
            m@ == spec_dumps_args_message(*self),
    {
        match self {
            DumpsArgsError::MissingObj => String::from_str(
                "dumps() missing 1 required positional argument: 'obj'",
            ),
            DumpsArgsError::DuplicateDefault => String::from_str(
                "dumps() got multiple values for argument: 'default'",
            ),
            DumpsArgsError::DuplicateOption => String::from_str(
                "dumps() got multiple values for argument: 'option'",
            ),
            DumpsArgsError::UnexpectedKeyword => String::from_str(
                "dumps() got an unexpected keyword argument",
            ),
            DumpsArgsError::InvalidOpts => String::from_str("Invalid opts"),
        }
    }
}

/// The second positional argument is taken as `default` when the count
/// of positional arguments has bit 1 set.
pub open spec fn default_is_positional(num_args: usize) -> bool {
    num_args & 2 == 2
}

/// The third positional argument is taken as `option` when the count of
/// positional arguments has bits 0 and 1 set.
pub open spec fn option_is_positional(num_args: usize) -> bool {
    num_args & 3 == 3
}

pub open spec fn positional_args(num_args: usize) -> DumpsArgs {
    DumpsArgs {
        default: if default_is_positional(num_args) { Some(ArgSource::Positional(1)) } else { None },
        option: if option_is_positional(num_args) { Some(ArgSource::Positional(2)) } else { None },
    }
}

/// The outcome of reading the first `n` keyword names, in order: the
/// first keyword that is unknown, or that repeats a positional argument,
/// fails; a later keyword replaces an earlier one of the same name.
pub open spec fn scan_keywords(num_args: usize, keywords: Seq<KeywordName>, n: int) -> Result<DumpsArgs, DumpsArgsError>
    decreases n,
{
    if n <= 0 {
        Ok(positional_args(num_args))
    } else {
        match scan_keywords(num_args, keywords, n - 1) {
            Err(e) => Err(e),
            Ok(a) => match keywords[n - 1] {
                KeywordName::Default => if default_is_positional(num_args) {
                    Err(DumpsArgsError::DuplicateDefault)
                } else {
                    Ok(DumpsArgs { default: Some(ArgSource::Keyword((n - 1) as usize)), option: a.option })
                },
                KeywordName::Option => if option_is_positional(num_args) {
                    Err(DumpsArgsError::DuplicateOption)
                } else {
                    Ok(DumpsArgs { default: a.default, option: Some(ArgSource::Keyword((n - 1) as usize)) })
                },
                KeywordName::Other => Err(DumpsArgsError::UnexpectedKeyword),
            },
        }
    }
}

/// Once a keyword is refused, the refusal stands whatever follows it.
proof fn lemma_scan_error_stays(num_args: usize, keywords: Seq<KeywordName>, n: int, m: int)
    requires
        n <= m,
        scan_keywords(num_args, keywords, n) is Err,
    ensures
        scan_keywords(num_args, keywords, m) == scan_keywords(num_args, keywords, n),
    decreases m - n,
{
    if n < m {
        lemma_scan_error_stays(num_args, keywords, n, m - 1);
    }
}

pub open spec fn spec_dumps_arguments(num_args: usize, keywords: Seq<KeywordName>) -> Result<DumpsArgs, DumpsArgsError> {
    if num_args == 0 {
        Err(DumpsArgsError::MissingObj)
    } else {
        scan_keywords(num_args, keywords, keywords.len() as int)
    }
}

/// Decides which arguments of a `dumps` call supply `default` and
/// `option`, from the count of positional arguments and the names of the
/// keyword arguments, or refuses the call.
pub fn dumps_arguments(num_args: usize, keywords: &[KeywordName]) -> (r: Result<DumpsArgs, DumpsArgsError>)
    ensures
        r == spec_dumps_arguments(num_args, keywords@),
{
    if num_args == 0 {
        return Err(DumpsArgsError::MissingObj);
    }
    let default_positional: bool = num_args & 2 == 2;
    let option_positional: bool = num_args & 3 == 3;
    let mut args = DumpsArgs {
        default: if default_positional { Some(ArgSource::Positional(1)) } else { None },
        option: if option_positional { Some(ArgSource::Positional(2)) } else { None },
    };
    let mut i: usize = 0;
    while i < keywords.len()
        invariant
            i <= keywords.len(),
            num_args > 0,
            default_positional == default_is_positional(num_args),
            option_positional == option_is_positional(num_args),
            scan_keywords(num_args, keywords@, i as int) == Ok::<DumpsArgs, DumpsArgsError>(args),
        decreases keywords.len() - i,
    {
        match keywords[i] {
            KeywordName::Default => {
                if default_positional {
                    proof {
                    lemma_scan_error_stays(num_args, keywords@, i + 1, keywords@.len() as int);
                }
                return Err(DumpsArgsError::DuplicateDefault);
                }
                args = DumpsArgs { default: Some(ArgSource::Keyword(i)), option: args.option };
            },
            KeywordName::Option => {
                if option_positional {
                    proof {
                    lemma_scan_error_stays(num_args, keywords@, i + 1, keywords@.len() as int);
                }
                return Err(DumpsArgsError::DuplicateOption);
                }
                args = DumpsArgs { default: args.default, option: Some(ArgSource::Keyword(i)) };
            },
            KeywordName::Other => {
                proof {
                    lemma_scan_error_stays(num_args, keywords@, i + 1, keywords@.len() as int);
                }
                return Err(DumpsArgsError::UnexpectedKeyword);
            },
        }
        i = i + 1;
    }
    Ok(args)
}

pub open spec fn spec_dumps_option(option: Option<OptionArg>) -> Result<Opt, DumpsArgsError> {
    match option {
        None => Ok(0),
        Some(a) => match spec_option_bits(0, a) {
            Some(o) => Ok(o),
            None => Err(DumpsArgsError::InvalidOpts),
        },
    }
}

/// Reads the `option` argument of `dumps` into an option set: no
/// argument, or `None`, is no option; an `int` must lie, cut to 32 bits,
/// between 0 and the union of all options; anything else is refused.
pub fn dumps_option(option: Option<OptionArg>) -> (r: Result<Opt, DumpsArgsError>)
    ensures
        r == spec_dumps_option(option),
        r matches Ok(o) ==> o <= MAX_OPT,
{
    match option {
        None => Ok(0),
        Some(a) => match option_bits(0, a) {
            Some(o) => Ok(o),
            None => Err(DumpsArgsError::InvalidOpts),
        },
    }
}

/// Why a call of `loads` was refused before reading anything.
#[derive(Clone, Copy, Debug, PartialEq, Eq, Structural)]
pub enum LoadsArgsError {
    MissingObj,
    DuplicateOption,
    UnexpectedKeyword,
    InvalidOpts,
}

pub open spec fn spec_loads_args_message(e: LoadsArgsError) -> Seq<char> {
    match e {
        LoadsArgsError::MissingObj => "loads() missing 1 required positional argument: 'obj'"@,
        LoadsArgsError::DuplicateOption => "loads() got multiple values for argument: 'option'"@,
        LoadsArgsError::UnexpectedKeyword => "loads() got an unexpected keyword argument"@,
        LoadsArgsError::InvalidOpts => "Invalid opts"@,
    }
}

impl LoadsArgsError {
    /// The message of the error raised for this refusal.
    pub fn message(&self) -> (m: String)
        ensures
            m@ == spec_loads_args_message(*self),
    {
        match self {
            LoadsArgsError::MissingObj => String::from_str(
                "loads() missing 1 required positional argument: 'obj'",
            ),
            LoadsArgsError::DuplicateOption => String::from_str(
                "loads() got multiple values for argument: 'option'",
            ),
            LoadsArgsError::UnexpectedKeyword => String::from_str(
                "loads() got an unexpected keyword argument",
            ),
            LoadsArgsError::InvalidOpts => String::from_str("Invalid opts"),
        }
    }
}

/// The options after reading the first `n` keyword arguments of `loads`,
/// in order, starting from `opts`.
pub open spec fn scan_loads_keywords(
    num_args: usize,
    keywords: Seq<KeywordName>,
    values: Seq<OptionArg>,
    opts: Opt,
    n: int,
) -> Result<Opt, LoadsArgsError>
    decreases n,
{
    if n <= 0 {
        Ok(opts)
    } else {
        match scan_loads_keywords(num_args, keywords, values, opts, n - 1) {
            Err(e) => Err(e),
            Ok(o) => match keywords[n - 1] {
                KeywordName::Option => if num_args > 1 {
                    Err(LoadsArgsError::DuplicateOption)
                } else {
                    match spec_option_bits(o, values[n - 1]) {
                        Some(o2) => Ok(o2),
                        None => Err(LoadsArgsError::InvalidOpts),
                    }
                },
                _ => Err(LoadsArgsError::UnexpectedKeyword),
            },
        }
    }
}

pub open spec fn spec_loads_arguments(
    num_args: usize,
    positional_option: OptionArg,
    keywords: Seq<KeywordName>,
    values: Seq<OptionArg>,
) -> Result<Opt, LoadsArgsError> {
    if num_args == 0 {
        Err(LoadsArgsError::MissingObj)
    } else {
        let first = if num_args > 1 { spec_option_bits(0, positional_option) } else { Some(0u32) };
        match first {
            None => Err(LoadsArgsError::InvalidOpts),
            Some(o) => scan_loads_keywords(num_args, keywords, values, o, keywords.len() as int),
        }
    }
}

/// Once a keyword of `loads` is refused, the refusal stands whatever
/// follows it.
proof fn lemma_loads_error_stays(
    num_args: usize,
    keywords: Seq<KeywordName>,
    values: Seq<OptionArg>,
    opts: Opt,
    n: int,
    m: int,
)
    requires
        n <= m,
        scan_loads_keywords(num_args, keywords, values, opts, n) is Err,
    ensures
        scan_loads_keywords(num_args, keywords, values, opts, m) == scan_loads_keywords(num_args, keywords, values, opts, n),
    decreases m - n,
{
    if n < m {
        lemma_loads_error_stays(num_args, keywords, values, opts, n, m - 1);
    }
}

/// Decides the options of a `loads` call, from the count of positional
/// arguments, the second positional argument (looked at only when there
/// is one), and the names and values of the keyword arguments; or refuses
/// the call.
pub fn loads_arguments(
    num_args: usize,
    positional_option: OptionArg,
    keywords: &[KeywordName],
    values: &[OptionArg],
) -> (r: Result<Opt, LoadsArgsError>)
    requires
        values@.len() == keywords@.len(),
    ensures
        r == spec_loads_arguments(num_args, positional_option, keywords@, values@),
{
    if num_args == 0 {
        return Err(LoadsArgsError::MissingObj);
    }
    let mut opts: Opt = 0;
    if num_args > 1 {
        match option_bits(0, positional_option) {
            Some(o) => {
                opts = o;
            },
            None => {
                return Err(LoadsArgsError::InvalidOpts);
            },
        }
    }
    let ghost start = opts;
    let mut i: usize = 0;
    while i < keywords.len()
        invariant
            i <= keywords.len(),
            values@.len() == keywords@.len(),
            num_args > 0,
            start == (if num_args > 1 { spec_option_bits(0, positional_option).unwrap() } else { 0u32 }),
            num_args > 1 ==> spec_option_bits(0, positional_option) is Some,
            scan_loads_keywords(num_args, keywords@, values@, start, i as int) == Ok::<Opt, LoadsArgsError>(opts),
        decreases keywords.len() - i,
    {
        match keywords[i] {
            KeywordName::Option => {
                if num_args > 1 {
                    proof {
                        lemma_loads_error_stays(num_args, keywords@, values@, start, i + 1, keywords@.len() as int);
                    }
                    return Err(LoadsArgsError::DuplicateOption);
                }
                match option_bits(opts, values[i]) {
                    Some(o) => {
                        opts = o;
                    },
                    None => {
                        proof {
                            lemma_loads_error_stays(num_args, keywords@, values@, start, i + 1, keywords@.len() as int);
                        }
                        return Err(LoadsArgsError::InvalidOpts);
                    },
                }
            },
            _ => {
                proof {
                    lemma_loads_error_stays(num_args, keywords@, values@, start, i + 1, keywords@.len() as int);
                }
                return Err(LoadsArgsError::UnexpectedKeyword);
            },
        }
        i = i + 1;
    }
    Ok(opts)
}

} // verus!
