//! Run configuration and the rules it has to meet.

use vstd::prelude::*;

verus! {

/// The options of one run.
#[derive(Debug)]
pub struct Cli {
    /// List the voices that the service offers.
    pub list: bool,
    /// A single text file to narrate.
    pub file: Option<String>,
    /// A directory of text files to narrate.
    pub dir: Option<String>,
    /// Base address of the synthesis service.
    pub api: Option<String>,
    /// Directory that receives the results.
    pub out: String,
    pub voice: Option<String>,
    pub volume: Option<u8>,
    pub speed: Option<u8>,
    pub pitch: Option<u8>,
    /// Width of a caption line; `None` when no caption file is wanted.
    pub sub: Option<usize>,
    /// Where the blacklist pattern comes from.
    pub blacklist: Option<String>,
}

#[derive(Clone, Copy, Debug, PartialEq, Eq, Structural)]
pub enum SubRangeError {
    /// The text is no unsigned decimal number that fits the machine word.
    NotANumber,
    /// The number lies outside 10..=100.
    OutOfRange,
}

#[derive(Clone, Copy, Debug, PartialEq, Eq, Structural)]
pub enum ArgsError {
    /// Listing voices was combined with another option than the address.
    ListTakesOnlyApi,
    /// Listing voices needs the service address.
    ListNeedsApi,
    /// Narrating a file or directory needs the service address.
    InputNeedsApi,
    /// The named input file does not exist.
    FileNotFound,
}

pub const MIN_CAPTION_WIDTH: usize = 10;

pub const MAX_CAPTION_WIDTH: usize = 100;

pub open spec fn is_digit(c: char) -> bool {
    '0' <= c <= '9'
}

/// Value of a string of decimal digits, most significant first.
pub open spec fn digits_value(s: Seq<char>) -> nat
    decreases s.len(),
{
    if s.len() == 0 {
        0
    } else {
        digits_value(s.drop_last()) * 10 + ((s.last() as u32 - '0' as u32) as nat)
    }
}

/// The digits of a number written with an optional leading plus sign.
pub open spec fn unsigned_part(s: Seq<char>) -> Seq<char> {
    if s.len() > 0 && s[0] == '+' {
        s.skip(1)
    } else {
        s
    }
}

/// The machine word that `s` denotes: an optional plus sign, then at least
/// one decimal digit, with a value that fits.
pub open spec fn parsed_word(s: Seq<char>) -> Option<usize> {
    let d = unsigned_part(s);
    if d.len() > 0 && (forall|i: int| 0 <= i < d.len() ==> is_digit(#[trigger] d[i]))
        && digits_value(d) <= usize::MAX {
        Some(digits_value(d) as usize)
    } else {
        None
    }
}

pub open spec fn sub_range_outcome(s: Seq<char>) -> Result<usize, SubRangeError> {
    match parsed_word(s) {
        None => Err(SubRangeError::NotANumber),
        Some(v) => if MIN_CAPTION_WIDTH <= v <= MAX_CAPTION_WIDTH {
            Ok(v)
        } else {
            Err(SubRangeError::OutOfRange)
        },
    }
}

/// A longer string of digits never denotes less than its prefix.
pub proof fn lemma_digits_value_grows(s: Seq<char>, n: int)
    requires
        0 <= n <= s.len(),
    ensures
        digits_value(s.take(n)) <= digits_value(s),
    decreases s.len() - n,
{
    if n < s.len() {
        assert(s.take(n + 1).drop_last() =~= s.take(n));
        lemma_digits_value_grows(s, n + 1);
    } else {
        assert(s.take(n) =~= s);
    }
}

/// Reads the width of a caption line: a decimal number from 10 to 100.
pub fn parse_sub_range(s: &str) -> (r: Result<usize, SubRangeError>)
    ensures
        r == sub_range_outcome(s@),
{
    let n: usize = s.unicode_len();
    let start: usize = if n > 0 && s.get_char(0) == '+' {
        1
    } else {
        0
    };
    let ghost d = unsigned_part(s@);
    assert(d =~= s@.skip(start as int));
    if start == n {
        return Err(SubRangeError::NotANumber);
    }
    let mut value: usize = 0;
    let mut i: usize = start;
    while i < n
        invariant
            start <= i <= n,
            n == s@.len(),
            d == unsigned_part(s@),
            d == s@.skip(start as int),
            d.len() == n - start,
            forall|j: int| 0 <= j < i - start ==> is_digit(#[trigger] d[j]),
            value == digits_value(d.take(i - start)),
        decreases n - i,
    {
        let c: char = s.get_char(i);
        assert(c == d[i - start]);
        if !('0' <= c && c <= '9') {
            return Err(SubRangeError::NotANumber);
        }
        let digit: usize = (c as u32 - '0' as u32) as usize;
        proof {
            assert(d.take(i - start + 1).drop_last() =~= d.take(i - start));
            assert(d.take(i - start + 1).last() == c);
            lemma_digits_value_grows(d, i - start + 1);
        }
        if value > (usize::MAX - digit) / 10 {
            assert(digits_value(d.take(i - start + 1)) > usize::MAX);
            return Err(SubRangeError::NotANumber);
        }
        value = value * 10 + digit;
        i += 1;
    }
    assert(d.take(n - start) =~= d);
    if MIN_CAPTION_WIDTH <= value && value <= MAX_CAPTION_WIDTH {
        Ok(value)
    } else {
        Err(SubRangeError::OutOfRange)
    }
}

/// Whether any option besides the service address accompanies `list`.
pub open spec fn has_narration_option(args: Cli) -> bool {
    ||| args.file is Some
    ||| args.dir is Some
    ||| args.voice is Some
    ||| args.volume is Some
    ||| args.speed is Some
    ||| args.pitch is Some
    ||| args.sub is Some
    ||| args.blacklist is Some
}

/// The verdict on a set of options. `file_exists` says whether the file
/// named by `file` is present; it is consulted only when one is named.
pub open spec fn args_outcome(args: Cli, file_exists: bool) -> Result<(), ArgsError> {
    if args.list {
        if has_narration_option(args) {
            Err(ArgsError::ListTakesOnlyApi)
        } else if args.api is None {
            Err(ArgsError::ListNeedsApi)
        } else {
            Ok(())
        }
    } else if args.file is Some || args.dir is Some {
        if args.api is None {
            Err(ArgsError::InputNeedsApi)
        } else if args.file is Some && !file_exists {
            Err(ArgsError::FileNotFound)
        } else {
            Ok(())
        }
    } else {
        Ok(())
    }
}

/// Checks that the options of a run fit together.
pub fn validate_args(args: &Cli, file_exists: bool) -> (r: Result<(), ArgsError>)
    ensures
        r == args_outcome(*args, file_exists),
{
    let has_input = args.file.is_some() || args.dir.is_some();
    if args.list {
        if has_input || args.voice.is_some() || args.volume.is_some() || args.speed.is_some()
            || args.pitch.is_some() || args.sub.is_some() || args.blacklist.is_some() {
            return Err(ArgsError::ListTakesOnlyApi);
        }
        if args.api.is_none() {
            return Err(ArgsError::ListNeedsApi);
        }
    } else if has_input {
        if args.api.is_none() {
            return Err(ArgsError::InputNeedsApi);
        }
        if args.file.is_some() && !file_exists {
            return Err(ArgsError::FileNotFound);
        }
    }
    Ok(())
}

} // verus!
