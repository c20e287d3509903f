//! What the simulation is started with.
//!
//! The counts come as text, as they were typed: an optional `+` and decimal
//! digits. Anything else is refused.

use vstd::prelude::*;
use vstd::string::is_ascii_spec_bytes;
use vstd::utf8::is_ascii_chars;

verus! {

/// How many towers and units the simulation starts with, and whether it
/// starts paused.
#[derive(Clone, Copy, Debug, PartialEq, Eq, Structural)]
pub struct Config {
    pub paused: bool,
    pub towers: usize,
    pub units: usize,
}

impl Default for Config {
    /// Ten towers, ten units, running.
    fn default() -> (config: Config)
        ensures
            config == (Config { paused: false, towers: 10, units: 10 }),
    {
        Config { paused: false, towers: 10, units: 10 }
    }
}

/// Why a text is no count.
#[derive(Clone, Copy, Debug, PartialEq, Eq, Structural)]
pub enum CountError {
    /// The text is empty.
    Empty,
    /// The text has no digit, or something that is no digit after its first
    /// character, or a first character that is neither a digit nor `+`.
    InvalidDigit,
    /// The text is a number above the largest count there is.
    TooLarge,
}

/// Which count was refused, and why.
#[derive(Clone, Copy, Debug, PartialEq, Eq, Structural)]
pub enum ConfigError {
    Towers(CountError),
    Units(CountError),
}

/// Whether `c` is a decimal digit.
pub open spec fn is_digit(c: char) -> bool {
    '0' <= c && c <= '9'
}

/// Whether `text` is made of decimal digits, and of one at least.
pub open spec fn is_number(text: Seq<char>) -> bool {
    text.len() > 0 && forall|i: int| 0 <= i < text.len() ==> is_digit(#[trigger] text[i])
}

/// The number that the digits of `text` write.
pub open spec fn decimal(text: Seq<char>) -> nat
    decreases text.len(),
{
    if text.len() == 0 {
        0
    } else {
        (decimal(text.drop_last()) * 10 + (text.last() as int - '0' as int)) as nat
    }
}

/// `text` without the `+` that it may begin with.
pub open spec fn unsigned(text: Seq<char>) -> Seq<char> {
    if text.len() > 0 && text[0] == '+' {
        text.skip(1)
    } else {
        text
    }
}

/// The count that `text` writes, or why it writes none.
pub open spec fn parsed_count(text: Seq<char>) -> Result<usize, CountError> {
    if text.len() == 0 {
        Err(CountError::Empty)
    } else if !is_number(unsigned(text)) {
        Err(CountError::InvalidDigit)
    } else if decimal(unsigned(text)) > usize::MAX {
        Err(CountError::TooLarge)
    } else {
        Ok(decimal(unsigned(text)) as usize)
    }
}

/// A number does not get smaller when digits follow it.
proof fn lemma_decimal_grows(text: Seq<char>, n: int)
    requires
        0 <= n <= text.len(),
        forall|i: int| 0 <= i < text.len() ==> is_digit(#[trigger] text[i]),
    ensures
        decimal(text.take(n)) <= decimal(text),
    decreases text.len() - n,
{
    if n < text.len() {
        lemma_decimal_grows(text, n + 1);
        assert(text.take(n + 1).drop_last() =~= text.take(n));
        assert(is_digit(text[n]));
        assert(text.take(n + 1).last() == text[n]);
    } else {
        assert(text.take(n) =~= text);
    }
}

/// Reads a count: see [`parsed_count`].
pub fn parse_count(text: &str) -> (parsed: Result<usize, CountError>)
    ensures
        parsed == parsed_count(text@),
{
    if text.is_empty() {
        return Err(CountError::Empty);
    }
    let ghost digits = unsigned(text@);
    if !text.is_ascii() {
        proof {
            let i = choose|i: int|
                0 <= i < text@.len() && !('\0' <= #[trigger] text@[i] <= '\u{7f}');
            assert(!is_digit(text@[i]));
            if text@[0] == '+' {
                assert(i > 0);
                assert(digits[i - 1] == text@[i]);
            }
        }
        return Err(CountError::InvalidDigit);
    }
    let bytes = text.as_bytes();
    proof {
        is_ascii_spec_bytes(text);
        assert(bytes@.len() == text@.len());
    }
    let start: usize = if bytes[0] == 43u8 { 1 } else { 0 };
    assert(text@[0] as u8 == bytes@[0]);
    assert(start == 1 <==> text@[0] == '+');
    assert(digits =~= text@.skip(start as int));
    if start == bytes.len() {
        return Err(CountError::InvalidDigit);
    }
    let mut i: usize = start;
    while i < bytes.len()
        invariant
            start <= i <= bytes.len(),
            bytes@.len() == text@.len(),
            is_ascii_chars(text@),
            bytes@ == Seq::new(text@.len(), |k: int| text@[k] as u8),
            digits == unsigned(text@),
            digits == text@.skip(start as int),
            forall|k: int| start <= k < i ==> is_digit(#[trigger] text@[k]),
        decreases bytes.len() - i,
    {
        if bytes[i] < 48u8 || bytes[i] > 57u8 {
            proof {
                assert(bytes@[i as int] == text@[i as int] as u8);
                assert(!is_digit(text@[i as int]));
                assert(digits[i - start] == text@[i as int]);
            }
            return Err(CountError::InvalidDigit);
        }
        proof {
            assert(bytes@[i as int] == text@[i as int] as u8);
            assert('\0' <= text@[i as int] <= '\u{7f}');
        }
        i += 1;
    }
    proof {
        assert forall|k: int| 0 <= k < digits.len() implies is_digit(#[trigger] digits[k]) by {
            assert(digits[k] == text@[k + start]);
        }
        assert(is_number(digits));
    }
    let mut value: usize = 0;
    let mut i: usize = start;
    assert(digits.take(0) =~= Seq::<char>::empty());
    while i < bytes.len()
        invariant
            start <= i <= bytes.len(),
            bytes@.len() == text@.len(),
            is_ascii_chars(text@),
            bytes@ == Seq::new(text@.len(), |k: int| text@[k] as u8),
            digits == unsigned(text@),
            digits == text@.skip(start as int),
            is_number(digits),
            value == decimal(digits.take(i - start)),
        decreases bytes.len() - i,
    {
        proof {
            assert(bytes@[i as int] == text@[i as int] as u8);
            assert(digits[i - start] == text@[i as int]);
            assert(is_digit(digits[i - start]));
        }
        let digit: usize = (bytes[i] - 48u8) as usize;
        proof {
            let n = i - start;
            assert(digits.take(n + 1).drop_last() =~= digits.take(n));
            assert(digits.take(n + 1).last() == digits[n]);
            assert(decimal(digits.take(n + 1)) == value * 10 + digit);
            lemma_decimal_grows(digits, n + 1);
        }
        if value > (usize::MAX - digit) / 10 {
            return Err(CountError::TooLarge);
        }
        value = value * 10 + digit;
        i += 1;
    }
    assert(digits.take(bytes.len() - start) =~= digits);
    Ok(value)
}

/// The configuration that comes of what was typed, or which count was
/// refused: the towers are looked at first.
pub open spec fn config_of(
    paused: bool,
    towers: Option<Seq<char>>,
    units: Option<Seq<char>>,
) -> Result<Config, ConfigError> {
    let towers_read = match towers {
        Some(text) => parsed_count(text),
        None => Ok(10usize),
    };
    let units_read = match units {
        Some(text) => parsed_count(text),
        None => Ok(10usize),
    };
    match (towers_read, units_read) {
        (Err(why), _) => Err(ConfigError::Towers(why)),
        (Ok(_), Err(why)) => Err(ConfigError::Units(why)),
        (Ok(towers), Ok(units)) => Ok(Config { paused, towers, units }),
    }
}

/// The view of a text that may be missing.
pub open spec fn text_of(text: Option<&str>) -> Option<Seq<char>> {
    match text {
        Some(text) => Some(text@),
        None => None,
    }
}

/// Makes the configuration of what was typed: whether to start paused, and
/// the two counts as text. A count that was not typed is that of
/// `Config::default()`.
pub fn get_config(paused: bool, towers: Option<&str>, units: Option<&str>) -> (config: Result<
    Config,
    ConfigError,
>)
    ensures
        config == config_of(paused, text_of(towers), text_of(units)),
{
    let towers = match towers {
        Some(text) => match parse_count(text) {
            Ok(count) => count,
            Err(why) => {
                return Err(ConfigError::Towers(why));
            },
        },
        None => Config::default().towers,
    };
    let units = match units {
        Some(text) => match parse_count(text) {
            Ok(count) => count,
            Err(why) => {
                return Err(ConfigError::Units(why));
            },
        },
        None => Config::default().units,
    };
    Ok(Config { paused, towers, units })
}

} // verus!
