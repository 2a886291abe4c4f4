//! Settings of the direct search over residuals.

use crate::database::{DatabaseError, DatabaseResult, Trouble};
use crate::text::{decimal, digit, digits_stand_for_their_values};
use crate::vector_index::{eq_ignore_ascii_case, lowercase};
use vstd::prelude::*;
use vstd::string::StrSliceExecFns;

verus! {

/// Documents up to which a segment is searched directly unless set otherwise.
pub const DEFAULT_DIRECT_RESIDUAL_MAX_DOCUMENTS: usize = 1024;

/// Whether and up to how many documents a segment is searched directly.
#[derive(Clone, Copy, Debug, PartialEq, Eq, Structural)]
pub struct DirectResidualConfig {
    pub enabled: bool,
    pub max_documents: usize,
}

/// The settings where nothing is set.
pub open spec fn default_config() -> DirectResidualConfig {
    DirectResidualConfig { enabled: true, max_documents: DEFAULT_DIRECT_RESIDUAL_MAX_DOCUMENTS }
}

impl Default for DirectResidualConfig {
    fn default() -> (result: DirectResidualConfig)
        ensures
            result == default_config(),
    {
        DirectResidualConfig { enabled: true, max_documents: DEFAULT_DIRECT_RESIDUAL_MAX_DOCUMENTS }
    }
}

/// Characters with the Unicode property White_Space.
pub open spec fn white_space(character: char) -> bool {
    let code = character as u32;
    ||| 0x09 <= code <= 0x0d
    ||| code == 0x20
    ||| code == 0x85
    ||| code == 0xa0
    ||| code == 0x1680
    ||| 0x2000 <= code <= 0x200a
    ||| code == 0x2028
    ||| code == 0x2029
    ||| code == 0x202f
    ||| code == 0x205f
    ||| code == 0x3000
}

/// A text without the white space at its ends.
pub open spec fn trimmed(text: Seq<char>) -> Seq<char>
    decreases text.len(),
{
    if text.len() > 0 && white_space(text[0]) {
        trimmed(text.drop_first())
    } else if text.len() > 0 && white_space(text.last()) {
        trimmed(text.drop_last())
    } else {
        text
    }
}

/// The truth value that a text names.
pub open spec fn named_bool(text: Seq<char>) -> Option<bool> {
    let word = lowercase(trimmed(text));
    if word == "1"@ || word == "true"@ || word == "yes"@ || word == "on"@ {
        Some(true)
    } else if word == "0"@ || word == "false"@ || word == "no"@ || word == "off"@ {
        Some(false)
    } else {
        None
    }
}

fn is_white_space(character: char) -> (result: bool)
    ensures
        result == white_space(character),
{
    let code: u32 = character as u32;
    (0x09 <= code && code <= 0x0d) || code == 0x20 || code == 0x85 || code == 0xa0 || code == 0x1680
        || (0x2000 <= code && code <= 0x200a) || code == 0x2028 || code == 0x2029 || code == 0x202f
        || code == 0x205f || code == 0x3000
}

/// A text without the white space at its ends.
fn trim(text: &str) -> (result: &str)
    ensures
        result@ == trimmed(text@),
{
    let length: usize = text.unicode_len();
    let mut start: usize = 0;
    let mut end: usize = length;
    assert(text@.subrange(0, length as int) =~= text@);
    while start < end && is_white_space(text.get_char(start))
        invariant
            start <= end <= length,
            length == text@.len(),
            trimmed(text@.subrange(start as int, end as int)) == trimmed(text@),
        decreases end - start,
    {
        assert(text@.subrange(start as int, end as int).drop_first() =~= text@.subrange(
            start + 1,
            end as int,
        ));
        start += 1;
    }
    while start < end && is_white_space(text.get_char(end - 1))
        invariant
            start <= end <= length,
            length == text@.len(),
            start < end ==> !white_space(text@[start as int]),
            trimmed(text@.subrange(start as int, end as int)) == trimmed(text@),
        decreases end - start,
    {
        assert(text@.subrange(start as int, end as int).drop_last() =~= text@.subrange(
            start as int,
            end - 1,
        ));
        assert(text@.subrange(start as int, end as int)[0] == text@[start as int]);
        end -= 1;
    }
    assert(trimmed(text@.subrange(start as int, end as int)) == text@.subrange(
        start as int,
        end as int,
    ));
    text.substring_char(start, end)
}

/// Reads a truth value.
pub fn parse_bool(value: &str) -> (result: Option<bool>)
    ensures
        result == named_bool(value@),
{
    proof {
        reveal_strlit("1");
        reveal_strlit("true");
        reveal_strlit("yes");
        reveal_strlit("on");
        reveal_strlit("0");
        reveal_strlit("false");
        reveal_strlit("no");
        reveal_strlit("off");
        assert(lowercase("1"@) =~= "1"@);
        assert(lowercase("true"@) =~= "true"@);
        assert(lowercase("yes"@) =~= "yes"@);
        assert(lowercase("on"@) =~= "on"@);
        assert(lowercase("0"@) =~= "0"@);
        assert(lowercase("false"@) =~= "false"@);
        assert(lowercase("no"@) =~= "no"@);
        assert(lowercase("off"@) =~= "off"@);
    }
    let word = trim(value);
    if eq_ignore_ascii_case(word, "1") || eq_ignore_ascii_case(word, "true")
        || eq_ignore_ascii_case(word, "yes") || eq_ignore_ascii_case(word, "on") {
        return Some(true);
    }
    if eq_ignore_ascii_case(word, "0") || eq_ignore_ascii_case(word, "false")
        || eq_ignore_ascii_case(word, "no") || eq_ignore_ascii_case(word, "off") {
        return Some(false);
    }
    None
}

/// Every character is a decimal digit.
pub open spec fn all_digits(text: Seq<char>) -> bool {
    forall|i: int| 0 <= i < text.len() ==> '0' <= #[trigger] text[i] <= '9'
}

/// The number that decimal digits stand for.
pub open spec fn digits_value(digits: Seq<char>) -> nat
    decreases digits.len(),
{
    if digits.len() == 0 {
        0
    } else {
        10 * digits_value(digits.drop_last()) + (digits.last() as nat - '0' as nat) as nat
    }
}

/// The digits of a number after its sign, which may be a plus.
pub open spec fn unsigned(text: Seq<char>) -> Seq<char> {
    if text.len() > 0 && text[0] == '+' {
        text.drop_first()
    } else {
        text
    }
}

/// The number that a text names.
pub open spec fn named_number(text: Seq<char>) -> Option<usize> {
    let digits = unsigned(text);
    if digits.len() > 0 && all_digits(digits) && digits_value(digits) <= usize::MAX {
        Some(digits_value(digits) as usize)
    } else {
        None
    }
}

proof fn digits_value_grows(digits: Seq<char>, count: int)
    requires
        0 <= count <= digits.len(),
        all_digits(digits),
    ensures
        digits_value(digits.take(count)) <= digits_value(digits),
    decreases digits.len() - count,
{
    if count == digits.len() {
        assert(digits.take(count) =~= digits);
    } else {
        digits_value_grows(digits, count + 1);
        assert(digits.take(count + 1).drop_last() =~= digits.take(count));
        assert('0' <= digits[count] <= '9');
    }
}

/// Reads a number.
pub fn parse_number(value: &str) -> (result: Option<usize>)
    ensures
        result == named_number(value@),
{
    let length: usize = value.unicode_len();
    let start: usize = if length > 0 && value.get_char(0) == '+' {
        1
    } else {
        0
    };
    let ghost digits = unsigned(value@);
    if start == length {
        return None;
    }
    let mut number: usize = 0;
    let mut i: usize = start;
    assert(digits.take(0) =~= Seq::<char>::empty());
    while i < length
        invariant
            length == value@.len(),
            digits == unsigned(value@),
            start <= i <= length,
            digits.len() == length - start,
            forall|k: int| 0 <= k < digits.len() ==> #[trigger] digits[k] == value@[start + k],
            forall|k: int| 0 <= k < i - start ==> '0' <= #[trigger] digits[k] <= '9',
            number == digits_value(digits.take(i - start)),
        decreases length - i,
    {
        let character = value.get_char(i);
        assert(digits[i - start] == character);
        if character < '0' || character > '9' {
            assert(!all_digits(digits));
            return None;
        }
        let digit: usize = (character as u32 - 48) as usize;
        let ghost longer = digits.take(i + 1 - start);
        assert(longer.drop_last() =~= digits.take(i - start));
        assert(longer.last() == character);
        number =
        match number.checked_mul(10) {
            Some(tenfold) => match tenfold.checked_add(digit) {
                Some(sum) => sum,
                None => {
                    proof {
                        if all_digits(digits) {
                            digits_value_grows(digits, i + 1 - start);
                        }
                    }
                    return None;
                },
            },
            None => {
                proof {
                    if all_digits(digits) {
                        digits_value_grows(digits, i + 1 - start);
                    }
                }
                return None;
            },
        };
        i += 1;
    }
    assert(digits.take(digits.len() as int) =~= digits);
    Some(number)
}

/// A text between quotation marks, with its special characters escaped, as the
/// standard library shows it for debugging.
pub uninterp spec fn quoted(text: Seq<char>) -> Seq<char>;

/// The `Debug` form of a string slice of the standard library. It is a function
/// of the characters alone.
#[verifier::external_body]
fn quote(text: &str) -> (result: String)
    ensures
        result@ == quoted(text@),
{
    format!("{text:?}")
}

/// What is told of a setting that cannot be read.
pub open spec fn setting_trouble(head: Seq<char>, value: Seq<char>, tail: Seq<char>) -> Trouble {
    Trouble::InvalidInput(head + quoted(value) + tail)
}

fn setting_error(head: &str, value: &str, tail: &str) -> (result: DatabaseError)
    ensures
        result@ == setting_trouble(head@, value@, tail@),
{
    let mut text = head.to_owned();
    let shown = quote(value);
    text.push_str(shown.as_str());
    text.push_str(tail);
    DatabaseError::InvalidInput(text)
}

/// The trouble of a truth value that cannot be read.
pub open spec fn enabled_trouble(value: Seq<char>) -> Trouble {
    setting_trouble(
        "invalid LANCE_PLAID_DIRECT_RESIDUAL_ENABLED="@,
        value,
        "; expected true/false"@,
    )
}

/// The trouble of a number that cannot be read.
pub open spec fn max_documents_trouble(value: Seq<char>) -> Trouble {
    setting_trouble(
        "invalid LANCE_PLAID_DIRECT_RESIDUAL_MAX_DOCUMENTS="@,
        value,
        "; expected a non-negative integer"@,
    )
}

/// What an environment variable holds.
#[derive(Debug)]
pub enum EnvironmentValue {
    /// It is not set.
    Missing,
    /// It holds a text.
    Text(String),
    /// It holds something that is no text.
    NotUnicode,
}

/// The text that an environment variable holds.
pub fn read_utf8_env(name: &str, value: EnvironmentValue) -> (result: DatabaseResult<
    Option<String>,
>)
    ensures
        match result {
            Ok(Some(text)) => value == EnvironmentValue::Text(text),
            Ok(None) => value is Missing,
            Err(error) => value is NotUnicode && error@ == Trouble::InvalidInput(
                "environment variable "@ + name@ + " is not valid UTF-8"@,
            ),
        },
{
    match value {
        EnvironmentValue::Missing => Ok(None),
        EnvironmentValue::Text(text) => Ok(Some(text)),
        EnvironmentValue::NotUnicode => {
            let mut text = "environment variable ".to_owned();
            text.push_str(name);
            text.push_str(" is not valid UTF-8");
            Err(DatabaseError::InvalidInput(text))
        },
    }
}

/// The characters of a setting.
pub open spec fn setting(value: Option<&str>) -> Option<Seq<char>> {
    match value {
        Some(value) => Some(value@),
        None => None,
    }
}

/// The settings that two texts name, or what is wrong with the first wrong one.
pub open spec fn config_from(enabled: Option<Seq<char>>, max_documents: Option<Seq<char>>) -> std::result::Result<
    DirectResidualConfig,
    Trouble,
> {
    if enabled is Some && named_bool(enabled->0) is None {
        Err(enabled_trouble(enabled->0))
    } else if max_documents is Some && named_number(max_documents->0) is None {
        Err(max_documents_trouble(max_documents->0))
    } else {
        Ok(
            DirectResidualConfig {
                enabled: match enabled {
                    Some(text) => named_bool(text)->0,
                    None => default_config().enabled,
                },
                max_documents: match max_documents {
                    Some(text) => named_number(text)->0,
                    None => default_config().max_documents,
                },
            },
        )
    }
}

impl DirectResidualConfig {
    /// The settings of the environment, from what its variables hold.
    pub fn from_env(enabled: EnvironmentValue, max_documents: EnvironmentValue) -> (result:
        DatabaseResult<DirectResidualConfig>)
        ensures
            ({
                let texts = (environment_text(enabled), environment_text(max_documents));
                match result {
                    Ok(config) => !(enabled is NotUnicode) && !(max_documents is NotUnicode)
                        && config_from(texts.0, texts.1) == std::result::Result::<
                        DirectResidualConfig,
                        Trouble,
                    >::Ok(config),
                    Err(error) => if enabled is NotUnicode {
                        error@ == Trouble::InvalidInput(
                            "environment variable "@ + "LANCE_PLAID_DIRECT_RESIDUAL_ENABLED"@
                                + " is not valid UTF-8"@,
                        )
                    } else if max_documents is NotUnicode {
                        error@ == Trouble::InvalidInput(
                            "environment variable "@ + "LANCE_PLAID_DIRECT_RESIDUAL_MAX_DOCUMENTS"@
                                + " is not valid UTF-8"@,
                        )
                    } else {
                        config_from(texts.0, texts.1) == std::result::Result::<
                            DirectResidualConfig,
                            Trouble,
                        >::Err(error@)
                    },
                }
            }),
    {
        let enabled = read_utf8_env("LANCE_PLAID_DIRECT_RESIDUAL_ENABLED", enabled)?;
        let max_documents = read_utf8_env(
            "LANCE_PLAID_DIRECT_RESIDUAL_MAX_DOCUMENTS",
            max_documents,
        )?;
        let enabled_text = match &enabled {
            Some(text) => Some(text.as_str()),
            None => None,
        };
        let max_documents_text = match &max_documents {
            Some(text) => Some(text.as_str()),
            None => None,
        };
        Self::from_values(enabled_text, max_documents_text)
    }

    /// The settings that two texts name. What is not set has its default.
    pub fn from_values(enabled: Option<&str>, max_documents: Option<&str>) -> (result:
        DatabaseResult<DirectResidualConfig>)
        ensures
            match result {
                Ok(config) => config_from(setting(enabled), setting(max_documents))
                    == std::result::Result::<DirectResidualConfig, Trouble>::Ok(config),
                Err(error) => config_from(setting(enabled), setting(max_documents))
                    == std::result::Result::<DirectResidualConfig, Trouble>::Err(error@),
            },
    {
        let mut config = DirectResidualConfig::default();
        if let Some(value) = enabled {
            match parse_bool(value) {
                Some(enabled) => {
                    config.enabled = enabled;
                },
                None => {
                    return Err(
                        setting_error(
                            "invalid LANCE_PLAID_DIRECT_RESIDUAL_ENABLED=",
                            value,
                            "; expected true/false",
                        ),
                    );
                },
            }
        }
        if let Some(value) = max_documents {
            match parse_number(value) {
                Some(max_documents) => {
                    config.max_documents = max_documents;
                },
                None => {
                    return Err(
                        setting_error(
                            "invalid LANCE_PLAID_DIRECT_RESIDUAL_MAX_DOCUMENTS=",
                            value,
                            "; expected a non-negative integer",
                        ),
                    );
                },
            }
        }
        Ok(config)
    }

    /// The name of the mode in a query plan.
    pub fn mode_name(self) -> (result: &'static str)
        ensures
            result@ == if self.enabled {
                "enabled"@
            } else {
                "disabled"@
            },
    {
        if self.enabled {
            "enabled"
        } else {
            "disabled"
        }
    }
}

/// The characters that an environment variable holds, where it holds a text.
pub open spec fn environment_text(value: EnvironmentValue) -> Option<Seq<char>> {
    match value {
        EnvironmentValue::Text(text) => Some(text@),
        _ => None,
    }
}

/// The value of a list of digits grows tenfold with each further digit, and by it.
pub proof fn digits_count_in_tens(digits: Seq<char>, last: char)
    requires
        '0' <= last <= '9',
    ensures
        digits_value(Seq::empty()) == 0,
        digits_value(digits.push(last)) == 10 * digits_value(digits) + (last as int - 48),
        all_digits(digits.push(last)) <==> all_digits(digits),
{
    let longer = digits.push(last);
    assert(longer.drop_last() =~= digits);
    if all_digits(longer) {
        assert forall|i: int| 0 <= i < digits.len() implies '0' <= #[trigger] digits[i] <= '9' by {
            assert(longer[i] == digits[i]);
        }
    }
}

/// A number in decimal digits reads back as the number, with or without a sign in
/// front.
pub proof fn numbers_read_back(number: nat)
    requires
        number <= usize::MAX,
    ensures
        named_number(decimal(number)) == Some(number as usize),
        named_number(seq!['+'] + decimal(number)) == Some(number as usize),
{
    decimal_digits_have_the_value(number);
    let text = decimal(number);
    assert(text[0] != '+');
    assert((seq!['+'] + text).drop_first() =~= text);
}

proof fn decimal_digits_have_the_value(number: nat)
    ensures
        decimal(number).len() > 0,
        all_digits(decimal(number)),
        digits_value(decimal(number)) == number,
    decreases number,
{
    if number < 10 {
        digits_stand_for_their_values(number);
        digits_count_in_tens(Seq::empty(), digit(number));
        assert(decimal(number) =~= Seq::<char>::empty().push(digit(number)));
    } else {
        decimal_digits_have_the_value(number / 10);
        digits_stand_for_their_values(number % 10);
        digits_count_in_tens(decimal(number / 10), digit(number % 10));
    }
}

/// Trimming a text takes white space from both ends, and nothing else.
pub proof fn trimming_takes_white_space_from_the_ends(text: Seq<char>) -> (range: (int, int))
    ensures
        0 <= range.0 <= range.1 <= text.len(),
        trimmed(text) == text.subrange(range.0, range.1),
        forall|i: int| 0 <= i < range.0 ==> white_space(#[trigger] text[i]),
        forall|i: int| range.1 <= i < text.len() ==> white_space(#[trigger] text[i]),
        range.0 < range.1 ==> !white_space(text[range.0]) && !white_space(text[range.1 - 1]),
    decreases text.len(),
{
    if text.len() > 0 && white_space(text[0]) {
        let rest = text.drop_first();
        let inner = trimming_takes_white_space_from_the_ends(rest);
        let range = (inner.0 + 1, inner.1 + 1);
        assert(text.subrange(range.0, range.1) =~= rest.subrange(inner.0, inner.1));
        assert forall|i: int| 0 <= i < range.0 implies white_space(#[trigger] text[i]) by {
            if i > 0 {
                assert(rest[i - 1] == text[i]);
            }
        }
        assert forall|i: int| range.1 <= i < text.len() implies white_space(#[trigger] text[i]) by {
            assert(rest[i - 1] == text[i]);
        }
        range
    } else if text.len() > 0 && white_space(text.last()) {
        let rest = text.drop_last();
        let inner = trimming_takes_white_space_from_the_ends(rest);
        assert(text.subrange(inner.0, inner.1) =~= rest.subrange(inner.0, inner.1));
        assert forall|i: int| 0 <= i < inner.0 implies white_space(#[trigger] text[i]) by {
            assert(rest[i] == text[i]);
        }
        assert forall|i: int| inner.1 <= i < text.len() implies white_space(#[trigger] text[i]) by {
            if i < rest.len() {
                assert(rest[i] == text[i]);
            }
        }
        inner
    } else {
        assert(text.subrange(0, text.len() as int) =~= text);
        (0, text.len() as int)
    }
}

/// Four words mean yes and four mean no, in upper or lower case and with white
/// space around them. Any other text means neither.
pub proof fn eight_words_mean_yes_or_no(text: Seq<char>)
    ensures
        ({
            let word = lowercase(trimmed(text));
            &&& named_bool(text) == Some(true) <==> word == "1"@ || word == "true"@ || word
                == "yes"@ || word == "on"@
            &&& named_bool(text) == Some(false) <==> word == "0"@ || word == "false"@ || word
                == "no"@ || word == "off"@
        }),
{
    reveal_strlit("1");
    reveal_strlit("true");
    reveal_strlit("yes");
    reveal_strlit("on");
    reveal_strlit("0");
    reveal_strlit("false");
    reveal_strlit("no");
    reveal_strlit("off");
    let word = lowercase(trimmed(text));
    if word == "0"@ {
        assert(word[0] == '0');
    }
    if word == "false"@ {
        assert(word.len() == 5);
    }
    if word == "no"@ {
        assert(word[0] == 'n');
    }
    if word == "off"@ {
        assert(word[0] == 'o' && word.len() == 3);
    }
    if word == "1"@ {
        assert(word[0] == '1');
    }
    if word == "yes"@ {
        assert(word[0] == 'y');
    }
    if word == "on"@ {
        assert(word[0] == 'o');
    }
}

/// Without settings a direct search is enabled for up to 1024 documents. A setting
/// that is there decides alone, and one that means nothing is refused.
pub proof fn settings_decide_alone(enabled: Option<Seq<char>>, max_documents: Option<Seq<char>>)
    ensures
        config_from(enabled, max_documents) is Ok <==> (enabled is Some ==> named_bool(enabled->0)
            is Some) && (max_documents is Some ==> named_number(max_documents->0) is Some),
        config_from(enabled, max_documents) is Ok ==> {
            let config = config_from(enabled, max_documents)->Ok_0;
            &&& enabled is None ==> config.enabled
            &&& enabled is Some ==> Some(config.enabled) == named_bool(enabled->0)
            &&& max_documents is None ==> config.max_documents == 1024
            &&& max_documents is Some ==> Some(config.max_documents) == named_number(
                max_documents->0,
            )
        },
{
}

/// A text names a number exactly where it is made of digits, at least one and with a
/// sign in front or without, and their value is not too large.
pub proof fn numbers_are_made_of_digits(text: Seq<char>, digits: Seq<char>)
    requires
        text == seq!['+'] + digits || text == digits && (text.len() == 0 || text[0] != '+'),
    ensures
        named_number(text) is Some <==> {
            &&& digits.len() > 0
            &&& forall|i: int| 0 <= i < digits.len() ==> 48 <= #[trigger] digits[i] as int <= 57
            &&& digits_value(digits) <= usize::MAX
        },
{
    if text == seq!['+'] + digits {
        assert(text.drop_first() =~= digits);
    }
    assert(unsigned(text) == digits);
    if all_digits(digits) {
        assert forall|i: int| 0 <= i < digits.len() implies 48 <= #[trigger] digits[i] as int
            <= 57 by {
            assert('0' <= digits[i] <= '9');
        }
    }
}

/// Numbers are written without leading zeros, and zero as one.
pub proof fn numbers_have_no_leading_zeros(number: nat)
    ensures
        number > 0 ==> decimal(number)[0] != '0',
        number == 0 ==> decimal(number) == seq!['0'],
    decreases number,
{
    if number < 10 {
        digits_stand_for_their_values(number);
    } else {
        decimal_digits_have_the_value(number / 10);
        numbers_have_no_leading_zeros(number / 10);
        assert(decimal(number)[0] == decimal(number / 10)[0]);
    }
}

/// White space is what separates words and lines, in any script: tabulators and line
/// ends, blanks of all widths, and the separators of lines and paragraphs.
pub proof fn blanks_and_line_ends_are_white_space(character: char)
    ensures
        white_space(character) <==> seq![
            0x09int,
            0x0a,
            0x0b,
            0x0c,
            0x0d,
            0x20,
            0x85,
            0xa0,
            0x1680,
            0x2000,
            0x2001,
            0x2002,
            0x2003,
            0x2004,
            0x2005,
            0x2006,
            0x2007,
            0x2008,
            0x2009,
            0x200a,
            0x2028,
            0x2029,
            0x202f,
            0x205f,
            0x3000,
        ].contains(character as int),
{
    let codes = seq![
        0x09int,
        0x0a,
        0x0b,
        0x0c,
        0x0d,
        0x20,
        0x85,
        0xa0,
        0x1680,
        0x2000,
        0x2001,
        0x2002,
        0x2003,
        0x2004,
        0x2005,
        0x2006,
        0x2007,
        0x2008,
        0x2009,
        0x200a,
        0x2028,
        0x2029,
        0x202f,
        0x205f,
        0x3000,
    ];
    let code = character as int;
    if 0x09 <= code <= 0x0d {
        assert(codes[code - 0x09] == code);
    }
    if 0x2000 <= code <= 0x200a {
        assert(codes[code - 0x2000 + 9] == code);
    }
    assert(codes[5] == 0x20 && codes[6] == 0x85 && codes[7] == 0xa0 && codes[8] == 0x1680);
    assert(codes[20] == 0x2028 && codes[21] == 0x2029 && codes[22] == 0x202f && codes[23] == 0x205f
        && codes[24] == 0x3000);
}

} // verus!
