//! How often a call to a storage backend is repeated.
use vstd::prelude::*;
use vstd::string::*;

use crate::error::{read_view, ErrorKind, Failure, FailureView};
use crate::number::{
    decimal, decimal_text, law_decimal_round_trip, lemma_decimal_value, parse_unsigned,
    unsigned_value, NumberFault,
};
use crate::table::same;

verus! {

/// The retry policy for all calls.
#[derive(Clone, Copy, Debug, PartialEq, Eq, Structural)]
pub enum RetrySetting {
    /// No retry policy set.
    Disabled,
    /// Use the default retry policy.
    Default,
    /// Use a custom policy of this many times.
    Count(usize),
}

impl Default for RetrySetting {
    fn default() -> (r: RetrySetting)
        ensures
            r == RetrySetting::Default,
    {
        RetrySetting::Default
    }
}

/// The lower case form of a text, as `str::to_lowercase` defines it.
pub uninterp spec fn lowercase(text: Seq<char>) -> Seq<char>;

/// Whether all characters of a text are ASCII.
pub open spec fn ascii(text: Seq<char>) -> bool {
    forall|i: int| 0 <= i < text.len() ==> (#[trigger] text[i] as u32) < 128
}

/// An ASCII character in lower case.
pub open spec fn ascii_lower(c: char) -> char {
    if 'A' <= c <= 'Z' {
        (c as u32 + 32) as char
    } else {
        c
    }
}

/// A text with its ASCII letters in lower case.
pub open spec fn ascii_lowercase(text: Seq<char>) -> Seq<char> {
    text.map_values(|c: char| ascii_lower(c))
}

/// Calls `str::to_lowercase`. Believed of it: its result depends on the text alone, and on a
/// text of ASCII characters it maps the letters `A` to `Z` to `a` to `z` and keeps the rest.
#[verifier::external_body]
fn to_lowercase(text: &str) -> (r: String)
    ensures
        r@ == lowercase(text@),
        ascii(text@) ==> r@ == ascii_lowercase(text@),
{
    text.to_lowercase()
}

/// What is said of a text that is no number.
pub open spec fn number_fault_text(fault: NumberFault) -> Seq<char> {
    match fault {
        NumberFault::Empty => "cannot parse integer from empty string"@,
        NumberFault::InvalidDigit => "invalid digit found in string"@,
        NumberFault::TooLarge => "number too large to fit in target type"@,
    }
}

/// What a text that names no retry policy is answered.
pub open spec fn retry_failure(value: Seq<char>, fault: NumberFault) -> FailureView {
    FailureView::new(
        ErrorKind::ConfigInvalid,
        "Parsing retry value `"@ + value + "` failed, the value must be a valid integer."@,
    ).with_context("value"@, value).set_source(number_fault_text(fault))
}

/// The retry policy that a text in lower case names.
pub open spec fn retry_named(value: Seq<char>) -> Result<RetrySetting, FailureView> {
    if value == "false"@ || value == "off"@ {
        Ok(RetrySetting::Disabled)
    } else if value == "default"@ {
        Ok(RetrySetting::Default)
    } else {
        match unsigned_value(value, usize::MAX as nat) {
            Ok(n) => Ok(RetrySetting::Count(n as usize)),
            Err(fault) => Err(retry_failure(value, fault)),
        }
    }
}

impl RetrySetting {
    /// Retrieves the number of times to retry. Based on `def` default.
    pub fn get_setting(&self, def: usize) -> (r: usize)
        ensures
            r == self.times(def),
    {
        match self {
            RetrySetting::Disabled => 0,
            RetrySetting::Default => def,
            RetrySetting::Count(x) => *x,
        }
    }

    /// The number of times to retry, where `def` is the default.
    pub open spec fn times(self, def: usize) -> usize {
        match self {
            RetrySetting::Disabled => 0,
            RetrySetting::Default => def,
            RetrySetting::Count(x) => x,
        }
    }

    /// The text that names the policy.
    pub open spec fn text(self) -> Seq<char> {
        match self {
            RetrySetting::Disabled => "off"@,
            RetrySetting::Default => "default"@,
            RetrySetting::Count(n) => decimal(n as nat),
        }
    }

    /// The text that names the policy.
    pub fn to_string(&self) -> (r: String)
        ensures
            r@ == self.text(),
    {
        match self {
            RetrySetting::Disabled => "off".to_owned(),
            RetrySetting::Default => "default".to_owned(),
            RetrySetting::Count(n) => decimal_text(*n as u64),
        }
    }

    /// Reads the policy that `s` names, in upper or lower case.
    pub fn from_str(s: &str) -> (r: Result<RetrySetting, Failure>)
        ensures
            read_view(r) == retry_named(lowercase(s@)),
            ascii(s@) ==> lowercase(s@) == ascii_lowercase(s@),
    {
        let value = to_lowercase(s);
        RetrySetting::from_lowercase(value.as_str())
    }

    /// Reads the policy that a text in lower case names.
    pub fn from_lowercase(value: &str) -> (r: Result<RetrySetting, Failure>)
        ensures
            read_view(r) == retry_named(value@),
    {
        if same(value, "false") || same(value, "off") {
            return Ok(RetrySetting::Disabled);
        }
        if same(value, "default") {
            return Ok(RetrySetting::Default);
        }
        match parse_unsigned(value, usize::MAX as u64) {
            Ok(n) => Ok(RetrySetting::Count(n as usize)),
            Err(fault) => {
                let mut message = "Parsing retry value `".to_owned();
                message.append(value);
                message.append("` failed, the value must be a valid integer.");
                let source = match fault {
                    NumberFault::Empty => "cannot parse integer from empty string",
                    NumberFault::InvalidDigit => "invalid digit found in string",
                    NumberFault::TooLarge => "number too large to fit in target type",
                };
                Err(
                    Failure::new(ErrorKind::ConfigInvalid, message.as_str()).with_context(
                        "value",
                        value,
                    ).set_source(source),
                )
            },
        }
    }
}

/// Reading the text that names a policy gives the policy back.
pub proof fn law_retry_round_trip(setting: RetrySetting)
    ensures
        ascii(setting.text()),
        retry_named(ascii_lowercase(setting.text())) == Ok::<RetrySetting, FailureView>(setting),
{
    reveal_strlit("off");
    reveal_strlit("false");
    reveal_strlit("default");
    let text = setting.text();
    match setting {
        RetrySetting::Count(n) => {
            lemma_decimal_value(n as nat);
            law_decimal_round_trip(n as nat, usize::MAX as nat);
            assert(crate::number::is_digit(text[0]));
            assert forall|i: int| 0 <= i < text.len() implies (#[trigger] text[i] as u32) < 128
                && ascii_lower(text[i]) == text[i] by {
                assert(crate::number::is_digit(text[i]));
            }
        },
        _ => {},
    }
    assert(ascii_lowercase(text) =~= text);
}

/// No retries, the default number, or the given one.
pub proof fn law_each_policy_has_its_number(def: usize, n: usize)
    ensures
        RetrySetting::Disabled.times(def) == 0,
        RetrySetting::Default.times(def) == def,
        RetrySetting::Count(n).times(def) == n,
{
}

/// Each policy has its name, and a policy with a number is named by the number.
pub proof fn law_each_policy_has_its_name(n: usize)
    ensures
        RetrySetting::Disabled.text() == "off"@,
        RetrySetting::Default.text() == "default"@,
        RetrySetting::Count(n).text() == decimal(n as nat),
{
}

/// The names of the policies are read as what they name, a number is read as that many retries,
/// and anything else is refused with what was read and why it is no number.
pub proof fn law_reads_names_and_numbers(value: Seq<char>)
    ensures
        retry_named("off"@) == Ok::<RetrySetting, FailureView>(RetrySetting::Disabled),
        retry_named("false"@) == Ok::<RetrySetting, FailureView>(RetrySetting::Disabled),
        retry_named("default"@) == Ok::<RetrySetting, FailureView>(RetrySetting::Default),
        value != "off"@ && value != "false"@ && value != "default"@ ==> match unsigned_value(
            value,
            usize::MAX as nat,
        ) {
            Ok(n) => retry_named(value) == Ok::<RetrySetting, FailureView>(
                RetrySetting::Count(n as usize),
            ),
            Err(fault) => {
                &&& retry_named(value) is Err
                &&& retry_named(value)->Err_0.kind == ErrorKind::ConfigInvalid
                &&& retry_named(value)->Err_0.message == "Parsing retry value `"@ + value
                    + "` failed, the value must be a valid integer."@
                &&& retry_named(value)->Err_0.context == seq![("value"@, value)]
                &&& retry_named(value)->Err_0.source == Some(number_fault_text(fault))
            },
        },
        number_fault_text(NumberFault::Empty) == "cannot parse integer from empty string"@,
        number_fault_text(NumberFault::InvalidDigit) == "invalid digit found in string"@,
        number_fault_text(NumberFault::TooLarge) == "number too large to fit in target type"@,
{
    reveal_strlit("off");
    reveal_strlit("false");
    reveal_strlit("default");
    assert("default"@.len() != "off"@.len() && "default"@.len() != "false"@.len());
    assert(Seq::<(Seq<char>, Seq<char>)>::empty().push(("value"@, value)) =~= seq![
        ("value"@, value),
    ]);
}

/// In lower case a text has as many characters, and each but the letters `A` to `Z` is kept.
pub proof fn law_lower_case_letter_by_letter(text: Seq<char>, i: int)
    requires
        0 <= i < text.len(),
    ensures
        ascii_lowercase(text).len() == text.len(),
        65 <= text[i] as u32 <= 90 ==> ascii_lowercase(text)[i] as u32 == text[i] as u32 + 32,
        !(65 <= text[i] as u32 <= 90) ==> ascii_lowercase(text)[i] == text[i],
        ascii(text) ==> (text[i] as u32) < 128,
        (forall|j: int| 0 <= j < text.len() ==> (#[trigger] text[j] as u32) < 128) ==> ascii(text),
{
}

} // verus!
