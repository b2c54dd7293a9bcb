//! How much data may pass in a second.
use vstd::prelude::*;
use vstd::string::*;

use crate::error::{read_view, ErrorKind, Failure, FailureView};
use crate::number::{decimal, is_digit, lemma_decimal_value};
use crate::text::{
    is_white_space, law_splits_at_each_separator, law_trims_both_ends, lemma_split_first,
    lemma_split_pair, lemma_split_single, split, split_text, stripped, trim, CharClass,
};

verus! {

/// Throttling parameters, which [`Throttle::from_str`] reads from something like "10kiB,10MB".
#[derive(Clone, Copy, Debug, PartialEq, Eq, Structural)]
#[non_exhaustive]
pub struct Throttle {
    /// The maximum bandwidth to use, per second.
    pub bandwidth: u32,
    /// The maximum "burst" to use, per second.
    pub burst: u32,
}

impl Default for Throttle {
    fn default() -> (r: Throttle)
        ensures
            r == (Throttle { bandwidth: u32::MAX, burst: u32::MAX }),
    {
        Throttle { bandwidth: u32::MAX, burst: u32::MAX }
    }
}

/// The number of bytes that a text denotes, or what is said of a text that denotes none, as
/// `bytesize` defines it.
pub uninterp spec fn byte_size(text: Seq<char>) -> Result<u64, Seq<char>>;

/// The text that `bytesize` gives a number of bytes.
pub uninterp spec fn byte_size_text(bytes: u64) -> Seq<char>;

/// What a size says, taken by the text of its error.
pub open spec fn size_view(size: Result<u64, String>) -> Result<u64, Seq<char>> {
    match size {
        Ok(bytes) => Ok(bytes),
        Err(e) => Err(e@),
    }
}

/// A number of bytes, written out to the byte.
pub open spec fn exact_bytes(bytes: nat) -> Seq<char> {
    decimal(bytes) + " B"@
}

/// Whether `size` is what `text` denotes, if that is written out to the byte.
pub open spec fn reads_exact_bytes(text: Seq<char>, size: Result<u64, Seq<char>>) -> bool {
    forall|bytes: u64|
        text == #[trigger] exact_bytes(bytes as nat) ==> size == Ok::<u64, Seq<char>>(bytes)
}

/// Calls `bytesize::ByteSize::from_str`. Believed of it: its result depends on the text alone,
/// and a number that is written out to the byte is read as that number.
#[verifier::external_body]
fn parse_byte_size(text: &str) -> (r: Result<u64, String>)
    ensures
        size_view(r) == byte_size(text@),
        reads_exact_bytes(text@, size_view(r)),
{
    match text.parse::<bytesize::ByteSize>() {
        Ok(size) => Ok(size.as_u64()),
        Err(e) => Err(e),
    }
}

/// Calls the `Display` of `bytesize::ByteSize`. Believed of it: its result depends on the
/// number alone, and a number below 1024 is written out to the byte.
#[verifier::external_body]
fn format_byte_size(bytes: u64) -> (r: String)
    ensures
        r@ == byte_size_text(bytes),
        bytes < 1024 ==> r@ == exact_bytes(bytes as nat),
{
    bytesize::ByteSize::b(bytes).to_string()
}

/// The rate that a field stands for, where `size` is the number of bytes that it denotes.
pub open spec fn rate_of(field: Seq<char>, size: Result<u64, Seq<char>>) -> Result<
    u32,
    FailureView,
> {
    match size {
        Ok(bytes) => if bytes <= u32::MAX {
            Ok(bytes as u32)
        } else {
            Err(
                FailureView::new(
                    ErrorKind::ConfigInvalid,
                    "Parsing ByteSize failed"@,
                ).set_source("out of range integral type conversion attempted"@),
            )
        },
        Err(e) => Err(
            FailureView::new(
                ErrorKind::ConfigInvalid,
                "Parsing ByteSize failed"@,
            ).with_context("input"@, field).set_source(e),
        ),
    }
}

/// A field of a text and the number of bytes that it denotes.
pub struct SizedField {
    /// The field, as it stands in the text.
    pub text: String,
    /// The number of bytes, or what is said of a field that denotes none.
    pub size: Result<u64, String>,
}

impl SizedField {
    /// The rate that the field stands for.
    pub open spec fn rate(self) -> Result<u32, FailureView> {
        rate_of(self.text@, size_view(self.size))
    }
}

/// The parameters that two rates make, where the second one may not be given.
pub open spec fn throttle_of(
    bandwidth: Result<u32, FailureView>,
    burst: Option<Result<u32, FailureView>>,
) -> Result<Throttle, FailureView> {
    match bandwidth {
        Err(e) => Err(e),
        Ok(bandwidth) => match burst {
            None => Err(FailureView::new(ErrorKind::ConfigInvalid, "No burst given."@)),
            Some(Err(e)) => Err(e),
            Some(Ok(burst)) => Ok(Throttle { bandwidth, burst }),
        },
    }
}

/// The rate that a field stands for, spaces around it left out.
pub open spec fn field_rate(field: Seq<char>) -> Result<u32, FailureView> {
    rate_of(field, byte_size(stripped(field, CharClass::Whitespace)))
}

/// The parameters that a text stands for: bandwidth and burst, with a comma between them, and
/// anything after a second comma.
pub open spec fn throttle_named(text: Seq<char>) -> Result<Throttle, FailureView> {
    let fields = split(text, ',');
    throttle_of(
        field_rate(fields[0]),
        if fields.len() < 2 {
            None
        } else {
            Some(field_rate(fields[1]))
        },
    )
}

/// The rate that a field stands for.
pub fn rate(field: SizedField) -> (r: Result<u32, Failure>)
    ensures
        read_view(r) == field.rate(),
{
    match field.size {
        Ok(bytes) => {
            if bytes <= u32::MAX as u64 {
                Ok(bytes as u32)
            } else {
                Err(
                    Failure::new(ErrorKind::ConfigInvalid, "Parsing ByteSize failed").set_source(
                        "out of range integral type conversion attempted",
                    ),
                )
            }
        },
        Err(e) => Err(
            Failure::new(ErrorKind::ConfigInvalid, "Parsing ByteSize failed").with_context(
                "input",
                field.text.as_str(),
            ).set_source(e.as_str()),
        ),
    }
}

/// Finds the number of bytes that a field denotes, spaces around it left out.
fn sized_field(field: &String) -> (r: SizedField)
    ensures
        r.text@ == field@,
        r.rate() == field_rate(field@),
        reads_exact_bytes(stripped(field@, CharClass::Whitespace), size_view(r.size)),
{
    let text = trim(field.as_str(), CharClass::Whitespace);
    SizedField { text: field.clone(), size: parse_byte_size(text.as_str()) }
}

impl Throttle {
    /// The text that stands for the parameters.
    pub open spec fn text(self) -> Seq<char> {
        byte_size_text(self.bandwidth as u64) + ","@ + byte_size_text(self.burst as u64)
    }

    /// The text that stands for the parameters, both written out to the byte.
    pub open spec fn exact_text(self) -> Seq<char> {
        exact_bytes(self.bandwidth as nat) + ","@ + exact_bytes(self.burst as nat)
    }

    /// The text that stands for the parameters, each with a unit that suits its size. Rates
    /// below 1024 are written out to the byte, larger ones are rounded.
    pub fn to_string(&self) -> (r: String)
        ensures
            r@ == self.text(),
            self.bandwidth < 1024 && self.burst < 1024 ==> r@ == self.exact_text(),
    {
        let mut r = format_byte_size(self.bandwidth as u64);
        r.append(",");
        let burst = format_byte_size(self.burst as u64);
        r.append(burst.as_str());
        r
    }

    /// Reads the parameters from a text such as "10kiB,10MB": the bandwidth, then the burst.
    /// What is written out to the byte is read exactly.
    pub fn from_str(s: &str) -> (r: Result<Throttle, Failure>)
        ensures
            read_view(r) == throttle_named(s@),
            forall|t: Throttle| s@ == #[trigger] t.exact_text() ==> r == Ok::<Throttle, Failure>(t),
    {
        let fields = split_text(s, ',');
        let ghost parts = split(s@, ',');
        proof {
            assert(parts[0] == fields@[0]@);
            assert forall|t: Throttle| s@ == #[trigger] t.exact_text() implies parts == seq![
                exact_bytes(t.bandwidth as nat),
                exact_bytes(t.burst as nat),
            ] && stripped(parts[0], CharClass::Whitespace) == parts[0] && stripped(
                parts[1],
                CharClass::Whitespace,
            ) == parts[1] by {
                lemma_exact_fields(t);
            }
        }
        let first = sized_field(&fields[0]);
        let second = if fields.len() < 2 {
            None
        } else {
            proof {
                assert(parts[1] == fields@[1]@);
            }
            Some(sized_field(&fields[1]))
        };
        Throttle::from_fields(first, second)
    }

    /// The parameters that two fields make: the bandwidth, then the burst.
    pub fn from_fields(first: SizedField, second: Option<SizedField>) -> (r: Result<
        Throttle,
        Failure,
    >)
        ensures
            read_view(r) == throttle_of(
                first.rate(),
                match second {
                    Some(field) => Some(field.rate()),
                    None => None,
                },
            ),
    {
        match rate(first) {
            Ok(bandwidth) => match second {
                Some(field) => match rate(field) {
                    Ok(burst) => Ok(Throttle { bandwidth, burst }),
                    Err(e) => Err(e),
                },
                None => Err(Failure::new(ErrorKind::ConfigInvalid, "No burst given.")),
            },
            Err(e) => Err(e),
        }
    }

    /// The same parameters with another bandwidth.
    pub fn bandwidth(self, bandwidth: u32) -> (r: Throttle)
        ensures
            r == (Throttle { bandwidth, ..self }),
    {
        Throttle { bandwidth, burst: self.burst }
    }

    /// The same parameters with another burst.
    pub fn burst(self, burst: u32) -> (r: Throttle)
        ensures
            r == (Throttle { burst, ..self }),
    {
        Throttle { bandwidth: self.bandwidth, burst }
    }
}

/// A number of bytes that is written out holds no comma and has no space around it.
proof fn lemma_exact_bytes(bytes: nat)
    ensures
        !exact_bytes(bytes).contains(','),
        stripped(exact_bytes(bytes), CharClass::Whitespace) == exact_bytes(bytes),
{
    reveal_strlit(" B");
    lemma_decimal_value(bytes);
    let text = exact_bytes(bytes);
    assert(is_digit(decimal(bytes)[0]));
    assert(text.first() == decimal(bytes)[0]);
    assert(text.last() == 'B');
    assert forall|i: int| 0 <= i < text.len() implies text[i] != ',' by {
        if i < decimal(bytes).len() {
            assert(is_digit(decimal(bytes)[i]));
        }
    }
    assert(!is_white_space(text.first()));
    assert(!is_white_space(text.last()));
}

/// The fields of parameters that are written out to the byte.
proof fn lemma_exact_fields(t: Throttle)
    ensures
        split(t.exact_text(), ',') == seq![
            exact_bytes(t.bandwidth as nat),
            exact_bytes(t.burst as nat),
        ],
        stripped(exact_bytes(t.bandwidth as nat), CharClass::Whitespace) == exact_bytes(
            t.bandwidth as nat,
        ),
        stripped(exact_bytes(t.burst as nat), CharClass::Whitespace) == exact_bytes(t.burst as nat),
{
    reveal_strlit(",");
    let a = exact_bytes(t.bandwidth as nat);
    let b = exact_bytes(t.burst as nat);
    lemma_exact_bytes(t.bandwidth as nat);
    lemma_exact_bytes(t.burst as nat);
    lemma_split_pair(a, b, ',');
    assert(t.exact_text() =~= a.push(',') + b);
}

/// Bandwidth and burst are what the two fields before and behind the first comma denote, spaces
/// around them left out, and what follows a second comma is of no account. A field that denotes
/// no size is refused with the field and the reason, one whose size is too large for a rate with
/// that reason, and a text with one field for want of the other; the bandwidth comes first.
pub proof fn law_reads_two_sizes(
    front: Seq<char>,
    first: Seq<char>,
    back: Seq<char>,
    burst_front: Seq<char>,
    second: Seq<char>,
    burst_back: Seq<char>,
    rest: Seq<char>,
)
    requires
        !(front + first + back).contains(','),
        !(burst_front + second + burst_back).contains(','),
        rest.len() > 0 ==> rest[0] == ',',
        forall|i: int| 0 <= i < front.len() ==> is_white_space(#[trigger] front[i]),
        forall|i: int| 0 <= i < back.len() ==> is_white_space(#[trigger] back[i]),
        forall|i: int| 0 <= i < burst_front.len() ==> is_white_space(#[trigger] burst_front[i]),
        forall|i: int| 0 <= i < burst_back.len() ==> is_white_space(#[trigger] burst_back[i]),
        first.len() > 0 ==> !is_white_space(first[0]) && !is_white_space(first[first.len() - 1]),
        second.len() > 0 ==> !is_white_space(second[0]) && !is_white_space(
            second[second.len() - 1],
        ),
    ensures
        ({
            let one = front + first + back;
            let two = burst_front + second + burst_back;
            let named = throttle_named(one + seq![','] + two + rest);
            let alone = throttle_named(one);
            match byte_size(first) {
                Ok(x) => if x > u32::MAX {
                    &&& named is Err && named->Err_0.kind == ErrorKind::ConfigInvalid
                    &&& named->Err_0.message == "Parsing ByteSize failed"@
                    &&& named->Err_0.context.len() == 0
                    &&& named->Err_0.source == Some(
                        "out of range integral type conversion attempted"@,
                    )
                    &&& alone == named
                } else {
                    &&& alone is Err && alone->Err_0.kind == ErrorKind::ConfigInvalid
                    &&& alone->Err_0.message == "No burst given."@
                    &&& alone->Err_0.context.len() == 0 && alone->Err_0.source is None
                    &&& match byte_size(second) {
                        Ok(y) => if y > u32::MAX {
                            &&& named is Err && named->Err_0.kind == ErrorKind::ConfigInvalid
                            &&& named->Err_0.message == "Parsing ByteSize failed"@
                            &&& named->Err_0.context.len() == 0
                            &&& named->Err_0.source == Some(
                                "out of range integral type conversion attempted"@,
                            )
                        } else {
                            &&& named is Ok
                            &&& named->Ok_0.bandwidth == x
                            &&& named->Ok_0.burst == y
                        },
                        Err(e) => {
                            &&& named is Err && named->Err_0.kind == ErrorKind::ConfigInvalid
                            &&& named->Err_0.message == "Parsing ByteSize failed"@
                            &&& named->Err_0.context == seq![("input"@, two)]
                            &&& named->Err_0.source == Some(e)
                        },
                    }
                },
                Err(e) => {
                    &&& named is Err && named->Err_0.kind == ErrorKind::ConfigInvalid
                    &&& named->Err_0.message == "Parsing ByteSize failed"@
                    &&& named->Err_0.context == seq![("input"@, one)]
                    &&& named->Err_0.source == Some(e)
                    &&& alone == named
                },
            }
        }),
{
    let one = front + first + back;
    let two = burst_front + second + burst_back;
    let text = one + seq![','] + two + rest;
    law_trims_both_ends(front, first, back, CharClass::Whitespace);
    law_trims_both_ends(burst_front, second, burst_back, CharClass::Whitespace);
    law_splits_at_each_separator(one, two + rest, ',');
    assert(text =~= one.push(',') + (two + rest));
    lemma_split_first(two, rest, ',');
    lemma_split_single(one, ',');
    let fields = split(text, ',');
    assert(fields[0] == one && fields[1] == two && fields.len() >= 2);
    let none = Seq::<(Seq<char>, Seq<char>)>::empty();
    assert(none.push(("input"@, one)) =~= seq![("input"@, one)]);
    assert(none.push(("input"@, two)) =~= seq![("input"@, two)]);
}

/// A rate that is written out to the byte is its decimal notation and the unit, and parameters
/// are written as two sizes with a comma between them.
pub proof fn law_written_with_a_comma(t: Throttle, n: nat)
    ensures
        exact_bytes(n) == decimal(n) + seq![' ', 'B'],
        t.exact_text() == exact_bytes(t.bandwidth as nat) + seq![','] + exact_bytes(
            t.burst as nat,
        ),
        t.text() == byte_size_text(t.bandwidth as u64) + seq![','] + byte_size_text(
            t.burst as u64,
        ),
{
    reveal_strlit(" B");
    reveal_strlit(",");
    assert(" B"@ =~= seq![' ', 'B']);
    assert(","@ =~= seq![',']);
}

/// Of a field that denotes a size, the size is kept to the byte where it fits a rate.
pub proof fn law_field_gives_its_size(field: SizedField, size: Result<u64, String>)
    ensures
        field.size is Ok && field.size->Ok_0 <= u32::MAX ==> field.rate() is Ok && field.rate()->Ok_0
            == field.size->Ok_0,
        field.size is Err || field.size->Ok_0 > u32::MAX ==> field.rate() is Err,
        field.size is Err ==> field.rate()->Err_0.source == Some(field.size->Err_0@)
            && field.rate()->Err_0.context == seq![("input"@, field.text@)],
        size is Ok <==> size_view(size) is Ok,
        size is Ok ==> size_view(size)->Ok_0 == size->Ok_0,
        size is Err ==> size_view(size)->Err_0 == size->Err_0@,
{
    assert(Seq::<(Seq<char>, Seq<char>)>::empty().push(("input"@, field.text@)) =~= seq![
        ("input"@, field.text@),
    ]);
}

} // verus!
