//! The typed value that the bytes of one field stand for.

use vstd::prelude::*;
use vstd::slice::slice_subrange;

use crate::descriptor::{FieldType, RecordFieldInfo, RecordFieldInfoView};
use crate::endian::{le_i32, read_i32_le};
use crate::error::{result_view, Error};
use crate::source::ByteSource;
use crate::text::{
    drop_padding, latin1, latin1_string, trim, trim_end, trimmed_end, trimmed_start,
};

verus! {

/// A calendar date as a date field writes it.
#[derive(Clone, Copy, Debug, PartialEq, Eq, Structural)]
pub struct Date {
    /// The year, `0..=9999`.
    pub year: u16,
    /// The month, `1..=12`.
    pub month: u8,
    /// The day of the month, `1..=31`.
    pub day: u8,
}

/// The value of one field of one record.
#[derive(Clone, Debug, PartialEq, Eq)]
pub enum FieldValue {
    /// Text, without the padding at its end.
    Character(String),
    /// A number as its decimal digits, or `None` where the field is blank.
    Numeric(Option<String>),
    /// A number as its decimal digits, or `None` where the field is blank.
    Float(Option<String>),
    /// A date, or `None` where the field is blank.
    Date(Option<Date>),
    /// A truth value, or `None` where the field is undecided.
    Logical(Option<bool>),
    /// The number of a memo block, without the padding around it.
    Memo(String),
    /// A signed 32-bit number.
    Integer(i32),
}

/// A field's value as contracts see it.
pub enum FieldValueView {
    Character(Seq<char>),
    Numeric(Option<Seq<char>>),
    Float(Option<Seq<char>>),
    Date(Option<Date>),
    Logical(Option<bool>),
    Memo(Seq<char>),
    Integer(i32),
}

impl View for FieldValue {
    type V = FieldValueView;

    open spec fn view(&self) -> FieldValueView {
        match self {
            FieldValue::Character(s) => FieldValueView::Character(s@),
            FieldValue::Numeric(n) => FieldValueView::Numeric(text_view(*n)),
            FieldValue::Float(n) => FieldValueView::Float(text_view(*n)),
            FieldValue::Date(d) => FieldValueView::Date(*d),
            FieldValue::Logical(b) => FieldValueView::Logical(*b),
            FieldValue::Memo(s) => FieldValueView::Memo(s@),
            FieldValue::Integer(n) => FieldValueView::Integer(*n),
        }
    }
}

/// The characters of the text, if there is one.
pub open spec fn text_view(text: Option<String>) -> Option<Seq<char>> {
    match text {
        Some(s) => Some(s@),
        None => None,
    }
}

/// `b` is an ASCII digit.
pub open spec fn is_digit(b: u8) -> bool {
    0x30 <= b <= 0x39
}

/// The number that the two ASCII digits at `i` and `i + 1` of `s` write.
pub open spec fn two_digits(s: Seq<u8>, i: int) -> int {
    10 * (s[i] - 0x30) + (s[i + 1] - 0x30)
}

/// `s` holds nothing but padding.
pub open spec fn is_blank(s: Seq<u8>) -> bool {
    drop_padding(s, s.len() as int) == 0
}

/// `b` is a plus or a minus sign.
pub open spec fn is_sign(b: u8) -> bool {
    b == 0x2B || b == 0x2D
}

/// `s` without the sign that it may start with.
pub open spec fn unsigned_part(s: Seq<u8>) -> Seq<u8> {
    if s.len() > 0 && is_sign(s[0]) {
        s.subrange(1, s.len() as int)
    } else {
        s
    }
}

/// `s` writes a decimal number: behind a sign, if there is one, nothing but
/// digits and at most one point, with at least one digit.
pub open spec fn is_decimal(s: Seq<u8>) -> bool {
    let body = unsigned_part(s);
    &&& forall|i: int| 0 <= i < body.len() ==> is_digit(#[trigger] body[i]) || body[i] == 0x2E
    &&& forall|i: int, j: int|
        0 <= i < j < body.len() ==> !(#[trigger] body[i] == 0x2E && #[trigger] body[j] == 0x2E)
    &&& exists|i: int| 0 <= i < body.len() && is_digit(#[trigger] body[i])
}

/// The number that a field writes as text: none where the field is blank,
/// else its digits without the padding around them. Text that is no decimal
/// number is invalid.
pub open spec fn decode_number(bytes: Seq<u8>) -> Result<Option<Seq<char>>, Error> {
    let digits = trim(bytes);
    if digits.len() == 0 {
        Ok(None)
    } else if is_decimal(digits) {
        Ok(Some(latin1(digits)))
    } else {
        Err(Error::InvalidFieldData)
    }
}

/// The date that a date field of eight bytes writes as `YYYYMMDD`. A blank
/// field holds no date. Anything else — another width, a byte that is no
/// digit, a month outside `1..=12`, a day outside `1..=31` — is invalid.
pub open spec fn decode_date(bytes: Seq<u8>) -> Result<FieldValueView, Error> {
    if bytes.len() != 8 {
        Err(Error::InvalidFieldData)
    } else if is_blank(bytes) {
        Ok(FieldValueView::Date(None))
    } else if !(forall|i: int| 0 <= i < 8 ==> is_digit(#[trigger] bytes[i])) {
        Err(Error::InvalidFieldData)
    } else {
        let year = 100 * two_digits(bytes, 0) + two_digits(bytes, 2);
        let month = two_digits(bytes, 4);
        let day = two_digits(bytes, 6);
        if 1 <= month <= 12 && 1 <= day <= 31 {
            Ok(FieldValueView::Date(Some(Date { year: year as u16, month: month as u8, day: day as u8 })))
        } else {
            Err(Error::InvalidFieldData)
        }
    }
}

/// The truth value that a logical field of one byte writes: `T`, `t`, `Y`,
/// `y` for true; `F`, `f`, `N`, `n` for false; `?` or a space for
/// undecided. Anything else is invalid.
pub open spec fn decode_logical(bytes: Seq<u8>) -> Result<FieldValueView, Error> {
    if bytes.len() != 1 {
        Err(Error::InvalidFieldData)
    } else {
        let b = bytes[0];
        if b == 0x54 || b == 0x74 || b == 0x59 || b == 0x79 {
            Ok(FieldValueView::Logical(Some(true)))
        } else if b == 0x46 || b == 0x66 || b == 0x4E || b == 0x6E {
            Ok(FieldValueView::Logical(Some(false)))
        } else if b == 0x3F || b == 0x20 {
            Ok(FieldValueView::Logical(None))
        } else {
            Err(Error::InvalidFieldData)
        }
    }
}

/// The value that the bytes of a field of type `field_type` stand for.
pub open spec fn decode_value(field_type: FieldType, bytes: Seq<u8>) -> Result<
    FieldValueView,
    Error,
> {
    match field_type {
        FieldType::Character => Ok(FieldValueView::Character(latin1(trim_end(bytes)))),
        FieldType::Numeric => match decode_number(bytes) {
            Ok(n) => Ok(FieldValueView::Numeric(n)),
            Err(e) => Err(e),
        },
        FieldType::Float => match decode_number(bytes) {
            Ok(n) => Ok(FieldValueView::Float(n)),
            Err(e) => Err(e),
        },
        FieldType::Memo => Ok(FieldValueView::Memo(latin1(trim(bytes)))),
        FieldType::Date => decode_date(bytes),
        FieldType::Logical => decode_logical(bytes),
        FieldType::Integer => if bytes.len() == 4 {
            Ok(FieldValueView::Integer(le_i32(bytes) as i32))
        } else {
            Err(Error::InvalidFieldData)
        },
    }
}

/// The text of `bytes` without the padding at its end.
fn text_trimmed_end(bytes: &[u8]) -> (s: String)
    ensures
        s@ == latin1(trim_end(bytes@)),
{
    let end: usize = trimmed_end(bytes);
    let s = latin1_string(bytes, 0, end);
    s
}

/// The text of `bytes` without the padding at either end.
fn text_trimmed(bytes: &[u8]) -> (s: String)
    ensures
        s@ == latin1(trim(bytes@)),
{
    let start: usize = trimmed_start(bytes);
    let end: usize = trimmed_end(bytes);
    if start >= end {
        let s = String::new();
        assert(s@ =~= latin1(Seq::<u8>::empty()));
        s
    } else {
        latin1_string(bytes, start, end)
    }
}

/// Whether `text` writes a decimal number.
fn check_decimal(text: &[u8]) -> (r: bool)
    ensures
        r == is_decimal(text@),
{
    let n: usize = text.len();
    let first: usize = if n > 0 && (text[0] == 0x2B || text[0] == 0x2D) {
        1
    } else {
        0
    };
    let ghost body = unsigned_part(text@);
    assert(body =~= text@.subrange(first as int, n as int));
    let mut seen_point = false;
    let mut seen_digit = false;
    let mut i: usize = first;
    while i < n
        invariant
            first <= i <= n,
            n == text@.len(),
            body == text@.subrange(first as int, n as int),
            body == unsigned_part(text@),
            forall|k: int| 0 <= k < i - first ==> is_digit(#[trigger] body[k]) || body[k] == 0x2E,
            forall|a: int, b: int|
                0 <= a < b < i - first ==> !(#[trigger] body[a] == 0x2E && #[trigger] body[b]
                    == 0x2E),
            seen_point <==> exists|k: int| 0 <= k < i - first && #[trigger] body[k] == 0x2E,
            seen_digit <==> exists|k: int| 0 <= k < i - first && is_digit(#[trigger] body[k]),
        decreases n - i,
    {
        let b: u8 = text[i];
        assert(b == body[i - first]);
        if b == 0x2E {
            if seen_point {
                let ghost k = choose|k: int| 0 <= k < i - first && #[trigger] body[k] == 0x2E;
                assert(body[k] == 0x2E && body[i - first] == 0x2E);
                return false;
            }
            seen_point = true;
        } else if 0x30 <= b && b <= 0x39 {
            seen_digit = true;
        } else {
            assert(!(is_digit(body[i - first]) || body[i - first] == 0x2E));
            return false;
        }
        i = i + 1;
    }
    seen_digit
}

/// The digits of a number field, if it is not blank.
fn read_number(bytes: &[u8]) -> (r: Result<Option<String>, Error>)
    ensures
        match decode_number(bytes@) {
            Ok(n) => r is Ok && text_view(r->Ok_0) == n,
            Err(e) => r == Err::<Option<String>, Error>(e),
        },
{
    let start: usize = trimmed_start(bytes);
    let end: usize = trimmed_end(bytes);
    if start >= end {
        return Ok(None);
    }
    if check_decimal(slice_subrange(bytes, start, end)) {
        Ok(Some(latin1_string(bytes, start, end)))
    } else {
        Err(Error::InvalidFieldData)
    }
}

/// Whether the eight bytes are all ASCII digits.
fn all_digits(bytes: &[u8]) -> (r: bool)
    requires
        bytes@.len() == 8,
    ensures
        r == (forall|i: int| 0 <= i < 8 ==> is_digit(#[trigger] bytes@[i])),
{
    let mut i: usize = 0;
    while i < 8
        invariant
            i <= 8,
            bytes@.len() == 8,
            forall|j: int| 0 <= j < i ==> is_digit(#[trigger] bytes@[j]),
        decreases 8 - i,
    {
        if bytes[i] < 0x30 || bytes[i] > 0x39 {
            return false;
        }
        i = i + 1;
    }
    true
}

/// The number that the two ASCII digits at `i` and `i + 1` write.
fn read_two_digits(bytes: &[u8], i: usize) -> (n: u8)
    requires
        i + 1 < bytes@.len(),
        is_digit(bytes@[i as int]),
        is_digit(bytes@[i + 1]),
    ensures
        n == two_digits(bytes@, i as int),
        n <= 99,
{
    10 * (bytes[i] - 0x30) + (bytes[i + 1] - 0x30)
}

fn read_date(bytes: &[u8]) -> (r: Result<FieldValue, Error>)
    ensures
        result_view(r) == decode_date(bytes@),
{
    if bytes.len() != 8 {
        return Err(Error::InvalidFieldData);
    }
    if trimmed_end(bytes) == 0 {
        return Ok(FieldValue::Date(None));
    }
    if !all_digits(bytes) {
        return Err(Error::InvalidFieldData);
    }
    let century: u16 = read_two_digits(bytes, 0) as u16;
    let year: u16 = 100 * century + read_two_digits(bytes, 2) as u16;
    let month: u8 = read_two_digits(bytes, 4);
    let day: u8 = read_two_digits(bytes, 6);
    if 1 <= month && month <= 12 && 1 <= day && day <= 31 {
        Ok(FieldValue::Date(Some(Date { year, month, day })))
    } else {
        Err(Error::InvalidFieldData)
    }
}

fn read_logical(bytes: &[u8]) -> (r: Result<FieldValue, Error>)
    ensures
        result_view(r) == decode_logical(bytes@),
{
    if bytes.len() != 1 {
        return Err(Error::InvalidFieldData);
    }
    let b: u8 = bytes[0];
    if b == 0x54 || b == 0x74 || b == 0x59 || b == 0x79 {
        Ok(FieldValue::Logical(Some(true)))
    } else if b == 0x46 || b == 0x66 || b == 0x4E || b == 0x6E {
        Ok(FieldValue::Logical(Some(false)))
    } else if b == 0x3F || b == 0x20 {
        Ok(FieldValue::Logical(None))
    } else {
        Err(Error::InvalidFieldData)
    }
}

impl FieldValue {
    /// Decodes the bytes of one field of type `field_type`.
    pub fn decode(field_type: FieldType, bytes: &[u8]) -> (r: Result<FieldValue, Error>)
        ensures
            result_view(r) == decode_value(field_type, bytes@),
    {
        match field_type {
            FieldType::Character => Ok(FieldValue::Character(text_trimmed_end(bytes))),
            FieldType::Numeric => match read_number(bytes) {
                Ok(n) => Ok(FieldValue::Numeric(n)),
                Err(e) => Err(e),
            },
            FieldType::Float => match read_number(bytes) {
                Ok(n) => Ok(FieldValue::Float(n)),
                Err(e) => Err(e),
            },
            FieldType::Memo => Ok(FieldValue::Memo(text_trimmed(bytes))),
            FieldType::Date => read_date(bytes),
            FieldType::Logical => read_logical(bytes),
            FieldType::Integer => {
                if bytes.len() == 4 {
                    Ok(FieldValue::Integer(read_i32_le(bytes)))
                } else {
                    Err(Error::InvalidFieldData)
                }
            },
        }
    }

    /// The outcome of reading the field that `info` describes at `pos` of
    /// `data`: `IoError` where the field runs past the end, else what its
    /// bytes decode to.
    pub open spec fn parse(info: RecordFieldInfoView, data: Seq<u8>, pos: int) -> Result<
        FieldValueView,
        Error,
    > {
        if pos + info.record_length > data.len() {
            Err(Error::IoError)
        } else {
            decode_value(info.field_type, data.subrange(pos, pos + info.record_length))
        }
    }

    /// Reads the field that `info` describes at the source's position. A
    /// source with fewer bytes left than the field is wide fails with
    /// `IoError` and is left where it was; otherwise exactly the field's
    /// width is consumed, whether the bytes are a valid value or not.
    pub fn read_from(source: &mut ByteSource, info: &RecordFieldInfo) -> (r: Result<
        FieldValue,
        Error,
    >)
        requires
            old(source).wf(),
        ensures
            final(source).wf(),
            final(source).bytes() == old(source).bytes(),
            result_view(r) == Self::parse(info@, old(source).bytes(), old(source).position()),
            final(source).position() == if old(source).position() + info.record_length > old(
                source,
            ).bytes().len() {
                old(source).position()
            } else {
                old(source).position() + info.record_length
            },
    {
        let width: usize = info.record_length as usize;
        match source.read_exact(width) {
            Ok(bytes) => Self::decode(info.field_type, bytes.as_slice()),
            Err(e) => Err(e),
        }
    }
}

} // verus!
