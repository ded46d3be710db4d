//! The descriptors that say how a record's bytes divide into fields.

use vstd::prelude::*;
use vstd::slice::slice_subrange;

use crate::error::{result_view, Error};
use crate::header::FIELD_INFO_SIZE;
use crate::source::ByteSource;
use crate::text::{latin1, latin1_string, lemma_find_nul, nul_position, until_nul};

verus! {

/// The number of bytes that a descriptor reserves for the field's name.
pub const NAME_SIZE: usize = 11;

/// The column types that a descriptor can declare.
#[derive(Clone, Copy, Debug, PartialEq, Eq, Structural)]
pub enum FieldType {
    /// `C`: text, padded on the right.
    Character,
    /// `N`: a number written as text, padded on the left.
    Numeric,
    /// `F`: a number written as text, padded on the left.
    Float,
    /// `D`: a date written as eight digits.
    Date,
    /// `L`: a truth value written as one letter.
    Logical,
    /// `M`: the number of a memo block, written as text.
    Memo,
    /// `I`: a signed 32-bit number, low byte first.
    Integer,
}

impl FieldType {
    /// The type that the tag byte of a descriptor stands for.
    pub open spec fn of_tag(tag: u8) -> Option<FieldType> {
        if tag == 0x43 {
            Some(FieldType::Character)
        } else if tag == 0x4E {
            Some(FieldType::Numeric)
        } else if tag == 0x46 {
            Some(FieldType::Float)
        } else if tag == 0x44 {
            Some(FieldType::Date)
        } else if tag == 0x4C {
            Some(FieldType::Logical)
        } else if tag == 0x4D {
            Some(FieldType::Memo)
        } else if tag == 0x49 {
            Some(FieldType::Integer)
        } else {
            None
        }
    }

    /// The type that the tag byte of a descriptor stands for, if any.
    pub fn from_tag(tag: u8) -> (r: Option<FieldType>)
        ensures
            r == Self::of_tag(tag),
    {
        if tag == 0x43 {
            Some(FieldType::Character)
        } else if tag == 0x4E {
            Some(FieldType::Numeric)
        } else if tag == 0x46 {
            Some(FieldType::Float)
        } else if tag == 0x44 {
            Some(FieldType::Date)
        } else if tag == 0x4C {
            Some(FieldType::Logical)
        } else if tag == 0x4D {
            Some(FieldType::Memo)
        } else if tag == 0x49 {
            Some(FieldType::Integer)
        } else {
            None
        }
    }
}

/// One column of the table: its name, its type and its width in bytes.
#[derive(Clone, Debug, PartialEq, Eq)]
pub struct RecordFieldInfo {
    /// The column's name.
    pub name: String,
    /// The column's type.
    pub field_type: FieldType,
    /// The number of bytes that the column takes in each record.
    pub record_length: u8,
    /// The number of digits after the decimal point, for numbers.
    pub num_decimal_places: u8,
}

/// A descriptor as contracts see it.
pub struct RecordFieldInfoView {
    pub name: Seq<char>,
    pub field_type: FieldType,
    pub record_length: u8,
    pub num_decimal_places: u8,
}

impl View for RecordFieldInfo {
    type V = RecordFieldInfoView;

    open spec fn view(&self) -> RecordFieldInfoView {
        RecordFieldInfoView {
            name: self.name@,
            field_type: self.field_type,
            record_length: self.record_length,
            num_decimal_places: self.num_decimal_places,
        }
    }
}

/// The name of the pseudo-field that holds a record's deletion mark.
pub open spec fn deletion_flag_name() -> Seq<char> {
    "DeletionFlag"@
}

/// The descriptor of the deletion mark: one byte of text at the start of
/// every record.
pub open spec fn deletion_flag() -> RecordFieldInfoView {
    RecordFieldInfoView {
        name: deletion_flag_name(),
        field_type: FieldType::Character,
        record_length: 1,
        num_decimal_places: 0,
    }
}

/// The views of the descriptors in `fields`, in the same order.
pub open spec fn field_views(fields: Seq<RecordFieldInfo>) -> Seq<RecordFieldInfoView> {
    Seq::new(fields.len(), |i: int| fields[i]@)
}

impl RecordFieldInfo {
    /// The descriptor that a block of 32 bytes holds. The name is the bytes
    /// before the first NUL among the first eleven, one character per byte;
    /// the type tag is byte 11, the width byte 16 and the decimal count byte
    /// 17. A block with an empty name or an unknown tag is malformed.
    pub open spec fn decode(block: Seq<u8>) -> Result<RecordFieldInfoView, Error> {
        let name = until_nul(block.subrange(0, NAME_SIZE as int));
        match FieldType::of_tag(block[11]) {
            Some(field_type) if name.len() > 0 => Ok(
                RecordFieldInfoView {
                    name: latin1(name),
                    field_type,
                    record_length: block[16],
                    num_decimal_places: block[17],
                },
            ),
            _ => Err(Error::MalformedFieldDescriptor),
        }
    }

    /// The descriptor read at `pos` of `data`: `IoError` where fewer than
    /// 32 bytes follow `pos`.
    pub open spec fn parse(data: Seq<u8>, pos: int) -> Result<RecordFieldInfoView, Error> {
        if pos + FIELD_INFO_SIZE > data.len() {
            Err(Error::IoError)
        } else {
            Self::decode(data.subrange(pos, pos + FIELD_INFO_SIZE))
        }
    }

    /// The descriptor of the deletion mark.
    pub fn new_deletion_flag() -> (info: Self)
        ensures
            info@ == deletion_flag(),
    {
        RecordFieldInfo {
            name: "DeletionFlag".to_owned(),
            field_type: FieldType::Character,
            record_length: 1,
            num_decimal_places: 0,
        }
    }

    /// Reads the descriptor at the source's position. A short source fails
    /// with `IoError` and is left where it was; otherwise the 32 bytes are
    /// consumed, whether they hold a valid descriptor or not.
    pub fn read_from(source: &mut ByteSource) -> (r: Result<RecordFieldInfo, Error>)
        requires
            old(source).wf(),
        ensures
            final(source).wf(),
            final(source).bytes() == old(source).bytes(),
            result_view(r) == Self::parse(old(source).bytes(), old(source).position()),
            final(source).position() == if r == Err::<RecordFieldInfo, Error>(Error::IoError) {
                old(source).position()
            } else {
                old(source).position() + FIELD_INFO_SIZE
            },
    {
        let block = match source.read_exact(FIELD_INFO_SIZE) {
            Ok(block) => block,
            Err(e) => {
                return Err(e);
            },
        };
        let bytes = block.as_slice();
        let area = slice_subrange(bytes, 0, NAME_SIZE);
        let end: usize = nul_position(area);
        match FieldType::from_tag(bytes[11]) {
            Some(field_type) => {
                if end > 0 {
                    let name = latin1_string(area, 0, end);
                    Ok(
                        RecordFieldInfo {
                            name,
                            field_type,
                            record_length: bytes[16],
                            num_decimal_places: bytes[17],
                        },
                    )
                } else {
                    Err(Error::MalformedFieldDescriptor)
                }
            },
            None => Err(Error::MalformedFieldDescriptor),
        }
    }
}

/// A name read from a descriptor has between one and eleven characters, so
/// it is never the name of the deletion mark.
pub proof fn lemma_decoded_name(block: Seq<u8>)
    requires
        block.len() == FIELD_INFO_SIZE,
        RecordFieldInfo::decode(block) is Ok,
    ensures
        1 <= RecordFieldInfo::decode(block)->Ok_0.name.len() <= NAME_SIZE,
        RecordFieldInfo::decode(block)->Ok_0.name != deletion_flag_name(),
{
    reveal_strlit("DeletionFlag");
    lemma_find_nul(block.subrange(0, NAME_SIZE as int), 0);
    assert(deletion_flag_name().len() == 12);
}

} // verus!
