//! The fixed-size prologue of a table.

use vstd::prelude::*;
use vstd::slice::slice_subrange;

use crate::endian::{le_u16, le_u32, read_u16_le, read_u32_le};
use crate::error::Error;
use crate::source::ByteSource;

verus! {

/// The number of bytes of the header on disk.
pub const HEADER_SIZE: usize = 32;

/// The number of bytes of one field descriptor on disk.
pub const FIELD_INFO_SIZE: usize = 32;

/// The byte that closes the descriptor table.
pub const TERMINATOR: u8 = 0x0D;

/// What the header says about the table that follows it.
#[derive(Clone, Copy, Debug, PartialEq, Eq, Structural)]
pub struct Header {
    /// The format version byte.
    pub file_type: u8,
    /// The number of records in the table.
    pub num_records: u32,
    /// The offset of the first record from the start of the header.
    pub offset_to_first_record: u16,
    /// The number of bytes of one record, deletion flag included.
    pub size_of_record: u16,
}

impl Header {
    /// The offset to the first record is the fixed header, a whole number of
    /// descriptors and the terminator byte, with nothing over.
    pub open spec fn wf(&self) -> bool {
        &&& self.offset_to_first_record >= HEADER_SIZE + 1
        &&& (self.offset_to_first_record - HEADER_SIZE) % (FIELD_INFO_SIZE as int) == 1
    }

    /// The number of descriptors on disk.
    pub open spec fn spec_num_fields(&self) -> int {
        (self.offset_to_first_record - HEADER_SIZE) / (FIELD_INFO_SIZE as int)
    }

    /// The header that a block of 32 bytes holds: the version at byte 0, the
    /// record count at bytes 4 to 7, the offset to the first record at bytes
    /// 8 and 9, the record size at bytes 10 and 11. A block whose offset is
    /// not of the form `32 + 32 * n + 1` is malformed: a table with bytes
    /// between the terminator and the first record, or without room for the
    /// terminator, is refused rather than read at a wrong offset.
    pub open spec fn decode(block: Seq<u8>) -> Result<Header, Error> {
        let h = Header {
            file_type: block[0],
            num_records: le_u32(block.subrange(4, 8)) as u32,
            offset_to_first_record: le_u16(block.subrange(8, 10)) as u16,
            size_of_record: le_u16(block.subrange(10, 12)) as u16,
        };
        if h.wf() {
            Ok(h)
        } else {
            Err(Error::MalformedHeader)
        }
    }

    /// The header read at `pos` of `data`: `IoError` where fewer than 32
    /// bytes follow `pos`.
    pub open spec fn parse(data: Seq<u8>, pos: int) -> Result<Header, Error> {
        if pos + HEADER_SIZE > data.len() {
            Err(Error::IoError)
        } else {
            Self::decode(data.subrange(pos, pos + HEADER_SIZE))
        }
    }

    /// Reads the header at the source's position. A short source fails with
    /// `IoError` and is left where it was; otherwise the 32 bytes are
    /// consumed, whether they hold a valid header or not.
    pub fn read_from(source: &mut ByteSource) -> (r: Result<Header, Error>)
        requires
            old(source).wf(),
        ensures
            final(source).wf(),
            final(source).bytes() == old(source).bytes(),
            r == Self::parse(old(source).bytes(), old(source).position()),
            r is Ok ==> r->Ok_0.wf(),
            final(source).position() == if r == Err::<Header, Error>(Error::IoError) {
                old(source).position()
            } else {
                old(source).position() + HEADER_SIZE
            },
    {
        let block = match source.read_exact(HEADER_SIZE) {
            Ok(block) => block,
            Err(e) => {
                return Err(e);
            },
        };
        let bytes = block.as_slice();
        let header = Header {
            file_type: bytes[0],
            num_records: read_u32_le(slice_subrange(bytes, 4, 8)),
            offset_to_first_record: read_u16_le(slice_subrange(bytes, 8, 10)),
            size_of_record: read_u16_le(slice_subrange(bytes, 10, 12)),
        };
        if header.is_valid() {
            Ok(header)
        } else {
            Err(Error::MalformedHeader)
        }
    }

    /// Whether the offset to the first record is well formed.
    pub fn is_valid(&self) -> (b: bool)
        ensures
            b == self.wf(),
    {
        self.offset_to_first_record >= 33 && (self.offset_to_first_record - 32) % 32 == 1
    }

    /// The number of descriptors on disk.
    pub fn num_fields(&self) -> (n: usize)
        requires
            self.wf(),
        ensures
            n == self.spec_num_fields(),
            0 <= n < 2048,
    {
        let offset: usize = self.offset_to_first_record as usize;
        (offset - HEADER_SIZE) / FIELD_INFO_SIZE
    }
}

} // verus!
