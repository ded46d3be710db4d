//! What holds of every table, stated over the model that the reader's
//! contracts use.

use vstd::prelude::*;

use crate::descriptor::{
    deletion_flag, deletion_flag_name, lemma_decoded_name, RecordFieldInfo, RecordFieldInfoView,
    NAME_SIZE,
};
use crate::error::Error;
use crate::header::{Header, FIELD_INFO_SIZE, HEADER_SIZE, TERMINATOR};
use crate::descriptor::FieldType;
use crate::reading::{
    descriptors, field_at, fields_width, lemma_deletion_flag_left_out, open_table, read_table,
    record_at, record_prefix, record_width, records_prefix, ReaderView, RecordView,
};
use crate::value::{decode_value, FieldValueView};

verus! {

/// Reading `n` descriptors yields `n` descriptors or fails.
pub proof fn lemma_descriptors_count(data: Seq<u8>, pos: int, n: int)
    requires
        0 <= n,
    ensures
        descriptors(data, pos, n) matches Ok(s) ==> s.len() == n,
    decreases n,
{
    if n > 0 {
        lemma_descriptors_count(data, pos, n - 1);
    }
}

/// Descriptors come in the order in which they lie in the table: where `n`
/// are read from `pos`, descriptor `i` is the one that starts `32 * i` bytes
/// behind `pos`. Its name has between one and eleven characters, so it is
/// not the name of the deletion mark.
pub proof fn lemma_descriptors_in_order(data: Seq<u8>, pos: int, n: int, i: int)
    requires
        0 <= pos,
        0 <= i < n,
    ensures
        descriptors(data, pos, n) matches Ok(s) ==> {
            &&& s.len() == n
            &&& RecordFieldInfo::parse(data, pos + i * FIELD_INFO_SIZE) == Ok::<
                RecordFieldInfoView,
                Error,
            >(s[i])
            &&& 1 <= s[i].name.len() <= NAME_SIZE
            &&& s[i].name != deletion_flag_name()
        },
    decreases n,
{
    lemma_descriptors_count(data, pos, n);
    lemma_descriptors_count(data, pos, n - 1);
    if i < n - 1 {
        lemma_descriptors_in_order(data, pos, n - 1, i);
    } else if descriptors(data, pos, n) is Ok {
        let at = pos + i * FIELD_INFO_SIZE;
        lemma_decoded_name(data.subrange(at, at + FIELD_INFO_SIZE));
    }
}

/// The first field that fails decides: the first `k` fields of a record
/// decode if each of them does, and else fail as the first of them that
/// fails.
pub proof fn lemma_first_failing_field(
    fields: Seq<RecordFieldInfoView>,
    data: Seq<u8>,
    pos: int,
    k: int,
)
    requires
        0 <= k,
    ensures
        match record_prefix(fields, data, pos, k) {
            Ok(_) => forall|j: int| 0 <= j < k ==> (#[trigger] field_at(fields, data, pos, j)) is Ok,
            Err(e) => exists|j: int|
                0 <= j < k && #[trigger] field_at(fields, data, pos, j) == Err::<
                    FieldValueView,
                    Error,
                >(e) && forall|i: int| 0 <= i < j ==> (#[trigger] field_at(fields, data, pos, i)) is Ok,
        },
    decreases k,
{
    if k > 0 {
        lemma_first_failing_field(fields, data, pos, k - 1);
        match record_prefix(fields, data, pos, k - 1) {
            Ok(_) => {
                if let Err(e) = field_at(fields, data, pos, k - 1) {
                    assert(field_at(fields, data, pos, k - 1) == Err::<FieldValueView, Error>(e));
                }
            },
            Err(_) => {},
        }
    }
}

/// The keys of a record are the names of its fields, the deletion mark's
/// left out.
pub proof fn lemma_record_keys(
    fields: Seq<RecordFieldInfoView>,
    data: Seq<u8>,
    pos: int,
    k: int,
    name: Seq<char>,
)
    requires
        0 <= k,
    ensures
        record_prefix(fields, data, pos, k) matches Ok(m) ==> (m.contains_key(name) <==> name
            != deletion_flag_name() && exists|j: int| 0 <= j < k && (#[trigger] fields[j]).name == name),
    decreases k,
{
    if k > 0 {
        lemma_record_keys(fields, data, pos, k - 1, name);
        if record_prefix(fields, data, pos, k) is Ok {
            let m = record_prefix(fields, data, pos, k - 1)->Ok_0;
            if m.contains_key(name) {
                let j = choose|j: int| 0 <= j < k - 1 && (#[trigger] fields[j]).name == name;
                assert(0 <= j < k && fields[j].name == name);
            }
            if fields[k - 1].name == name {
                assert(0 <= k - 1 < k && fields[k - 1].name == name);
            }
        }
    }
}

/// A record holds under a field's name what that field's bytes decode to,
/// unless a later field has the same name.
pub proof fn lemma_record_value(
    fields: Seq<RecordFieldInfoView>,
    data: Seq<u8>,
    pos: int,
    k: int,
    j: int,
)
    requires
        0 <= j < k,
        fields[j].name != deletion_flag_name(),
        forall|i: int| j < i < k ==> (#[trigger] fields[i]).name != fields[j].name,
    ensures
        record_prefix(fields, data, pos, k) matches Ok(m) ==> m.contains_key(fields[j].name)
            && field_at(fields, data, pos, j) == Ok::<FieldValueView, Error>(m[fields[j].name]),
    decreases k,
{
    if j < k - 1 {
        lemma_record_value(fields, data, pos, k - 1, j);
    }
}

/// Reading `n` records yields `n` records or fails.
pub proof fn lemma_records_count(fields: Seq<RecordFieldInfoView>, data: Seq<u8>, pos: int, n: int)
    requires
        0 <= n,
    ensures
        records_prefix(fields, data, pos, n) matches Ok(s) ==> s.len() == n,
    decreases n,
{
    if n > 0 {
        lemma_records_count(fields, data, pos, n - 1);
    }
}

/// Records come in the order in which they lie in the table: where `n`
/// records are read from `pos`, record `i` is the one that starts `i`
/// record widths behind `pos`.
pub proof fn lemma_records_in_order(
    fields: Seq<RecordFieldInfoView>,
    data: Seq<u8>,
    pos: int,
    n: int,
    i: int,
)
    requires
        0 <= i < n,
    ensures
        records_prefix(fields, data, pos, n) matches Ok(s) ==> s.len() == n && record_at(
            fields,
            data,
            pos + i * record_width(fields),
        ) == Ok::<RecordView, Error>(s[i]),
    decreases n,
{
    lemma_records_count(fields, data, pos, n);
    lemma_records_count(fields, data, pos, n - 1);
    if i < n - 1 {
        lemma_records_in_order(fields, data, pos, n - 1, i);
    }
}

/// None of the records read holds a value under the deletion mark's name.
pub proof fn lemma_no_record_holds_deletion_flag(
    fields: Seq<RecordFieldInfoView>,
    data: Seq<u8>,
    pos: int,
    n: int,
    i: int,
)
    requires
        0 <= i < n,
    ensures
        records_prefix(fields, data, pos, n) matches Ok(s) ==> !s[i].contains_key(
            deletion_flag_name(),
        ),
{
    lemma_records_in_order(fields, data, pos, n, i);
    lemma_deletion_flag_left_out(
        fields,
        data,
        pos + i * record_width(fields),
        fields.len() as int,
    );
}

/// A table that opens has a descriptor table of one entry more than the
/// header counts on disk, the first of them the deletion mark; it has
/// produced no record yet and rests at the first byte of the first record,
/// right behind the terminator.
pub proof fn lemma_opened_table(data: Seq<u8>, pos: int)
    requires
        0 <= pos,
    ensures
        open_table(data, pos) matches Ok(reader) ==> {
            &&& reader.wf()
            &&& reader.data == data
            &&& reader.fields.len() == reader.header.spec_num_fields() + 1
            &&& reader.fields[0] == deletion_flag()
            &&& forall|i: int|
                1 <= i < reader.fields.len() ==> (#[trigger] reader.fields[i]).name
                    != deletion_flag_name()
            &&& reader.produced == 0
            &&& reader.position == pos + reader.header.offset_to_first_record
            &&& data[reader.position - 1] == TERMINATOR
        },
{
    if let Ok(header) = Header::parse(data, pos) {
        let n = header.spec_num_fields();
        lemma_descriptors_count(data, pos + HEADER_SIZE, n);
        if let Ok(reader) = open_table(data, pos) {
            assert forall|i: int| 1 <= i < reader.fields.len() implies (#[trigger] reader.fields[i]).name
                != deletion_flag_name() by {
                lemma_descriptors_in_order(data, pos + HEADER_SIZE, n, i - 1);
            }
        }
    }
}

/// Where the byte in the terminator's place is not `0x0D`, the table does
/// not open, and where the header and the descriptors before that byte are
/// sound, it fails with `UnexpectedTerminator`.
pub proof fn lemma_corrupt_terminator(data: Seq<u8>, pos: int)
    requires
        0 <= pos,
        Header::parse(data, pos) is Ok,
        ({
            let end = pos + HEADER_SIZE + Header::parse(data, pos)->Ok_0.spec_num_fields()
                * FIELD_INFO_SIZE;
            end < data.len() && data[end] != TERMINATOR
        }),
    ensures
        open_table(data, pos) is Err,
        descriptors(
            data,
            pos + HEADER_SIZE,
            Header::parse(data, pos)->Ok_0.spec_num_fields(),
        ) is Ok ==> open_table(data, pos) == Err::<ReaderView, Error>(Error::UnexpectedTerminator),
{
}

/// A reader that reads on to the end without failure yields exactly the
/// records that the header declares and that it has not produced yet.
pub proof fn lemma_declared_count(reader: ReaderView)
    requires
        reader.wf(),
    ensures
        reader.remaining_records() matches Ok(s) ==> s.len() == reader.header.num_records
            - reader.produced,
{
    lemma_records_count(
        reader.fields,
        reader.data,
        reader.position,
        reader.header.num_records - reader.produced,
    );
}

/// A table that reads without failure yields exactly as many records as its
/// header declares.
pub proof fn lemma_table_count(data: Seq<u8>)
    ensures
        read_table(data) matches Ok(s) ==> s.len() == Header::parse(data, 0)->Ok_0.num_records,
{
    lemma_opened_table(data, 0);
    if let Ok(reader) = open_table(data, 0) {
        lemma_declared_count(reader);
    }
}

/// The end is final: an exhausted reader yields nothing, a step leaves it as
/// it was, and so every later step yields nothing either.
pub proof fn lemma_end_is_final(reader: ReaderView)
    requires
        reader.exhausted(),
    ensures
        reader.next_item() is None,
        reader.after_next() == reader,
        reader.after_next().next_item() is None,
{
}

/// A table that declares no record yields nothing: the first step is the
/// end, and reading all that is left gives the empty sequence.
pub proof fn lemma_empty_table(reader: ReaderView)
    requires
        reader.wf(),
        reader.header.num_records == 0,
    ensures
        reader.next_item() is None,
        reader.remaining_records() == Ok::<Seq<RecordView>, Error>(Seq::empty()),
{
}

/// Two copies of the same bytes decode alike: they open to the same reader
/// or fail with the same error, and their records are the same, field for
/// field.
pub proof fn lemma_copies_decode_alike(a: Vec<u8>, b: Vec<u8>)
    requires
        a@ == b@,
    ensures
        open_table(a@, 0) == open_table(b@, 0),
        read_table(a@) == read_table(b@),
{
}

/// Decoding the bytes of a field never fails for want of bytes.
pub proof fn lemma_decode_is_no_io_error(field_type: FieldType, bytes: Seq<u8>)
    ensures
        decode_value(field_type, bytes) != Err::<FieldValueView, Error>(Error::IoError),
{
}

/// The first `i` fields take no more room than the first `k`, where
/// `i <= k`.
pub proof fn lemma_fields_width_grows(fields: Seq<RecordFieldInfoView>, i: int, k: int)
    requires
        0 <= i <= k,
    ensures
        0 <= fields_width(fields, i) <= fields_width(fields, k),
    decreases k,
{
    if i < k {
        lemma_fields_width_grows(fields, i, k - 1);
    } else if k > 0 {
        lemma_fields_width_grows(fields, i - 1, k - 1);
    }
}

/// The first `k` fields of a record that lies whole within `data` do not
/// fail for want of bytes, and read the same whatever bytes follow `data`.
pub proof fn lemma_whole_record_prefix(
    fields: Seq<RecordFieldInfoView>,
    data: Seq<u8>,
    more: Seq<u8>,
    pos: int,
    k: int,
)
    requires
        0 <= pos,
        0 <= k <= fields.len(),
        pos + record_width(fields) <= data.len(),
    ensures
        record_prefix(fields, data, pos, k) != Err::<RecordView, Error>(Error::IoError),
        record_prefix(fields, data + more, pos, k) == record_prefix(fields, data, pos, k),
    decreases k,
{
    if k > 0 {
        lemma_whole_record_prefix(fields, data, more, pos, k - 1);
        lemma_fields_width_grows(fields, 0, k - 1);
        lemma_fields_width_grows(fields, k, fields.len() as int);
        let start = pos + fields_width(fields, k - 1);
        let end = start + fields[k - 1].record_length;
        assert((data + more).subrange(start, end) =~= data.subrange(start, end));
        lemma_decode_is_no_io_error(fields[k - 1].field_type, data.subrange(start, end));
    }
}

/// A record that lies whole within `data` does not fail for want of bytes,
/// and reads the same whatever bytes follow `data`.
pub proof fn lemma_whole_record(
    fields: Seq<RecordFieldInfoView>,
    data: Seq<u8>,
    more: Seq<u8>,
    pos: int,
)
    requires
        0 <= pos,
        pos + record_width(fields) <= data.len(),
    ensures
        record_at(fields, data, pos) != Err::<RecordView, Error>(Error::IoError),
        record_at(fields, data + more, pos) == record_at(fields, data, pos),
{
    lemma_whole_record_prefix(fields, data, more, pos, fields.len() as int);
}

/// Supplying bytes to a reader keeps it well formed; supplying as many as it
/// lacks leaves it lacking none; and a reader that lacks none yields what it
/// would have yielded without them, which is no failure for want of bytes.
pub proof fn lemma_supply(reader: ReaderView, more: Seq<u8>)
    requires
        reader.wf(),
    ensures
        ({
            let fed = ReaderView { data: reader.data + more, ..reader };
            &&& fed.wf()
            &&& more.len() >= reader.missing() ==> fed.missing() == 0
            &&& reader.missing() == 0 ==> fed.next_item() == reader.next_item()
                && reader.next_item() != Some(Err::<RecordView, Error>(Error::IoError))
        }),
{
    if reader.missing() == 0 && !reader.exhausted() {
        lemma_whole_record(reader.fields, reader.data, more, reader.position);
    }
}

/// The first `n` descriptors of a table that lie whole within `data` do not
/// fail for want of bytes, and read the same whatever bytes follow `data`.
pub proof fn lemma_whole_descriptors(data: Seq<u8>, more: Seq<u8>, pos: int, n: int)
    requires
        0 <= pos,
        0 <= n,
        pos + n * FIELD_INFO_SIZE <= data.len(),
    ensures
        descriptors(data, pos, n) != Err::<Seq<RecordFieldInfoView>, Error>(Error::IoError),
        descriptors(data + more, pos, n) == descriptors(data, pos, n),
    decreases n,
{
    if n > 0 {
        lemma_whole_descriptors(data, more, pos, n - 1);
        let start = pos + (n - 1) * FIELD_INFO_SIZE;
        let end = start + FIELD_INFO_SIZE;
        assert((data + more).subrange(start, end) =~= data.subrange(start, end));
    }
}

/// A table whose header, descriptors and terminator lie whole within `data`
/// does not fail to open for want of bytes, and opens the same whatever
/// bytes follow `data`.
pub proof fn lemma_whole_table(data: Seq<u8>, more: Seq<u8>, pos: int)
    requires
        0 <= pos,
        Header::parse(data, pos) is Ok,
        pos + Header::parse(data, pos)->Ok_0.offset_to_first_record <= data.len(),
    ensures
        open_table(data, pos) != Err::<ReaderView, Error>(Error::IoError),
        match open_table(data, pos) {
            Ok(reader) => open_table(data + more, pos) == Ok::<ReaderView, Error>(
                ReaderView { data: data + more, ..reader },
            ),
            Err(e) => open_table(data + more, pos) == Err::<ReaderView, Error>(e),
        },
{
    let header = Header::parse(data, pos)->Ok_0;
    let n = header.spec_num_fields();
    assert((data + more).subrange(pos, pos + HEADER_SIZE) =~= data.subrange(
        pos,
        pos + HEADER_SIZE,
    ));
    lemma_whole_descriptors(data, more, pos + HEADER_SIZE, n);
}

} // verus!
