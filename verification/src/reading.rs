//! Reading a table: the header and the descriptors once, then one record
//! per step.

use vstd::prelude::*;

use crate::descriptor::{
    deletion_flag, deletion_flag_name, field_views, RecordFieldInfo, RecordFieldInfoView,
};
use crate::error::{result_view, Error};
use crate::header::{Header, FIELD_INFO_SIZE, HEADER_SIZE, TERMINATOR};
use crate::record::{record_views, Record};
use crate::source::ByteSource;
use crate::value::{FieldValue, FieldValueView};

verus! {

/// A record as contracts see it: the value of each column under its name.
pub type RecordView = Map<Seq<char>, FieldValueView>;

/// The number of bytes that the first `k` fields take in a record.
pub open spec fn fields_width(fields: Seq<RecordFieldInfoView>, k: int) -> int
    decreases k,
{
    if k <= 0 {
        0
    } else {
        fields_width(fields, k - 1) + fields[k - 1].record_length
    }
}

/// The number of bytes that one record takes.
pub open spec fn record_width(fields: Seq<RecordFieldInfoView>) -> int {
    fields_width(fields, fields.len() as int)
}

/// The outcome of reading field `i` of the record that starts at `pos`.
pub open spec fn field_at(fields: Seq<RecordFieldInfoView>, data: Seq<u8>, pos: int, i: int)
    -> Result<FieldValueView, Error> {
    FieldValue::parse(fields[i], data, pos + fields_width(fields, i))
}

/// The outcome of reading the first `k` fields of the record that starts at
/// `pos`: the first failure among them, or the values read, each under its
/// field's name, a later field replacing an earlier one of the same name.
/// The deletion mark is read and left out.
pub open spec fn record_prefix(fields: Seq<RecordFieldInfoView>, data: Seq<u8>, pos: int, k: int)
    -> Result<RecordView, Error>
    decreases k,
{
    if k <= 0 {
        Ok(Map::empty())
    } else {
        match record_prefix(fields, data, pos, k - 1) {
            Err(e) => Err(e),
            Ok(m) => match field_at(fields, data, pos, k - 1) {
                Err(e) => Err(e),
                Ok(v) => if fields[k - 1].name == deletion_flag_name() {
                    Ok(m)
                } else {
                    Ok(m.insert(fields[k - 1].name, v))
                },
            },
        }
    }
}

/// The outcome of reading the record that starts at `pos`.
pub open spec fn record_at(fields: Seq<RecordFieldInfoView>, data: Seq<u8>, pos: int) -> Result<
    RecordView,
    Error,
> {
    record_prefix(fields, data, pos, fields.len() as int)
}

/// The outcome of reading `n` records one after the other from `pos`: the
/// first failure among them, or the records in the order read.
pub open spec fn records_prefix(fields: Seq<RecordFieldInfoView>, data: Seq<u8>, pos: int, n: int)
    -> Result<Seq<RecordView>, Error>
    decreases n,
{
    if n <= 0 {
        Ok(Seq::empty())
    } else {
        match records_prefix(fields, data, pos, n - 1) {
            Err(e) => Err(e),
            Ok(s) => match record_at(fields, data, pos + (n - 1) * record_width(fields)) {
                Err(e) => Err(e),
                Ok(m) => Ok(s.push(m)),
            },
        }
    }
}

/// The outcome of reading `n` descriptors one after the other from `pos`:
/// the first failure among them, or the descriptors in the order read.
pub open spec fn descriptors(data: Seq<u8>, pos: int, n: int) -> Result<
    Seq<RecordFieldInfoView>,
    Error,
>
    decreases n,
{
    if n <= 0 {
        Ok(Seq::empty())
    } else {
        match descriptors(data, pos, n - 1) {
            Err(e) => Err(e),
            Ok(s) => match RecordFieldInfo::parse(data, pos + (n - 1) * FIELD_INFO_SIZE) {
                Err(e) => Err(e),
                Ok(d) => Ok(s.push(d)),
            },
        }
    }
}

/// A reader as contracts see it.
pub struct ReaderView {
    /// All bytes of the source.
    pub data: Seq<u8>,
    /// The number of bytes consumed.
    pub position: int,
    /// The table's header.
    pub header: Header,
    /// The deletion mark's descriptor, then the descriptors on disk.
    pub fields: Seq<RecordFieldInfoView>,
    /// The number of records produced so far.
    pub produced: int,
}

impl ReaderView {
    /// The position lies within the bytes, the descriptor table is the
    /// deletion mark followed by as many descriptors as the header counts,
    /// and no more records were produced than the header declares.
    pub open spec fn wf(self) -> bool {
        &&& 0 <= self.position <= self.data.len()
        &&& self.header.wf()
        &&& self.fields.len() == self.header.spec_num_fields() + 1
        &&& self.fields[0] == deletion_flag()
        &&& 0 <= self.produced <= self.header.num_records
    }

    /// Every declared record was produced.
    pub open spec fn exhausted(self) -> bool {
        self.produced >= self.header.num_records
    }

    /// What the next step yields: nothing once the reader is exhausted,
    /// else the outcome of reading one record at the position.
    pub open spec fn next_item(self) -> Option<Result<RecordView, Error>> {
        if self.exhausted() {
            None
        } else {
            Some(record_at(self.fields, self.data, self.position))
        }
    }

    /// The reader after a step that did not fail: unchanged once it is
    /// exhausted, else one record further.
    pub open spec fn after_next(self) -> ReaderView {
        if self.exhausted() {
            self
        } else {
            ReaderView {
                position: self.position + record_width(self.fields),
                produced: self.produced + 1,
                ..self
            }
        }
    }

    /// The number of bytes that the source lacks for the next record: none
    /// once the reader is exhausted or where a whole record lies ahead.
    pub open spec fn missing(self) -> int {
        if self.exhausted() || self.position + record_width(self.fields) <= self.data.len() {
            0
        } else {
            self.position + record_width(self.fields) - self.data.len()
        }
    }

    /// The outcome of reading all records that are left.
    pub open spec fn remaining_records(self) -> Result<Seq<RecordView>, Error> {
        records_prefix(
            self.fields,
            self.data,
            self.position,
            self.header.num_records - self.produced,
        )
    }
}

/// The outcome of opening the table that starts at `pos` of `data`: the
/// header, then the descriptors that the header counts, then the terminator.
/// Each part fails as its own decoder does; a source that ends before the
/// terminator fails with `IoError`, and a byte other than `0x0D` in the
/// terminator's place with `UnexpectedTerminator`.
pub open spec fn open_table(data: Seq<u8>, pos: int) -> Result<ReaderView, Error> {
    match Header::parse(data, pos) {
        Err(e) => Err(e),
        Ok(header) => {
            let n = header.spec_num_fields();
            let end = pos + HEADER_SIZE + n * FIELD_INFO_SIZE;
            match descriptors(data, pos + HEADER_SIZE, n) {
                Err(e) => Err(e),
                Ok(on_disk) => if end >= data.len() {
                    Err(Error::IoError)
                } else if data[end] != TERMINATOR {
                    Err(Error::UnexpectedTerminator)
                } else {
                    Ok(
                        ReaderView {
                            data,
                            position: end + 1,
                            header,
                            fields: seq![deletion_flag()] + on_disk,
                            produced: 0,
                        },
                    )
                },
            }
        },
    }
}

/// The outcome of reading the whole table that `data` holds.
pub open spec fn read_table(data: Seq<u8>) -> Result<Seq<RecordView>, Error> {
    match open_table(data, 0) {
        Err(e) => Err(e),
        Ok(reader) => reader.remaining_records(),
    }
}

/// The outcome `r` with the records it carries replaced by their views.
pub open spec fn records_result(r: Result<Vec<Record>, Error>) -> Result<Seq<RecordView>, Error> {
    match r {
        Ok(records) => Ok(record_views(records@)),
        Err(e) => Err(e),
    }
}

/// The item `r` with the record it carries replaced by its view.
pub open spec fn item_view(r: Option<Result<Record, Error>>) -> Option<Result<RecordView, Error>> {
    match r {
        Some(item) => Some(result_view(item)),
        None => None,
    }
}

/// A failure among the first `k` fields is the failure of every longer
/// prefix.
pub proof fn lemma_record_failure_stays(
    fields: Seq<RecordFieldInfoView>,
    data: Seq<u8>,
    pos: int,
    k: int,
    n: int,
)
    requires
        0 <= k <= n,
        record_prefix(fields, data, pos, k) is Err,
    ensures
        record_prefix(fields, data, pos, n) == record_prefix(fields, data, pos, k),
    decreases n - k,
{
    if k < n {
        lemma_record_failure_stays(fields, data, pos, k, n - 1);
    }
}

/// A failure among the first `k` records is the failure of every longer
/// run.
pub proof fn lemma_records_failure_stays(
    fields: Seq<RecordFieldInfoView>,
    data: Seq<u8>,
    pos: int,
    k: int,
    n: int,
)
    requires
        0 <= k <= n,
        records_prefix(fields, data, pos, k) is Err,
    ensures
        records_prefix(fields, data, pos, n) == records_prefix(fields, data, pos, k),
    decreases n - k,
{
    if k < n {
        lemma_records_failure_stays(fields, data, pos, k, n - 1);
    }
}

/// A failure among the first `k` descriptors is the failure of every longer
/// run.
pub proof fn lemma_descriptors_failure_stays(data: Seq<u8>, pos: int, k: int, n: int)
    requires
        0 <= k <= n,
        descriptors(data, pos, k) is Err,
    ensures
        descriptors(data, pos, n) == descriptors(data, pos, k),
    decreases n - k,
{
    if k < n {
        lemma_descriptors_failure_stays(data, pos, k, n - 1);
    }
}

/// Reads one record at the source's position: every field in the order of
/// `fields`, the deletion mark left out of the result. On success exactly
/// the record's width is consumed. On failure the source stops at or behind
/// where it was.
pub fn read_record(source: &mut ByteSource, fields: &Vec<RecordFieldInfo>) -> (r: Result<
    Record,
    Error,
>)
    requires
        old(source).wf(),
    ensures
        final(source).wf(),
        final(source).bytes() == old(source).bytes(),
        result_view(r) == record_at(
            field_views(fields@),
            old(source).bytes(),
            old(source).position(),
        ),
        r is Ok ==> final(source).position() == old(source).position() + record_width(
            field_views(fields@),
        ),
        r is Err ==> old(source).position() <= final(source).position(),
{
    let ghost data = source.bytes();
    let ghost pos = source.position();
    let ghost views = field_views(fields@);
    let flag_name: String = "DeletionFlag".to_owned();
    let mut record = Record::new();
    let mut i: usize = 0;
    while i < fields.len()
        invariant
            i <= fields.len(),
            views == field_views(fields@),
            data == old(source).bytes(),
            pos == old(source).position(),
            source.wf(),
            source.bytes() == data,
            source.position() == pos + fields_width(views, i as int),
            fields_width(views, i as int) >= 0,
            record_prefix(views, data, pos, i as int) == Ok::<RecordView, Error>(record@),
            flag_name@ == deletion_flag_name(),
        decreases fields.len() - i,
    {
        let info = &fields[i];
        assert(views[i as int] == info@);
        match FieldValue::read_from(source, info) {
            Err(e) => {
                proof {
                    lemma_record_failure_stays(views, data, pos, i + 1, views.len() as int);
                }
                return Err(e);
            },
            Ok(value) => {
                if !(info.name == flag_name) {
                    record.insert(info.name.clone(), value);
                }
            },
        }
        i = i + 1;
    }
    Ok(record)
}

/// Reads records from a table in memory, one per step.
pub struct Reader {
    source: ByteSource,
    header: Header,
    fields_info: Vec<RecordFieldInfo>,
    current_record: u32,
}

impl View for Reader {
    type V = ReaderView;

    closed spec fn view(&self) -> ReaderView {
        ReaderView {
            data: self.source.bytes(),
            position: self.source.position(),
            header: self.header,
            fields: field_views(self.fields_info@),
            produced: self.current_record as int,
        }
    }
}

impl Reader {
    /// Opens the table at the source's position: reads the header, the
    /// descriptors that it counts and the terminator, and stops at the first
    /// byte of the first record.
    pub fn new(source: ByteSource) -> (r: Result<Reader, Error>)
        requires
            source.wf(),
        ensures
            result_view(r) == open_table(source.bytes(), source.position()),
            r is Ok ==> r->Ok_0@.wf(),
    {
        let ghost data = source.bytes();
        let ghost pos = source.position();
        let mut src = source;
        let header = match Header::read_from(&mut src) {
            Ok(header) => header,
            Err(e) => {
                return Err(e);
            },
        };
        let num_fields: usize = header.num_fields();
        let mut fields_info: Vec<RecordFieldInfo> = Vec::with_capacity(num_fields + 1);
        fields_info.push(RecordFieldInfo::new_deletion_flag());
        let mut i: usize = 0;
        while i < num_fields
            invariant
                i <= num_fields < 2048,
                num_fields == header.spec_num_fields(),
                header.wf(),
                Header::parse(data, pos) == Ok::<Header, Error>(header),
                fields_info@.len() == i + 1,
                data == source.bytes(),
                pos == source.position(),
                src.wf(),
                src.bytes() == data,
                src.position() == pos + HEADER_SIZE + i * FIELD_INFO_SIZE,
                descriptors(data, pos + HEADER_SIZE, i as int) is Ok,
                field_views(fields_info@) == seq![deletion_flag()] + descriptors(
                    data,
                    pos + HEADER_SIZE,
                    i as int,
                )->Ok_0,
            decreases num_fields - i,
        {
            let ghost before = field_views(fields_info@);
            match RecordFieldInfo::read_from(&mut src) {
                Ok(info) => {
                    fields_info.push(info);
                    assert(field_views(fields_info@) =~= before.push(info@));
                    assert(field_views(fields_info@) =~= seq![deletion_flag()] + descriptors(
                        data,
                        pos + HEADER_SIZE,
                        i + 1,
                    )->Ok_0);
                },
                Err(e) => {
                    proof {
                        lemma_descriptors_failure_stays(
                            data,
                            pos + HEADER_SIZE,
                            i + 1,
                            num_fields as int,
                        );
                    }
                    return Err(e);
                },
            }
            i = i + 1;
        }
        match src.read_u8() {
            Err(e) => Err(e),
            Ok(terminator) => {
                if terminator != TERMINATOR {
                    Err(Error::UnexpectedTerminator)
                } else {
                    Ok(Reader { source: src, header, fields_info, current_record: 0 })
                }
            },
        }
    }

    /// The table's header.
    pub fn header(&self) -> (h: &Header)
        ensures
            *h == self@.header,
    {
        &self.header
    }

    /// The descriptor table: the deletion mark, then the columns on disk.
    pub fn fields(&self) -> (f: &Vec<RecordFieldInfo>)
        ensures
            field_views(f@) == self@.fields,
    {
        &self.fields_info
    }

    /// The number of records produced so far.
    pub fn records_read(&self) -> (n: u32)
        ensures
            n == self@.produced,
    {
        self.current_record
    }

    /// The number of bytes that one record takes, deletion mark included.
    pub fn record_width(&self) -> (n: usize)
        requires
            self@.wf(),
        ensures
            n == record_width(self@.fields),
    {
        let ghost views = field_views(self.fields_info@);
        let mut n: usize = 0;
        let mut i: usize = 0;
        while i < self.fields_info.len()
            invariant
                i <= self.fields_info.len() <= 2048,
                views == field_views(self.fields_info@),
                n == fields_width(views, i as int),
                n <= 255 * i,
            decreases self.fields_info.len() - i,
        {
            assert(views[i as int] == self.fields_info[i as int]@);
            n = n + self.fields_info[i].record_length as usize;
            i = i + 1;
        }
        n
    }

    /// The number of bytes that the source lacks for the next record.
    pub fn missing(&self) -> (n: usize)
        requires
            self@.wf(),
        ensures
            n == self@.missing(),
    {
        if self.current_record >= self.header.num_records {
            return 0;
        }
        let width: usize = self.record_width();
        let ahead: usize = self.source.remaining();
        if ahead >= width {
            0
        } else {
            width - ahead
        }
    }

    /// Appends `bytes` behind those that the reader's source holds. Nothing
    /// else changes: which records were produced, and what lies behind the
    /// position, stay as they were.
    pub fn supply(&mut self, bytes: &[u8])
        requires
            old(self)@.wf(),
        ensures
            final(self)@.wf(),
            final(self)@ == (ReaderView { data: old(self)@.data + bytes@, ..old(self)@ }),
    {
        self.source.extend(bytes);
    }

    /// Yields the next record, or `None` once as many records were produced
    /// as the header declares; from then on the reader no longer changes.
    /// A record that fails to decode is yielded as its error: the reader
    /// then counts no record and rests at or behind where it was.
    pub fn next(&mut self) -> (r: Option<Result<Record, Error>>)
        requires
            old(self)@.wf(),
        ensures
            final(self)@.wf(),
            item_view(r) == old(self)@.next_item(),
            !(r matches Some(Err(_))) ==> final(self)@ == old(self)@.after_next(),
            r matches Some(Err(_)) ==> final(self)@ == (ReaderView {
                position: final(self)@.position,
                ..old(self)@
            }) && old(self)@.position <= final(self)@.position,
            r matches Some(Ok(record)) ==> !record@.contains_key(deletion_flag_name()),
    {
        if self.current_record >= self.header.num_records {
            None
        } else {
            let r = read_record(&mut self.source, &self.fields_info);
            if r.is_ok() {
                self.current_record = self.current_record + 1;
            }
            proof {
                lemma_deletion_flag_left_out(
                    old(self)@.fields,
                    old(self)@.data,
                    old(self)@.position,
                    old(self)@.fields.len() as int,
                );
            }
            Some(r)
        }
    }

    /// Reads every record that is left, in order, and stops at the first
    /// that fails.
    pub fn read(self) -> (r: Result<Vec<Record>, Error>)
        requires
            self@.wf(),
        ensures
            records_result(r) == self@.remaining_records(),
            r is Ok ==> r->Ok_0@.len() == self@.header.num_records - self@.produced,
    {
        let mut reader = self;
        let ghost start = self@;
        let ghost width = record_width(start.fields);
        let mut records: Vec<Record> = Vec::new();
        assert(record_views(records@) =~= Seq::<RecordView>::empty());
        loop
            invariant
                reader@.wf(),
                start == self@,
                width == record_width(start.fields),
                reader@ == (ReaderView {
                    position: start.position + records@.len() * width,
                    produced: start.produced + records@.len(),
                    ..start
                }),
                records_prefix(start.fields, start.data, start.position, records@.len() as int)
                    == Ok::<Seq<RecordView>, Error>(record_views(records@)),
            decreases reader@.header.num_records - reader@.produced,
        {
            let ghost count = records@.len() as int;
            let ghost before = record_views(records@);
            match reader.next() {
                None => {
                    return Ok(records);
                },
                Some(Err(e)) => {
                    proof {
                        lemma_records_failure_stays(
                            start.fields,
                            start.data,
                            start.position,
                            count + 1,
                            start.header.num_records - start.produced,
                        );
                    }
                    return Err(e);
                },
                Some(Ok(record)) => {
                    records.push(record);
                    assert(record_views(records@) =~= before.push(record@));
                    assert((count + 1) * width == count * width + width) by (nonlinear_arith);
                },
            }
        }
    }
}

/// Reads the whole table that `data` holds: opens it at the first byte and
/// reads every record that the header declares.
pub fn read(data: Vec<u8>) -> (r: Result<Vec<Record>, Error>)
    ensures
        records_result(r) == read_table(data@),
{
    match Reader::new(ByteSource::new(data)) {
        Ok(reader) => reader.read(),
        Err(e) => Err(e),
    }
}

/// No record holds the deletion mark: its name is never a key of what the
/// first `k` fields decode to.
pub proof fn lemma_deletion_flag_left_out(
    fields: Seq<RecordFieldInfoView>,
    data: Seq<u8>,
    pos: int,
    k: int,
)
    ensures
        record_prefix(fields, data, pos, k) matches Ok(m) ==> !m.contains_key(
            deletion_flag_name(),
        ),
    decreases k,
{
    if k > 0 {
        lemma_deletion_flag_left_out(fields, data, pos, k - 1);
    }
}

} // verus!
