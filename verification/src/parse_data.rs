//! Data sets: records laid out as a template prescribes.

use crate::template_ring::{lookup, TemplateRing};
use crate::templates::{
    lemma_width_sum_push, lemma_width_sum_take, width_sum, IPFIXField, IPFIXTemplate,
    TemplateModel, MIN_TEMPLATE_ID, VARIABLE_LENGTH,
};
use crate::wire::{be16, be32, be64, be_u16, slice};
use vstd::arithmetic::div_mod::{
    lemma_basic_div, lemma_div_plus_one, lemma_mod_pos_bound, lemma_mod_sub_multiples_vanish,
    lemma_small_mod,
};
use vstd::prelude::*;
use vstd::slice::slice_to_vec;

verus! {

/// The value of one field of a data record.
#[derive(Debug, PartialEq, Eq)]
pub enum DataType {
    U8(u8),
    U16(u16),
    U32(u32),
    U64(u64),
    BYTES(Vec<u8>),
}

/// One field of a data record: the information element it belongs to and
/// its value.
#[derive(Debug, PartialEq, Eq)]
pub struct DataRow {
    pub id: u16,
    pub en: u32,
    pub data: DataType,
}

/// One data record.
#[derive(Debug, PartialEq, Eq)]
pub struct DataSet {
    /// Id of the set that the record came in.
    pub id: u16,
    /// Id of the template that the record was decoded with.
    pub template: u16,
    pub fields: Vec<DataRow>,
}

/// The mathematical value of a [`DataType`].
pub enum DataValue {
    U8(u8),
    U16(u16),
    U32(u32),
    U64(u64),
    Bytes(Seq<u8>),
}

/// The mathematical value of a [`DataRow`].
pub struct DataRowModel {
    pub id: u16,
    pub en: u32,
    pub data: DataValue,
}

/// The mathematical value of a [`DataSet`].
pub struct DataSetModel {
    pub id: u16,
    pub template: u16,
    pub fields: Seq<DataRowModel>,
}

/// Why a data set could not be decoded.
#[derive(Clone, Copy, Debug, PartialEq, Eq)]
pub enum DataError {
    /// The input ends inside the set header.
    Truncated,
    /// The set's length is below that of its header, or beyond the input.
    BadLength,
    /// The set id is below 256, so the set holds no data records.
    NotData,
    /// No template is known for the set id.
    UnknownTemplate,
    /// The template's fields add up to a record of no bytes.
    EmptyRecord,
    /// A field of the template has the width 0.
    ZeroWidth,
    /// A field of the template has the width that marks a variable length.
    VariableLength,
    /// A field of the template ends behind the end of the record.
    PastEnd,
}

impl View for DataType {
    type V = DataValue;

    open spec fn view(&self) -> DataValue {
        match *self {
            DataType::U8(v) => DataValue::U8(v),
            DataType::U16(v) => DataValue::U16(v),
            DataType::U32(v) => DataValue::U32(v),
            DataType::U64(v) => DataValue::U64(v),
            DataType::BYTES(v) => DataValue::Bytes(v@),
        }
    }
}

impl View for DataRow {
    type V = DataRowModel;

    open spec fn view(&self) -> DataRowModel {
        DataRowModel { id: self.id, en: self.en, data: self.data@ }
    }
}

impl View for DataSet {
    type V = DataSetModel;

    open spec fn view(&self) -> DataSetModel {
        DataSetModel { id: self.id, template: self.template, fields: row_models(self.fields@) }
    }
}

/// The views of a sequence of fields, in order.
pub open spec fn row_models(rows: Seq<DataRow>) -> Seq<DataRowModel> {
    rows.map_values(|r: DataRow| r@)
}

/// The views of a sequence of records, in order.
pub open spec fn record_models(records: Seq<DataSet>) -> Seq<DataSetModel> {
    records.map_values(|r: DataSet| r@)
}

impl DataRow {
    /// A field of the information element `id` of the enterprise `en`, with
    /// the value `val`.
    pub fn new(id: u16, en: u32, val: DataType) -> (r: Self)
        ensures
            r@ == (DataRowModel { id, en, data: val@ }),
    {
        DataRow { id, en, data: val }
    }
}

/// The value of the field of `width` bytes that starts at byte `offset` of
/// `buf`.
///
/// Widths of 1, 2, 4 and 8 bytes are unsigned integers in network byte
/// order, every other width is kept as bytes. A field needs at least one
/// byte, a fixed width, and all its bytes inside `buf`.
pub open spec fn value_spec(buf: Seq<u8>, offset: nat, width: u16) -> Result<DataValue, DataError> {
    if width == 0 {
        Err(DataError::ZeroWidth)
    } else if width == VARIABLE_LENGTH {
        Err(DataError::VariableLength)
    } else if offset + width > buf.len() {
        Err(DataError::PastEnd)
    } else if width == 1 {
        Ok(DataValue::U8(buf[offset as int]))
    } else if width == 2 {
        Ok(DataValue::U16(be16(buf, offset as int)))
    } else if width == 4 {
        Ok(DataValue::U32(be32(buf, offset as int)))
    } else if width == 8 {
        Ok(DataValue::U64(be64(buf, offset as int)))
    } else {
        Ok(DataValue::Bytes(buf.subrange(offset as int, offset + width)))
    }
}

/// The first byte of `buf`.
pub fn read_u8(buf: &[u8]) -> (r: u8)
    requires
        buf@.len() >= 1,
    ensures
        r == buf@[0],
{
    buf[0]
}

/// The first two bytes of `buf` as an integer in network byte order.
pub fn read_u16(buf: &[u8]) -> (r: u16)
    requires
        buf@.len() >= 2,
    ensures
        r == be16(buf@, 0),
{
    let b0 = buf[0];
    let b1 = buf[1];
    assert(((b0 as u16) << 8) | (b1 as u16) == (b0 as u16) * 0x100 + (b1 as u16)) by (bit_vector);
    ((b0 as u16) << 8) | (b1 as u16)
}

/// The first four bytes of `buf` as an integer in network byte order.
pub fn read_u32(buf: &[u8]) -> (r: u32)
    requires
        buf@.len() >= 4,
    ensures
        r == be32(buf@, 0),
{
    let b0 = buf[0];
    let b1 = buf[1];
    let b2 = buf[2];
    let b3 = buf[3];
    assert(((b0 as u32) << 24) | ((b1 as u32) << 16) | ((b2 as u32) << 8) | (b3 as u32) == (
    b0 as u32) * 0x100_0000 + (b1 as u32) * 0x1_0000 + (b2 as u32) * 0x100 + (b3 as u32))
        by (bit_vector);
    ((b0 as u32) << 24) | ((b1 as u32) << 16) | ((b2 as u32) << 8) | (b3 as u32)
}

/// The first eight bytes of `buf` as an integer in network byte order.
pub fn read_u64(buf: &[u8]) -> (r: u64)
    requires
        buf@.len() >= 8,
    ensures
        r == be64(buf@, 0),
{
    let b0 = buf[0];
    let b1 = buf[1];
    let b2 = buf[2];
    let b3 = buf[3];
    let b4 = buf[4];
    let b5 = buf[5];
    let b6 = buf[6];
    let b7 = buf[7];
    assert(((b0 as u64) << 56) | ((b1 as u64) << 48) | ((b2 as u64) << 40) | ((b3 as u64) << 32) | (
    (b4 as u64) << 24) | ((b5 as u64) << 16) | ((b6 as u64) << 8) | (b7 as u64) == ((b0 as u64)
        * 0x100_0000 + (b1 as u64) * 0x1_0000 + (b2 as u64) * 0x100 + (b3 as u64)) * 0x1_0000_0000
        + ((b4 as u64) * 0x100_0000 + (b5 as u64) * 0x1_0000 + (b6 as u64) * 0x100 + (b7 as u64)))
        by (bit_vector);
    ((b0 as u64) << 56) | ((b1 as u64) << 48) | ((b2 as u64) << 40) | ((b3 as u64) << 32) | ((
    b4 as u64) << 24) | ((b5 as u64) << 16) | ((b6 as u64) << 8) | (b7 as u64)
}

/// A copy of the first `width` bytes of `buf`.
pub fn read_other(buf: &[u8], width: usize) -> (r: Vec<u8>)
    requires
        width <= buf@.len(),
    ensures
        r@ == buf@.subrange(0, width as int),
{
    slice_to_vec(slice(buf, 0, width))
}

/// Reads the field of `width` bytes that starts at byte `offset` of `i`.
///
/// The result is that of [`value_spec`], whether it succeeds or fails.
pub fn read_value_from_byte(i: &[u8], offset: usize, width: u16) -> (r: Result<DataType, DataError>)
    ensures
        match r {
            Ok(v) => value_spec(i@, offset as nat, width) == Ok::<_, DataError>(v@),
            Err(e) => value_spec(i@, offset as nat, width) == Err::<DataValue, _>(e),
        },
{
    if width == 0 {
        return Err(DataError::ZeroWidth);
    }
    if width == VARIABLE_LENGTH {
        return Err(DataError::VariableLength);
    }
    // Without enough bytes behind the offset the field cannot be read.
    if offset > i.len() || i.len() - offset < width as usize {
        return Err(DataError::PastEnd);
    }
    let buf = slice(i, offset, i.len());
    Ok(
        match width {
            8 => DataType::U64(read_u64(buf)),
            4 => DataType::U32(read_u32(buf)),
            2 => DataType::U16(read_u16(buf)),
            1 => DataType::U8(read_u8(buf)),
            n => {
                let bytes = read_other(buf, n as usize);
                assert(bytes@ =~= i@.subrange(offset as int, offset + width));
                DataType::BYTES(bytes)
            },
        },
    )
}

/// A decoding result, moved behind fields that were decoded before it.
pub open spec fn after_rows(
    done: Seq<DataRowModel>,
    tail: Result<Seq<DataRowModel>, DataError>,
) -> Result<Seq<DataRowModel>, DataError> {
    match tail {
        Ok(rows) => Ok(done + rows),
        Err(e) => Err(e),
    }
}

/// A decoding result, moved behind records that were decoded before it.
pub open spec fn after_records(
    done: Seq<DataSetModel>,
    tail: Result<Seq<DataSetModel>, DataError>,
) -> Result<Seq<DataSetModel>, DataError> {
    match tail {
        Ok(records) => Ok(done + records),
        Err(e) => Err(e),
    }
}

/// The values that the layout `fields` finds in `record`, one for each
/// field and in the order of the fields. The first field that cannot be
/// read fails the record.
pub open spec fn values_spec(fields: Seq<IPFIXField>, record: Seq<u8>) -> Result<
    Seq<DataRowModel>,
    DataError,
>
    decreases fields.len(),
{
    if fields.len() == 0 {
        Ok(Seq::empty())
    } else {
        let f = fields[0];
        match value_spec(record, f.start_byte as nat, f.width) {
            Err(e) => Err(e),
            Ok(v) => after_rows(
                seq![DataRowModel { id: f.field_id, en: f.en, data: v }],
                values_spec(fields.skip(1), record),
            ),
        }
    }
}

/// The records of `size` bytes each that `s` holds, decoded with the
/// template `t` for a set with the id `set_id`.
///
/// Records follow one another while `s` has a whole record left; what is
/// left then is padding. One record that cannot be decoded fails them all.
pub open spec fn records_spec(t: TemplateModel, set_id: u16, s: Seq<u8>, size: nat) -> Result<
    Seq<DataSetModel>,
    DataError,
>
    decreases s.len(),
{
    if size == 0 || s.len() < size {
        Ok(Seq::empty())
    } else {
        match values_spec(t.fields, s.take(size as int)) {
            Err(e) => Err(e),
            Ok(rows) => after_records(
                seq![DataSetModel { id: set_id, template: t.id, fields: rows }],
                records_spec(t, set_id, s.skip(size as int), size),
            ),
        }
    }
}

/// The records that `content`, the part of a data set that follows its
/// header, holds for the template `t`, where `set_id` is the id of the set.
///
/// The size of a record is the sum of the widths of the template's fields,
/// and it has to be positive.
pub open spec fn data_spec(t: TemplateModel, set_id: u16, content: Seq<u8>) -> Result<
    Seq<DataSetModel>,
    DataError,
> {
    if t.record_size() == 0 {
        Err(DataError::EmptyRecord)
    } else {
        records_spec(t, set_id, content, t.record_size())
    }
}

/// Decodes the data set at the head of `s` with the templates of `reg`, for
/// the observation domain `odid`. Gives the records and the length of the
/// set.
///
/// A set is its id and its length, both 16 bits wide, and its content; the
/// length counts the header too. A set of nothing but its header holds no
/// record, whatever its id. Otherwise the id is that of the template that
/// lays out the records.
pub open spec fn data_set_spec(reg: Map<(u32, u16), TemplateModel>, odid: u32, s: Seq<u8>) -> Result<
    (Seq<DataSetModel>, nat),
    DataError,
> {
    if s.len() < 4 {
        Err(DataError::Truncated)
    } else {
        let set_id = be16(s, 0);
        let len = be16(s, 2);
        if len < 4 || len > s.len() {
            Err(DataError::BadLength)
        } else if len == 4 {
            Ok((Seq::empty(), 4))
        } else if set_id < MIN_TEMPLATE_ID {
            Err(DataError::NotData)
        } else {
            match lookup(reg, odid, set_id) {
                None => Err(DataError::UnknownTemplate),
                Some(t) => match data_spec(t, set_id, s.subrange(4, len as int)) {
                    Err(e) => Err(e),
                    Ok(records) => Ok((records, len as nat)),
                },
            }
        }
    }
}

/// The sum of the widths of `fields`, unless it is above `limit`.
fn record_size_within(fields: &Vec<IPFIXField>, limit: usize) -> (r: Option<usize>)
    ensures
        match r {
            Some(size) => size == width_sum(fields@) && size <= limit,
            None => width_sum(fields@) > limit,
        },
{
    let mut size: usize = 0;
    let mut j: usize = 0;
    assert(fields@.take(0) =~= Seq::<IPFIXField>::empty());
    while j < fields.len()
        invariant
            j <= fields@.len(),
            size == width_sum(fields@.take(j as int)),
            size <= limit,
        decreases fields@.len() - j,
    {
        let width = fields[j].width as usize;
        proof {
            assert(fields@.take(j + 1) =~= fields@.take(j as int).push(fields@[j as int]));
            lemma_width_sum_push(fields@.take(j as int), fields@[j as int]);
        }
        if width > limit - size {
            proof {
                lemma_width_sum_take(fields@, j + 1);
            }
            return None;
        }
        size = size + width;
        j = j + 1;
    }
    assert(fields@.take(j as int) =~= fields@);
    Some(size)
}

/// Decodes one record, the bytes of `record`, with `template`, for a set
/// with the id `set_id`.
fn record_from(record: &[u8], set_id: u16, template: &IPFIXTemplate) -> (r: Result<
    DataSet,
    DataError,
>)
    ensures
        match r {
            Ok(d) => values_spec(template@.fields, record@) == Ok::<_, DataError>(d@.fields)
                && d.id == set_id && d.template == template.id,
            Err(e) => values_spec(template@.fields, record@) == Err::<Seq<DataRowModel>, _>(e),
        },
{
    let mut ds = DataSet { id: set_id, fields: Vec::new(), template: template.id };
    let mut j: usize = 0;
    proof {
        assert(template@.fields.skip(0) =~= template@.fields);
        assert(row_models(ds.fields@) =~= Seq::<DataRowModel>::empty());
        if let Ok(rows) = values_spec(template@.fields, record@) {
            assert(Seq::<DataRowModel>::empty() + rows =~= rows);
        }
    }
    while j < template.fields.len()
        invariant
            j <= template.fields@.len(),
            ds.id == set_id,
            ds.template == template.id,
            values_spec(template@.fields, record@) == after_rows(
                row_models(ds.fields@),
                values_spec(template@.fields.skip(j as int), record@),
            ),
        decreases template.fields@.len() - j,
    {
        let tmplt_field = template.fields[j];
        let ghost done = ds.fields@;
        let val = match read_value_from_byte(
            record,
            tmplt_field.start_byte as usize,
            tmplt_field.width,
        ) {
            Ok(v) => v,
            Err(e) => {
                return Err(e);
            },
        };
        let row = DataRow::new(tmplt_field.field_id, tmplt_field.en, val);
        proof {
            let left = template@.fields.skip(j as int);
            assert(left[0] == tmplt_field);
            assert(left.skip(1) =~= template@.fields.skip(j + 1));
            assert(row_models(done.push(row)) =~= row_models(done).push(row@));
            if let Ok(rows) = values_spec(template@.fields.skip(j + 1), record@) {
                assert(row_models(done) + (seq![row@] + rows) =~= row_models(done).push(row@)
                    + rows);
            }
        }
        ds.fields.push(row);
        j = j + 1;
    }
    proof {
        assert(row_models(ds.fields@) + Seq::<DataRowModel>::empty() =~= row_models(ds.fields@));
    }
    Ok(ds)
}

impl DataSet {
    /// Decodes the records that `content` holds, the part of a data set that
    /// follows its header, with `template`, for a set with the id `set_id`.
    ///
    /// The result is that of [`data_spec`], whether it succeeds or fails.
    pub fn from_template(content: &[u8], set_id: u16, template: &IPFIXTemplate) -> (r: Result<
        Vec<Self>,
        DataError,
    >)
        ensures
            match r {
                Ok(records) => data_spec(template@, set_id, content@) == Ok::<_, DataError>(
                    record_models(records@),
                ),
                Err(e) => data_spec(template@, set_id, content@) == Err::<Seq<DataSetModel>, _>(e),
            },
    {
        let mut datasets: Vec<DataSet> = Vec::new();
        let size = match record_size_within(&template.fields, content.len()) {
            Some(size) => size,
            None => {
                // Not even one record fits: the content is padding.
                assert(record_models(datasets@) =~= Seq::<DataSetModel>::empty());
                return Ok(datasets);
            },
        };
        if size == 0 {
            return Err(DataError::EmptyRecord);
        }
        let mut loop_rest = content;
        proof {
            assert(record_models(datasets@) =~= Seq::<DataSetModel>::empty());
            if let Ok(records) = records_spec(template@, set_id, content@, size as nat) {
                assert(Seq::<DataSetModel>::empty() + records =~= records);
            }
        }
        while loop_rest.len() >= size
            invariant
                size > 0,
                size == template@.record_size(),
                records_spec(template@, set_id, content@, size as nat) == after_records(
                    record_models(datasets@),
                    records_spec(template@, set_id, loop_rest@, size as nat),
                ),
            decreases loop_rest@.len(),
        {
            let ghost done = datasets@;
            // One record of the set, and what follows it.
            let (cur, next) = loop_rest.split_at(size);
            let ds = match record_from(cur, set_id, template) {
                Ok(ds) => ds,
                Err(e) => {
                    return Err(e);
                },
            };
            proof {
                assert(cur@ == loop_rest@.take(size as int));
                assert(next@ == loop_rest@.skip(size as int));
                assert(ds@ == (DataSetModel { id: set_id, template: template.id, fields: ds@.fields }));
                assert(record_models(done.push(ds)) =~= record_models(done).push(ds@));
                if let Ok(records) = records_spec(template@, set_id, next@, size as nat) {
                    assert(record_models(done) + (seq![ds@] + records) =~= record_models(done).push(
                        ds@,
                    ) + records);
                }
            }
            datasets.push(ds);
            loop_rest = next;
        }
        proof {
            assert(record_models(datasets@) + Seq::<DataSetModel>::empty() =~= record_models(
                datasets@,
            ));
        }
        Ok(datasets)
    }

    /// Decodes the data set at the head of `i` with the templates of
    /// `tmp_ring`, for the observation domain `odid`, and hands back the
    /// input that follows the set.
    ///
    /// The result is that of [`data_set_spec`], whether it succeeds or
    /// fails.
    pub fn get_datasets<'a>(i: &'a [u8], tmp_ring: &TemplateRing, odid: u32) -> (r: Result<
        (&'a [u8], Vec<Self>),
        DataError,
    >)
        ensures
            match r {
                Ok((rest, records)) => data_set_spec(tmp_ring@, odid, i@) matches Ok((m, n)) && m
                    == record_models(records@) && rest@ == i@.skip(n as int),
                Err(e) => data_set_spec(tmp_ring@, odid, i@) == Err::<
                    (Seq<DataSetModel>, nat),
                    _,
                >(e),
            },
    {
        let (rest, set_id) = match be_u16(i) {
            Ok(v) => v,
            Err(_) => {
                return Err(DataError::Truncated);
            },
        };
        let (_rest, len) = match be_u16(rest) {
            Ok(v) => v,
            Err(_) => {
                return Err(DataError::Truncated);
            },
        };
        let end = len as usize;
        if end < 4 || end > i.len() {
            return Err(DataError::BadLength);
        }
        let next = slice(i, end, i.len());
        if end == 4 {
            let datasets: Vec<DataSet> = Vec::new();
            assert(record_models(datasets@) =~= Seq::<DataSetModel>::empty());
            return Ok((next, datasets));
        }
        if set_id < MIN_TEMPLATE_ID {
            return Err(DataError::NotData);
        }
        let template = match tmp_ring.get_template(set_id, odid) {
            None => {
                return Err(DataError::UnknownTemplate);
            },
            Some(t) => t,
        };
        match DataSet::from_template(slice(i, 4, end), set_id, &template) {
            Ok(datasets) => Ok((next, datasets)),
            Err(e) => Err(e),
        }
    }
}

/// The record `r` has one value for each field of the layout `fields`, in
/// the order of the fields and under the field's information element and
/// enterprise number.
pub open spec fn follows_layout(rows: Seq<DataRowModel>, fields: Seq<IPFIXField>) -> bool {
    &&& rows.len() == fields.len()
    &&& forall|j: int|
        0 <= j < rows.len() ==> (#[trigger] rows[j]).id == fields[j].field_id && rows[j].en
            == fields[j].en
}

/// The values that a layout finds in a record follow the layout.
pub proof fn lemma_values_follow_layout(fields: Seq<IPFIXField>, record: Seq<u8>)
    ensures
        values_spec(fields, record) matches Ok(rows) ==> follows_layout(rows, fields),
    decreases fields.len(),
{
    if fields.len() > 0 {
        lemma_values_follow_layout(fields.skip(1), record);
    }
}

/// Every record that is decoded with a template has one value for each
/// field of the template, in the template's order and under the field's
/// information element and enterprise number; it names the template and the
/// set it came in.
pub proof fn lemma_records_follow_template(t: TemplateModel, set_id: u16, content: Seq<u8>)
    ensures
        data_spec(t, set_id, content) matches Ok(records) ==> forall|k: int|
            0 <= k < records.len() ==> follows_layout((#[trigger] records[k]).fields, t.fields)
                && records[k].template == t.id && records[k].id == set_id,
{
    lemma_records_follow_layout(t, set_id, content, t.record_size());
}

/// [`lemma_records_follow_template`], for records of any size.
proof fn lemma_records_follow_layout(t: TemplateModel, set_id: u16, s: Seq<u8>, size: nat)
    ensures
        records_spec(t, set_id, s, size) matches Ok(records) ==> forall|k: int|
            0 <= k < records.len() ==> follows_layout((#[trigger] records[k]).fields, t.fields)
                && records[k].template == t.id && records[k].id == set_id,
    decreases s.len(),
{
    if size != 0 && s.len() >= size {
        lemma_values_follow_layout(t.fields, s.take(size as int));
        lemma_records_follow_layout(t, set_id, s.skip(size as int), size);
    }
}

/// A data set holds as many records as fit into its content as a whole:
/// the length of the content divided by the record size, rounded down.
pub proof fn lemma_record_count(t: TemplateModel, set_id: u16, content: Seq<u8>)
    ensures
        data_spec(t, set_id, content) matches Ok(records) ==> records.len() == content.len()
            / t.record_size(),
{
    if t.record_size() != 0 {
        lemma_whole_records(t, set_id, content, t.record_size());
    }
}

/// [`lemma_record_count`], for records of any size.
proof fn lemma_whole_records(t: TemplateModel, set_id: u16, s: Seq<u8>, size: nat)
    requires
        size > 0,
    ensures
        records_spec(t, set_id, s, size) matches Ok(records) ==> records.len() == s.len() / size,
    decreases s.len(),
{
    if s.len() < size {
        lemma_basic_div(s.len() as int, size as int);
    } else {
        lemma_whole_records(t, set_id, s.skip(size as int), size);
        lemma_div_plus_one(s.len() - size, size as int);
    }
}

/// Bytes behind the last whole record are padding: a content of whole
/// records decodes to the same records with or without fewer bytes than one
/// record behind it.
pub proof fn lemma_padding_is_ignored(
    t: TemplateModel,
    set_id: u16,
    content: Seq<u8>,
    padding: Seq<u8>,
)
    requires
        t.record_size() > 0,
        content.len() % t.record_size() == 0,
        padding.len() < t.record_size(),
    ensures
        data_spec(t, set_id, content + padding) == data_spec(t, set_id, content),
    decreases content.len(),
{
    let size = t.record_size();
    if content.len() == 0 {
        assert(content + padding =~= padding);
    } else {
        lemma_mod_pos_bound(content.len() as int, size as int);
        if content.len() < size {
            lemma_small_mod(content.len(), size);
        }
        lemma_mod_sub_multiples_vanish(content.len() as int, size as int);
        assert((content + padding).take(size as int) =~= content.take(size as int));
        assert((content + padding).skip(size as int) =~= content.skip(size as int) + padding);
        lemma_padding_is_ignored(t, set_id, content.skip(size as int), padding);
    }
}

} // verus!
