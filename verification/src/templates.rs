//! Template records: the layout that an exporter announces for one kind of
//! data record.

use crate::wire::{
    be16, be16_bytes, be32, be32_bytes, be_u16, be_u32, lemma_be16_round_trip,
    lemma_be32_round_trip, push_be_u16, push_be_u32,
};
use vstd::prelude::*;

verus! {

/// Template ids below this value are reserved for set ids.
pub const MIN_TEMPLATE_ID: u16 = 256;

/// The width that marks a variable-length information element.
pub const VARIABLE_LENGTH: u16 = 65535;

/// The bit of an information element id that announces an enterprise number.
pub const ENTERPRISE_BIT: u16 = 0x8000;

/// One field of a record layout.
#[derive(Clone, Copy, Debug, PartialEq, Eq)]
pub struct IPFIXField {
    /// Width of the field in bytes.
    pub width: u16,
    /// Offset of the field's first byte inside a record.
    pub start_byte: u32,
    /// Enterprise number, 0 for an IANA element.
    pub en: u32,
    /// Information element id, without the enterprise bit.
    pub field_id: u16,
}

/// The layout of one kind of data record, scoped by an observation domain.
#[derive(Debug, PartialEq, Eq)]
pub struct IPFIXTemplate {
    pub id: u16,
    pub odid: u32,
    pub fields: Vec<IPFIXField>,
}

/// The mathematical value of an [`IPFIXTemplate`].
pub struct TemplateModel {
    pub id: u16,
    pub odid: u32,
    pub fields: Seq<IPFIXField>,
}

/// Why a template record could not be decoded.
#[derive(Clone, Copy, Debug, PartialEq, Eq)]
pub enum TemplateError {
    /// The input ends inside the record.
    Truncated,
    /// The template id is below [`MIN_TEMPLATE_ID`].
    ReservedId,
    /// A field has the width [`VARIABLE_LENGTH`].
    VariableLength,
}

impl View for IPFIXTemplate {
    type V = TemplateModel;

    open spec fn view(&self) -> TemplateModel {
        TemplateModel { id: self.id, odid: self.odid, fields: self.fields@ }
    }
}

impl Clone for IPFIXTemplate {
    fn clone(&self) -> (r: Self)
        ensures
            r@ == self@,
    {
        IPFIXTemplate { id: self.id, odid: self.odid, fields: self.fields.clone() }
    }
}

/// The views of a sequence of templates, in order.
pub open spec fn template_models(ts: Seq<IPFIXTemplate>) -> Seq<TemplateModel> {
    ts.map_values(|t: IPFIXTemplate| t@)
}

/// The sum of the widths of `fields`.
pub open spec fn width_sum(fields: Seq<IPFIXField>) -> nat
    decreases fields.len(),
{
    if fields.len() == 0 {
        0
    } else {
        width_sum(fields.drop_last()) + fields.last().width as nat
    }
}

/// Every field starts where the fields before it end.
pub open spec fn packed(fields: Seq<IPFIXField>) -> bool {
    forall|i: int| 0 <= i < fields.len() ==> (#[trigger] fields[i]).start_byte == width_sum(
        fields.take(i),
    )
}

impl TemplateModel {
    /// The number of bytes that one record of this layout occupies.
    pub open spec fn record_size(self) -> nat {
        width_sum(self.fields)
    }
}

/// A decoding result, moved behind fields that were decoded before it: `done`
/// is put in front of its fields and `used` is added to its length.
pub open spec fn after_fields(
    done: Seq<IPFIXField>,
    used: nat,
    tail: Result<(Seq<IPFIXField>, nat), TemplateError>,
) -> Result<(Seq<IPFIXField>, nat), TemplateError> {
    match tail {
        Ok((fields, n)) => Ok((done + fields, used + n)),
        Err(e) => Err(e),
    }
}

/// Decodes the field specifier at the head of `s`, for a field that starts
/// at byte `start` of a record. Gives the field and the number of bytes that
/// the specifier occupies.
///
/// A specifier is the information element id and the width, both 16 bits
/// wide. When the top bit of the id is set, a 32-bit enterprise number
/// follows, and the bit is not part of the field's id.
pub open spec fn field_spec(s: Seq<u8>, start: nat) -> Result<(IPFIXField, nat), TemplateError> {
    if s.len() < 4 {
        Err(TemplateError::Truncated)
    } else {
        let ie = be16(s, 0);
        let width = be16(s, 2);
        let enterprise = ie >= ENTERPRISE_BIT;
        if enterprise && s.len() < 8 {
            Err(TemplateError::Truncated)
        } else if width == VARIABLE_LENGTH {
            Err(TemplateError::VariableLength)
        } else if enterprise {
            Ok(
                (
                    IPFIXField {
                        width,
                        start_byte: start as u32,
                        en: be32(s, 4),
                        field_id: (ie - ENTERPRISE_BIT) as u16,
                    },
                    8,
                ),
            )
        } else {
            Ok((IPFIXField { width, start_byte: start as u32, en: 0, field_id: ie }, 4))
        }
    }
}

/// Decodes `count` field specifiers from the head of `s`, the first of them
/// for a field that starts at byte `start` of a record; each later field
/// starts where the one before it ends. Gives the fields and the number of
/// bytes that the specifiers occupy.
pub open spec fn fields_spec(s: Seq<u8>, count: nat, start: nat) -> Result<
    (Seq<IPFIXField>, nat),
    TemplateError,
>
    decreases count,
{
    if count == 0 {
        Ok((Seq::empty(), 0))
    } else {
        match field_spec(s, start) {
            Err(e) => Err(e),
            Ok((f, n)) => after_fields(
                seq![f],
                n,
                fields_spec(s.skip(n as int), (count - 1) as nat, start + f.width as nat),
            ),
        }
    }
}

/// Decodes the template record at the head of `s` for the observation domain
/// `odid`. Gives the template and the number of bytes that the record
/// occupies.
///
/// A record is the template id, the field count, both 16 bits wide, and that
/// many field specifiers.
pub open spec fn template_spec(s: Seq<u8>, odid: u32) -> Result<(TemplateModel, nat), TemplateError> {
    if s.len() < 4 {
        Err(TemplateError::Truncated)
    } else if be16(s, 0) < MIN_TEMPLATE_ID {
        Err(TemplateError::ReservedId)
    } else {
        match fields_spec(s.skip(4), be16(s, 2) as nat, 0) {
            Err(e) => Err(e),
            Ok((fields, n)) => Ok((TemplateModel { id: be16(s, 0), odid, fields }, 4 + n)),
        }
    }
}

/// A field specifier that announces an enterprise number and ends before
/// the number is complete cannot be decoded.
pub proof fn lemma_truncated_enterprise_number(s: Seq<u8>, start: nat)
    requires
        4 <= s.len() < 8,
        be16(s, 0) >= ENTERPRISE_BIT,
    ensures
        field_spec(s, start) == Err::<(IPFIXField, nat), _>(TemplateError::Truncated),
{
}

/// Specifiers never occupy more bytes than the input holds.
pub proof fn lemma_fields_within_input(s: Seq<u8>, count: nat, start: nat)
    ensures
        fields_spec(s, count, start) matches Ok((fields, n)) ==> n <= s.len() && fields.len()
            == count,
    decreases count,
{
    if count > 0 {
        if let Ok((f, n)) = field_spec(s, start) {
            lemma_fields_within_input(s.skip(n as int), (count - 1) as nat, start + f.width as nat);
        }
    }
}

/// A template record occupies at least its four header bytes and never more
/// than the input holds.
pub proof fn lemma_template_within_input(s: Seq<u8>, odid: u32)
    ensures
        template_spec(s, odid) matches Ok((t, n)) ==> 4 <= n <= s.len() && t.fields.len() == be16(
            s,
            2,
        ),
{
    if s.len() >= 4 {
        lemma_fields_within_input(s.skip(4), be16(s, 2) as nat, 0);
    }
}

/// Decodes the template records that fill `s`, the content of a template
/// set, for the observation domain `odid`.
///
/// Records follow one another until fewer than four bytes are left; what is
/// left then is padding. One record that cannot be decoded fails the set.
pub open spec fn templates_spec(s: Seq<u8>, odid: u32) -> Result<Seq<TemplateModel>, TemplateError>
    decreases s.len(),
    via templates_spec_decreases
{
    if s.len() < 4 {
        Ok(Seq::empty())
    } else {
        match template_spec(s, odid) {
            Err(e) => Err(e),
            Ok((t, n)) => match templates_spec(s.skip(n as int), odid) {
                Err(e) => Err(e),
                Ok(ts) => Ok(seq![t] + ts),
            },
        }
    }
}

#[via_fn]
proof fn templates_spec_decreases(s: Seq<u8>, odid: u32) {
    lemma_template_within_input(s, odid);
}

/// A decoding result, moved behind templates that were decoded before it.
pub open spec fn after_templates(
    done: Seq<TemplateModel>,
    tail: Result<Seq<TemplateModel>, TemplateError>,
) -> Result<Seq<TemplateModel>, TemplateError> {
    match tail {
        Ok(ts) => Ok(done + ts),
        Err(e) => Err(e),
    }
}

/// The enterprise bit of an information element id, as bit operations see it.
proof fn lemma_enterprise_bit(ie: u16)
    ensures
        (ie & 0x8000u16 > 0) <==> ie >= 0x8000,
        ie >= 0x8000 ==> ie & !0x8000u16 == ie - 0x8000,
        ie < 0x8000 ==> ie & !0x8000u16 == ie,
{
    assert((ie & 0x8000u16 > 0) <==> ie >= 0x8000) by (bit_vector);
    assert(ie >= 0x8000 ==> ie & !0x8000u16 == ie - 0x8000) by (bit_vector);
    assert(ie < 0x8000 ==> ie & !0x8000u16 == ie) by (bit_vector);
}

/// The first `n` fields are never wider in sum than all of them.
pub proof fn lemma_width_sum_take(fields: Seq<IPFIXField>, n: int)
    requires
        0 <= n <= fields.len(),
    ensures
        width_sum(fields.take(n)) <= width_sum(fields),
    decreases fields.len(),
{
    if n == fields.len() {
        assert(fields.take(n) =~= fields);
    } else {
        assert(fields.drop_last().take(n) =~= fields.take(n));
        lemma_width_sum_take(fields.drop_last(), n);
    }
}

/// Adding a field at the end adds its width to the sum.
pub proof fn lemma_width_sum_push(fields: Seq<IPFIXField>, f: IPFIXField)
    ensures
        width_sum(fields.push(f)) == width_sum(fields) + f.width,
{
    assert(fields.push(f).drop_last() =~= fields);
}

/// The widths of two runs of fields add up.
pub proof fn lemma_width_sum_concat(a: Seq<IPFIXField>, b: Seq<IPFIXField>)
    ensures
        width_sum(a + b) == width_sum(a) + width_sum(b),
    decreases b.len(),
{
    if b.len() == 0 {
        assert(a + b =~= a);
    } else {
        assert((a + b).drop_last() =~= a + b.drop_last());
        lemma_width_sum_concat(a, b.drop_last());
    }
}

/// Decoded fields follow one another without a gap: each starts at `start`
/// plus the widths of the fields before it.
pub proof fn lemma_fields_are_packed(s: Seq<u8>, count: nat, start: nat)
    requires
        start + count * 65535 <= u32::MAX,
    ensures
        fields_spec(s, count, start) matches Ok((fields, n)) ==> forall|i: int|
            0 <= i < fields.len() ==> (#[trigger] fields[i]).start_byte == start + width_sum(
                fields.take(i),
            ),
    decreases count,
{
    if count > 0 {
        if let Ok((f, n)) = field_spec(s, start) {
            let rest = s.skip(n as int);
            let next = start + f.width as nat;
            lemma_fields_are_packed(rest, (count - 1) as nat, next);
            if let Ok((tail, m)) = fields_spec(rest, (count - 1) as nat, next) {
                let fields = seq![f] + tail;
                assert forall|i: int| 0 <= i < fields.len() implies (#[trigger] fields[i]).start_byte
                    == start + width_sum(fields.take(i)) by {
                    if i == 0 {
                        assert(fields.take(0) =~= Seq::<IPFIXField>::empty());
                    } else {
                        assert(fields[i] == tail[i - 1]);
                        assert(fields.take(i) =~= seq![f] + tail.take(i - 1));
                        lemma_width_sum_concat(seq![f], tail.take(i - 1));
                        assert(seq![f] =~= Seq::<IPFIXField>::empty().push(f));
                        lemma_width_sum_push(Seq::empty(), f);
                    }
                }
            }
        }
    }
}

/// The fields of every template that decodes are packed: each offset is the
/// sum of the widths before it, and the last field ends where the record
/// does, at the sum of all widths.
pub proof fn lemma_decoded_template_is_packed(s: Seq<u8>, odid: u32)
    ensures
        template_spec(s, odid) matches Ok((t, n)) ==> packed(t.fields) && t.record_size()
            == width_sum(t.fields) && (t.fields.len() > 0 ==> t.fields.last().start_byte
            + t.fields.last().width == t.record_size()),
{
    if s.len() >= 4 {
        lemma_fields_are_packed(s.skip(4), be16(s, 2) as nat, 0);
        if let Ok((t, n)) = template_spec(s, odid) {
            if t.fields.len() > 0 {
                assert(t.fields.take(t.fields.len() - 1) =~= t.fields.drop_last());
            }
        }
    }
}

/// Decodes the field specifier at the head of `input`, for a field that
/// starts at byte `start` of a record, and hands back the input that
/// follows the specifier.
fn field_from<'a>(input: &'a [u8], start: u32) -> (r: Result<(&'a [u8], IPFIXField), TemplateError>)
    ensures
        r is Ok <==> field_spec(input@, start as nat) is Ok,
        r matches Ok((rest, f)) ==> field_spec(input@, start as nat) matches Ok((g, n)) && g == f
            && rest@ == input@.skip(n as int),
        r matches Err(e) ==> field_spec(input@, start as nat) == Err::<(IPFIXField, nat), _>(e),
{
    let (id_rest, ie) = match be_u16(input) {
        Ok(v) => v,
        Err(_) => {
            return Err(TemplateError::Truncated);
        },
    };
    let (len_rest, width) = match be_u16(id_rest) {
        Ok(v) => v,
        Err(_) => {
            return Err(TemplateError::Truncated);
        },
    };
    proof {
        lemma_enterprise_bit(ie);
        assert(len_rest@ == input@.skip(4));
    }
    // The top bit of the id announces an enterprise number.
    let mut en: u32 = 0;
    let mut rest = len_rest;
    if ie & 0x8000u16 > 0 {
        let (en_rest, number) = match be_u32(len_rest) {
            Ok(v) => v,
            Err(_) => {
                return Err(TemplateError::Truncated);
            },
        };
        assert(en_rest@ == input@.skip(8));
        en = number;
        rest = en_rest;
    }
    if width == VARIABLE_LENGTH {
        return Err(TemplateError::VariableLength);
    }
    Ok(
        (
            rest,
            IPFIXField { field_id: ie & !0x8000u16, width, start_byte: start, en },
        ),
    )
}

impl IPFIXTemplate {
    /// Decodes the template record at the head of `i` for the observation
    /// domain `odid`, and hands back the input that follows the record.
    ///
    /// The result is that of [`template_spec`], whether it succeeds or
    /// fails. The fields of a decoded template are [`packed`], so the sum of
    /// their widths is the record size and each offset is the sum of the
    /// widths before it.
    pub fn from<'a>(i: &'a [u8], odid: u32) -> (r: Result<(&'a [u8], Self), TemplateError>)
        ensures
            r is Ok <==> template_spec(i@, odid) is Ok,
            r matches Ok((rest, t)) ==> template_spec(i@, odid) matches Ok((m, n)) && m == t@
                && rest@ == i@.skip(n as int) && packed(t@.fields),
            r matches Err(e) ==> template_spec(i@, odid) == Err::<(TemplateModel, nat), _>(e),
    {
        let (rest, template_id) = match be_u16(i) {
            Ok(v) => v,
            Err(_) => {
                return Err(TemplateError::Truncated);
            },
        };
        let (rest, field_count) = match be_u16(rest) {
            Ok(v) => v,
            Err(_) => {
                return Err(TemplateError::Truncated);
            },
        };
        if template_id < MIN_TEMPLATE_ID {
            return Err(TemplateError::ReservedId);
        }
        let ghost specifiers = i@.skip(4);
        assert(rest@ == specifiers);

        let mut template = IPFIXTemplate { id: template_id, odid, fields: Vec::new() };
        // Offset of the next field inside a record: the widths met so far.
        let mut cur_byte: u32 = 0;
        let mut loop_rest = rest;
        let mut k: u16 = 0;
        let ghost mut used: nat = 0;
        while k < field_count
            invariant
                i@.len() >= 4,
                specifiers == i@.skip(4),
                template_id == be16(i@, 0),
                template_id >= MIN_TEMPLATE_ID,
                field_count == be16(i@, 2),
                k <= field_count,
                template.id == template_id,
                template.odid == odid,
                cur_byte <= k * 65535,
                used <= specifiers.len(),
                loop_rest@ == specifiers.skip(used as int),
                fields_spec(specifiers, field_count as nat, 0) == after_fields(
                    template.fields@,
                    used,
                    fields_spec(loop_rest@, (field_count - k) as nat, cur_byte as nat),
                ),
            decreases field_count - k,
        {
            let ghost before = loop_rest@;
            let ghost done = template.fields@;
            let row = match field_from(loop_rest, cur_byte) {
                Ok((field_rest, row)) => {
                    loop_rest = field_rest;
                    row
                },
                Err(e) => {
                    return Err(e);
                },
            };
            proof {
                let n = field_spec(before, cur_byte as nat)->Ok_0.1;
                let tail = fields_spec(
                    loop_rest@,
                    (field_count - k - 1) as nat,
                    (cur_byte + row.width) as nat,
                );
                assert(fields_spec(before, (field_count - k) as nat, cur_byte as nat)
                    == after_fields(seq![row], n, tail));
                assert(loop_rest@ =~= specifiers.skip((used + n) as int));
                if let Ok((fields, m)) = tail {
                    assert(done + (seq![row] + fields) =~= done.push(row) + fields);
                }
                used = used + n;
            }
            template.fields.push(row);
            cur_byte = cur_byte + row.width as u32;
            k = k + 1;
        }
        proof {
            assert(template.fields@ + Seq::<IPFIXField>::empty() =~= template.fields@);
            lemma_decoded_template_is_packed(i@, odid);
        }
        Ok((loop_rest, template))
    }

    /// Decodes the template records that fill `content`, the part of a
    /// template set that follows its header, for the observation domain
    /// `odid`.
    ///
    /// The result is that of [`templates_spec`], whether it succeeds or
    /// fails. The fields of every decoded template are [`packed`].
    pub fn from_set(content: &[u8], odid: u32) -> (r: Result<Vec<Self>, TemplateError>)
        ensures
            r is Ok <==> templates_spec(content@, odid) is Ok,
            r matches Ok(ts) ==> templates_spec(content@, odid) == Ok::<_, TemplateError>(
                template_models(ts@),
            ) && forall|j: int| 0 <= j < ts@.len() ==> packed((#[trigger] ts@[j])@.fields),
            r matches Err(e) ==> templates_spec(content@, odid) == Err::<Seq<TemplateModel>, _>(e),
    {
        let mut templates: Vec<IPFIXTemplate> = Vec::new();
        let mut rest = content;
        assert(template_models(templates@) + Seq::<TemplateModel>::empty() =~= Seq::empty());
        while rest.len() >= 4
            invariant
                templates_spec(content@, odid) == after_templates(
                    template_models(templates@),
                    templates_spec(rest@, odid),
                ),
                forall|j: int|
                    0 <= j < templates@.len() ==> packed((#[trigger] templates@[j])@.fields),
            decreases rest@.len(),
        {
            let ghost done = templates@;
            let ghost before = rest@;
            let template = match IPFIXTemplate::from(rest, odid) {
                Ok((next, template)) => {
                    rest = next;
                    template
                },
                Err(e) => {
                    return Err(e);
                },
            };
            proof {
                lemma_template_within_input(before, odid);
                assert(template_models(done.push(template)) =~= template_models(done).push(
                    template@,
                ));
                if let Ok(ts) = templates_spec(rest@, odid) {
                    assert(template_models(done) + (seq![template@] + ts) =~= template_models(
                        done,
                    ).push(template@) + ts);
                }
            }
            templates.push(template);
        }
        proof {
            assert(template_models(templates@) + Seq::<TemplateModel>::empty() =~= template_models(
                templates@,
            ));
        }
        Ok(templates)
    }
}

/// The field specifier that announces `f`: the information element id and
/// the width, and for a field with an enterprise number the top bit of the
/// id and the number.
pub open spec fn field_wire(f: IPFIXField) -> Seq<u8> {
    if f.en != 0 {
        be16_bytes((f.field_id + ENTERPRISE_BIT) as u16) + be16_bytes(f.width) + be32_bytes(f.en)
    } else {
        be16_bytes(f.field_id) + be16_bytes(f.width)
    }
}

/// The field specifiers that announce `fields`, one behind the other.
pub open spec fn fields_wire(fields: Seq<IPFIXField>) -> Seq<u8>
    decreases fields.len(),
{
    if fields.len() == 0 {
        Seq::empty()
    } else {
        field_wire(fields[0]) + fields_wire(fields.skip(1))
    }
}

/// The layout `fields` with every offset computed anew, for a record whose
/// first field starts at byte `start`.
pub open spec fn repacked(fields: Seq<IPFIXField>, start: nat) -> Seq<IPFIXField>
    decreases fields.len(),
{
    if fields.len() == 0 {
        Seq::empty()
    } else {
        let f = fields[0];
        seq![
            IPFIXField { width: f.width, start_byte: start as u32, en: f.en, field_id: f.field_id },
        ] + repacked(fields.skip(1), start + f.width as nat)
    }
}

impl TemplateModel {
    /// The template can be written as a template record: the number of its
    /// fields fits into 16 bits and the id of every field into 15.
    pub open spec fn encodable(self) -> bool {
        &&& self.fields.len() <= u16::MAX
        &&& forall|j: int|
            0 <= j < self.fields.len() ==> (#[trigger] self.fields[j]).field_id < ENTERPRISE_BIT
    }

    /// The template record that announces this template.
    pub open spec fn wire(self) -> Seq<u8> {
        be16_bytes(self.id) + be16_bytes(self.fields.len() as u16) + fields_wire(self.fields)
    }

    /// A decoder takes the template's record: the id is not reserved and no
    /// field has the width that marks a variable length.
    pub open spec fn decodable(self) -> bool {
        &&& self.id >= MIN_TEMPLATE_ID
        &&& forall|j: int|
            0 <= j < self.fields.len() ==> (#[trigger] self.fields[j]).width != VARIABLE_LENGTH
    }

    /// This template with every offset computed anew.
    pub open spec fn with_offsets(self) -> TemplateModel {
        TemplateModel { id: self.id, odid: self.odid, fields: repacked(self.fields, 0) }
    }
}

/// A layout whose fields follow one another from `start` on is its own
/// repacking.
pub proof fn lemma_repacked_is_identity(fields: Seq<IPFIXField>, start: nat)
    requires
        forall|i: int|
            0 <= i < fields.len() ==> (#[trigger] fields[i]).start_byte == start + width_sum(
                fields.take(i),
            ),
    ensures
        repacked(fields, start) == fields,
    decreases fields.len(),
{
    if fields.len() > 0 {
        let f = fields[0];
        let tail = fields.skip(1);
        assert(fields.take(0) =~= Seq::<IPFIXField>::empty());
        assert forall|i: int| 0 <= i < tail.len() implies (#[trigger] tail[i]).start_byte == start
            + f.width + width_sum(tail.take(i)) by {
            assert(tail[i] == fields[i + 1]);
            assert(fields.take(i + 1) =~= seq![f] + tail.take(i));
            lemma_width_sum_concat(seq![f], tail.take(i));
            assert(seq![f] =~= Seq::<IPFIXField>::empty().push(f));
            lemma_width_sum_push(Seq::empty(), f);
        }
        lemma_repacked_is_identity(tail, start + f.width as nat);
        assert(repacked(fields, start) =~= fields);
    }
}

/// Decoding the specifier that announces a field gives the field, at the
/// offset asked for.
proof fn lemma_field_round_trip(f: IPFIXField, rest: Seq<u8>, start: nat)
    requires
        f.field_id < ENTERPRISE_BIT,
        f.width != VARIABLE_LENGTH,
    ensures
        field_spec(field_wire(f) + rest, start) == Ok::<_, TemplateError>(
            (
                IPFIXField {
                    width: f.width,
                    start_byte: start as u32,
                    en: f.en,
                    field_id: f.field_id,
                },
                field_wire(f).len(),
            ),
        ),
{
    let s = field_wire(f) + rest;
    let none = Seq::<u8>::empty();
    if f.en != 0 {
        let ie = (f.field_id + ENTERPRISE_BIT) as u16;
        lemma_be16_round_trip(ie, none, be16_bytes(f.width) + be32_bytes(f.en) + rest);
        lemma_be16_round_trip(f.width, be16_bytes(ie), be32_bytes(f.en) + rest);
        lemma_be32_round_trip(f.en, be16_bytes(ie) + be16_bytes(f.width), rest);
        assert(s =~= none + be16_bytes(ie) + (be16_bytes(f.width) + be32_bytes(f.en) + rest));
        assert(s =~= be16_bytes(ie) + be16_bytes(f.width) + (be32_bytes(f.en) + rest));
        assert(s =~= be16_bytes(ie) + be16_bytes(f.width) + be32_bytes(f.en) + rest);
    } else {
        lemma_be16_round_trip(f.field_id, none, be16_bytes(f.width) + rest);
        lemma_be16_round_trip(f.width, be16_bytes(f.field_id), rest);
        assert(s =~= none + be16_bytes(f.field_id) + (be16_bytes(f.width) + rest));
        assert(s =~= be16_bytes(f.field_id) + be16_bytes(f.width) + rest);
    }
}

/// Decoding the specifiers that announce a layout gives the layout, with
/// every offset computed anew.
proof fn lemma_fields_round_trip(fields: Seq<IPFIXField>, rest: Seq<u8>, start: nat)
    requires
        forall|j: int|
            0 <= j < fields.len() ==> (#[trigger] fields[j]).field_id < ENTERPRISE_BIT
                && fields[j].width != VARIABLE_LENGTH,
    ensures
        fields_spec(fields_wire(fields) + rest, fields.len(), start) == Ok::<_, TemplateError>(
            (repacked(fields, start), fields_wire(fields).len()),
        ),
    decreases fields.len(),
{
    if fields.len() > 0 {
        let f = fields[0];
        let tail = fields.skip(1);
        let s = fields_wire(fields) + rest;
        let n = field_wire(f).len();
        assert(s =~= field_wire(f) + (fields_wire(tail) + rest));
        lemma_field_round_trip(f, fields_wire(tail) + rest, start);
        assert(s.skip(n as int) =~= fields_wire(tail) + rest);
        assert forall|j: int| 0 <= j < tail.len() implies (#[trigger] tail[j]).field_id
            < ENTERPRISE_BIT && tail[j].width != VARIABLE_LENGTH by {
            assert(tail[j] == fields[j + 1]);
        }
        lemma_fields_round_trip(tail, rest, start + f.width as nat);
    }
}

/// A template that is written as a template record and decoded again comes
/// back as it was, but for the offsets of its fields, which are computed
/// anew. Whatever follows the record is left over.
pub proof fn lemma_template_round_trip(t: TemplateModel, rest: Seq<u8>)
    requires
        t.encodable(),
        t.decodable(),
    ensures
        template_spec(t.wire() + rest, t.odid) == Ok::<_, TemplateError>(
            (t.with_offsets(), t.wire().len()),
        ),
        packed(t.fields) ==> t.with_offsets() == t,
{
    let s = t.wire() + rest;
    let count = t.fields.len() as u16;
    let none = Seq::<u8>::empty();
    lemma_be16_round_trip(t.id, none, be16_bytes(count) + fields_wire(t.fields) + rest);
    lemma_be16_round_trip(count, be16_bytes(t.id), fields_wire(t.fields) + rest);
    assert(s =~= none + be16_bytes(t.id) + (be16_bytes(count) + fields_wire(t.fields) + rest));
    assert(s =~= be16_bytes(t.id) + be16_bytes(count) + (fields_wire(t.fields) + rest));
    assert(s.skip(4) =~= fields_wire(t.fields) + rest);
    lemma_fields_round_trip(t.fields, rest, 0);
    if packed(t.fields) {
        lemma_repacked_is_identity(t.fields, 0);
    }
}

impl IPFIXTemplate {
    /// Writes the template as a template record, if it can be written as
    /// one.
    pub fn to_wire(&self) -> (r: Option<Vec<u8>>)
        ensures
            match r {
                Some(bytes) => self@.encodable() && bytes@ == self@.wire(),
                None => !self@.encodable(),
            },
    {
        if self.fields.len() > 65535 {
            return None;
        }
        let mut out: Vec<u8> = Vec::new();
        push_be_u16(&mut out, self.id);
        push_be_u16(&mut out, self.fields.len() as u16);
        let ghost head = out@;
        let mut j: usize = 0;
        proof {
            assert(self.fields@.skip(0) =~= self.fields@);
            assert(head =~= be16_bytes(self.id) + be16_bytes(self.fields@.len() as u16));
        }
        while j < self.fields.len()
            invariant
                j <= self.fields@.len(),
                forall|k: int| 0 <= k < j ==> (#[trigger] self.fields@[k]).field_id < ENTERPRISE_BIT,
                out@ + fields_wire(self.fields@.skip(j as int)) == head + fields_wire(self.fields@),
            decreases self.fields@.len() - j,
        {
            let f = self.fields[j];
            if f.field_id >= ENTERPRISE_BIT {
                return None;
            }
            let ghost before = out@;
            if f.en != 0 {
                push_be_u16(&mut out, f.field_id + ENTERPRISE_BIT);
                push_be_u16(&mut out, f.width);
                push_be_u32(&mut out, f.en);
            } else {
                push_be_u16(&mut out, f.field_id);
                push_be_u16(&mut out, f.width);
            }
            proof {
                let left = self.fields@.skip(j as int);
                assert(left[0] == f);
                assert(left.skip(1) =~= self.fields@.skip(j + 1));
                assert(out@ =~= before + field_wire(f));
                assert(out@ + fields_wire(self.fields@.skip(j + 1)) =~= before + fields_wire(left));
            }
            j = j + 1;
        }
        proof {
            assert(out@ + Seq::<u8>::empty() =~= out@);
        }
        Some(out)
    }
}

} // verus!
