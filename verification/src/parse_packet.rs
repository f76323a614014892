//! Datagrams: the message header and the sets that follow it.

use crate::parse_data::{data_set_spec, record_models, DataSet, DataSetModel};
use crate::template_ring::{installed, TemplateRing};
use crate::templates::{
    template_models, templates_spec, IPFIXTemplate, TemplateModel, MIN_TEMPLATE_ID,
};
use crate::wire::{be16, be32, be_u16, be_u32, slice};
use vstd::prelude::*;

verus! {

/// The protocol version that every datagram has to carry.
pub const IPFIX_VERSION: u16 = 10;

/// The length of the message header.
pub const HEADER_LENGTH: u16 = 16;

/// The length of a set header.
pub const SET_HEADER_LENGTH: u16 = 4;

/// The id of a set that holds template records.
pub const TEMPLATE_SET_ID: u16 = 2;

/// What one datagram held.
#[derive(Debug, PartialEq, Eq)]
pub struct PacketInfo {
    /// Seconds since the Unix epoch at which the datagram left the exporter.
    pub export_time: u32,
    pub seq_num: u32,
    /// The templates that the datagram announced, in their order.
    pub templates: Vec<IPFIXTemplate>,
    /// The records that the datagram held, in their order.
    pub data: Vec<DataSet>,
    /// The number of sets that could not be decoded.
    pub set_error_count: u32,
    pub odid: u32,
}

/// The result of decoding one datagram.
#[derive(Debug, PartialEq, Eq)]
pub enum PacketResult {
    /// The datagram was decoded; sets that failed are counted in the result.
    Decoded(PacketInfo),
    /// The datagram as a whole is unusable.
    AbortError,
}

/// The result of decoding one set.
#[derive(Debug, PartialEq, Eq)]
pub enum ParseResult {
    /// The records of a data set; none for a set without content.
    Data(Vec<DataSet>),
    /// The templates of a template set.
    Template(Vec<IPFIXTemplate>),
    /// The set could not be decoded; the sets after it still can.
    Error,
}

/// The mathematical value of a [`PacketInfo`].
pub struct PacketModel {
    pub export_time: u32,
    pub seq_num: u32,
    pub templates: Seq<TemplateModel>,
    pub data: Seq<DataSetModel>,
    pub set_error_count: u32,
    pub odid: u32,
}

/// The mathematical value of a [`ParseResult`].
pub enum SetOutcome {
    Data(Seq<DataSetModel>),
    Template(Seq<TemplateModel>),
    Error,
}

impl View for PacketInfo {
    type V = PacketModel;

    open spec fn view(&self) -> PacketModel {
        PacketModel {
            export_time: self.export_time,
            seq_num: self.seq_num,
            templates: template_models(self.templates@),
            data: record_models(self.data@),
            set_error_count: self.set_error_count,
            odid: self.odid,
        }
    }
}

impl View for PacketResult {
    type V = Option<PacketModel>;

    open spec fn view(&self) -> Option<PacketModel> {
        match *self {
            PacketResult::Decoded(info) => Some(info@),
            PacketResult::AbortError => None,
        }
    }
}

impl View for ParseResult {
    type V = SetOutcome;

    open spec fn view(&self) -> SetOutcome {
        match *self {
            ParseResult::Data(records) => SetOutcome::Data(record_models(records@)),
            ParseResult::Template(templates) => SetOutcome::Template(template_models(templates@)),
            ParseResult::Error => SetOutcome::Error,
        }
    }
}

/// The views of a sequence of set results, in order.
pub open spec fn outcomes(results: Seq<ParseResult>) -> Seq<SetOutcome> {
    results.map_values(|r: ParseResult| r@)
}

/// The templates that one set announced.
pub open spec fn templates_of(out: SetOutcome) -> Seq<TemplateModel> {
    match out {
        SetOutcome::Template(ts) => ts,
        _ => Seq::empty(),
    }
}

/// The records that one set held.
pub open spec fn records_of(out: SetOutcome) -> Seq<DataSetModel> {
    match out {
        SetOutcome::Data(records) => records,
        _ => Seq::empty(),
    }
}

/// The templates that the sets announced, in the order of the sets.
pub open spec fn learned(outs: Seq<SetOutcome>) -> Seq<TemplateModel>
    decreases outs.len(),
{
    if outs.len() == 0 {
        Seq::empty()
    } else {
        learned(outs.drop_last()) + templates_of(outs.last())
    }
}

/// The records that the sets held, in the order of the sets.
pub open spec fn records(outs: Seq<SetOutcome>) -> Seq<DataSetModel>
    decreases outs.len(),
{
    if outs.len() == 0 {
        Seq::empty()
    } else {
        records(outs.drop_last()) + records_of(outs.last())
    }
}

/// The number of sets that could not be decoded.
pub open spec fn errors(outs: Seq<SetOutcome>) -> nat
    decreases outs.len(),
{
    if outs.len() == 0 {
        0
    } else {
        errors(outs.drop_last()) + if outs.last() is Error {
            1nat
        } else {
            0nat
        }
    }
}

/// What a datagram with the given header fields held, if its sets came out
/// as `outs`.
pub open spec fn gathered(export_time: u32, seq_num: u32, odid: u32, outs: Seq<SetOutcome>) -> PacketModel {
    PacketModel {
        export_time,
        seq_num,
        templates: learned(outs),
        data: records(outs),
        set_error_count: errors(outs) as u32,
        odid,
    }
}

/// No more sets fail than there are.
pub proof fn lemma_errors_within_sets(outs: Seq<SetOutcome>)
    ensures
        errors(outs) <= outs.len(),
    decreases outs.len(),
{
    if outs.len() > 0 {
        lemma_errors_within_sets(outs.drop_last());
    }
}

/// The registry `reg` after the templates `ts` are installed one after the
/// other: of two with the same observation domain and id the later one
/// stays.
pub open spec fn install_all(
    reg: Map<(u32, u16), TemplateModel>,
    ts: Seq<TemplateModel>,
) -> Map<(u32, u16), TemplateModel>
    decreases ts.len(),
{
    if ts.len() == 0 {
        reg
    } else {
        installed(install_all(reg, ts.drop_last()), ts.last())
    }
}

/// The registry that holds the entries of `fresh` and, where `fresh` has
/// none, those of `reg`.
pub open spec fn overlay(
    reg: Map<(u32, u16), TemplateModel>,
    fresh: Map<(u32, u16), TemplateModel>,
) -> Map<(u32, u16), TemplateModel> {
    reg.union_prefer_right(fresh)
}

/// The head of `s` is a set header whose length covers the header and
/// stays inside `s`.
pub open spec fn set_framed(s: Seq<u8>) -> bool {
    s.len() >= 4 && SET_HEADER_LENGTH <= be16(s, 2) <= s.len()
}

/// The number of bytes that decoding passes over for the set at the head of
/// `s`: the set's length, or all of `s` where the set is not framed and the
/// next set cannot be found.
pub open spec fn set_span(s: Seq<u8>) -> nat {
    if set_framed(s) {
        be16(s, 2) as nat
    } else {
        s.len()
    }
}

/// Decodes the set at the head of `s` with the templates of `reg`, for the
/// observation domain `odid`.
///
/// A set that is not framed fails. A set of nothing but its header holds
/// nothing, whatever its id. A set with the id 2 holds template records.
/// Every other set is decoded as a data set, which fails for an id below
/// 256 and for an id that `reg` has no template for.
pub open spec fn set_outcome(reg: Map<(u32, u16), TemplateModel>, odid: u32, s: Seq<u8>) -> SetOutcome {
    if !set_framed(s) {
        SetOutcome::Error
    } else if be16(s, 2) == SET_HEADER_LENGTH {
        SetOutcome::Data(Seq::empty())
    } else if be16(s, 0) == TEMPLATE_SET_ID {
        match templates_spec(s.subrange(4, be16(s, 2) as int), odid) {
            Ok(ts) => SetOutcome::Template(ts),
            Err(_) => SetOutcome::Error,
        }
    } else {
        match data_set_spec(reg, odid, s) {
            Ok((records, _)) => SetOutcome::Data(records),
            Err(_) => SetOutcome::Error,
        }
    }
}

/// Decodes the sets that fill `body`, one result for each set, for the
/// observation domain `odid`.
///
/// The first set is decoded with the templates of `reg`, each later set
/// with those and the templates that the sets before it announced. So a
/// data set can use a template that stands before it in the same datagram,
/// and none that stands behind it.
pub open spec fn sets_spec(reg: Map<(u32, u16), TemplateModel>, odid: u32, body: Seq<u8>) -> Seq<
    SetOutcome,
>
    decreases body.len(),
{
    if body.len() == 0 {
        Seq::empty()
    } else {
        let out = set_outcome(reg, odid, body);
        seq![out] + sets_spec(
            install_all(reg, templates_of(out)),
            odid,
            body.skip(set_span(body) as int),
        )
    }
}

/// The results of the sets of the datagram `pkt`, one for each set, where
/// the header of `pkt` is sound.
pub open spec fn packet_sets(reg: Map<(u32, u16), TemplateModel>, pkt: Seq<u8>) -> Seq<SetOutcome> {
    sets_spec(reg, be32(pkt, 12), pkt.subrange(16, be16(pkt, 2) as int))
}

/// Decodes the datagram `pkt` with the templates of `reg`.
///
/// The header is the version, which has to be 10, and the length of the
/// message, both 16 bits wide, then the export time, the sequence number and
/// the observation domain, 32 bits each. The length counts the header, and
/// the datagram has to hold that many bytes. What lies between the header
/// and that length is the sets.
pub open spec fn packet_spec(reg: Map<(u32, u16), TemplateModel>, pkt: Seq<u8>) -> Option<
    PacketModel,
> {
    if pkt.len() < HEADER_LENGTH || be16(pkt, 0) != IPFIX_VERSION || be16(pkt, 2) < HEADER_LENGTH
        || be16(pkt, 2) > pkt.len() {
        None
    } else {
        Some(gathered(be32(pkt, 4), be32(pkt, 8), be32(pkt, 12), packet_sets(reg, pkt)))
    }
}

/// Every set takes at least one byte of the body, so a body holds no more
/// sets than bytes.
pub proof fn lemma_sets_within_body(reg: Map<(u32, u16), TemplateModel>, odid: u32, body: Seq<u8>)
    ensures
        sets_spec(reg, odid, body).len() <= body.len(),
    decreases body.len(),
{
    if body.len() > 0 {
        let out = set_outcome(reg, odid, body);
        lemma_sets_within_body(
            install_all(reg, templates_of(out)),
            odid,
            body.skip(set_span(body) as int),
        );
    }
}

/// The error count of a decoded datagram is the number of its sets that
/// failed, and never above the number of its sets.
pub proof fn lemma_error_count(reg: Map<(u32, u16), TemplateModel>, pkt: Seq<u8>)
    ensures
        packet_spec(reg, pkt) matches Some(p) ==> p.set_error_count == errors(
            packet_sets(reg, pkt),
        ) && p.set_error_count <= packet_sets(reg, pkt).len(),
{
    if packet_spec(reg, pkt) is Some {
        lemma_sets_within_body(reg, be32(pkt, 12), pkt.subrange(16, be16(pkt, 2) as int));
        lemma_errors_within_sets(packet_sets(reg, pkt));
    }
}

/// Where no set holds more than one record, the sets hold no more records
/// and failures together than there are sets.
pub proof fn lemma_single_record_sets(outs: Seq<SetOutcome>)
    requires
        forall|k: int| 0 <= k < outs.len() ==> records_of(#[trigger] outs[k]).len() <= 1,
    ensures
        records(outs).len() + errors(outs) <= outs.len(),
    decreases outs.len(),
{
    if outs.len() > 0 {
        lemma_single_record_sets(outs.drop_last());
    }
}

/// A decoded datagram has no more records and set errors together than it
/// has sets, as long as it has no more records than sets that decoded. A
/// datagram with more records than that, such as one of a single data set
/// of two records, has more records alone than sets.
pub proof fn lemma_records_and_errors_within_sets(
    reg: Map<(u32, u16), TemplateModel>,
    pkt: Seq<u8>,
)
    requires
        packet_spec(reg, pkt) is Some,
        records(packet_sets(reg, pkt)).len() <= packet_sets(reg, pkt).len() - errors(
            packet_sets(reg, pkt),
        ),
    ensures
        packet_spec(reg, pkt)->0.data.len() + packet_spec(reg, pkt)->0.set_error_count
            <= packet_sets(reg, pkt).len(),
{
    lemma_error_count(reg, pkt);
}

/// A datagram whose header announces more bytes than the datagram has is
/// given up.
pub proof fn lemma_short_datagram_is_given_up(reg: Map<(u32, u16), TemplateModel>, pkt: Seq<u8>)
    requires
        be16(pkt, 2) > pkt.len(),
    ensures
        packet_spec(reg, pkt) is None,
{
}

/// A set of nothing but its header is passed over: it gives no record and
/// no template, and it is no error, whatever its id.
pub proof fn lemma_empty_set_is_passed_over(
    reg: Map<(u32, u16), TemplateModel>,
    odid: u32,
    s: Seq<u8>,
)
    requires
        s.len() >= 4,
        be16(s, 2) == SET_HEADER_LENGTH,
    ensures
        set_outcome(reg, odid, s) == SetOutcome::Data(Seq::empty()),
        set_span(s) == 4,
        records_of(set_outcome(reg, odid, s)).len() == 0,
        templates_of(set_outcome(reg, odid, s)).len() == 0,
        !(set_outcome(reg, odid, s) is Error),
{
}

impl PacketInfo {
    /// Gathers the results of a datagram's sets: the templates and the
    /// records in the order of the sets, and the number of sets that failed.
    pub fn new(export_time: u32, seq_num: u32, odid: u32, parse_results: Vec<ParseResult>) -> (r:
        Self)
        requires
            parse_results@.len() <= u32::MAX,
        ensures
            r@ == gathered(export_time, seq_num, odid, outcomes(parse_results@)),
    {
        let mut templates: Vec<IPFIXTemplate> = Vec::new();
        let mut data: Vec<DataSet> = Vec::new();
        let mut set_error_count: u32 = 0;
        let ghost all = outcomes(parse_results@);

        for r in it: parse_results
            invariant
                it.seq().len() <= u32::MAX,
                all == outcomes(it.seq()),
                template_models(templates@) == learned(all.take(it.index() as int)),
                record_models(data@) == records(all.take(it.index() as int)),
                set_error_count == errors(all.take(it.index() as int)),
        {
            proof {
                let n = it.index() as int;
                assert(all.take(n + 1).drop_last() =~= all.take(n));
                assert(all.take(n + 1).last() == r@);
                lemma_errors_within_sets(all.take(n));
            }
            match r {
                ParseResult::Error => {
                    set_error_count += 1;
                },
                ParseResult::Template(mut t) => {
                    let ghost before = templates@;
                    let ghost added = t@;
                    templates.append(&mut t);
                    assert(template_models(before + added) =~= template_models(before)
                        + template_models(added));
                },
                ParseResult::Data(mut d) => {
                    let ghost before = data@;
                    let ghost added = d@;
                    data.append(&mut d);
                    assert(record_models(before + added) =~= record_models(before) + record_models(
                        added,
                    ));
                },
            }
        }
        proof {
            assert(all.take(all.len() as int) =~= all);
        }
        PacketInfo { export_time, seq_num, templates, data, set_error_count, odid }
    }
}

/// Templates installed over an overlay are templates installed in its
/// upper layer.
proof fn lemma_overlay_install_all(
    reg: Map<(u32, u16), TemplateModel>,
    fresh: Map<(u32, u16), TemplateModel>,
    ts: Seq<TemplateModel>,
)
    ensures
        overlay(reg, install_all(fresh, ts)) == install_all(overlay(reg, fresh), ts),
    decreases ts.len(),
{
    if ts.len() > 0 {
        lemma_overlay_install_all(reg, fresh, ts.drop_last());
        let below = install_all(fresh, ts.drop_last());
        assert(overlay(reg, installed(below, ts.last())) =~= installed(
            overlay(reg, below),
            ts.last(),
        ));
    }
}

/// Installs copies of `templates` in `fresh`, one after the other.
fn learn(fresh: &mut TemplateRing, templates: &Vec<IPFIXTemplate>)
    ensures
        final(fresh)@ == install_all(old(fresh)@, template_models(templates@)),
{
    let ghost all = template_models(templates@);
    let mut j: usize = 0;
    assert(all.take(0) =~= Seq::<TemplateModel>::empty());
    while j < templates.len()
        invariant
            j <= templates@.len(),
            all == template_models(templates@),
            fresh@ == install_all(old(fresh)@, all.take(j as int)),
        decreases templates@.len() - j,
    {
        proof {
            assert(all.take(j + 1).drop_last() =~= all.take(j as int));
            assert(all.take(j + 1).last() == templates@[j as int]@);
        }
        fresh.insert_template(templates[j].clone());
        j = j + 1;
    }
    assert(all.take(j as int) =~= all);
}

/// Decodes the set at the head of `set_head` for the observation domain
/// `odid`, and hands back the input behind it. A template is looked for in
/// `fresh` first and then in `tring`.
fn handle_set<'a>(set_head: &'a [u8], odid: u32, tring: &TemplateRing, fresh: &TemplateRing) -> (r:
    (ParseResult, &'a [u8]))
    ensures
        r.0@ == set_outcome(overlay(tring@, fresh@), odid, set_head@),
        r.1@ == set_head@.skip(set_span(set_head@) as int),
{
    let nothing = slice(set_head, set_head.len(), set_head.len());
    let (id_rest, set_id) = match be_u16(set_head) {
        Ok(v) => v,
        Err(_) => {
            return (ParseResult::Error, nothing);
        },
    };
    let (_len_rest, set_len) = match be_u16(id_rest) {
        Ok(v) => v,
        Err(_) => {
            return (ParseResult::Error, nothing);
        },
    };
    let end = set_len as usize;
    if set_len < SET_HEADER_LENGTH || end > set_head.len() {
        return (ParseResult::Error, nothing);
    }
    let next = slice(set_head, end, set_head.len());
    if set_len == SET_HEADER_LENGTH {
        let records: Vec<DataSet> = Vec::new();
        assert(record_models(records@) =~= Seq::<DataSetModel>::empty());
        return (ParseResult::Data(records), next);
    }
    let data = if set_id == TEMPLATE_SET_ID {
        match IPFIXTemplate::from_set(slice(set_head, 4, end), odid) {
            Ok(t) => ParseResult::Template(t),
            Err(_e) => ParseResult::Error,
        }
    } else if set_id < MIN_TEMPLATE_ID {
        ParseResult::Error
    } else {
        match fresh.get_template(set_id, odid) {
            Some(t) => match DataSet::from_template(slice(set_head, 4, end), set_id, &t) {
                Ok(d) => ParseResult::Data(d),
                Err(_e) => ParseResult::Error,
            },
            None => match DataSet::get_datasets(set_head, tring, odid) {
                Ok((_n, d)) => ParseResult::Data(d),
                Err(_e) => ParseResult::Error,
            },
        }
    };
    (data, next)
}

/// Decodes the datagram `pkt` with the templates of `tring`.
///
/// The result is that of [`packet_spec`]: the datagram is given up where
/// its header is short, its version is not 10 or its length is below that
/// of the header or beyond the bytes at hand, and on no other input. A set
/// that cannot be decoded is counted and passed over.
pub fn parse_packet(tring: &TemplateRing, pkt: &[u8]) -> (r: PacketResult)
    ensures
        r@ == packet_spec(tring@, pkt@),
{
    let (rest, version) = match be_u16(pkt) {
        Ok(v) => v,
        Err(_e) => {
            return PacketResult::AbortError;
        },
    };
    let (rest, len) = match be_u16(rest) {
        Ok(v) => v,
        Err(_e) => {
            return PacketResult::AbortError;
        },
    };
    let (rest, export_time) = match be_u32(rest) {
        Ok(v) => v,
        Err(_e) => {
            return PacketResult::AbortError;
        },
    };
    let (rest, seq_num) = match be_u32(rest) {
        Ok(v) => v,
        Err(_e) => {
            return PacketResult::AbortError;
        },
    };
    let (rest, odid) = match be_u32(rest) {
        Ok(v) => v,
        Err(_e) => {
            return PacketResult::AbortError;
        },
    };
    assert(rest@ == pkt@.skip(16));
    if version != IPFIX_VERSION || len < HEADER_LENGTH || len as usize > pkt.len() {
        return PacketResult::AbortError;
    }
    let body = slice(rest, 0, len as usize - 16);
    assert(body@ =~= pkt@.subrange(16, len as int));

    let mut result_vec: Vec<ParseResult> = Vec::new();
    // The templates that the datagram has announced so far.
    let mut fresh = TemplateRing::new();
    let mut loop_rest = body;
    proof {
        assert(overlay(tring@, fresh@) =~= tring@);
        assert(outcomes(result_vec@) + sets_spec(tring@, odid, body@) =~= sets_spec(
            tring@,
            odid,
            body@,
        ));
    }
    while loop_rest.len() > 0
        invariant
            body@.len() <= u16::MAX,
            result_vec@.len() + loop_rest@.len() <= body@.len(),
            sets_spec(tring@, odid, body@) == outcomes(result_vec@) + sets_spec(
                overlay(tring@, fresh@),
                odid,
                loop_rest@,
            ),
        decreases loop_rest@.len(),
    {
        let ghost done = result_vec@;
        let ghost known = fresh@;
        let (cur_data, next) = handle_set(loop_rest, odid, tring, &fresh);
        match &cur_data {
            ParseResult::Template(t) => {
                learn(&mut fresh, t);
            },
            _ => {},
        }
        proof {
            let out = cur_data@;
            assert(fresh@ == install_all(known, templates_of(out))) by {
                if !(out is Template) {
                    assert(templates_of(out).len() == 0);
                }
            }
            lemma_overlay_install_all(tring@, known, templates_of(out));
            assert(outcomes(done.push(cur_data)) =~= outcomes(done).push(out));
            assert(outcomes(done) + (seq![out] + sets_spec(overlay(tring@, fresh@), odid, next@))
                =~= outcomes(done).push(out) + sets_spec(overlay(tring@, fresh@), odid, next@));
        }
        result_vec.push(cur_data);
        loop_rest = next;
    }
    proof {
        assert(outcomes(result_vec@) + Seq::<SetOutcome>::empty() =~= outcomes(result_vec@));
    }
    PacketResult::Decoded(PacketInfo::new(export_time, seq_num, odid, result_vec))
}

} // verus!
