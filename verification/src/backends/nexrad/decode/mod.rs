//! NEXRAD Level 2 byte-level decoder.
//!
//! [`decode_volume`] takes a whole file: an optional volume header, then
//! either compressed records or one raw message stream. The radials of all
//! records are put together in record order and grouped into sweeps.

pub mod error;
pub mod header;
pub mod messages;
pub mod model;
pub mod products;
pub mod reader;
pub mod record;
pub mod volume;

use crate::backends::common::parallel::par_map;
use crate::backends::nexrad::decode::error::NexradDecodeError;
use crate::backends::nexrad::decode::header::MessageType;

use crate::backends::nexrad::decode::messages::msg2::Msg2;
use crate::backends::nexrad::decode::messages::msg31::header::{pointers_at, PTR_VOL};
use crate::backends::nexrad::decode::messages::msg31::info_blocks::volume_block_at;
use crate::backends::nexrad::decode::messages::msg31::{
    block_text, blocks_are_told_by_name, is_block_of_kind, msg31_outcome, Msg31,
};
use crate::backends::nexrad::decode::messages::msg5::Msg5;
use crate::backends::nexrad::decode::messages::{
    decode_messages, message_frames, parses, Frame, Message, MessagePayload,
};
use crate::backends::nexrad::decode::model::{
    group_radials_into_sweeps, group_sweeps, grouping_keeps_wf, is_synthetic_vcp, legacy_fields,
    legacy_fields_at, radial_at_msg1, radial_at_msg31, radial_models, radial_of_msg31, radials_wf,
    sweep_models, sweeps_wf, Radial, RadialModel, Scan, Site,
};
use crate::backends::nexrad::decode::record::{
    a_file_cut_off_behind_a_record_keeps_the_records_before, bunzip2, decompress, is_raw_archive2,
    ldm_records, raw_archive2, raw_archive2_body, span_end, split_ldm_records, LdmRecord,
    RecordSpan, VOLUME_HEADER_SIZE,
};
use crate::wire::{be16, be16s, be32};
use vstd::prelude::*;

verus! {

/// What one message stream contributes to a volume: its radials and the first
/// site, RDA status and coverage pattern in it.
#[derive(Debug)]
pub struct PerRecordDecode {
    pub radials: Vec<Radial>,
    pub msg2: Option<Msg2>,
    pub msg5: Option<Msg5>,
    pub site: Option<Site>,
}

/// A site by its identifier and the data block that describes it.
pub ghost struct SiteModel {
    pub identifier: Seq<u8>,
    pub latitude_degrees: u32,
    pub longitude_degrees: u32,
    pub site_height_m: i16,
    pub tower_height_m: u16,
}

/// What a message stream, or several, contribute to a volume. The RDA status
/// and the coverage pattern are given by the message bodies that encode them.
pub ghost struct VolumeParts {
    pub radials: Seq<RadialModel>,
    pub msg2: Option<Seq<u8>>,
    pub msg5: Option<Seq<u8>>,
    pub site: Option<SiteModel>,
}

/// Nothing.
pub open spec fn no_parts() -> VolumeParts {
    VolumeParts { radials: Seq::empty(), msg2: None, msg5: None, site: None }
}

/// The first of two options that is present.
pub open spec fn or_else<A>(a: Option<A>, b: Option<A>) -> Option<A> {
    match a {
        Some(_) => a,
        None => b,
    }
}

/// Two contributions, the first one's taking precedence.
pub open spec fn both(a: VolumeParts, b: VolumeParts) -> VolumeParts {
    VolumeParts {
        radials: a.radials + b.radials,
        msg2: or_else(a.msg2, b.msg2),
        msg5: or_else(a.msg5, b.msg5),
        site: or_else(a.site, b.site),
    }
}

/// The site that a generic-format radial describes, if it has a volume block.
pub open spec fn site_of_msg31(body: Seq<u8>) -> Option<SiteModel> {
    let found = msg31_outcome(body, 0, 0)->Ok_0.0;
    if found.contains_key(PTR_VOL as int) {
        let vol = volume_block_at(body, found[PTR_VOL as int]);
        Some(
            SiteModel {
                identifier: body.subrange(0, 4),
                latitude_degrees: vol.latitude_degrees,
                longitude_degrees: vol.longitude_degrees,
                site_height_m: vol.site_height_m,
                tower_height_m: vol.tower_height_m,
            },
        )
    } else {
        None
    }
}

/// What one message contributes. A body that its type's parser refuses
/// contributes nothing.
pub open spec fn frame_parts(f: Frame) -> VolumeParts {
    let t = f.header.message_type;
    if !parses(t, f.body) {
        no_parts()
    } else {
        match t {
            MessageType::DigitalRadarDataGenericFormat => VolumeParts {
                radials: seq![radial_at_msg31(f.body)],
                site: site_of_msg31(f.body),
                ..no_parts()
            },
            MessageType::DigitalRadarDataLegacy => VolumeParts {
                radials: seq![radial_at_msg1(f.body)],
                ..no_parts()
            },
            MessageType::RdaStatusData => VolumeParts { msg2: Some(f.body), ..no_parts() },
            MessageType::VolumeCoveragePattern => VolumeParts {
                msg5: Some(f.body),
                ..no_parts()
            },
            _ => no_parts(),
        }
    }
}

/// What the first `n` messages contribute.
pub open spec fn frames_parts(frames: Seq<Frame>, n: int) -> VolumeParts
    decreases n,
{
    if n <= 0 {
        no_parts()
    } else {
        both(frames_parts(frames, n - 1), frame_parts(frames[n - 1]))
    }
}

/// What a message stream contributes, or why it cannot be walked.
pub open spec fn stream_parts(d: Seq<u8>) -> Result<VolumeParts, NexradDecodeError> {
    match message_frames(d) {
        Ok(frames) => Ok(frames_parts(frames, frames.len() as int)),
        Err(e) => Err(e),
    }
}

/// What several streams contribute together.
pub open spec fn joined_parts(parts: Seq<VolumeParts>) -> VolumeParts
    decreases parts.len(),
{
    if parts.len() == 0 {
        no_parts()
    } else {
        both(joined_parts(parts.drop_last()), parts.last())
    }
}

/// A record decompresses to a stream that can be walked.
pub open spec fn record_decodes(span: RecordSpan) -> bool {
    bunzip2(span.compressed) is Ok && stream_parts(bunzip2(span.compressed)->Ok_0) is Ok
}

/// What a record that decodes contributes.
pub open spec fn record_parts(span: RecordSpan) -> VolumeParts {
    stream_parts(bunzip2(span.compressed)->Ok_0)->Ok_0
}

/// `e` is what is wrong with a record.
pub open spec fn is_record_error(e: NexradDecodeError, span: RecordSpan) -> bool {
    match bunzip2(span.compressed) {
        Ok(data) => stream_parts(data) == Err::<VolumeParts, NexradDecodeError>(e),
        Err(text) => match e {
            NexradDecodeError::Decompression { offset, source } => offset == span.offset
                && source@ == text,
            _ => false,
        },
    }
}

/// All records of a file decode.
pub open spec fn records_decode(spans: Seq<RecordSpan>) -> bool {
    forall|i: int| 0 <= i < spans.len() ==> record_decodes(#[trigger] spans[i])
}

/// What all records of a file contribute.
pub open spec fn records_parts(spans: Seq<RecordSpan>) -> VolumeParts {
    joined_parts(each_record_parts(spans))
}

/// The message stream of a raw Archive II file.
pub open spec fn raw_body(d: Seq<u8>) -> Seq<u8> {
    d.subrange(VOLUME_HEADER_SIZE as int, d.len() as int)
}

/// The file decodes to the parts of a volume.
pub open spec fn parts_decode(d: Seq<u8>) -> bool {
    if raw_archive2(d) {
        stream_parts(raw_body(d)) is Ok
    } else {
        ldm_records(d) is Ok && records_decode(ldm_records(d)->Ok_0)
    }
}

/// The parts of the volume in a file that decodes.
pub open spec fn file_parts(d: Seq<u8>) -> VolumeParts {
    if raw_archive2(d) {
        stream_parts(raw_body(d))->Ok_0
    } else {
        records_parts(ldm_records(d)->Ok_0)
    }
}

/// `e` is a reason why a file does not decode to the parts of a volume. Of
/// several damaged records any one may be named.
pub open spec fn is_parts_error(e: NexradDecodeError, d: Seq<u8>) -> bool {
    if raw_archive2(d) {
        stream_parts(raw_body(d)) == Err::<VolumeParts, NexradDecodeError>(e)
    } else {
        match ldm_records(d) {
            Err(split) => e == split,
            Ok(spans) => is_some_record_error(e, spans),
        }
    }
}

/// The contents of an optional site.
pub open spec fn opt_site(s: Option<Site>) -> Option<SiteModel> {
    match s {
        Some(s) => Some(
            SiteModel {
                identifier: s.identifier@,
                latitude_degrees: s.latitude_degrees,
                longitude_degrees: s.longitude_degrees,
                site_height_m: s.site_height_m,
                tower_height_m: s.tower_height_m,
            },
        ),
        None => None,
    }
}

/// `m` is the RDA status that `body`, if present, encodes.
pub open spec fn is_msg2(m: Option<Msg2>, body: Option<Seq<u8>>) -> bool {
    match (m, body) {
        (Some(m), Some(body)) => m.is_at(body, 0),
        (None, None) => true,
        _ => false,
    }
}

/// `m` is the coverage pattern that `body`, if present, encodes.
pub open spec fn is_msg5(m: Option<Msg5>, body: Option<Seq<u8>>) -> bool {
    match (m, body) {
        (Some(m), Some(body)) => m.is_at(body, 0),
        (None, None) => true,
        _ => false,
    }
}

/// The radials, RDA status, coverage pattern and site that a contribution
/// holds.
pub ghost struct HeldParts {
    pub radials: Seq<Radial>,
    pub msg2: Option<Msg2>,
    pub msg5: Option<Msg5>,
    pub site: Option<Site>,
}

/// Several contributions together, in order: all radials, and the first RDA
/// status, coverage pattern and site.
pub open spec fn held_together(records: Seq<PerRecordDecode>) -> HeldParts
    decreases records.len(),
{
    if records.len() == 0 {
        HeldParts { radials: Seq::empty(), msg2: None, msg5: None, site: None }
    } else {
        let before = held_together(records.drop_last());
        let last = records.last();
        HeldParts {
            radials: before.radials + last.radials@,
            msg2: or_else(before.msg2, last.msg2),
            msg5: or_else(before.msg5, last.msg5),
            site: or_else(before.site, last.site),
        }
    }
}

impl PerRecordDecode {
    /// What `self` holds.
    pub open spec fn held(&self) -> HeldParts {
        HeldParts {
            radials: self.radials@,
            msg2: self.msg2,
            msg5: self.msg5,
            site: self.site,
        }
    }

    /// `self` holds these parts.
    pub open spec fn is_of(&self, parts: VolumeParts) -> bool {
        &&& radial_models(self.radials@) == parts.radials
        &&& radials_wf(parts.radials)
        &&& is_msg2(self.msg2, parts.msg2)
        &&& is_msg5(self.msg5, parts.msg5)
        &&& opt_site(self.site) == parts.site
    }

    /// Nothing yet.
    pub fn empty() -> (p: Self)
        ensures
            p.held() == held_together(Seq::empty()),
            p.is_of(no_parts()),
    {
        let p = Self { radials: Vec::new(), msg2: None, msg5: None, site: None };
        assert(radial_models(p.radials@) =~= Seq::empty());
        assert(p.radials@ =~= Seq::empty());
        p
    }

    /// Take over what another contributes, keeping what is there first.
    pub fn absorb(&mut self, other: PerRecordDecode)
        ensures
            final(self).held() == (HeldParts {
                radials: old(self).radials@ + other.radials@,
                msg2: or_else(old(self).msg2, other.msg2),
                msg5: or_else(old(self).msg5, other.msg5),
                site: or_else(old(self).site, other.site),
            }),
            forall|a: VolumeParts, b: VolumeParts|
                old(self).is_of(a) && other.is_of(b) ==> final(self).is_of(#[trigger] both(a, b)),
    {
        let ghost mine = self.radials@;
        let ghost theirs = other.radials@;
        let mut other = other;
        if self.site.is_none() {
            self.site = other.site;
        }
        if self.msg2.is_none() {
            self.msg2 = other.msg2;
        }
        if self.msg5.is_none() {
            self.msg5 = other.msg5;
        }
        self.radials.append(&mut other.radials);
        assert(radial_models(self.radials@) =~= radial_models(mine) + radial_models(theirs));
    }
}

proof fn lemma_msg31_parts(m: Msg31<'_>, body: Seq<u8>)
    requires
        msg31_outcome(body, 0, 0) is Ok,
        m.header.is_at(body, 0),
        m.has_blocks(body, msg31_outcome(body, 0, 0)->Ok_0.0),
    ensures
        radial_of_msg31(m) == radial_at_msg31(body),
        radial_of_msg31(m).wf(),
{
}

/// Decode one message.
fn decode_message(msg: Message<'_>, Ghost(frame): Ghost<Frame>) -> (out: PerRecordDecode)
    requires
        msg.is_of(frame),
    ensures
        out.is_of(frame_parts(frame)),
{
    let mut out = PerRecordDecode::empty();
    match msg.payload {
        MessagePayload::Msg31(boxed) => {
            let m = *boxed;
            proof {
                lemma_msg31_parts(m, frame.body);
            }
            if let Some(vol) = m.volume {
                out.site = Some(Site::from_vol(m.header.radar_identifier, &vol));
            }
            out.radials.push(Radial::from_msg31(m));
            assert(radial_models(out.radials@) =~= seq![radial_at_msg31(frame.body)]);
        },
        MessagePayload::Msg1(boxed) => {
            let m = *boxed;
            assert(legacy_fields(m) == legacy_fields_at(frame.body, 0));
            out.radials.push(Radial::from_msg1(m));
            assert(radial_models(out.radials@) =~= seq![radial_at_msg1(frame.body)]);
        },
        MessagePayload::Msg2(boxed) => {
            out.msg2 = Some(*boxed);
        },
        MessagePayload::Msg5(boxed) => {
            out.msg5 = Some(*boxed);
        },
        _ => {},
    }
    out
}

/// Walk one message stream and collect what it contributes to a volume.
pub fn decode_one_message_stream(payload: &[u8]) -> (r: Result<PerRecordDecode, NexradDecodeError>)
    ensures
        match r {
            Ok(out) => stream_parts(payload@) is Ok && out.is_of(stream_parts(payload@)->Ok_0),
            Err(e) => stream_parts(payload@) == Err::<VolumeParts, NexradDecodeError>(e),
        },
{
    let messages = decode_messages(payload)?;
    let ghost frames = message_frames(payload@)->Ok_0;
    let ghost all = messages@;
    let mut out = PerRecordDecode::empty();
    for msg in it: messages.into_iter()
        invariant
            all == it.seq(),
            messages::all_of(all, frames),
            out.is_of(frames_parts(frames, it.index() as int)),
    {
        let ghost k = it.index() as int;
        assert(all[k] == msg);
        let ghost frame = frames[k];
        let part = decode_message(msg, Ghost(frame));
        out.absorb(part);
        assert(out.is_of(both(frames_parts(frames, k), frame_parts(frame))));
    }
    Ok(out)
}

/// `r` is what decoding a record gives.
pub open spec fn is_record_result(
    r: Result<PerRecordDecode, NexradDecodeError>,
    span: RecordSpan,
) -> bool {
    match r {
        Ok(out) => record_decodes(span) && out.is_of(record_parts(span)),
        Err(e) => !record_decodes(span) && is_record_error(e, span),
    }
}

/// The record's offset and compressed bytes.
pub open spec fn record_span(record: LdmRecord<'_>) -> RecordSpan {
    RecordSpan { offset: record.offset as int, compressed: record.compressed@ }
}

/// Decompress one record and collect what it contributes to a volume.
pub fn decode_one_record(record: &LdmRecord<'_>) -> (r: Result<PerRecordDecode, NexradDecodeError>)
    ensures
        is_record_result(r, record_span(*record)),
{
    let payload = decompress(record)?;
    decode_one_message_stream(payload.as_slice())
}

/// The spans of several records.
pub open spec fn record_spans(records: Seq<LdmRecord<'_>>) -> Seq<RecordSpan> {
    records.map_values(|record: LdmRecord<'_>| record_span(record))
}

/// What each of several records contributes.
pub open spec fn each_record_parts(spans: Seq<RecordSpan>) -> Seq<VolumeParts> {
    spans.map_values(|span: RecordSpan| record_parts(span))
}

/// `e` is what is wrong with one of the records.
pub open spec fn is_some_record_error(e: NexradDecodeError, spans: Seq<RecordSpan>) -> bool {
    exists|i: int|
        0 <= i < spans.len() && !record_decodes(#[trigger] spans[i]) && is_record_error(
            e,
            spans[i],
        )
}

/// Several contributions.
pub open spec fn are_parts(outs: Seq<PerRecordDecode>, parts: Seq<VolumeParts>) -> bool {
    &&& outs.len() == parts.len()
    &&& forall|i: int| 0 <= i < parts.len() ==> (#[trigger] outs[i]).is_of(parts[i])
}

/// Decode records in parallel, preserving their order.
pub fn decode_each_record(records: &[LdmRecord<'_>]) -> (r: Result<
    Vec<PerRecordDecode>,
    NexradDecodeError,
>)
    ensures
        match r {
            Ok(outs) => {
                &&& records_decode(record_spans(records@))
                &&& are_parts(outs@, each_record_parts(record_spans(records@)))
            },
            Err(e) => is_some_record_error(e, record_spans(records@)),
        },
{
    let ghost spans = record_spans(records@);
    match par_map(records, decode_one_record) {
        Ok(outs) => {
            proof {
                assert forall|i: int| 0 <= i < spans.len() implies record_decodes(
                    #[trigger] spans[i],
                ) by {
                    assert(record_span(records@[i]) == spans[i]);
                }
                assert forall|i: int| 0 <= i < spans.len() implies (#[trigger] outs@[i]).is_of(
                    each_record_parts(spans)[i],
                ) by {
                    assert(record_span(records@[i]) == spans[i]);
                }
            }
            Ok(outs)
        },
        Err(e) => {
            proof {
                let i = choose|i: int|
                    0 <= i < records@.len() && is_record_result(
                        Err(e),
                        record_span(#[trigger] records@[i]),
                    );
                assert(record_span(records@[i]) == spans[i]);
            }
            Err(e)
        },
    }
}

/// Decode a raw Archive II file, which is one stream.
fn decode_raw(bytes: &[u8]) -> (r: Result<Vec<PerRecordDecode>, NexradDecodeError>)
    requires
        raw_archive2(bytes@),
    ensures
        match r {
            Ok(outs) => {
                &&& stream_parts(raw_body(bytes@)) is Ok
                &&& are_parts(outs@, seq![stream_parts(raw_body(bytes@))->Ok_0])
            },
            Err(e) => stream_parts(raw_body(bytes@)) == Err::<VolumeParts, NexradDecodeError>(e),
        },
{
    let body = raw_archive2_body(bytes)?;
    let out = decode_one_message_stream(body)?;
    let mut outs: Vec<PerRecordDecode> = Vec::new();
    outs.push(out);
    Ok(outs)
}

/// Decode every record of a file, in parallel, preserving record order. A raw
/// Archive II file is one stream.
pub fn decode_records(bytes: &[u8]) -> (r: Result<Vec<PerRecordDecode>, NexradDecodeError>)
    ensures
        match r {
            Ok(outs) => {
                &&& parts_decode(bytes@)
                &&& exists|parts: Seq<VolumeParts>|
                    #[trigger] are_parts(outs@, parts) && joined_parts(parts) == file_parts(bytes@)
            },
            Err(e) => !parts_decode(bytes@) && is_parts_error(e, bytes@),
        },
{
    if is_raw_archive2(bytes) {
        let outs = decode_raw(bytes)?;
        proof {
            lemma_joined_one(file_parts(bytes@));
        }
        Ok(outs)
    } else {
        let records = split_ldm_records(bytes)?;
        let ghost spans = ldm_records(bytes@)->Ok_0;
        proof {
            assert forall|i: int| 0 <= i < spans.len() implies record_spans(records@)[i]
                == spans[i] by {
                assert(records@[i].is(spans[i]));
            }
            assert(record_spans(records@) =~= spans);
        }
        decode_each_record(records.as_slice())
    }
}

proof fn lemma_joined_one(p: VolumeParts)
    ensures
        joined_parts(seq![p]) == p,
{
    assert(seq![p].drop_last() =~= Seq::<VolumeParts>::empty());
    assert(joined_parts(Seq::<VolumeParts>::empty()) == no_parts());
    lemma_both_identity(p);
}

proof fn lemma_both_identity(p: VolumeParts)
    ensures
        both(no_parts(), p) == p,
{
    assert(Seq::<RadialModel>::empty() + p.radials =~= p.radials);
}

/// Put the contributions of several records together, in record order: all
/// radials, and the first site, RDA status and coverage pattern.
pub fn stitch_records(per_record: Vec<PerRecordDecode>) -> (out: PerRecordDecode)
    ensures
        out.held() == held_together(per_record@),
        forall|parts: Seq<VolumeParts>|
            #[trigger] are_parts(per_record@, parts) ==> out.is_of(joined_parts(parts)),
{
    let ghost all = per_record@;
    let mut out = PerRecordDecode::empty();
    assert(all.take(0) =~= Seq::empty());
    for chunk in it: per_record.into_iter()
        invariant
            all == it.seq(),
            out.held() == held_together(all.take(it.index() as int)),
            forall|parts: Seq<VolumeParts>| #[trigger]
                are_parts(all, parts) ==> out.is_of(joined_parts(parts.take(it.index() as int))),
    {
        let ghost k = it.index() as int;
        let ghost before = out;
        out.absorb(chunk);
        proof {
            assert(all.take(k + 1).drop_last() =~= all.take(k));
            assert(all.take(k + 1).last() == all[k]);
            assert forall|parts: Seq<VolumeParts>| #[trigger]
                are_parts(all, parts) implies out.is_of(joined_parts(parts.take(k + 1))) by {
                assert(all[k].is_of(parts[k]));
                assert(parts.take(k + 1).drop_last() =~= parts.take(k));
                assert(parts.take(k + 1).last() == parts[k]);
                assert(before.is_of(joined_parts(parts.take(k))));
                assert(out.is_of(both(joined_parts(parts.take(k)), parts[k])));
            }
        }
    }
    proof {
        assert(all.take(all.len() as int) =~= all);
        assert forall|parts: Seq<VolumeParts>| #[trigger]
            are_parts(all, parts) implies out.is_of(joined_parts(parts)) by {
            assert(parts.take(all.len() as int) =~= parts);
        }
    }
    out
}

/// A volume needs a coverage pattern or a radial to stand in for one.
pub open spec fn has_coverage(parts: VolumeParts) -> bool {
    parts.msg5 is Some || parts.radials.len() > 0
}

impl Scan {
    /// `self` is the volume that these parts make up.
    pub open spec fn is_of(&self, parts: VolumeParts) -> bool {
        &&& match parts.msg5 {
            Some(body) => self.coverage_pattern.is_at(body, 0),
            None => is_synthetic_vcp(self.coverage_pattern, parts.radials),
        }
        &&& sweep_models(self.sweeps@) == group_sweeps(parts.radials)
        &&& opt_site(self.site) == parts.site
        &&& is_msg2(self.rda_status, parts.msg2)
        &&& self.wf()
    }

    /// Gate words of every moment are one or two bytes wide.
    pub open spec fn wf(&self) -> bool {
        sweeps_wf(sweep_models(self.sweeps@))
    }
}

/// Make a volume of its parts. Without a coverage pattern the radials' own
/// elevations stand in for one; without radials as well there is no volume.
pub fn assemble_scan(parts: PerRecordDecode) -> (r: Result<Scan, NexradDecodeError>)
    ensures
        match r {
            Ok(scan) => {
                let models = radial_models(parts.radials@);
                &&& parts.msg5 is Some || parts.radials@.len() > 0
                &&& match parts.msg5 {
                    Some(m) => scan.coverage_pattern == m,
                    None => is_synthetic_vcp(scan.coverage_pattern, models),
                }
                &&& sweep_models(scan.sweeps@) == group_sweeps(models)
                &&& scan.site == parts.site
                &&& scan.rda_status == parts.msg2
            },
            Err(e) => {
                &&& parts.msg5 is None && parts.radials@.len() == 0
                &&& e == NexradDecodeError::MissingCoveragePattern
            },
        },
        forall|model: VolumeParts|
            #[trigger] parts.is_of(model) ==> match r {
                Ok(scan) => has_coverage(model) && scan.is_of(model),
                Err(e) => !has_coverage(model) && e == NexradDecodeError::MissingCoveragePattern,
            },
{
    let coverage_pattern = match parts.msg5 {
        Some(m) => m,
        None => {
            if parts.radials.len() == 0 {
                return Err(NexradDecodeError::MissingCoveragePattern);
            }
            Msg5::synthetic_from_radials(parts.radials.as_slice())
        },
    };
    let ghost models = radial_models(parts.radials@);
    let sweeps = group_radials_into_sweeps(parts.radials);
    let scan = Scan {
        coverage_pattern,
        sweeps,
        site: parts.site,
        rda_status: parts.msg2,
    };
    proof {
        assert forall|model: VolumeParts| #[trigger] parts.is_of(model) implies scan.is_of(model) by {
            grouping_keeps_wf(models);
        }
    }
    Ok(scan)
}

/// Decode an in-memory file.
pub fn decode_volume(bytes: &[u8]) -> (r: Result<Scan, NexradDecodeError>)
    ensures
        match r {
            Ok(scan) => {
                &&& parts_decode(bytes@)
                &&& has_coverage(file_parts(bytes@))
                &&& scan.is_of(file_parts(bytes@))
            },
            Err(e) => if parts_decode(bytes@) {
                &&& !has_coverage(file_parts(bytes@))
                &&& e == NexradDecodeError::MissingCoveragePattern
            } else {
                is_parts_error(e, bytes@)
            },
        },
{
    let per_record = decode_records(bytes)?;
    let parts = stitch_records(per_record);
    assert(parts.is_of(file_parts(bytes@)));
    assemble_scan(parts)
}

proof fn lemma_joined_radials_grow(parts: Seq<VolumeParts>, k: int)
    requires
        0 <= k <= parts.len(),
    ensures
        ({
            let some = joined_parts(parts.take(k)).radials;
            let all = joined_parts(parts).radials;
            some.len() <= all.len() && all.take(some.len() as int) == some
        }),
    decreases parts.len(),
{
    let some = joined_parts(parts.take(k)).radials;
    let all = joined_parts(parts).radials;
    if k == parts.len() {
        assert(parts.take(k) =~= parts);
        assert(all.take(some.len() as int) =~= some);
    } else {
        let rest = parts.drop_last();
        lemma_joined_radials_grow(rest, k);
        assert(rest.take(k) =~= parts.take(k));
        let before = joined_parts(rest).radials;
        assert(all == before + parts.last().radials);
        assert(all.take(some.len() as int) =~= before.take(some.len() as int));
    }
}

/// A volume that breaks off behind its `k`-th record decodes to the radials
/// that came until then.
pub proof fn truncated_volumes_keep_the_radials_that_came(d: Seq<u8>, k: int)
    requires
        !raw_archive2(d),
        parts_decode(d),
        0 < k <= ldm_records(d)->Ok_0.len(),
    ensures
        ({
            let cut = d.take(span_end(ldm_records(d)->Ok_0[k - 1]));
            let came = file_parts(cut).radials;
            &&& parts_decode(cut)
            &&& came.len() <= file_parts(d).radials.len()
            &&& came == file_parts(d).radials.take(came.len() as int)
        }),
{
    a_file_cut_off_behind_a_record_keeps_the_records_before(d, k);
    let spans = ldm_records(d)->Ok_0;
    assert forall|i: int| 0 <= i < k implies record_decodes(#[trigger] spans.take(k)[i]) by {
        assert(record_decodes(spans[i]));
    }
    assert(each_record_parts(spans.take(k)) =~= each_record_parts(spans).take(k));
    lemma_joined_radials_grow(each_record_parts(spans), k);
}

/// Two scans hold the same volume.
pub open spec fn same_scan(a: Scan, b: Scan) -> bool {
    &&& sweep_models(a.sweeps@) == sweep_models(b.sweeps@)
    &&& opt_site(a.site) == opt_site(b.site)
    &&& a.coverage_pattern.pattern_number == b.coverage_pattern.pattern_number
    &&& a.coverage_pattern.number_of_elevation_cuts == b.coverage_pattern.number_of_elevation_cuts
    &&& a.coverage_pattern.doppler_velocity_resolution
        == b.coverage_pattern.doppler_velocity_resolution
    &&& a.coverage_pattern.pulse_width == b.coverage_pattern.pulse_width
    &&& a.coverage_pattern.vcp_sequencing == b.coverage_pattern.vcp_sequencing
    &&& a.coverage_pattern.vcp_supplemental == b.coverage_pattern.vcp_supplemental
    &&& a.coverage_pattern.elevation_cuts@ == b.coverage_pattern.elevation_cuts@
    &&& match (a.rda_status, b.rda_status) {
        (Some(x), Some(y)) => {
            &&& x.rda_scan_and_data_flags == y.rda_scan_and_data_flags
            &&& x.super_resolution_status == y.super_resolution_status
            &&& x.rda_build_number == y.rda_build_number
            &&& x.operational_mode == y.operational_mode
        },
        (None, None) => true,
        _ => false,
    }
}

/// Parts make up one volume.
pub proof fn parts_make_up_one_volume(a: Scan, b: Scan, parts: VolumeParts)
    requires
        a.is_of(parts),
        b.is_of(parts),
    ensures
        same_scan(a, b),
{
    if parts.msg5 is None {
        assert(a.coverage_pattern.elevation_cuts@ =~= b.coverage_pattern.elevation_cuts@);
    }
}

/// Two runs of messages, one behind the other, contribute what each does: the
/// radials of the first come before those of the second, and the site, status
/// and pattern are those of the first run that has one.
pub proof fn messages_contribute_in_order(a: Seq<Frame>, b: Seq<Frame>)
    ensures
        ({
            let x = frames_parts(a, a.len() as int);
            let y = frames_parts(b, b.len() as int);
            let all = frames_parts(a + b, (a + b).len() as int);
            &&& all.radials == x.radials + y.radials
            &&& x.site is Some ==> all.site == x.site
            &&& x.site is None ==> all.site == y.site
            &&& x.msg2 is Some ==> all.msg2 == x.msg2
            &&& x.msg2 is None ==> all.msg2 == y.msg2
            &&& x.msg5 is Some ==> all.msg5 == x.msg5
            &&& x.msg5 is None ==> all.msg5 == y.msg5
        }),
{
    lemma_frames_joined(a, b);
}

/// Three contributions are put together in either order of joining.
proof fn lemma_both_associates(x: VolumeParts, y: VolumeParts, z: VolumeParts)
    ensures
        both(both(x, y), z) == both(x, both(y, z)),
        both(x, no_parts()) == x,
{
    assert((x.radials + y.radials) + z.radials =~= x.radials + (y.radials + z.radials));
    assert(x.radials + Seq::<RadialModel>::empty() =~= x.radials);
}

/// What each of several messages contributes.
spec fn each_frame_parts(frames: Seq<Frame>) -> Seq<VolumeParts> {
    frames.map_values(|f: Frame| frame_parts(f))
}

#[verifier::rlimit(50)]
proof fn lemma_frames_are_parts(frames: Seq<Frame>, parts: Seq<VolumeParts>, n: int)
    requires
        0 <= n <= frames.len(),
        parts == each_frame_parts(frames),
    ensures
        frames_parts(frames, n) == joined_parts(parts.take(n)),
    decreases n,
{
    if n > 0 {
        lemma_frames_are_parts(frames, parts, n - 1);
        let some = parts.take(n);
        assert(some.drop_last() =~= parts.take(n - 1));
        assert(some.last() == parts[n - 1]);
    }
}

#[verifier::rlimit(50)]
proof fn lemma_frames_joined(a: Seq<Frame>, b: Seq<Frame>)
    ensures
        frames_parts(a + b, (a + b).len() as int) == both(
            frames_parts(a, a.len() as int),
            frames_parts(b, b.len() as int),
        ),
{
    let (x, y, all) = (each_frame_parts(a), each_frame_parts(b), each_frame_parts(a + b));
    lemma_frames_are_parts(a, x, a.len() as int);
    lemma_frames_are_parts(b, y, b.len() as int);
    lemma_frames_are_parts(a + b, all, (a + b).len() as int);
    assert(x.take(a.len() as int) =~= x);
    assert(y.take(b.len() as int) =~= y);
    assert(all.take((a + b).len() as int) =~= all);
    assert(all =~= x + y);
    lemma_parts_joined(x, y);
}

/// A message that its parser accepts contributes what it encodes and nothing
/// else: a radial message its radial, and the generic format its site; a status
/// or a pattern message its body.
#[verifier::rlimit(50)]
pub proof fn a_message_contributes_what_it_encodes(f: Frame)
    requires
        parses(f.header.message_type, f.body),
    ensures
        ({
            let p = frames_parts(seq![f], 1);
            match f.header.message_type {
                MessageType::DigitalRadarDataGenericFormat => {
                    &&& p.radials == seq![radial_at_msg31(f.body)]
                    &&& p.site == site_of_msg31(f.body)
                    &&& p.msg2 is None && p.msg5 is None
                },
                MessageType::DigitalRadarDataLegacy => {
                    &&& p.radials == seq![radial_at_msg1(f.body)]
                    &&& p.site is None && p.msg2 is None && p.msg5 is None
                },
                MessageType::RdaStatusData => {
                    &&& p.msg2 == Some(f.body)
                    &&& p.radials.len() == 0 && p.site is None && p.msg5 is None
                },
                MessageType::VolumeCoveragePattern => {
                    &&& p.msg5 == Some(f.body)
                    &&& p.radials.len() == 0 && p.site is None && p.msg2 is None
                },
                _ => p.radials.len() == 0 && p.site is None && p.msg2 is None && p.msg5 is None,
            }
        }),
{
    reveal_with_fuel(frames_parts, 2);
    lemma_both_identity(frame_parts(f));
    assert(seq![f][0] == f);
}

/// Two runs of records, one behind the other, contribute what each does: the
/// radials of the first come before those of the second, and the site, status
/// and pattern are those of the first run that has one.
pub proof fn records_contribute_in_order(a: Seq<VolumeParts>, b: Seq<VolumeParts>)
    ensures
        ({
            let (x, y, all) = (joined_parts(a), joined_parts(b), joined_parts(a + b));
            &&& all.radials == x.radials + y.radials
            &&& x.site is Some ==> all.site == x.site
            &&& x.site is None ==> all.site == y.site
            &&& x.msg2 is Some ==> all.msg2 == x.msg2
            &&& x.msg2 is None ==> all.msg2 == y.msg2
            &&& x.msg5 is Some ==> all.msg5 == x.msg5
            &&& x.msg5 is None ==> all.msg5 == y.msg5
        }),
{
    lemma_parts_joined(a, b);
}

proof fn lemma_parts_joined(a: Seq<VolumeParts>, b: Seq<VolumeParts>)
    ensures
        joined_parts(a + b) == both(joined_parts(a), joined_parts(b)),
    decreases b.len(),
{
    if b.len() == 0 {
        assert(a + b =~= a);
        lemma_both_associates(joined_parts(a), no_parts(), no_parts());
    } else {
        let rest = b.drop_last();
        lemma_parts_joined(a, rest);
        assert((a + b).drop_last() =~= a + rest);
        assert((a + b).last() == b.last());
        lemma_both_associates(joined_parts(a), joined_parts(rest), b.last());
    }
}

/// One record alone contributes its parts.
pub proof fn one_record_contributes_its_parts(p: VolumeParts)
    ensures
        joined_parts(seq![p]) == p,
{
    lemma_joined_one(p);
}

/// The site of a radial is read from its volume block, the one whose name
/// spells `VOL`: the latitude takes the four bytes that follow the first four
/// behind the name, the longitude the next four, and then come the heights of
/// the site and of the tower. The identifier is the body's first four bytes.
#[verifier::rlimit(50)]
pub proof fn sites_are_read_from_the_volume_block(body: Seq<u8>)
    requires
        msg31_outcome(body, 0, 0) is Ok,
    ensures
        site_of_msg31(body) matches Some(s) ==> exists|p: int|
            {
                &&& #[trigger] is_block_of_kind(body, pointers_at(body, 0), 0, p)
                &&& block_text(0) == "VOL"@
                &&& s.identifier == body.take(4)
                &&& s.latitude_degrees == be32(body, p + 4)
                &&& s.longitude_degrees == be32(body, p + 8)
                &&& s.site_height_m == be16s(body, p + 12)
                &&& s.tower_height_m == be16(body, p + 14)
            },
{
    reveal_strlit("VOL");
    let found = msg31_outcome(body, 0, 0)->Ok_0.0;
    if found.contains_key(0) {
        blocks_are_told_by_name(body, 0, 0, 0);
        assert(is_block_of_kind(body, pointers_at(body, 0), 0, found[0]));
        assert(body.take(4) =~= body.subrange(0, 4));
    }
}

/// The site of a stream is that of the first message that describes one.
#[verifier::rlimit(50)]
pub proof fn the_first_site_of_a_stream_counts(frames: Seq<Frame>, n: int) -> (i: int)
    requires
        0 <= n <= frames.len(),
        frames_parts(frames, n).site is Some,
    ensures
        0 <= i < n,
        frames[i].header.message_type == MessageType::DigitalRadarDataGenericFormat,
        msg31_outcome(frames[i].body, 0, 0) is Ok,
        frames_parts(frames, n).site == site_of_msg31(frames[i].body),
        forall|j: int|
            0 <= j < i && (#[trigger] frames[j]).header.message_type
                == MessageType::DigitalRadarDataGenericFormat && msg31_outcome(
                frames[j].body,
                0,
                0,
            ) is Ok ==> site_of_msg31(frames[j].body) is None,
    decreases n,
{
    if frames_parts(frames, n - 1).site is Some {
        the_first_site_of_a_stream_counts(frames, n - 1)
    } else {
        assert forall|j: int|
            0 <= j < n - 1 && (#[trigger] frames[j]).header.message_type
                == MessageType::DigitalRadarDataGenericFormat && msg31_outcome(
                frames[j].body,
                0,
                0,
            ) is Ok implies site_of_msg31(frames[j].body) is None by {
            lemma_no_site(frames, n - 1, j);
        }
        n - 1
    }
}

#[verifier::rlimit(50)]
proof fn lemma_no_site(frames: Seq<Frame>, n: int, j: int)
    requires
        0 <= j < n <= frames.len(),
        frames_parts(frames, n).site is None,
    ensures
        frame_parts(frames[j]).site is None,
    decreases n,
{
    if j < n - 1 {
        lemma_no_site(frames, n - 1, j);
    }
}

/// The coverage pattern of a stream is its first coverage pattern message.
#[verifier::rlimit(50)]
pub proof fn the_first_pattern_of_a_stream_counts(frames: Seq<Frame>, n: int) -> (i: int)
    requires
        0 <= n <= frames.len(),
        frames_parts(frames, n).msg5 is Some,
    ensures
        0 <= i < n,
        frames[i].header.message_type == MessageType::VolumeCoveragePattern,
        frames_parts(frames, n).msg5 == Some(frames[i].body),
        forall|j: int|
            0 <= j < i && (#[trigger] frames[j]).header.message_type
                == MessageType::VolumeCoveragePattern ==> !parses(
                frames[j].header.message_type,
                frames[j].body,
            ),
    decreases n,
{
    if frames_parts(frames, n - 1).msg5 is Some {
        the_first_pattern_of_a_stream_counts(frames, n - 1)
    } else {
        assert forall|j: int|
            0 <= j < n - 1 && (#[trigger] frames[j]).header.message_type
                == MessageType::VolumeCoveragePattern implies !parses(
            frames[j].header.message_type,
            frames[j].body,
        ) by {
            lemma_no_pattern(frames, n - 1, j);
        }
        n - 1
    }
}

#[verifier::rlimit(50)]
proof fn lemma_no_pattern(frames: Seq<Frame>, n: int, j: int)
    requires
        0 <= j < n <= frames.len(),
        frames_parts(frames, n).msg5 is None,
    ensures
        frame_parts(frames[j]).msg5 is None,
    decreases n,
{
    if j < n - 1 {
        lemma_no_pattern(frames, n - 1, j);
    }
}

/// A message that its parser refuses contributes nothing.
pub proof fn a_message_that_does_not_parse_contributes_nothing(f: Frame)
    requires
        !parses(f.header.message_type, f.body),
    ensures
        ({
            let p = frames_parts(seq![f], 1);
            p.radials.len() == 0 && p.site is None && p.msg2 is None && p.msg5 is None
        }),
{
    reveal_with_fuel(frames_parts, 2);
    assert(seq![f][0] == f);
}

/// A raw file is the one stream behind its volume header of 24 bytes.
pub proof fn raw_files_hold_one_stream(d: Seq<u8>)
    requires
        raw_archive2(d),
    ensures
        parts_decode(d) <==> stream_parts(d.skip(24)) is Ok,
        parts_decode(d) ==> file_parts(d) == stream_parts(d.skip(24))->Ok_0,
{
    assert(raw_body(d) =~= d.skip(24));
}

} // verus!
