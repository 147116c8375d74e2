//! One moment out of one decompressed record.

use crate::backends::common::buffer::lemma_cell_bounds;
use crate::backends::nexrad::decode::error::{error_text, NexradDecodeError};
use crate::backends::nexrad::decode::header::MessageType;
use crate::backends::nexrad::decode::messages::msg31::moment::{gate_word, MomentDescriptor};
use crate::backends::nexrad::decode::messages::msg31::{msg31_outcome, Msg31};
use crate::backends::nexrad::decode::messages::{
    all_of, decode_messages, message_frames, parses, Frame, Message, MessagePayload,
};
use crate::backends::nexrad::decode::frames_parts;
use crate::backends::nexrad::decode::model::{
    moment_at, opt_block, opt_cfp_block, radial_at_msg31, MomentModel, RadialModel,
};
use crate::backends::nexrad::demux::options::{
    is_allocation_failure, validation_error, DemuxOptions, RawMoment,
};
use crate::backends::nexrad::demux::remap::{
    block_key, encoding_key, lemma_significant_bits, moved_words_keep_their_physical_value,
    remap_fits_the_output, remap_outcome, significant_values, word_mask, Remap,
};
use crate::backends::nexrad::demux::rows::{
    cells, gates_present, lemma_cell_index, lemma_row_end, row_cell, row_is_writable,
    rows_are_written_if_each_can_be, rows_differ, rows_outcome, write_row, RowModel,
};
use crate::errors::{
    EncodingKey, MomentEncodingError, MomentSelector, RadishError, TargetEncoding,
};
use crate::float32::scaled;
use crate::wire::be32;
use vstd::arithmetic::power2::pow2;
use vstd::prelude::*;

verus! {

/// The moment's block in the body of a generic-format radial.
pub open spec fn block_in(body: Seq<u8>, moment: MomentSelector) -> Option<MomentModel> {
    moment_at(body, msg31_outcome(body, 0, 0)->Ok_0.0, moment.slot())
}

/// The row that the body of a generic-format radial contributes.
pub open spec fn row_in(body: Seq<u8>, moment: MomentSelector) -> RowModel {
    RowModel { azimuth: be32(body, 12), block: block_in(body, moment) }
}

/// The rows of several radials.
pub open spec fn rows_in(bodies: Seq<Seq<u8>>, moment: MomentSelector) -> Seq<RowModel> {
    bodies.map_values(|body: Seq<u8>| row_in(body, moment))
}

/// `m` is the radial that `body` encodes.
pub open spec fn radial_is(m: Msg31<'_>, body: Seq<u8>) -> bool {
    &&& parses(MessageType::DigitalRadarDataGenericFormat, body)
    &&& m.header.is_at(body, 0)
    &&& m.has_blocks(body, msg31_outcome(body, 0, 0)->Ok_0.0)
}

/// `radials` are the radials that `bodies` encode.
pub open spec fn radials_are(radials: Seq<&Msg31<'_>>, bodies: Seq<Seq<u8>>) -> bool {
    &&& radials.len() == bodies.len()
    &&& forall|i: int| 0 <= i < bodies.len() ==> radial_is(*#[trigger] radials[i], bodies[i])
}

/// The moment's block in a parsed radial.
pub open spec fn block_of(m: Msg31<'_>, moment: MomentSelector) -> Option<MomentModel> {
    match moment {
        MomentSelector::Ref => opt_block(m.reflectivity),
        MomentSelector::Vel => opt_block(m.velocity),
        MomentSelector::Sw => opt_block(m.spectrum_width),
        MomentSelector::Zdr => opt_block(m.zdr),
        MomentSelector::Phi => opt_block(m.phi),
        MomentSelector::Rho => opt_block(m.rho),
        MomentSelector::Cfp => opt_cfp_block(m.cfp),
    }
}

/// The moment's descriptor and gate bytes in a parsed radial.
pub fn select_block<'b, 'a>(msg: &'b Msg31<'a>, moment: MomentSelector) -> (r: Option<
    (&'b MomentDescriptor, &'a [u8]),
>)
    ensures
        match r {
            Some((d, bytes)) => block_of(*msg, moment) == Some(
                MomentModel { descriptor: *d, gates: bytes@ },
            ),
            None => block_of(*msg, moment) is None,
        },
        forall|body: Seq<u8>|
            #[trigger] radial_is(*msg, body) ==> match r {
                Some((d, bytes)) => {
                    &&& block_in(body, moment) == Some(
                        MomentModel { descriptor: *d, gates: bytes@ },
                    )
                    &&& d.wf()
                },
                None => block_in(body, moment) is None,
            },
{
    match moment {
        MomentSelector::Ref => match &msg.reflectivity {
            Some(b) => Some((&b.descriptor, b.gate_bytes)),
            None => None,
        },
        MomentSelector::Vel => match &msg.velocity {
            Some(b) => Some((&b.descriptor, b.gate_bytes)),
            None => None,
        },
        MomentSelector::Sw => match &msg.spectrum_width {
            Some(b) => Some((&b.descriptor, b.gate_bytes)),
            None => None,
        },
        MomentSelector::Zdr => match &msg.zdr {
            Some(b) => Some((&b.descriptor, b.gate_bytes)),
            None => None,
        },
        MomentSelector::Phi => match &msg.phi {
            Some(b) => Some((&b.descriptor, b.gate_bytes)),
            None => None,
        },
        MomentSelector::Rho => match &msg.rho {
            Some(b) => Some((&b.descriptor, b.gate_bytes)),
            None => None,
        },
        MomentSelector::Cfp => match &msg.cfp {
            Some(b) => Some((&b.descriptor, b.gate_bytes)),
            None => None,
        },
    }
}

/// Resolves each block's remap and holds the blocks of one call to one
/// physical grid. The last remap is kept, since neighbouring radials
/// essentially always share an encoding.
struct RemapPin {
    pinned: Option<(EncodingKey, Remap)>,
}

impl RemapPin {
    /// The encoding of the blocks so far.
    spec fn pinned_key(&self) -> Option<EncodingKey> {
        match self.pinned {
            Some((key, _)) => Some(key),
            None => None,
        }
    }

    /// The kept remap is that of the kept encoding.
    spec fn wf(&self, o: DemuxOptions) -> bool {
        match self.pinned {
            Some((key, remap)) => remap_outcome(key, o) == Ok::<Remap, MomentEncodingError>(remap),
            None => true,
        }
    }

    fn resolve(&mut self, d: &MomentDescriptor, o: &DemuxOptions) -> (r: Result<
        Remap,
        MomentEncodingError,
    >)
        requires
            d.wf(),
            old(self).wf(*o),
        ensures
            final(self).wf(*o),
            ({
                let key = block_key(*d);
                let pinned = old(self).pinned_key();
                if pinned is Some && pinned->0 != key && o.target is None {
                    r == Err::<Remap, MomentEncodingError>(
                        MomentEncodingError::MixedEncodings {
                            moment: o.moment,
                            first: pinned->0,
                            next: key,
                        },
                    )
                } else {
                    r == remap_outcome(key, *o)
                }
            }),
            r is Ok ==> final(self).pinned_key() == Some(block_key(*d)),
    {
        let key = encoding_key(d);
        if let Some((pinned, remap)) = self.pinned {
            if pinned == key {
                return Ok(remap);
            }
            if o.target.is_none() {
                return Err(
                    MomentEncodingError::MixedEncodings {
                        moment: o.moment,
                        first: pinned,
                        next: key,
                    },
                );
            }
        }
        let remap = Remap::resolve(d, o)?;
        self.pinned = Some((key, remap));
        Ok(remap)
    }

    /// The encoding of the blocks so far.
    fn key(&self) -> (k: Option<EncodingKey>)
        ensures
            k == self.pinned_key(),
    {
        match self.pinned {
            Some((key, _)) => Some(key),
            None => None,
        }
    }
}

proof fn lemma_next_row(rows: Seq<RowModel>, n: int, i: int, o: DemuxOptions, after: Seq<int>)
    requires
        0 <= i < rows.len() <= n,
        o.gates > 0,
        after.len() == n * o.gates,
        forall|c: int|
            0 <= c < after.len() && !(i * o.gates <= c < i * o.gates + o.gates)
                ==> #[trigger] after[c] == cells(rows.take(i), n, o)[c],
        forall|g: int| 0 <= g < o.gates ==> #[trigger] after[i * o.gates + g] == row_cell(rows[i], o, g),
    ensures
        after == cells(rows.take(i + 1), n, o),
{
    let expected = cells(rows.take(i + 1), n, o);
    let gates = o.gates as int;
    assert forall|c: int| 0 <= c < after.len() implies after[c] == expected[c] by {
        lemma_cell_bounds(c, gates, n);
        let (r, g) = (c / gates, c % gates);
        if r == i {
            assert(after[i * gates + g] == row_cell(rows[i], o, g));
        } else {
            assert(!(i * gates <= c < i * gates + gates)) by {
                if i * gates <= c < i * gates + gates {
                    lemma_cell_index(i, gates, c - i * gates);
                }
            }
        }
    }
    assert(after =~= expected);
}

/// Write the moment of each radial into the first rows of `dst`, which holds
/// the fill value throughout. Returns the encoding that the blocks settled on.
pub(crate) fn write_radials(
    dst: &mut RawMoment,
    radials: &[&Msg31<'_>],
    o: &DemuxOptions,
    Ghost(bodies): Ghost<Seq<Seq<u8>>>,
    Ghost(n): Ghost<int>,
) -> (r: Result<Option<EncodingKey>, MomentEncodingError>)
    requires
        o.gates > 0,
        o.fill_value <= o.word.largest(),
        old(dst).word() == o.word,
        old(dst).words() == cells(Seq::empty(), n, *o),
        n * o.gates <= usize::MAX,
        radials_are(radials@, bodies),
        radials@.len() <= n,
    ensures
        r == rows_outcome(rows_in(bodies, o.moment), 0, None, *o),
        final(dst).word() == o.word,
        r is Ok ==> final(dst).words() == cells(rows_in(bodies, o.moment), n, *o),
{
    let ghost rows = rows_in(bodies, o.moment);
    let mut pin = RemapPin { pinned: None };
    let mut i: usize = 0;
    assert(rows.take(0) =~= Seq::empty());
    while i < radials.len()
        invariant
            i <= radials@.len() <= n,
            o.gates > 0,
            o.fill_value <= o.word.largest(),
            n * o.gates <= usize::MAX,
            rows == rows_in(bodies, o.moment),
            radials_are(radials@, bodies),
            pin.wf(*o),
            dst.word() == o.word,
            dst.words() == cells(rows.take(i as int), n, *o),
            rows_outcome(rows, 0, None, *o) == rows_outcome(rows, i as int, pin.pinned_key(), *o),
        decreases radials@.len() - i,
    {
        let ghost body = bodies[i as int];
        assert(radial_is(*radials@[i as int], body));
        assert(rows[i as int] == row_in(body, o.moment));
        let ghost before = dst.words();
        proof {
            lemma_row_end(i as int, o.gates as int, n);
        }
        match select_block(radials[i], o.moment) {
            Some((descriptor, gate_bytes)) => {
                let remap = pin.resolve(descriptor, o)?;
                proof {
                    remap_fits_the_output(block_key(*descriptor), *o);
                }
                write_row(
                    dst,
                    i,
                    o.gates,
                    gate_bytes,
                    descriptor.word_size_bytes(),
                    remap,
                )?;
                proof {
                    lemma_next_row(rows, n, i as int, *o, dst.words());
                }
            },
            None => {
                proof {
                    assert forall|g: int| 0 <= g < o.gates implies #[trigger] before[i * o.gates
                        + g] == row_cell(rows[i as int], *o, g) by {
                        lemma_cell_index(i as int, o.gates as int, g);
                    }
                    lemma_next_row(rows, n, i as int, *o, before);
                }
            },
        }
        i += 1;
    }
    assert(rows.take(rows.len() as int) =~= rows);
    Ok(pin.key())
}

/// The message is a generic-format radial.
pub open spec fn is_radial(f: Frame) -> bool {
    f.header.message_type == MessageType::DigitalRadarDataGenericFormat && parses(
        f.header.message_type,
        f.body,
    )
}

/// The bodies of the generic-format radials among the first `n` messages.
pub open spec fn radial_bodies(frames: Seq<Frame>, n: int) -> Seq<Seq<u8>>
    decreases n,
{
    if n <= 0 {
        Seq::empty()
    } else if is_radial(frames[n - 1]) {
        radial_bodies(frames, n - 1).push(frames[n - 1].body)
    } else {
        radial_bodies(frames, n - 1)
    }
}

/// Some message is a legacy radial.
pub open spec fn has_legacy(frames: Seq<Frame>) -> bool {
    exists|i: int|
        0 <= i < frames.len() && (#[trigger] frames[i]).header.message_type
            == MessageType::DigitalRadarDataLegacy
}

/// Why a message stream gives no radials to demultiplex.
pub ghost enum StreamFailure {
    /// It cannot be walked.
    Decode(NexradDecodeError),
    /// It holds legacy radials and no others.
    Legacy,
}

/// The bodies of the generic-format radials of a stream.
pub open spec fn stream_bodies(d: Seq<u8>) -> Result<Seq<Seq<u8>>, StreamFailure> {
    match message_frames(d) {
        Err(e) => Err(StreamFailure::Decode(e)),
        Ok(frames) => {
            let bodies = radial_bodies(frames, frames.len() as int);
            if bodies.len() == 0 && has_legacy(frames) {
                Err(StreamFailure::Legacy)
            } else {
                Ok(bodies)
            }
        },
    }
}

/// What a request on legacy radials is answered.
pub open spec fn legacy_refusal() -> Seq<char> {
    "this input carries legacy MSG_1 radials (pre-Build-12, before March 2012); the per-moment demultiplexer only supports MSG_31. Use radish.open_datatree() for these files."@
}

/// `e` reports a stream failure.
pub open spec fn is_stream_error(e: RadishError, f: StreamFailure) -> bool {
    match f {
        StreamFailure::Decode(inner) => e matches RadishError::Decode(text) && text@ == error_text(
            inner,
        ),
        StreamFailure::Legacy => e matches RadishError::Unsupported(text) && text@
            == legacy_refusal(),
    }
}

/// Report a decoder error.
pub fn decode_err(error: NexradDecodeError) -> (e: RadishError)
    ensures
        is_stream_error(e, StreamFailure::Decode(error)),
{
    RadishError::Decode(error.message())
}

/// The generic-format radials among messages. Legacy radials and no others are
/// refused.
pub(crate) fn parse_radials<'b, 'a>(
    messages: &'b [Message<'a>],
    Ghost(frames): Ghost<Seq<Frame>>,
) -> (r: Result<Vec<&'b Msg31<'a>>, RadishError>)
    requires
        all_of(messages@, frames),
    ensures
        ({
            let bodies = radial_bodies(frames, frames.len() as int);
            match r {
                Ok(radials) => {
                    &&& !(bodies.len() == 0 && has_legacy(frames))
                    &&& radials_are(radials@, bodies)
                },
                Err(e) => {
                    &&& bodies.len() == 0 && has_legacy(frames)
                    &&& is_stream_error(e, StreamFailure::Legacy)
                },
            }
        }),
{
    let mut radials: Vec<&'b Msg31<'a>> = Vec::new();
    let mut legacy: bool = false;
    let mut i: usize = 0;
    while i < messages.len()
        invariant
            i <= messages@.len(),
            all_of(messages@, frames),
            radials_are(radials@, radial_bodies(frames, i as int)),
            legacy <==> exists|j: int|
                0 <= j < i && (#[trigger] frames[j]).header.message_type
                    == MessageType::DigitalRadarDataLegacy,
        decreases messages@.len() - i,
    {
        assert(messages@[i as int].is_of(frames[i as int]));
        if messages[i].header.message_type == MessageType::DigitalRadarDataLegacy {
            legacy = true;
            assert(frames[i as int].header.message_type == MessageType::DigitalRadarDataLegacy);
        }
        match &messages[i].payload {
            MessagePayload::Msg31(m) => {
                radials.push(&**m);
            },
            _ => {},
        }
        i += 1;
    }
    if radials.len() == 0 && legacy {
        let text: &str = "this input carries legacy MSG_1 radials (pre-Build-12, before March 2012); the per-moment demultiplexer only supports MSG_31. Use radish.open_datatree() for these files.";
        return Err(RadishError::Unsupported(text.to_owned()));
    }
    Ok(radials)
}

/// The output that a record's radials make up.
pub open spec fn demuxed(bodies: Seq<Seq<u8>>, o: DemuxOptions) -> Seq<int> {
    cells(rows_in(bodies, o.moment), o.rays as int, o)
}

/// A request that passes the checks which come before the output array is
/// allocated.
pub open spec fn record_admitted(d: Seq<u8>, o: DemuxOptions) -> bool {
    &&& validation_error(o) is None
    &&& stream_bodies(d) is Ok
    &&& stream_bodies(d)->Ok_0.len() <= o.rays
}

/// A request that succeeds if the memory for the output array is to be had.
pub open spec fn record_demuxes(d: Seq<u8>, o: DemuxOptions) -> bool {
    &&& record_admitted(d, o)
    &&& rows_outcome(rows_in(stream_bodies(d)->Ok_0, o.moment), 0, None, o) is Ok
}

/// `e` is what is wrong with a request that does not succeed: the first of the
/// options, the stream, the row count and the blocks that is at fault.
pub open spec fn is_record_failure(e: RadishError, d: Seq<u8>, o: DemuxOptions) -> bool {
    match validation_error(o) {
        Some(x) => e == RadishError::MomentEncoding(x),
        None => match stream_bodies(d) {
            Err(f) => is_stream_error(e, f),
            Ok(bodies) => if bodies.len() > o.rays {
                e == RadishError::MomentEncoding(
                    MomentEncodingError::TooManyRadials {
                        rows: bodies.len() as usize,
                        rays: o.rays,
                    },
                )
            } else {
                match rows_outcome(rows_in(bodies, o.moment), 0, None, o) {
                    Err(x) => e == RadishError::MomentEncoding(x),
                    Ok(_) => false,
                }
            },
        },
    }
}

pub(crate) proof fn lemma_fill_is_cells(n: int, o: DemuxOptions)
    requires
        n >= 0,
    ensures
        Seq::new((n * o.gates) as nat, |i: int| o.fill_value as int) == cells(
            Seq::empty(),
            n,
            o,
        ),
{
    assert forall|c: int| 0 <= c < n * o.gates implies cells(Seq::empty(), n, o)[c]
        == o.fill_value by {
        if o.gates > 0 {
            lemma_cell_bounds(c, o.gates as int, n);
        }
    }
    assert(Seq::new((n * o.gates) as nat, |i: int| o.fill_value as int) =~= cells(
        Seq::empty(),
        n,
        o,
    ));
}

/// Demultiplex one moment out of a single decompressed record. A record
/// without radials gives an array of fill values.
pub fn decode_record_moment(record: &[u8], opts: &DemuxOptions) -> (r: Result<
    RawMoment,
    RadishError,
>)
    ensures
        match r {
            Ok(out) => {
                &&& record_demuxes(record@, *opts)
                &&& out.word() == opts.word
                &&& out.words() == demuxed(stream_bodies(record@)->Ok_0, *opts)
            },
            Err(e) => {
                ||| is_record_failure(e, record@, *opts)
                ||| record_admitted(record@, *opts) && is_allocation_failure(
                    e,
                    opts.rays * opts.gates,
                    opts.word,
                )
            },
        },
{
    opts.validate()?;
    let messages = match decode_messages(record) {
        Ok(m) => m,
        Err(e) => {
            return Err(decode_err(e));
        },
    };
    let ghost frames = message_frames(record@)->Ok_0;
    let radials = parse_radials(messages.as_slice(), Ghost(frames))?;
    let ghost bodies = radial_bodies(frames, frames.len() as int);
    opts.check_rows_fit(radials.len())?;
    proof {
        assert(0 <= opts.rays * opts.gates) by (nonlinear_arith);
    }
    let mut out = RawMoment::filled(opts.word, opts.rays * opts.gates, opts.fill_value)?;
    proof {
        lemma_fill_is_cells(opts.rays as int, *opts);
    }
    match write_radials(
        &mut out,
        radials.as_slice(),
        opts,
        Ghost(bodies),
        Ghost(opts.rays as int),
    ) {
        Ok(_) => Ok(out),
        Err(x) => Err(RadishError::MomentEncoding(x)),
    }
}

/// Each radial has its row, in order: the words of its block on the output
/// grid, padded with what raw `0` becomes, or the fill value throughout if it
/// lacks the moment.
pub proof fn each_radial_has_its_row(bodies: Seq<Seq<u8>>, o: DemuxOptions, row: int, gate: int)
    requires
        0 <= row < bodies.len() <= o.rays,
        0 <= gate < o.gates,
    ensures
        ({
            let word = demuxed(bodies, o)[row * o.gates + gate];
            match block_in(bodies[row], o.moment) {
                None => word == o.fill_value,
                Some(b) => {
                    let remap = remap_outcome(block_key(b.descriptor), o)->Ok_0;
                    word == remap.moved(
                        if gate < gates_present(b) {
                            gate_word(b.gates, b.descriptor.word_bytes(), gate)
                        } else {
                            0
                        },
                    )
                },
            }
        }),
{
    lemma_cell_index(row, o.gates as int, gate);
    lemma_row_end(row, o.gates as int, o.rays as int);
    assert(rows_in(bodies, o.moment)[row] == row_in(bodies[row], o.moment));
}

/// Without a target grid words are delivered as they were transmitted, but for
/// the bits that carry nothing, and rows are padded with raw `0`.
pub proof fn words_pass_through_without_a_target(key: EncodingKey, o: DemuxOptions, raw: int)
    requires
        o.target is None,
        remap_outcome(key, o) is Ok,
    ensures
        ({
            let remap = remap_outcome(key, o)->Ok_0;
            let mask = word_mask(o.moment, key.word_size);
            &&& remap.moved(0) == 0
            &&& remap.moved(raw) == (raw as u32) & mask
            &&& 0 <= raw <= mask ==> remap.moved(raw) == raw
        }),
{
    let remap = remap_outcome(key, o)->Ok_0;
    let kept = (raw as u32) & remap.mask;
    assert(kept * 1 == kept) by (nonlinear_arith);
    lemma_significant_bits(o.moment, key.word_size, 0);
    if 0 <= raw <= remap.mask {
        lemma_significant_bits(o.moment, key.word_size, raw as u32);
    }
}

/// Without a target grid a word comes out as it went in: every value of an 8-bit
/// word, and of a 16-bit word every value of 10 bits for differential phase, of
/// 11 bits for differential reflectivity and of 16 bits for the others. What a
/// 16-bit word holds above those bits is dropped.
pub proof fn words_come_out_as_they_went_in(key: EncodingKey, o: DemuxOptions, raw: int)
    requires
        o.target is None,
        remap_outcome(key, o) is Ok,
        0 <= raw <= 0xFFFF,
    ensures
        ({
            let out = remap_outcome(key, o)->Ok_0.moved(raw);
            &&& key.word_size == 8 && raw <= 255 ==> out == raw
            &&& key.word_size == 16 && o.moment == MomentSelector::Phi ==> out == raw % 1024
            &&& key.word_size == 16 && o.moment == MomentSelector::Zdr ==> out == raw % 2048
            &&& key.word_size == 16 && o.moment != MomentSelector::Phi && o.moment
                != MomentSelector::Zdr ==> out == raw
        }),
{
    words_pass_through_without_a_target(key, o, raw);
    let w = raw as u32;
    assert(w & 0x03FF == w % 1024) by (bit_vector);
    assert(w & 0x07FF == w % 2048) by (bit_vector);
    assert(w <= 0xFFFF ==> w & 0xFFFF == w) by (bit_vector);
    assert(w <= 0xFF ==> w & 0xFF == w) by (bit_vector);
}

/// A record's bytes come out of it: in a request that succeeds without a target
/// grid, gate `gate` of radial `row` is the byte, or the big-endian pair of
/// bytes, that its block transmits, and `0` behind the last gate.
#[verifier::rlimit(50)]
pub proof fn transmitted_gates_come_out(
    d: Seq<u8>,
    o: DemuxOptions,
    row: int,
    gate: int,
    b: MomentModel,
)
    requires
        record_demuxes(d, o),
        o.target is None,
        0 <= row < stream_bodies(d)->Ok_0.len(),
        0 <= gate < o.gates,
        block_in(stream_bodies(d)->Ok_0[row], o.moment) == Some(b),
    ensures
        ({
            let out = demuxed(stream_bodies(d)->Ok_0, o)[row * o.gates + gate];
            let size = b.descriptor.data_word_size_bits;
            &&& size == o.word.width()
            &&& size == 8 ==> out == (if gate < b.gates.len() {
                b.gates[gate] as int
            } else {
                0
            })
            &&& size == 16 ==> out == (if gate < b.gates.len() as int / 2 {
                (b.gates[2 * gate] * 256 + b.gates[2 * gate + 1]) % (match o.moment {
                    MomentSelector::Phi => 1024,
                    MomentSelector::Zdr => 2048,
                    _ => 65536int,
                })
            } else {
                0
            })
        }),
{
    let bodies = stream_bodies(d)->Ok_0;
    let rows = rows_in(bodies, o.moment);
    let key = block_key(b.descriptor);
    assert(rows[row] == row_in(bodies[row], o.moment));
    each_radial_has_its_row(bodies, o, row, gate);
    lemma_written_row_resolves(rows, 0, None, o, row);
    let raw = if gate < gates_present(b) {
        gate_word(b.gates, b.descriptor.word_bytes(), gate)
    } else {
        0
    };
    words_come_out_as_they_went_in(key, o, raw);
}

/// The block of a row that is written resolves.
proof fn lemma_written_row_resolves(
    rows: Seq<RowModel>,
    k: int,
    pinned: Option<EncodingKey>,
    o: DemuxOptions,
    i: int,
)
    requires
        0 <= k <= i < rows.len(),
        rows_outcome(rows, k, pinned, o) is Ok,
        rows[i].block is Some,
    ensures
        remap_outcome(block_key(rows[i].block->0.descriptor), o) is Ok,
        gates_present(rows[i].block->0) <= o.gates,
    decreases rows.len() - k,
{
    if k < i {
        let next = match rows[k].block {
            Some(b) => Some(block_key(b.descriptor)),
            None => pinned,
        };
        lemma_written_row_resolves(rows, k + 1, next, o, i);
    }
}

/// Two runs of messages, one behind the other, give the radials of the first and
/// then those of the second.
pub proof fn radials_keep_the_order_of_the_messages(a: Seq<Frame>, b: Seq<Frame>)
    ensures
        radial_bodies(a + b, (a + b).len() as int) == radial_bodies(a, a.len() as int)
            + radial_bodies(b, b.len() as int),
    decreases b.len(),
{
    let n = (a + b).len() as int;
    if b.len() == 0 {
        assert(a + b =~= a);
        assert(radial_bodies(a, n) + Seq::<Seq<u8>>::empty() =~= radial_bodies(a, n));
    } else {
        let rest = b.drop_last();
        radials_keep_the_order_of_the_messages(a, rest);
        lemma_bodies_prefix(a + b, a + rest, n - 1);
        lemma_bodies_prefix(b, rest, b.len() - 1);
        assert((a + b)[n - 1] == b.last());
        let (x, y) = (radial_bodies(a, a.len() as int), radial_bodies(rest, rest.len() as int));
        assert((x + y).push(b.last().body) =~= x + y.push(b.last().body));
    }
}

proof fn lemma_bodies_prefix(a: Seq<Frame>, b: Seq<Frame>, n: int)
    requires
        n <= a.len(),
        n <= b.len(),
        forall|i: int| 0 <= i < n ==> #[trigger] a[i] == b[i],
    ensures
        radial_bodies(a, n) == radial_bodies(b, n),
    decreases n,
{
    if n > 0 {
        lemma_bodies_prefix(a, b, n - 1);
    }
}

/// The demultiplexer and the decoder see the same radials: those of the messages
/// that both read, in the same order, where there are no legacy ones.
#[verifier::rlimit(50)]
pub proof fn the_decoder_sees_the_same_radials(frames: Seq<Frame>, n: int)
    requires
        0 <= n <= frames.len(),
        !has_legacy(frames),
    ensures
        frames_parts(frames, n).radials == radial_bodies(frames, n).map_values(
            |body: Seq<u8>| radial_at_msg31(body),
        ),
    decreases n,
{
    let f = |body: Seq<u8>| radial_at_msg31(body);
    if n > 0 {
        the_decoder_sees_the_same_radials(frames, n - 1);
        let frame = frames[n - 1];
        assert(frame.header.message_type != MessageType::DigitalRadarDataLegacy);
        let before = radial_bodies(frames, n - 1);
        if is_radial(frame) {
            assert(before.push(frame.body).map_values(f) =~= before.map_values(f).push(
                radial_at_msg31(frame.body),
            ));
            assert(before.map_values(f) + seq![radial_at_msg31(frame.body)] =~= before.map_values(
                f,
            ).push(radial_at_msg31(frame.body)));
        } else {
            assert(before.map_values(f) + Seq::<RadialModel>::empty() =~= before.map_values(f));
        }
    } else {
        assert(radial_bodies(frames, n).map_values(f) =~= Seq::empty());
    }
}

/// A row has the azimuth of its radial and the block of the moment that was
/// asked for.
pub proof fn rows_are_those_of_their_radials(body: Seq<u8>, moment: MomentSelector)
    ensures
        ({
            let (row, r) = (row_in(body, moment), radial_at_msg31(body));
            &&& row.azimuth == r.azimuth_angle_degrees
            &&& row.block == (match moment {
                MomentSelector::Ref => r.reflectivity,
                MomentSelector::Vel => r.velocity,
                MomentSelector::Sw => r.spectrum_width,
                MomentSelector::Zdr => r.differential_reflectivity,
                MomentSelector::Phi => r.differential_phase,
                MomentSelector::Rho => r.correlation_coefficient,
                MomentSelector::Cfp => r.clutter_filter_power,
            })
        }),
{
}

/// A request is met, if the memory is to be had, exactly if its shape is
/// accepted, the stream has radials to give or none at all, each has a row, and
/// each row can be written; without a target grid all blocks share an encoding.
pub proof fn requests_are_met_if_every_row_can_be(d: Seq<u8>, o: DemuxOptions)
    ensures
        record_demuxes(d, o) <==> {
            let rows = rows_in(stream_bodies(d)->Ok_0, o.moment);
            &&& validation_error(o) is None
            &&& stream_bodies(d) is Ok
            &&& rows.len() <= o.rays
            &&& forall|i: int| 0 <= i < rows.len() ==> row_is_writable(#[trigger] rows[i], o)
            &&& o.target is None ==> forall|i: int, j: int|
                0 <= i < rows.len() && 0 <= j < rows.len() ==> !rows_differ(
                    #[trigger] rows[i],
                    #[trigger] rows[j],
                )
        },
{
    rows_are_written_if_each_can_be(rows_in(stream_bodies(d)->Ok_0, o.moment), o);
}

/// A request is refused for its options first, then for its stream, then for its
/// radials, whatever the blocks hold.
pub proof fn requests_are_refused_in_order(e: RadishError, d: Seq<u8>, o: DemuxOptions)
    requires
        is_record_failure(e, d, o),
    ensures
        validation_error(o) matches Some(x) ==> e == RadishError::MomentEncoding(x),
        validation_error(o) is None ==> {
            &&& stream_bodies(d) matches Err(f) ==> is_stream_error(e, f)
            &&& stream_bodies(d) is Ok && o.rays < stream_bodies(d)->Ok_0.len() <= usize::MAX ==> e
                == RadishError::MomentEncoding(
                MomentEncodingError::TooManyRadials {
                    rows: stream_bodies(d)->Ok_0.len() as usize,
                    rays: o.rays,
                },
            )
        },
{
}

/// A stream that can be walked is refused if it holds legacy radials and not one
/// of the generic format; it is not refused for anything else.
#[verifier::rlimit(50)]
pub proof fn only_legacy_streams_are_refused(d: Seq<u8>)
    requires
        message_frames(d) is Ok,
    ensures
        stream_bodies(d) is Err <==> {
            let frames = message_frames(d)->Ok_0;
            &&& exists|i: int|
                0 <= i < frames.len() && (#[trigger] frames[i]).header.message_type
                    == MessageType::DigitalRadarDataLegacy
            &&& forall|i: int|
                0 <= i < frames.len() ==> !((#[trigger] frames[i]).header.message_type
                    == MessageType::DigitalRadarDataGenericFormat && msg31_outcome(
                    frames[i].body,
                    0,
                    0,
                ) is Ok)
        },
{
    let frames = message_frames(d)->Ok_0;
    lemma_no_radials(frames, frames.len() as int);
}

proof fn lemma_no_radials(frames: Seq<Frame>, n: int)
    requires
        0 <= n <= frames.len(),
    ensures
        radial_bodies(frames, n).len() == 0 <==> forall|i: int|
            0 <= i < n ==> !is_radial(#[trigger] frames[i]),
    decreases n,
{
    if n > 0 {
        lemma_no_radials(frames, n - 1);
        if is_radial(frames[n - 1]) {
            assert(!(forall|i: int| 0 <= i < n ==> !is_radial(#[trigger] frames[i])));
        }
    }
}

/// On a target grid gate `gate` of radial `row` keeps the physical value that its
/// block transmits; behind the last gate stands what raw `0` becomes, and a radial
/// without the moment has the fill value throughout.
#[verifier::rlimit(50)]
pub proof fn transmitted_values_come_out_on_the_target_grid(
    d: Seq<u8>,
    target: TargetEncoding,
    o: DemuxOptions,
    row: int,
    gate: int,
)
    requires
        record_demuxes(d, o),
        o.target == Some(target),
        0 <= row < stream_bodies(d)->Ok_0.len(),
        0 <= gate < o.gates,
    ensures
        ({
            let out = demuxed(stream_bodies(d)->Ok_0, o)[row * o.gates + gate];
            match block_in(stream_bodies(d)->Ok_0[row], o.moment) {
                None => out == o.fill_value,
                Some(b) => {
                    let m = b.descriptor;
                    let raw = if m.data_word_size_bits == 16 && gate < b.gates.len() as int / 2 {
                        b.gates[2 * gate] * 256 + b.gates[2 * gate + 1]
                    } else if m.data_word_size_bits == 8 && gate < b.gates.len() {
                        b.gates[gate] as int
                    } else {
                        0
                    };
                    (m.data_word_size_bits == 8 || m.data_word_size_bits == 16) && raw
                        < significant_values(o.moment, m.data_word_size_bits) ==> (out * pow2(149)
                        - scaled(target.offset)) * scaled(m.scale) == (raw * pow2(149) - scaled(
                        m.offset,
                    )) * scaled(target.scale)
                },
            }
        }),
{
    let bodies = stream_bodies(d)->Ok_0;
    let rows = rows_in(bodies, o.moment);
    assert(rows[row] == row_in(bodies[row], o.moment));
    each_radial_has_its_row(bodies, o, row, gate);
    if let Some(b) = block_in(bodies[row], o.moment) {
        lemma_written_row_resolves(rows, 0, None, o, row);
        let m = b.descriptor;
        if m.data_word_size_bits == 8 || m.data_word_size_bits == 16 {
            let raw = if gate < gates_present(b) {
                gate_word(b.gates, m.word_bytes(), gate)
            } else {
                0
            };
            if raw < significant_values(o.moment, m.data_word_size_bits) {
                moved_words_keep_their_physical_value(m, target, o, raw);
            }
        }
    }
}

} // verus!
