//! One moment out of a span of compressed records.

use crate::backends::common::buffer::lemma_cell_bounds;
use crate::backends::common::sort::{
    angle_keys, angle_order, is_ascending_arrangement, is_stable_order,
    key_order_arranges_by_number, precedes, reordering_keeps_items,
};
use crate::backends::nexrad::decode::error::NexradDecodeError;
use crate::backends::nexrad::decode::messages::{decode_messages, message_frames};
use crate::backends::nexrad::decode::{
    each_record_parts, file_parts, joined_parts, one_record_contributes_its_parts, parts_decode,
    raw_body, record_decodes, stream_parts,
};
use crate::backends::nexrad::decode::record::{
    bunzip2, decompress_all, is_decompressed, is_raw_archive2, ldm_records, raw_archive2,
    raw_archive2_body, split_ldm_records, RecordSpan,
};
use crate::backends::nexrad::demux::options::{
    is_allocation_failure, validation_error, DemuxOptions, RawMoment,
};
use crate::backends::nexrad::demux::record::{
    decode_err, demuxed, is_stream_error, lemma_fill_is_cells, parse_radials, radial_bodies, radial_is,
    radials_are, record_demuxes, rows_in, stream_bodies, write_radials, StreamFailure,
};
use crate::backends::nexrad::demux::rows::{
    cells, lemma_cell_index, lemma_row_end, row_cell, rows_outcome,
};
use crate::errors::{EncodingKey, MomentEncodingError, RadishError};
use crate::wire::be32;
use vstd::slice::slice_to_vec;
use vstd::prelude::*;

verus! {

/// The span is one raw stream, or records that all decompress.
pub open spec fn span_decompresses(span: Seq<u8>) -> bool {
    raw_archive2(span) || (ldm_records(span) is Ok && forall|i: int|
        0 <= i < ldm_records(span)->Ok_0.len() ==> bunzip2(
            (#[trigger] ldm_records(span)->Ok_0[i]).compressed,
        ) is Ok)
}

/// The message streams of a span that decompresses.
pub open spec fn span_streams(span: Seq<u8>) -> Seq<Seq<u8>> {
    if raw_archive2(span) {
        seq![raw_body(span)]
    } else {
        ldm_records(span)->Ok_0.map_values(|r: RecordSpan| bunzip2(r.compressed)->Ok_0)
    }
}

/// `e` reports why a span does not decompress. Of several damaged records any
/// one may be named.
pub open spec fn is_span_error(e: RadishError, span: Seq<u8>) -> bool {
    match ldm_records(span) {
        Err(split) => is_stream_error(e, StreamFailure::Decode(split)),
        Ok(records) => exists|i: int, inner: NexradDecodeError|
            0 <= i < records.len() && #[trigger] is_decompressed(
                Err(inner),
                records[i].offset,
                records[i].compressed,
            ) && is_stream_error(e, StreamFailure::Decode(inner)),
    }
}

/// The contents of byte vectors.
pub open spec fn byte_strings(v: Seq<Vec<u8>>) -> Seq<Seq<u8>> {
    v.map_values(|x: Vec<u8>| x@)
}

/// Decompress the records of a span, in parallel, preserving record order. A
/// raw Archive II file is one stream and needs no decompression.
pub fn decompress_span(span: &[u8]) -> (r: Result<Vec<Vec<u8>>, RadishError>)
    ensures
        match r {
            Ok(streams) => {
                &&& span_decompresses(span@)
                &&& byte_strings(streams@) == span_streams(span@)
            },
            Err(e) => !span_decompresses(span@) && is_span_error(e, span@),
        },
{
    if is_raw_archive2(span) {
        let body = match raw_archive2_body(span) {
            Ok(b) => b,
            Err(e) => {
                return Err(decode_err(e));
            },
        };
        let mut streams: Vec<Vec<u8>> = Vec::new();
        streams.push(slice_to_vec(body));
        assert(byte_strings(streams@) =~= span_streams(span@));
        return Ok(streams);
    }
    let records = match split_ldm_records(span) {
        Ok(records) => records,
        Err(e) => {
            return Err(decode_err(e));
        },
    };
    let ghost spans = ldm_records(span@)->Ok_0;
    proof {
        assert forall|i: int| 0 <= i < spans.len() implies (#[trigger] records@[i]).compressed@
            == spans[i].compressed && records@[i].offset == spans[i].offset by {
            assert(records@[i].is(spans[i]));
        }
    }
    match decompress_all(records.as_slice()) {
        Ok(streams) => {
            proof {
                assert forall|i: int| 0 <= i < spans.len() implies bunzip2(
                    (#[trigger] spans[i]).compressed,
                ) == Ok::<Seq<u8>, Seq<char>>(streams@[i]@) by {
                    assert(records@[i].compressed@ == spans[i].compressed);
                }
                assert(byte_strings(streams@) =~= span_streams(span@));
            }
            Ok(streams)
        },
        Err(e) => {
            proof {
                let i = choose|i: int|
                    0 <= i < records@.len() && is_decompressed(
                        Err(e),
                        (#[trigger] records@[i]).offset as int,
                        records@[i].compressed@,
                    );
                assert(is_decompressed(Err(e), spans[i].offset, spans[i].compressed));
                assert(bunzip2(spans[i].compressed) is Err);
            }
            Err(decode_err(e))
        },
    }
}

/// The azimuths of radials.
pub open spec fn azimuths_in(bodies: Seq<Seq<u8>>) -> Seq<u32> {
    bodies.map_values(|body: Seq<u8>| be32(body, 12))
}

/// One stream's rows, with the azimuths that go with them if a sort needs
/// them, and the encoding that its blocks settled on.
struct RecordRows {
    data: RawMoment,
    azimuth: Vec<u32>,
    rows: usize,
    encoding: Option<EncodingKey>,
}

impl RecordRows {
    /// `self` holds the rows of these radials.
    #[verifier::opaque]
    spec fn is_of(&self, bodies: Seq<Seq<u8>>, o: DemuxOptions, want_azimuth: bool) -> bool {
        &&& self.rows == bodies.len()
        &&& self.data.word() == o.word
        &&& self.data.words() == cells(rows_in(bodies, o.moment), bodies.len() as int, o)
        &&& want_azimuth ==> self.azimuth@ == azimuths_in(bodies)
        &&& rows_outcome(rows_in(bodies, o.moment), 0, None, o) == Ok::<
            Option<EncodingKey>,
            MomentEncodingError,
        >(self.encoding)
    }
}

/// A stream has its rows demultiplexed if those of the streams before it leave
/// room.
pub open spec fn stream_fits(d: Seq<u8>, prior: int, o: DemuxOptions) -> bool {
    &&& stream_bodies(d) is Ok
    &&& prior + stream_bodies(d)->Ok_0.len() <= o.rays
}

/// A stream that has its rows demultiplexed if the memory is to be had.
#[verifier::opaque]
pub open spec fn stream_demuxes(d: Seq<u8>, prior: int, o: DemuxOptions) -> bool {
    &&& stream_fits(d, prior, o)
    &&& rows_outcome(rows_in(stream_bodies(d)->Ok_0, o.moment), 0, None, o) is Ok
}

/// `e` is what is wrong with a stream that follows `prior` rows.
#[verifier::opaque]
pub open spec fn is_stream_failure(e: RadishError, d: Seq<u8>, prior: int, o: DemuxOptions) -> bool {
    match stream_bodies(d) {
        Err(f) => is_stream_error(e, f),
        Ok(bodies) => if prior + bodies.len() > o.rays {
            e == RadishError::MomentEncoding(
                MomentEncodingError::TooManyRadials {
                    rows: (if bodies.len() > o.rays {
                        bodies.len() as int
                    } else {
                        prior + bodies.len()
                    }) as usize,
                    rays: o.rays,
                },
            )
        } else {
            match rows_outcome(rows_in(bodies, o.moment), 0, None, o) {
                Err(x) => e == RadishError::MomentEncoding(x),
                Ok(_) => false,
            }
        },
    }
}

/// Demultiplex one stream. `prior` rows have been found before it; together
/// they must fit the output before anything is allocated.
fn demux_message_stream(
    stream: &[u8],
    o: &DemuxOptions,
    want_azimuth: bool,
    prior: usize,
) -> (r: Result<RecordRows, RadishError>)
    requires
        validation_error(*o) is None,
        prior <= o.rays,
    ensures
        match r {
            Ok(rows) => {
                &&& stream_demuxes(stream@, prior as int, *o)
                &&& rows.is_of(stream_bodies(stream@)->Ok_0, *o, want_azimuth)
                &&& rows.rows == stream_bodies(stream@)->Ok_0.len()
                &&& prior + rows.rows <= o.rays
            },
            Err(e) => {
                ||| !stream_demuxes(stream@, prior as int, *o) && is_stream_failure(
                    e,
                    stream@,
                    prior as int,
                    *o,
                )
                ||| stream_fits(stream@, prior as int, *o) && is_allocation_failure(
                    e,
                    stream_bodies(stream@)->Ok_0.len() * o.gates,
                    o.word,
                )
            },
        },
{
    proof {
        reveal(RecordRows::is_of);
        reveal(stream_demuxes);
        reveal(is_stream_failure);
    }
    let messages = match decode_messages(stream) {
        Ok(m) => m,
        Err(e) => {
            return Err(decode_err(e));
        },
    };
    let ghost frames = message_frames(stream@)->Ok_0;
    let radials = parse_radials(messages.as_slice(), Ghost(frames))?;
    let ghost bodies = radial_bodies(frames, frames.len() as int);
    let rows: usize = radials.len();
    o.check_rows_fit(rows)?;
    proof {
        assert(o.rays <= o.rays * o.gates) by (nonlinear_arith)
            requires
                o.gates >= 1,
                o.rays >= 0,
        ;
    }
    o.check_rows_fit(prior + rows)?;
    proof {
        assert(0 <= rows * o.gates <= o.rays * o.gates) by (nonlinear_arith)
            requires
                0 <= rows <= o.rays,
                0 <= o.gates,
        ;
    }
    let mut data = RawMoment::filled(o.word, rows * o.gates, o.fill_value)?;
    proof {
        lemma_fill_is_cells(rows as int, *o);
    }
    let encoding = match write_radials(
        &mut data,
        radials.as_slice(),
        o,
        Ghost(bodies),
        Ghost(rows as int),
    ) {
        Ok(k) => k,
        Err(x) => {
            return Err(RadishError::MomentEncoding(x));
        },
    };
    let mut azimuth: Vec<u32> = Vec::new();
    if want_azimuth {
        let mut i: usize = 0;
        while i < rows
            invariant
                i <= rows,
                rows == radials@.len(),
                radials_are(radials@, bodies),
                azimuth@.len() == i,
                forall|j: int| 0 <= j < i ==> azimuth@[j] == azimuths_in(bodies)[j],
            decreases rows - i,
        {
            assert(radial_is(*radials@[i as int], bodies[i as int]));
            azimuth.push(radials[i].header.azimuth_angle_degrees);
            i += 1;
        }
        assert(azimuth@ =~= azimuths_in(bodies));
    }
    Ok(RecordRows { data, azimuth, rows, encoding })
}

/// The radials of the first `n` streams, one stream behind the other.
pub open spec fn joined_bodies(streams: Seq<Seq<u8>>, n: int) -> Seq<Seq<u8>>
    decreases n,
{
    if n <= 0 {
        Seq::empty()
    } else {
        joined_bodies(streams, n - 1) + stream_bodies(streams[n - 1])->Ok_0
    }
}

/// The first `n` streams have their rows demultiplexed if the memory is to be
/// had.
pub open spec fn streams_demux(streams: Seq<Seq<u8>>, n: int, o: DemuxOptions) -> bool {
    forall|i: int|
        0 <= i < n ==> stream_demuxes(
            #[trigger] streams[i],
            joined_bodies(streams, i).len() as int,
            o,
        )
}

/// The encoding that a stream's blocks settled on.
pub open spec fn stream_key(d: Seq<u8>, o: DemuxOptions) -> Option<EncodingKey> {
    rows_outcome(rows_in(stream_bodies(d)->Ok_0, o.moment), 0, None, o)->Ok_0
}

/// What is wrong between streams from the `k`-th on, each sound in itself:
/// without a target grid they must share one encoding. `seen` is that of the
/// streams before.
pub open spec fn cross_error(
    streams: Seq<Seq<u8>>,
    k: int,
    seen: Option<EncodingKey>,
    o: DemuxOptions,
) -> Option<MomentEncodingError>
    decreases streams.len() - k,
{
    if o.target is Some || k >= streams.len() {
        None
    } else {
        let key = stream_key(streams[k], o);
        if seen is Some && key is Some && seen != key {
            Some(
                MomentEncodingError::MixedEncodings {
                    moment: o.moment,
                    first: seen->0,
                    next: key->0,
                },
            )
        } else {
            cross_error(
                streams,
                k + 1,
                if seen is Some {
                    seen
                } else {
                    key
                },
                o,
            )
        }
    }
}

/// A sweep request that succeeds if the memory is to be had.
pub open spec fn sweep_demuxes(span: Seq<u8>, o: DemuxOptions) -> bool {
    &&& validation_error(o) is None
    &&& span_decompresses(span)
    &&& streams_demux(span_streams(span), span_streams(span).len() as int, o)
    &&& cross_error(span_streams(span), 0, None, o) is None
}

/// `e` is what is wrong with the first stream that is at fault.
pub open spec fn is_first_stream_failure(
    e: RadishError,
    streams: Seq<Seq<u8>>,
    i: int,
    o: DemuxOptions,
) -> bool {
    let prior = joined_bodies(streams, i).len() as int;
    &&& 0 <= i < streams.len()
    &&& streams_demux(streams, i, o)
    &&& !stream_demuxes(streams[i], prior, o)
    &&& is_stream_failure(e, streams[i], prior, o)
}

/// `e` is what is wrong with a sweep request that does not succeed: the first
/// of the options, the records, the streams in order and their common encoding
/// that is at fault.
pub open spec fn is_sweep_failure(e: RadishError, span: Seq<u8>, o: DemuxOptions) -> bool {
    let streams = span_streams(span);
    if validation_error(o) is Some {
        e == RadishError::MomentEncoding(validation_error(o)->0)
    } else if !span_decompresses(span) {
        is_span_error(e, span)
    } else if !streams_demux(streams, streams.len() as int, o) {
        exists|i: int| #[trigger] is_first_stream_failure(e, streams, i, o)
    } else {
        cross_error(streams, 0, None, o) is Some && e == RadishError::MomentEncoding(
            cross_error(streams, 0, None, o)->0,
        )
    }
}

/// `e` says that the memory for the rows of stream `i` is not to be had: the
/// streams before it are sound, and its own radials can be read and fit the
/// rows that are left.
pub open spec fn is_stream_allocation(
    e: RadishError,
    streams: Seq<Seq<u8>>,
    i: int,
    o: DemuxOptions,
) -> bool {
    &&& 0 <= i < streams.len()
    &&& streams_demux(streams, i, o)
    &&& stream_fits(streams[i], joined_bodies(streams, i).len() as int, o)
    &&& is_allocation_failure(e, stream_bodies(streams[i])->Ok_0.len() * o.gates, o.word)
}

/// Radials in another order.
pub open spec fn reordered(bodies: Seq<Seq<u8>>, order: Seq<usize>) -> Seq<Seq<u8>> {
    Seq::new(order.len(), |i: int| bodies[order[i] as int])
}

/// `words` is the output array of these radials: in the order given or, sorted,
/// in stable ascending order of their azimuths.
pub open spec fn is_sweep_output(
    words: Seq<int>,
    bodies: Seq<Seq<u8>>,
    o: DemuxOptions,
    sort_by_azimuth: bool,
) -> bool {
    if sort_by_azimuth {
        exists|order: Seq<usize>|
            #[trigger] is_stable_order(order, angle_keys(azimuths_in(bodies))) && words == demuxed(
                reordered(bodies, order),
                o,
            )
    } else {
        words == demuxed(bodies, o)
    }
}

/// `records` hold the rows of the streams.
spec fn records_are(
    records: Seq<RecordRows>,
    streams: Seq<Seq<u8>>,
    o: DemuxOptions,
    want_azimuth: bool,
) -> bool {
    &&& records.len() == streams.len()
    &&& forall|i: int|
        0 <= i < streams.len() ==> (#[trigger] records[i]).is_of(
            stream_bodies(streams[i])->Ok_0,
            o,
            want_azimuth,
        )
}

/// Find out whether streams that are each sound in themselves share one
/// encoding, where there is no target grid.
fn check_common_encoding(
    records: &[RecordRows],
    o: &DemuxOptions,
    Ghost(streams): Ghost<Seq<Seq<u8>>>,
    Ghost(want_azimuth): Ghost<bool>,
) -> (r: Result<(), MomentEncodingError>)
    requires
        records_are(records@, streams, *o, want_azimuth),
    ensures
        match r {
            Ok(_) => cross_error(streams, 0, None, *o) is None,
            Err(x) => cross_error(streams, 0, None, *o) == Some(x),
        },
{
    if o.target.is_some() {
        return Ok(());
    }
    let mut seen: Option<EncodingKey> = None;
    let mut k: usize = 0;
    while k < records.len()
        invariant
            k <= records@.len(),
            records_are(records@, streams, *o, want_azimuth),
            o.target is None,
            cross_error(streams, 0, None, *o) == cross_error(streams, k as int, seen, *o),
        decreases records@.len() - k,
    {
        proof {
            reveal(RecordRows::is_of);
            assert(records@[k as int].is_of(
                stream_bodies(streams[k as int])->Ok_0,
                *o,
                want_azimuth,
            ));
        }
        let next = records[k].encoding;
        match (seen, next) {
            (Some(first), Some(key)) => {
                if first != key {
                    return Err(
                        MomentEncodingError::MixedEncodings {
                            moment: o.moment,
                            first,
                            next: key,
                        },
                    );
                }
            },
            (None, Some(key)) => {
                seen = Some(key);
            },
            _ => {},
        }
        k += 1;
    }
    Ok(())
}

proof fn lemma_block_of_cells(
    bodies: Seq<Seq<u8>>,
    more: Seq<Seq<u8>>,
    n: int,
    o: DemuxOptions,
    after: Seq<int>,
)
    requires
        o.gates > 0,
        bodies.len() + more.len() <= n,
        after.len() == n * o.gates,
        forall|c: int|
            0 <= c < after.len() && !(bodies.len() * o.gates <= c < bodies.len() * o.gates
                + more.len() * o.gates) ==> #[trigger] after[c] == cells(
                rows_in(bodies, o.moment),
                n,
                o,
            )[c],
        forall|j: int|
            0 <= j < more.len() * o.gates ==> #[trigger] after[bodies.len() * o.gates + j]
                == cells(rows_in(more, o.moment), more.len() as int, o)[j],
    ensures
        after == cells(rows_in(bodies + more, o.moment), n, o),
{
    let gates = o.gates as int;
    let (a, b) = (bodies.len() as int, more.len() as int);
    let expected = cells(rows_in(bodies + more, o.moment), n, o);
    assert forall|c: int| 0 <= c < after.len() implies after[c] == expected[c] by {
        lemma_cell_bounds(c, gates, n);
        let (r, g) = (c / gates, c % gates);
        if a <= r < a + b {
            let j = c - a * gates;
            assert(j == (r - a) * gates + g) by (nonlinear_arith)
                requires
                    j == c - a * gates,
                    c == r * gates + g,
            ;
            lemma_row_end(r - a, gates, b);
            lemma_cell_index(r - a, gates, g);
            assert(after[a * gates + j] == cells(rows_in(more, o.moment), b, o)[j]);
        } else {
            assert(!(a * gates <= c < a * gates + b * gates)) by {
                if r < a {
                    lemma_row_end(r, gates, a);
                } else {
                    assert(r * gates >= (a + b) * gates) by (nonlinear_arith)
                        requires
                            r >= a + b,
                            gates > 0,
                    ;
                    assert((a + b) * gates == a * gates + b * gates) by (nonlinear_arith);
                }
            }
        }
    }
    assert(after =~= expected);
}

impl RawMoment {
    /// Copy `src`, a run of whole rows, to the rows from `start` words on.
    fn blit_rows(&mut self, src: &RawMoment, start: usize)
        requires
            old(self).word() == src.word(),
            start + src.words().len() <= old(self).words().len() <= usize::MAX,
        ensures
            final(self).word() == old(self).word(),
            final(self).words().len() == old(self).words().len(),
            forall|c: int|
                0 <= c < old(self).words().len() && !(start <= c < start + src.words().len())
                    ==> #[trigger] final(self).words()[c] == old(self).words()[c],
            forall|j: int|
                0 <= j < src.words().len() ==> #[trigger] final(self).words()[start + j]
                    == src.words()[j],
    {
        let ghost before = self.words();
        let n: usize = src.len();
        let mut k: usize = 0;
        while k < n
            invariant
                k <= n,
                n == src.words().len(),
                self.word() == src.word(),
                self.word() == old(self).word(),
                self.words().len() == before.len(),
                start + n <= before.len() <= usize::MAX,
                forall|c: int|
                    0 <= c < before.len() && !(start <= c < start + k)
                        ==> #[trigger] self.words()[c] == before[c],
                forall|j: int| 0 <= j < k ==> #[trigger] self.words()[start + j] == src.words()[j],
            decreases n - k,
        {
            let v: u32 = src.get(k);
            let ghost mid = self.words();
            self.set(start + k, v);
            assert forall|j: int| 0 <= j < k + 1 implies #[trigger] self.words()[start + j]
                == src.words()[j] by {
                if j < k {
                    assert(mid[start + j] == src.words()[j]);
                }
            }
            k += 1;
        }
    }

    /// Put the first `order.len()` rows in the order given; rows behind them
    /// stay.
    fn permute_rows(&mut self, order: &[usize], gates: usize)
        requires
            gates > 0,
            order@.len() * gates <= old(self).words().len() <= usize::MAX,
            forall|i: int| 0 <= i < order@.len() ==> (#[trigger] order@[i]) < order@.len(),
        ensures
            final(self).word() == old(self).word(),
            final(self).words() == permuted(old(self).words(), order@, gates as int),
    {
        let ghost before = self.words();
        match self {
            RawMoment::U8(v) => {
                permute_words(v, order, gates);
            },
            RawMoment::U16(v) => {
                permute_words(v, order, gates);
            },
        }
        assert(self.words() =~= permuted(before, order@, gates as int)) by {
            lemma_permuted_in_range(before.len() as int, order@, gates as int);
        }
    }
}

/// Words with the first rows in the order given.
pub open spec fn permuted<T>(words: Seq<T>, order: Seq<usize>, gates: int) -> Seq<T> {
    Seq::new(
        words.len(),
        |c: int|
            if c < order.len() * gates {
                words[order[c / gates] * gates + c % gates]
            } else {
                words[c]
            },
    )
}

proof fn lemma_permuted_in_range(len: int, order: Seq<usize>, gates: int)
    requires
        gates > 0,
        order.len() * gates <= len,
        forall|i: int| 0 <= i < order.len() ==> (#[trigger] order[i]) < order.len(),
    ensures
        forall|c: int|
            0 <= c < order.len() * gates ==> 0 <= #[trigger] (order[c / gates] * gates + c % gates)
                < len,
{
    assert forall|c: int| 0 <= c < order.len() * gates implies 0 <= #[trigger] (order[c / gates]
        * gates + c % gates) < len by {
        lemma_cell_bounds(c, gates, order.len() as int);
        lemma_row_end(order[c / gates] as int, gates, order.len() as int);
    }
}

fn permute_words<T: Copy>(v: &mut Vec<T>, order: &[usize], gates: usize)
    requires
        gates > 0,
        order@.len() * gates <= old(v)@.len() <= usize::MAX,
        forall|i: int| 0 <= i < order@.len() ==> (#[trigger] order@[i]) < order@.len(),
    ensures
        final(v)@ == permuted(old(v)@, order@, gates as int),
{
    let ghost before = v@;
    let ghost n = order@.len() as int;
    let mut sorted: Vec<T> = Vec::new();
    let mut i: usize = 0;
    while i < order.len()
        invariant
            i <= order@.len(),
            n == order@.len(),
            gates > 0,
            v@ == before,
            n * gates <= before.len() <= usize::MAX,
            forall|i: int| 0 <= i < order@.len() ==> (#[trigger] order@[i]) < order@.len(),
            sorted@.len() == i * gates,
            forall|c: int|
                0 <= c < sorted@.len() ==> #[trigger] sorted@[c] == permuted(
                    before,
                    order@,
                    gates as int,
                )[c],
        decreases order@.len() - i,
    {
        proof {
            lemma_row_end(order@[i as int] as int, gates as int, n);
            lemma_row_end(i as int, gates as int, n);
        }
        let base: usize = order[i] * gates;
        let mut g: usize = 0;
        while g < gates
            invariant
                i < order@.len(),
                n == order@.len(),
                g <= gates,
                base == order@[i as int] * gates,
                base + gates <= before.len() <= usize::MAX,
                i * gates + gates <= n * gates <= before.len(),
                v@ == before,
                sorted@.len() == i * gates + g,
                forall|c: int|
                    0 <= c < sorted@.len() ==> #[trigger] sorted@[c] == permuted(
                        before,
                        order@,
                        gates as int,
                    )[c],
            decreases gates - g,
        {
            proof {
                lemma_cell_index(i as int, gates as int, g as int);
            }
            sorted.push(v[base + g]);
            g += 1;
        }
        i += 1;
        proof {
            assert(i * gates == (i - 1) * gates + gates) by (nonlinear_arith);
        }
    }
    let mut c: usize = 0;
    while c < sorted.len()
        invariant
            c <= sorted@.len() <= before.len(),
            sorted@.len() == n * gates,
            n == order@.len(),
            v@.len() == before.len(),
            forall|j: int|
                0 <= j < sorted@.len() ==> #[trigger] sorted@[j] == permuted(
                    before,
                    order@,
                    gates as int,
                )[j],
            forall|j: int| 0 <= j < c ==> #[trigger] v@[j] == sorted@[j],
            forall|j: int| c <= j < v@.len() ==> #[trigger] v@[j] == before[j],
        decreases sorted@.len() - c,
    {
        let x = sorted[c];
        v[c] = x;
        c += 1;
    }
    assert(v@ =~= permuted(before, order@, gates as int));
}

proof fn lemma_permuted_cells(bodies: Seq<Seq<u8>>, order: Seq<usize>, n: int, o: DemuxOptions)
    requires
        o.gates > 0,
        order.len() == bodies.len() <= n,
        forall|i: int| 0 <= i < order.len() ==> (#[trigger] order[i]) < order.len(),
    ensures
        permuted(cells(rows_in(bodies, o.moment), n, o), order, o.gates as int) == cells(
            rows_in(reordered(bodies, order), o.moment),
            n,
            o,
        ),
{
    let gates = o.gates as int;
    let words = cells(rows_in(bodies, o.moment), n, o);
    let expected = cells(rows_in(reordered(bodies, order), o.moment), n, o);
    let got = permuted(words, order, gates);
    let m = order.len() as int;
    assert forall|c: int| 0 <= c < expected.len() implies got[c] == expected[c] by {
        lemma_cell_bounds(c, gates, n);
        let (r, g) = (c / gates, c % gates);
        if r < m {
            lemma_row_end(r, gates, m);
            let from = order[r] as int;
            lemma_row_end(from, gates, n);
            lemma_cell_index(from, gates, g);
            assert(words[from * gates + g] == row_cell(rows_in(bodies, o.moment)[from], o, g));
        } else {
            assert(c >= m * gates) by (nonlinear_arith)
                requires
                    c == r * gates + g,
                    r >= m,
                    g >= 0,
                    gates > 0,
            ;
        }
    }
    assert(got =~= expected);
}

/// The radials of streams that demultiplex do not outnumber the rows.
proof fn lemma_rows_fit(streams: Seq<Seq<u8>>, n: int, o: DemuxOptions)
    requires
        0 <= n <= streams.len(),
        streams_demux(streams, streams.len() as int, o),
    ensures
        joined_bodies(streams, n).len() <= o.rays,
{
    if n > 0 {
        let prior = joined_bodies(streams, n - 1).len() as int;
        assert(stream_demuxes(streams[n - 1], prior, o));
        reveal(stream_demuxes);
    }
}

/// Put the rows of all streams into one array, in order, and sort them by
/// azimuth if asked to.
fn stitch(
    records: &[RecordRows],
    o: &DemuxOptions,
    sort_by_azimuth: bool,
    Ghost(streams): Ghost<Seq<Seq<u8>>>,
) -> (r: Result<RawMoment, RadishError>)
    requires
        validation_error(*o) is None,
        records_are(records@, streams, *o, sort_by_azimuth),
        streams_demux(streams, streams.len() as int, *o),
    ensures
        match r {
            Ok(out) => {
                &&& cross_error(streams, 0, None, *o) is None
                &&& out.word() == o.word
                &&& is_sweep_output(
                    out.words(),
                    joined_bodies(streams, streams.len() as int),
                    *o,
                    sort_by_azimuth,
                )
            },
            Err(e) => {
                ||| cross_error(streams, 0, None, *o) is Some && e == RadishError::MomentEncoding(
                    cross_error(streams, 0, None, *o)->0,
                )
                ||| cross_error(streams, 0, None, *o) is None && is_allocation_failure(
                    e,
                    o.rays * o.gates,
                    o.word,
                )
            },
        },
{
    match check_common_encoding(records, o, Ghost(streams), Ghost(sort_by_azimuth)) {
        Ok(_) => {},
        Err(x) => {
            return Err(RadishError::MomentEncoding(x));
        },
    }
    proof {
        assert(0 <= o.rays * o.gates) by (nonlinear_arith);
    }
    let mut out = RawMoment::filled(o.word, o.rays * o.gates, o.fill_value)?;
    proof {
        lemma_fill_is_cells(o.rays as int, *o);
        assert(rows_in(Seq::empty(), o.moment) =~= Seq::empty());
    }
    let mut azimuth: Vec<u32> = Vec::new();
    assert(azimuth@ =~= azimuths_in(joined_bodies(streams, 0)));
    let mut row: usize = 0;
    let mut k: usize = 0;
    while k < records.len()
        invariant
            k <= records@.len(),
            validation_error(*o) is None,
            records_are(records@, streams, *o, sort_by_azimuth),
            streams_demux(streams, streams.len() as int, *o),
            row == joined_bodies(streams, k as int).len(),
            out.word() == o.word,
            out.words() == cells(
                rows_in(joined_bodies(streams, k as int), o.moment),
                o.rays as int,
                *o,
            ),
            sort_by_azimuth ==> azimuth@ == azimuths_in(joined_bodies(streams, k as int)),
        decreases records@.len() - k,
    {
        let record = &records[k];
        let ghost bodies = joined_bodies(streams, k as int);
        let ghost more = stream_bodies(streams[k as int])->Ok_0;
        proof {
            reveal(RecordRows::is_of);
            assert(records@[k as int].is_of(more, *o, sort_by_azimuth));
            assert(joined_bodies(streams, k + 1) == bodies + more);
            lemma_rows_fit(streams, k + 1, *o);
            assert(row * o.gates + more.len() * o.gates <= o.rays * o.gates) by (nonlinear_arith)
                requires
                    row + more.len() <= o.rays,
                    o.gates >= 0,
            ;
            assert(0 <= row * o.gates && 0 <= more.len() * o.gates) by (nonlinear_arith);
        }
        out.blit_rows(&record.data, row * o.gates);
        proof {
            lemma_block_of_cells(bodies, more, o.rays as int, *o, out.words());
        }
        if sort_by_azimuth {
            let ghost before = azimuth@;
            azimuth.extend_from_slice(record.azimuth.as_slice());
            assert(azimuth@ =~= before + record.azimuth@);
            assert(azimuth@ =~= azimuths_in(bodies + more));
        }
        row = row + record.rows;
        k += 1;
    }
    if sort_by_azimuth {
        let ghost bodies = joined_bodies(streams, streams.len() as int);
        let order = angle_order(azimuth.as_slice());
        proof {
            lemma_rows_fit(streams, streams.len() as int, *o);
            assert(order@.len() == bodies.len());
            assert(order@.len() * o.gates <= o.rays * o.gates) by (nonlinear_arith)
                requires
                    order@.len() <= o.rays,
                    o.gates >= 0,
            ;
            lemma_permuted_cells(bodies, order@, o.rays as int, *o);
        }
        out.permute_rows(order.as_slice(), o.gates);
        assert(is_stable_order(order@, angle_keys(azimuths_in(bodies))));
    }
    Ok(out)
}

/// Demultiplex every stream, in order.
#[verifier::rlimit(40)]
fn demux_streams(texts: &[Vec<u8>], o: &DemuxOptions, want_azimuth: bool) -> (r: Result<
    Vec<RecordRows>,
    RadishError,
>)
    requires
        validation_error(*o) is None,
    ensures
        ({
            let streams = byte_strings(texts@);
            match r {
                Ok(records) => {
                    &&& streams_demux(streams, streams.len() as int, *o)
                    &&& records_are(records@, streams, *o, want_azimuth)
                },
                Err(e) => {
                    ||| exists|i: int| #[trigger] is_first_stream_failure(e, streams, i, *o)
                    ||| exists|i: int| #[trigger] is_stream_allocation(e, streams, i, *o)
                },
            }
        }),
{
    let ghost streams = byte_strings(texts@);
    let mut records: Vec<RecordRows> = Vec::new();
    let mut prior: usize = 0;
    let mut i: usize = 0;
    while i < texts.len()
        invariant
            i <= texts@.len(),
            byte_strings(texts@) == streams,
            validation_error(*o) is None,
            prior == joined_bodies(streams, i as int).len(),
            prior <= o.rays,
            streams_demux(streams, i as int, *o),
            records@.len() == i,
            forall|j: int|
                0 <= j < i ==> (#[trigger] records@[j]).is_of(
                    stream_bodies(streams[j])->Ok_0,
                    *o,
                    want_azimuth,
                ),
        decreases texts@.len() - i,
    {
        let ghost d = streams[i as int];
        assert(d == texts@[i as int]@);
        match demux_message_stream(texts[i].as_slice(), o, want_azimuth, prior) {
            Ok(rows) => {
                assert(joined_bodies(streams, i + 1).len() == prior + rows.rows);
                prior = prior + rows.rows;
                records.push(rows);
            },
            Err(e) => {
                proof {
                    lemma_stream_error(e, streams, i as int, *o);
                }
                return Err(e);
            },
        }
        i += 1;
    }
    Ok(records)
}

proof fn lemma_stream_error(e: RadishError, streams: Seq<Seq<u8>>, i: int, o: DemuxOptions)
    requires
        0 <= i < streams.len(),
        streams_demux(streams, i, o),
        ({
            let prior = joined_bodies(streams, i).len() as int;
            ||| !stream_demuxes(streams[i], prior, o) && is_stream_failure(e, streams[i], prior, o)
            ||| stream_fits(streams[i], prior, o) && is_allocation_failure(
                e,
                stream_bodies(streams[i])->Ok_0.len() * o.gates,
                o.word,
            )
        }),
    ensures
        (exists|i: int| #[trigger] is_first_stream_failure(e, streams, i, o)) || (exists|i: int|
            #[trigger] is_stream_allocation(e, streams, i, o)),
{
    let prior = joined_bodies(streams, i).len() as int;
    if !stream_demuxes(streams[i], prior, o) && is_stream_failure(e, streams[i], prior, o) {
        assert(is_first_stream_failure(e, streams, i, o));
    } else {
        assert(is_stream_allocation(e, streams, i, o));
    }
}

/// Demultiplex one moment out of a span of compressed records: `[i32 size]
/// [bzip2 payload]` repeated, behind an optional volume header. Records are
/// decompressed in parallel and their rows put together in record order.
///
/// With `sort_by_azimuth`, rows are stably sorted by azimuth, NaN last; rows of
/// fill values stay at the end.
pub fn decode_sweep_moment(span: &[u8], opts: &DemuxOptions, sort_by_azimuth: bool) -> (r: Result<
    RawMoment,
    RadishError,
>)
    ensures
        match r {
            Ok(out) => {
                &&& sweep_demuxes(span@, *opts)
                &&& out.word() == opts.word
                &&& is_sweep_output(
                    out.words(),
                    joined_bodies(span_streams(span@), span_streams(span@).len() as int),
                    *opts,
                    sort_by_azimuth,
                )
            },
            Err(e) => {
                ||| !sweep_demuxes(span@, *opts) && is_sweep_failure(e, span@, *opts)
                ||| validation_error(*opts) is None && span_decompresses(span@) && exists|i: int|
                    #[trigger] is_stream_allocation(e, span_streams(span@), i, *opts)
                ||| sweep_demuxes(span@, *opts) && is_allocation_failure(
                    e,
                    opts.rays * opts.gates,
                    opts.word,
                )
            },
        },
{
    opts.validate()?;
    let texts = decompress_span(span)?;
    let ghost streams = span_streams(span@);
    let records = demux_streams(texts.as_slice(), opts, sort_by_azimuth)?;
    stitch(records.as_slice(), opts, sort_by_azimuth, Ghost(streams))
}

/// A span of one record is demultiplexed like the record itself: on the same
/// conditions, and to the same words if the rows are not sorted.
pub proof fn a_single_record_demuxes_alike(span: Seq<u8>, o: DemuxOptions, words: Seq<int>)
    requires
        span_decompresses(span),
        span_streams(span).len() == 1,
    ensures
        sweep_demuxes(span, o) <==> record_demuxes(span_streams(span)[0], o),
        is_sweep_output(words, joined_bodies(span_streams(span), 1), o, false) <==> words
            == demuxed(stream_bodies(span_streams(span)[0])->Ok_0, o),
{
    reveal(stream_demuxes);
    let streams = span_streams(span);
    reveal_with_fuel(joined_bodies, 2);
    reveal_with_fuel(cross_error, 3);
    assert(joined_bodies(streams, 0).len() == 0);
    assert(joined_bodies(streams, 1) =~= stream_bodies(streams[0])->Ok_0);
    if sweep_demuxes(span, o) {
        assert(stream_demuxes(streams[0], 0, o));
    }
}

/// Sorting moves rows and changes none: the output is that of the same radials
/// in another order.
pub proof fn sorting_only_moves_rows(words: Seq<int>, bodies: Seq<Seq<u8>>, o: DemuxOptions)
    requires
        is_sweep_output(words, bodies, o, true),
    ensures
        exists|order: Seq<usize>|
            words == demuxed(#[trigger] reordered(bodies, order), o) && reordered(
                bodies,
                order,
            ).to_multiset() == bodies.to_multiset(),
{
    let keys = angle_keys(azimuths_in(bodies));
    let order = choose|order: Seq<usize>|
        #[trigger] is_stable_order(order, keys) && words == demuxed(reordered(bodies, order), o);
    reordering_keeps_items(bodies, order, keys);
    assert(reordered(bodies, order) =~= Seq::new(order.len(), |k: int| bodies[order[k] as int]));
}

/// Rows past the radials hold the fill value, sorted or not.
pub proof fn rows_past_the_radials_hold_the_fill_value(
    words: Seq<int>,
    bodies: Seq<Seq<u8>>,
    o: DemuxOptions,
    sort_by_azimuth: bool,
    row: int,
    gate: int,
)
    requires
        is_sweep_output(words, bodies, o, sort_by_azimuth),
        bodies.len() <= row < o.rays,
        0 <= gate < o.gates,
    ensures
        words[row * o.gates + gate] == o.fill_value,
{
    lemma_cell_index(row, o.gates as int, gate);
    lemma_row_end(row, o.gates as int, o.rays as int);
    if sort_by_azimuth {
        let order = choose|order: Seq<usize>|
            #[trigger] is_stable_order(order, angle_keys(azimuths_in(bodies))) && words == demuxed(
                reordered(bodies, order),
                o,
            );
        assert(reordered(bodies, order).len() == bodies.len());
    }
}

/// Too many rows are refused before their buffers exist: memory is asked for
/// only while the rows so far, those of the stream at hand counted, fit the
/// output.
pub proof fn memory_is_asked_for_rows_that_fit(
    e: RadishError,
    streams: Seq<Seq<u8>>,
    i: int,
    o: DemuxOptions,
)
    requires
        is_stream_allocation(e, streams, i, o),
    ensures
        joined_bodies(streams, i + 1).len() <= o.rays,
{
}

/// Two runs of streams, one behind the other, give the radials of the first and
/// then those of the second.
pub proof fn radials_keep_the_order_of_the_streams(a: Seq<Seq<u8>>, b: Seq<Seq<u8>>)
    ensures
        joined_bodies(a + b, (a + b).len() as int) == joined_bodies(a, a.len() as int)
            + joined_bodies(b, b.len() as int),
    decreases b.len(),
{
    let n = (a + b).len() as int;
    if b.len() == 0 {
        assert(a + b =~= a);
        assert(joined_bodies(a, n) + Seq::<Seq<u8>>::empty() =~= joined_bodies(a, n));
    } else {
        let rest = b.drop_last();
        radials_keep_the_order_of_the_streams(a, rest);
        lemma_joined_prefix(a + b, a + rest, n - 1);
        lemma_joined_prefix(b, rest, b.len() - 1);
        assert((a + b)[n - 1] == b.last());
        let (x, y) = (joined_bodies(a, a.len() as int), joined_bodies(rest, rest.len() as int));
        let z = stream_bodies(b.last())->Ok_0;
        assert((x + y) + z =~= x + (y + z));
    }
}

proof fn lemma_joined_prefix(a: Seq<Seq<u8>>, b: Seq<Seq<u8>>, n: int)
    requires
        n <= a.len(),
        n <= b.len(),
        forall|i: int| 0 <= i < n ==> #[trigger] a[i] == b[i],
    ensures
        joined_bodies(a, n) == joined_bodies(b, n),
    decreases n,
{
    if n > 0 {
        lemma_joined_prefix(a, b, n - 1);
    }
}

/// Sorted rows go from smaller azimuths to larger ones, with those that are not
/// numbers last; rows of one azimuth stay in the order of their records.
#[verifier::rlimit(50)]
pub proof fn sorted_rows_ascend_by_azimuth(words: Seq<int>, bodies: Seq<Seq<u8>>, o: DemuxOptions)
    requires
        is_sweep_output(words, bodies, o, true),
    ensures
        exists|order: Seq<usize>|
            {
                let angles = azimuths_in(bodies);
                &&& words == demuxed(#[trigger] reordered(bodies, order), o)
                &&& is_ascending_arrangement(
                    Seq::new(order.len(), |k: int| angles[order[k] as int]),
                    angles,
                )
                &&& forall|i: int, j: int|
                    0 <= i < j < order.len() && angles[#[trigger] order[i] as int]
                        == angles[#[trigger] order[j] as int] ==> order[i] < order[j]
            },
{
    let angles = azimuths_in(bodies);
    let keys = angle_keys(angles);
    let order = choose|order: Seq<usize>|
        #[trigger] is_stable_order(order, keys) && words == demuxed(reordered(bodies, order), o);
    key_order_arranges_by_number(angles, order);
    assert forall|i: int, j: int|
        0 <= i < j < order.len() && angles[#[trigger] order[i] as int]
            == angles[#[trigger] order[j] as int] implies order[i] < order[j] by {
        assert(precedes(keys, order[i], order[j]));
        assert(order[i] < keys.len() && order[j] < keys.len());
    }
    assert(words == demuxed(reordered(bodies, order), o));
}

/// The streams of a span are those that the decoder reads of a file: the part
/// behind the volume header where that is not compressed, else what each record
/// decompresses to, in order.
#[verifier::rlimit(50)]
pub proof fn spans_hold_the_streams_of_a_file(d: Seq<u8>)
    requires
        parts_decode(d),
    ensures
        span_decompresses(d),
        file_parts(d) == joined_parts(
            span_streams(d).map_values(|s: Seq<u8>| stream_parts(s)->Ok_0),
        ),
{
    let parts = span_streams(d).map_values(|s: Seq<u8>| stream_parts(s)->Ok_0);
    if raw_archive2(d) {
        assert(parts =~= seq![stream_parts(raw_body(d))->Ok_0]);
        one_record_contributes_its_parts(stream_parts(raw_body(d))->Ok_0);
    } else {
        let spans = ldm_records(d)->Ok_0;
        assert(parts =~= each_record_parts(spans));
        assert forall|i: int| 0 <= i < spans.len() implies bunzip2(
            (#[trigger] spans[i]).compressed,
        ) is Ok by {
            assert(record_decodes(spans[i]));
        }
    }
}

/// Streams that differ are named by their encodings, that of the earlier one
/// first.
#[verifier::rlimit(50)]
pub proof fn differing_streams_are_named_in_order(
    streams: Seq<Seq<u8>>,
    k: int,
    seen: Option<EncodingKey>,
    o: DemuxOptions,
)
    requires
        0 <= k <= streams.len(),
    ensures
        match cross_error(streams, k, seen, o) {
            Some(MomentEncodingError::MixedEncodings { moment, first, next }) => {
                &&& moment == o.moment && first != next && o.target is None
                &&& exists|j: int|
                    {
                        &&& k <= j < streams.len()
                        &&& stream_key(#[trigger] streams[j], o) == Some(next)
                        &&& seen == Some(first) || exists|i: int|
                            k <= i < j && stream_key(#[trigger] streams[i], o) == Some(first)
                    }
            },
            Some(_) => false,
            None => o.target is Some || forall|i: int, j: int|
                k <= i < streams.len() && k <= j < streams.len() && stream_key(
                    #[trigger] streams[i],
                    o,
                ) is Some && stream_key(#[trigger] streams[j], o) is Some ==> stream_key(
                    streams[i],
                    o,
                ) == stream_key(streams[j], o) && (seen is Some ==> stream_key(streams[i], o)
                    == seen),
        },
    decreases streams.len() - k,
{
    if o.target is None && k < streams.len() {
        let key = stream_key(streams[k], o);
        let next = if seen is Some {
            seen
        } else {
            key
        };
        differing_streams_are_named_in_order(streams, k + 1, next, o);
    }
}

/// A sweep request is refused for its options first, then for its records, then
/// for the streams.
pub proof fn sweep_requests_are_refused_in_order(e: RadishError, span: Seq<u8>, o: DemuxOptions)
    requires
        is_sweep_failure(e, span, o),
    ensures
        validation_error(o) matches Some(x) ==> e == RadishError::MomentEncoding(x),
        validation_error(o) is None && !span_decompresses(span) ==> is_span_error(e, span),
{
}

/// A stream with too many radials is refused with their number: that of its own if
/// these alone have no room, else that of all so far.
pub proof fn too_many_radials_are_counted(
    e: RadishError,
    d: Seq<u8>,
    prior: int,
    o: DemuxOptions,
)
    requires
        is_stream_failure(e, d, prior, o),
        stream_bodies(d) is Ok,
        prior >= 0,
        prior + stream_bodies(d)->Ok_0.len() <= usize::MAX,
        prior + stream_bodies(d)->Ok_0.len() > o.rays,
    ensures
        e matches RadishError::MomentEncoding(MomentEncodingError::TooManyRadials { rows, rays })
            && {
            let own = stream_bodies(d)->Ok_0.len();
            &&& rays == o.rays && rows > rays
            &&& own > o.rays ==> rows == own
            &&& own <= o.rays ==> rows == prior + own
        },
{
    reveal(is_stream_failure);
}

/// The memory that a stream is refused for is that of a word for each gate column
/// of each of its radials.
pub proof fn memory_is_counted_in_words(
    e: RadishError,
    streams: Seq<Seq<u8>>,
    i: int,
    o: DemuxOptions,
)
    requires
        is_stream_allocation(e, streams, i, o),
        stream_bodies(streams[i])->Ok_0.len() * o.gates <= usize::MAX,
    ensures
        e matches RadishError::MomentEncoding(MomentEncodingError::Allocation { len, word_size })
            && len == stream_bodies(streams[i])->Ok_0.len() * o.gates && word_size
            == o.word.width() && len > 0,
{
}

} // verus!
