//! LDM record splitting and decompression, and raw Archive II detection.
//!
//! A file is an optional 24-byte volume header followed by records: a signed
//! 32-bit size and that many bytes of a bzip2-compressed message stream. A
//! negative size marks a control record; its magnitude is the size all the
//! same. Files from before Build 12 hold the message stream itself instead;
//! four zero bytes behind the volume header tell them apart.

use crate::backends::common::parallel::par_map;
use crate::backends::nexrad::decode::error::{eof, NexradDecodeError};
use crate::wire::{be32, be32s, read_i32, read_u32};
use vstd::prelude::*;
use vstd::slice::slice_subrange;

verus! {

/// Width of the volume header.
pub const VOLUME_HEADER_SIZE: usize = 24;

/// Width of a record's size prefix.
pub const SIZE_PREFIX: usize = 4;

/// One record's compressed payload. `offset` is where its size prefix starts.
#[derive(Debug, Clone, Copy)]
pub struct LdmRecord<'a> {
    pub offset: usize,
    pub compressed: &'a [u8],
}

/// A record by its offset and its compressed bytes.
pub ghost struct RecordSpan {
    pub offset: int,
    pub compressed: Seq<u8>,
}

/// The letters `AR2V`, with which a volume header begins.
pub open spec fn ar2v() -> Seq<u8> {
    seq![0x41u8, 0x52, 0x32, 0x56]
}

/// Whether the input begins with a volume header.
pub open spec fn has_volume_header(d: Seq<u8>) -> bool {
    d.len() >= 4 && d.subrange(0, 4) == ar2v()
}

/// Magnitude of a size prefix.
pub open spec fn record_size(d: Seq<u8>, pos: int) -> int {
    if be32s(d, pos) < 0 {
        -be32s(d, pos)
    } else {
        be32s(d, pos) as int
    }
}

/// The records from offset `pos` on. Fewer than four bytes at the end are
/// ignored.
pub open spec fn records_from(d: Seq<u8>, pos: int) -> Result<Seq<RecordSpan>, NexradDecodeError>
    decreases d.len() - pos,
{
    let start = pos + SIZE_PREFIX;
    let end = start + record_size(d, pos);
    if pos < 0 || start > d.len() {
        Ok(Seq::empty())
    } else if end > usize::MAX {
        Err(
            NexradDecodeError::MalformedHeader {
                offset: pos as usize,
                reason: "LDM record size overflow",
            },
        )
    } else if end > d.len() {
        Err(eof(pos, SIZE_PREFIX + record_size(d, pos), d.len() as int))
    } else {
        match records_from(d, end) {
            Ok(rest) => Ok(
                seq![RecordSpan { offset: pos, compressed: d.subrange(start, end) }] + rest,
            ),
            Err(e) => Err(e),
        }
    }
}

/// The records of a file.
pub open spec fn ldm_records(d: Seq<u8>) -> Result<Seq<RecordSpan>, NexradDecodeError> {
    let first = if has_volume_header(d) {
        VOLUME_HEADER_SIZE as int
    } else {
        0
    };
    if d.len() < first + SIZE_PREFIX {
        Err(NexradDecodeError::UnsupportedRecordFormat)
    } else {
        records_from(d, first)
    }
}

proof fn lemma_records_tile(d: Seq<u8>, pos: int)
    requires
        pos >= 0,
        records_from(d, pos) is Ok,
    ensures
        records_tile(d, pos, records_from(d, pos)->Ok_0),
    decreases d.len() - pos,
{
    let start = pos + SIZE_PREFIX;
    if start <= d.len() {
        let end = start + record_size(d, pos);
        lemma_records_tile(d, end);
        let rest = records_from(d, end)->Ok_0;
        let all = records_from(d, pos)->Ok_0;
        assert(all[0] == (RecordSpan { offset: pos, compressed: d.subrange(start, end) }));
        assert forall|i: int| 0 <= i < all.len() implies {
            &&& span_end((#[trigger] all[i])) <= d.len()
            &&& all[i].compressed == d.subrange(all[i].offset + SIZE_PREFIX, span_end(all[i]))
            &&& all[i].compressed.len() == record_size(d, all[i].offset)
            &&& all[i].offset == (if i == 0 {
                pos
            } else {
                span_end(all[i - 1])
            })
        } by {
            if i > 0 {
                assert(all[i] == rest[i - 1]);
                if i > 1 {
                    assert(all[i - 1] == rest[i - 2]);
                }
            }
        }
        if rest.len() > 0 {
            assert(all.last() == rest.last());
        }
    }
}

/// Where a record ends.
pub open spec fn span_end(r: RecordSpan) -> int {
    r.offset + SIZE_PREFIX + r.compressed.len()
}

/// The records fill the file from `first` on, one directly behind the other,
/// each as long as its size prefix declares; fewer than four bytes are left
/// over.
pub open spec fn records_tile(d: Seq<u8>, first: int, records: Seq<RecordSpan>) -> bool {
    &&& forall|i: int|
        0 <= i < records.len() ==> {
            &&& span_end((#[trigger] records[i])) <= d.len()
            &&& records[i].compressed == d.subrange(
                records[i].offset + SIZE_PREFIX,
                span_end(records[i]),
            )
            &&& records[i].compressed.len() == record_size(d, records[i].offset)
            &&& records[i].offset == (if i == 0 {
                first
            } else {
                span_end(records[i - 1])
            })
        }
    &&& d.len() - (if records.len() == 0 {
        first
    } else {
        span_end(records.last())
    }) < SIZE_PREFIX
}

/// Splitting a file leaves nothing out: its records lie one directly behind the
/// other from the volume header, if there is one, to the end.
pub proof fn records_tile_the_file(d: Seq<u8>)
    requires
        ldm_records(d) is Ok,
    ensures
        records_tile(
            d,
            if has_volume_header(d) {
                VOLUME_HEADER_SIZE as int
            } else {
                0
            },
            ldm_records(d)->Ok_0,
        ),
{
    lemma_records_tile(
        d,
        if has_volume_header(d) {
            VOLUME_HEADER_SIZE as int
        } else {
            0
        },
    );
}

proof fn lemma_truncated_records(d: Seq<u8>, pos: int, k: int)
    requires
        pos >= 0,
        records_from(d, pos) is Ok,
        0 < k <= records_from(d, pos)->Ok_0.len(),
    ensures
        ({
            let records = records_from(d, pos)->Ok_0;
            let end = span_end(records[k - 1]);
            &&& pos + SIZE_PREFIX <= end <= d.len()
            &&& records_from(d.take(end), pos) == Ok::<Seq<RecordSpan>, NexradDecodeError>(
                records.take(k),
            )
        }),
    decreases k,
{
    let records = records_from(d, pos)->Ok_0;
    let start = pos + SIZE_PREFIX;
    let end = start + record_size(d, pos);
    let rest = records_from(d, end)->Ok_0;
    let first = RecordSpan { offset: pos, compressed: d.subrange(start, end) };
    assert(records == seq![first] + rest);
    let last_end = span_end(records[k - 1]);
    let cut = d.take(last_end);
    if k == 1 {
        assert(last_end == end);
        assert(records_from(cut, end) == Ok::<Seq<RecordSpan>, NexradDecodeError>(Seq::empty()));
        assert(cut.subrange(start, end) =~= d.subrange(start, end));
        assert(records.take(1) =~= seq![first] + Seq::<RecordSpan>::empty());
    } else {
        lemma_truncated_records(d, end, k - 1);
        assert(records[k - 1] == rest[k - 2]);
        assert(cut.subrange(start, end) =~= d.subrange(start, end));
        assert(records.take(k) =~= seq![first] + rest.take(k - 1));
    }
    assert(be32s(cut, pos) == be32s(d, pos)) by {
        assert(cut[pos] == d[pos] && cut[pos + 1] == d[pos + 1] && cut[pos + 2] == d[pos + 2]
            && cut[pos + 3] == d[pos + 3]);
    }
}

/// A file that is cut off behind its `k`-th record holds the first `k` records.
pub proof fn a_file_cut_off_behind_a_record_keeps_the_records_before(d: Seq<u8>, k: int)
    requires
        ldm_records(d) is Ok,
        0 < k <= ldm_records(d)->Ok_0.len(),
    ensures
        ({
            let records = ldm_records(d)->Ok_0;
            let cut = d.take(span_end(records[k - 1]));
            &&& ldm_records(cut) == Ok::<Seq<RecordSpan>, NexradDecodeError>(records.take(k))
            &&& raw_archive2(cut) == raw_archive2(d)
        }),
{
    let first = if has_volume_header(d) {
        VOLUME_HEADER_SIZE as int
    } else {
        0
    };
    lemma_truncated_records(d, first, k);
    let records = ldm_records(d)->Ok_0;
    let end = span_end(records[k - 1]);
    let cut = d.take(end);
    assert(cut.subrange(0, 4) =~= d.subrange(0, 4));
    if has_volume_header(d) {
        assert(be32(cut, 24) == be32(d, 24)) by {
            assert(cut[24] == d[24] && cut[25] == d[25] && cut[26] == d[26] && cut[27] == d[27]);
        }
    }
}

impl<'a> LdmRecord<'a> {
    /// `self` is the given record.
    pub open spec fn is(&self, span: RecordSpan) -> bool {
        self.offset == span.offset && self.compressed@ == span.compressed
    }
}

/// `records` are the given records, in order.
pub open spec fn are_records(records: Seq<LdmRecord<'_>>, spans: Seq<RecordSpan>) -> bool {
    &&& records.len() == spans.len()
    &&& forall|i: int| 0 <= i < spans.len() ==> (#[trigger] records[i]).is(spans[i])
}

/// Whether the input begins with a volume header.
pub fn starts_with_ar2v(bytes: &[u8]) -> (b: bool)
    ensures
        b == has_volume_header(bytes@),
{
    if bytes.len() < 4 {
        return false;
    }
    let b: bool = bytes[0] == 0x41 && bytes[1] == 0x52 && bytes[2] == 0x32 && bytes[3] == 0x56;
    proof {
        let head = bytes@.subrange(0, 4);
        assert(head[0] == bytes@[0] && head[1] == bytes@[1] && head[2] == bytes@[2] && head[3]
            == bytes@[3]);
        assert(ar2v()[0] == 0x41 && ar2v()[1] == 0x52 && ar2v()[2] == 0x32 && ar2v()[3] == 0x56);
        if b {
            assert(head =~= ar2v());
        }
    }
    b
}

/// Split a byte stream into its records, past the volume header if there is
/// one.
pub fn split_ldm_records<'a>(bytes: &'a [u8]) -> (r: Result<Vec<LdmRecord<'a>>, NexradDecodeError>)
    ensures
        match r {
            Ok(records) => {
                &&& ldm_records(bytes@) is Ok
                &&& are_records(records@, ldm_records(bytes@)->Ok_0)
            },
            Err(e) => ldm_records(bytes@) == Err::<Seq<RecordSpan>, NexradDecodeError>(e),
        },
{
    let ghost d = bytes@;
    let len: usize = bytes.len();
    let mut pos: usize = if starts_with_ar2v(bytes) {
        VOLUME_HEADER_SIZE
    } else {
        0
    };
    if len < pos + SIZE_PREFIX {
        return Err(NexradDecodeError::UnsupportedRecordFormat);
    }
    let ghost first = pos as int;
    let mut records: Vec<LdmRecord<'a>> = Vec::new();
    let ghost mut done: Seq<RecordSpan> = Seq::empty();
    proof {
        if let Ok(all) = records_from(d, first) {
            assert(done + all =~= all);
        }
    }
    while SIZE_PREFIX <= len - pos
        invariant
            d == bytes@,
            len == d.len(),
            pos <= len,
            are_records(records@, done),
            match records_from(d, pos as int) {
                Ok(rest) => records_from(d, first) == Ok::<Seq<RecordSpan>, NexradDecodeError>(
                    done + rest,
                ),
                Err(e) => records_from(d, first) == Err::<Seq<RecordSpan>, NexradDecodeError>(e),
            },
            ldm_records(d) == records_from(d, first),
        decreases len - pos,
    {
        let payload_start: usize = pos + SIZE_PREFIX;
        let raw_size: i32 = read_i32(slice_subrange(bytes, pos, payload_start));
        assert(raw_size == be32s(d, pos as int));
        let size: usize = if raw_size < 0 {
            (-(raw_size as i64)) as usize
        } else {
            raw_size as usize
        };
        let payload_end: usize = match payload_start.checked_add(size) {
            Some(end) => end,
            None => {
                return Err(
                    NexradDecodeError::MalformedHeader {
                        offset: pos,
                        reason: "LDM record size overflow",
                    },
                );
            },
        };
        if payload_end > len {
            return Err(
                NexradDecodeError::UnexpectedEof {
                    offset: pos,
                    needed: SIZE_PREFIX + size,
                    available: len - pos,
                },
            );
        }
        let compressed = slice_subrange(bytes, payload_start, payload_end);
        let ghost span = RecordSpan { offset: pos as int, compressed: compressed@ };
        records.push(LdmRecord { offset: pos, compressed });
        proof {
            if let Ok(rest) = records_from(d, payload_end as int) {
                assert(done + (seq![span] + rest) =~= done.push(span) + rest);
            }
            done = done.push(span);
        }
        pos = payload_end;
    }
    assert(records_from(d, pos as int) == Ok::<Seq<RecordSpan>, NexradDecodeError>(Seq::empty()));
    assert(done + Seq::<RecordSpan>::empty() =~= done);
    Ok(records)
}

/// What decompressing a byte string gives: the data, or a description of what
/// is wrong with it.
pub uninterp spec fn bunzip2(compressed: Seq<u8>) -> Result<Seq<u8>, Seq<char>>;

/// `bzip2::read::BzDecoder` read to its end: the data of the first bzip2
/// stream in `compressed`, or the text of the error that ended the reading.
/// Nothing is said of what the data is.
#[verifier::external_body]
fn read_bzip2(compressed: &[u8]) -> (r: Result<Vec<u8>, String>)
    ensures
        match r {
            Ok(data) => bunzip2(compressed@) == Ok::<Seq<u8>, Seq<char>>(data@),
            Err(text) => bunzip2(compressed@) == Err::<Seq<u8>, Seq<char>>(text@),
        },
{
    let mut out = Vec::new();
    let mut decoder = bzip2::read::BzDecoder::new(compressed);
    match std::io::Read::read_to_end(&mut decoder, &mut out) {
        Ok(_) => Ok(out),
        Err(source) => Err(source.to_string()),
    }
}

/// `r` is what decompressing the record at `offset` gives.
pub open spec fn is_decompressed(
    r: Result<Vec<u8>, NexradDecodeError>,
    offset: int,
    compressed: Seq<u8>,
) -> bool {
    match r {
        Ok(data) => bunzip2(compressed) == Ok::<Seq<u8>, Seq<char>>(data@),
        Err(NexradDecodeError::Decompression { offset: at, source }) => at == offset && bunzip2(
            compressed,
        ) == Err::<Seq<u8>, Seq<char>>(source@),
        Err(_) => false,
    }
}

/// Decompress one record's payload.
pub fn decompress(record: &LdmRecord<'_>) -> (r: Result<Vec<u8>, NexradDecodeError>)
    ensures
        is_decompressed(r, record.offset as int, record.compressed@),
{
    match read_bzip2(record.compressed) {
        Ok(data) => Ok(data),
        Err(source) => Err(NexradDecodeError::Decompression { offset: record.offset, source }),
    }
}

/// Decompress every record in parallel, preserving input order. If any record
/// is damaged the result is the error of one such record.
pub fn decompress_all(records: &[LdmRecord<'_>]) -> (r: Result<Vec<Vec<u8>>, NexradDecodeError>)
    ensures
        match r {
            Ok(out) => {
                &&& out@.len() == records@.len()
                &&& forall|i: int|
                    0 <= i < records@.len() ==> bunzip2((#[trigger] records@[i]).compressed@)
                        == Ok::<Seq<u8>, Seq<char>>(out@[i]@)
            },
            Err(e) => exists|i: int|
                0 <= i < records@.len() && is_decompressed(
                    Err(e),
                    (#[trigger] records@[i]).offset as int,
                    records@[i].compressed@,
                ),
        },
{
    par_map(records, decompress)
}

/// Whether the input is a raw Archive II file: a volume header with four zero
/// bytes behind it.
pub open spec fn raw_archive2(d: Seq<u8>) -> bool {
    &&& d.len() >= VOLUME_HEADER_SIZE + SIZE_PREFIX
    &&& has_volume_header(d)
    &&& be32(d, VOLUME_HEADER_SIZE as int) == 0
}

/// Whether `bytes` are a raw Archive II file. Input without a volume header is
/// taken for a record stream.
pub fn is_raw_archive2(bytes: &[u8]) -> (b: bool)
    ensures
        b == raw_archive2(bytes@),
{
    bytes.len() >= VOLUME_HEADER_SIZE + SIZE_PREFIX && starts_with_ar2v(bytes) && read_u32(
        slice_subrange(bytes, VOLUME_HEADER_SIZE, VOLUME_HEADER_SIZE + SIZE_PREFIX),
    ) == 0
}

/// The message stream of a raw Archive II file: everything behind the volume
/// header.
pub fn raw_archive2_body<'a>(bytes: &'a [u8]) -> (r: Result<&'a [u8], NexradDecodeError>)
    ensures
        match r {
            Ok(body) => {
                &&& bytes@.len() >= VOLUME_HEADER_SIZE
                &&& body@ == bytes@.subrange(VOLUME_HEADER_SIZE as int, bytes@.len() as int)
            },
            Err(e) => {
                &&& bytes@.len() < VOLUME_HEADER_SIZE
                &&& e == eof(0, VOLUME_HEADER_SIZE as int, bytes@.len() as int)
            },
        },
{
    let len: usize = bytes.len();
    if len < VOLUME_HEADER_SIZE {
        return Err(
            NexradDecodeError::UnexpectedEof {
                offset: 0,
                needed: VOLUME_HEADER_SIZE,
                available: len,
            },
        );
    }
    Ok(slice_subrange(bytes, VOLUME_HEADER_SIZE, len))
}

/// Record `i` of a file is as long as the four bytes in front of it say, whatever
/// their sign, and holds the bytes that follow them. The first lies behind the 24
/// bytes of a volume header, if the file begins with `AR2V`, and each other one
/// directly behind the one before.
pub proof fn records_are_as_long_as_they_declare(d: Seq<u8>, i: int)
    requires
        ldm_records(d) is Ok,
        0 <= i < ldm_records(d)->Ok_0.len(),
    ensures
        ({
            let records = ldm_records(d)->Ok_0;
            let r = records[i];
            let n = r.compressed.len() as int;
            let headed = d[0] == 'A' as u8 && d[1] == 'R' as u8 && d[2] == '2' as u8 && d[3]
                == 'V' as u8;
            &&& be32s(d, r.offset) == n || be32s(d, r.offset) == -n
            &&& 0 <= r.offset && r.offset + 4 + n <= d.len()
            &&& r.compressed == d.subrange(r.offset + 4, r.offset + 4 + n)
            &&& i == 0 ==> r.offset == (if headed {
                24int
            } else {
                0
            })
            &&& i > 0 ==> r.offset == records[i - 1].offset + 4 + records[i - 1].compressed.len()
        }),
{
    records_tile_the_file(d);
    let records = ldm_records(d)->Ok_0;
    lemma_offsets(d, i);
    volume_headers_begin_with_ar2v(d);
    assert(span_end(records[i]) <= d.len());
}

proof fn lemma_offsets(d: Seq<u8>, i: int)
    requires
        ldm_records(d) is Ok,
        0 <= i < ldm_records(d)->Ok_0.len(),
    ensures
        ldm_records(d)->Ok_0[i].offset >= 0,
    decreases i,
{
    records_tile_the_file(d);
    let records = ldm_records(d)->Ok_0;
    assert(span_end(records[i]) <= d.len());
    if i > 0 {
        lemma_offsets(d, i - 1);
    }
}

/// A volume header begins with the letters `AR2V`.
pub proof fn volume_headers_begin_with_ar2v(d: Seq<u8>)
    ensures
        has_volume_header(d) <==> d.len() >= 4 && d[0] == 'A' as u8 && d[1] == 'R' as u8 && d[2]
            == '2' as u8 && d[3] == 'V' as u8,
{
    if d.len() >= 4 {
        let head = d.subrange(0, 4);
        assert(head[0] == d[0] && head[1] == d[1] && head[2] == d[2] && head[3] == d[3]);
        assert(ar2v()[0] == 0x41 && ar2v()[1] == 0x52 && ar2v()[2] == 0x32 && ar2v()[3] == 0x56);
        if d[0] == 0x41 && d[1] == 0x52 && d[2] == 0x32 && d[3] == 0x56 {
            assert(head =~= ar2v());
        }
    }
}

/// A file is one raw stream if it has a volume header and the four bytes behind
/// its 24 are zero.
pub proof fn raw_files_have_no_first_size(d: Seq<u8>)
    ensures
        raw_archive2(d) <==> d.len() >= 28 && has_volume_header(d) && d[24] == 0 && d[25] == 0
            && d[26] == 0 && d[27] == 0,
{
}

/// A file that breaks off in its first record is refused with what it lacks: the
/// record as a whole, its four bytes of size counted.
pub proof fn files_that_break_off_are_refused(d: Seq<u8>)
    requires
        d.len() <= usize::MAX,
    ensures
        ({
            let first = if has_volume_header(d) {
                24int
            } else {
                0
            };
            let size = be32s(d, first);
            let n = if size < 0 {
                -size
            } else {
                size as int
            };
            let len = d.len() as int;
            &&& len < first + 4 ==> ldm_records(d) == Err::<Seq<RecordSpan>, NexradDecodeError>(
                NexradDecodeError::UnsupportedRecordFormat,
            )
            &&& first + 4 <= len < first + 4 + n <= usize::MAX ==> ldm_records(d) == Err::<
                Seq<RecordSpan>,
                NexradDecodeError,
            >(eof(first, 4 + n, len))
        }),
{
}

} // verus!
